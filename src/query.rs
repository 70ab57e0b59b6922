//! The `{name, birthday}` pair as a URL query string.
use vstd::prelude::*;

use crate::calendar::{
    date_of_text, format_iso, iso_text, lemma_date_of_iso_text, lemma_iso_text_chars, parse_iso, Date,
};

verus! {

/// The bytes that form encoding leaves as they are.
pub open spec fn is_url_safe(c: char) -> bool {
    c == '*' || c == '-' || c == '.' || c == '_' || ('0' <= c && c <= '9') || ('A' <= c && c
        <= 'Z') || ('a' <= c && c <= 'z')
}

pub open spec fn all_url_safe(s: Seq<char>) -> bool {
    forall|i: int| 0 <= i < s.len() ==> is_url_safe(#[trigger] s[i])
}

/// What `application/x-www-form-urlencoded` serialisation makes of a text.
pub uninterp spec fn form_encoded(s: Seq<char>) -> Seq<char>;

/// A value as it stands in a query string.
pub open spec fn encoded_value(s: Seq<char>) -> Seq<char> {
    if all_url_safe(s) {
        s
    } else {
        form_encoded(s)
    }
}

/// Relies on `form_urlencoded::byte_serialize`: a text whose bytes are all
/// letters, digits or `*-._` comes out unchanged.
#[verifier::external_body]
fn form_encode(s: &str) -> (r: String)
    ensures
        r@ == encoded_value(s@),
        !all_url_safe(s@) ==> r@ == form_encoded(s@),
{
    url::form_urlencoded::byte_serialize(s.as_bytes()).collect()
}

/// The key/value pairs that `application/x-www-form-urlencoded` parsing
/// finds in a text.
pub uninterp spec fn form_pairs(q: Seq<char>) -> Seq<(Seq<char>, Seq<char>)>;

/// A query with nothing to decode: no `%` escapes and no `+`.
pub open spec fn is_plain_query(q: Seq<char>) -> bool {
    forall|i: int| 0 <= i < q.len() ==> #[trigger] q[i] != '%' && q[i] != '+'
}

/// Where `c` first occurs in `s`, or the length of `s`.
pub open spec fn index_of(s: Seq<char>, c: char) -> nat
    decreases s.len(),
{
    if s.len() == 0 {
        0
    } else if s[0] == c {
        0
    } else {
        1 + index_of(s.drop_first(), c)
    }
}

/// A `key=value` segment split at its first `=`; without one, the value is
/// empty.
pub open spec fn pair_of(seg: Seq<char>) -> (Seq<char>, Seq<char>) {
    let j = index_of(seg, '=');
    (seg.take(j as int), if j < seg.len() {
        seg.skip(j as int + 1)
    } else {
        Seq::empty()
    })
}

/// The pairs of a plain query: its `&`-separated segments, empty ones
/// skipped.
pub open spec fn plain_pairs(q: Seq<char>) -> Seq<(Seq<char>, Seq<char>)>
    decreases q.len(),
{
    if q.len() == 0 {
        Seq::empty()
    } else {
        let i = index_of(q, '&');
        let seg = q.take(i as int);
        if i < q.len() {
            if seg.len() == 0 {
                plain_pairs(q.skip(i as int + 1))
            } else {
                seq![pair_of(seg)] + plain_pairs(q.skip(i as int + 1))
            }
        } else {
            seq![pair_of(q)]
        }
    }
}

pub open spec fn query_pairs(q: Seq<char>) -> Seq<(Seq<char>, Seq<char>)> {
    if is_plain_query(q) {
        plain_pairs(q)
    } else {
        form_pairs(q)
    }
}

pub open spec fn pairs_view(v: Seq<(String, String)>) -> Seq<(Seq<char>, Seq<char>)> {
    v.map_values(|p: (String, String)| (p.0@, p.1@))
}

/// Relies on `form_urlencoded::parse`: on a query without `%` and `+`,
/// the `&`-separated segments split at their first `=`, empty ones skipped.
#[verifier::external_body]
fn form_parse(q: &str) -> (r: Vec<(String, String)>)
    ensures
        pairs_view(r@) == query_pairs(q@),
        !is_plain_query(q@) ==> pairs_view(r@) == form_pairs(q@),
{
    url::form_urlencoded::parse(q.as_bytes()).into_owned().collect()
}

/// The value of the last pair with this key.
pub open spec fn last_value(pairs: Seq<(Seq<char>, Seq<char>)>, key: Seq<char>) -> Option<
    Seq<char>,
>
    decreases pairs.len(),
{
    if pairs.len() == 0 {
        None
    } else if pairs.last().0 == key {
        Some(pairs.last().1)
    } else {
        last_value(pairs.drop_last(), key)
    }
}

pub open spec fn name_key() -> Seq<char> {
    seq!['n', 'a', 'm', 'e']
}

pub open spec fn birthday_key() -> Seq<char> {
    seq!['b', 'i', 'r', 't', 'h', 'd', 'a', 'y']
}

/// The name and birthday that a list of pairs holds.
pub open spec fn params_of_pairs(pairs: Seq<(Seq<char>, Seq<char>)>) -> (Seq<char>, Option<Date>) {
    (
        match last_value(pairs, name_key()) {
            Some(v) => v,
            None => Seq::empty(),
        },
        match last_value(pairs, birthday_key()) {
            Some(v) => date_of_text(v),
            None => None,
        },
    )
}

/// The query without one leading `?`.
pub open spec fn without_question_mark(q: Seq<char>) -> Seq<char> {
    if q.len() > 0 && q[0] == '?' {
        q.drop_first()
    } else {
        q
    }
}

/// The name and birthday that a query string holds.
pub open spec fn decoded(q: Seq<char>) -> (Seq<char>, Option<Date>) {
    params_of_pairs(query_pairs(without_question_mark(q)))
}

/// A query string from its encoded values: `name=` if there is a name,
/// `birthday=` if there is a birthday, joined by `&`.
pub open spec fn joined_query(name: Option<Seq<char>>, birthday: Option<Seq<char>>) -> Seq<char> {
    let name_part = match name {
        Some(v) => name_key() + seq!['='] + v,
        None => Seq::empty(),
    };
    match birthday {
        None => name_part,
        Some(b) => (if name is Some {
            name_part + seq!['&']
        } else {
            Seq::empty()
        }) + birthday_key() + seq!['='] + b,
    }
}

/// The query string for a name and birthday: the name when it is not empty,
/// the birthday when there is one.
pub open spec fn encoded_text(p: (Seq<char>, Option<Date>)) -> Seq<char> {
    joined_query(
        if p.0.len() > 0 {
            Some(encoded_value(p.0))
        } else {
            None
        },
        match p.1 {
            Some(d) => Some(encoded_value(iso_text(d))),
            None => None,
        },
    )
}

/// Joins encoded values into a query string.
pub fn join_query(name: Option<String>, birthday: Option<String>) -> (r: String)
    ensures
        r@ == joined_query(
            match name {
                Some(v) => Some(v@),
                None => None,
            },
            match birthday {
                Some(v) => Some(v@),
                None => None,
            },
        ),
{
    proof {
        reveal_strlit("name=");
        reveal_strlit("birthday=");
        reveal_strlit("&");
    }
    let mut out = String::new();
    let has_name = name.is_some();
    if let Some(v) = &name {
        out.append("name=");
        out.append(v.as_str());
    }
    if let Some(v) = &birthday {
        if has_name {
            out.append("&");
        }
        out.append("birthday=");
        out.append(v.as_str());
    }
    assert(out@ =~= joined_query(
        match name {
            Some(v) => Some(v@),
            None => None,
        },
        match birthday {
            Some(v) => Some(v@),
            None => None,
        },
    ));
    out
}

/// The part of the state that the page's query string mirrors.
pub struct QueryParams {
    pub name: String,
    pub birthday: Option<Date>,
}

impl View for QueryParams {
    type V = (Seq<char>, Option<Date>);

    open spec fn view(&self) -> (Seq<char>, Option<Date>) {
        (self.name@, self.birthday)
    }
}

impl QueryParams {
    pub open spec fn wf(&self) -> bool {
        self.birthday matches Some(d) ==> d.wf()
    }

    /// The name and birthday in a list of decoded pairs: the last `name`
    /// (empty if none) and the date of the last `birthday`, if it is one.
    pub fn from_pairs(pairs: &Vec<(String, String)>) -> (r: QueryParams)
        ensures
            r@ == params_of_pairs(pairs_view(pairs@)),
            r.wf(),
    {
        proof {
            reveal_strlit("name");
            reveal_strlit("birthday");
        }
        let name_key_text = String::from_str("name");
        let birthday_key_text = String::from_str("birthday");
        let ghost pv = pairs_view(pairs@);
        let mut name: Option<&String> = None;
        let mut birthday: Option<&String> = None;
        let mut i: usize = 0;
        while i < pairs.len()
            invariant
                i <= pairs.len(),
                pv == pairs_view(pairs@),
                name_key_text@ == name_key(),
                birthday_key_text@ == birthday_key(),
                match name {
                    Some(v) => last_value(pv.take(i as int), name_key()) == Some(v@),
                    None => last_value(pv.take(i as int), name_key()) is None,
                },
                match birthday {
                    Some(v) => last_value(pv.take(i as int), birthday_key()) == Some(v@),
                    None => last_value(pv.take(i as int), birthday_key()) is None,
                },
            decreases pairs.len() - i,
        {
            let pair = &pairs[i];
            assert(pv.take(i + 1).drop_last() =~= pv.take(i as int));
            assert(pv.take(i + 1).last() == (pair.0@, pair.1@));
            if pair.0 == name_key_text {
                name = Some(&pair.1);
            }
            if pair.0 == birthday_key_text {
                birthday = Some(&pair.1);
            }
            i = i + 1;
        }
        assert(pv.take(i as int) =~= pv);
        let name = match name {
            Some(v) => v.clone(),
            None => String::new(),
        };
        let birthday = match birthday {
            Some(v) => parse_iso(v.as_str()),
            None => None,
        };
        QueryParams { name, birthday }
    }

    /// Reads a query string, with or without a leading `?`. A missing name
    /// is empty; a missing or unreadable birthday is absent.
    pub fn decode(query: &str) -> (r: QueryParams)
        ensures
            r@ == decoded(query@),
            r.wf(),
    {
        let n = query.unicode_len();
        let body = if n > 0 && query.get_char(0) == '?' {
            query.substring_char(1, n)
        } else {
            query
        };
        assert(body@ =~= without_question_mark(query@));
        QueryParams::from_pairs(&form_parse(body))
    }

    /// Writes the query string, without a leading `?`.
    pub fn encode(&self) -> (r: String)
        requires
            self.wf(),
        ensures
            r@ == encoded_text(self@),
    {
        let name = if self.name.as_str().unicode_len() > 0 {
            Some(form_encode(self.name.as_str()))
        } else {
            None
        };
        let birthday = match &self.birthday {
            Some(d) => Some(form_encode(format_iso(d).as_str())),
            None => None,
        };
        join_query(name, birthday)
    }
}

/// No `&`, and nothing for the decoder to undo.
spec fn is_quiet(s: Seq<char>) -> bool {
    forall|i: int| 0 <= i < s.len() ==> #[trigger] s[i] != '&' && s[i] != '%' && s[i] != '+'
}

/// Quiet, and no `=` either.
spec fn is_inert(s: Seq<char>) -> bool {
    is_quiet(s) && forall|i: int| 0 <= i < s.len() ==> #[trigger] s[i] != '='
}

proof fn lemma_quiet_concat(a: Seq<char>, b: Seq<char>)
    requires
        is_quiet(a),
        is_quiet(b),
    ensures
        is_quiet(a + b),
{
    assert forall|i: int| 0 <= i < (a + b).len() implies #[trigger] (a + b)[i] != '&' && (a
        + b)[i] != '%' && (a + b)[i] != '+' by {
        if i >= a.len() {
            assert((a + b)[i] == b[i - a.len()]);
        }
    };
}

proof fn lemma_index_of_absent(s: Seq<char>, c: char)
    requires
        forall|i: int| 0 <= i < s.len() ==> s[i] != c,
    ensures
        index_of(s, c) == s.len(),
    decreases s.len(),
{
    if s.len() > 0 {
        lemma_index_of_absent(s.drop_first(), c);
    }
}

proof fn lemma_index_of_after(a: Seq<char>, b: Seq<char>, c: char)
    requires
        forall|i: int| 0 <= i < a.len() ==> a[i] != c,
    ensures
        index_of(a + b, c) == a.len() + index_of(b, c),
    decreases a.len(),
{
    if a.len() == 0 {
        assert(a + b =~= b);
    } else {
        assert((a + b).drop_first() =~= a.drop_first() + b);
        lemma_index_of_after(a.drop_first(), b, c);
    }
}

/// A `key=value` segment splits back into its key and value.
proof fn lemma_pair_of(key: Seq<char>, value: Seq<char>)
    requires
        forall|i: int| 0 <= i < key.len() ==> key[i] != '=',
    ensures
        pair_of(key + seq!['='] + value) == (key, value),
{
    let seg = key + seq!['='] + value;
    assert(seg =~= key + (seq!['='] + value));
    lemma_index_of_after(key, seq!['='] + value, '=');
    assert(index_of(seq!['='] + value, '=') == 0);
    assert(seg.take(key.len() as int) =~= key);
    assert(seg.skip(key.len() as int + 1) =~= value);
}

/// A nonempty segment without `&` is one pair.
proof fn lemma_plain_pairs_one(seg: Seq<char>)
    requires
        seg.len() > 0,
        forall|i: int| 0 <= i < seg.len() ==> seg[i] != '&',
    ensures
        plain_pairs(seg) == seq![pair_of(seg)],
{
    lemma_index_of_absent(seg, '&');
}

/// A nonempty segment without `&`, then `&`, then more segments.
proof fn lemma_plain_pairs_first(seg: Seq<char>, rest: Seq<char>)
    requires
        seg.len() > 0,
        forall|i: int| 0 <= i < seg.len() ==> seg[i] != '&',
    ensures
        plain_pairs(seg + seq!['&'] + rest) == seq![pair_of(seg)] + plain_pairs(rest),
{
    let q = seg + seq!['&'] + rest;
    assert(q =~= seg + (seq!['&'] + rest));
    lemma_index_of_after(seg, seq!['&'] + rest, '&');
    assert(index_of(seq!['&'] + rest, '&') == 0);
    assert(q.take(seg.len() as int) =~= seg);
    assert(q.skip(seg.len() as int + 1) =~= rest);
}

proof fn lemma_keys_inert()
    ensures
        is_inert(name_key()),
        is_inert(birthday_key()),
        name_key() != birthday_key(),
{
    let nk = name_key();
    let bk = birthday_key();
    assert forall|i: int| 0 <= i < nk.len() implies 'a' <= #[trigger] nk[i] <= 'z' by {
        if i == 0 {
        } else if i == 1 {
        } else if i == 2 {
        } else {
        }
    };
    assert forall|i: int| 0 <= i < bk.len() implies 'a' <= #[trigger] bk[i] <= 'z' by {
        if i == 0 {
        } else if i == 1 {
        } else if i == 2 {
        } else if i == 3 {
        } else if i == 4 {
        } else if i == 5 {
        } else if i == 6 {
        } else {
        }
    };
    assert(nk.len() != bk.len());
}

/// `key=value`, for an inert key and a quiet value, is a quiet segment that
/// splits back into the two.
proof fn lemma_segment(key: Seq<char>, value: Seq<char>)
    requires
        key.len() > 0,
        is_inert(key),
        is_quiet(value),
    ensures
        is_quiet(key + seq!['='] + value),
        (key + seq!['='] + value).len() > 0,
        pair_of(key + seq!['='] + value) == (key, value),
{
    assert(is_quiet(seq!['=']));
    lemma_quiet_concat(key, seq!['=']);
    lemma_quiet_concat(key + seq!['='], value);
    lemma_pair_of(key, value);
}

/// Decoding what `encode` writes gives back the name and the birthday, for
/// a name of letters, digits and `*-._`, and a birthday up to year 9999.
pub proof fn lemma_round_trip(name: Seq<char>, birthday: Option<Date>)
    requires
        all_url_safe(name),
        birthday matches Some(d) ==> d.wf() && d.year <= 9999,
    ensures
        decoded(encoded_text((name, birthday))) == (name, birthday),
{
    lemma_keys_inert();
    let q = encoded_text((name, birthday));
    let name_seg = name_key() + seq!['='] + name;
    assert(is_quiet(name));
    lemma_segment(name_key(), name);
    assert(encoded_value(name) == name);
    match birthday {
        None => {
            if name.len() == 0 {
                assert(q =~= Seq::<char>::empty());
                assert(name =~= Seq::<char>::empty());
                assert(without_question_mark(q) == q);
                assert(is_plain_query(q));
                assert(query_pairs(q) =~= Seq::empty());
                assert(params_of_pairs(Seq::empty()) == (name, birthday));
                assert(decoded(q) == (name, birthday));
            } else {
                assert(q == name_seg);
                assert(q[0] == 'n');
                assert(without_question_mark(q) == q);
                assert(is_plain_query(q));
                lemma_plain_pairs_one(name_seg);
                let pairs = plain_pairs(q);
                assert(query_pairs(q) == pairs);
                assert(pairs =~= seq![(name_key(), name)]);
                assert(pairs.drop_last() =~= Seq::empty());
                assert(last_value(pairs, name_key()) == Some(name));
                assert(last_value(pairs.drop_last(), birthday_key()) is None);
                assert(last_value(pairs, birthday_key()) is None);
                assert(params_of_pairs(pairs) == (name, birthday));
                assert(decoded(q) == (name, birthday));
            }
        },
        Some(d) => {
            let iso = iso_text(d);
            lemma_iso_text_chars(d);
            assert(is_quiet(iso));
            assert(all_url_safe(iso));
            assert(encoded_value(iso) == iso);
            let bseg = birthday_key() + seq!['='] + iso;
            lemma_segment(birthday_key(), iso);
            lemma_date_of_iso_text(d);
            lemma_plain_pairs_one(bseg);
            if name.len() == 0 {
                assert(q =~= bseg);
                assert(q[0] == 'b');
                assert(name =~= Seq::<char>::empty());
                assert(without_question_mark(q) == q);
                assert(is_plain_query(q));
                let pairs = plain_pairs(q);
                assert(pairs =~= seq![(birthday_key(), iso)]);
                assert(pairs.drop_last() =~= Seq::empty());
                assert(last_value(pairs.drop_last(), name_key()) is None);
                assert(last_value(pairs, name_key()) is None);
                assert(last_value(pairs, birthday_key()) == Some(iso));
                assert(params_of_pairs(pairs) == (name, birthday));
                assert(decoded(q) == (name, birthday));
            } else {
                assert(q =~= name_seg + seq!['&'] + bseg);
                assert(q[0] == 'n');
                lemma_plain_pairs_first(name_seg, bseg);
                assert forall|i: int| 0 <= i < q.len() implies #[trigger] q[i] != '%' && q[i]
                    != '+' by {
                    let k = name_seg.len() as int;
                    if i < k {
                        assert(q[i] == name_seg[i]);
                    } else if i > k {
                        assert(q[i] == bseg[i - k - 1]);
                    }
                };
                let pairs = plain_pairs(q);
                assert(pairs =~= seq![(name_key(), name), (birthday_key(), iso)]);
                assert(pairs.drop_last() =~= seq![(name_key(), name)]);
                assert(pairs.drop_last().drop_last() =~= Seq::empty());
                assert(without_question_mark(q) == q);
                assert(last_value(pairs.drop_last(), name_key()) == Some(name));
                assert(last_value(pairs, name_key()) == Some(name));
                assert(last_value(pairs, birthday_key()) == Some(iso));
                assert(params_of_pairs(pairs) == (name, birthday));
                assert(decoded(q) == (name, birthday));
            }
        },
    }
}

/// A leading `?` makes no difference to what a query decodes to.
pub proof fn lemma_leading_question_mark(q: Seq<char>)
    requires
        q.len() == 0 || q[0] != '?',
    ensures
        decoded(seq!['?'] + q) == decoded(q),
{
    assert((seq!['?'] + q).drop_first() =~= q);
}

} // verus!
