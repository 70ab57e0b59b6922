//! Grouping separators in decimal number strings.
use vstd::prelude::*;

verus! {

/// The items still to come from an interspersing iterator: `rest` are the
/// inner items not yet taken, `count` how many of the current chunk were
/// already handed out, `k` the chunk length.
pub open spec fn interspersed(rest: Seq<char>, count: nat, sep: char, k: nat) -> Seq<char>
    decreases rest.len(),
{
    if rest.len() == 0 {
        Seq::empty()
    } else if count == k {
        seq![sep, rest[0]] + interspersed(rest.drop_first(), 1, sep, k)
    } else {
        seq![rest[0]] + interspersed(rest.drop_first(), count + 1, sep, k)
    }
}

/// `s` cut into chunks of three from the front, joined by `sep`.
pub open spec fn chunks_of_three(s: Seq<char>, sep: char) -> Seq<char>
    decreases s.len(),
{
    if s.len() <= 3 {
        s
    } else {
        s.take(3) + seq![sep] + chunks_of_three(s.skip(3), sep)
    }
}

/// The digits `s` with a comma before every group of three, counted from
/// the last digit.
pub open spec fn grouped(s: Seq<char>) -> Seq<char>
    decreases s.len(),
{
    if s.len() <= 3 {
        s
    } else {
        grouped(s.take(s.len() - 3)) + seq![','] + s.skip(s.len() - 3)
    }
}

/// A number string with its digits grouped; a leading minus sign stays in
/// front of the first group.
pub open spec fn with_separators_text(s: Seq<char>) -> Seq<char> {
    if s.len() > 0 && s[0] == '-' {
        seq!['-'] + grouped(s.drop_first())
    } else {
        grouped(s)
    }
}

/// How often `c` occurs in `s`.
pub open spec fn occurrences(s: Seq<char>, c: char) -> nat
    decreases s.len(),
{
    if s.len() == 0 {
        0
    } else {
        (if s[0] == c { 1nat } else { 0nat }) + occurrences(s.drop_first(), c)
    }
}

pub open spec fn is_digit(c: char) -> bool {
    '0' <= c && c <= '9'
}

/// Inserts a separator between chunks of `chunk_length` items of a sequence.
pub struct IntersperseChunks {
    inner: Vec<char>,
    pos: usize,
    buffer: Option<char>,
    separator: char,
    count: usize,
    chunk_length: usize,
}

impl IntersperseChunks {
    pub closed spec fn wf(&self) -> bool {
        &&& self.pos <= self.inner.len()
        &&& self.count <= self.pos
        &&& self.buffer is Some ==> self.count == 0 && self.pos >= 1
    }

    /// What the iterator still hands out, separators included.
    pub closed spec fn remaining(&self) -> Seq<char> {
        let rest = self.inner@.skip(self.pos as int);
        match self.buffer {
            Some(x) => seq![x] + interspersed(rest, 1, self.separator, self.chunk_length as nat),
            None => interspersed(rest, self.count as nat, self.separator, self.chunk_length as nat),
        }
    }

    pub fn new(inner: Vec<char>, separator: char, chunk_length: usize) -> (r: Self)
        ensures
            r.wf(),
            r.remaining() == interspersed(inner@, 0, separator, chunk_length as nat),
    {
        let r = IntersperseChunks { inner, pos: 0, buffer: None, separator, chunk_length, count: 0 };
        assert(r.inner@.skip(0) =~= r.inner@);
        r
    }

    pub fn next(&mut self) -> (r: Option<char>)
        requires
            old(self).wf(),
        ensures
            final(self).wf(),
            old(self).remaining().len() == 0 ==> r is None && final(self).remaining().len() == 0,
            old(self).remaining().len() > 0 ==> r == Some(old(self).remaining()[0])
                && final(self).remaining() == old(self).remaining().drop_first(),
    {
        let ghost rest = self.inner@.skip(self.pos as int);
        if let Some(item) = self.buffer {
            self.buffer = None;
            self.count = self.count + 1;
            assert(self.remaining() =~= old(self).remaining().drop_first());
            return Some(item);
        }
        if self.pos == self.inner.len() {
            assert(rest.len() == 0);
            return None;
        }
        let item = self.inner[self.pos];
        self.pos = self.pos + 1;
        assert(rest.drop_first() =~= self.inner@.skip(self.pos as int));
        if self.count == self.chunk_length {
            self.count = 0;
            self.buffer = Some(item);
            assert(self.remaining() =~= old(self).remaining().drop_first());
            return Some(self.separator);
        }
        self.count = self.count + 1;
        assert(self.remaining() =~= old(self).remaining().drop_first());
        Some(item)
    }
}


proof fn lemma_reverse_concat(a: Seq<char>, b: Seq<char>)
    ensures
        (a + b).reverse() == b.reverse() + a.reverse(),
{
    assert((a + b).reverse() =~= b.reverse() + a.reverse());
}

/// Handing out items one by one from a fresh chunk of three amounts to
/// cutting the items into chunks of three.
proof fn lemma_interspersed_chunks(r: Seq<char>, c: nat, sep: char)
    requires
        c <= 3,
    ensures
        interspersed(r, c, sep, 3) == (if r.len() <= 3 - c {
            r
        } else {
            r.take(3 - c) + seq![sep] + chunks_of_three(r.skip(3 - c), sep)
        }),
    decreases r.len(),
{
    if r.len() == 0 {
        assert(interspersed(r, c, sep, 3) =~= r);
    } else {
        let t = r.drop_first();
        if c == 3 {
            lemma_interspersed_chunks(t, 1, sep);
            if r.len() <= 3 {
                assert(chunks_of_three(r, sep) =~= seq![r[0]] + t);
            } else {
                assert(r.take(3) =~= seq![r[0]] + t.take(2));
                assert(r.skip(3) =~= t.skip(2));
            }
            assert(chunks_of_three(r, sep) =~= seq![r[0]] + interspersed(t, 1, sep, 3));
            assert(r.skip(0) =~= r);
            assert(interspersed(r, c, sep, 3) =~= r.take(0) + seq![sep] + chunks_of_three(
                r.skip(0),
                sep,
            ));
        } else {
            lemma_interspersed_chunks(t, c + 1, sep);
            if r.len() <= 3 - c {
                assert(interspersed(r, c, sep, 3) =~= r);
            } else {
                assert(r.take(3 - c) =~= seq![r[0]] + t.take(3 - (c + 1)));
                assert(r.skip(3 - c) =~= t.skip(3 - (c + 1)));
                assert(interspersed(r, c, sep, 3) =~= r.take(3 - c) + seq![sep] + chunks_of_three(
                    r.skip(3 - c),
                    sep,
                ));
            }
        }
    }
}

/// Chunking the reversed digits and reversing back groups them from the end.
proof fn lemma_chunks_reversed(s: Seq<char>)
    ensures
        chunks_of_three(s.reverse(), ',').reverse() == grouped(s),
    decreases s.len(),
{
    let r = s.reverse();
    if s.len() <= 3 {
        assert(r.reverse() =~= s);
    } else {
        let n = s.len();
        let front = s.take(n - 3);
        let back = s.skip(n - 3);
        assert(r.take(3) =~= back.reverse());
        assert(r.skip(3) =~= front.reverse());
        lemma_chunks_reversed(front);
        lemma_reverse_concat(r.take(3) + seq![','], chunks_of_three(r.skip(3), ','));
        lemma_reverse_concat(r.take(3), seq![',']);
        assert(back.reverse().reverse() =~= back);
        assert(seq![','].reverse() =~= seq![',']);
    }
}

proof fn lemma_occurrences_concat(a: Seq<char>, b: Seq<char>, c: char)
    ensures
        occurrences(a + b, c) == occurrences(a, c) + occurrences(b, c),
    decreases a.len(),
{
    if a.len() == 0 {
        assert(a + b =~= b);
    } else {
        assert((a + b).drop_first() =~= a.drop_first() + b);
        lemma_occurrences_concat(a.drop_first(), b, c);
    }
}

proof fn lemma_no_occurrences(s: Seq<char>, c: char)
    requires
        forall|i: int| 0 <= i < s.len() ==> s[i] != c,
    ensures
        occurrences(s, c) == 0,
    decreases s.len(),
{
    if s.len() > 0 {
        lemma_no_occurrences(s.drop_first(), c);
    }
}

/// A string of `n` digits, `n` at least one, comes out with exactly
/// `(n - 1) / 3` separators.
pub proof fn lemma_separator_count(s: Seq<char>)
    requires
        s.len() >= 1,
        forall|i: int| 0 <= i < s.len() ==> is_digit(#[trigger] s[i]),
    ensures
        occurrences(with_separators_text(s), ',') == (s.len() - 1) / 3,
    decreases s.len(),
{
    if s.len() <= 3 {
        lemma_no_occurrences(s, ',');
    } else {
        let front = s.take(s.len() - 3);
        let back = s.skip(s.len() - 3);
        assert forall|i: int| 0 <= i < front.len() implies is_digit(#[trigger] front[i]) by {
            assert(front[i] == s[i]);
        };
        assert forall|i: int| 0 <= i < back.len() implies back[i] != ',' by {
            assert(back[i] == s[i + s.len() - 3]);
        };
        lemma_separator_count(front);
        lemma_no_occurrences(back, ',');
        lemma_occurrences_concat(grouped(front) + seq![','], back, ',');
        lemma_occurrences_concat(grouped(front), seq![','], ',');
        assert(occurrences(seq![','], ',') == 1) by {
            let one = seq![','];
            assert(one.drop_first() =~= Seq::<char>::empty());
            assert(occurrences(one.drop_first(), ',') == 0);
            assert(one[0] == ',');
        };
        assert(!(s[0] == '-'));
        assert(!(front[0] == '-'));
    }
}

/// Relies on `String`'s `FromIterator<char>`: the characters in order.
#[verifier::external_body]
pub(crate) fn string_from_chars(chars: &Vec<char>) -> (r: String)
    ensures
        r@ == chars@,
{
    chars.iter().collect()
}

/// Inserts a comma between groups of three digits, counted from the last
/// digit. A leading minus sign stays in front of the first group: `-1000`
/// gives `-1,000`.
pub fn insert_separators(num_str: String) -> (r: String)
    ensures
        r@ == with_separators_text(num_str@),
{
    let text = num_str.as_str();
    let n = text.unicode_len();
    let negative = n > 0 && text.get_char(0) == '-';
    let start: usize = if negative { 1 } else { 0 };
    let ghost body = text@.skip(start as int);
    let m: usize = n - start;
    let mut reversed: Vec<char> = Vec::new();
    let mut i: usize = 0;
    while i < m
        invariant
            n == text@.len(),
            m == n - start,
            start <= n,
            body == text@.skip(start as int),
            i <= m,
            reversed@ =~= body.reverse().take(i as int),
        decreases m - i,
    {
        reversed.push(text.get_char(n - 1 - i));
        i = i + 1;
    }
    assert(reversed@ =~= body.reverse());
    let ghost rev = reversed@;
    let mut it = IntersperseChunks::new(reversed, ',', 3);
    let mut out: Vec<char> = Vec::new();
    loop
        invariant
            it.wf(),
            out@ + it.remaining() == interspersed(rev, 0, ',', 3),
        ensures
            out@ == interspersed(rev, 0, ',', 3),
        decreases it.remaining().len(),
    {
        let ghost before = it.remaining();
        match it.next() {
            Some(c) => {
                assert(out@.push(c) + it.remaining() =~= out@ + before) by {
                    assert(before =~= seq![c] + it.remaining());
                };
                out.push(c);
            },
            None => {
                assert(out@ + it.remaining() =~= out@);
                break;
            },
        }
    }
    let mut res: Vec<char> = Vec::new();
    if negative {
        res.push('-');
    }
    let ghost prefix = res@;
    let k = out.len();
    let mut j: usize = 0;
    while j < k
        invariant
            k == out.len(),
            j <= k,
            res@ =~= prefix + out@.reverse().take(j as int),
        decreases k - j,
    {
        res.push(out[k - 1 - j]);
        j = j + 1;
    }
    proof {
        lemma_interspersed_chunks(rev, 0, ',');
        if rev.len() <= 3 {
            assert(chunks_of_three(rev, ',') == rev);
        }
        lemma_chunks_reversed(body);
        assert(out@.reverse().take(k as int) =~= out@.reverse());
        if negative {
            assert(body =~= num_str@.drop_first());
        } else {
            assert(body =~= num_str@);
        }
    }
    string_from_chars(&res)
}

/// Formatting with grouping separators.
pub trait WithSeparators: Sized {
    /// The number string that is formatted.
    spec fn number_text(&self) -> Seq<char>;

    fn with_separators(self) -> (r: String)
        ensures
            r@ == with_separators_text(self.number_text()),
    ;
}

impl WithSeparators for String {
    open spec fn number_text(&self) -> Seq<char> {
        self@
    }

    fn with_separators(self) -> (r: String) {
        insert_separators(self)
    }
}

} // verus!
