//! The widget's state and its transitions.
use vstd::prelude::*;

use crate::calendar::{date_of_text, now_local, parse_iso, Date, DateTime};
use crate::duration::{age_lines, compute, elapsed_seconds, shows, AgeLine, Breakdown};
use crate::query::{encoded_text, QueryParams};

verus! {

/// A requested change of the state.
pub enum Action {
    /// The clock ticked; it carries the current local time.
    Tick(DateTime),
    /// The name input changed.
    UpdateName(String),
    /// The birthday input changed; it carries the raw text.
    UpdateBirthday(String),
}

impl Action {
    /// The time that a tick carries is a real one.
    pub open spec fn wf(&self) -> bool {
        self matches Action::Tick(t) ==> t.wf()
    }
}

/// What there is to show for a state.
pub enum Summary {
    /// No name yet: nothing is shown.
    Hidden,
    /// A name but no valid birthday: the user is asked for one.
    EnterBirthday,
    /// The age, and its six lines.
    Age { breakdown: Breakdown, lines: Vec<AgeLine> },
}

/// The whole observable state; every action replaces it with a new one.
pub struct State {
    pub name: String,
    pub birthday: Option<Date>,
    pub current_time: DateTime,
}

impl State {
    pub open spec fn wf(&self) -> bool {
        &&& self.current_time.wf()
        &&& self.birthday matches Some(d) ==> d.wf()
    }

    /// The part of the state that the query string mirrors.
    pub open spec fn projection(&self) -> (Seq<char>, Option<Date>) {
        (self.name@, self.birthday)
    }

    /// No name, no birthday, and the local time now.
    pub fn new() -> (r: Self)
        ensures
            r.wf(),
            r.name@.len() == 0,
            r.birthday is None,
    {
        Self { name: String::new(), birthday: None, current_time: now_local() }
    }

    /// The state that a decoded query string starts with.
    pub fn from_params(params: QueryParams, now: DateTime) -> (r: Self)
        requires
            params.wf(),
            now.wf(),
        ensures
            r.wf(),
            r.projection() == params@,
            r.current_time == now,
    {
        Self { name: params.name, birthday: params.birthday, current_time: now }
    }

    pub fn update_time(self, now: DateTime) -> (r: Self)
        requires
            self.wf(),
            now.wf(),
        ensures
            r.wf(),
            r.projection() == self.projection(),
            r.current_time == now,
    {
        Self { current_time: now, ..self }
    }

    pub fn update_name(self, name: String) -> (r: Self)
        requires
            self.wf(),
        ensures
            r.wf(),
            r.name@ == name@,
            r.birthday == self.birthday,
            r.current_time == self.current_time,
    {
        Self { name, ..self }
    }

    /// Takes the date that `birthday` stands for in `YYYY-MM-DD` form; any
    /// other text leaves the birthday absent.
    pub fn update_birthday(self, birthday: String) -> (r: Self)
        requires
            self.wf(),
        ensures
            r.wf(),
            r.name@ == self.name@,
            r.birthday == date_of_text(birthday@),
            r.current_time == self.current_time,
    {
        Self { birthday: parse_iso(birthday.as_str()), ..self }
    }

    pub fn query_params(&self) -> (r: QueryParams)
        ensures
            r@ == self.projection(),
    {
        QueryParams { name: self.name.clone(), birthday: self.birthday }
    }

    /// Applies one action. The second result is the query string to write
    /// to the page: present after a change of name or birthday, absent after
    /// a tick.
    pub fn reduce(self, action: Action) -> (r: (Self, Option<String>))
        requires
            self.wf(),
            action.wf(),
        ensures
            r.0.wf(),
            match action {
                Action::Tick(now) => {
                    &&& r.0.projection() == self.projection()
                    &&& r.0.current_time == now
                    &&& r.1 is None
                },
                Action::UpdateName(name) => {
                    &&& r.0.name@ == name@
                    &&& r.0.birthday == self.birthday
                    &&& r.0.current_time == self.current_time
                    &&& r.1 matches Some(q) && q@ == encoded_text(r.0.projection())
                },
                Action::UpdateBirthday(text) => {
                    &&& r.0.name@ == self.name@
                    &&& r.0.birthday == date_of_text(text@)
                    &&& r.0.current_time == self.current_time
                    &&& r.1 matches Some(q) && q@ == encoded_text(r.0.projection())
                },
            },
    {
        match action {
            Action::Tick(now) => (self.update_time(now), None),
            Action::UpdateName(name) => {
                let next = self.update_name(name);
                let query = next.query_params().encode();
                (next, Some(query))
            },
            Action::UpdateBirthday(text) => {
                let next = self.update_birthday(text);
                let query = next.query_params().encode();
                (next, Some(query))
            },
        }
    }

    /// What to show: nothing without a name, a prompt without a valid
    /// birthday, and otherwise the age at the current time.
    pub fn summary(&self) -> (r: Summary)
        requires
            self.wf(),
        ensures
            self.name@.len() == 0 ==> r is Hidden,
            self.name@.len() > 0 && self.birthday is None ==> r is EnterBirthday,
            self.name@.len() > 0 && self.birthday is Some ==> match r {
                Summary::Age { breakdown, lines } => {
                    &&& breakdown.of_seconds(
                        elapsed_seconds(self.birthday->0, self.current_time),
                    )
                    &&& shows(lines@, breakdown)
                },
                _ => false,
            },
    {
        if self.name.as_str().unicode_len() == 0 {
            return Summary::Hidden;
        }
        match &self.birthday {
            None => Summary::EnterBirthday,
            Some(b) => {
                let breakdown = compute(b, &self.current_time);
                let lines = age_lines(&breakdown);
                Summary::Age { breakdown, lines }
            },
        }
    }
}

} // verus!
