use vstd::prelude::*;
use vstd::string::StrSliceExecFns;
use vstd::string::StringExecFns;

use crate::date::Date;
use crate::date::spec_days_remaining;
use crate::date::spec_to_ymd;
use crate::digits::i64_to_string;
use crate::digits::spec_dec_rep;
use crate::digits::spec_int_rep;
use crate::digits::u64_to_string;
use crate::format::FormatParams;

verus! {

pub uninterp spec fn trimmed(s: Seq<char>) -> Seq<char>;

/// A task whose remaining days, with -1 standing in for "no due date", are
/// negative renders to the empty string in the annotated view, whatever its
/// priority, completion flag or sub-category handling.
pub proof fn lemma_overdue_never_rendered(t: Task, colors: FormatParams, sub: bool, today: Date)
    requires
        t.spec_days_key(today) < 0,
    ensures
        t.spec_formatted_conky(colors, sub, today) == Seq::<char>::empty(),
{
}

/// A task due further ahead than a positive horizon renders to the empty
/// string in the annotated view.
pub proof fn lemma_beyond_horizon_never_rendered(
    t: Task,
    colors: FormatParams,
    sub: bool,
    today: Date,
)
    requires
        colors.show_days_forward > 0,
        t.spec_days_key(today) > colors.show_days_forward,
    ensures
        t.spec_formatted_conky(colors, sub, today) == Seq::<char>::empty(),
{
}

/// Relies on str::trim: removes leading and trailing whitespace; the result
/// depends on the characters alone.
#[verifier::external_body]
fn trim_str(s: &str) -> (r: &str)
    ensures
        r@ == trimmed(s@),
{
    s.trim()
}

/// A single to-do item: free-text category and sub-category labels, a
/// priority tier, a name, a completion flag and an optional due date.
pub struct Task {
    pub category: String,
    pub sub_category: String,
    pub priority: u8,
    pub name: String,
    pub done: bool,
    pub due: Option<Date>,
}

impl Task {
    /// The due date, when one is set, is in range for its year.
    pub open spec fn wf(self) -> bool {
        match self.due {
            Some(d) => d.wf(),
            None => true,
        }
    }

    /// Remaining days until due, with -1 standing in for "no due date".
    pub open spec fn spec_days_key(self, today: Date) -> int {
        match self.due {
            Some(d) => spec_days_remaining(d, today),
            None => -1,
        }
    }

    /// The markup token that colors the rendered line: the done token for
    /// a completed task, else the token of its priority tier.
    pub open spec fn spec_color(self, colors: FormatParams) -> Seq<char> {
        if self.done {
            colors.done@
        } else if self.priority == 1 {
            colors.prio_1@
        } else if self.priority == 2 {
            colors.prio_2@
        } else if self.priority == 3 {
            colors.prio_3@
        } else {
            colors.default@
        }
    }

    /// Whether the annotated report leaves the task out: overdue or
    /// undated tasks always, and tasks due beyond a positive horizon.
    pub open spec fn spec_hidden(self, colors: FormatParams, today: Date) -> bool {
        self.spec_days_key(today) < 0 || (colors.show_days_forward > 0 && self.spec_days_key(today)
            > colors.show_days_forward)
    }

    /// The plain rendering: `- [x] name (sub) - due in N days for d/m`,
    /// with the completion marker, the sub-category and the due clause each
    /// present only when applicable.
    pub open spec fn spec_formatted(self, sub: bool, today: Date) -> Seq<char> {
        "- "@ + (if self.done {
            "[x] "@
        } else {
            Seq::<char>::empty()
        }) + self.name@ + (if sub && self.sub_category@.len() > 0 {
            " ("@ + trimmed(self.sub_category@) + ")"@
        } else {
            Seq::<char>::empty()
        }) + (match self.due {
            Some(due) => {
                let ymd = spec_to_ymd(due)->Some_0;
                let days = spec_days_remaining(due, today);
                if days == 0 {
                    " - due for today "@ + spec_dec_rep(ymd.day as nat) + "/"@ + spec_dec_rep(
                        ymd.month as nat,
                    )
                } else {
                    " - due in "@ + spec_int_rep(days) + " days for "@ + spec_dec_rep(
                        ymd.day as nat,
                    ) + "/"@ + spec_dec_rep(ymd.month as nat)
                }
            },
            None => Seq::<char>::empty(),
        })
    }

    /// The annotated rendering: empty when the task is hidden, else a
    /// color-wrapped line with an optional sub-category and a right-aligned
    /// due clause.
    pub open spec fn spec_formatted_conky(
        self,
        colors: FormatParams,
        sub: bool,
        today: Date,
    ) -> Seq<char> {
        if self.spec_hidden(colors, today) {
            Seq::<char>::empty()
        } else {
            let c = self.spec_color(colors);
            "${"@ + c + "}- "@ + self.name@ + (if sub && self.sub_category@.len() > 0 {
                " (${"@ + colors.spec_sub_token() + "}"@ + trimmed(self.sub_category@) + "${"@ + c
                    + "})"@
            } else {
                Seq::<char>::empty()
            }) + (match self.due {
                Some(due) => {
                    let ymd = spec_to_ymd(due)->Some_0;
                    let days = spec_days_remaining(due, today);
                    if days == 0 {
                        "${alignr} - due for today      "@ + spec_dec_rep(ymd.day as nat) + "/"@
                            + spec_dec_rep(ymd.month as nat)
                    } else {
                        "${alignr} - due in "@ + spec_int_rep(days) + " days for "@ + spec_dec_rep(
                            ymd.day as nat,
                        ) + "/"@ + spec_dec_rep(ymd.month as nat)
                    }
                },
                None => Seq::<char>::empty(),
            })
        }
    }

    pub fn new(name: &str) -> (t: Task)
        ensures
            t.category@ == Seq::<char>::empty(),
            t.sub_category@ == Seq::<char>::empty(),
            t.priority == 0,
            t.name@ == name@,
            t.done == false,
            t.due is None,
    {
        Task {
            category: String::new(),
            sub_category: String::new(),
            priority: 0,
            name: name.to_owned(),
            due: None,
            done: false,
        }
    }

    pub fn due(self, due: Option<Date>) -> (t: Task)
        ensures
            t.due == due,
            t.category == self.category,
            t.sub_category == self.sub_category,
            t.priority == self.priority,
            t.name == self.name,
            t.done == self.done,
    {
        Task { due, ..self }
    }

    pub fn category(self, category: &str) -> (t: Task)
        ensures
            t.category@ == category@,
            t.sub_category == self.sub_category,
            t.priority == self.priority,
            t.name == self.name,
            t.done == self.done,
            t.due == self.due,
    {
        Task { category: category.to_owned(), ..self }
    }

    pub fn sub_category(self, sub_category: &str) -> (t: Task)
        ensures
            t.sub_category@ == sub_category@,
            t.category == self.category,
            t.priority == self.priority,
            t.name == self.name,
            t.done == self.done,
            t.due == self.due,
    {
        Task { sub_category: sub_category.to_owned(), ..self }
    }

    pub fn priority(self, priority: u8) -> (t: Task)
        ensures
            t.priority == priority,
            t.category == self.category,
            t.sub_category == self.sub_category,
            t.name == self.name,
            t.done == self.done,
            t.due == self.due,
    {
        Task { priority, ..self }
    }

    pub fn done(self, done: bool) -> (t: Task)
        ensures
            t.done == done,
            t.category == self.category,
            t.sub_category == self.sub_category,
            t.priority == self.priority,
            t.name == self.name,
            t.due == self.due,
    {
        Task { done, ..self }
    }

    /// Remaining days until due for a given reference date, with -1
    /// standing in for "no due date".
    pub fn days_key_on(&self, today: Date) -> (r: i16)
        requires
            self.wf(),
            1 <= today.day <= 366,
        ensures
            r as int == self.spec_days_key(today),
    {
        match &self.due {
            Some(d) => d.days_remaining_from(today),
            None => -1,
        }
    }

    /// Remaining days until the due date, relative to the current date;
    /// `None` when no due date is set.
    pub fn days_remianing(&self) -> (r: Option<i16>)
        requires
            self.wf(),
        ensures
            r is Some <==> self.due is Some,
            r is Some ==> exists|t: Date|
                1 <= t.day <= 366 && r->Some_0 as int == self.spec_days_key(t),
    {
        let today = crate::date::today_date();
        match &self.due {
            Some(d) => {
                let days = d.days_remaining_from(today);
                proof {
                    assert(1 <= today.day <= 366 && days as int == self.spec_days_key(today));
                }
                Some(days)
            },
            None => None,
        }
    }

    /// The plain rendering for a given reference date.
    #[verifier::rlimit(60)]
    pub fn formatted_on(&self, sub: bool, today: Date) -> (r: String)
        requires
            self.wf(),
            1 <= today.day <= 366,
        ensures
            r@ == self.spec_formatted(sub, today),
    {
        let mut s = "- ".to_owned();
        if self.done {
            s.append("[x] ");
        }
        s.append(self.name.as_str());
        if !(self.sub_category.as_str().unicode_len() == 0) && sub {
            s.append(" (");
            s.append(trim_str(self.sub_category.as_str()));
            s.append(")");
        }
        match &self.due {
            Some(due) => {
                let ymd = due.to_ymd().unwrap();
                let days = due.days_remaining_from(today);
                if days == 0 {
                    s.append(" - due for today ");
                } else {
                    s.append(" - due in ");
                    s.append(i64_to_string(days as i64).as_str());
                    s.append(" days for ");
                }
                s.append(u64_to_string(ymd.day as u64).as_str());
                s.append("/");
                s.append(u64_to_string(ymd.month as u64).as_str());
            },
            None => {},
        }
        proof {
            assert(s@ =~= self.spec_formatted(sub, today));
        }
        s
    }

    /// The plain rendering relative to the current date.
    pub fn formatted(&self, sub: bool) -> (r: String)
        requires
            self.wf(),
        ensures
            exists|t: Date| 1 <= t.day <= 366 && r@ == self.spec_formatted(sub, t),
    {
        let today = crate::date::today_date();
        let r = self.formatted_on(sub, today);
        proof {
            assert(1 <= today.day <= 366 && r@ == self.spec_formatted(sub, today));
        }
        r
    }

    /// The annotated rendering for a given reference date: the empty string
    /// exactly when the task is hidden from the report.
    #[verifier::rlimit(60)]
    pub fn formatted_conky_on(&self, colors: &FormatParams, sub: bool, today: Date) -> (r: String)
        requires
            self.wf(),
            1 <= today.day <= 366,
        ensures
            r@ == self.spec_formatted_conky(*colors, sub, today),
            r@.len() == 0 <==> self.spec_hidden(*colors, today),
    {
        let days: i16 = match &self.due {
            Some(d) => d.days_remaining_from(today),
            None => -1,
        };
        if days < 0 || (colors.show_days_forward > 0 && days > colors.show_days_forward) {
            return String::new();
        }
        let c: &String = if self.done {
            &colors.done
        } else if self.priority == 1 {
            &colors.prio_1
        } else if self.priority == 2 {
            &colors.prio_2
        } else if self.priority == 3 {
            &colors.prio_3
        } else {
            &colors.default
        };
        let mut s = "${".to_owned();
        s.append(c.as_str());
        s.append("}- ");
        s.append(self.name.as_str());
        if !(self.sub_category.as_str().unicode_len() == 0) && sub {
            let co: &String = match &colors.sub_category {
                Some(col) => col,
                None => &colors.default,
            };
            s.append(" (${");
            s.append(co.as_str());
            s.append("}");
            s.append(trim_str(self.sub_category.as_str()));
            s.append("${");
            s.append(c.as_str());
            s.append("})");
        }
        match &self.due {
            Some(due) => {
                let ymd = due.to_ymd().unwrap();
                if days == 0 {
                    s.append("${alignr} - due for today      ");
                } else {
                    s.append("${alignr} - due in ");
                    s.append(i64_to_string(days as i64).as_str());
                    s.append(" days for ");
                }
                s.append(u64_to_string(ymd.day as u64).as_str());
                s.append("/");
                s.append(u64_to_string(ymd.month as u64).as_str());
            },
            None => {},
        }
        proof {
            assert(s@ =~= self.spec_formatted_conky(*colors, sub, today));
            reveal_strlit("${");
            assert(s@.len() >= "${"@.len());
        }
        s
    }

    /// The annotated rendering relative to the current date.
    pub fn formatted_conky(&self, colors: &FormatParams, sub: bool) -> (r: String)
        requires
            self.wf(),
        ensures
            exists|t: Date|
                1 <= t.day <= 366 && r@ == self.spec_formatted_conky(*colors, sub, t),
    {
        let today = crate::date::today_date();
        let r = self.formatted_conky_on(colors, sub, today);
        proof {
            assert(1 <= today.day <= 366 && r@ == self.spec_formatted_conky(*colors, sub, today));
        }
        r
    }
}

} // verus!
