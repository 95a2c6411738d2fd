use vstd::prelude::*;

verus! {

/// The markup tokens that parameterize the annotated report: one token per
/// priority tier, one for completed items, one for category headers, one
/// default, an optional sub-category token, and a horizon in days. A
/// non-positive horizon disables the cutoff.
pub struct FormatParams {
    pub default: String,
    pub category: String,
    pub done: String,
    pub prio_1: String,
    pub prio_2: String,
    pub prio_3: String,
    pub show_days_forward: i16,
    pub sub_category: Option<String>,
}

impl FormatParams {
    /// The token wrapped around a sub-category: the dedicated one when set,
    /// the default token otherwise.
    pub open spec fn spec_sub_token(&self) -> Seq<char> {
        match self.sub_category {
            Some(s) => s@,
            None => self.default@,
        }
    }
}

} // verus!
