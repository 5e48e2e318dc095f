use vstd::prelude::*;
use crate::date::{
    date_le, spec_age, spec_day_number, spec_next_aniversary, age_on, days_until_on,
    next_aniversary_on, Date, DateTime,
};

verus! {

/// The resolved result for one repository: its oldest commit together with
/// the repository's identity.
pub struct FirstCommit {
    pub message: String,
    pub date: DateTime,
    pub name: String,
    pub owner: String,
}

impl FirstCommit {
    pub open spec fn wf(self) -> bool {
        self.date.wf()
    }

    /// The next anniversary of this commit on or after `today`.
    pub fn next_aniversary(&self, today: &Date) -> (r: Date)
        requires
            self.wf(),
            today.wf(),
            today.year < 9999,
        ensures
            r == spec_next_aniversary(self.date.date, *today),
            r.wf(),
            date_le(*today, r),
    {
        next_aniversary_on(&self.date.date, today)
    }

    /// The signed day count from `today` to this commit's next anniversary.
    pub fn days_to_next_aniversary(&self, today: &Date) -> (r: i64)
        requires
            self.wf(),
            today.wf(),
            today.year < 9999,
        ensures
            r == spec_day_number(spec_next_aniversary(self.date.date, *today))
                - spec_day_number(*today),
            r >= 0,
    {
        days_until_on(&self.date.date, today)
    }

    /// How many years old the commit turns on its next anniversary: the
    /// anniversary's year less the commit's own year.
    pub fn age(&self, today: &Date) -> (r: i64)
        requires
            self.wf(),
            today.wf(),
            today.year < 9999,
        ensures
            r == spec_age(self.date.date, *today),
            r == spec_next_aniversary(self.date.date, *today).year - self.date.date.year,
    {
        age_on(&self.date.date, today)
    }
}

} // verus!
