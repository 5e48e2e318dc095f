use vstd::prelude::*;
use vstd::multiset::Multiset;
use crate::date::{spec_day_number, spec_next_aniversary, Date};
use crate::errors::Error;
use crate::models::FirstCommit;

verus! {

broadcast use
    vstd::seq_lib::group_to_multiset_ensures,
    vstd::multiset::group_multiset_axioms,
;

/// The sort key of the final ordering: days from `today` to the commit's
/// next anniversary.
pub open spec fn spec_days_key(fc: FirstCommit, today: Date) -> int {
    spec_day_number(spec_next_aniversary(fc.date.date, today)) - spec_day_number(today)
}

pub open spec fn sorted_by_days(s: Seq<FirstCommit>, today: Date) -> bool {
    forall|i: int, j: int|
        0 <= i < j < s.len() ==> #[trigger] spec_days_key(s[i], today) <= #[trigger] spec_days_key(
            s[j],
            today,
        )
}

pub open spec fn all_wf(s: Seq<FirstCommit>) -> bool {
    forall|i: int| 0 <= i < s.len() ==> (#[trigger] s[i]).wf()
}

/// The index where a record with this key goes: before the first record
/// whose key is strictly greater, behind every record whose key is the same.
pub open spec fn first_greater(s: Seq<FirstCommit>, key: int, today: Date) -> int
    decreases s.len(),
{
    if s.len() == 0 {
        0
    } else if spec_days_key(s[0], today) > key {
        0
    } else {
        1 + first_greater(s.skip(1), key, today)
    }
}

proof fn lemma_first_greater_at(s: Seq<FirstCommit>, key: int, today: Date, p: int)
    requires
        0 <= p <= s.len(),
        forall|k: int| 0 <= k < p ==> #[trigger] spec_days_key(s[k], today) <= key,
        p == s.len() || spec_days_key(s[p], today) > key,
    ensures
        first_greater(s, key, today) == p,
    decreases p,
{
    if p > 0 {
        assert(forall|k: int| 0 <= k < p - 1 ==> s.skip(1)[k] == s[k + 1]);
        lemma_first_greater_at(s.skip(1), key, today, p - 1);
    }
}

/// The one stable ordering of the records: each, in input order, inserted
/// before the first already placed record with a strictly greater key, so
/// that records with equal keys keep their input order.
pub open spec fn spec_stable_sort(s: Seq<FirstCommit>, today: Date) -> Seq<FirstCommit>
    decreases s.len(),
{
    if s.len() == 0 {
        Seq::empty()
    } else {
        let sorted = spec_stable_sort(s.drop_last(), today);
        sorted.insert(first_greater(sorted, spec_days_key(s.last(), today), today), s.last())
    }
}

/// Orders records ascending by days to the next anniversary. A record is
/// placed behind every record with the same key that is already in place, so
/// records with equal keys keep their input order: the result is exactly
/// `spec_stable_sort` of the input.
pub fn sort_by_days(commits: Vec<FirstCommit>, today: &Date) -> (out: Vec<FirstCommit>)
    requires
        all_wf(commits@),
        today.wf(),
        today.year < 9999,
    ensures
        out@ == spec_stable_sort(commits@, *today),
        out@.to_multiset() == commits@.to_multiset(),
        sorted_by_days(out@, *today),
        all_wf(out@),
{
    let ghost all = commits@;
    let mut rest = commits;
    let mut out: Vec<FirstCommit> = Vec::new();
    let ghost mut i: int = 0;
    proof {
        assert(out@.to_multiset().add(rest@.to_multiset()) =~= all.to_multiset());
        assert(all.take(0int) =~= Seq::<FirstCommit>::empty());
    }
    while rest.len() > 0
        invariant
            0 <= i <= all.len(),
            rest@ == all.skip(i),
            out@ == spec_stable_sort(all.take(i), *today),
            out@.to_multiset().add(rest@.to_multiset()) == all.to_multiset(),
            sorted_by_days(out@, *today),
            all_wf(out@),
            all_wf(rest@),
            today.wf(),
            today.year < 9999,
        decreases rest.len(),
    {
        let ghost rest0 = rest@;
        let e = rest.remove(0);
        proof {
            assert(e == all[i]);
            assert(rest@ =~= all.skip(i + 1));
        }
        let key_e = e.days_to_next_aniversary(today);
        let mut p: usize = 0;
        loop
            invariant_except_break
                0 <= p <= out@.len(),
                forall|k: int|
                    0 <= k < p ==> #[trigger] spec_days_key(out@[k], *today) <= key_e,
                sorted_by_days(out@, *today),
                all_wf(out@),
                today.wf(),
                today.year < 9999,
                e.wf(),
                key_e == spec_days_key(e, *today),
            ensures
                0 <= p <= out@.len(),
                forall|k: int|
                    0 <= k < p ==> #[trigger] spec_days_key(out@[k], *today) <= key_e,
                p == out@.len() || spec_days_key(out@[p as int], *today) > key_e,
            decreases out@.len() - p,
        {
            if p == out.len() {
                break;
            }
            let key_p = out[p].days_to_next_aniversary(today);
            if key_p > key_e {
                break;
            }
            p = p + 1;
        }
        let ghost out0 = out@;
        out.insert(p, e);
        proof {
            assert(out@ == out0.insert(p as int, e));
            lemma_first_greater_at(out0, key_e as int, *today, p as int);
            assert(all.take(i + 1).drop_last() =~= all.take(i));
            assert(all.take(i + 1).last() == all[i]);
            assert(out@ == spec_stable_sort(all.take(i + 1), *today));
            i = i + 1;
            assert forall|i: int, j: int| 0 <= i < j < out@.len() implies #[trigger] spec_days_key(
                out@[i],
                *today,
            ) <= #[trigger] spec_days_key(out@[j], *today) by {
                if i < p {
                    assert(out@[i] == out0[i]);
                } else if i == p {
                    assert(out@[i] == e);
                } else {
                    assert(out@[i] == out0[i - 1]);
                }
                if j < p {
                    assert(out@[j] == out0[j]);
                } else if j == p {
                    assert(out@[j] == e);
                } else {
                    assert(out@[j] == out0[j - 1]);
                }
            }
            assert(all_wf(out@)) by {
                assert(forall|i: int|
                    0 <= i < out@.len() ==> (#[trigger] out@[i]) == if i < p {
                        out0[i]
                    } else if i == p {
                        e
                    } else {
                        out0[i - 1]
                    });
            }
            assert(out0.insert(p as int, e).to_multiset() == out0.to_multiset().insert(e));
            assert(rest0.remove(0).to_multiset() == rest0.to_multiset().remove(rest0[0]));
            assert(rest0.contains(rest0[0]));
            assert(rest0.to_multiset().count(e) > 0);
            assert(out@.to_multiset().add(rest@.to_multiset()) =~= all.to_multiset());
            assert(all_wf(rest@)) by {
                assert(forall|i: int|
                    0 <= i < rest@.len() ==> (#[trigger] rest@[i]) == rest0[i + 1]);
            }
        }
    }
    proof {
        assert(i == all.len());
        assert(all.take(i) =~= all);
        assert(rest@.to_multiset() =~= Multiset::<FirstCommit>::empty());
        assert(out@.to_multiset() =~= all.to_multiset());
    }
    out
}

/// What one resolution task reports back: a first commit, nothing, or the
/// failure that aborts the crawl.
pub type CrawlOutcome = Result<Option<FirstCommit>, Error>;

/// The index of the first failed outcome, or the sequence's length when none
/// failed.
pub open spec fn first_error_index(outcomes: Seq<CrawlOutcome>) -> int
    decreases outcomes.len(),
{
    if outcomes.len() == 0 {
        0
    } else if outcomes[0] is Err {
        0
    } else {
        1 + first_error_index(outcomes.skip(1))
    }
}

proof fn lemma_first_error_at(outcomes: Seq<CrawlOutcome>, i: int)
    requires
        0 <= i <= outcomes.len(),
        forall|j: int| 0 <= j < i ==> (#[trigger] outcomes[j]) is Ok,
        i == outcomes.len() || outcomes[i] is Err,
    ensures
        first_error_index(outcomes) == i,
    decreases i,
{
    if i > 0 {
        assert(forall|j: int| 0 <= j < i - 1 ==> outcomes.skip(1)[j] == outcomes[j + 1]);
        lemma_first_error_at(outcomes.skip(1), i - 1);
    }
}

/// The commits of the successful outcomes, in completion order; outcomes of
/// `None` contribute nothing.
pub open spec fn spec_some_commits(outcomes: Seq<CrawlOutcome>) -> Seq<FirstCommit>
    decreases outcomes.len(),
{
    if outcomes.len() == 0 {
        Seq::empty()
    } else {
        let rest = spec_some_commits(outcomes.drop_last());
        match outcomes.last() {
            Ok(Some(fc)) => rest.push(fc),
            _ => rest,
        }
    }
}

pub open spec fn outcomes_wf(outcomes: Seq<CrawlOutcome>) -> bool {
    forall|i: int|
        0 <= i < outcomes.len() ==> ((#[trigger] outcomes[i]) matches Ok(Some(fc)) ==> fc.wf())
}

proof fn lemma_some_commits_wf(outcomes: Seq<CrawlOutcome>)
    requires
        outcomes_wf(outcomes),
    ensures
        all_wf(spec_some_commits(outcomes)),
    decreases outcomes.len(),
{
    if outcomes.len() > 0 {
        assert(outcomes_wf(outcomes.drop_last()));
        lemma_some_commits_wf(outcomes.drop_last());
    }
}

/// What a whole crawl makes of its completions, in whatever order they
/// arrived: the first failure aborts the crawl and is returned alone, with
/// every other result discarded; otherwise the gathered commits are returned
/// ordered by days to their next anniversary.
#[verifier::loop_isolation(false)]
pub fn collect_results(outcomes: Vec<CrawlOutcome>, today: &Date) -> (r: Result<
    Vec<FirstCommit>,
    Error,
>)
    requires
        outcomes_wf(outcomes@),
        today.wf(),
        today.year < 9999,
    ensures
        ({
            let i = first_error_index(outcomes@);
            if i < outcomes@.len() {
                r matches Err(e) && (outcomes@[i] matches Err(e0) && e == e0)
            } else {
                r matches Ok(list) && list@ == spec_stable_sort(spec_some_commits(outcomes@), *today)
                    && sorted_by_days(list@, *today) && all_wf(list@)
            }
        }),
{
    let ghost all = outcomes@;
    let total = outcomes.len();
    let mut rest = outcomes;
    let mut commits: Vec<FirstCommit> = Vec::new();
    let mut i: usize = 0;
    while rest.len() > 0
        invariant
            0 <= i <= total,
            total == all.len(),
            i + rest@.len() == total,
            rest@ == all.skip(i as int),
            outcomes_wf(all),
            forall|j: int| 0 <= j < i ==> (#[trigger] all[j]) is Ok,
            commits@ == spec_some_commits(all.take(i as int)),
            today.wf(),
            today.year < 9999,
        decreases rest.len(),
    {
        let ghost rest0 = rest@;
        let outcome = rest.remove(0);
        proof {
            assert(outcome == all[i as int]);
            assert(rest@ =~= all.skip(i + 1));
            assert(all.take(i + 1).drop_last() =~= all.take(i as int));
            assert(all.take(i + 1).last() == all[i as int]);
        }
        match outcome {
            Err(e) => {
                proof {
                    lemma_first_error_at(all, i as int);
                }
                return Err(e);
            },
            Ok(Some(fc)) => {
                commits.push(fc);
            },
            Ok(None) => {},
        }
        i = i + 1;
    }
    proof {
        assert(i == all.len());
        lemma_first_error_at(all, all.len() as int);
        assert(all.take(all.len() as int) =~= all);
        lemma_some_commits_wf(all);
    }
    Ok(sort_by_days(commits, today))
}

/// The crawl's collector: it counts completions, gathers the commits of
/// successful ones, and keeps the first failure. Once a failure arrived,
/// later completions are counted but their results are discarded, so nothing
/// of a failed crawl is ever merged into output.
pub struct Crawl {
    pub expected: usize,
    pub received: usize,
    pub commits: Vec<FirstCommit>,
    pub failure: Option<Error>,
}

impl Crawl {
    pub open spec fn wf(self) -> bool {
        &&& self.received <= self.expected
        &&& all_wf(self.commits@)
    }

    /// True once every task is accounted for or a failure ended the wait.
    pub open spec fn spec_done(self) -> bool {
        self.received == self.expected || self.failure is Some
    }

    pub fn new(expected: usize) -> (c: Self)
        ensures
            c.wf(),
            c.expected == expected,
            c.received == 0,
            c.commits@ == Seq::<FirstCommit>::empty(),
            c.failure is None,
    {
        Crawl { expected, received: 0, commits: Vec::new(), failure: None }
    }

    pub fn done(&self) -> (r: bool)
        ensures
            r == self.spec_done(),
    {
        self.received == self.expected || self.failure.is_some()
    }

    /// Takes one task's report: a commit is gathered, a `None` contributes
    /// nothing, the first failure is kept, and everything after a failure is
    /// discarded.
    pub fn on_completion(&mut self, outcome: CrawlOutcome)
        requires
            old(self).wf(),
            old(self).received < old(self).expected,
            (outcome matches Ok(Some(fc)) ==> fc.wf()),
        ensures
            final(self).wf(),
            final(self).expected == old(self).expected,
            final(self).received == old(self).received + 1,
            match old(self).failure {
                Some(e) => (final(self).failure matches Some(e2) && e2 == e)
                    && final(self).commits@ == old(self).commits@,
                None => match outcome {
                    Ok(Some(fc)) => final(self).commits@ == old(self).commits@.push(fc)
                        && final(self).failure is None,
                    Ok(None) => final(self).commits@ == old(self).commits@
                        && final(self).failure is None,
                    Err(e) => final(self).commits@ == old(self).commits@
                        && (final(self).failure matches Some(e2) && e2 == e),
                },
            },
    {
        self.received = self.received + 1;
        if self.failure.is_some() {
            return ;
        }
        match outcome {
            Ok(Some(fc)) => self.commits.push(fc),
            Ok(None) => {},
            Err(e) => {
                self.failure = Some(e);
            },
        }
    }

    /// Ends the crawl: the first failure alone on a failed crawl, otherwise
    /// the gathered commits ordered by days to their next anniversary.
    pub fn finish(self, today: &Date) -> (r: Result<Vec<FirstCommit>, Error>)
        requires
            self.wf(),
            today.wf(),
            today.year < 9999,
        ensures
            match self.failure {
                Some(e) => r matches Err(e2) && e2 == e,
                None => r matches Ok(list) && list@ == spec_stable_sort(self.commits@, *today)
                    && sorted_by_days(list@, *today) && all_wf(list@),
            },
    {
        match self.failure {
            Some(e) => Err(e),
            None => Ok(sort_by_days(self.commits, today)),
        }
    }
}

/// The admission decision of the crawler's bounded-concurrency gate: at most
/// `limit` tasks hold a remote-call slot at once. The waiting itself is the
/// caller's loop; this type decides, and its bound is the invariant `wf`.
pub struct AdmissionGate {
    limit: usize,
    in_flight: usize,
}

impl AdmissionGate {
    /// The bound fixed at construction.
    pub closed spec fn spec_limit(self) -> int {
        self.limit as int
    }

    /// How many admitted holders have not released their slot.
    pub closed spec fn spec_in_flight(self) -> int {
        self.in_flight as int
    }

    /// The invariant: holders stay within the bound.
    pub open spec fn wf(self) -> bool {
        self.spec_in_flight() <= self.spec_limit()
    }

    pub fn new(limit: usize) -> (g: Self)
        ensures
            g.wf(),
            g.spec_limit() == limit,
            g.spec_in_flight() == 0,
    {
        AdmissionGate { limit, in_flight: 0 }
    }

    /// Grants a slot exactly when one is free.
    pub fn try_acquire(&mut self) -> (granted: bool)
        requires
            old(self).wf(),
        ensures
            final(self).wf(),
            final(self).spec_limit() == old(self).spec_limit(),
            granted == (old(self).spec_in_flight() < old(self).spec_limit()),
            final(self).spec_in_flight() == if granted {
                old(self).spec_in_flight() + 1
            } else {
                old(self).spec_in_flight()
            },
    {
        if self.in_flight < self.limit {
            self.in_flight = self.in_flight + 1;
            true
        } else {
            false
        }
    }

    /// Gives a held slot back.
    pub fn release(&mut self)
        requires
            old(self).wf(),
            old(self).spec_in_flight() > 0,
        ensures
            final(self).wf(),
            final(self).spec_limit() == old(self).spec_limit(),
            final(self).spec_in_flight() == old(self).spec_in_flight() - 1,
    {
        self.in_flight = self.in_flight - 1;
    }
}

/// A resolution task's step: asking for a slot or handing one back.
pub enum GateEvent {
    /// The task asks for a remote-call slot.
    Acquire,
    /// The task gives its slot back.
    Release,
}

/// How many slots are held after a trace of gate events, each applied as the
/// gate decides: an acquire is granted only below the bound, a release of a
/// free gate changes nothing.
pub open spec fn gate_in_flight_after(limit: int, events: Seq<GateEvent>) -> int
    decreases events.len(),
{
    if events.len() == 0 {
        0
    } else {
        let prev = gate_in_flight_after(limit, events.drop_last());
        match events.last() {
            GateEvent::Acquire => if prev < limit {
                prev + 1
            } else {
                prev
            },
            GateEvent::Release => if prev > 0 {
                prev - 1
            } else {
                prev
            },
        }
    }
}

/// However the resolution tasks interleave their requests and releases, the
/// gate never has more than `limit` slots held at once.
pub proof fn lemma_gate_bounded(limit: int, events: Seq<GateEvent>)
    requires
        limit >= 0,
    ensures
        0 <= gate_in_flight_after(limit, events) <= limit,
    decreases events.len(),
{
    if events.len() > 0 {
        lemma_gate_bounded(limit, events.drop_last());
    }
}

} // verus!
