//! The coordinator: units of work are run, batch after batch, until a match
//! is found, the random source fails or the budget is used up.
//!
//! [`run`] says what a search comes to on a given sequence of generation
//! results. [`replay`] computes just that; [`search_entropies`] derives the
//! results from given entropy, and [`search`] generates them afresh.

use crate::address::{can_start_principal, is_principal_text, lemma_misfit_prefix_never_matches};
use crate::identity::{
    attempt_view, derivation, derive_identity, is_generated,
    lemma_derived_principal_is_well_formed, GenerationError, Identity, IdentityView,
};
use crate::search::{judged, step, Outcome, OutcomeView, SearchState, SearchView};
use vstd::prelude::*;

verus! {

/// What the search tells of an attempt that was no match.
#[derive(Clone, Debug, PartialEq, Eq)]
pub enum Notice {
    /// The principal generated at an attempt whose number is reported.
    Progress { attempt: u64, sample: String },
    /// An attempt that generated no identity and was passed over.
    Skipped { attempt: u64, error: GenerationError },
}

/// What a [`Notice`] holds.
pub enum NoticeView {
    Progress { attempt: u64, sample: Seq<char> },
    Skipped { attempt: u64, error: GenerationError },
}

impl View for Notice {
    type V = NoticeView;

    open spec fn view(&self) -> NoticeView {
        match *self {
            Notice::Progress { attempt, sample } => NoticeView::Progress {
                attempt,
                sample: sample@,
            },
            Notice::Skipped { attempt, error } => NoticeView::Skipped { attempt, error },
        }
    }
}

/// How a search ended.
#[derive(Clone, Debug, PartialEq, Eq)]
pub enum Ending {
    /// The identity generated at attempt number `attempt` matches.
    Found { attempt: u64, identity: Identity },
    /// The random source failed at attempt number `attempt`.
    Aborted { attempt: u64 },
    /// The work ran out before a match was found.
    NoMatch,
}

/// What an [`Ending`] holds.
pub enum EndingView {
    Found { attempt: u64, identity: IdentityView },
    Aborted { attempt: u64 },
    NoMatch,
}

impl View for Ending {
    type V = EndingView;

    open spec fn view(&self) -> EndingView {
        match *self {
            Ending::Found { attempt, identity } => EndingView::Found {
                attempt,
                identity: identity@,
            },
            Ending::Aborted { attempt } => EndingView::Aborted { attempt },
            Ending::NoMatch => EndingView::NoMatch,
        }
    }
}

/// The account of a search: the shared state as the search left it, how it
/// ended, and the notices given on the way, in order.
#[derive(Debug)]
pub struct SearchReport {
    pub state: SearchState,
    pub ending: Ending,
    pub notices: Vec<Notice>,
}

/// What a [`SearchReport`] holds.
pub struct ReportView {
    pub state: SearchView,
    pub ending: EndingView,
    pub notices: Seq<NoticeView>,
}

impl View for SearchReport {
    type V = ReportView;

    open spec fn view(&self) -> ReportView {
        ReportView {
            state: self.state@,
            ending: self.ending@,
            notices: self.notices@.map_values(|notice: Notice| notice@),
        }
    }
}

impl ReportView {
    /// The account of a search before its first unit of work.
    pub open spec fn fresh() -> ReportView {
        ReportView {
            state: SearchView::initial(),
            ending: EndingView::NoMatch,
            notices: Seq::empty(),
        }
    }

    /// Whether the search is over: a match was found or the random source has
    /// failed.
    pub open spec fn over(self) -> bool {
        self.state.found || self.ending is Aborted
    }

    /// Whether the flag and the ending agree: the flag is set exactly where
    /// the search ended on a match.
    pub open spec fn consistent(self) -> bool {
        self.state.found <==> self.ending is Found
    }

    /// The account after further units of work that generate `results`, one
    /// after the other.
    pub open spec fn after(
        self,
        results: Seq<Result<IdentityView, GenerationError>>,
        prefix: Seq<char>,
    ) -> ReportView
        decreases results.len(),
    {
        if results.len() == 0 {
            self
        } else {
            self.after(results.drop_last(), prefix).advance(results.last(), prefix)
        }
    }

    /// The account after one more unit of work, given the result that its
    /// generation would have. A search that is over stays as it is. Otherwise
    /// the unit is a [`step`] on the shared state: a match ends the search, a
    /// failure of the random source aborts it, any other failure is noted and
    /// passed over, and a progress sample is noted.
    pub open spec fn advance(
        self,
        result: Result<IdentityView, GenerationError>,
        prefix: Seq<char>,
    ) -> ReportView {
        if self.over() {
            self
        } else {
            let (state, outcome) = step(self.state, result, prefix);
            match outcome {
                OutcomeView::Match { attempt, identity } => ReportView {
                    state,
                    ending: EndingView::Found { attempt, identity },
                    notices: self.notices,
                },
                OutcomeView::Progress { attempt, sample } => ReportView {
                    state,
                    ending: self.ending,
                    notices: self.notices.push(NoticeView::Progress { attempt, sample }),
                },
                OutcomeView::Failed { attempt, error } => if error.fatal() {
                    ReportView {
                        state,
                        ending: EndingView::Aborted { attempt },
                        notices: self.notices,
                    }
                } else {
                    ReportView {
                        state,
                        ending: self.ending,
                        notices: self.notices.push(NoticeView::Skipped { attempt, error }),
                    }
                },
                _ => ReportView { state, ending: self.ending, notices: self.notices },
            }
        }
    }
}

/// The account of the search for `prefix` whose units of work generate
/// `results`, one after the other.
pub open spec fn run(
    prefix: Seq<char>,
    results: Seq<Result<IdentityView, GenerationError>>,
) -> ReportView {
    ReportView::fresh().after(results, prefix)
}

/// What each of the given results holds.
pub open spec fn results_view(results: Seq<Result<Identity, GenerationError>>) -> Seq<
    Result<IdentityView, GenerationError>,
> {
    results.map_values(|result: Result<Identity, GenerationError>| attempt_view(result))
}

/// The results of deriving an identity from each of the given entropies.
pub open spec fn derivations(entropies: Seq<[u8; 16]>) -> Seq<
    Result<IdentityView, GenerationError>,
> {
    entropies.map_values(|entropy: [u8; 16]| derivation(entropy@))
}

/// Whether each of the results is one that a fresh generation may have.
pub open spec fn all_generated(results: Seq<Result<IdentityView, GenerationError>>) -> bool {
    forall|i: int| 0 <= i < results.len() ==> is_generated(#[trigger] results[i])
}

impl SearchReport {
    /// The account of a search before its first unit of work.
    pub fn new() -> (report: SearchReport)
        ensures
            report@ == ReportView::fresh(),
    {
        let report = SearchReport {
            state: SearchState::new(),
            ending: Ending::NoMatch,
            notices: Vec::new(),
        };
        assert(report@.notices =~= Seq::empty());
        report
    }

    /// Whether the search is over.
    pub fn is_over(&self) -> (over: bool)
        ensures
            over == self@.over(),
    {
        if self.state.is_found() {
            true
        } else {
            match self.ending {
                Ending::Aborted { .. } => true,
                _ => false,
            }
        }
    }

    /// Files what one unit of work came to.
    fn file(&mut self, outcome: Outcome)
        requires
            !(outcome@ is Idle),
        ensures
            final(self)@.state == old(self)@.state,
            final(self)@.ending == match outcome@ {
                OutcomeView::Match { attempt, identity } => EndingView::Found { attempt, identity },
                OutcomeView::Failed { attempt, error } => if error.fatal() {
                    EndingView::Aborted { attempt }
                } else {
                    old(self)@.ending
                },
                _ => old(self)@.ending,
            },
            final(self)@.notices == match outcome@ {
                OutcomeView::Progress { attempt, sample } => old(self)@.notices.push(
                    NoticeView::Progress { attempt, sample },
                ),
                OutcomeView::Failed { attempt, error } => if error.fatal() {
                    old(self)@.notices
                } else {
                    old(self)@.notices.push(NoticeView::Skipped { attempt, error })
                },
                _ => old(self)@.notices,
            },
    {
        let ghost before = self.notices@;
        match outcome {
            Outcome::Match { attempt, identity } => {
                self.ending = Ending::Found { attempt, identity };
            },
            Outcome::Progress { attempt, sample } => {
                let notice = Notice::Progress { attempt, sample };
                self.notices.push(notice);
                assert(self.notices@.map_values(|n: Notice| n@) =~= before.map_values(
                    |n: Notice| n@,
                ).push(notice@));
            },
            Outcome::Failed { attempt, error } => {
                if error.is_fatal() {
                    self.ending = Ending::Aborted { attempt };
                } else {
                    let notice = Notice::Skipped { attempt, error };
                    self.notices.push(notice);
                    assert(self.notices@.map_values(|n: Notice| n@) =~= before.map_values(
                        |n: Notice| n@,
                    ).push(notice@));
                }
            },
            _ => {},
        }
    }

    /// One more unit of work on an identity that was generated for it.
    pub fn record(&mut self, result: Result<Identity, GenerationError>, prefix: &str)
        ensures
            final(self)@ == old(self)@.advance(attempt_view(result), prefix@),
    {
        if self.is_over() {
            return ;
        }
        let outcome = self.state.record(result, prefix);
        self.file(outcome);
    }

    /// One more unit of work, which generates a fresh identity unless the
    /// search is over.
    pub fn work(&mut self, prefix: &str)
        ensures
            exists|result: Result<IdentityView, GenerationError>|
                is_generated(result) && final(self)@ == #[trigger] old(self)@.advance(
                    result,
                    prefix@,
                ),
    {
        if self.is_over() {
            assert(is_generated(Err(GenerationError::Randomness)));
            assert(self@ == old(self)@.advance(Err(GenerationError::Randomness), prefix@));
            return ;
        }
        let ghost before = self@;
        let outcome = self.state.work(prefix);
        let ghost result = choose|result: Result<IdentityView, GenerationError>|
            is_generated(result) && (self.state@, outcome@) == #[trigger] step(
                before.state,
                result,
                prefix@,
            );
        self.file(outcome);
        assert(self@ == before.advance(result, prefix@));
    }

    /// One batch: up to `batch_size` units of work, each on a fresh identity.
    /// The batch is cut short where the search is over.
    pub fn run_batch(&mut self, prefix: &str, batch_size: u64)
        ensures
            exists|results: Seq<Result<IdentityView, GenerationError>>|
                {
                    &&& all_generated(results)
                    &&& final(self)@ == #[trigger] old(self)@.after(results, prefix@)
                    &&& results.len() <= batch_size
                    &&& final(self)@.over() || results.len() == batch_size
                },
    {
        let ghost before = self@;
        let ghost mut results: Seq<Result<IdentityView, GenerationError>> = Seq::empty();
        let mut done: u64 = 0;
        while done < batch_size && !self.is_over()
            invariant
                done <= batch_size,
                results.len() == done,
                all_generated(results),
                self@ == before.after(results, prefix@),
            decreases batch_size - done,
        {
            let ghost so_far = self@;
            self.work(prefix);
            proof {
                let result = choose|result: Result<IdentityView, GenerationError>|
                    is_generated(result) && self@ == #[trigger] so_far.advance(result, prefix@);
                let longer = results.push(result);
                assert(longer.drop_last() =~= results);
                assert(longer.last() == result);
                results = longer;
            }
            done = done + 1;
        }
    }
}

/// Whether the coordinator stops after a batch: it does where the batch gave
/// a match, and also where the flag is found set although the batch gave none.
pub fn batch_ends_search(batch_matched: bool, found_flag: bool) -> (stop: bool)
    ensures
        stop == (batch_matched || found_flag),
{
    batch_matched || found_flag
}

/// Runs the search on generation results that are given, one unit of work for
/// each in order.
pub fn replay(prefix: &str, results: Vec<Result<Identity, GenerationError>>) -> (report:
    SearchReport)
    ensures
        report@ == run(prefix@, results_view(results@)),
        report@.ending matches EndingView::Found { attempt, identity } ==> prefix@.is_prefix_of(
            identity.principal,
        ),
{
    let mut report = SearchReport::new();
    let ghost all = results_view(results@);
    for result in iter: results
        invariant
            all == results_view(iter.seq()),
            report@ == run(prefix@, all.take(iter.index() as int)),
    {
        proof {
            let next = all.take(iter.index() + 1);
            assert(next.drop_last() =~= all.take(iter.index() as int));
            assert(next.last() == attempt_view(result));
        }
        report.record(result, prefix);
    }
    proof {
        assert(all.take(all.len() as int) =~= all);
        lemma_run_is_sound(prefix@, all);
    }
    report
}

/// Runs the search on the identities derived from the given entropies, in
/// order. No identity is derived once the search is over.
pub fn search_entropies(prefix: &str, entropies: &Vec<[u8; 16]>) -> (report: SearchReport)
    ensures
        report@ == run(prefix@, derivations(entropies@)),
        report@.ending matches EndingView::Found { attempt, identity } ==> {
            &&& prefix@.is_prefix_of(identity.principal)
            &&& is_principal_text(identity.principal)
        },
        !can_start_principal(prefix@) ==> !(report@.ending is Found),
{
    let mut report = SearchReport::new();
    let ghost all = derivations(entropies@);
    let mut next: usize = 0;
    while next < entropies.len() && !report.is_over()
        invariant
            next <= entropies.len(),
            all == derivations(entropies@),
            report@ == run(prefix@, all.take(next as int)),
        decreases entropies.len() - next,
    {
        let result = derive_identity(&entropies[next]);
        proof {
            let longer = all.take(next + 1);
            assert(longer.drop_last() =~= all.take(next as int));
            assert(longer.last() == attempt_view(result));
        }
        report.record(result, prefix);
        next = next + 1;
    }
    proof {
        if next < entropies.len() {
            lemma_over_is_final(report@, all.skip(next as int), prefix@);
            lemma_after_concatenation(
                ReportView::fresh(),
                all.take(next as int),
                all.skip(next as int),
                prefix@,
            );
            assert(all.take(next as int) + all.skip(next as int) =~= all);
        } else {
            assert(all.take(next as int) =~= all);
        }
        assert forall|i: int| 0 <= i < all.len() implies well_formed(#[trigger] all[i]) by {
            lemma_derived_principal_is_well_formed(entropies@[i]@);
        }
        lemma_found_is_well_formed(prefix@, all);
        if !can_start_principal(prefix@) {
            lemma_misfit_prefix_finds_nothing(prefix@, all);
        }
    }
    report
}

/// Runs the search on fresh identities: up to `max_batches` batches of
/// `batch_size` units of work each. The coordinator stops after the batch in
/// which the search came to be over.
pub fn search(prefix: &str, batch_size: u64, max_batches: u64) -> (report: SearchReport)
    ensures
        exists|results: Seq<Result<IdentityView, GenerationError>>|
            {
                &&& all_generated(results)
                &&& report@ == #[trigger] run(prefix@, results)
                &&& results.len() <= batch_size * max_batches
                &&& report@.over() || results.len() == batch_size * max_batches
            },
        report@.ending matches EndingView::Found { attempt, identity } ==> {
            &&& prefix@.is_prefix_of(identity.principal)
            &&& is_principal_text(identity.principal)
        },
        !can_start_principal(prefix@) ==> !(report@.ending is Found),
{
    let mut report = SearchReport::new();
    let ghost mut results: Seq<Result<IdentityView, GenerationError>> = Seq::empty();
    let mut batches: u64 = 0;
    let mut stop = false;
    while batches < max_batches && !stop
        invariant
            batches <= max_batches,
            all_generated(results),
            report@ == run(prefix@, results),
            stop == report@.over(),
            !stop ==> results.len() == batch_size * batches,
            results.len() <= batch_size * batches,
        decreases max_batches - batches,
    {
        let ghost before = report@;
        report.run_batch(prefix, batch_size);
        let matched = match report.ending {
            Ending::Found { .. } => true,
            _ => false,
        };
        stop = batch_ends_search(matched, report.state.is_found()) || report.is_over();
        proof {
            let batch = choose|batch: Seq<Result<IdentityView, GenerationError>>|
                {
                    &&& all_generated(batch)
                    &&& report@ == #[trigger] before.after(batch, prefix@)
                    &&& batch.len() <= batch_size
                    &&& report@.over() || batch.len() == batch_size
                };
            lemma_after_concatenation(ReportView::fresh(), results, batch, prefix@);
            lemma_run_is_sound(prefix@, results + batch);
            assert(batch_size * (batches + 1) == batch_size * batches + batch_size)
                by (nonlinear_arith);
            results = results + batch;
        }
        batches = batches + 1;
    }
    proof {
        if !stop {
            assert(batches == max_batches);
        } else {
            assert(batch_size * batches <= batch_size * max_batches) by (nonlinear_arith)
                requires
                    batches <= max_batches,
            ;
        }
        lemma_generated_is_well_formed(results);
        lemma_found_is_well_formed(prefix@, results);
        if !can_start_principal(prefix@) {
            lemma_misfit_prefix_finds_nothing(prefix@, results);
        }
    }
    report
}

/// Whether a generation result, where it holds an identity, holds one whose
/// principal has the shape of a principal's text.
pub open spec fn well_formed(result: Result<IdentityView, GenerationError>) -> bool {
    result matches Ok(identity) ==> is_principal_text(identity.principal)
}

/// Work that follows one part of the results and then another is the work
/// that follows both.
pub proof fn lemma_after_concatenation(
    report: ReportView,
    first: Seq<Result<IdentityView, GenerationError>>,
    second: Seq<Result<IdentityView, GenerationError>>,
    prefix: Seq<char>,
)
    ensures
        report.after(first + second, prefix) == report.after(first, prefix).after(second, prefix),
    decreases second.len(),
{
    if second.len() == 0 {
        assert(first + second =~= first);
    } else {
        lemma_after_concatenation(report, first, second.drop_last(), prefix);
        assert((first + second).drop_last() =~= first + second.drop_last());
        assert((first + second).last() == second.last());
    }
}

/// A search that is over stays as it is whatever work follows.
pub proof fn lemma_over_is_final(
    report: ReportView,
    results: Seq<Result<IdentityView, GenerationError>>,
    prefix: Seq<char>,
)
    requires
        report.over(),
    ensures
        report.after(results, prefix) == report,
    decreases results.len(),
{
    if results.len() > 0 {
        lemma_over_is_final(report, results.drop_last(), prefix);
    }
}

/// The flag and the ending of an account that agree still agree after any
/// further work.
pub proof fn lemma_work_keeps_consistency(
    report: ReportView,
    results: Seq<Result<IdentityView, GenerationError>>,
    prefix: Seq<char>,
)
    requires
        report.consistent(),
    ensures
        report.after(results, prefix).consistent(),
    decreases results.len(),
{
    if results.len() > 0 {
        lemma_work_keeps_consistency(report, results.drop_last(), prefix);
    }
}

/// What holds of the account of every search: the flag is set exactly where
/// the search ended on a match; the attempt named by the ending is the last
/// one counted; and the identity found is one of those generated, with a
/// principal that starts with the prefix.
pub proof fn lemma_run_is_sound(
    prefix: Seq<char>,
    results: Seq<Result<IdentityView, GenerationError>>,
)
    ensures
        run(prefix, results).consistent(),
        run(prefix, results).ending matches EndingView::Found { attempt, identity } ==> {
            &&& attempt == run(prefix, results).state.attempts
            &&& prefix.is_prefix_of(identity.principal)
            &&& exists|i: int|
                0 <= i < results.len() && #[trigger] results[i] == Ok::<
                    IdentityView,
                    GenerationError,
                >(identity)
        },
        run(prefix, results).ending matches EndingView::Aborted { attempt } ==> attempt == run(
            prefix,
            results,
        ).state.attempts,
    decreases results.len(),
{
    if results.len() > 0 {
        let front = results.drop_last();
        lemma_run_is_sound(prefix, front);
        if run(prefix, results).ending is Found {
            let identity = run(prefix, results).ending->Found_identity;
            if run(prefix, front).ending is Found {
                let i = choose|i: int|
                    0 <= i < front.len() && #[trigger] front[i] == Ok::<
                        IdentityView,
                        GenerationError,
                    >(identity);
                assert(results[i] == front[i]);
            } else {
                assert(results[results.len() - 1] == Ok::<IdentityView, GenerationError>(
                    identity,
                ));
            }
        }
    }
}

/// While the counter has room, the attempts counted are the results used up:
/// all of them where the search is not over, and those up to the one on
/// which it ended otherwise.
pub proof fn lemma_run_counts_attempts(
    prefix: Seq<char>,
    results: Seq<Result<IdentityView, GenerationError>>,
)
    requires
        results.len() <= u64::MAX,
    ensures
        run(prefix, results).state.attempts <= results.len(),
        !run(prefix, results).over() ==> run(prefix, results).state.attempts == results.len(),
        run(prefix, results).ending matches EndingView::Found { attempt, identity } ==> {
            &&& 1 <= attempt <= results.len()
            &&& results[attempt - 1] == Ok::<IdentityView, GenerationError>(identity)
        },
        run(prefix, results).ending matches EndingView::Aborted { attempt } ==> {
            &&& 1 <= attempt <= results.len()
            &&& results[attempt - 1] == Err::<IdentityView, GenerationError>(
                GenerationError::Randomness,
            )
        },
    decreases results.len(),
{
    if results.len() > 0 {
        lemma_run_is_sound(prefix, results.drop_last());
        lemma_run_counts_attempts(prefix, results.drop_last());
    }
}

/// The search ends on the first result that holds a matching identity,
/// provided that the random source has not failed before: the attempt it
/// names is that result's place in the order.
pub proof fn lemma_first_match_is_found(
    prefix: Seq<char>,
    results: Seq<Result<IdentityView, GenerationError>>,
    place: int,
)
    requires
        results.len() <= u64::MAX,
        0 <= place < results.len(),
        results[place] matches Ok(identity) && prefix.is_prefix_of(identity.principal),
        forall|i: int|
            0 <= i < place ==> judged((i + 1) as u64, #[trigger] results[i], prefix).ends_search()
                == false,
    ensures
        run(prefix, results).ending == (EndingView::Found {
            attempt: (place + 1) as u64,
            identity: results[place]->Ok_0,
        }),
        run(prefix, results).state.attempts == place + 1,
        run(prefix, results).state.found,
{
    lemma_no_end_before(prefix, results.take(place));
    let upto = results.take(place + 1);
    assert(upto.drop_last() =~= results.take(place));
    assert(upto.last() == results[place]);
    assert(run(prefix, upto).over());
    lemma_over_is_final(run(prefix, upto), results.skip(place + 1), prefix);
    lemma_after_concatenation(ReportView::fresh(), upto, results.skip(place + 1), prefix);
    assert(upto + results.skip(place + 1) =~= results);
}

/// A search none of whose results ends it is not over, and has counted them
/// all.
proof fn lemma_no_end_before(
    prefix: Seq<char>,
    results: Seq<Result<IdentityView, GenerationError>>,
)
    requires
        results.len() < u64::MAX,
        forall|i: int|
            0 <= i < results.len() ==> judged(
                (i + 1) as u64,
                #[trigger] results[i],
                prefix,
            ).ends_search() == false,
    ensures
        !run(prefix, results).over(),
        run(prefix, results).ending is NoMatch,
        run(prefix, results).state.attempts == results.len(),
    decreases results.len(),
{
    if results.len() > 0 {
        let front = results.drop_last();
        assert forall|i: int| 0 <= i < front.len() implies judged(
            (i + 1) as u64,
            #[trigger] front[i],
            prefix,
        ).ends_search() == false by {
            assert(front[i] == results[i]);
        }
        lemma_no_end_before(prefix, front);
        assert(results.last() == results[results.len() - 1]);
    }
}

/// With the empty prefix the first identity generated is a match: the search
/// ends after exactly one attempt.
pub proof fn lemma_empty_prefix_matches_at_once(
    prefix: Seq<char>,
    results: Seq<Result<IdentityView, GenerationError>>,
)
    requires
        prefix.len() == 0,
        results.len() <= u64::MAX,
        results.len() > 0,
        results[0] is Ok,
    ensures
        run(prefix, results).ending == (EndingView::Found {
            attempt: 1,
            identity: results[0]->Ok_0,
        }),
        run(prefix, results).state.attempts == 1,
{
    crate::address::lemma_empty_prefix_always_matches(prefix, results[0]->Ok_0.principal);
    lemma_first_match_is_found(prefix, results, 0);
}

/// A prefix that no principal's text can start with is never found, however
/// many identities are generated.
pub proof fn lemma_misfit_prefix_finds_nothing(
    prefix: Seq<char>,
    results: Seq<Result<IdentityView, GenerationError>>,
)
    requires
        !can_start_principal(prefix),
        forall|i: int| 0 <= i < results.len() ==> well_formed(#[trigger] results[i]),
    ensures
        !(run(prefix, results).ending is Found),
        !run(prefix, results).state.found,
    decreases results.len(),
{
    if results.len() > 0 {
        let front = results.drop_last();
        assert forall|i: int| 0 <= i < front.len() implies well_formed(#[trigger] front[i]) by {
            assert(front[i] == results[i]);
        }
        lemma_misfit_prefix_finds_nothing(prefix, front);
        assert(well_formed(results[results.len() - 1]));
        if results.last() is Ok {
            lemma_misfit_prefix_never_matches(prefix, results.last()->Ok_0.principal);
        }
    }
}

/// Every identity that a fresh generation gives has a principal of the shape
/// of a principal's text.
pub proof fn lemma_generated_is_well_formed(
    results: Seq<Result<IdentityView, GenerationError>>,
)
    requires
        all_generated(results),
    ensures
        forall|i: int| 0 <= i < results.len() ==> well_formed(#[trigger] results[i]),
{
    assert forall|i: int| 0 <= i < results.len() implies well_formed(#[trigger] results[i]) by {
        assert(is_generated(results[i]));
        if results[i] is Ok {
            let entropy = choose|entropy: Seq<u8>|
                entropy.len() == 16 && results[i] == #[trigger] derivation(entropy);
            lemma_derived_principal_is_well_formed(entropy);
        }
    }
}

/// Where every identity generated has a principal of the shape of a
/// principal's text, so has the identity found.
pub proof fn lemma_found_is_well_formed(
    prefix: Seq<char>,
    results: Seq<Result<IdentityView, GenerationError>>,
)
    requires
        forall|i: int| 0 <= i < results.len() ==> well_formed(#[trigger] results[i]),
    ensures
        run(prefix, results).ending matches EndingView::Found { attempt, identity } ==> {
            &&& prefix.is_prefix_of(identity.principal)
            &&& is_principal_text(identity.principal)
        },
{
    lemma_run_is_sound(prefix, results);
    if run(prefix, results).ending is Found {
        let identity = run(prefix, results).ending->Found_identity;
        let i = choose|i: int|
            0 <= i < results.len() && #[trigger] results[i] == Ok::<IdentityView, GenerationError>(
                identity,
            );
        assert(well_formed(results[i]));
    }
}

/// An attempt that generated no identity is never a match. Unless the random
/// source failed, the search goes on: the attempt is counted and noted, and
/// the search is not over.
pub proof fn lemma_failure_is_passed_over(
    report: ReportView,
    error: GenerationError,
    prefix: Seq<char>,
)
    requires
        !report.over(),
        !error.fatal(),
    ensures
        ({
            let next = report.advance(Err(error), prefix);
            &&& !next.over()
            &&& next.ending == report.ending
            &&& next.state == report.state.begun()
            &&& next.notices == report.notices.push(
                NoticeView::Skipped { attempt: next.state.attempts, error },
            )
        }),
{
}

} // verus!
