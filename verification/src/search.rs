//! The search: attempts are judged against the target prefix until one
//! matches.
//!
//! The state that the workers of a search share is a counter of attempts and a
//! flag that says whether a match was found. A worker that finds the flag set
//! does nothing. Otherwise it counts its attempt, generates an identity and
//! judges it; on a match it sets the flag. [`judge`] decides what an attempt
//! came to, [`SearchState`] holds the two values as they stand at one moment,
//! and [`SearchState::record`] is the whole step of one worker on it.
//!
//! Workers on several threads touch the state only by the two atomic
//! operations of [`Operation`], so that all they do together amounts to some
//! sequence of these. The laws at the end of this module hold of every such
//! sequence: the counter counts every attempt begun and never falls, and the
//! flag, once set, stays set.

use crate::address::{has_prefix, is_principal_text};
use crate::identity::{
    attempt_view, derivation, generate_identity, is_generated,
    lemma_derived_principal_is_well_formed, GenerationError, Identity, IdentityView,
};
use vstd::prelude::*;

verus! {

/// A sample of the search is reported at every attempt whose number is a
/// multiple of this.
pub const REPORT_INTERVAL: u64 = 100_000;

/// The number of units of work that the coordinator hands out at once.
pub const BATCH_SIZE: u64 = 10_000;

/// What one unit of work came to.
#[derive(Clone, Debug, PartialEq, Eq)]
pub enum Outcome {
    /// A match had been found before: nothing was counted or generated.
    Idle,
    /// The identity's principal starts with the prefix.
    Match { attempt: u64, identity: Identity },
    /// No match, but the attempt is one whose principal is reported.
    Progress { attempt: u64, sample: String },
    /// No match.
    Miss { attempt: u64 },
    /// No identity was generated.
    Failed { attempt: u64, error: GenerationError },
}

/// What an [`Outcome`] holds.
pub enum OutcomeView {
    Idle,
    Match { attempt: u64, identity: IdentityView },
    Progress { attempt: u64, sample: Seq<char> },
    Miss { attempt: u64 },
    Failed { attempt: u64, error: GenerationError },
}

impl View for Outcome {
    type V = OutcomeView;

    open spec fn view(&self) -> OutcomeView {
        match *self {
            Outcome::Idle => OutcomeView::Idle,
            Outcome::Match { attempt, identity } => OutcomeView::Match {
                attempt,
                identity: identity@,
            },
            Outcome::Progress { attempt, sample } => OutcomeView::Progress {
                attempt,
                sample: sample@,
            },
            Outcome::Miss { attempt } => OutcomeView::Miss { attempt },
            Outcome::Failed { attempt, error } => OutcomeView::Failed { attempt, error },
        }
    }
}

impl OutcomeView {
    /// Whether no further attempt is to be made after this outcome: a match
    /// was found, or the random source has failed.
    pub open spec fn ends_search(self) -> bool {
        match self {
            OutcomeView::Match { .. } => true,
            OutcomeView::Failed { error, .. } => error.fatal(),
            _ => false,
        }
    }
}

/// What attempt number `attempt` came to, given the result of its generation:
/// a failure whatever the prefix; a match where the principal starts with the
/// prefix; a progress sample at every [`REPORT_INTERVAL`]-th attempt that is no
/// match; a miss otherwise.
pub open spec fn judged(
    attempt: u64,
    result: Result<IdentityView, GenerationError>,
    prefix: Seq<char>,
) -> OutcomeView {
    match result {
        Err(error) => OutcomeView::Failed { attempt, error },
        Ok(identity) => if prefix.is_prefix_of(identity.principal) {
            OutcomeView::Match { attempt, identity }
        } else if attempt % REPORT_INTERVAL == 0 {
            OutcomeView::Progress { attempt, sample: identity.principal }
        } else {
            OutcomeView::Miss { attempt }
        },
    }
}

/// Judges attempt number `attempt` by the result of its generation.
pub fn judge(attempt: u64, result: Result<Identity, GenerationError>, prefix: &str) -> (r: Outcome)
    ensures
        r@ == judged(attempt, attempt_view(result), prefix@),
{
    match result {
        Err(error) => Outcome::Failed { attempt, error },
        Ok(identity) => {
            if has_prefix(identity.principal.as_str(), prefix) {
                Outcome::Match { attempt, identity }
            } else if attempt % REPORT_INTERVAL == 0 {
                let Identity { principal, mnemonic: _, secret_key: _ } = identity;
                Outcome::Progress { attempt, sample: principal }
            } else {
                Outcome::Miss { attempt }
            }
        },
    }
}

/// A match is an identity that was generated, so its principal has the shape
/// of a principal's text, and it starts with the prefix.
pub proof fn lemma_generated_match_is_well_formed(
    attempt: u64,
    result: Result<IdentityView, GenerationError>,
    prefix: Seq<char>,
)
    requires
        is_generated(result),
    ensures
        judged(attempt, result, prefix) matches OutcomeView::Match { identity, .. } ==> {
            &&& result == Ok::<IdentityView, GenerationError>(identity)
            &&& prefix.is_prefix_of(identity.principal)
            &&& is_principal_text(identity.principal)
        },
{
    if result is Ok {
        let entropy = choose|entropy: Seq<u8>|
            entropy.len() == 16 && result == #[trigger] derivation(entropy);
        lemma_derived_principal_is_well_formed(entropy);
    }
}

/// The state of a search: what its workers share, as it stands at one moment.
#[derive(Debug)]
pub struct SearchState {
    attempts: u64,
    found: bool,
}

/// What a [`SearchState`] holds: the number of attempts begun and whether a
/// match was found.
pub struct SearchView {
    pub attempts: u64,
    pub found: bool,
}

/// What a worker can do to the shared state. Each operation is atomic, so
/// whatever the workers do at the same time amounts to a sequence of these.
pub enum Operation {
    /// Count one more attempt.
    BeginAttempt,
    /// Set the flag.
    MarkFound,
}

/// The number of the attempt that is counted when the counter holds `count`:
/// one more than `count`. The counter has 64 bits and starts again at zero
/// after its largest value.
pub open spec fn following(count: u64) -> u64 {
    if count == u64::MAX {
        0
    } else {
        (count + 1) as u64
    }
}

/// The number of the attempt that is counted when the counter holds `count`.
pub fn next_attempt(count: u64) -> (number: u64)
    ensures
        number == following(count),
{
    if count == u64::MAX {
        0
    } else {
        count + 1
    }
}

impl SearchView {
    /// The state before any attempt.
    pub open spec fn initial() -> SearchView {
        SearchView { attempts: 0, found: false }
    }

    /// The state with one more attempt counted.
    pub open spec fn begun(self) -> SearchView {
        SearchView { attempts: following(self.attempts), found: self.found }
    }

    /// The state with the flag set.
    pub open spec fn marked(self) -> SearchView {
        SearchView { attempts: self.attempts, found: true }
    }

    /// The state after one operation.
    pub open spec fn apply(self, operation: Operation) -> SearchView {
        match operation {
            Operation::BeginAttempt => self.begun(),
            Operation::MarkFound => self.marked(),
        }
    }

    /// The state after a sequence of operations.
    pub open spec fn after(self, operations: Seq<Operation>) -> SearchView
        decreases operations.len(),
    {
        if operations.len() == 0 {
            self
        } else {
            self.after(operations.drop_last()).apply(operations.last())
        }
    }
}

/// The number of attempts begun in a sequence of operations.
pub open spec fn attempts_begun(operations: Seq<Operation>) -> nat
    decreases operations.len(),
{
    if operations.len() == 0 {
        0
    } else {
        attempts_begun(operations.drop_last()) + if operations.last() is BeginAttempt {
            1nat
        } else {
            0nat
        }
    }
}

impl View for SearchState {
    type V = SearchView;

    closed spec fn view(&self) -> SearchView {
        SearchView { attempts: self.attempts, found: self.found }
    }
}

impl SearchState {
    /// The state of a search that has not begun.
    pub fn new() -> (state: SearchState)
        ensures
            state@ == SearchView::initial(),
    {
        SearchState { attempts: 0, found: false }
    }

    /// The number of attempts begun so far.
    pub fn attempts(&self) -> (n: u64)
        ensures
            n == self@.attempts,
    {
        self.attempts
    }

    /// Whether a match was found.
    pub fn is_found(&self) -> (found: bool)
        ensures
            found == self@.found,
    {
        self.found
    }

    /// Counts one more attempt and returns its number.
    pub fn begin_attempt(&mut self) -> (number: u64)
        ensures
            final(self)@ == old(self)@.apply(Operation::BeginAttempt),
            number == final(self)@.attempts,
    {
        self.attempts = next_attempt(self.attempts);
        self.attempts
    }

    /// Sets the flag that says that a match was found.
    pub fn mark_found(&mut self)
        ensures
            final(self)@ == old(self)@.apply(Operation::MarkFound),
    {
        self.found = true;
    }
}

/// As long as the counter has room, it holds the number of attempts begun:
/// whatever else the workers do in between, it never falls and never counts
/// too few.
pub proof fn lemma_counter_counts_attempts(state: SearchView, operations: Seq<Operation>)
    requires
        state.attempts + attempts_begun(operations) <= u64::MAX,
    ensures
        state.after(operations).attempts == state.attempts + attempts_begun(operations),
        state.after(operations).attempts >= state.attempts,
        state.after(operations).attempts >= attempts_begun(operations),
    decreases operations.len(),
{
    if operations.len() > 0 {
        lemma_counter_counts_attempts(state, operations.drop_last());
    }
}

/// The counter never falls while it has room: at every point of a sequence of
/// operations it is at least what it was at any earlier point.
pub proof fn lemma_counter_never_decreases(
    state: SearchView,
    operations: Seq<Operation>,
    earlier: int,
    later: int,
)
    requires
        state.attempts + attempts_begun(operations) <= u64::MAX,
        0 <= earlier <= later <= operations.len(),
    ensures
        state.after(operations.take(earlier)).attempts <= state.after(
            operations.take(later),
        ).attempts,
{
    lemma_attempts_begun_grows(operations, earlier);
    lemma_attempts_begun_grows(operations, later);
    lemma_attempts_begun_grows(operations.take(later), earlier);
    assert(operations.take(later).take(earlier) == operations.take(earlier));
    lemma_counter_counts_attempts(state, operations.take(earlier));
    lemma_counter_counts_attempts(state, operations.take(later));
}

/// A part of a sequence of operations begins no more attempts than the whole.
proof fn lemma_attempts_begun_grows(operations: Seq<Operation>, upto: int)
    requires
        0 <= upto <= operations.len(),
    ensures
        attempts_begun(operations.take(upto)) <= attempts_begun(operations),
    decreases operations.len(),
{
    if upto == operations.len() {
        assert(operations.take(upto) == operations);
    } else {
        lemma_attempts_begun_grows(operations.drop_last(), upto);
        assert(operations.drop_last().take(upto) == operations.take(upto));
    }
}

/// The flag is set after a sequence of operations exactly if it was set
/// before or one of the operations set it. No operation clears it: once set,
/// it stays set.
pub proof fn lemma_found_is_never_reset(state: SearchView, operations: Seq<Operation>)
    ensures
        state.after(operations).found == (state.found || exists|i: int|
            0 <= i < operations.len() && operations[i] is MarkFound),
        state.found ==> state.after(operations).found,
    decreases operations.len(),
{
    if operations.len() > 0 {
        let front = operations.drop_last();
        lemma_found_is_never_reset(state, front);
        if state.after(operations).found {
            if !state.found {
                if operations.last() is MarkFound {
                    assert(operations[operations.len() - 1] is MarkFound);
                } else {
                    let i = choose|i: int| 0 <= i < front.len() && front[i] is MarkFound;
                    assert(operations[i] is MarkFound);
                }
            }
        } else {
            assert forall|i: int| 0 <= i < operations.len() implies !(operations[i] is MarkFound) by {
                if i < front.len() {
                    assert(front[i] == operations[i]);
                }
            }
        }
    }
}

/// What one unit of work does to the shared state and comes to, given the
/// result that its generation would have: nothing where the flag is set;
/// otherwise the attempt is counted and judged under its number, and a match
/// sets the flag.
pub open spec fn step(
    state: SearchView,
    result: Result<IdentityView, GenerationError>,
    prefix: Seq<char>,
) -> (SearchView, OutcomeView) {
    if state.found {
        (state, OutcomeView::Idle)
    } else {
        let counted = state.begun();
        let outcome = judged(counted.attempts, result, prefix);
        if outcome is Match {
            (counted.marked(), outcome)
        } else {
            (counted, outcome)
        }
    }
}

impl SearchState {
    /// One unit of work on an identity that was generated for it: see
    /// [`step`].
    pub fn record(&mut self, result: Result<Identity, GenerationError>, prefix: &str) -> (r:
        Outcome)
        ensures
            (final(self)@, r@) == step(old(self)@, attempt_view(result), prefix@),
    {
        if self.is_found() {
            return Outcome::Idle;
        }
        let number = self.begin_attempt();
        let outcome = judge(number, result, prefix);
        if let Outcome::Match { .. } = outcome {
            self.mark_found();
        }
        outcome
    }

    /// One unit of work: where no match was found yet, counts an attempt,
    /// generates a fresh identity and judges it. No identity is generated
    /// where the flag is set.
    pub fn work(&mut self, prefix: &str) -> (r: Outcome)
        ensures
            exists|result: Result<IdentityView, GenerationError>|
                is_generated(result) && (final(self)@, r@) == #[trigger] step(
                    old(self)@,
                    result,
                    prefix@,
                ),
            r@ matches OutcomeView::Match { identity, .. } ==> {
                &&& prefix@.is_prefix_of(identity.principal)
                &&& is_principal_text(identity.principal)
            },
    {
        if self.is_found() {
            assert(is_generated(Err(GenerationError::Randomness)));
            assert((self@, OutcomeView::Idle) == step(
                old(self)@,
                Err(GenerationError::Randomness),
                prefix@,
            ));
            return Outcome::Idle;
        }
        let result = generate_identity();
        let ghost generated = attempt_view(result);
        let outcome = self.record(result, prefix);
        proof {
            assert((self@, outcome@) == step(old(self)@, generated, prefix@));
            lemma_generated_match_is_well_formed(self@.attempts, generated, prefix@);
        }
        outcome
    }
}

/// One unit of work amounts to a sequence of operations on the shared state:
/// none, the counting of an attempt, or that and the setting of the flag.
pub proof fn lemma_step_is_operations(
    state: SearchView,
    result: Result<IdentityView, GenerationError>,
    prefix: Seq<char>,
) -> (operations: Seq<Operation>)
    ensures
        step(state, result, prefix).0 == state.after(operations),
        operations.len() <= 2,
        attempts_begun(operations) == if state.found {
            0nat
        } else {
            1nat
        },
{
    let begin = seq![Operation::BeginAttempt];
    let begin_and_mark = seq![Operation::BeginAttempt, Operation::MarkFound];
    assert(begin.drop_last() =~= Seq::<Operation>::empty());
    assert(begin_and_mark.drop_last() =~= begin);
    assert(state.after(Seq::<Operation>::empty()) == state);
    assert(state.after(begin) == state.begun());
    assert(state.after(begin_and_mark) == state.begun().marked());
    assert(attempts_begun(Seq::<Operation>::empty()) == 0);
    assert(attempts_begun(begin) == 1);
    assert(attempts_begun(begin_and_mark) == 1);
    if state.found {
        Seq::<Operation>::empty()
    } else if step(state, result, prefix).1 is Match {
        begin_and_mark
    } else {
        begin
    }
}

} // verus!
