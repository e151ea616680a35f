//! The state of a search in the form that workers on several threads share.
//!
//! [`SharedState`] holds the counter of attempts and the flag of
//! [`SearchState`](crate::search::SearchState) in atomic cells. Each of its
//! operations is one atomic access with relaxed ordering, so whatever the
//! workers do at the same time amounts to a sequence of
//! [`Operation`](crate::search::Operation)s, of which the laws of
//! [`search`](crate::search) speak. What another thread does between two
//! accesses is not known to the caller: the contracts here say only what
//! holds of every interleaving.

use crate::address::is_principal_text;
use crate::coordinator::batch_ends_search;
use crate::identity::{attempt_view, generate_identity, is_generated, GenerationError, IdentityView};
use crate::search::{judge, judged, lemma_generated_match_is_well_formed, Outcome, OutcomeView};
use std::sync::atomic::{AtomicBool, AtomicU64, Ordering};
use vstd::prelude::*;

verus! {

/// The counter of attempts and the flag, shared between threads.
pub struct SharedState {
    attempts: AtomicU64,
    found: AtomicBool,
}

impl SharedState {
    /// The shared state of a search that has not begun: no attempt counted,
    /// the flag not set.
    pub fn new() -> SharedState {
        SharedState { attempts: AtomicU64::new(0), found: AtomicBool::new(false) }
    }

    /// Whether the flag was set when it was read.
    fn is_found(&self) -> bool {
        self.found.load(Ordering::Relaxed)
    }

    /// Counts one more attempt and returns its number: that which
    /// [`next_attempt`](crate::search::next_attempt) gives for what the counter held.
    fn begin_attempt(&self) -> u64 {
        let before = self.attempts.fetch_add(1, Ordering::Relaxed);
        crate::search::next_attempt(before)
    }

    /// Sets the flag. Nothing clears it.
    fn mark_found(&self) {
        self.found.store(true, Ordering::Relaxed);
    }

    /// One unit of work of one worker. Where the flag is set, nothing is
    /// done. Otherwise an attempt is counted, a fresh identity is generated
    /// and judged under the attempt's number, and a match sets the flag.
    pub fn work(&self, prefix: &str) -> (r: Outcome)
        ensures
            r@ is Idle || exists|number: u64, result: Result<IdentityView, GenerationError>|
                is_generated(result) && r@ == #[trigger] judged(number, result, prefix@),
            r@ matches OutcomeView::Match { identity, .. } ==> {
                &&& prefix@.is_prefix_of(identity.principal)
                &&& is_principal_text(identity.principal)
            },
    {
        if self.is_found() {
            return Outcome::Idle;
        }
        let number = self.begin_attempt();
        let result = generate_identity();
        let ghost generated = attempt_view(result);
        let outcome = judge(number, result, prefix);
        proof {
            assert(outcome@ == judged(number, generated, prefix@));
            lemma_generated_match_is_well_formed(number, generated, prefix@);
        }
        if let Outcome::Match { .. } = outcome {
            self.mark_found();
        }
        outcome
    }

    /// Whether the coordinator stops after a batch: it does where the batch
    /// gave a match, and also where it reads the flag as set although the
    /// batch gave none.
    pub fn ends_search(&self, batch_matched: bool) -> (stop: bool)
        ensures
            batch_matched ==> stop,
    {
        batch_ends_search(batch_matched, self.is_found())
    }
}

} // verus!
