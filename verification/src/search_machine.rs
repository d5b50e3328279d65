//! Searches that do one piece of work at a time, and can be cancelled in between.

use vstd::prelude::*;
use crate::kernel::Kernel;
use crate::model::{deep, group_deep, Value};
use crate::pattern::{Pattern, PatternV};
use crate::search::{
    bound_reached, expand_state, first_state, may_expand, push_unique, search_expanded, search_run,
    search_simplified, search_start, search_taken, searched, selects_reachable,
    selects_reachable_state, simplify_state, state_may_expand, with_incomplete, with_state,
    SearchConfig, SearchProgress, SearchProgressV, SEARCHED_STATES,
};
use crate::search_types::{
    IncompleteSearch, IncompleteSearchV, SearchResult, SearchResultV, SearchState, SearchStateV,
};
use crate::solver::SmtSolver;

verus! {

broadcast use group_deep;

/// Where a search stands.
#[derive(Debug, PartialEq, Eq)]
pub enum SearchPhase {
    /// The next state is to be taken up.
    Waiting,
    /// The state was taken up.
    Taken(SearchState),
    /// The state was simplified, and recorded if the search asks for it.
    Simplified(SearchState),
    /// The search has ended.
    Finished,
}

/// The view of [`SearchPhase`].
pub enum SearchPhaseV {
    Waiting,
    Taken(SearchStateV),
    Simplified(SearchStateV),
    Finished,
}

impl View for SearchPhase {
    type V = SearchPhaseV;

    open spec fn view(&self) -> SearchPhaseV {
        match self {
            SearchPhase::Waiting => SearchPhaseV::Waiting,
            SearchPhase::Taken(state) => SearchPhaseV::Taken(state@),
            SearchPhase::Simplified(state) => SearchPhaseV::Simplified(state@),
            SearchPhase::Finished => SearchPhaseV::Finished,
        }
    }
}

/// A search.
pub struct SearchMachine {
    pub progress: SearchProgress,
    pub phase: SearchPhase,
}

/// The view of a [`SearchMachine`].
pub struct SearchMachineV {
    pub progress: SearchProgressV,
    pub phase: SearchPhaseV,
}

impl View for SearchMachine {
    type V = SearchMachineV;

    open spec fn view(&self) -> SearchMachineV {
        SearchMachineV { progress: self.progress@, phase: self.phase@ }
    }
}

/// The machine that goes on with the next state, or has ended.
pub open spec fn going_on(outcome: (SearchProgressV, bool)) -> SearchMachineV {
    SearchMachineV {
        progress: outcome.0,
        phase: if outcome.1 {
            SearchPhaseV::Waiting
        } else {
            SearchPhaseV::Finished
        },
    }
}

/// The machine for a search from `initial`.
pub open spec fn machine_for<'a, K: Kernel, S: SmtSolver>(
    config: SearchConfig<'a, K, S>,
    initial: PatternV,
) -> SearchMachineV {
    let start = search_start(initial);
    let empty = SearchProgressV { pending: Seq::empty(), ..start };
    if config.options.max_breadth == Some(0usize) {
        going_on(
            (with_incomplete(empty, IncompleteSearchV::BreadthBound(start.pending)), false),
        )
    } else if config.options.max_results == Some(0usize) {
        going_on((with_incomplete(empty, IncompleteSearchV::ResultBound), false))
    } else {
        SearchMachineV { progress: start, phase: SearchPhaseV::Waiting }
    }
}

/// The next state taken up.
pub open spec fn taken_up(progress: SearchProgressV) -> SearchMachineV {
    if progress.pending.len() == 0 {
        going_on((progress, false))
    } else {
        SearchMachineV {
            progress: SearchProgressV { pending: progress.pending.remove(0), ..progress },
            phase: SearchPhaseV::Taken(progress.pending[0]),
        }
    }
}

/// A state simplified, and recorded if the search asks for it.
pub open spec fn state_simplified<'a, K: Kernel, S: SmtSolver>(
    config: SearchConfig<'a, K, S>,
    progress: SearchProgressV,
    state: SearchStateV,
) -> SearchMachineV {
    match search_simplified(config, state) {
        Err(missed) => going_on((with_incomplete(progress, missed), true)),
        Ok((state, effects)) => {
            let progress = SearchProgressV { effects: progress.effects + effects, ..progress };
            if selects_reachable(config.options.search_type, state.depth) {
                let found = SearchProgressV {
                    states: with_state(progress.states, state),
                    ..progress
                };
                if !bound_reached(found.states, config.options.max_results) {
                    SearchMachineV { progress: found, phase: SearchPhaseV::Simplified(state) }
                } else if found.pending.len() > 0 {
                    going_on((with_incomplete(found, IncompleteSearchV::ResultBound), false))
                } else {
                    let (expands, counter) = may_expand(config, state, found.counter);
                    let found = SearchProgressV { counter, ..found };
                    going_on(
                        (
                            if expands {
                                with_incomplete(found, IncompleteSearchV::ResultBound)
                            } else {
                                found
                            },
                            false,
                        ),
                    )
                }
            } else {
                SearchMachineV { progress, phase: SearchPhaseV::Simplified(state) }
            }
        },
    }
}

/// The machine after the next piece of work.
pub open spec fn advanced<'a, K: Kernel, S: SmtSolver>(
    config: SearchConfig<'a, K, S>,
    machine: SearchMachineV,
) -> SearchMachineV {
    match machine.phase {
        SearchPhaseV::Waiting => taken_up(machine.progress),
        SearchPhaseV::Taken(state) => state_simplified(config, machine.progress, state),
        SearchPhaseV::Simplified(state) => going_on(
            search_expanded(config, machine.progress, state),
        ),
        SearchPhaseV::Finished => machine,
    }
}

/// The machine when the work is cancelled: that on the state at hand is dropped, and the search goes
/// on to the next state.
pub open spec fn cancelled(machine: SearchMachineV) -> SearchMachineV {
    match machine.phase {
        SearchPhaseV::Taken(state) | SearchPhaseV::Simplified(state) => going_on(
            (with_incomplete(machine.progress, IncompleteSearchV::Cancelled(state)), true),
        ),
        _ => machine,
    }
}

/// What a search has found.
pub open spec fn findings(progress: SearchProgressV) -> SearchResultV {
    SearchResultV {
        states: progress.states,
        effects: progress.effects,
        incomplete: progress.incomplete,
    }
}

fn go_on(progress: SearchProgress, goes_on: bool) -> (machine: SearchMachine)
    ensures
        machine@ == going_on((progress@, goes_on)),
{
    SearchMachine {
        progress,
        phase: if goes_on {
            SearchPhase::Waiting
        } else {
            SearchPhase::Finished
        },
    }
}

#[verifier::spinoff_prover]
fn simplify_taken<'a, K: Kernel, S: SmtSolver>(
    config: &SearchConfig<'a, K, S>,
    progress: SearchProgress,
    state: SearchState,
) -> (machine: SearchMachine)
    ensures
        machine@ == state_simplified(*config, progress@, state@),
{
    let mut progress = progress;
    let (next, effects) = match simplify_state(config, state) {
        Ok(result) => result,
        Err(missed) => {
            progress.incomplete.push(missed);
            return go_on(progress, true);
        },
    };
    let mut effects = effects;
    progress.effects.append(&mut effects);
    if selects_reachable_state(config.options.search_type, next.depth) {
        if push_unique(&mut progress.states, next.duplicate(), config.options.max_results) {
            if progress.pending.len() > 0 {
                progress.incomplete.push(IncompleteSearch::ResultBound);
                return go_on(progress, false);
            }
            let mut counter: u64 = progress.counter;
            let expands = state_may_expand(config, &next, &mut counter);
            progress.counter = counter;
            if expands {
                progress.incomplete.push(IncompleteSearch::ResultBound);
            }
            return go_on(progress, false);
        }
    }
    SearchMachine { progress, phase: SearchPhase::Simplified(next) }
}

impl SearchMachine {
    /// Start a search.
    #[verifier::spinoff_prover]
    pub fn new<'a, K: Kernel, S: SmtSolver>(
        config: &SearchConfig<'a, K, S>,
        initial: Pattern,
    ) -> (machine: Self)
        ensures
            machine@ == machine_for(*config, initial@),
    {
        let state = SearchState { pattern: initial, depth: 0, trace: Vec::new() };
        let mut pending: Vec<SearchState> = Vec::new();
        pending.push(state);
        assert(deep(pending@) =~= seq![first_state(initial@)]);
        let mut progress = SearchProgress {
            pending: Vec::new(),
            states: Vec::new(),
            effects: Vec::new(),
            incomplete: Vec::new(),
            counter: 0,
        };
        if let Some(0) = config.options.max_breadth {
            progress.incomplete.push(IncompleteSearch::BreadthBound(pending));
            return go_on(progress, false);
        }
        if let Some(0) = config.options.max_results {
            progress.incomplete.push(IncompleteSearch::ResultBound);
            return go_on(progress, false);
        }
        progress.pending = pending;
        SearchMachine { progress, phase: SearchPhase::Waiting }
    }

    /// Do the next piece of work.
    pub fn advance<'a, K: Kernel, S: SmtSolver>(self, config: &SearchConfig<'a, K, S>) -> (next:
        Self)
        ensures
            next@ == advanced(*config, self@),
    {
        let SearchMachine { progress, phase } = self;
        let mut progress = progress;
        match phase {
            SearchPhase::Waiting => {
                if progress.pending.len() == 0 {
                    return go_on(progress, false);
                }
                let ghost before = deep(progress.pending@);
                assert(before[0] == progress.pending[0]@);
                let state = progress.pending.remove(0);
                assert(deep(progress.pending@) =~= before.remove(0));
                SearchMachine { progress, phase: SearchPhase::Taken(state) }
            },
            SearchPhase::Taken(state) => simplify_taken(config, progress, state),
            SearchPhase::Simplified(state) => {
                let goes_on = expand_state(config, &mut progress, state);
                go_on(progress, goes_on)
            },
            SearchPhase::Finished => SearchMachine { progress, phase: SearchPhase::Finished },
        }
    }

    /// Drop the work on the state at hand.
    pub fn cancel(self) -> (next: Self)
        ensures
            next@ == cancelled(self@),
    {
        let SearchMachine { progress, phase } = self;
        let mut progress = progress;
        match phase {
            SearchPhase::Taken(state) | SearchPhase::Simplified(state) => {
                progress.incomplete.push(IncompleteSearch::Cancelled(state));
                go_on(progress, true)
            },
            phase => SearchMachine { progress, phase },
        }
    }

    /// Whether the search has ended.
    pub fn is_finished(&self) -> (result: bool)
        ensures
            result == (self@.phase is Finished),
    {
        matches!(self.phase, SearchPhase::Finished)
    }

    /// Whether the next piece of work is to take up a state.
    pub fn is_waiting(&self) -> (result: bool)
        ensures
            result == (self@.phase is Waiting),
    {
        matches!(self.phase, SearchPhase::Waiting)
    }

    /// What the search has found.
    pub fn into_result(self) -> (result: SearchResult)
        ensures
            result@ == findings(self@.progress),
    {
        let SearchProgress { states, effects, incomplete, .. } = self.progress;
        SearchResult { states, effects, incomplete }
    }
}

// ---------------------------------------------------------------------------------------------
// Laws
// ---------------------------------------------------------------------------------------------
/// The machine after `count` pieces of work.
pub open spec fn worked<'a, K: Kernel, S: SmtSolver>(
    config: SearchConfig<'a, K, S>,
    machine: SearchMachineV,
    count: nat,
) -> SearchMachineV
    decreases count,
{
    if count == 0 {
        machine
    } else {
        worked(config, advanced(config, machine), (count - 1) as nat)
    }
}

proof fn lemma_state_taken<'a, K: Kernel, S: SmtSolver>(
    config: SearchConfig<'a, K, S>,
    progress: SearchProgressV,
    state: SearchStateV,
)
    ensures
        ({
            let after = state_simplified(config, progress, state);
            going_on(search_taken(config, progress, state)) == (if after.phase is Simplified {
                advanced(config, after)
            } else {
                after
            })
        }),
{
    reveal(search_taken);
}

proof fn lemma_worked<'a, K: Kernel, S: SmtSolver>(
    config: SearchConfig<'a, K, S>,
    progress: SearchProgressV,
    fuel: nat,
) -> (count: nat)
    ensures
        findings(
            worked(
                config,
                SearchMachineV { progress, phase: SearchPhaseV::Waiting },
                count,
            ).progress,
        ) == findings(search_run(config, progress, fuel)),
    decreases fuel,
{
    let start = SearchMachineV { progress, phase: SearchPhaseV::Waiting };
    if fuel == 0 || progress.pending.len() == 0 {
        assert(worked(config, start, 0) == start);
        0
    } else {
        let state = progress.pending[0];
        let rest = SearchProgressV { pending: progress.pending.remove(0), ..progress };
        let (next, goes_on) = search_taken(config, rest, state);
        let taken = advanced(config, start);
        let second = advanced(config, taken);
        lemma_state_taken(config, rest, state);
        let more: nat = if goes_on {
            lemma_worked(config, next, (fuel - 1) as nat)
        } else {
            0
        };
        let last = going_on((next, goes_on));
        assert(worked(config, last, 0) == last);
        if second.phase is Simplified {
            assert(advanced(config, second) == last);
            assert(worked(config, second, more + 1) == worked(config, last, more));
            assert(worked(config, taken, more + 2) == worked(config, second, more + 1));
            assert(worked(config, start, more + 3) == worked(config, taken, more + 2));
            more + 3
        } else {
            assert(second == last);
            assert(worked(config, taken, more + 1) == worked(config, second, more));
            assert(worked(config, start, more + 2) == worked(config, taken, more + 1));
            more + 2
        }
    }
}

/// A machine that is not cancelled finds what the search finds.
pub proof fn law_machine_searches<'a, K: Kernel, S: SmtSolver>(
    config: SearchConfig<'a, K, S>,
    initial: PatternV,
)
    ensures
        exists|count: nat|
            findings((#[trigger] worked(config, machine_for(config, initial), count)).progress)
                == searched(config, initial),
{
    let start = machine_for(config, initial);
    if start.phase is Finished {
        assert(worked(config, start, 0) == start);
        assert(findings(start.progress).incomplete =~= searched(config, initial).incomplete);
        assert(findings(worked(config, start, 0).progress) == searched(config, initial));
    } else {
        let count = lemma_worked(config, search_start(initial), SEARCHED_STATES as nat);
        assert(findings(worked(config, start, count).progress) == searched(config, initial));
    }
}

/// A search that is cancelled on its first state finds nothing, and says on which state.
pub proof fn law_cancelled_search<'a, K: Kernel, S: SmtSolver>(
    config: SearchConfig<'a, K, S>,
    initial: PatternV,
)
    requires
        config.options.max_breadth != Some(0usize),
        config.options.max_results != Some(0usize),
    ensures
        ({
            let taken = advanced(config, machine_for(config, initial));
            let after = advanced(config, cancelled(taken));
            after.phase is Finished && findings(after.progress) == (SearchResultV {
                states: Seq::empty(),
                effects: Seq::empty(),
                incomplete: seq![IncompleteSearchV::Cancelled(first_state(initial))],
            })
        }),
{
    let taken = advanced(config, machine_for(config, initial));
    let after = advanced(config, cancelled(taken));
    assert(taken.progress.pending =~= Seq::empty());
    assert(findings(after.progress).incomplete =~= seq![
        IncompleteSearchV::Cancelled(first_state(initial)),
    ]);
}

} // verus!
