//! A search loses no case: one that misses nothing has pursued every state that it reached.

use vstd::prelude::*;
use crate::kernel::Kernel;
use crate::pattern::PatternV;
use crate::rewrite_types::{AppliedRuleV, RemainderBranchV, RewriteResultV};
use crate::search::{
    has_pattern, search_expanded, search_run, search_simplified, search_start, search_state_after,
    search_state_left, search_states_after, search_step, search_taken, searched, selects_reachable,
    simplification_of, successors_taken, with_state, SearchConfig, SearchProgressV, SEARCHED_STATES,
};
use crate::search_types::{SearchStateV, SearchType};
use crate::simplification::{conjunction_simplified, simplified};
use crate::solver::SmtSolver;

verus! {

// ---------------------------------------------------------------------------------------------
// Cases
// ---------------------------------------------------------------------------------------------
/// Whether a state with the given pattern is among `states`.
pub open spec fn holds(states: Seq<SearchStateV>, pattern: PatternV) -> bool {
    exists|i: int| 0 <= i < states.len() && (#[trigger] states[i]).pattern == pattern
}

/// Whether a state with the given pattern, at the given depth, is among `states`.
pub open spec fn holds_at(states: Seq<SearchStateV>, pattern: PatternV, depth: u64) -> bool {
    exists|i: int|
        0 <= i < states.len() && (#[trigger] states[i]).pattern == pattern && states[i].depth
            == depth
}

/// The depth one step below `depth`, as far as depths are counted.
pub open spec fn one_below(depth: u64) -> u64 {
    if depth < u64::MAX {
        (depth + 1) as u64
    } else {
        depth
    }
}

/// Whether what a rewrite step of `state` leads to was pursued: each branch and the remainder are
/// among the states `reached`, and a state that no rule applies to is `found` where final states
/// are searched for. A step that is not known leads to nothing that was pursued.
pub open spec fn step_pursued(
    search_type: SearchType,
    state: SearchStateV,
    result: RewriteResultV,
    reached: Seq<SearchStateV>,
    found: Seq<SearchStateV>,
) -> bool {
    match result {
        RewriteResultV::Finished(applied) => holds_at(
            reached,
            applied.pattern,
            one_below(state.depth),
        ),
        RewriteResultV::Branch { branches, remainder, .. } => {
            &&& forall|i: int|
                0 <= i < branches.len() ==> holds_at(
                    reached,
                    (#[trigger] branches[i]).pattern,
                    one_below(state.depth),
                )
            &&& remainder is Some ==> holds_at(reached, remainder->0.pattern, state.depth)
        },
        RewriteResultV::Stuck(pattern) => search_type is Final ==> holds(found, pattern),
        RewriteResultV::Indeterminate { .. } => false,
        RewriteResultV::Trivial(_) | RewriteResultV::Vacuous(_) => true,
    }
}

/// Whether `simple` is what `state` simplifies to: the simplified term under the simplified
/// constraints and those that came up on the way.
pub open spec fn simplifies_to<'a, K: Kernel, S: SmtSolver>(
    config: SearchConfig<'a, K, S>,
    state: SearchStateV,
    simple: SearchStateV,
) -> bool {
    let options = simplification_of(config.options);
    let constraints = conjunction_simplified(
        config.definition,
        config.solver,
        state.pattern.constraints,
        Seq::empty(),
        options,
    );
    let term = simplified(
        config.definition,
        config.solver,
        state.pattern.term,
        constraints->Ok_0,
        options,
    );
    &&& constraints is Ok && term is Ok
    &&& simple.depth == state.depth
    &&& simple.pattern.term == term->Ok_0.term
    &&& forall|i: int|
        0 <= i < constraints->Ok_0.len() ==> simple.pattern.constraints.contains(
            #[trigger] constraints->Ok_0[i],
        )
    &&& forall|i: int|
        0 <= i < term->Ok_0.constraints.len() ==> simple.pattern.constraints.contains(
            #[trigger] term->Ok_0.constraints[i],
        )
}

/// Whether `state`, which simplifies to `simple`, was pursued: it is found where it is asked for,
/// and what a step leads to was pursued, unless one step is enough.
pub open spec fn pursued_as<'a, K: Kernel, S: SmtSolver>(
    config: SearchConfig<'a, K, S>,
    state: SearchStateV,
    simple: SearchStateV,
    counter: u64,
    reached: Seq<SearchStateV>,
    found: Seq<SearchStateV>,
) -> bool {
    &&& simplifies_to(config, state, simple)
    &&& match config.options.search_type {
        SearchType::Star => holds(found, simple.pattern),
        SearchType::Plus => state.depth > 0 ==> holds(found, simple.pattern),
        SearchType::One => state.depth == 1 ==> holds(found, simple.pattern),
        SearchType::Final => true,
    }
    &&& (config.options.search_type is One && state.depth == 1) || step_pursued(
        config.options.search_type,
        simple,
        search_step(config, simple, counter).0,
        reached,
        found,
    )
}

/// Whether `state` was pursued.
pub open spec fn pursued<'a, K: Kernel, S: SmtSolver>(
    config: SearchConfig<'a, K, S>,
    state: SearchStateV,
    reached: Seq<SearchStateV>,
    found: Seq<SearchStateV>,
) -> bool {
    exists|simple: SearchStateV, counter: u64| #[trigger]
        pursued_as(config, state, simple, counter, reached, found)
}

/// Whether `reached` holds the start of a search and was pursued as a whole.
pub open spec fn all_pursued<'a, K: Kernel, S: SmtSolver>(
    config: SearchConfig<'a, K, S>,
    initial: PatternV,
    reached: Seq<SearchStateV>,
    found: Seq<SearchStateV>,
) -> bool {
    &&& holds_at(reached, initial, 0)
    &&& forall|i: int|
        0 <= i < reached.len() ==> pursued(config, #[trigger] reached[i], reached, found)
}

/// Whether a state that was found is owed: it is what one of the states `reached` simplifies to,
/// at a depth that is asked for, and no rule applies to it where final states are searched for.
pub open spec fn owed<'a, K: Kernel, S: SmtSolver>(
    config: SearchConfig<'a, K, S>,
    found: SearchStateV,
    reached: Seq<SearchStateV>,
) -> bool {
    exists|state: SearchStateV, simple: SearchStateV, counter: u64| #[trigger]
        owed_by(config, found, state, simple, counter) && reached.contains(state)
}

/// Whether `found` is owed to `state`.
pub open spec fn owed_by<'a, K: Kernel, S: SmtSolver>(
    config: SearchConfig<'a, K, S>,
    found: SearchStateV,
    state: SearchStateV,
    simple: SearchStateV,
    counter: u64,
) -> bool {
    &&& simplifies_to(config, state, simple)
    &&& found.depth == state.depth
    &&& match config.options.search_type {
        SearchType::Star => found.pattern == simple.pattern,
        SearchType::Plus => found.pattern == simple.pattern && state.depth > 0,
        SearchType::One => found.pattern == simple.pattern && state.depth == 1,
        SearchType::Final => search_step(config, simple, counter).0 == RewriteResultV::Stuck(
            found.pattern,
        ),
    }
}

// ---------------------------------------------------------------------------------------------
// One state
// ---------------------------------------------------------------------------------------------
proof fn lemma_states_after(
    state: SearchStateV,
    branches: Seq<AppliedRuleV>,
    found: Seq<SearchStateV>,
    from: int,
)
    requires
        0 <= from <= branches.len(),
    ensures
        found.is_prefix_of(search_states_after(state, branches, found, from)),
        forall|i: int|
            from <= i < branches.len() ==> holds_at(
                search_states_after(state, branches, found, from),
                (#[trigger] branches[i]).pattern,
                one_below(state.depth),
            ),
    decreases branches.len() - from,
{
    let all = search_states_after(state, branches, found, from);
    if from < branches.len() {
        let next = search_state_after(state, branches[from]);
        lemma_states_after(state, branches, found.push(next), from + 1);
        assert(found.push(next)[found.len() as int] == next);
        assert(all[found.len() as int] == next);
        assert(holds_at(all, branches[from].pattern, one_below(state.depth)));
    }
}

proof fn lemma_holds_at_kept(
    fewer: Seq<SearchStateV>,
    more: Seq<SearchStateV>,
    pattern: PatternV,
    depth: u64,
)
    requires
        forall|i: int| 0 <= i < fewer.len() ==> more.contains(#[trigger] fewer[i]),
        holds_at(fewer, pattern, depth),
    ensures
        holds_at(more, pattern, depth),
{
    let i: int = choose|i: int|
        0 <= i < fewer.len() && (#[trigger] fewer[i]).pattern == pattern && fewer[i].depth == depth;
    assert(more.contains(fewer[i]));
    let j: int = choose|j: int| 0 <= j < more.len() && more[j] == fewer[i];
    assert(more[j].pattern == pattern);
}

proof fn lemma_holds_kept(fewer: Seq<SearchStateV>, more: Seq<SearchStateV>, pattern: PatternV)
    requires
        fewer.is_prefix_of(more),
        holds(fewer, pattern),
    ensures
        holds(more, pattern),
{
    let i: int = choose|i: int| 0 <= i < fewer.len() && (#[trigger] fewer[i]).pattern == pattern;
    assert(more[i] == fewer[i]);
}

proof fn lemma_has_pattern(states: Seq<SearchStateV>, pattern: PatternV, count: int)
    requires
        0 <= count <= states.len(),
    ensures
        has_pattern(states, pattern, count) ==> holds(states, pattern),
    decreases count,
{
    if count > 0 {
        lemma_has_pattern(states, pattern, count - 1);
    }
}

proof fn lemma_with_state(states: Seq<SearchStateV>, state: SearchStateV)
    ensures
        states.is_prefix_of(with_state(states, state)),
        holds(with_state(states, state), state.pattern),
        forall|i: int|
            states.len() <= i < with_state(states, state).len() ==> #[trigger] with_state(
                states,
                state,
            )[i] == state,
{
    lemma_has_pattern(states, state.pattern, states.len() as int);
    if !has_pattern(states, state.pattern, states.len() as int) {
        assert(states.push(state)[states.len() as int] == state);
    }
}

/// The expansion of a state loses no case: where the search goes on, and nothing is reported as
/// missed, what the rewrite step leads to waits to be taken up or is found.
pub proof fn law_expansion_loses_no_case<'a, K: Kernel, S: SmtSolver>(
    config: SearchConfig<'a, K, S>,
    progress: SearchProgressV,
    state: SearchStateV,
)
    ensures
        ({
            let (next, goes_on) = search_expanded(config, progress, state);
            &&& progress.states.is_prefix_of(next.states)
            &&& next.incomplete.len() >= progress.incomplete.len()
            &&& next.incomplete.len() == progress.incomplete.len() ==> {
                &&& progress.pending.is_prefix_of(next.pending)
                &&& goes_on || config.options.max_results is Some
                &&& (config.options.search_type is One && state.depth == 1) || step_pursued(
                    config.options.search_type,
                    state,
                    search_step(config, state, progress.counter).0,
                    next.pending,
                    next.states,
                )
            }
        }),
{
    if !(config.options.search_type is One && state.depth == 1) && !(state.depth
        >= config.options.max_depth && !(config.options.search_type is Final)) {
        let (result, counter) = search_step(config, state, progress.counter);
        let now = SearchProgressV { counter, ..progress };
        match result {
            RewriteResultV::Stuck(pattern) => {
                lemma_with_state(progress.states, SearchStateV { pattern, ..state });
            },
            RewriteResultV::Finished(applied) => {
                lemma_successors(config, now, state, seq![applied], None);
                assert(seq![applied][0] == applied);
            },
            RewriteResultV::Branch { branches, remainder, .. } => {
                lemma_successors(config, now, state, branches, remainder);
            },
            _ => {},
        }
    }
}

proof fn lemma_successors<'a, K: Kernel, S: SmtSolver>(
    config: SearchConfig<'a, K, S>,
    progress: SearchProgressV,
    state: SearchStateV,
    branches: Seq<AppliedRuleV>,
    remainder: Option<RemainderBranchV>,
)
    ensures
        ({
            let (next, goes_on) = successors_taken(config, progress, state, branches, remainder);
            &&& next.states == progress.states
            &&& next.incomplete.len() >= progress.incomplete.len()
            &&& next.incomplete.len() == progress.incomplete.len() ==> {
                &&& goes_on
                &&& progress.pending.is_prefix_of(next.pending)
                &&& forall|i: int|
                    0 <= i < branches.len() ==> holds_at(
                        next.pending,
                        (#[trigger] branches[i]).pattern,
                        one_below(state.depth),
                    )
                &&& remainder is Some ==> holds_at(
                    next.pending,
                    remainder->0.pattern,
                    state.depth,
                )
            }
        }),
{
    let (next, _) = successors_taken(config, progress, state, branches, remainder);
    let after = search_states_after(state, branches, progress.pending, 0);
    lemma_states_after(state, branches, progress.pending, 0);
    if next.incomplete.len() == progress.incomplete.len() {
        assert(after.is_prefix_of(next.pending));
        assert forall|i: int| 0 <= i < after.len() implies next.pending.contains(
            #[trigger] after[i],
        ) by {
            assert(next.pending[i] == after[i]);
        }
        assert forall|i: int| 0 <= i < branches.len() implies holds_at(
            next.pending,
            (#[trigger] branches[i]).pattern,
            one_below(state.depth),
        ) by {
            lemma_holds_at_kept(
                after,
                next.pending,
                branches[i].pattern,
                one_below(state.depth),
            );
        }
        if let Some(left) = remainder {
            assert(next.pending[after.len() as int] == search_state_left(state, left));
        }
    }
}

proof fn lemma_simplifies_to<'a, K: Kernel, S: SmtSolver>(
    config: SearchConfig<'a, K, S>,
    state: SearchStateV,
)
    ensures
        match search_simplified(config, state) {
            Ok((simple, _)) => simplifies_to(config, state, simple),
            Err(_) => true,
        },
{
    if let Ok((simple, _)) = search_simplified(config, state) {
        let options = simplification_of(config.options);
        let constraints = conjunction_simplified(
            config.definition,
            config.solver,
            state.pattern.constraints,
            Seq::empty(),
            options,
        )->Ok_0;
        let result = simplified(
            config.definition,
            config.solver,
            state.pattern.term,
            constraints,
            options,
        )->Ok_0;
        let all = simple.pattern.constraints;
        assert forall|i: int| 0 <= i < constraints.len() implies all.contains(
            #[trigger] constraints[i],
        ) by {
            assert(all[i] == constraints[i]);
        }
        assert forall|i: int| 0 <= i < result.constraints.len() implies all.contains(
            #[trigger] result.constraints[i],
        ) by {
            assert(all[constraints.len() + i] == result.constraints[i]);
        }
    }
}

/// A state that is taken up is pursued, where nothing is reported as missed and the results have
/// no bound: what it leads to waits to be taken up, and it is found where it is asked for.
pub proof fn law_taken_states_are_pursued<'a, K: Kernel, S: SmtSolver>(
    config: SearchConfig<'a, K, S>,
    progress: SearchProgressV,
    state: SearchStateV,
)
    requires
        config.options.max_results is None,
    ensures
        ({
            let (next, goes_on) = search_taken(config, progress, state);
            &&& progress.states.is_prefix_of(next.states)
            &&& next.incomplete.len() >= progress.incomplete.len()
            &&& next.incomplete.len() == progress.incomplete.len() ==> {
                &&& goes_on
                &&& progress.pending.is_prefix_of(next.pending)
                &&& pursued(config, state, next.pending, next.states)
                &&& forall|i: int|
                    progress.states.len() <= i < next.states.len() ==> owed(
                        config,
                        #[trigger] next.states[i],
                        seq![state],
                    )
            }
        }),
{
    reveal(search_taken);
    let (next, _) = search_taken(config, progress, state);
    lemma_simplifies_to(config, state);
    if let Ok((simple, effects)) = search_simplified(config, state) {
        let first = SearchProgressV { effects: progress.effects + effects, ..progress };
        let selected = selects_reachable(config.options.search_type, simple.depth);
        lemma_with_state(progress.states, simple);
        let found = if selected {
            SearchProgressV { states: with_state(progress.states, simple), ..first }
        } else {
            first
        };
        law_expansion_loses_no_case(config, found, simple);
        lemma_expansion_owed(config, found, simple);
        if next.incomplete.len() == progress.incomplete.len() {
            if selected {
                lemma_holds_kept(found.states, next.states, simple.pattern);
            }
            assert(pursued_as(
                config,
                state,
                simple,
                found.counter,
                next.pending,
                next.states,
            ));
            assert forall|i: int| progress.states.len() <= i < next.states.len() implies owed(
                config,
                #[trigger] next.states[i],
                seq![state],
            ) by {
                assert(seq![state][0] == state);
                assert(seq![state].contains(state));
                if i < found.states.len() {
                    assert(next.states[i] == found.states[i]);
                    assert(found.states[i] == simple);
                }
                assert(owed_by(config, next.states[i], state, simple, found.counter));
            }
        }
    }
}

proof fn lemma_expansion_owed<'a, K: Kernel, S: SmtSolver>(
    config: SearchConfig<'a, K, S>,
    progress: SearchProgressV,
    state: SearchStateV,
)
    ensures
        ({
            let (next, _) = search_expanded(config, progress, state);
            next.incomplete.len() == progress.incomplete.len() ==> forall|i: int|
                progress.states.len() <= i < next.states.len() ==> (
                #[trigger] next.states[i]).depth == state.depth && search_step(
                    config,
                    state,
                    progress.counter,
                ).0 == RewriteResultV::Stuck(next.states[i].pattern)
                    && config.options.search_type is Final
        }),
{
    if !(config.options.search_type is One && state.depth == 1) && !(state.depth
        >= config.options.max_depth && !(config.options.search_type is Final)) {
        let (result, counter) = search_step(config, state, progress.counter);
        let now = SearchProgressV { counter, ..progress };
        match result {
            RewriteResultV::Stuck(pattern) => {
                lemma_with_state(progress.states, SearchStateV { pattern, ..state });
            },
            RewriteResultV::Finished(applied) => {
                lemma_successors(config, now, state, seq![applied], None);
            },
            RewriteResultV::Branch { branches, remainder, .. } => {
                lemma_successors(config, now, state, branches, remainder);
            },
            _ => {},
        }
    }
}

// ---------------------------------------------------------------------------------------------
// Whole searches
// ---------------------------------------------------------------------------------------------
proof fn lemma_pursued_kept<'a, K: Kernel, S: SmtSolver>(
    config: SearchConfig<'a, K, S>,
    state: SearchStateV,
    reached: Seq<SearchStateV>,
    found: Seq<SearchStateV>,
    more: Seq<SearchStateV>,
    more_found: Seq<SearchStateV>,
)
    requires
        pursued(config, state, reached, found),
        forall|i: int| 0 <= i < reached.len() ==> more.contains(#[trigger] reached[i]),
        found.is_prefix_of(more_found),
    ensures
        pursued(config, state, more, more_found),
{
    let (simple, counter) = choose|simple: SearchStateV, counter: u64| #[trigger]
        pursued_as(config, state, simple, counter, reached, found);
    if holds(found, simple.pattern) {
        lemma_holds_kept(found, more_found, simple.pattern);
    }
    if !(config.options.search_type is One && state.depth == 1) {
        match search_step(config, simple, counter).0 {
            RewriteResultV::Finished(applied) => {
                lemma_holds_at_kept(
                    reached,
                    more,
                    applied.pattern,
                    one_below(simple.depth),
                );
            },
            RewriteResultV::Branch { branches, remainder, .. } => {
                assert forall|i: int| 0 <= i < branches.len() implies holds_at(
                    more,
                    (#[trigger] branches[i]).pattern,
                    one_below(simple.depth),
                ) by {
                    lemma_holds_at_kept(
                        reached,
                        more,
                        branches[i].pattern,
                        one_below(simple.depth),
                    );
                }
                if let Some(left) = remainder {
                    lemma_holds_at_kept(reached, more, left.pattern, simple.depth);
                }
            },
            RewriteResultV::Stuck(pattern) => {
                if config.options.search_type is Final {
                    lemma_holds_kept(found, more_found, pattern);
                }
            },
            _ => {},
        }
    }
    assert(pursued_as(config, state, simple, counter, more, more_found));
}

/// Whether the states that were taken up were pursued, and all that was found is owed to them.
spec fn kept_up<'a, K: Kernel, S: SmtSolver>(
    config: SearchConfig<'a, K, S>,
    done: Seq<SearchStateV>,
    progress: SearchProgressV,
) -> bool {
    &&& forall|i: int|
        0 <= i < done.len() ==> pursued(
            config,
            #[trigger] done[i],
            done + progress.pending,
            progress.states,
        )
    &&& forall|i: int|
        0 <= i < progress.states.len() ==> owed(config, #[trigger] progress.states[i], done)
}

proof fn lemma_owed_kept<'a, K: Kernel, S: SmtSolver>(
    config: SearchConfig<'a, K, S>,
    found: SearchStateV,
    reached: Seq<SearchStateV>,
    more: Seq<SearchStateV>,
)
    requires
        owed(config, found, reached),
        forall|i: int| 0 <= i < reached.len() ==> more.contains(#[trigger] reached[i]),
    ensures
        owed(config, found, more),
{
    let (state, simple, counter) = choose|state: SearchStateV, simple: SearchStateV, counter: u64|
     #[trigger]
        owed_by(config, found, state, simple, counter) && reached.contains(state);
    let i: int = choose|i: int| 0 <= i < reached.len() && reached[i] == state;
    assert(more.contains(reached[i]));
    assert(owed_by(config, found, state, simple, counter));
}

proof fn lemma_run<'a, K: Kernel, S: SmtSolver>(
    config: SearchConfig<'a, K, S>,
    done: Seq<SearchStateV>,
    progress: SearchProgressV,
    fuel: nat,
) -> (reached: Seq<SearchStateV>)
    requires
        config.options.max_results is None,
        search_run(config, progress, fuel).incomplete.len() == 0,
        search_run(config, progress, fuel).pending.len() == 0,
        kept_up(config, done, progress),
    ensures
        ({
            let found = search_run(config, progress, fuel).states;
            &&& forall|i: int|
                0 <= i < reached.len() ==> pursued(config, #[trigger] reached[i], reached, found)
            &&& forall|i: int| 0 <= i < found.len() ==> owed(config, #[trigger] found[i], reached)
            &&& forall|i: int| 0 <= i < done.len() ==> reached.contains(#[trigger] done[i])
            &&& forall|i: int|
                0 <= i < progress.pending.len() ==> reached.contains(#[trigger] progress.pending[i])
        }),
    decreases fuel,
{
    if fuel == 0 || progress.pending.len() == 0 {
        assert(done + progress.pending =~= done);
        done
    } else {
        let state = progress.pending[0];
        let rest = SearchProgressV { pending: progress.pending.remove(0), ..progress };
        let (next, goes_on) = search_taken(config, rest, state);
        law_taken_states_are_pursued(config, rest, state);
        if goes_on {
            lemma_run_reports(config, next, (fuel - 1) as nat);
        }
        assert(next.incomplete.len() == 0);
        let more = done.push(state);
        let all = more + next.pending;
        assert forall|i: int| 0 <= i < next.pending.len() implies all.contains(
            #[trigger] next.pending[i],
        ) by {
            assert(all[more.len() + i] == next.pending[i]);
        }
        let before = done + progress.pending;
        assert forall|i: int| 0 <= i < before.len() implies all.contains(#[trigger] before[i]) by {
            if i <= done.len() {
                assert(all[i] == before[i]);
            } else {
                let k = i - done.len() - 1;
                assert(rest.pending[k] == before[i]);
                assert(next.pending[k] == before[i]);
            }
        }
        assert forall|i: int| 0 <= i < more.len() implies pursued(
            config,
            #[trigger] more[i],
            all,
            next.states,
        ) by {
            if i < done.len() {
                assert(more[i] == done[i]);
                lemma_pursued_kept(
                    config,
                    done[i],
                    before,
                    progress.states,
                    all,
                    next.states,
                );
            } else {
                lemma_pursued_kept(
                    config,
                    state,
                    next.pending,
                    next.states,
                    all,
                    next.states,
                );
            }
        }
        assert forall|i: int| 0 <= i < next.states.len() implies owed(
            config,
            #[trigger] next.states[i],
            more,
        ) by {
            if i < progress.states.len() {
                assert(next.states[i] == progress.states[i]);
                assert forall|j: int| 0 <= j < done.len() implies more.contains(
                    #[trigger] done[j],
                ) by {
                    assert(more[j] == done[j]);
                }
                lemma_owed_kept(config, progress.states[i], done, more);
            } else {
                assert forall|j: int| 0 <= j < seq![state].len() implies more.contains(
                    #[trigger] seq![state][j],
                ) by {
                    assert(more[done.len() as int] == state);
                }
                lemma_owed_kept(config, next.states[i], seq![state], more);
            }
        }
        let reached = lemma_run(config, more, next, (fuel - 1) as nat);
        assert forall|i: int| 0 <= i < done.len() implies reached.contains(#[trigger] done[i]) by {
            assert(more[i] == done[i]);
        }
        assert forall|i: int| 0 <= i < progress.pending.len() implies reached.contains(
            #[trigger] progress.pending[i],
        ) by {
            if i == 0 {
                assert(more[done.len() as int] == state);
            } else {
                assert(rest.pending[i - 1] == progress.pending[i]);
                assert(next.pending[i - 1] == progress.pending[i]);
            }
        }
        reached
    }
}

proof fn lemma_run_reports<'a, K: Kernel, S: SmtSolver>(
    config: SearchConfig<'a, K, S>,
    progress: SearchProgressV,
    fuel: nat,
)
    requires
        config.options.max_results is None,
    ensures
        search_run(config, progress, fuel).incomplete.len() >= progress.incomplete.len(),
    decreases fuel,
{
    if fuel > 0 && progress.pending.len() > 0 {
        let rest = SearchProgressV { pending: progress.pending.remove(0), ..progress };
        law_taken_states_are_pursued(config, rest, progress.pending[0]);
        let (next, goes_on) = search_taken(config, rest, progress.pending[0]);
        if goes_on {
            lemma_run_reports(config, next, (fuel - 1) as nat);
        }
    }
}

/// A search that misses nothing is closed under rewriting. There are states, the start among them,
/// such that each was pursued: its branches and its remainder are among them, and it is found
/// where it is asked for. And all that is found is owed to them. (No more states are taken up than
/// can be counted.)
pub proof fn law_complete_search_is_closed<'a, K: Kernel, S: SmtSolver>(
    config: SearchConfig<'a, K, S>,
    initial: PatternV,
) -> (reached: Seq<SearchStateV>)
    requires
        config.options.max_results is None,
        searched(config, initial).incomplete.len() == 0,
        search_run(config, search_start(initial), SEARCHED_STATES as nat).pending.len() == 0,
    ensures
        all_pursued(config, initial, reached, searched(config, initial).states),
        forall|i: int|
            0 <= i < searched(config, initial).states.len() ==> owed(
                config,
                #[trigger] searched(config, initial).states[i],
                reached,
            ),
{
    let start = search_start(initial);
    let none = Seq::<SearchStateV>::empty();
    let reached = lemma_run(config, none, start, SEARCHED_STATES as nat);
    assert(reached.contains(start.pending[0]));
    let i: int = choose|i: int| 0 <= i < reached.len() && reached[i] == start.pending[0];
    assert(reached[i].pattern == initial);
    reached
}

} // verus!
