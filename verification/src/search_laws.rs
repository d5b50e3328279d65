//! What bounds do to a search.

use vstd::prelude::*;
use crate::kernel::Kernel;
use crate::pattern::PatternV;
use crate::pattern_search::{
    match_incomplete_of, pattern_matched, pattern_searched, states_matched, with_match,
};
use crate::search::{
    search_run, search_simplified, search_start, search_step, search_taken, searched,
    simplification_of, SearchConfig, SearchProgressV, SEARCHED_STATES,
};
use crate::search_types::{IncompleteSearchV, SearchMatchV, SearchOptions, SearchStateV};
use crate::solver::SmtSolver;

verus! {

/// `config` without a bound on the results.
pub open spec fn with_all_results<'a, K: Kernel, S: SmtSolver>(
    config: SearchConfig<'a, K, S>,
) -> SearchConfig<'a, K, S> {
    SearchConfig { options: SearchOptions { max_results: None, ..config.options }, ..config }
}

/// `config` without bounds on the results and on the breadth.
pub open spec fn without_bounds<'a, K: Kernel, S: SmtSolver>(
    config: SearchConfig<'a, K, S>,
) -> SearchConfig<'a, K, S> {
    SearchConfig {
        options: SearchOptions { max_results: None, max_breadth: None, ..config.options },
        ..config
    }
}

/// Whether two searches have found the same.
spec fn same_findings(left: SearchProgressV, right: SearchProgressV) -> bool {
    left.states == right.states && left.effects == right.effects && left.incomplete
        == right.incomplete
}

proof fn lemma_taken_with_all_results<'a, K: Kernel, S: SmtSolver>(
    config: SearchConfig<'a, K, S>,
    progress: SearchProgressV,
    state: SearchStateV,
)
    ensures
        ({
            let bounded = search_taken(config, progress, state);
            let unbounded = search_taken(with_all_results(config), progress, state);
            bounded == unbounded || (!bounded.1 && (bounded.0.incomplete.len() > 0 || (
            same_findings(bounded.0, unbounded.0) && unbounded.0.pending.len() == 0)))
        }),
{
    reveal(search_taken);
    let other = with_all_results(config);
    assert(search_simplified(config, state) == search_simplified(other, state));
    assert forall|state: SearchStateV, counter: u64| #[trigger] search_step(config, state, counter)
        == search_step(other, state, counter) by {}
}

proof fn lemma_run_with_all_results<'a, K: Kernel, S: SmtSolver>(
    config: SearchConfig<'a, K, S>,
    progress: SearchProgressV,
    fuel: nat,
)
    requires
        search_run(config, progress, fuel).incomplete.len() == 0,
    ensures
        same_findings(
            search_run(config, progress, fuel),
            search_run(with_all_results(config), progress, fuel),
        ),
    decreases fuel,
{
    if fuel > 0 && progress.pending.len() > 0 {
        let rest = SearchProgressV { pending: progress.pending.remove(0), ..progress };
        lemma_taken_with_all_results(config, rest, progress.pending[0]);
        let (next, goes_on) = search_taken(config, rest, progress.pending[0]);
        if goes_on {
            lemma_run_with_all_results(config, next, (fuel - 1) as nat);
        } else {
            let (other, _) = search_taken(with_all_results(config), rest, progress.pending[0]);
            if other.pending.len() == 0 {
                assert(search_run(with_all_results(config), other, (fuel - 1) as nat) == other);
            }
        }
    }
}

/// A search with a bound on its results that misses nothing finds what a search without that
/// bound finds.
pub proof fn law_complete_search_is_unbounded<'a, K: Kernel, S: SmtSolver>(
    config: SearchConfig<'a, K, S>,
    initial: PatternV,
)
    requires
        searched(config, initial).incomplete.len() == 0,
    ensures
        searched(with_all_results(config), initial) == searched(config, initial),
{
    lemma_run_with_all_results(config, search_start(initial), SEARCHED_STATES as nat);
}

proof fn lemma_taken_grows<'a, K: Kernel, S: SmtSolver>(
    config: SearchConfig<'a, K, S>,
    progress: SearchProgressV,
    state: SearchStateV,
)
    ensures
        progress.states.is_prefix_of(search_taken(config, progress, state).0.states),
{
    reveal(search_taken);
}

proof fn lemma_run_grows<'a, K: Kernel, S: SmtSolver>(
    config: SearchConfig<'a, K, S>,
    progress: SearchProgressV,
    fuel: nat,
)
    ensures
        progress.states.is_prefix_of(search_run(config, progress, fuel).states),
    decreases fuel,
{
    if fuel > 0 && progress.pending.len() > 0 {
        let rest = SearchProgressV { pending: progress.pending.remove(0), ..progress };
        lemma_taken_grows(config, rest, progress.pending[0]);
        let (next, goes_on) = search_taken(config, rest, progress.pending[0]);
        if goes_on {
            lemma_run_grows(config, next, (fuel - 1) as nat);
        }
    }
}

proof fn lemma_taken_without_bounds<'a, K: Kernel, S: SmtSolver>(
    config: SearchConfig<'a, K, S>,
    progress: SearchProgressV,
    state: SearchStateV,
)
    ensures
        ({
            let bounded = search_taken(config, progress, state);
            let unbounded = search_taken(without_bounds(config), progress, state);
            bounded == unbounded || (!bounded.1 && bounded.0.states.is_prefix_of(
                unbounded.0.states,
            ))
        }),
{
    reveal(search_taken);
    let other = without_bounds(config);
    assert(search_simplified(config, state) == search_simplified(other, state));
    assert forall|state: SearchStateV, counter: u64| #[trigger] search_step(config, state, counter)
        == search_step(other, state, counter) by {}
}

proof fn lemma_run_without_bounds<'a, K: Kernel, S: SmtSolver>(
    config: SearchConfig<'a, K, S>,
    progress: SearchProgressV,
    fuel: nat,
)
    ensures
        search_run(config, progress, fuel).states.is_prefix_of(
            search_run(without_bounds(config), progress, fuel).states,
        ),
    decreases fuel,
{
    if fuel > 0 && progress.pending.len() > 0 {
        let rest = SearchProgressV { pending: progress.pending.remove(0), ..progress };
        lemma_taken_without_bounds(config, rest, progress.pending[0]);
        let (next, goes_on) = search_taken(config, rest, progress.pending[0]);
        let (other, _) = search_taken(without_bounds(config), rest, progress.pending[0]);
        if goes_on {
            lemma_run_without_bounds(config, next, (fuel - 1) as nat);
        } else {
            lemma_run_grows(without_bounds(config), other, (fuel - 1) as nat);
        }
    }
}

/// Bounds on the results and on the breadth invent no states: a search with them returns the first
/// of the states that a search without them returns.
pub proof fn law_bounds_invent_nothing<'a, K: Kernel, S: SmtSolver>(
    config: SearchConfig<'a, K, S>,
    initial: PatternV,
)
    ensures
        searched(config, initial).states.is_prefix_of(
            searched(without_bounds(config), initial).states,
        ),
{
    lemma_run_without_bounds(config, search_start(initial), SEARCHED_STATES as nat);
}

/// The first `count` of `items`, or all of them where they are fewer.
pub open spec fn at_most<T>(items: Seq<T>, count: nat) -> Seq<T> {
    items.take(if count < items.len() {
        count as int
    } else {
        items.len() as int
    })
}

proof fn lemma_at_most<T>(items: Seq<T>, all: Seq<T>, count: nat)
    requires
        items.is_prefix_of(all),
        items.len() == count || items.len() < count && items == all,
    ensures
        items == at_most(all, count),
{
    assert(items =~= at_most(all, count));
}

proof fn lemma_taken_bounded<'a, K: Kernel, S: SmtSolver>(
    config: SearchConfig<'a, K, S>,
    progress: SearchProgressV,
    state: SearchStateV,
    count: usize,
)
    requires
        config.options.max_results == Some(count),
        progress.states.len() < count,
    ensures
        ({
            let bounded = search_taken(config, progress, state);
            let unbounded = search_taken(with_all_results(config), progress, state);
            ||| bounded == unbounded && bounded.0.states.len() < count
            ||| !bounded.1 && bounded.0.states.len() == count && bounded.0.states.is_prefix_of(
                unbounded.0.states,
            )
        }),
{
    reveal(search_taken);
    let other = with_all_results(config);
    assert(search_simplified(config, state) == search_simplified(other, state));
    assert forall|state: SearchStateV, counter: u64| #[trigger] search_step(config, state, counter)
        == search_step(other, state, counter) by {}
}

proof fn lemma_run_bounded<'a, K: Kernel, S: SmtSolver>(
    config: SearchConfig<'a, K, S>,
    progress: SearchProgressV,
    fuel: nat,
    count: usize,
)
    requires
        config.options.max_results == Some(count),
        progress.states.len() < count,
    ensures
        search_run(config, progress, fuel).states == at_most(
            search_run(with_all_results(config), progress, fuel).states,
            count as nat,
        ),
    decreases fuel,
{
    let all = with_all_results(config);
    if fuel > 0 && progress.pending.len() > 0 {
        let rest = SearchProgressV { pending: progress.pending.remove(0), ..progress };
        lemma_taken_bounded(config, rest, progress.pending[0], count);
        let (next, goes_on) = search_taken(config, rest, progress.pending[0]);
        let (other, other_goes_on) = search_taken(all, rest, progress.pending[0]);
        if goes_on {
            lemma_run_bounded(config, next, (fuel - 1) as nat, count);
        } else {
            if other_goes_on {
                lemma_run_grows(all, other, (fuel - 1) as nat);
            }
            lemma_at_most(next.states, search_run(all, progress, fuel).states, count as nat);
        }
    } else {
        lemma_at_most(progress.states, progress.states, count as nat);
    }
}

/// A search for at most `count` states returns the first `count` states that a search without
/// that bound returns, and all of them where they are fewer.
pub proof fn law_bounded_search<'a, K: Kernel, S: SmtSolver>(
    config: SearchConfig<'a, K, S>,
    initial: PatternV,
    count: usize,
)
    requires
        config.options.max_results == Some(count),
    ensures
        searched(config, initial).states == at_most(
            searched(with_all_results(config), initial).states,
            count as nat,
        ),
{
    if config.options.max_breadth == Some(0usize) || count == 0 {
        assert(searched(config, initial).states =~= at_most(
            searched(with_all_results(config), initial).states,
            count as nat,
        ));
    } else {
        lemma_run_bounded(config, search_start(initial), SEARCHED_STATES as nat, count);
    }
}

proof fn lemma_matched_bounded<'a, K: Kernel, S: SmtSolver>(
    config: SearchConfig<'a, K, S>,
    target: PatternV,
    states: Seq<SearchStateV>,
    matches: Seq<SearchMatchV>,
    incomplete: Seq<IncompleteSearchV>,
    from: int,
    count: usize,
)
    requires
        0 <= from <= states.len(),
        config.options.max_results == Some(count),
        matches.len() < count,
    ensures
        states_matched(config, target, states, matches, incomplete, from).0 == at_most(
            states_matched(
                with_all_results(config),
                target,
                states,
                matches,
                incomplete,
                from,
            ).0,
            count as nat,
        ),
    decreases states.len() - from,
{
    let other = with_all_results(config);
    if from < states.len() {
        match pattern_matched(
            config.definition,
            config.solver,
            target,
            states[from].pattern,
            simplification_of(config.options),
            false,
        ) {
            Ok(None) => {
                lemma_matched_bounded(config, target, states, matches, incomplete, from + 1, count);
            },
            Err(error) => {
                let more = incomplete.push(match_incomplete_of(states[from], error));
                lemma_matched_bounded(config, target, states, matches, more, from + 1, count);
            },
            Ok(Some(condition)) => {
                let next = with_match(matches, condition, states[from]);
                if next.len() < count {
                    lemma_matched_bounded(
                        config,
                        target,
                        states,
                        next,
                        incomplete,
                        from + 1,
                        count,
                    );
                } else {
                    lemma_states_matched(other, target, states, next, incomplete, from + 1);
                    assert(with_all_results(other) == other);
                    lemma_at_most(
                        next,
                        states_matched(other, target, states, next, incomplete, from + 1).0,
                        count as nat,
                    );
                }
            },
        }
    } else {
        lemma_at_most(matches, matches, count as nat);
    }
}

/// A search for at most `count` instances returns the first `count` instances that a search
/// without that bound returns, and all of them where they are fewer.
pub proof fn law_bounded_pattern_search<'a, K: Kernel, S: SmtSolver>(
    config: SearchConfig<'a, K, S>,
    initial: PatternV,
    target: PatternV,
    count: usize,
)
    requires
        config.options.max_results == Some(count),
    ensures
        pattern_searched(config, initial, target).matches == at_most(
            pattern_searched(with_all_results(config), initial, target).matches,
            count as nat,
        ),
{
    if count == 0 {
        assert(pattern_searched(config, initial, target).matches =~= at_most(
            pattern_searched(with_all_results(config), initial, target).matches,
            count as nat,
        ));
    } else {
        let graph = searched(with_all_results(config), initial);
        assert(with_all_results(with_all_results(config)) == with_all_results(config));
        lemma_matched_bounded(
            config,
            target,
            graph.states,
            Seq::empty(),
            graph.incomplete,
            0,
            count,
        );
    }
}

proof fn lemma_states_matched<'a, K: Kernel, S: SmtSolver>(
    config: SearchConfig<'a, K, S>,
    target: PatternV,
    states: Seq<SearchStateV>,
    matches: Seq<SearchMatchV>,
    incomplete: Seq<IncompleteSearchV>,
    from: int,
)
    requires
        0 <= from <= states.len(),
    ensures
        ({
            let (bounded, missed) = states_matched(
                config,
                target,
                states,
                matches,
                incomplete,
                from,
            );
            let (unbounded, missed_by_all) = states_matched(
                with_all_results(config),
                target,
                states,
                matches,
                incomplete,
                from,
            );
            &&& matches.is_prefix_of(bounded)
            &&& bounded.is_prefix_of(unbounded)
            &&& missed.len() == 0 ==> bounded == unbounded && missed_by_all.len() == 0
            &&& missed.len() >= incomplete.len()
        }),
    decreases states.len() - from,
{
    let other = with_all_results(config);
    if from < states.len() {
        match pattern_matched(
            config.definition,
            config.solver,
            target,
            states[from].pattern,
            simplification_of(config.options),
            false,
        ) {
            Ok(None) => {
                lemma_states_matched(config, target, states, matches, incomplete, from + 1);
            },
            Err(error) => {
                let more = incomplete.push(match_incomplete_of(states[from], error));
                lemma_states_matched(config, target, states, matches, more, from + 1);
            },
            Ok(Some(condition)) => {
                let next = with_match(matches, condition, states[from]);
                assert(matches.is_prefix_of(next));
                lemma_states_matched(config, target, states, next, incomplete, from + 1);
                lemma_states_matched(other, target, states, next, incomplete, from + 1);
                assert(with_all_results(other) == other);
            },
        }
    }
}

/// A search for instances with a bound on its results that misses nothing finds the instances
/// that a search without that bound finds.
pub proof fn law_complete_pattern_search_is_unbounded<'a, K: Kernel, S: SmtSolver>(
    config: SearchConfig<'a, K, S>,
    initial: PatternV,
    target: PatternV,
)
    requires
        pattern_searched(config, initial, target).incomplete.len() == 0,
    ensures
        pattern_searched(with_all_results(config), initial, target) == pattern_searched(
            config,
            initial,
            target,
        ),
{
    let graph = searched(with_all_results(config), initial);
    assert(with_all_results(with_all_results(config)) == with_all_results(config));
    lemma_states_matched(config, target, graph.states, Seq::empty(), graph.incomplete, 0);
    assert(pattern_searched(with_all_results(config), initial, target).incomplete
        =~= pattern_searched(config, initial, target).incomplete);
}

/// A bound on the results of a search for instances invents none: the search returns the first of
/// the instances that a search without the bound returns.
pub proof fn law_bound_invents_no_instances<'a, K: Kernel, S: SmtSolver>(
    config: SearchConfig<'a, K, S>,
    initial: PatternV,
    target: PatternV,
)
    ensures
        pattern_searched(config, initial, target).matches.is_prefix_of(
            pattern_searched(with_all_results(config), initial, target).matches,
        ),
{
    let graph = searched(with_all_results(config), initial);
    assert(with_all_results(with_all_results(config)) == with_all_results(config));
    lemma_states_matched(config, target, graph.states, Seq::empty(), graph.incomplete, 0);
}

} // verus!
