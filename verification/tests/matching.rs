//! Matches, substitutions and sorts.

use k_rust_backend::definition::BackendDefinition;
use k_rust_backend::diagnostic::BackendDiagnostic;
use k_rust_backend::kernel::{
    BuiltinError, BuiltinResult, EmptyKernel, Kernel, UnificationResult,
};
use k_rust_backend::matcher::{match_terms, match_terms_in_definition};
use k_rust_backend::matching::{FailReason, MatchMode, MatchResult};
use k_rust_backend::model::Value;
use k_rust_backend::predicate::Predicate;
use k_rust_backend::sorts::{SortError, SortGraph};
use k_rust_backend::substitution::{compose, substitute, Substitution};
use k_rust_backend::term::{
    CollectionDefinition, FunctionType, Sort, Symbol, SymbolAttributes, SymbolType, Term, Variable,
};

fn sort(name: &str) -> Sort {
    Sort::simple(name)
}

fn graph() -> SortGraph {
    let mut graph = SortGraph::new();
    graph.insert("SortA", Vec::new());
    graph.insert("SortB", vec!["SortA".to_owned()]);
    graph.insert("SortList", Vec::new());
    graph
}

fn variable(name: &str) -> Variable {
    Variable::new(name, sort("SortA"))
}

fn value(text: &str) -> Term {
    Term::domain_value(sort("SortA"), text)
}

fn constructor(name: &str, arguments: Vec<Term>) -> Term {
    let sorts = arguments.iter().map(Term::sort).collect();
    Term::application(
        Symbol::constructor(name, sorts, sort("SortA")),
        Vec::new(),
        arguments,
    )
}

fn function(name: &str, arguments: Vec<Term>) -> Term {
    let symbol = Symbol {
        name: name.to_owned(),
        sort_variables: Vec::new(),
        argument_sorts: arguments.iter().map(Term::sort).collect(),
        result_sort: sort("SortA"),
        attributes: SymbolAttributes::plain(SymbolType::Function(FunctionType::Total)),
    };
    Term::application(symbol, Vec::new(), arguments)
}

fn list() -> CollectionDefinition {
    CollectionDefinition {
        unit: "listUnit".to_owned(),
        element: "listItem".to_owned(),
        concat: "listConcat".to_owned(),
        sort: sort("SortList"),
    }
}

fn matched(pattern: &Term, subject: &Term) -> MatchResult {
    match_terms(MatchMode::Rewrite, &graph(), &EmptyKernel, pattern, subject)
}

fn solution(pattern: &Term, subject: &Term) -> Substitution {
    match matched(pattern, subject) {
        MatchResult::Success(substitution) => substitution,
        other => panic!("expected a match, found {other:?}"),
    }
}

#[test]
fn a_match_makes_the_pattern_into_the_subject() {
    let pattern = constructor(
        "pair",
        vec![
            Term::variable(variable("X")),
            constructor("one", vec![Term::variable(variable("Y"))]),
        ],
    );
    let subject = constructor(
        "pair",
        vec![value("first"), constructor("one", vec![value("second")])],
    );
    let substitution = solution(&pattern, &subject);

    assert_eq!(substitution.bindings.len(), 2);
    assert_eq!(substitution.get(&variable("X")), Some(&value("first")));
    assert_eq!(substitution.get(&variable("Y")), Some(&value("second")));
    assert_eq!(substitute(&pattern, &substitution), subject);
}

#[test]
fn a_conjunction_matches_with_both_of_its_parts() {
    let pattern = Term::and(value("v"), Term::variable(variable("Alias")));
    let substitution = solution(&pattern, &value("v"));
    assert_eq!(substitution.get(&variable("Alias")), Some(&value("v")));
    assert!(matches!(matched(&pattern, &value("w")), MatchResult::Failed(_)));
}

#[test]
fn a_variable_of_a_larger_sort_takes_an_injection() {
    let large = Variable::new("L", sort("SortB"));
    let substitution = solution(&Term::variable(large.duplicate()), &value("v"));
    assert_eq!(
        substitution.get(&large),
        Some(&Term::injection(sort("SortA"), sort("SortB"), value("v")))
    );
}

#[test]
fn mismatches_have_their_reasons() {
    let reason = |pattern: &Term, subject: &Term| match matched(pattern, subject) {
        MatchResult::Failed(reason) => reason,
        other => panic!("expected a failure, found {other:?}"),
    };
    let x = || Term::variable(variable("X"));

    assert!(matches!(
        reason(&value("v"), &value("w")),
        FailReason::DifferentValues(..)
    ));
    assert!(matches!(
        reason(&constructor("one", vec![x()]), &constructor("two", vec![value("v")])),
        FailReason::DifferentSymbols(..)
    ));
    assert!(matches!(
        reason(
            &constructor("one", vec![x()]),
            &constructor("one", vec![value("v"), value("w")])
        ),
        FailReason::ArgumentLengthsDiffer(..)
    ));
    assert!(matches!(
        reason(
            &constructor("pair", vec![x(), x()]),
            &constructor("pair", vec![value("v"), value("w")])
        ),
        FailReason::VariableConflict(..)
    ));
    assert!(matches!(
        reason(&x(), &Term::domain_value(sort("SortB"), "v")),
        FailReason::DifferentSorts(..)
    ));
    assert!(matches!(
        reason(
            &Term::variable(Variable::new("X", sort("SortMissing"))),
            &value("v")
        ),
        FailReason::Subsorting(SortError::FoundUnknownSort(_))
    ));
}

#[test]
fn shared_variables_are_left_open_or_refused() {
    let x = || Term::variable(variable("X"));
    let pattern = constructor("pair", vec![x(), value("v")]);
    let subject = constructor("pair", vec![value("v"), x()]);

    assert!(matches!(
        matched(&pattern, &subject),
        MatchResult::Indeterminate { remainder, .. } if remainder.len() == 1
    ));
    assert!(matches!(
        match_terms(MatchMode::Evaluate, &graph(), &EmptyKernel, &pattern, &subject),
        MatchResult::Failed(FailReason::SharedVariables(shared)) if shared == vec![variable("X")]
    ));
    assert!(matches!(
        matched(&pattern, &pattern),
        MatchResult::Success(substitution) if substitution.is_empty()
    ));
}

#[test]
fn functions_are_left_open() {
    let pattern = constructor("one", vec![value("v")]);
    let subject = constructor("one", vec![function("f", vec![value("v")])]);
    assert!(matches!(
        matched(&pattern, &subject),
        MatchResult::Indeterminate { remainder, .. }
            if remainder == vec![(value("v"), function("f", vec![value("v")]))]
    ));
}

#[test]
fn a_list_pattern_binds_its_frame() {
    let frame = Variable::new("Rest", sort("SortList"));
    let pattern = Term::list(
        list(),
        vec![Term::variable(variable("Head"))],
        Some(Term::variable(frame.duplicate())),
        Vec::new(),
    );
    let subject = Term::list(list(), vec![value("a"), value("b"), value("c")], None, Vec::new());
    let substitution = solution(&pattern, &subject);

    assert_eq!(substitution.get(&variable("Head")), Some(&value("a")));
    assert_eq!(
        substitution.get(&frame),
        Some(&Term::list(list(), vec![value("b"), value("c")], None, Vec::new()))
    );
    assert_eq!(substitute(&pattern, &substitution), subject);
}

#[test]
fn map_patterns_match_by_key() {
    let map = || CollectionDefinition {
        unit: "mapUnit".to_owned(),
        element: "mapItem".to_owned(),
        concat: "mapConcat".to_owned(),
        sort: sort("SortList"),
    };
    let frame = Variable::new("Rest", sort("SortList"));
    let pattern = Term::map(
        map(),
        vec![(value("k"), Term::variable(variable("X")))],
        Some(Term::variable(frame.duplicate())),
    );
    let subject = Term::map(
        map(),
        vec![(value("j"), value("1")), (value("k"), value("2"))],
        None,
    );
    let substitution = solution(&pattern, &subject);
    assert_eq!(substitution.get(&variable("X")), Some(&value("2")));
    assert_eq!(
        substitution.get(&frame),
        Some(&Term::map(map(), vec![(value("j"), value("1"))], None))
    );

    let absent = Term::map(map(), vec![(value("m"), value("2"))], None);
    assert!(matches!(
        matched(&absent, &subject),
        MatchResult::Failed(FailReason::KeyNotFound(..))
    ));
}

#[test]
fn matching_in_a_definition_uses_its_sorts() {
    let mut definition = BackendDefinition::new(EmptyKernel);
    definition.sort_graph = graph();
    let pattern = Term::variable(Variable::new("L", sort("SortB")));
    assert!(matches!(
        match_terms_in_definition(MatchMode::Rewrite, &definition, &pattern, &value("v")),
        MatchResult::Success(substitution) if substitution.bindings.len() == 1
    ));
}

#[test]
fn a_composition_substitutes_one_after_the_other() {
    let old = Substitution::singleton(
        variable("X"),
        constructor("one", vec![Term::variable(variable("Y"))]),
    );
    let mut new = Substitution::singleton(variable("Y"), value("v"));
    new.insert(variable("X"), value("unused"));
    let term = constructor(
        "pair",
        vec![Term::variable(variable("X")), Term::variable(variable("Y"))],
    );
    let both = substitute(&substitute(&term, &old), &new);

    assert_eq!(substitute(&term, &compose(&new, &old)), both);
    assert_eq!(
        both,
        constructor("pair", vec![constructor("one", vec![value("v")]), value("v")])
    );
}

#[test]
fn sorts_are_compared_in_their_graph() {
    let graph = graph();
    assert_eq!(graph.check_subsort(&sort("SortA"), &sort("SortB")), Ok(true));
    assert_eq!(graph.check_subsort(&sort("SortB"), &sort("SortA")), Ok(false));
    assert_eq!(graph.check_subsort(&sort("SortC"), &sort("SortC")), Ok(true));
    assert_eq!(
        graph.check_subsort(&sort("SortA"), &sort("SortC")),
        Err(SortError::FoundUnknownSort(sort("SortC")))
    );
    assert_eq!(
        graph.check_subsort(&Sort::Variable("S".to_owned()), &sort("SortA")),
        Err(SortError::FoundSortVariable("S".to_owned()))
    );
}

#[test]
fn inserted_subsorts_replace_the_earlier_ones() {
    let mut sorts = graph();
    sorts.insert("SortC", vec!["SortA".to_owned(), "SortB".to_owned()]);
    let is_subsort = |sorts: &SortGraph, sub: &str, sup: &str| {
        sorts.check_subsort(&sort(sub), &sort(sup)).expect("a known sort")
    };
    assert!(is_subsort(&sorts, "SortA", "SortB"));
    assert!(is_subsort(&sorts, "SortB", "SortC"));
    assert!(is_subsort(&sorts, "SortA", "SortC"));
    assert!(!is_subsort(&sorts, "SortC", "SortB"));

    sorts.insert("SortC", vec!["SortB".to_owned()]);
    assert!(!is_subsort(&sorts, "SortA", "SortC"));
    assert!(is_subsort(&sorts, "SortC", "SortC"));
    assert!(is_subsort(&sorts, "SortA", "SortB"));
}

#[test]
fn a_matched_list_pattern_becomes_its_subject() {
    let rest = Variable::new("REST", sort("SortList"));
    let pattern = Term::list(
        list(),
        vec![Term::variable(variable("X"))],
        Some(Term::variable(rest)),
        vec![value("c")],
    );
    let subject = Term::list(
        list(),
        vec![value("a"), value("b"), value("c")],
        None,
        Vec::new(),
    );
    assert_eq!(substitute(&pattern, &solution(&pattern, &subject)), subject);
}

#[test]
fn matched_set_and_map_patterns_become_their_subjects() {
    let set = || CollectionDefinition {
        sort: sort("SortSet"),
        ..list()
    };
    let map = || CollectionDefinition {
        sort: sort("SortMap"),
        ..list()
    };
    let mut sorts = graph();
    sorts.insert("SortSet", Vec::new());
    sorts.insert("SortMap", Vec::new());
    let rest = |sort_name: &str| Term::variable(Variable::new("REST", sort(sort_name)));
    let x = || Term::variable(variable("X"));
    for (pattern, subject) in [
        (
            Term::set(set(), vec![value("a"), x()], None),
            Term::set(set(), vec![value("b"), value("a")], None),
        ),
        (
            Term::set(set(), vec![value("a")], Some(rest("SortSet"))),
            Term::set(set(), vec![value("c"), value("b"), value("a")], None),
        ),
        (
            Term::map(map(), vec![(value("k"), x())], Some(rest("SortMap"))),
            Term::map(
                map(),
                vec![(value("j"), value("w")), (value("k"), value("v"))],
                None,
            ),
        ),
        (
            Term::map(map(), vec![(x(), value("v")), (value("j"), value("w"))], None),
            Term::map(
                map(),
                vec![(value("j"), value("w")), (value("k"), value("v"))],
                None,
            ),
        ),
    ] {
        match match_terms(MatchMode::Rewrite, &sorts, &EmptyKernel, &pattern, &subject) {
            MatchResult::Success(found) => assert_eq!(substitute(&pattern, &found), subject),
            other => panic!("expected a match, found {other:?}"),
        }
    }
}

#[test]
fn composed_substitutions_merge_collections() {
    let rest = Variable::new("REST", sort("SortList"));
    let items = |heads: Vec<Term>, rest: Option<Term>| {
        Term::list(list(), heads, rest, Vec::new())
    };
    let pattern = items(vec![value("a")], Some(Term::variable(rest.duplicate())));
    let old = Substitution::singleton(
        rest,
        items(vec![Term::variable(variable("X"))], None),
    );
    let new = Substitution::singleton(variable("X"), value("b"));
    let once = substitute(&pattern, &compose(&new, &old));
    assert_eq!(once, substitute(&substitute(&pattern, &old), &new));
    assert_eq!(once, items(vec![value("a"), value("b")], None));
}

/// Evaluates no update: none of them has a value.
struct Undefined;

impl Kernel for Undefined {
    fn unify(&self, substitution: Substitution, pairs: Vec<(Term, Term)>) -> UnificationResult {
        EmptyKernel.unify(substitution, pairs)
    }

    fn ceil_term(&self, term: &Term) -> Vec<Predicate> {
        EmptyKernel.ceil_term(term)
    }

    fn evaluate(&self, term: &Term) -> Result<BuiltinResult, BuiltinError> {
        EmptyKernel.evaluate(term)
    }

    fn evaluate_hook(&self, hook: &str, _: Vec<Term>) -> Result<BuiltinResult, BuiltinError> {
        assert_eq!(hook, "LIST.update");
        Ok(BuiltinResult::Bottom)
    }

    fn emit(&self, diagnostic: BackendDiagnostic) {
        EmptyKernel.emit(diagnostic);
    }
}

#[test]
fn an_update_that_cannot_give_the_list_does_not_match() {
    let mut symbol = Symbol {
        name: "update".to_owned(),
        sort_variables: Vec::new(),
        argument_sorts: vec![sort("SortList"), sort("SortA"), sort("SortA")],
        result_sort: sort("SortList"),
        attributes: SymbolAttributes::plain(SymbolType::Function(FunctionType::Partial)),
    };
    symbol.attributes.hook = Some("LIST.update".to_owned());
    let updated = Term::variable(Variable::new("L", sort("SortList")));
    let pattern = Term::Application {
        symbol,
        sort_arguments: Vec::new(),
        arguments: vec![updated, value("i"), value("v")],
    };
    let subject = Term::list(list(), vec![value("a")], None, Vec::new());
    assert!(matches!(
        match_terms(MatchMode::Rewrite, &graph(), &Undefined, &pattern, &subject),
        MatchResult::Failed(FailReason::DifferentValues(..))
    ));
    assert!(matches!(
        match_terms(MatchMode::Rewrite, &graph(), &EmptyKernel, &pattern, &subject),
        MatchResult::Indeterminate { .. }
    ));
}
