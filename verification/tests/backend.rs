//! Definitions written in Kore text, and what searches, proofs and sessions make of them.

use k_rust_backend::apply_parts::term_alias_variables;
use k_rust_backend::attributes::AxiomError;
use k_rust_backend::claims::{
    apply_claim, ClaimApplication, ClaimAttributes, ClaimIndeterminateReason, ClaimScope,
    ReachabilityClaim, ReachabilityMode,
};
use k_rust_backend::classify::{classify_axiom, ClassifiedAxiom};
use k_rust_backend::definition::{BackendDefinition, ConstructorHead};
use k_rust_backend::diagnostic::{
    condition_diagnostic, exhaustion_diagnostic, hook_diagnostic, predicate_diagnostic,
    BackendDiagnostic,
};
use k_rust_backend::execution::{
    execute, execute_disjunction_with_solver_and_observer_with_initial_status, execute_observed,
    Interruption, Machine,
};
use k_rust_backend::execution_parts::ExecutionConfig;
use k_rust_backend::execution_types::{
    ExecutionBranchMode, ExecutionLeaf, ExecutionOptions, ExecutionResult, HaltReason,
    ObservationEvent, ObservationOptions, StepTimeoutMode, TraceEntry, TraceKind,
};
use k_rust_backend::implication::{
    Implication, ImplicationChecker, ImplicationCondition, ImplicationError, ImplicationFailure,
    ImplicationStatus,
};
use k_rust_backend::internalize::{DefinitionError, RulePatternError};
use k_rust_backend::kernel::{
    BuiltinError, BuiltinResult, Kernel, UnificationFailure, UnificationResult,
    UnsupportedHookReason,
};
use k_rust_backend::kore::{
    KoreAttributes, KoreDefinition, KoreModule, KorePattern, KoreSentence, KoreSymbol, KoreVariable,
};
use k_rust_backend::leaves::{merge_equal_final_leaves, SelectedExecutionLeaves};
use k_rust_backend::model::Value;
use k_rust_backend::names::fresh_variable;
use k_rust_backend::pattern::Pattern;
use k_rust_backend::pattern_search::{match_disjunction, normalize_match_condition, search_pattern};
use k_rust_backend::predicate::Predicate;
use k_rust_backend::predicates::substitute_predicates;
use k_rust_backend::proof_types::{
    complement_implication_condition, finish, ProofError, ProofIndeterminateReason, ProofLeaf,
    ProofLeafOutcome, ProofOptions, ProofResult, ProofSearchOrder, ProofStatus,
};
use k_rust_backend::reach::{ProofConfig, ProofMachine};
use k_rust_backend::rewrite_types::{IndeterminateReason, RewriteResult};
use k_rust_backend::rule::{
    insert_theory, Concreteness, ConstraintKind, RewriteRule, RuleKind, RuleRhs, TermIndex,
};
use k_rust_backend::rules::internalize_axiom;
use k_rust_backend::search::{
    rewrite_incomplete, search_graph, simplification_incomplete, SearchConfig,
};
use k_rust_backend::search_machine::SearchMachine;
use k_rust_backend::search_types::{
    IncompleteSearch, PatternMatch, PatternSearchResult, SearchOptions, SearchResult, SearchState,
    SearchType,
};
use k_rust_backend::session::{BackendSession, Compiler, SessionError};
use k_rust_backend::simplification::{
    simplify, simplify_and_decide_predicate_with_solver, simplify_pattern_with_solver,
    simplify_predicates_with_record, simplify_predicates_with_solver,
};
use k_rust_backend::simplify::apply_ceil_theory;
use k_rust_backend::simplify_parts::{Environment, Scope};
use k_rust_backend::simplify_types::{
    BudgetExhaustion, BudgetSubject, ConditionIndeterminacy, SimplificationError,
    SimplificationOptions,
};
use k_rust_backend::step::rewrite_step;
use k_rust_backend::solver::{NoSolver, Satisfiability, SmtError, SmtSolver, Validity};
use k_rust_backend::substitution::{compose, substitute, Substitution};
use k_rust_backend::term::{
    CollectionDefinition, CollectionMetadata, FunctionType, Sort, Symbol, SymbolAttributes,
    SymbolType, Term, Variable,
};
use std::cell::RefCell;
use std::collections::BTreeSet;
use std::time::{Duration, Instant};

// Reading Kore text

struct Reader {
    text: Vec<char>,
    position: usize,
}

fn is_name_character(c: char) -> bool {
    c.is_ascii_alphanumeric() || c == '-' || c == '\'' || c == '\\' || c == '@'
}

impl Reader {
    fn new(text: &str) -> Self {
        Reader {
            text: text.chars().collect(),
            position: 0,
        }
    }

    fn peek(&mut self) -> Option<char> {
        while self.position < self.text.len() && self.text[self.position].is_whitespace() {
            self.position += 1;
        }
        self.text.get(self.position).copied()
    }

    fn accept(&mut self, wanted: char) -> bool {
        let found = self.peek() == Some(wanted);
        if found {
            self.position += 1;
        }
        found
    }

    fn expect(&mut self, wanted: char) {
        assert!(self.accept(wanted), "expected {wanted} at {}", self.position);
    }

    fn name(&mut self) -> String {
        self.peek();
        let start = self.position;
        while self.position < self.text.len() && is_name_character(self.text[self.position]) {
            self.position += 1;
        }
        assert!(self.position > start, "expected a name at {start}");
        self.text[start..self.position].iter().collect()
    }

    fn string(&mut self) -> String {
        self.expect('"');
        let start = self.position;
        while self.text[self.position] != '"' {
            self.position += 1;
        }
        self.position += 1;
        self.text[start..self.position - 1].iter().collect()
    }

    fn list<T>(&mut self, open: char, close: char, read: fn(&mut Self) -> T) -> Vec<T> {
        let mut items = Vec::new();
        self.expect(open);
        while !self.accept(close) {
            items.push(read(self));
            self.accept(',');
        }
        items
    }

    fn sort(&mut self) -> Sort {
        let name = self.name();
        if self.peek() == Some('{') {
            Sort::Application {
                name,
                arguments: self.list('{', '}', Reader::sort),
            }
        } else {
            Sort::Variable(name)
        }
    }

    fn variable(&mut self) -> KoreVariable {
        let name = self.name();
        self.expect(':');
        KoreVariable {
            name,
            sort: self.sort(),
        }
    }

    fn pattern(&mut self) -> KorePattern {
        if self.peek() == Some('"') {
            return KorePattern::Text(self.string());
        }
        let name = self.name();
        if self.accept(':') {
            return KorePattern::Variable(KoreVariable {
                name,
                sort: self.sort(),
            });
        }
        let sorts = self.list('{', '}', Reader::sort);
        match name.as_str() {
            "\\dv" => {
                self.expect('(');
                let value = self.string();
                self.expect(')');
                let sort = sorts.into_iter().next().expect("a sort of the value");
                return KorePattern::DomainValue { sort, value };
            }
            "\\exists" | "\\forall" => {
                self.expect('(');
                let variable = self.variable();
                self.expect(',');
                let body = Box::new(self.pattern());
                self.expect(')');
                return if name == "\\exists" {
                    KorePattern::Exists { variable, body }
                } else {
                    KorePattern::Forall { variable, body }
                };
            }
            _ => {}
        }
        let mut arguments = self.list('(', ')', Reader::pattern);
        if !name.starts_with('\\') {
            return KorePattern::Application {
                symbol: KoreSymbol { name, sorts },
                arguments,
            };
        }
        match name.as_str() {
            "\\and" => return KorePattern::And { arguments },
            "\\or" => return KorePattern::Or { arguments },
            "\\top" => return KorePattern::Top,
            "\\bottom" => return KorePattern::Bottom,
            _ => {}
        }
        let right = Box::new(arguments.pop().expect("an argument"));
        let left = match arguments.pop() {
            None => {
                return match name.as_str() {
                    "\\not" => KorePattern::Not { argument: right },
                    "\\ceil" => KorePattern::Ceil { argument: right },
                    "\\floor" => KorePattern::Floor { argument: right },
                    _ => panic!("unknown connective {name}"),
                };
            }
            Some(left) => Box::new(left),
        };
        match name.as_str() {
            "\\implies" => KorePattern::Implies { left, right },
            "\\iff" => KorePattern::Iff { left, right },
            "\\equals" => KorePattern::Equals { left, right },
            "\\in" => KorePattern::In { left, right },
            "\\rewrites" => KorePattern::Rewrites { left, right },
            _ => panic!("unknown connective {name}"),
        }
    }

    fn attributes(&mut self) -> KoreAttributes {
        KoreAttributes {
            patterns: self.list('[', ']', Reader::pattern),
        }
    }

    fn sentence(&mut self) -> KoreSentence {
        let keyword = self.name();
        match keyword.as_str() {
            "import" => KoreSentence::Import {
                module: self.name(),
                attributes: self.attributes(),
            },
            "sort" | "hooked-sort" => KoreSentence::SortDeclaration {
                hooked: keyword != "sort",
                name: self.name(),
                parameters: self.list('{', '}', Reader::name),
                attributes: self.attributes(),
            },
            "symbol" | "hooked-symbol" => {
                let name = self.name();
                let parameters = self.list('{', '}', Reader::name);
                let arguments = self.list('(', ')', Reader::sort);
                self.expect(':');
                KoreSentence::SymbolDeclaration {
                    hooked: keyword != "symbol",
                    name,
                    parameters,
                    arguments,
                    result: self.sort(),
                    attributes: self.attributes(),
                }
            }
            "alias" => {
                let name = self.name();
                let parameters = self.list('{', '}', Reader::name);
                self.list('(', ')', Reader::sort);
                self.expect(':');
                self.sort();
                assert_eq!(self.name(), "where");
                let left = self.pattern();
                self.expect(':');
                self.expect('=');
                KoreSentence::AliasDeclaration {
                    name,
                    parameters,
                    left,
                    right: self.pattern(),
                    attributes: self.attributes(),
                }
            }
            "axiom" => KoreSentence::Axiom {
                parameters: self.list('{', '}', Reader::name),
                pattern: self.pattern(),
                attributes: self.attributes(),
            },
            "claim" => KoreSentence::Claim {
                parameters: self.list('{', '}', Reader::name),
                pattern: self.pattern(),
                attributes: self.attributes(),
            },
            _ => panic!("unknown sentence {keyword}"),
        }
    }

    fn module(&mut self) -> KoreModule {
        assert_eq!(self.name(), "module");
        let name = self.name();
        let mut sentences = Vec::new();
        loop {
            let position = self.position;
            if self.name() == "endmodule" {
                break;
            }
            self.position = position;
            sentences.push(self.sentence());
        }
        KoreModule {
            name,
            sentences,
            attributes: self.attributes(),
        }
    }

    fn definition(&mut self) -> KoreDefinition {
        let attributes = self.attributes();
        let mut modules = Vec::new();
        while self.peek().is_some() {
            modules.push(self.module());
        }
        KoreDefinition {
            modules,
            attributes,
        }
    }
}

fn parse_definition(source: &str) -> KoreDefinition {
    Reader::new(source).definition()
}

fn parse_module(source: &str) -> KoreModule {
    Reader::new(source).module()
}

fn parse_pattern(source: &str) -> KorePattern {
    Reader::new(source).pattern()
}

// Definitions

/// Unification of terms without function applications and collections.
#[derive(Default)]
struct Syntactic {
    heard: RefCell<Vec<BackendDiagnostic>>,
}

fn solve(
    pairs: Vec<(Term, Term)>,
    substitution: Substitution,
) -> Result<(Substitution, Vec<(Term, Term)>), UnificationFailure> {
    let mut pending = pairs;
    let mut solved = substitution;
    let mut remainder = Vec::new();
    while !pending.is_empty() {
        let (left, right) = pending.remove(0);
        let left = substitute(&left, &solved);
        let right = substitute(&right, &solved);
        if left == right {
            continue;
        }
        match (left, right) {
            (Term::Variable(variable), other) | (other, Term::Variable(variable)) => {
                if other.variables().contains(&variable) {
                    return Err(UnificationFailure::VariableRecursion(variable, other));
                }
                let step = Substitution::singleton(variable, other);
                solved = compose(&step, &solved);
            }
            (
                Term::Application { symbol: f, sort_arguments: s, arguments: a },
                Term::Application { symbol: g, sort_arguments: t, arguments: b },
            ) => {
                let constructors = f.attributes.symbol_type == SymbolType::Constructor
                    && g.attributes.symbol_type == SymbolType::Constructor;
                if !constructors {
                    remainder.push((
                        Term::Application { symbol: f, sort_arguments: s, arguments: a },
                        Term::Application { symbol: g, sort_arguments: t, arguments: b },
                    ));
                } else if f.name != g.name {
                    return Err(UnificationFailure::DifferentSymbols(
                        Term::Application { symbol: f, sort_arguments: s, arguments: a },
                        Term::Application { symbol: g, sort_arguments: t, arguments: b },
                    ));
                } else {
                    pending.extend(a.into_iter().zip(b));
                }
            }
            (Term::DomainValue { sort: s, value: a }, Term::DomainValue { sort: t, value: b }) => {
                return Err(UnificationFailure::DifferentValues(
                    Term::DomainValue { sort: s, value: a },
                    Term::DomainValue { sort: t, value: b },
                ));
            }
            pair => remainder.push(pair),
        }
    }
    Ok((solved, remainder))
}

fn ceil(term: &Term) -> Vec<Predicate> {
    if let Term::KMap { rest: Some(_), .. } = term {
        return vec![Predicate::Ceil(term.duplicate())];
    }
    if let Term::Application { symbol, .. } = term {
        if symbol.attributes.symbol_type == SymbolType::Function(FunctionType::Partial) {
            return vec![Predicate::Ceil(term.duplicate())];
        }
    }
    term.children().into_iter().flat_map(ceil).collect()
}

impl Kernel for Syntactic {
    fn unify(&self, substitution: Substitution, pairs: Vec<(Term, Term)>) -> UnificationResult {
        match solve(pairs, substitution) {
            Err(failure) => UnificationResult::Bottom(failure),
            Ok((substitution, remainder)) => {
                if remainder.is_empty() {
                    UnificationResult::Unified {
                        substitution,
                        constraints: Vec::new(),
                    }
                } else {
                    UnificationResult::Unsupported {
                        substitution,
                        constraints: Vec::new(),
                        remainder,
                    }
                }
            }
        }
    }

    fn ceil_term(&self, term: &Term) -> Vec<Predicate> {
        ceil(term)
    }

    fn evaluate(&self, _term: &Term) -> Result<BuiltinResult, BuiltinError> {
        Ok(BuiltinResult::NotApplicable)
    }

    fn evaluate_hook(
        &self,
        _hook: &str,
        _arguments: Vec<Term>,
    ) -> Result<BuiltinResult, BuiltinError> {
        Ok(BuiltinResult::NotApplicable)
    }

    fn emit(&self, diagnostic: BackendDiagnostic) {
        self.heard.borrow_mut().push(diagnostic);
    }
}

type Definition = BackendDefinition<Syntactic>;

fn has_attribute(attributes: &KoreAttributes, name: &str) -> bool {
    attributes.patterns.iter().any(|attribute| {
        matches!(attribute, KorePattern::Application { symbol, .. } if symbol.name == name)
    })
}

fn text_attribute(attributes: &KoreAttributes, name: &str) -> Option<String> {
    attributes.patterns.iter().find_map(|attribute| match attribute {
        KorePattern::Application { symbol, arguments } if symbol.name == name => {
            match arguments.as_slice() {
                [KorePattern::Text(text)] => Some(text.clone()),
                _ => None,
            }
        }
        _ => None,
    })
}

fn declared_symbol(
    name: &str,
    parameters: &[String],
    arguments: &[Sort],
    result: &Sort,
    attributes: &KoreAttributes,
) -> Symbol {
    let symbol_type = if !has_attribute(attributes, "function") {
        SymbolType::Constructor
    } else if has_attribute(attributes, "total") || has_attribute(attributes, "functional") {
        SymbolType::Function(FunctionType::Total)
    } else {
        SymbolType::Function(FunctionType::Partial)
    };
    Symbol {
        name: name.to_owned(),
        sort_variables: parameters.to_vec(),
        argument_sorts: arguments.iter().map(Value::duplicate).collect(),
        result_sort: result.duplicate(),
        attributes: SymbolAttributes {
            injective: has_attribute(attributes, "injective"),
            has_evaluators: !has_attribute(attributes, "no-evaluators"),
            hook: text_attribute(attributes, "hook"),
            ..SymbolAttributes::plain(symbol_type)
        },
    }
}

fn visible_modules<'a>(
    syntax: &'a KoreDefinition,
    name: &str,
    found: &mut Vec<&'a KoreModule>,
) -> Result<(), DefinitionError> {
    if found.iter().any(|module| module.name == name) {
        return Ok(());
    }
    let module = syntax
        .modules
        .iter()
        .find(|module| module.name == name)
        .ok_or_else(|| DefinitionError::UnknownModule(name.to_owned()))?;
    for sentence in &module.sentences {
        if let KoreSentence::Import { module, .. } = sentence {
            visible_modules(syntax, module, found)?;
        }
    }
    found.push(module);
    Ok(())
}

/// The collection that a hooked sort is.
fn collection(name: &str, attributes: &KoreAttributes) -> Option<CollectionMetadata> {
    let symbol = |attribute: &str| {
        attributes.patterns.iter().find_map(|pattern| match pattern {
            KorePattern::Application { symbol, arguments } if symbol.name == attribute => {
                match arguments.as_slice() {
                    [KorePattern::Application { symbol, .. }] => Some(symbol.name.clone()),
                    _ => None,
                }
            }
            _ => None,
        })
    };
    let definition = CollectionDefinition {
        unit: symbol("unit")?,
        element: symbol("element")?,
        concat: symbol("concat")?,
        sort: Sort::simple(name),
    };
    match text_attribute(attributes, "hook")?.as_str() {
        "MAP.Map" => Some(CollectionMetadata::KMap(definition)),
        "LIST.List" => Some(CollectionMetadata::KList(definition)),
        "SET.Set" => Some(CollectionMetadata::KSet(definition)),
        _ => None,
    }
}

/// The names of the symbols of a collection.
fn collection_symbols(metadata: &CollectionMetadata) -> [&String; 3] {
    match metadata {
        CollectionMetadata::KMap(definition)
        | CollectionMetadata::KList(definition)
        | CollectionMetadata::KSet(definition) => {
            [&definition.unit, &definition.element, &definition.concat]
        }
    }
}

/// The rule of an equation or a rewrite. A rewrite to bottom has no right-hand side.
fn internalize_rule(
    definition: &Definition,
    classified: ClassifiedAxiom,
) -> Result<(RuleKind, RewriteRule), DefinitionError> {
    match classified {
        ClassifiedAxiom::Rewrite {
            module,
            sort_parameters,
            lhs,
            rhs: KorePattern::Bottom,
            existentials,
            attributes,
        } => {
            let classified = ClassifiedAxiom::Rewrite {
                module,
                sort_parameters,
                rhs: lhs.duplicate(),
                lhs,
                existentials,
                attributes,
            };
            let (kind, mut rule) = internalize_axiom(definition, &classified)?;
            rule.rhs = RuleRhs::Bottom;
            rule.ensures = Vec::new();
            Ok((kind, rule))
        }
        classified => internalize_axiom(definition, &classified),
    }
}

/// The constructors of a sort that has no other elements.
fn note_constructors(
    definition: &mut Definition,
    pattern: &KorePattern,
    attributes: &KoreAttributes,
) {
    let KorePattern::Or { arguments } = pattern else {
        return;
    };
    let names = arguments.iter().filter_map(|argument| match argument {
        KorePattern::Application { symbol, .. } => Some(symbol.name.clone()),
        _ => None,
    });
    let names = names.collect::<Vec<_>>();
    let sort = names
        .first()
        .and_then(|name| definition.symbol(name))
        .map(|symbol| symbol.result_sort.duplicate());
    if let (Some(sort), true) = (sort, has_attribute(attributes, "constructor")) {
        let heads = names.into_iter().map(ConstructorHead::Symbol).collect();
        definition.constructor_domains.push((sort, heads));
    }
}

fn internalize(syntax: &KoreDefinition, name: &str) -> Result<Definition, DefinitionError> {
    let mut modules = Vec::new();
    visible_modules(syntax, name, &mut modules)?;
    let mut definition = BackendDefinition::new(Syntactic::default());
    let mut collections = Vec::new();
    for sentence in modules.iter().flat_map(|module| &module.sentences) {
        match sentence {
            KoreSentence::SortDeclaration { name, attributes, .. } => {
                definition.sort_graph.insert(name, Vec::new());
                collections.extend(collection(name, attributes));
            }
            KoreSentence::SymbolDeclaration {
                name,
                parameters,
                arguments,
                result,
                attributes,
                ..
            } => definition
                .symbols
                .push(declared_symbol(name, parameters, arguments, result, attributes)),
            _ => {}
        }
    }
    for metadata in &collections {
        for symbol in &mut definition.symbols {
            if collection_symbols(metadata).contains(&&symbol.name) {
                symbol.attributes.collection = Some(metadata.duplicate());
            }
        }
    }
    for module in modules {
        for sentence in &module.sentences {
            if let KoreSentence::Axiom {
                parameters,
                pattern,
                attributes,
            } = sentence
            {
                note_constructors(&mut definition, pattern, attributes);
                let classified =
                    classify_axiom(module.name.clone(), parameters.clone(), pattern, attributes)
                        .map_err(DefinitionError::MalformedAxiom)?;
                if let Some(classified) = classified {
                    let (kind, rule) = internalize_rule(&definition, classified)?;
                    let theory = match kind {
                        RuleKind::Rewrite => &mut definition.rewrite_theory,
                        RuleKind::Function => &mut definition.function_theory,
                        RuleKind::Simplification => &mut definition.simplification_theory,
                        RuleKind::Ceil => &mut definition.ceil_theory,
                    };
                    insert_theory(theory, rule);
                }
            }
        }
    }
    Ok(definition)
}

fn internal(source: &str, module: &str) -> Definition {
    internalize(&parse_definition(source), module).expect("definition should internalize")
}

fn term(definition: &Definition, source: &str) -> Term {
    definition
        .internalize_term(&parse_pattern(source), &Vec::new())
        .expect("term should internalize")
}

/// The terms and the predicates of a conjunction.
fn conjuncts(
    definition: &Definition,
    syntax: &KorePattern,
    terms: &mut Vec<Term>,
    predicates: &mut Vec<Predicate>,
) {
    let inner = |syntax: &KorePattern| {
        definition
            .internalize_term(syntax, &Vec::new())
            .expect("term should internalize")
    };
    match syntax {
        KorePattern::And { arguments } => {
            for argument in arguments {
                conjuncts(definition, argument, terms, predicates);
            }
        }
        KorePattern::Top => {}
        KorePattern::Bottom => predicates.push(Predicate::False),
        KorePattern::Equals { left, right } => {
            predicates.push(Predicate::Equals(inner(left), inner(right)));
        }
        KorePattern::Not { argument } => {
            let mut negated = Vec::new();
            conjuncts(definition, argument, terms, &mut negated);
            predicates.push(Predicate::Not(Box::new(negated.remove(0))));
        }
        _ => terms.push(inner(syntax)),
    }
}

fn internalize_pattern(definition: &Definition, syntax: &KorePattern) -> Pattern {
    let mut terms = Vec::new();
    let mut constraints = Vec::new();
    conjuncts(definition, syntax, &mut terms, &mut constraints);
    assert_eq!(terms.len(), 1);
    Pattern {
        term: terms.remove(0),
        constraints,
    }
}

fn pattern(definition: &Definition, source: &str) -> Pattern {
    internalize_pattern(definition, &parse_pattern(source))
}

// Searches

fn symbol_name(term: &Term) -> String {
    match term {
        Term::Application { symbol, .. } => symbol.name.clone(),
        other => panic!("expected an application, found {other:?}"),
    }
}

fn bound<'a>(substitution: &'a Substitution, variable: &Variable) -> &'a Term {
    substitution.get(variable).expect("a bound variable")
}

#[test]
fn cancellation_is_not_reported_as_a_simplifier_failure() {
    let definition = search_definition();
    let config = SearchConfig {
        definition: &definition,
        solver: &NoSolver,
        options: SearchOptions::default(),
    };
    let mut machine = SearchMachine::new(&config, initial(&definition));
    while !machine.is_finished() {
        machine = if machine.is_waiting() {
            machine.advance(&config)
        } else {
            machine.cancel()
        };
    }
    let result = machine.into_result();

    assert!(result.states.is_empty());
    let [IncompleteSearch::Cancelled(state)] = result.incomplete.as_slice() else {
        panic!("expected cancellation, found {:?}", result.incomplete);
    };
    assert_eq!(state.depth, 0);
}

fn search_definition() -> Definition {
    internal(
        r#"[]
        module SEARCH
            sort SortS{} []
            symbol initial{}() : SortS{} [constructor{}()]
            symbol next1{}() : SortS{} [constructor{}()]
            symbol next2{}() : SortS{} [constructor{}()]
            symbol final1{}() : SortS{} [constructor{}()]
            symbol final2{}() : SortS{} [constructor{}()]
            axiom{} \rewrites{SortS{}}(
                \and{SortS{}}(initial{}(), \top{SortS{}}()),
                next1{}()
            ) [label{}("initial-next1")]
            axiom{} \rewrites{SortS{}}(
                \and{SortS{}}(initial{}(), \top{SortS{}}()),
                next2{}()
            ) [label{}("initial-next2")]
            axiom{} \rewrites{SortS{}}(
                \and{SortS{}}(next1{}(), \top{SortS{}}()),
                final1{}()
            ) [label{}("next1-final1")]
            axiom{} \rewrites{SortS{}}(
                \and{SortS{}}(next2{}(), \top{SortS{}}()),
                final2{}()
            ) [label{}("next2-final2")]
        endmodule []"#,
        "SEARCH",
    )
}

fn converging_definition() -> Definition {
    internal(
        r#"[]
        module SEARCH
            sort SortS{} []
            symbol initial{}() : SortS{} [constructor{}()]
            symbol next1{}() : SortS{} [constructor{}()]
            symbol next2{}() : SortS{} [constructor{}()]
            symbol final1{}() : SortS{} [constructor{}()]
            symbol final2{}() : SortS{} [constructor{}()]
            axiom{} \rewrites{SortS{}}(
                \and{SortS{}}(initial{}(), \top{SortS{}}()),
                next1{}()
            ) [label{}("initial-next1")]
            axiom{} \rewrites{SortS{}}(
                \and{SortS{}}(initial{}(), \top{SortS{}}()),
                next2{}()
            ) [label{}("initial-next2")]
            axiom{} \rewrites{SortS{}}(
                \and{SortS{}}(next1{}(), \top{SortS{}}()),
                final1{}()
            ) [label{}("next1-final1")]
            axiom{} \rewrites{SortS{}}(
                \and{SortS{}}(next2{}(), \top{SortS{}}()),
                final1{}()
            ) [label{}("next2-final1")]
            axiom{} \rewrites{SortS{}}(
                \and{SortS{}}(next2{}(), \top{SortS{}}()),
                final2{}()
            ) [label{}("next2-final2")]
        endmodule []"#,
        "SEARCH",
    )
}

fn rewrite_simplification_failure_definition() -> Definition {
    internal(
        r#"[]
        module SEARCH
            sort SortS{} []
            symbol initial{}() : SortS{} [constructor{}()]
            symbol done{}() : SortS{} [constructor{}()]
            symbol expand{}(SortS{}) : SortS{} [function{}()]
            axiom{R} \implies{R}(
                \top{R}(),
                \equals{SortS{}, R}(
                    expand{}(X:SortS{}),
                    \and{SortS{}}(
                        expand{}(expand{}(X:SortS{})),
                        \top{SortS{}}()
                    )
                )
            ) [label{}("expand"), simplification{}()]
            axiom{} \rewrites{SortS{}}(
                \and{SortS{}}(
                    initial{}(),
                    \equals{SortS{}, SortS{}}(
                        expand{}(initial{}()),
                        initial{}()
                    )
                ),
                done{}()
            ) [label{}("conditional")]
        endmodule []"#,
        "SEARCH",
    )
}

#[test]
fn rewrite_simplification_failure_is_classified_as_simplification() {
    let definition = rewrite_simplification_failure_definition();
    let result = search_graph(
        &definition,
        pattern(&definition, "initial{}()"),
        SearchOptions {
            max_simplification_iterations: 1,
            ..SearchOptions::default()
        },
    );

    assert!(matches!(
        result.incomplete.as_slice(),
        [IncompleteSearch::Simplification {
            error: SimplificationError::IterationLimit { .. }
                | SimplificationError::PredicateIterationLimit { .. },
            ..
        }]
    ));
}

#[test]
fn cancelled_rewrite_simplification_is_classified_as_cancellation() {
    let definition = search_definition();
    let state = SearchState {
        pattern: initial(&definition),
        depth: 0,
        trace: Vec::new(),
    };

    assert_eq!(
        rewrite_incomplete(
            state.duplicate(),
            IndeterminateReason::Simplification {
                rule_id: Some("rule".into()),
                error: SimplificationError::Cancelled,
            },
        ),
        IncompleteSearch::Cancelled(state)
    );
}

fn initial(definition: &Definition) -> Pattern {
    pattern(definition, "initial{}()")
}

fn names(result: &SearchResult) -> BTreeSet<String> {
    result
        .states
        .iter()
        .map(|state| match &state.pattern.term {
            Term::Application { symbol, .. } => symbol.name.to_string(),
            other => panic!("expected an application, found {other:?}"),
        })
        .collect()
}

fn state_name(state: &SearchState) -> String {
    match &state.pattern.term {
        Term::Application { symbol, .. } => symbol.name.to_string(),
        other => panic!("expected an application, found {other:?}"),
    }
}

fn result_variable() -> Variable {
    Variable::new("Result", Sort::simple("SortS"))
}

fn pattern_result_names(result: &PatternSearchResult, result_variable: &Variable) -> BTreeSet<String> {
    result
        .matches
        .iter()
        .map(|found| match bound(&found.substitution, &result_variable) {
            Term::Application { symbol, .. } => symbol.name.to_string(),
            other => panic!("expected an application, found {other:?}"),
        })
        .collect()
}

#[test]
fn converging_paths_collapse_to_one_state_per_pattern() {
    let definition = converging_definition();
    let result = search_graph(
        &definition,
        initial(&definition),
        SearchOptions {
            search_type: SearchType::Final,
            ..SearchOptions::default()
        },
    );

    assert_eq!(
        names(&result),
        BTreeSet::from(["final1".into(), "final2".into()])
    );
    assert_eq!(
        result
            .states
            .iter()
            .filter(|state| state_name(state) == "final1")
            .count(),
        1
    );
}

#[test]
fn a_deduplicated_state_keeps_one_valid_trace() {
    let definition = converging_definition();
    let result = search_graph(
        &definition,
        initial(&definition),
        SearchOptions {
            search_type: SearchType::Final,
            ..SearchOptions::default()
        },
    );
    let final1 = result
        .states
        .iter()
        .find(|state| state_name(state) == "final1")
        .expect("final1 should be reachable");
    let labels = final1
        .trace
        .iter()
        .filter(|entry| entry.kind == TraceKind::Rewrite)
        .map(|entry| entry.label.as_deref().expect("fixture rules have labels"))
        .collect::<Vec<_>>();

    assert!(
        labels == ["initial-next1", "next1-final1"]
            || labels == ["initial-next2", "next2-final1"],
        "unexpected witness: {labels:?}"
    );
}

#[test]
fn search_traces_are_always_valid_paths() {
    for definition in [search_definition(), converging_definition()] {
        for search_type in [
            SearchType::One,
            SearchType::Star,
            SearchType::Plus,
            SearchType::Final,
        ] {
            let result = search_graph(
                &definition,
                initial(&definition),
                SearchOptions {
                    search_type,
                    ..SearchOptions::default()
                },
            );
            for state in result.states {
                let mut current = "initial";
                let mut rewrite_count = 0;
                for entry in &state.trace {
                    if entry.kind != TraceKind::Rewrite {
                        continue;
                    }
                    let label = entry.label.as_deref().expect("fixture rules have labels");
                    current = match (current, label) {
                        ("initial", "initial-next1") => "next1",
                        ("initial", "initial-next2") => "next2",
                        ("next1", "next1-final1") => "final1",
                        ("next2", "next2-final1") => "final1",
                        ("next2", "next2-final2") => "final2",
                        edge => panic!("invalid trace edge {edge:?} in {:?}", state.trace),
                    };
                    rewrite_count += 1;
                }
                assert_eq!(rewrite_count, state.depth, "{:?}", state.trace);
                assert_eq!(current, state_name(&state), "{:?}", state.trace);
            }
        }
    }
}

fn search(search_type: SearchType) -> SearchResult {
    let definition = search_definition();
    search_graph(
        &definition,
        initial(&definition),
        SearchOptions {
            search_type,
            ..SearchOptions::default()
        },
    )
}

#[test]
fn one_selects_exactly_one_step() {
    let result = search(SearchType::One);
    assert_eq!(
        names(&result),
        BTreeSet::from(["next1".into(), "next2".into()])
    );
    assert!(result.incomplete.is_empty());
}

#[test]
fn star_selects_the_reflexive_transitive_closure() {
    let result = search(SearchType::Star);
    assert_eq!(
        names(&result),
        BTreeSet::from([
            "initial".into(),
            "next1".into(),
            "next2".into(),
            "final1".into(),
            "final2".into(),
        ])
    );
    assert!(result.incomplete.is_empty());
}

#[test]
fn plus_selects_the_strict_transitive_closure() {
    let result = search(SearchType::Plus);
    assert_eq!(
        names(&result),
        BTreeSet::from([
            "next1".into(),
            "next2".into(),
            "final1".into(),
            "final2".into(),
        ])
    );
    assert!(result.incomplete.is_empty());
}

#[test]
fn final_selects_only_irreducible_configurations() {
    let result = search(SearchType::Final);
    assert_eq!(
        names(&result),
        BTreeSet::from(["final1".into(), "final2".into()])
    );
    assert!(result.incomplete.is_empty());
}

#[test]
fn result_bound_stops_the_breadth_first_search() {
    let definition = search_definition();
    let result = search_graph(
        &definition,
        initial(&definition),
        SearchOptions {
            search_type: SearchType::One,
            max_results: Some(1),
            ..SearchOptions::default()
        },
    );

    assert_eq!(names(&result), BTreeSet::from(["next1".into()]));
    assert_eq!(result.incomplete, [IncompleteSearch::ResultBound]);
}

#[test]
fn exhausting_the_graph_exactly_at_the_result_bound_is_complete() {
    let definition = search_definition();
    for (search_type, bound, expected) in [
        (SearchType::One, 2, ["next1", "next2"].as_slice()),
        (SearchType::Final, 2, ["final1", "final2"].as_slice()),
        (
            SearchType::Star,
            5,
            ["initial", "next1", "next2", "final1", "final2"].as_slice(),
        ),
    ] {
        let result = search_graph(
            &definition,
            initial(&definition),
            SearchOptions {
                search_type,
                max_results: Some(bound),
                ..SearchOptions::default()
            },
        );
        assert_eq!(
            names(&result),
            expected.iter().map(|name| (*name).to_owned()).collect(),
            "{search_type:?}"
        );
        assert!(result.incomplete.is_empty(), "{search_type:?}");
    }
}

#[test]
fn result_bound_at_the_depth_bound_still_reports_truncation() {
    let definition = search_definition();
    let result = search_graph(
        &definition,
        initial(&definition),
        SearchOptions {
            search_type: SearchType::Star,
            max_depth: 1,
            max_results: Some(3),
            ..SearchOptions::default()
        },
    );

    assert_eq!(
        names(&result),
        BTreeSet::from(["initial".into(), "next1".into(), "next2".into()])
    );
    // `next1` was already reported as depth-bound before the result bound fired on `next2`.
    assert!(
        matches!(
            result.incomplete.as_slice(),
            [
                IncompleteSearch::DepthBound(_),
                IncompleteSearch::ResultBound
            ]
        ),
        "{:?}",
        result.incomplete
    );
}

#[test]
fn zero_result_bounds_are_reported_as_incomplete() {
    let definition = search_definition();
    let options = SearchOptions {
        search_type: SearchType::Star,
        max_results: Some(0),
        ..SearchOptions::default()
    };
    let graph = search_graph(&definition, initial(&definition), options);
    assert!(graph.states.is_empty());
    assert_eq!(graph.incomplete, [IncompleteSearch::ResultBound]);

    let target = Pattern {
        term: Term::variable(Variable::new("Result", Sort::simple("SortS"))),
        constraints: Vec::new(),
    };
    let pattern = search_pattern(&definition, initial(&definition), &target, options);
    assert!(pattern.matches.is_empty());
    assert_eq!(pattern.incomplete, [IncompleteSearch::ResultBound]);
}

#[test]
fn pattern_result_bound_reports_mid_collection_truncation() {
    let definition = search_definition();
    let target = Pattern {
        term: Term::variable(Variable::new("Result", Sort::simple("SortS"))),
        constraints: Vec::new(),
    };
    let result = search_pattern(
        &definition,
        initial(&definition),
        &target,
        SearchOptions {
            search_type: SearchType::Final,
            max_results: Some(1),
            ..SearchOptions::default()
        },
    );

    assert_eq!(result.matches.len(), 1);
    assert_eq!(result.incomplete, [IncompleteSearch::ResultBound]);

    let result = search_pattern(
        &definition,
        initial(&definition),
        &target,
        SearchOptions {
            search_type: SearchType::Final,
            max_results: Some(2),
            ..SearchOptions::default()
        },
    );
    assert_eq!(result.matches.len(), 2);
    assert!(result.incomplete.is_empty());
}

#[test]
fn breadth_bound_reports_the_live_search_frontier() {
    let definition = search_definition();
    let result = search_graph(
        &definition,
        initial(&definition),
        SearchOptions {
            max_breadth: Some(1),
            ..SearchOptions::default()
        },
    );

    assert!(result.states.is_empty());
    let [IncompleteSearch::BreadthBound(frontier)] = result.incomplete.as_slice() else {
        panic!(
            "expected a breadth-bound frontier, found {:?}",
            result.incomplete
        );
    };
    assert_eq!(
        frontier
            .iter()
            .map(|state| match &state.pattern.term {
                Term::Application { symbol, .. } => symbol.name.as_str(),
                other => panic!("expected an application, found {other:?}"),
            })
            .collect::<Vec<_>>(),
        vec!["next1", "next2"]
    );
}

#[test]
fn zero_breadth_reports_the_initial_search_frontier() {
    let definition = search_definition();
    let result = search_graph(
        &definition,
        initial(&definition),
        SearchOptions {
            max_breadth: Some(0),
            ..SearchOptions::default()
        },
    );

    assert!(result.states.is_empty());
    let [IncompleteSearch::BreadthBound(frontier)] = result.incomplete.as_slice() else {
        panic!(
            "expected a breadth-bound frontier, found {:?}",
            result.incomplete
        );
    };
    assert_eq!(frontier.len(), 1);
    assert_eq!(frontier[0].depth, 0);
    assert!(matches!(
        &frontier[0].pattern.term,
        Term::Application { symbol, .. } if symbol.name.as_str() == "initial"
    ));
}

#[test]
fn final_search_recognizes_a_normal_form_at_the_depth_bound() {
    let definition = search_definition();
    let result = search_graph(
        &definition,
        initial(&definition),
        SearchOptions {
            search_type: SearchType::Final,
            max_depth: 2,
            ..SearchOptions::default()
        },
    );

    assert_eq!(
        names(&result),
        BTreeSet::from(["final1".into(), "final2".into()])
    );
    assert!(result.incomplete.is_empty());
}

#[test]
fn pattern_search_returns_substitutions_for_matching_states() {
    let definition = search_definition();
    let result_variable = Variable::new("Result", Sort::simple("SortS"));
    let target = Pattern {
        term: Term::variable(result_variable.duplicate()),
        constraints: Vec::new(),
    };

    let result = search_pattern(
        &definition,
        initial(&definition),
        &target,
        SearchOptions {
            search_type: SearchType::Final,
            ..SearchOptions::default()
        },
    );

    assert_eq!(result.matches.len(), 2);
    assert_eq!(
        result
            .matches
            .iter()
            .map(|found| match bound(&found.substitution, &result_variable) {
                Term::Application { symbol, .. } => symbol.name.to_string(),
                other => panic!("expected an application, found {other:?}"),
            })
            .collect::<BTreeSet<_>>(),
        BTreeSet::from(["final1".into(), "final2".into()])
    );
    assert!(result.incomplete.is_empty());
}

#[test]
fn matches_each_disjunction_alternative_independently() {
    let definition = search_definition();
    let result_variable = Variable::new("Result", Sort::simple("SortS"));
    let target = Pattern {
        term: Term::variable(result_variable.duplicate()),
        constraints: Vec::new(),
    };
    let subjects = vec![
        pattern(&definition, "final1{}()"),
        pattern(&definition, "final2{}()"),
    ];

    let matches = match_disjunction(&definition, &target, &subjects).unwrap();

    assert_eq!(matches.len(), 2);
    assert_eq!(
        matches
            .iter()
            .map(|found| match bound(&found.substitution, &result_variable) {
                Term::Application { symbol, .. } => symbol.name.to_string(),
                other => panic!("expected an application, found {other:?}"),
            })
            .collect::<BTreeSet<_>>(),
        BTreeSet::from(["final1".into(), "final2".into()])
    );
    assert!(matches.iter().all(|found| found.constraints.is_empty()));
}

#[test]
fn disjunction_matching_returns_top_only_for_an_exact_alternative() {
    let definition = search_definition();
    let target = initial(&definition);
    let absent = vec![
        pattern(&definition, "final1{}()"),
        pattern(&definition, "final2{}()"),
    ];
    let present = vec![pattern(&definition, "final1{}()"), initial(&definition)];

    assert!(
        match_disjunction(&definition, &target, &absent)
            .unwrap()
            .is_empty()
    );
    assert_eq!(
        match_disjunction(&definition, &target, &present).unwrap(),
        vec![PatternMatch {
            substitution: Substitution::new(),
            constraints: Vec::new(),
        }]
    );
}

#[test]
fn disjunction_matching_retains_predicates_without_an_smt_decision() {
    let definition = search_definition();
    let variable = Term::variable(Variable::new("X", Sort::simple("SortS")));
    let unresolved = Predicate::Not(Box::new(Predicate::Equals(
        variable,
        pattern(&definition, "final1{}()").term,
    )));
    let subject = Pattern {
        term: initial(&definition).term,
        constraints: vec![unresolved.duplicate()],
    };

    let matches = match_disjunction(&definition, &initial(&definition), &vec![subject]).unwrap();

    assert_eq!(
        matches,
        vec![PatternMatch {
            substitution: Substitution::new(),
            constraints: vec![unresolved],
        }]
    );
}

#[test]
fn concrete_pattern_search_reports_reachability() {
    let definition = search_definition();
    let target = pattern(&definition, "initial{}()");

    let reachable = search_pattern(
        &definition,
        initial(&definition),
        &target,
        SearchOptions {
            search_type: SearchType::Star,
            ..SearchOptions::default()
        },
    );
    let unreachable = search_pattern(
        &definition,
        initial(&definition),
        &target,
        SearchOptions {
            search_type: SearchType::Final,
            ..SearchOptions::default()
        },
    );

    assert_eq!(reachable.matches.len(), 1);
    assert!(reachable.matches[0].substitution.is_empty());
    assert!(unreachable.matches.is_empty());
}

#[test]
fn constrained_kore_search_patterns_filter_solutions() {
    let definition = search_definition();
    let target = pattern(
        &definition,
        r#"\and{SortS{}}(
            Result:SortS{},
            \equals{SortS{}, SortS{}}(Result:SortS{}, final1{}())
        )"#,
    );

    let result = search_pattern(
        &definition,
        initial(&definition),
        &target,
        SearchOptions {
            search_type: SearchType::Final,
            ..SearchOptions::default()
        },
    );

    assert_eq!(result.matches.len(), 1);
    assert!(result.matches[0].constraints.is_empty());
    assert!(result.incomplete.is_empty());
}

#[test]
fn projects_solved_path_equalities_onto_search_variables() {
    let sort = Sort::simple("SortS");
    let result_variable = Variable::new("Result", sort.duplicate());
    let configuration_variable = Variable::new("Configuration", sort.duplicate());
    let left = Variable::new("Left", sort.duplicate());
    let right = Variable::new("Right", sort.duplicate());
    let value = Term::application(
        Symbol::constructor(
            "arrow",
            vec![sort.duplicate(), sort.duplicate()],
            sort,
        ),
        Vec::new(),
        vec![Term::variable(left), Term::variable(right)],
    );

    let (output, constraints) = normalize_match_condition(
        &Substitution::singleton(
            result_variable.duplicate(),
            Term::variable(configuration_variable.duplicate()),
        ),
        vec![Predicate::Equals(
            Term::variable(configuration_variable),
            value.duplicate(),
        )],
        &vec![result_variable.duplicate()],
    );

    assert_eq!(output, Substitution::singleton(result_variable, value));
    assert!(constraints.is_empty());
}

const SEARCH_TYPES: [SearchType; 4] = [
    SearchType::One,
    SearchType::Star,
    SearchType::Plus,
    SearchType::Final,
];

#[test]
fn complete_result_bounded_state_search_agrees_with_unbounded_search() {
    for search_type in SEARCH_TYPES {
        for max_depth in 0_u64..=4 {
            for max_results in 0_usize..=7 {
                let definition = search_definition();
                let options = SearchOptions {
                    search_type,
                    max_depth,
                    max_results: Some(max_results),
                    ..SearchOptions::default()
                };
                let bounded = search_graph(&definition, initial(&definition), options);
                if bounded.incomplete.is_empty() {
                    let unbounded = search_graph(
                        &definition,
                        initial(&definition),
                        SearchOptions { max_results: None, ..options },
                    );
                    assert_eq!(names(&bounded), names(&unbounded));
                }
            }
        }
    }
}

#[test]
fn complete_result_bounded_pattern_search_agrees_with_unbounded_search() {
    for search_type in SEARCH_TYPES {
        for max_depth in 0_u64..=4 {
            for max_results in 0_usize..=7 {
                let definition = search_definition();
                let result_variable = result_variable();
                let target = Pattern {
                    term: Term::variable(result_variable.duplicate()),
                    constraints: Vec::new(),
                };
                let options = SearchOptions {
                    search_type,
                    max_depth,
                    max_results: Some(max_results),
                    ..SearchOptions::default()
                };
                let bounded = search_pattern(&definition, initial(&definition), &target, options);
                if bounded.incomplete.is_empty() {
                    let unbounded = search_pattern(
                        &definition,
                        initial(&definition),
                        &target,
                        SearchOptions { max_results: None, ..options },
                    );
                    assert_eq!(
                        pattern_result_names(&bounded, &result_variable),
                        pattern_result_names(&unbounded, &result_variable),
                    );
                }
            }
        }
    }
}

#[test]
fn bounded_search_incompleteness_never_invents_states() {
    for search_type in SEARCH_TYPES {
        for max_depth in 0_u64..=4 {
            for max_breadth in 0_usize..=7 {
                for max_results in 0_usize..=7 {
                    let definition = search_definition();
                    let bounded = search_graph(
                        &definition,
                        initial(&definition),
                        SearchOptions {
                            search_type,
                            max_depth,
                            max_breadth: Some(max_breadth),
                            max_results: Some(max_results),
                            ..SearchOptions::default()
                        },
                    );
                    if bounded.incomplete.is_empty() {
                        continue;
                    }

                    let selected = search_graph(
                        &definition,
                        initial(&definition),
                        SearchOptions { search_type, ..SearchOptions::default() },
                    );
                    let closure = search_graph(
                        &definition,
                        initial(&definition),
                        SearchOptions { search_type: SearchType::Star, ..SearchOptions::default() },
                    );
                    let selected_names = names(&selected);
                    let closure_names = names(&closure);

                    assert!(names(&bounded).is_subset(&selected_names));
                    for marker in &bounded.incomplete {
                        match marker {
                            IncompleteSearch::DepthBound(state) => {
                                assert!(closure_names.contains(&state_name(state)));
                            }
                            IncompleteSearch::BreadthBound(states) => {
                                for state in states {
                                    assert!(closure_names.contains(&state_name(state)));
                                }
                            }
                            IncompleteSearch::ResultBound => {}
                            other => assert!(false, "unexpected marker for finite fixture: {other:?}"),
                        }
                    }
                }
            }
        }
    }
}

#[test]
fn bounded_properties_hold_on_the_converging_fixture() {
    for search_type in SEARCH_TYPES {
        for max_depth in 0_u64..=4 {
            for max_results in 0_usize..=7 {
                let definition = converging_definition();
                let options = SearchOptions {
                    search_type,
                    max_depth,
                    max_results: Some(max_results),
                    ..SearchOptions::default()
                };
                let bounded = search_graph(&definition, initial(&definition), options);
                if bounded.incomplete.is_empty() {
                    let unbounded = search_graph(
                        &definition,
                        initial(&definition),
                        SearchOptions { max_results: None, ..options },
                    );
                    assert_eq!(names(&bounded), names(&unbounded));
                }
            }
        }
    }
}

// Proofs

/// A definition with its claims.
struct Fixture {
    definition: Definition,
    reachability_claims: Vec<ReachabilityClaim>,
}

impl std::ops::Deref for Fixture {
    type Target = Definition;

    fn deref(&self) -> &Definition {
        &self.definition
    }
}

fn internalize_claim(
    definition: &Definition,
    syntax: &KorePattern,
    attributes: &KoreAttributes,
) -> ReachabilityClaim {
    let KorePattern::Implies { left, right } = syntax else {
        panic!("expected an implication");
    };
    let KorePattern::Application { symbol, arguments } = right.as_ref() else {
        panic!("expected a modality");
    };
    let mode = match symbol.name.as_str() {
        "weakExistsFinally" => ReachabilityMode::OnePath,
        _ => ReachabilityMode::AllPath,
    };
    let mut existentials = Vec::new();
    let mut destination = &arguments[0];
    while let KorePattern::Exists { variable, body } = destination {
        existentials.push(
            definition
                .internalize_variable(variable, &Vec::new())
                .expect("variable should internalize"),
        );
        destination = body;
    }
    let alternatives = match destination {
        KorePattern::Or { arguments } => arguments.iter().collect(),
        other => vec![other],
    };
    let label = text_attribute(attributes, "label");
    ReachabilityClaim {
        lhs: internalize_pattern(definition, left),
        rhs: alternatives
            .into_iter()
            .map(|alternative| internalize_pattern(definition, alternative))
            .collect(),
        existentials,
        mode,
        attributes: ClaimAttributes {
            unique_id: format!("claim:{}", label.clone().unwrap_or_default()),
            label,
            trusted: has_attribute(attributes, "trusted"),
        },
    }
}

fn fixture(source: &str) -> Fixture {
    let syntax = parse_definition(source);
    let definition = internalize(&syntax, "MAIN").expect("definition should internalize");
    let mut reachability_claims = Vec::new();
    for sentence in syntax.modules.iter().flat_map(|module| &module.sentences) {
        if let KoreSentence::Claim {
            pattern,
            attributes,
            ..
        } = sentence
        {
            reachability_claims.push(internalize_claim(&definition, pattern, attributes));
        }
    }
    Fixture {
        definition,
        reachability_claims,
    }
}

/// Implications between patterns without function applications, by unification.
struct ByUnification;

fn holds(predicate: &Predicate, known: &[Predicate], existentials: &[Variable]) -> bool {
    match predicate {
        Predicate::True => true,
        Predicate::Equals(Term::Variable(variable), _)
        | Predicate::Equals(_, Term::Variable(variable))
            if existentials.contains(variable) =>
        {
            true
        }
        other => known.contains(other),
    }
}

/// The elements of a set and the parts that are joined with them.
fn set_parts(term: &Term, elements: &mut Vec<Term>, parts: &mut Vec<Term>) {
    match term {
        Term::KSet { elements: own, rest, .. } => {
            elements.extend(own.iter().map(Value::duplicate));
            if let Some(rest) = rest {
                set_parts(rest, elements, parts);
            }
        }
        Term::Application { symbol, arguments, .. }
            if symbol.attributes.hook.as_deref() == Some("SET.concat") =>
        {
            for argument in arguments {
                set_parts(argument, elements, parts);
            }
        }
        other => parts.push(other.duplicate()),
    }
}

/// The existential part of one set that stands for what only the other set has.
fn absorbed(left: &Term, right: &Term, existentials: &[Variable]) -> Option<(Variable, Term)> {
    let Term::Application { symbol, .. } = left else {
        return None;
    };
    let Some(CollectionMetadata::KSet(definition)) = &symbol.attributes.collection else {
        return None;
    };
    let (mut elements, mut parts) = (Vec::new(), Vec::new());
    set_parts(left, &mut elements, &mut parts);
    let (mut more, mut others) = (Vec::new(), Vec::new());
    set_parts(right, &mut more, &mut others);
    for part in &parts {
        if let Some(index) = others.iter().position(|other| other == part) {
            others.remove(index);
        }
    }
    match (elements.as_slice(), parts.as_slice(), others.len()) {
        ([], [Term::Variable(variable), _], 0 | 1) if existentials.contains(variable) => {
            let rest = others.pop();
            let set = Term::set(definition.duplicate(), more, rest);
            Some((variable.duplicate(), set))
        }
        _ => None,
    }
}

impl<S: SmtSolver> ImplicationChecker<Syntactic, S> for ByUnification {
    fn check_disjunctive_implication_with_existentials(
        &self,
        definition: &Definition,
        antecedent: &Pattern,
        consequents: &Vec<Pattern>,
        existentials: &Vec<Variable>,
        options: SimplificationOptions,
        solver: &S,
    ) -> Result<Implication, ImplicationError> {
        let answer = |status, condition, failure| Implication {
            status,
            vacuous: false,
            condition,
            failure,
        };
        let mut failure = ImplicationFailure::Terms;
        let mut open = Vec::new();
        for consequent in consequents {
            let pair = (consequent.term.duplicate(), antecedent.term.duplicate());
            let Ok((mut solution, remainder)) = solve(vec![pair], Substitution::new()) else {
                continue;
            };
            let witnesses = remainder
                .iter()
                .map(|(left, right)| absorbed(left, right, existentials))
                .collect::<Option<Vec<_>>>();
            if let Some(witnesses) = witnesses {
                solution.bindings.extend(witnesses);
            } else {
                return Ok(answer(ImplicationStatus::Indeterminate, None, None));
            }
            let (witnesses, coverage): (Vec<_>, Vec<_>) = solution
                .bindings
                .iter()
                .map(Value::duplicate)
                .partition(|(variable, _)| existentials.contains(variable));
            let obligations = simplify_predicates_with_solver(
                definition,
                &substitute_predicates(&consequent.constraints, &solution),
                &antecedent.constraints,
                options,
                solver,
            )
            .map_err(ImplicationError::Simplification)?;
            if !obligations
                .iter()
                .all(|obligation| holds(obligation, &antecedent.constraints, existentials))
            {
                failure = ImplicationFailure::ConsequentCondition;
                if coverage.is_empty() {
                    open.push(Predicate::And(obligations));
                }
                continue;
            }
            let status = if coverage.is_empty() {
                ImplicationStatus::Valid
            } else {
                ImplicationStatus::Invalid
            };
            let condition = ImplicationCondition {
                predicates: coverage
                    .into_iter()
                    .map(|(variable, term)| Predicate::Equals(Term::variable(variable), term))
                    .collect(),
                substitution: Substitution::new(),
                witnesses: Substitution { bindings: witnesses },
            };
            return Ok(answer(status, Some(condition), None));
        }
        if open.len() > 1 {
            let validity = solver.check_predicates(
                &antecedent.constraints,
                &Substitution::new(),
                &[Predicate::Or(open)],
            );
            if let Ok(Validity::Valid) = validity {
                let condition = ImplicationCondition {
                    predicates: Vec::new(),
                    substitution: Substitution::new(),
                    witnesses: Substitution::new(),
                };
                return Ok(answer(ImplicationStatus::Valid, Some(condition), None));
            }
        }
        Ok(answer(ImplicationStatus::Invalid, None, Some(failure)))
    }
}

fn prove_with_circularities<S: SmtSolver>(
    definition: &Fixture,
    claim: &ReachabilityClaim,
    circularities: &Vec<ReachabilityClaim>,
    options: ProofOptions,
    solver: &S,
) -> Result<ProofResult, ProofError> {
    k_rust_backend::reach::prove_claim(
        definition,
        claim,
        circularities,
        options,
        solver,
        &ByUnification,
    )
}

fn prove_claim<S: SmtSolver>(
    definition: &Fixture,
    claim: &ReachabilityClaim,
    options: ProofOptions,
    solver: &S,
) -> Result<ProofResult, ProofError> {
    prove_with_circularities(
        definition,
        claim,
        &definition.reachability_claims,
        options,
        solver,
    )
}

/// A proof whose steps are held to the time limit of the options.
fn prove_in_time<S: SmtSolver>(
    definition: &Fixture,
    claim: &ReachabilityClaim,
    options: ProofOptions,
    solver: &S,
) -> Result<ProofResult, ProofError> {
    let config = ProofConfig {
        definition: &definition.definition,
        solver,
        checker: &ByUnification,
        claim,
        circularities: &definition.reachability_claims,
        options,
    };
    let limit = options.step_timeout.expect("a time limit");
    let mut machine = ProofMachine::new(&config);
    let mut start = Instant::now();
    while !machine.is_finished() {
        if machine.is_waiting() {
            start = Instant::now();
        }
        machine = machine.advance(&config);
        if !machine.is_waiting() && start.elapsed() >= Duration::from_millis(limit) {
            machine = machine.time_out(StepTimeoutMode::Manual(limit));
        }
    }
    machine.into_result()
}

fn apply<S: SmtSolver>(
    definition: &Fixture,
    claim: &ReachabilityClaim,
    subject: &Pattern,
    options: ProofOptions,
    solver: &S,
    counter: &mut u64,
) -> ClaimApplication {
    let scope = ClaimScope {
        definition: &definition.definition,
        solver,
        options: SimplificationOptions {
            max_iterations: options.max_simplification_iterations,
            ..SimplificationOptions::default()
        },
    };
    apply_claim(&scope, claim, subject, counter)
}

struct SlowSolver;

fn wait() {
    let start = Instant::now();
    while start.elapsed() < Duration::from_millis(5) {}
}

impl SmtSolver for SlowSolver {
    fn is_sat(
        &self,
        _predicates: &[Predicate],
        _substitution: &Substitution,
    ) -> Result<Satisfiability, SmtError> {
        wait();
        Ok(Satisfiability::Sat)
    }

    fn check_predicates(
        &self,
        _known: &[Predicate],
        _substitution: &Substitution,
        _checked: &[Predicate],
    ) -> Result<Validity, SmtError> {
        wait();
        Ok(Validity::Indeterminate)
    }
}

struct FixedSolver {
    satisfiability: Satisfiability,
    validity: Validity,
}

impl SmtSolver for FixedSolver {
    fn is_sat(
        &self,
        _predicates: &[Predicate],
        _substitution: &Substitution,
    ) -> Result<Satisfiability, SmtError> {
        Ok(self.satisfiability.duplicate())
    }

    fn check_predicates(
        &self,
        _known: &[Predicate],
        _substitution: &Substitution,
        _checked: &[Predicate],
    ) -> Result<Validity, SmtError> {
        Ok(self.validity.duplicate())
    }
}

struct NonemptyUnsatSolver;

impl SmtSolver for NonemptyUnsatSolver {
    fn is_sat(
        &self,
        predicates: &[Predicate],
        _substitution: &Substitution,
    ) -> Result<Satisfiability, SmtError> {
        Ok(if predicates.is_empty() {
            Satisfiability::Sat
        } else {
            Satisfiability::Unsat
        })
    }

    fn check_predicates(
        &self,
        _known: &[Predicate],
        _substitution: &Substitution,
        _checked: &[Predicate],
    ) -> Result<Validity, SmtError> {
        Ok(Validity::Indeterminate)
    }
}

fn proof_definition(rules: &str, claims: &str) -> Fixture {
    let source = format!(
        r#"[]
        module MAIN
            sort SortS{{}} []
            symbol a{{}}() : SortS{{}} [constructor{{}}()]
            symbol b{{}}() : SortS{{}} [constructor{{}}()]
            symbol c{{}}() : SortS{{}} [constructor{{}}()]
            alias weakExistsFinally{{S}}(S) : S
                where weakExistsFinally{{S}}(@X:S) := @X:S []
            alias weakAlwaysFinally{{S}}(S) : S
                where weakAlwaysFinally{{S}}(@X:S) := @X:S []
            {rules}
            {claims}
        endmodule []"#
    );
    fixture(&source)
}

fn claim_requires_definition() -> Fixture {
    fixture(
        r#"[]
        module MAIN
            hooked-sort SortInt{} [hook{}("INT.Int"), hasDomainValues{}()]
            sort SortState{} []
            symbol start{}(SortInt{}) : SortState{} [constructor{}()]
            symbol middle{}(SortInt{}) : SortState{} [constructor{}()]
            symbol end{}(SortInt{}) : SortState{} [constructor{}()]
            symbol f{}(SortInt{}) : SortInt{} [function{}()]
            symbol opaque{}(SortInt{}) : SortInt{}
                [function{}(), total{}(), no-evaluators{}()]
            alias weakAlwaysFinally{S}(S) : S
                where weakAlwaysFinally{S}(@X:S) := @X:S []
            axiom{R} \implies{R}(
                \top{R}(),
                \equals{SortInt{}, R}(
                    f{}(X:SortInt{}),
                    \and{SortInt{}}(X:SortInt{}, \top{SortInt{}}())
                )
            ) [label{}("identity-f"), simplification{}()]
            axiom{} \rewrites{SortState{}}(
                \and{SortState{}}(start{}(X:SortInt{}), \top{SortState{}}()),
                middle{}(X:SortInt{})
            ) [label{}("start")]
            axiom{} \rewrites{SortState{}}(
                \and{SortState{}}(middle{}(X:SortInt{}), \top{SortState{}}()),
                end{}(X:SortInt{})
            ) [label{}("finish")]
            claim{} \implies{SortState{}}(
                \and{SortState{}}(start{}(N:SortInt{}), \top{SortState{}}()),
                weakAlwaysFinally{SortState{}}(end{}(f{}(N:SortInt{})))
            ) [label{}("goal")]
            claim{} \implies{SortState{}}(
                \and{SortState{}}(
                    middle{}(Y:SortInt{}),
                    \equals{SortInt{}, SortState{}}(
                        Z:SortInt{},
                        f{}(Y:SortInt{})
                    )
                ),
                weakAlwaysFinally{SortState{}}(end{}(Z:SortInt{}))
            ) [label{}("defines-z"), trusted{}()]
            claim{} \implies{SortState{}}(
                \and{SortState{}}(
                    middle{}(Y:SortInt{}),
                    \equals{SortInt{}, SortState{}}(
                        opaque{}(Y:SortInt{}),
                        \dv{SortInt{}}("0")
                    )
                ),
                weakAlwaysFinally{SortState{}}(end{}(Y:SortInt{}))
            ) [label{}("guarded"), trusted{}()]
        endmodule []"#,
    )
}

#[test]
fn complements_disjunctive_destination_coverage_branchwise() {
    let definition = proof_definition("", "");
    let x = term(&definition, "X:SortS{}");
    let first = Predicate::Equals(x.duplicate(), term(&definition, "a{}()"));
    let second = Predicate::Equals(x.duplicate(), term(&definition, "b{}()"));
    let pattern = Pattern {
        term: x,
        constraints: Vec::new(),
    };

    assert_eq!(
        complement_implication_condition(
            &pattern,
            ImplicationCondition {
                predicates: vec![Predicate::Or(vec![
                    first.duplicate(),
                    second.duplicate(),
                ])],
                substitution: Substitution::new(),
                witnesses: Substitution::new(),
            },
        ),
        Predicate::And(vec![
            Predicate::Not(Box::new(first)),
            Predicate::Not(Box::new(second)),
        ]),
    );
}

#[test]
fn trivial_successors_refute_both_modes() {
    let definition = proof_definition("", "");
    let leaf = ProofLeaf {
        pattern: Pattern {
            term: term(&definition, "a{}()"),
            constraints: Vec::new(),
        },
        depth: 1,
        trace: Vec::new(),
        outcome: ProofLeafOutcome::Trivial,
    };

    assert_eq!(
        finish(vec![leaf.duplicate()], 1, 0).status,
        ProofStatus::Disproved
    );
    assert_eq!(finish(vec![leaf], 1, 0).status, ProofStatus::Disproved);
}

/// Knows that a predicate or its negation holds.
struct ExcludedMiddle;

fn complementary(left: &Predicate, right: &Predicate) -> bool {
    match (left, right) {
        (Predicate::And(left), Predicate::And(right)) => {
            matches!((left.as_slice(), right.as_slice()), ([left], [right]) if complementary(left, right))
        }
        (left, Predicate::Not(right)) => *left == **right,
        _ => false,
    }
}

impl SmtSolver for ExcludedMiddle {
    fn is_sat(
        &self,
        _predicates: &[Predicate],
        _substitution: &Substitution,
    ) -> Result<Satisfiability, SmtError> {
        Ok(Satisfiability::Sat)
    }

    fn check_predicates(
        &self,
        _known: &[Predicate],
        _substitution: &Substitution,
        checked: &[Predicate],
    ) -> Result<Validity, SmtError> {
        Ok(match checked {
            [Predicate::Or(parts)]
                if parts
                    .iter()
                    .any(|left| parts.iter().any(|right| complementary(left, right))) =>
            {
                Validity::Valid
            }
            _ => Validity::Indeterminate,
        })
    }
}

#[test]
fn applies_a_subject_variable_binding_to_the_claim_successor() {
    let definition = fixture(
        r#"[]
        module MAIN
            hooked-sort SortInt{} [hook{}("INT.Int"), hasDomainValues{}()]
            hooked-sort SortBool{} [hook{}("BOOL.Bool"), hasDomainValues{}()]
            hooked-sort SortSet{}
                [hook{}("SET.Set"), unit{}(setUnit{}()), element{}(setItem{}()), concat{}(setConcat{}())]
            sort SortS{} []
            sort SortCfg{} []
            hooked-symbol setUnit{}() : SortSet{}
                [function{}(), total{}(), hook{}("SET.unit")]
            hooked-symbol setItem{}(SortInt{}) : SortSet{}
                [function{}(), total{}(), hook{}("SET.element")]
            hooked-symbol setConcat{}(SortSet{}, SortSet{}) : SortSet{}
                [function{}(), hook{}("SET.concat"), assoc{}(), comm{}(), idem{}()]
            hooked-symbol setIn{}(SortInt{}, SortSet{}) : SortBool{}
                [function{}(), total{}(), hook{}("SET.in")]
            symbol start{}(SortInt{}) : SortS{} [constructor{}()]
            symbol mid{}(SortInt{}) : SortS{} [constructor{}()]
            symbol end{}() : SortS{} [constructor{}()]
            symbol cfg{}(SortS{}, SortSet{}) : SortCfg{} [constructor{}()]
            alias weakExistsFinally{S}(S) : S
                where weakExistsFinally{S}(@X:S) := @X:S []
            axiom{} \rewrites{SortCfg{}}(
                \and{SortCfg{}}(cfg{}(start{}(I:SortInt{}), F:SortSet{}), \top{SortCfg{}}()),
                cfg{}(mid{}(I:SortInt{}), setConcat{}(setItem{}(I:SortInt{}), F:SortSet{}))
            ) [label{}("start")]
            claim{} \implies{SortCfg{}}(
                \and{SortCfg{}}(cfg{}(start{}(I:SortInt{}), F:SortSet{}), \top{SortCfg{}}()),
                weakExistsFinally{SortCfg{}}(
                    \exists{SortCfg{}}(
                        G:SortSet{},
                        \and{SortCfg{}}(
                            cfg{}(end{}(), setConcat{}(G:SortSet{}, F:SortSet{})),
                            \top{SortCfg{}}()
                        )
                    )
                )
            ) [label{}("main")]
            claim{} \implies{SortCfg{}}(
                \and{SortCfg{}}(
                    cfg{}(mid{}(J:SortInt{}), setConcat{}(setItem{}(J:SortInt{}), H:SortSet{})),
                    \top{SortCfg{}}()
                ),
                weakExistsFinally{SortCfg{}}(
                    \exists{SortCfg{}}(
                        G:SortSet{},
                        \and{SortCfg{}}(
                            cfg{}(
                                end{}(),
                                setConcat{}(
                                    setItem{}(J:SortInt{}),
                                    setConcat{}(G:SortSet{}, H:SortSet{})
                                )
                            ),
                            \top{SortCfg{}}()
                        )
                    )
                )
            ) [label{}("finish"), trusted{}()]
        endmodule []"#,
    );
    let solver = FixedSolver {
        satisfiability: Satisfiability::Sat,
        validity: Validity::Indeterminate,
    };

    let result = prove_claim(
        &definition,
        &definition.reachability_claims[0],
        ProofOptions::default(),
        &solver,
    )
    .expect("claim should execute");

    assert_eq!(result.status, ProofStatus::Proven, "{result:#?}");
    for leaf in &result.leaves {
        assert!(
            leaf.pattern
                .term
                .variables()
                .iter()
                .all(|variable| !variable.name.starts_with("H!")),
            "the claim successor must be expressed over the subject frame F, not the claim frame H: {leaf:#?}"
        );
    }
}

#[test]
fn proves_a_destination_covered_by_complementary_branches() {
    let definition = fixture(
        r#"[]
        module MAIN
            hooked-sort SortInt{} [hook{}("INT.Int"), hasDomainValues{}()]
            alias weakExistsFinally{S}(S) : S
                where weakExistsFinally{S}(@X:S) := @X:S []
            claim{} \implies{SortInt{}}(
                \and{SortInt{}}(X:SortInt{}, \top{SortInt{}}()),
                weakExistsFinally{SortInt{}}(
                    \or{SortInt{}}(
                        \and{SortInt{}}(
                            X:SortInt{},
                            \equals{SortInt{}, SortInt{}}(
                                X:SortInt{},
                                \dv{SortInt{}}("0")
                            )
                        ),
                        \and{SortInt{}}(
                            X:SortInt{},
                            \not{SortInt{}}(
                                \equals{SortInt{}, SortInt{}}(
                                    X:SortInt{},
                                    \dv{SortInt{}}("0")
                                )
                            )
                        )
                    )
                )
            ) [label{}("complementary")]
        endmodule []"#,
    );
    let solver = ExcludedMiddle;

    let result = prove_claim(
        &definition,
        &definition.reachability_claims[0],
        ProofOptions::default(),
        &solver,
    )
    .expect("claim should execute");

    assert_eq!(result.status, ProofStatus::Proven);
    assert_eq!(result.explored_states, 1);
    assert!(matches!(
        result.leaves.as_slice(),
        [ProofLeaf {
            outcome: ProofLeafOutcome::Proven(_),
            ..
        }]
    ));
}

#[test]
fn proves_map_construction_under_antecedent_definedness() {
    let definition = fixture(
        r#"[]
        module MAIN
            sort SortKey{} []
            sort SortValue{} [hasDomainValues{}()]
            hooked-sort SortMap{}
                [hook{}("MAP.Map"), unit{}(mapUnit{}()), element{}(mapItem{}()), concat{}(mapConcat{}())]
            sort SortState{} []
            hooked-symbol mapUnit{}() : SortMap{}
                [function{}(), total{}(), hook{}("MAP.unit")]
            hooked-symbol mapItem{}(SortKey{}, SortValue{}) : SortMap{}
                [function{}(), total{}(), hook{}("MAP.element")]
            hooked-symbol mapConcat{}(SortMap{}, SortMap{}) : SortMap{}
                [function{}(), hook{}("MAP.concat"), assoc{}(), comm{}()]
            symbol start{}(SortKey{}, SortMap{}) : SortState{} [constructor{}()]
            symbol done{}(SortMap{}) : SortState{} [constructor{}()]
            alias weakAlwaysFinally{S}(S) : S
                where weakAlwaysFinally{S}(@X:S) := @X:S []
            axiom{} \rewrites{SortState{}}(
                \and{SortState{}}(
                    start{}(KEY:SortKey{}, MAP:SortMap{}),
                    \top{SortState{}}()
                ),
                done{}(
                    mapConcat{}(
                        mapItem{}(KEY:SortKey{}, \dv{SortValue{}}("new")),
                        MAP:SortMap{}
                    )
                )
            ) [label{}("insert")]
            claim{} \implies{SortState{}}(
                \and{SortState{}}(
                    start{}(
                        X:SortKey{},
                        mapConcat{}(
                            mapItem{}(Y:SortKey{}, \dv{SortValue{}}("old")),
                            REST:SortMap{}
                        )
                    ),
                    \top{SortState{}}()
                ),
                weakAlwaysFinally{SortState{}}(
                    done{}(
                        mapConcat{}(
                            mapItem{}(X:SortKey{}, \dv{SortValue{}}("new")),
                            mapConcat{}(
                                mapItem{}(Y:SortKey{}, \dv{SortValue{}}("old")),
                                REST:SortMap{}
                            )
                        )
                    )
                )
            ) [label{}("map-definedness")]
        endmodule []"#,
    );
    let solver = FixedSolver {
        satisfiability: Satisfiability::Sat,
        validity: Validity::Indeterminate,
    };

    let result = prove_claim(
        &definition,
        &definition.reachability_claims[0],
        ProofOptions::default(),
        &solver,
    )
    .expect("claim should execute");

    assert_eq!(result.status, ProofStatus::Proven);
    assert_eq!(result.unexplored_states, 0);
}

/// Knows that every integer is a sum of another one and a constant.
struct ShiftSolver;

impl SmtSolver for ShiftSolver {
    fn is_sat(
        &self,
        predicates: &[Predicate],
        _substitution: &Substitution,
    ) -> Result<Satisfiability, SmtError> {
        let refuted = predicates.iter().any(|predicate| {
            matches!(predicate, Predicate::Not(inner) if matches!(inner.as_ref(), Predicate::Exists(..)))
        });
        Ok(if refuted {
            Satisfiability::Unsat
        } else {
            Satisfiability::Sat
        })
    }

    fn check_predicates(
        &self,
        _known: &[Predicate],
        _substitution: &Substitution,
        _checked: &[Predicate],
    ) -> Result<Validity, SmtError> {
        Ok(Validity::Indeterminate)
    }
}

#[test]
fn prunes_an_unsatisfiable_claim_remainder_instead_of_reporting_it_vacuous() {
    let definition = fixture(
        r#"[]
        module MAIN
            hooked-sort SortInt{} [hook{}("INT.Int"), hasDomainValues{}()]
            sort SortS{} []
            hooked-symbol plusInt{}(SortInt{}, SortInt{}) : SortInt{}
                [function{}(), total{}(), hook{}("INT.add"), smt-hook{}("+")]
            symbol start{}(SortInt{}) : SortS{} [constructor{}()]
            symbol mid{}(SortInt{}) : SortS{} [constructor{}()]
            symbol end{}(SortInt{}) : SortS{} [constructor{}()]
            alias weakExistsFinally{S}(S) : S
                where weakExistsFinally{S}(@X:S) := @X:S []
            axiom{} \rewrites{SortS{}}(
                \and{SortS{}}(start{}(X:SortInt{}), \top{SortS{}}()),
                mid{}(X:SortInt{})
            ) [label{}("start")]
            claim{} \implies{SortS{}}(
                \and{SortS{}}(start{}(X:SortInt{}), \top{SortS{}}()),
                weakExistsFinally{SortS{}}(
                    \exists{SortS{}}(
                        Z:SortInt{},
                        \and{SortS{}}(end{}(Z:SortInt{}), \top{SortS{}}())
                    )
                )
            ) [label{}("main")]
            claim{} \implies{SortS{}}(
                \and{SortS{}}(
                    mid{}(plusInt{}(Y:SortInt{}, \dv{SortInt{}}("-1"))),
                    \top{SortS{}}()
                ),
                weakExistsFinally{SortS{}}(
                    \and{SortS{}}(end{}(Y:SortInt{}), \top{SortS{}}())
                )
            ) [label{}("shift"), trusted{}()]
        endmodule []"#,
    );
    let solver = ShiftSolver;

    let result = prove_claim(
        &definition,
        &definition.reachability_claims[0],
        ProofOptions::default(),
        &solver,
    )
    .expect("claim should execute");

    assert_eq!(result.status, ProofStatus::Proven, "{result:#?}");
    assert!(
        !result
            .leaves
            .iter()
            .any(|leaf| matches!(leaf.outcome, ProofLeafOutcome::Vacuous)),
        "{result:#?}"
    );
    assert!(
        !result.leaves.iter().any(|leaf| leaf
            .trace
            .iter()
            .any(|entry| entry.kind == TraceKind::Remainder
                && entry.unique_id.starts_with("claim:"))),
        "the unsatisfiable remainder must be pruned, not explored: {result:#?}"
    );
    assert!(
        result
            .leaves
            .iter()
            .any(|leaf| leaf.trace.iter().any(|entry| {
                entry.kind == TraceKind::Claim && entry.label.as_deref() == Some("shift")
            })),
        "{result:#?}"
    );
}

#[test]
fn closes_the_remainder_after_exhaustive_constructor_case_analysis() {
    let definition = fixture(
        r#"[]
        module MAIN
            sort SortS{} []
            sort SortT{} []
            symbol a{}() : SortS{} [constructor{}()]
            symbol b{}() : SortS{} [constructor{}()]
            symbol c{}() : SortS{} [constructor{}()]
            symbol total{}(SortS{}) : SortT{} [constructor{}()]
            symbol end{}() : SortT{} [constructor{}()]
            alias weakAlwaysFinally{S}(S) : S
                where weakAlwaysFinally{S}(@X:S) := @X:S []
            axiom{} \or{SortS{}}(
                a{}(), b{}(), c{}(), \bottom{SortS{}}()
            ) [constructor{}()]
            axiom{} \rewrites{SortT{}}(
                \and{SortT{}}(total{}(a{}()), \top{SortT{}}()),
                end{}()
            ) [label{}("a")]
            axiom{} \rewrites{SortT{}}(
                \and{SortT{}}(total{}(b{}()), \top{SortT{}}()),
                end{}()
            ) [label{}("b")]
            axiom{} \rewrites{SortT{}}(
                \and{SortT{}}(total{}(c{}()), \top{SortT{}}()),
                end{}()
            ) [label{}("c")]
            claim{} \implies{SortT{}}(
                \and{SortT{}}(total{}(X:SortS{}), \top{SortT{}}()),
                weakAlwaysFinally{SortT{}}(end{}())
            ) [label{}("total")]
        endmodule []"#,
    );
    let solver = FixedSolver {
        satisfiability: Satisfiability::Sat,
        validity: Validity::Indeterminate,
    };

    let result = prove_claim(
        &definition,
        &definition.reachability_claims[0],
        ProofOptions::default(),
        &solver,
    )
    .expect("claim should execute");

    assert_eq!(result.status, ProofStatus::Proven, "{result:#?}");
    assert_eq!(result.explored_states, 4);
    assert_eq!(result.unexplored_states, 0);
}

#[test]
fn applies_a_partially_matching_claim_and_closes_its_remainder_by_rules() {
    let definition = fixture(
        r#"[]
        module MAIN
            sort SortV{} []
            sort SortS{} []
            symbol va{}() : SortV{} [constructor{}()]
            symbol vb{}() : SortV{} [constructor{}()]
            symbol vc{}() : SortV{} [constructor{}()]
            axiom{} \or{SortV{}}(
                va{}(), vb{}(), vc{}(), \bottom{SortV{}}()
            ) [constructor{}()]
            symbol init{}(SortV{}) : SortS{} [constructor{}()]
            symbol start{}(SortV{}) : SortS{} [constructor{}()]
            symbol done{}() : SortS{} [constructor{}()]
            alias weakAlwaysFinally{S}(S) : S
                where weakAlwaysFinally{S}(@X:S) := @X:S []
            axiom{} \rewrites{SortS{}}(
                \and{SortS{}}(init{}(X:SortV{}), \top{SortS{}}()),
                start{}(X:SortV{})
            ) [label{}("init")]
            axiom{} \rewrites{SortS{}}(
                \and{SortS{}}(start{}(vb{}()), \top{SortS{}}()),
                done{}()
            ) [label{}("b")]
            axiom{} \rewrites{SortS{}}(
                \and{SortS{}}(start{}(vc{}()), \top{SortS{}}()),
                done{}()
            ) [label{}("c")]
            claim{} \implies{SortS{}}(
                \and{SortS{}}(init{}(X:SortV{}), \top{SortS{}}()),
                weakAlwaysFinally{SortS{}}(done{}())
            ) [label{}("main")]
            claim{} \implies{SortS{}}(
                \and{SortS{}}(start{}(va{}()), \top{SortS{}}()),
                weakAlwaysFinally{SortS{}}(done{}())
            ) [label{}("a-case"), trusted{}()]
        endmodule []"#,
    );
    let solver = FixedSolver {
        satisfiability: Satisfiability::Sat,
        validity: Validity::Indeterminate,
    };

    let result = prove_claim(
        &definition,
        &definition.reachability_claims[0],
        ProofOptions::default(),
        &solver,
    )
    .expect("claim should execute");

    assert_eq!(result.status, ProofStatus::Proven, "{result:#?}");
    let claimed = result
        .leaves
        .iter()
        .find(|leaf| {
            leaf.trace.iter().any(|entry| {
                entry.kind == TraceKind::Claim && entry.label.as_deref() == Some("a-case")
            })
        })
        .expect("the trusted claim covers the `va` sub-case");
    assert!(claimed.pattern.constraints.iter().any(|predicate| {
        matches!(predicate, Predicate::Equals(left, _)
            if matches!(left, Term::Variable(_)))
    }));
    assert!(result.leaves.iter().any(|leaf| {
        leaf.trace.iter().any(|entry| {
            entry.kind == TraceKind::Remainder && entry.unique_id.starts_with("claim:")
        })
    }));
    assert_eq!(result.unexplored_states, 0);
}

#[test]
fn simplifies_function_patterns_while_applying_claims() {
    let definition = proof_definition(
        r#"
        symbol start{}(SortS{}) : SortS{} [constructor{}()]
        symbol state{}(SortS{}, SortS{}) : SortS{} [constructor{}()]
        symbol identity{}(SortS{}) : SortS{} [function{}(), total{}()]
        axiom{R} \implies{R}(
            \top{R}(),
            \equals{SortS{}, R}(
                identity{}(X:SortS{}),
                \and{SortS{}}(X:SortS{}, \top{SortS{}}())
            )
        ) [label{}("identity"), simplification{}()]
        axiom{} \rewrites{SortS{}}(
            \and{SortS{}}(start{}(X:SortS{}), \top{SortS{}}()),
            state{}(X:SortS{}, X:SortS{})
        ) [label{}("start")]
        "#,
        r#"
        claim{} \implies{SortS{}}(
            \and{SortS{}}(start{}(a{}()), \top{SortS{}}()),
            weakAlwaysFinally{SortS{}}(c{}())
        ) [label{}("main")]
        claim{} \implies{SortS{}}(
            \and{SortS{}}(
                state{}(identity{}(N:SortS{}), N:SortS{}),
                \top{SortS{}}()
            ),
            weakAlwaysFinally{SortS{}}(c{}())
        ) [label{}("circularity"), trusted{}()]
        "#,
    );

    let result = prove_claim(
        &definition,
        &definition.reachability_claims[0],
        ProofOptions::default(),
        &NoSolver,
    )
    .expect("claim should execute");

    assert_eq!(result.status, ProofStatus::Proven, "{result:#?}");
    assert_eq!(result.explored_states, 3);
    assert_eq!(result.unexplored_states, 0);
}

#[test]
fn claim_requires_defining_an_unbound_variable_is_a_substitution() {
    let definition = claim_requires_definition();
    let subject = Pattern {
        term: term(&definition, "middle{}(X:SortInt{})"),
        constraints: Vec::new(),
    };
    let mut fresh = 0;

    let ClaimApplication::Applied {
        patterns,
        remainder: None,
    } = apply(
        &definition,
        &definition.reachability_claims[1],
        &subject,
        ProofOptions::default(),
        &NoSolver,
        &mut fresh,
    )
    else {
        panic!("the defining requires equality should instantiate the claim");
    };
    let [successor] = patterns.as_slice() else {
        panic!("expected one claim successor, found {patterns:?}");
    };
    assert_eq!(successor.term, term(&definition, "end{}(X:SortInt{})"));
    assert!(successor.constraints.is_empty());
    assert_eq!(
        successor.term.variables(),
        vec![Variable::new("X", Sort::simple("SortInt"))]
    );
}

fn narrows_with<S: SmtSolver>(solver: &S) {
    let definition = claim_requires_definition();
    let subject = Pattern {
        term: term(&definition, "middle{}(X:SortInt{})"),
        constraints: Vec::new(),
    };
    let expected = Predicate::Equals(
        term(&definition, "opaque{}(X:SortInt{})"),
        term(&definition, r#"\dv{SortInt{}}("0")"#),
    );
    let mut fresh = 0;
    let ClaimApplication::Applied {
        patterns,
        remainder: Some(remainder),
    } = apply(
        &definition,
        &definition.reachability_claims[2],
        &subject,
        ProofOptions::default(),
        solver,
        &mut fresh,
    )
    else {
        panic!("an undecidable requires should split the covered sub-case");
    };
    let [successor] = patterns.as_slice() else {
        panic!("expected one claim successor, found {patterns:?}");
    };
    assert_eq!(successor.term, term(&definition, "end{}(X:SortInt{})"));
    assert_eq!(successor.constraints, vec![expected.duplicate()]);
    assert_eq!(remainder.pattern.term, subject.term);
    assert_eq!(
        remainder.pattern.constraints,
        vec![Predicate::Not(Box::new(expected.duplicate()))]
    );
}

#[test]
fn claim_with_undecidable_requires_narrows() {
    narrows_with(&FixedSolver {
        satisfiability: Satisfiability::Sat,
        validity: Validity::Indeterminate,
    });
    narrows_with(&NoSolver);
}

#[test]
fn solver_unknown_on_claim_requires_stays_indeterminate() {
    let definition = claim_requires_definition();
    let subject = Pattern {
        term: term(&definition, "middle{}(X:SortInt{})"),
        constraints: Vec::new(),
    };
    let solver = FixedSolver {
        satisfiability: Satisfiability::Sat,
        validity: Validity::Unknown("timeout".into()),
    };
    let mut fresh = 0;

    assert!(matches!(
        apply(
            &definition,
            &definition.reachability_claims[2],
            &subject,
            ProofOptions::default(),
            &solver,
            &mut fresh,
        ),
        ClaimApplication::Indeterminate(ClaimIndeterminateReason::Smt(
            SmtError::Unknown(reason)
        )) if reason == "timeout"
    ));
}

#[test]
fn proves_a_claim_whose_existential_is_defined_by_an_obligation() {
    let definition = fixture(
        r#"[]
        module MAIN
            hooked-sort SortInt{} [hook{}("INT.Int"), hasDomainValues{}()]
            sort SortState{} []
            symbol start{}() : SortState{} [constructor{}()]
            symbol done{}(SortInt{}) : SortState{} [constructor{}()]
            alias weakAlwaysFinally{S}(S) : S
                where weakAlwaysFinally{S}(@X:S) := @X:S []
            axiom{} \rewrites{SortState{}}(
                \and{SortState{}}(start{}(), \top{SortState{}}()),
                done{}(\dv{SortInt{}}("5"))
            ) [label{}("step")]
            claim{} \implies{SortState{}}(
                \and{SortState{}}(start{}(), \top{SortState{}}()),
                weakAlwaysFinally{SortState{}}(
                    \exists{SortState{}}(
                        C:SortInt{},
                        \and{SortState{}}(
                            done{}(\dv{SortInt{}}("5")),
                            \equals{SortInt{}, SortState{}}(
                                C:SortInt{},
                                \dv{SortInt{}}("5")
                            )
                        )
                    )
                )
            ) [label{}("existential-obligation")]
        endmodule []"#,
    );

    let result = prove_claim(
        &definition,
        &definition.reachability_claims[0],
        ProofOptions::default(),
        &NoSolver,
    )
    .expect("claim should execute");

    assert_eq!(result.status, ProofStatus::Proven, "{result:#?}");
    assert_eq!(result.explored_states, 2);
    assert_eq!(result.unexplored_states, 0);
}

const NON_TERMINATING_SIMPLIFIER: &str = r#"
    symbol expand{}(SortS{}) : SortS{} [function{}()]
    axiom{R} \implies{R}(
        \top{R}(),
        \equals{SortS{}, R}(
            expand{}(X:SortS{}),
            \and{SortS{}}(
                expand{}(expand{}(X:SortS{})),
                \top{SortS{}}()
            )
        )
    ) [label{}("expand"), simplification{}()]
"#;

#[test]
fn rewrite_budget_exhaustion_is_not_a_proof_simplification_error() {
    let rules = format!(
        r#"
        {NON_TERMINATING_SIMPLIFIER}
        axiom{{}} \rewrites{{SortS{{}}}}(
            \and{{SortS{{}}}}(
                a{{}}(),
                \equals{{SortS{{}}, SortS{{}}}}(
                    expand{{}}(a{{}}()),
                    a{{}}()
                )
            ),
            b{{}}()
        ) [label{{}}("conditional")]
        "#
    );
    let claims = modal_claim(ReachabilityMode::AllPath, "a", "c", false);
    let definition = proof_definition(&rules, &claims);

    let result = prove_claim(
        &definition,
        &definition.reachability_claims[0],
        ProofOptions {
            max_simplification_iterations: 1,
            ..ProofOptions::default()
        },
        &NoSolver,
    );
    let result = result.expect("budget exhaustion should remain a proof outcome");

    assert!(
        result.leaves.iter().all(|leaf| !matches!(
            leaf.outcome,
            ProofLeafOutcome::Indeterminate(ProofIndeterminateReason::Simplification(
                SimplificationError::IterationLimit { .. }
                    | SimplificationError::PredicateIterationLimit { .. }
            ))
        )),
        "{result:#?}"
    );
    assert!(definition.kernel.heard.borrow().iter().any(|diagnostic| matches!(
        diagnostic,
        BackendDiagnostic::SimplificationBudgetExhausted {
            limit: 1,
            subject: BudgetSubject::Predicates,
        }
    )));
}

#[test]
fn used_up_iterations_are_told_and_fail_only_where_no_partial_result_is_kept() {
    let definition = proof_definition(NON_TERMINATING_SIMPLIFIER, "");
    let expanded = Predicate::Equals(term(&definition, "expand{}(a{}())"), term(&definition, "a{}()"));
    let (kept, exhausted) = simplify_predicates_with_record(
        &definition,
        &vec![expanded.duplicate()],
        &Vec::new(),
        SimplificationOptions::keep_partial(1),
        &NoSolver,
    )
    .expect("a partial result should be kept");
    assert!(matches!(kept.as_slice(), [kept] if *kept == expanded));
    assert_eq!(
        exhausted,
        Some(BudgetExhaustion {
            limit: 1,
            subject: BudgetSubject::Predicates,
        })
    );
    assert!(matches!(
        simplify_predicates_with_solver(
            &definition,
            &vec![expanded],
            &Vec::new(),
            SimplificationOptions {
                max_iterations: 1,
                ..SimplificationOptions::default()
            },
            &NoSolver,
        ),
        Err(SimplificationError::IterationLimit { limit: 1, .. }
            | SimplificationError::PredicateIterationLimit { limit: 1, .. })
    ));
    assert!(definition.kernel.heard.borrow().is_empty());

    let subject = term(&definition, "expand{}(a{}())");
    let result = simplify(&definition, &subject, SimplificationOptions::keep_partial(1))
        .expect("a partial result should be kept");
    let exhausted = BudgetExhaustion {
        limit: 1,
        subject: BudgetSubject::Term,
    };
    assert_eq!(result.exhausted, Some(exhausted));
    assert_eq!(
        *definition.kernel.heard.borrow(),
        [BackendDiagnostic::SimplificationBudgetExhausted {
            limit: 1,
            subject: BudgetSubject::Term,
        }]
    );
    let options = SimplificationOptions {
        max_iterations: 1,
        ..SimplificationOptions::default()
    };
    assert!(matches!(
        simplify(&definition, &subject, options),
        Err(SimplificationError::IterationLimit { limit: 1, .. })
    ));
    let settled = simplify(&definition, &term(&definition, "a{}()"), options);
    assert!(matches!(&settled, Ok(result) if result.exhausted.is_none()));
    assert_eq!(
        settled,
        simplify(
            &definition,
            &term(&definition, "a{}()"),
            SimplificationOptions::keep_partial(1)
        )
    );
}

#[test]
fn what_a_solver_cannot_decide_is_told() {
    let definition = proof_definition(NON_TERMINATING_SIMPLIFIER, "");
    let predicate = Predicate::Equals(
        term(&definition, "X:SortS{}"),
        term(&definition, "a{}()"),
    );
    for (validity, reason) in [
        (
            Validity::Unknown("timeout".to_owned()),
            Some(ConditionIndeterminacy::SmtUnknown("timeout".to_owned())),
        ),
        (
            Validity::InconsistentGroundTruth,
            Some(ConditionIndeterminacy::InconsistentPathCondition),
        ),
        (Validity::Indeterminate, None),
    ] {
        definition.kernel.heard.borrow_mut().clear();
        let solver = FixedSolver {
            satisfiability: Satisfiability::Sat,
            validity: validity.duplicate(),
        };
        let decided = simplify_and_decide_predicate_with_solver(
            &definition,
            &predicate,
            &Vec::new(),
            SimplificationOptions::default(),
            &solver,
        );
        assert!(matches!(decided, Ok(decided) if decided == predicate));
        let told = reason.as_ref().map(|reason| BackendDiagnostic::UndecidedPredicate {
            predicate: predicate.duplicate(),
            reason: reason.duplicate(),
        });
        let answer = Ok(validity);
        assert_eq!(predicate_diagnostic(&predicate, &answer), told);
        assert_eq!(
            *definition.kernel.heard.borrow(),
            told.into_iter().collect::<Vec<_>>()
        );
        assert_eq!(
            condition_diagnostic(&"rule".to_owned(), &vec![predicate.duplicate()], &answer),
            reason.map(|reason| BackendDiagnostic::UndecidedCondition {
                rule_id: "rule".to_owned(),
                reason,
                predicates: vec![predicate.duplicate()],
            })
        );
    }
    assert_eq!(exhaustion_diagnostic(None), None);
}

#[test]
fn a_builtin_function_that_is_not_supported_is_told_where_arguments_are_open() {
    let definition = internal(
        r#"[]
        module MAIN
            sort SortS{} []
            symbol a{}() : SortS{} [constructor{}()]
            hooked-symbol f{}(SortS{}) : SortS{} [function{}(), hook{}("TEST.f")]
        endmodule []"#,
        "MAIN",
    );
    let unsupported = Some(UnsupportedHookReason::NotImplemented);
    assert_eq!(
        hook_diagnostic(&term(&definition, "f{}(X:SortS{})"), &unsupported),
        Some(BackendDiagnostic::UnsupportedHookUnevaluated {
            hook: "TEST.f".to_owned(),
            reason: UnsupportedHookReason::NotImplemented,
        })
    );
    assert_eq!(hook_diagnostic(&term(&definition, "f{}(X:SortS{})"), &None), None);
    assert_eq!(hook_diagnostic(&term(&definition, "f{}(a{}())"), &unsupported), None);
    assert_eq!(hook_diagnostic(&term(&definition, "a{}()"), &unsupported), None);
}

#[test]
fn claim_requires_simplification_failure_keeps_its_identity() {
    let claims = r#"
        claim{} \implies{SortS{}}(
            \and{SortS{}}(
                a{}(),
                \equals{SortS{}, SortS{}}(
                    expand{}(a{}()),
                    a{}()
                )
            ),
            weakAlwaysFinally{SortS{}}(c{}())
        ) [label{}("conditional-claim")]
    "#;
    let definition = proof_definition(NON_TERMINATING_SIMPLIFIER, claims);
    let subject = Pattern {
        term: term(&definition, "a{}()"),
        constraints: Vec::new(),
    };
    let mut fresh = 0;

    let result = apply(
        &definition,
        &definition.reachability_claims[0],
        &subject,
        ProofOptions {
            max_simplification_iterations: 1,
            ..ProofOptions::default()
        },
        &NoSolver,
        &mut fresh,
    );

    assert!(matches!(
        result,
        ClaimApplication::Indeterminate(ClaimIndeterminateReason::Simplification(
            SimplificationError::IterationLimit { .. }
                | SimplificationError::PredicateIterationLimit { .. }
        ))
    ));
}


const A_TO_B: &str = r#"
    axiom{} \rewrites{SortS{}}(
        \and{SortS{}}(a{}(), \top{SortS{}}()),
        \and{SortS{}}(b{}(), \top{SortS{}}())
    ) [label{}("a-to-b")]
"#;

#[test]
fn unselected_claims_are_not_circularities() {
    let definition = proof_definition(
        r#"
        axiom{} \rewrites{SortS{}}(
            \and{SortS{}}(a{}(), \top{SortS{}}()),
            b{}()
        ) [label{}("a-to-b")]
        axiom{} \rewrites{SortS{}}(
            \and{SortS{}}(b{}(), \top{SortS{}}()),
            c{}()
        ) [label{}("b-to-c")]
        symbol d{}() : SortS{} [constructor{}()]
        "#,
        r#"
        claim{} \implies{SortS{}}(
            \and{SortS{}}(a{}(), \top{SortS{}}()),
            weakAlwaysFinally{SortS{}}(d{}())
        ) [label{}("ca")]
        claim{} \implies{SortS{}}(
            \and{SortS{}}(b{}(), \top{SortS{}}()),
            weakAlwaysFinally{SortS{}}(d{}())
        ) [label{}("cb")]
        "#,
    );

    let isolated = vec![definition.reachability_claims[0].duplicate()];
    let result = prove_with_circularities(
        &definition,
        &definition.reachability_claims[0],
        &isolated,
        ProofOptions::default(),
        &NoSolver,
    )
    .expect("claim should execute");

    assert_eq!(result.status, ProofStatus::Disproved, "{result:#?}");
    assert!(matches!(
        result.leaves.as_slice(),
        [ProofLeaf {
            pattern: Pattern { term: stuck, .. },
            outcome: ProofLeafOutcome::Stuck,
            ..
        }] if stuck == &term(&definition, "c{}()")
    ));

    let circularities = definition.reachability_claims.duplicate();
    let batch = prove_with_circularities(
        &definition,
        &definition.reachability_claims[0],
        &circularities,
        ProofOptions::default(),
        &NoSolver,
    )
    .expect("batch claim should execute");
    assert_eq!(batch.status, ProofStatus::Proven, "{batch:#?}");
    assert!(batch.leaves[0].trace.iter().any(|entry| {
        entry.kind == TraceKind::Claim && entry.label.as_deref() == Some("cb")
    }));
}

const A_TO_B_AND_C: &str = r#"
    axiom{} \rewrites{SortS{}}(
        \and{SortS{}}(a{}(), \top{SortS{}}()),
        \and{SortS{}}(b{}(), \top{SortS{}}())
    ) [label{}("a-to-b")]
    axiom{} \rewrites{SortS{}}(
        \and{SortS{}}(a{}(), \top{SortS{}}()),
        \and{SortS{}}(c{}(), \top{SortS{}}())
    ) [label{}("a-to-c")]
"#;

const START_CASE_SPLIT: &str = r#"
    symbol start{}(SortS{}) : SortS{} [constructor{}()]
    symbol good{}() : SortS{} [constructor{}()]
    symbol bad{}() : SortS{} [constructor{}()]
    axiom{} \rewrites{SortS{}}(
        \and{SortS{}}(
            start{}(X:SortS{}),
            \equals{SortS{}, SortS{}}(X:SortS{}, a{}())
        ),
        good{}()
    ) [label{}("start-to-good")]
    axiom{} \rewrites{SortS{}}(
        \and{SortS{}}(
            start{}(X:SortS{}),
            \not{SortS{}}(
                \equals{SortS{}, SortS{}}(X:SortS{}, a{}())
            )
        ),
        bad{}()
    ) [label{}("start-to-bad")]
"#;

fn start_claim(mode: ReachabilityMode, destination: &str) -> String {
    let modality = match mode {
        ReachabilityMode::OnePath => "weakExistsFinally",
        ReachabilityMode::AllPath => "weakAlwaysFinally",
    };
    format!(
        r#"claim{{}} \implies{{SortS{{}}}}(
            \and{{SortS{{}}}}(start{{}}(X:SortS{{}}), \top{{SortS{{}}}}()),
            {modality}{{SortS{{}}}}(
                \and{{SortS{{}}}}({destination}{{}}(), \top{{SortS{{}}}}())
            )
        ) [label{{}}("case-split-{destination}")]"#
    )
}

#[test]
fn one_path_case_split_must_close_every_branch() {
    let claims = [
        start_claim(ReachabilityMode::OnePath, "good"),
        start_claim(ReachabilityMode::AllPath, "good"),
    ]
    .join("\n");
    let definition = proof_definition(START_CASE_SPLIT, &claims);
    let solver = FixedSolver {
        satisfiability: Satisfiability::Sat,
        validity: Validity::Indeterminate,
    };

    for claim in &definition.reachability_claims {
        let result = prove_claim(
            &definition,
            claim,
            ProofOptions {
                max_counterexamples: 2,
                ..ProofOptions::default()
            },
            &solver,
        )
        .expect("case-split claim should execute");

        assert_eq!(result.status, ProofStatus::Disproved, "{result:#?}");
        assert!(result.leaves.iter().any(|leaf| {
            leaf.outcome == ProofLeafOutcome::Stuck
                && leaf.pattern.term == term(&definition, "bad{}()")
        }));
    }
}

#[test]
fn one_path_applies_overlapping_rules_sequentially() {
    let claims = [
        modal_claim(ReachabilityMode::OnePath, "a", "b", false),
        modal_claim(ReachabilityMode::OnePath, "a", "c", false),
    ]
    .join("\n");
    let definition = proof_definition(A_TO_B_AND_C, &claims);

    let first = prove_claim(
        &definition,
        &definition.reachability_claims[0],
        ProofOptions::default(),
        &NoSolver,
    )
    .expect("first overlapping claim should execute");
    assert_eq!(first.status, ProofStatus::Proven, "{first:#?}");
    assert_eq!(first.explored_states, 2);
    assert!(matches!(
        first.leaves.as_slice(),
        [ProofLeaf { trace, .. }]
            if matches!(trace.as_slice(), [TraceEntry {
                kind: TraceKind::Rewrite,
                label: Some(label),
                ..
            }] if label == "a-to-b")
    ));

    let second = prove_claim(
        &definition,
        &definition.reachability_claims[1],
        ProofOptions::default(),
        &NoSolver,
    )
    .expect("second overlapping claim should execute");
    assert_eq!(second.status, ProofStatus::Disproved, "{second:#?}");
    assert!(second.leaves.iter().all(|leaf| {
        leaf.trace
            .iter()
            .all(|entry| entry.label.as_deref() != Some("a-to-c"))
    }));
}

#[test]
fn one_path_counterexample_limit_applies() {
    let rules = r#"
        symbol d{}() : SortS{} [constructor{}()]
        symbol e{}() : SortS{} [constructor{}()]
        symbol start{}(SortS{}) : SortS{} [constructor{}()]
        axiom{} \rewrites{SortS{}}(
            \and{SortS{}}(
                start{}(X:SortS{}),
                \equals{SortS{}, SortS{}}(X:SortS{}, a{}())
            ),
            b{}()
        ) [label{}("start-a")]
        axiom{} \rewrites{SortS{}}(
            \and{SortS{}}(
                start{}(X:SortS{}),
                \equals{SortS{}, SortS{}}(X:SortS{}, b{}())
            ),
            c{}()
        ) [label{}("start-b")]
        axiom{} \rewrites{SortS{}}(
            \and{SortS{}}(
                start{}(X:SortS{}),
                \and{SortS{}}(
                    \not{SortS{}}(
                        \equals{SortS{}, SortS{}}(X:SortS{}, a{}())
                    ),
                    \not{SortS{}}(
                        \equals{SortS{}, SortS{}}(X:SortS{}, b{}())
                    )
                )
            ),
            d{}()
        ) [label{}("start-other")]
    "#;
    let claims = start_claim(ReachabilityMode::OnePath, "e");
    let definition = proof_definition(rules, &claims);
    let solver = FixedSolver {
        satisfiability: Satisfiability::Sat,
        validity: Validity::Indeterminate,
    };

    let result = prove_claim(
        &definition,
        &definition.reachability_claims[0],
        ProofOptions {
            max_counterexamples: 2,
            ..ProofOptions::default()
        },
        &solver,
    )
    .expect("counterexample-limited claim should execute");

    assert_eq!(result.status, ProofStatus::Disproved, "{result:#?}");
    assert_eq!(result.leaves.len(), 2, "{result:#?}");
    assert_eq!(result.unexplored_states, 1, "{result:#?}");
}

const A_TO_A: &str = r#"
    axiom{} \rewrites{SortS{}}(
        \and{SortS{}}(a{}(), \top{SortS{}}()),
        \and{SortS{}}(a{}(), \top{SortS{}}())
    ) [label{}("a-loop")]
"#;

const A_TO_BOTTOM: &str = r#"
    axiom{} \rewrites{SortS{}}(
        \and{SortS{}}(a{}(), \top{SortS{}}()),
        \bottom{SortS{}}()
    ) [label{}("a-to-bottom")]
"#;

fn modal_claim(mode: ReachabilityMode, left: &str, right: &str, trusted: bool) -> String {
    let modality = match mode {
        ReachabilityMode::OnePath => "weakExistsFinally",
        ReachabilityMode::AllPath => "weakAlwaysFinally",
    };
    let trusted = if trusted {
        "trusted{}()"
    } else {
        "label{}(\"claim\")"
    };
    format!(
        r#"claim{{}} \implies{{SortS{{}}}}(
            \and{{SortS{{}}}}(\top{{SortS{{}}}}(), {left}{{}}()),
            {modality}{{SortS{{}}}}(
                \and{{SortS{{}}}}({right}{{}}(), \top{{SortS{{}}}}())
            )
        ) [{trusted}]"#
    )
}

#[test]
fn bottom_rewrites_are_vacuous_unless_allowed() {
    for mode in [ReachabilityMode::OnePath, ReachabilityMode::AllPath] {
        let claims = modal_claim(mode, "a", "b", false);
        let definition = proof_definition(A_TO_BOTTOM, &claims);
        let claim = &definition.reachability_claims[0];

        let rejected =
            prove_claim(&definition, claim, ProofOptions::default(), &NoSolver).unwrap();
        assert_eq!(rejected.status, ProofStatus::Disproved, "{rejected:#?}");
        assert!(matches!(
            rejected.leaves.as_slice(),
            [ProofLeaf {
                depth: 1,
                trace,
                outcome: ProofLeafOutcome::Trivial,
                ..
            }] if matches!(trace.as_slice(), [TraceEntry {
                depth: 1,
                kind: TraceKind::Rewrite,
                label: None,
                unique_id,
            }] if unique_id == "trivial")
        ));

        let allowed = prove_claim(
            &definition,
            claim,
            ProofOptions {
                allow_vacuous: true,
                ..ProofOptions::default()
            },
            &NoSolver,
        )
        .unwrap();
        assert_eq!(allowed.status, ProofStatus::Proven, "{allowed:#?}");
        assert!(matches!(
            allowed.leaves.as_slice(),
            [ProofLeaf {
                depth: 1,
                outcome: ProofLeafOutcome::Proven(ImplicationCondition {
                    predicates,
                    ..
                }),
                ..
            }] if predicates == &[Predicate::False]
        ));
    }
}

#[test]
fn trivial_sub_cases_of_a_mixed_group_refute_the_claim() {
    let rules = r#"
        axiom{} \rewrites{SortS{}}(
            \and{SortS{}}(a{}(), \top{SortS{}}()),
            \and{SortS{}}(b{}(), \bottom{SortS{}}())
        ) [label{}("a-to-bottom")]
        axiom{} \rewrites{SortS{}}(
            \and{SortS{}}(a{}(), \top{SortS{}}()),
            c{}()
        ) [label{}("a-to-c")]
    "#;
    let claims = modal_claim(ReachabilityMode::AllPath, "a", "c", false);
    let definition = proof_definition(rules, &claims);
    let claim = &definition.reachability_claims[0];

    let rejected = prove_claim(
        &definition,
        claim,
        ProofOptions {
            max_counterexamples: 2,
            ..ProofOptions::default()
        },
        &NoSolver,
    )
    .unwrap();
    assert_eq!(rejected.status, ProofStatus::Disproved, "{rejected:#?}");
    assert!(
        rejected.leaves.iter().any(|leaf| {
            leaf.depth == 1 && matches!(leaf.outcome, ProofLeafOutcome::Trivial)
        })
    );

    let allowed = prove_claim(
        &definition,
        claim,
        ProofOptions {
            allow_vacuous: true,
            max_counterexamples: 2,
            ..ProofOptions::default()
        },
        &NoSolver,
    )
    .unwrap();
    assert_eq!(allowed.status, ProofStatus::Proven, "{allowed:#?}");
}

#[test]
fn smt_unsat_state_after_a_step_is_vacuous() {
    let rules = r#"
        symbol opaque{}() : SortS{} [function{}()]
        axiom{} \rewrites{SortS{}}(
            \and{SortS{}}(
                a{}(),
                \equals{SortS{}, SortS{}}(opaque{}(), a{}())
            ),
            b{}()
        ) [label{}("a-to-b-under-opaque-condition")]
    "#;
    let claims = modal_claim(ReachabilityMode::AllPath, "a", "c", false);
    let definition = proof_definition(rules, &claims);
    let claim = &definition.reachability_claims[0];

    let rejected = prove_claim(
        &definition,
        claim,
        ProofOptions::default(),
        &NonemptyUnsatSolver,
    )
    .unwrap();
    assert_eq!(rejected.status, ProofStatus::Disproved, "{rejected:#?}");
    assert!(matches!(
        rejected.leaves.as_slice(),
        [ProofLeaf {
            depth: 1,
            outcome: ProofLeafOutcome::Vacuous,
            ..
        }]
    ));

    let allowed = prove_claim(
        &definition,
        claim,
        ProofOptions {
            allow_vacuous: true,
            ..ProofOptions::default()
        },
        &NonemptyUnsatSolver,
    )
    .unwrap();
    assert_eq!(allowed.status, ProofStatus::Proven, "{allowed:#?}");
    assert!(matches!(
        allowed.leaves.as_slice(),
        [ProofLeaf {
            depth: 1,
            outcome: ProofLeafOutcome::Proven(ImplicationCondition {
                predicates,
                ..
            }),
            ..
        }] if predicates == &[Predicate::False]
    ));
}

#[test]
fn inconsistent_antecedent_is_accepted_at_depth_zero_including_smt_unsat() {
    let claims = r#"
        claim{} \implies{SortS{}}(
            \and{SortS{}}(\bottom{SortS{}}(), a{}()),
            weakAlwaysFinally{SortS{}}(
                \and{SortS{}}(b{}(), \top{SortS{}}())
            )
        ) [label{}("false-antecedent")]
    "#;
    let syntactic_definition = proof_definition("", claims);
    let claim = &syntactic_definition.reachability_claims[0];

    let result = prove_claim(
        &syntactic_definition,
        claim,
        ProofOptions::default(),
        &NoSolver,
    )
    .unwrap();

    assert_eq!(result.status, ProofStatus::Proven);
    assert!(matches!(
        result.leaves.as_slice(),
        [ProofLeaf {
            outcome: ProofLeafOutcome::Proven(ImplicationCondition { predicates, .. }),
            ..
        }] if predicates == &[Predicate::False]
    ));

    let claims = r#"
        claim{} \implies{SortS{}}(
            \and{SortS{}}(
                a{}(),
                \equals{SortS{}, SortS{}}(opaque{}(), a{}())
            ),
            weakAlwaysFinally{SortS{}}(b{}())
        ) [label{}("smt-unsat-antecedent")]
    "#;
    let definition = proof_definition("symbol opaque{}() : SortS{} [function{}()]", claims);
    let result = prove_claim(
        &definition,
        &definition.reachability_claims[0],
        ProofOptions::default(),
        &NonemptyUnsatSolver,
    )
    .unwrap();

    assert_eq!(result.status, ProofStatus::Proven, "{result:#?}");
    assert!(matches!(
        result.leaves.as_slice(),
        [ProofLeaf {
            depth: 0,
            outcome: ProofLeafOutcome::Proven(ImplicationCondition {
                predicates,
                ..
            }),
            ..
        }] if predicates == &[Predicate::False]
    ));
}

#[test]
fn proves_direct_and_rewritten_reachability() {
    let claims = [
        modal_claim(ReachabilityMode::OnePath, "a", "a", false),
        modal_claim(ReachabilityMode::OnePath, "a", "b", false),
    ]
    .join("\n");
    let definition = proof_definition(A_TO_B, &claims);

    let direct = prove_claim(
        &definition,
        &definition.reachability_claims[0],
        ProofOptions::default(),
        &NoSolver,
    )
    .unwrap();
    let rewritten = prove_claim(
        &definition,
        &definition.reachability_claims[1],
        ProofOptions::default(),
        &NoSolver,
    )
    .unwrap();

    assert_eq!(direct.status, ProofStatus::Proven);
    assert_eq!(direct.leaves[0].depth, 0);
    assert_eq!(rewritten.status, ProofStatus::Proven);
    assert_eq!(rewritten.leaves[0].depth, 1);
}

fn optional_indeterminate_claims(
    extra_rules: &str,
    include_applicable_claim: bool,
) -> Fixture {
    let rules = format!(
        r#"
        symbol opaque{{}}() : SortS{{}} [function{{}}()]
        axiom{{}} \rewrites{{SortS{{}}}}(
            \and{{SortS{{}}}}(a{{}}(), \top{{SortS{{}}}}()),
            b{{}}()
        ) [label{{}}("a-to-b")]
        {extra_rules}
        "#
    );
    let applicable = if include_applicable_claim {
        r#"
        claim{} \implies{SortS{}}(
            \and{SortS{}}(b{}(), \top{SortS{}}()),
            weakAlwaysFinally{SortS{}}(c{}())
        ) [label{}("applicable-third"), trusted{}()]
        "#
    } else {
        ""
    };
    let claims = format!(
        r#"
        claim{{}} \implies{{SortS{{}}}}(
            \and{{SortS{{}}}}(a{{}}(), \top{{SortS{{}}}}()),
            weakAlwaysFinally{{SortS{{}}}}(c{{}}())
        ) [label{{}}("main")]
        claim{{}} \implies{{SortS{{}}}}(
            \and{{SortS{{}}}}(
                b{{}}(),
                \equals{{SortS{{}}, SortS{{}}}}(opaque{{}}(), a{{}}())
            ),
            weakAlwaysFinally{{SortS{{}}}}(c{{}}())
        ) [label{{}}("indeterminate-second"), trusted{{}}()]
        {applicable}
        "#
    );
    proof_definition(&rules, &claims)
}

#[test]
fn later_applicable_claim_wins_over_an_indeterminate_candidate() {
    let definition = optional_indeterminate_claims("", true);

    let result = prove_claim(
        &definition,
        &definition.reachability_claims[0],
        ProofOptions::default(),
        &NoSolver,
    )
    .unwrap();

    assert_eq!(result.status, ProofStatus::Proven, "{result:#?}");
    assert!(result.leaves.iter().any(|leaf| {
        leaf.trace.iter().any(|entry| {
            entry.kind == TraceKind::Claim
                && entry.label.as_deref() == Some("indeterminate-second")
        })
    }));
    assert!(result.leaves.iter().any(|leaf| {
        leaf.trace.iter().any(|entry| {
            entry.kind == TraceKind::Claim && entry.label.as_deref() == Some("applicable-third")
        })
    }));
}

#[test]
fn ordinary_rewriting_continues_past_an_indeterminate_claim() {
    let definition = optional_indeterminate_claims(
        r#"
        axiom{} \rewrites{SortS{}}(
            \and{SortS{}}(b{}(), \top{SortS{}}()),
            c{}()
        ) [label{}("b-to-c")]
        "#,
        false,
    );

    let result = prove_claim(
        &definition,
        &definition.reachability_claims[0],
        ProofOptions::default(),
        &NoSolver,
    )
    .unwrap();

    assert_eq!(result.status, ProofStatus::Proven, "{result:#?}");
    assert!(result.leaves.iter().any(|leaf| {
        leaf.trace
            .iter()
            .any(|entry| entry.label.as_deref() == Some("b-to-c"))
    }));
}

#[test]
fn undecidable_claim_requires_splits_covered_and_stuck_remainder() {
    let definition = optional_indeterminate_claims("", false);

    let result = prove_claim(
        &definition,
        &definition.reachability_claims[0],
        ProofOptions::default(),
        &NoSolver,
    )
    .unwrap();

    let requires = Predicate::Equals(
        term(&definition, "opaque{}()"),
        term(&definition, "a{}()"),
    );
    assert_eq!(result.status, ProofStatus::Disproved, "{result:#?}");
    assert!(result.leaves.iter().any(|leaf| {
        leaf.pattern.term == term(&definition, "c{}()")
            && leaf.pattern.constraints.contains(&requires)
            && matches!(leaf.outcome, ProofLeafOutcome::Proven(_))
            && leaf.trace.iter().any(|entry| {
                entry.kind == TraceKind::Claim
                    && entry.label.as_deref() == Some("indeterminate-second")
            })
    }));
    assert!(result.leaves.iter().any(|leaf| {
        leaf.pattern.term == term(&definition, "b{}()")
            && leaf
                .pattern
                .constraints
                .contains(&Predicate::Not(Box::new(requires.duplicate())))
            && matches!(leaf.outcome, ProofLeafOutcome::Stuck)
            && leaf
                .trace
                .iter()
                .any(|entry| entry.kind == TraceKind::Remainder)
    }));
    assert_eq!(result.explored_states, 4);
    assert_eq!(result.unexplored_states, 0);
}

#[test]
fn reports_stuck_and_depth_bounded_claims_separately() {
    let claims = modal_claim(ReachabilityMode::AllPath, "a", "b", false);
    let stuck_definition = proof_definition("", &claims);
    let bounded_definition = proof_definition(A_TO_B, &claims);

    let stuck = prove_claim(
        &stuck_definition,
        &stuck_definition.reachability_claims[0],
        ProofOptions::default(),
        &NoSolver,
    )
    .unwrap();
    let bounded = prove_claim(
        &bounded_definition,
        &bounded_definition.reachability_claims[0],
        ProofOptions {
            max_depth: 0,
            ..ProofOptions::default()
        },
        &NoSolver,
    )
    .unwrap();

    assert_eq!(stuck.status, ProofStatus::Disproved);
    assert_eq!(bounded.status, ProofStatus::DepthBound);
}

#[test]
fn discards_a_proof_step_that_exceeds_its_manual_timeout() {
    let claims = modal_claim(ReachabilityMode::OnePath, "a", "a", false);
    let definition = proof_definition("", &claims);

    let result = prove_in_time(
        &definition,
        &definition.reachability_claims[0],
        ProofOptions {
            step_timeout: Some(1),
            ..ProofOptions::default()
        },
        &SlowSolver,
    )
    .unwrap();

    assert_eq!(result.status, ProofStatus::Indeterminate);
    assert!(matches!(
        result.leaves.as_slice(),
        [ProofLeaf {
            outcome: ProofLeafOutcome::TimedOut(StepTimeoutMode::Manual(timeout)),
            ..
        }] if *timeout == 1
    ));
}

#[test]
fn interrupts_native_hook_evaluation_at_the_step_deadline() {
    let definition = fixture(
        r#"[]
        module MAIN
            hooked-sort SortInt{} [hook{}("INT.Int"), hasDomainValues{}()]
            sort SortState{} []
            hooked-symbol pow{}(SortInt{}, SortInt{}) : SortInt{}
                [function{}(), total{}(), hook{}("INT.pow")]
            symbol state{}(SortInt{}) : SortState{} [constructor{}()]
            symbol done{}() : SortState{} [constructor{}()]
            alias weakExistsFinally{S}(S) : S
                where weakExistsFinally{S}(@X:S) := @X:S []
            claim{} \implies{SortState{}}(
                \and{SortState{}}(
                    \top{SortState{}}(),
                    state{}(
                        pow{}(
                            \dv{SortInt{}}("2"),
                            \dv{SortInt{}}("10")
                        )
                    )
                ),
                weakExistsFinally{SortState{}}(
                    \and{SortState{}}(done{}(), \top{SortState{}}())
                )
            ) [label{}("native-hook-timeout")]
        endmodule []"#,
    );

    let result = prove_in_time(
        &definition,
        &definition.reachability_claims[0],
        ProofOptions {
            step_timeout: Some(0),
            ..ProofOptions::default()
        },
        &NoSolver,
    )
    .expect("timeout should be a proof outcome");

    assert_eq!(result.status, ProofStatus::Indeterminate);
    assert!(matches!(
        result.leaves.as_slice(),
        [ProofLeaf {
            outcome: ProofLeafOutcome::TimedOut(StepTimeoutMode::Manual(timeout)),
            ..
        }] if *timeout == 0
    ));
}

#[test]
fn accepts_trusted_claims_without_exploration() {
    let claims = modal_claim(ReachabilityMode::AllPath, "a", "b", true);
    let definition = proof_definition("", &claims);

    let result = prove_claim(
        &definition,
        &definition.reachability_claims[0],
        ProofOptions::default(),
        &NoSolver,
    )
    .unwrap();

    assert_eq!(result.status, ProofStatus::Proven);
    assert_eq!(result.explored_states, 0);
    assert!(matches!(
        result.leaves[0].outcome,
        ProofLeafOutcome::Trusted
    ));
}

#[test]
fn distinguishes_existential_and_universal_rewrite_paths() {
    let claims = [
        modal_claim(ReachabilityMode::OnePath, "a", "b", false),
        modal_claim(ReachabilityMode::AllPath, "a", "b", false),
    ]
    .join("\n");
    let definition = proof_definition(A_TO_B_AND_C, &claims);

    let one_path = prove_claim(
        &definition,
        &definition.reachability_claims[0],
        ProofOptions::default(),
        &NoSolver,
    )
    .unwrap();
    let all_path = prove_claim(
        &definition,
        &definition.reachability_claims[1],
        ProofOptions {
            max_counterexamples: 2,
            ..ProofOptions::default()
        },
        &NoSolver,
    )
    .unwrap();

    assert_eq!(one_path.status, ProofStatus::Proven);
    assert_eq!(one_path.explored_states, 2);
    assert!(one_path.leaves.iter().all(|leaf| {
        leaf.trace
            .iter()
            .all(|entry| entry.label.as_deref() != Some("a-to-c"))
    }));
    assert_eq!(all_path.status, ProofStatus::Disproved);
    assert_eq!(all_path.leaves.len(), 2);
    assert_eq!(all_path.unexplored_states, 0);
}

#[test]
fn limits_live_breadth_and_collected_counterexamples() {
    let claims = modal_claim(ReachabilityMode::AllPath, "a", "c", false);
    let definition = proof_definition(A_TO_B_AND_C, &claims);
    let claim = &definition.reachability_claims[0];

    let breadth_limited = prove_claim(
        &definition,
        claim,
        ProofOptions {
            breadth_limit: Some(1),
            ..ProofOptions::default()
        },
        &NoSolver,
    )
    .unwrap();
    assert_eq!(breadth_limited.status, ProofStatus::BreadthBound);
    assert_eq!(breadth_limited.explored_states, 1);
    assert_eq!(breadth_limited.unexplored_states, 2);
    assert_eq!(breadth_limited.leaves.len(), 2);
    assert!(
        breadth_limited
            .leaves
            .iter()
            .all(|leaf| matches!(leaf.outcome, ProofLeafOutcome::BreadthBound))
    );
    let mut frontier = breadth_limited
        .leaves
        .iter()
        .map(|leaf| symbol_name(&leaf.pattern.term))
        .collect::<Vec<_>>();
    frontier.sort();
    assert_eq!(frontier, ["b", "c"]);
    assert!(breadth_limited.leaves.iter().all(|leaf| {
        leaf.pattern.term == term(&definition, "b{}()")
            || leaf.pattern.term == term(&definition, "c{}()")
    }));

    let limited = prove_claim(&definition, claim, ProofOptions::default(), &NoSolver).unwrap();
    assert_eq!(limited.status, ProofStatus::Disproved);
    assert_eq!(limited.leaves.len(), 1);
    assert_eq!(limited.unexplored_states, 1);
}

#[test]
fn rejects_a_zero_counterexample_limit() {
    let claims = modal_claim(ReachabilityMode::AllPath, "a", "b", false);
    let definition = proof_definition("", &claims);
    assert_eq!(
        prove_claim(
            &definition,
            &definition.reachability_claims[0],
            ProofOptions {
                max_counterexamples: 0,
                ..ProofOptions::default()
            },
            &NoSolver,
        ),
        Err(ProofError::ZeroCounterexampleLimit)
    );
}

#[test]
fn supports_breadth_first_and_depth_first_proof_search() {
    let rules = r#"
        symbol d{}() : SortS{} [constructor{}()]
        axiom{} \rewrites{SortS{}}(
            \and{SortS{}}(a{}(), \top{SortS{}}()), b{}()
        ) [label{}("a-to-b")]
        axiom{} \rewrites{SortS{}}(
            \and{SortS{}}(a{}(), \top{SortS{}}()), d{}()
        ) [label{}("a-to-d")]
        axiom{} \rewrites{SortS{}}(
            \and{SortS{}}(b{}(), \top{SortS{}}()), c{}()
        ) [label{}("b-to-c")]
        axiom{} \rewrites{SortS{}}(
            \and{SortS{}}(d{}(), \top{SortS{}}()), c{}()
        ) [label{}("d-to-c")]
    "#;
    let claims = modal_claim(ReachabilityMode::AllPath, "a", "c", false);
    let definition = proof_definition(rules, &claims);
    let claim = &definition.reachability_claims[0];

    let breadth_first = prove_claim(
        &definition,
        claim,
        ProofOptions {
            search_order: ProofSearchOrder::BreadthFirst,
            ..ProofOptions::default()
        },
        &NoSolver,
    )
    .unwrap();
    let depth_first = prove_claim(
        &definition,
        claim,
        ProofOptions {
            search_order: ProofSearchOrder::DepthFirst,
            ..ProofOptions::default()
        },
        &NoSolver,
    )
    .unwrap();

    assert_eq!(breadth_first.status, ProofStatus::Proven);
    assert_eq!(depth_first.status, ProofStatus::Proven);
    assert_eq!(breadth_first.explored_states, 5);
    assert_eq!(depth_first.explored_states, 5);
    assert_ne!(breadth_first.leaves[0].trace, depth_first.leaves[0].trace);
}

#[test]
fn condition_stuck_check_can_be_disabled() {
    let claims = modal_claim(ReachabilityMode::OnePath, "a", "a", false);
    let mut definition = proof_definition(A_TO_B, &claims);
    definition.reachability_claims[0].rhs[0]
        .constraints
        .push(Predicate::False);

    let checked = prove_claim(
        &definition,
        &definition.reachability_claims[0],
        ProofOptions::default(),
        &NoSolver,
    )
    .unwrap();
    let unchecked = prove_claim(
        &definition,
        &definition.reachability_claims[0],
        ProofOptions {
            stuck_check: false,
            ..ProofOptions::default()
        },
        &NoSolver,
    )
    .unwrap();

    assert_eq!(checked.status, ProofStatus::Disproved);
    assert_eq!(checked.explored_states, 1);
    assert_eq!(checked.leaves[0].depth, 0);
    assert_eq!(unchecked.status, ProofStatus::Disproved);
    assert_eq!(unchecked.explored_states, 2);
    assert_eq!(unchecked.leaves[0].depth, 1);
}

#[test]
fn applies_guarded_claim_circularities_only_after_a_semantic_step() {
    let claims = modal_claim(ReachabilityMode::OnePath, "a", "b", false);
    let definition = proof_definition(A_TO_A, &claims);

    let result = prove_claim(
        &definition,
        &definition.reachability_claims[0],
        ProofOptions {
            max_depth: 3,
            ..ProofOptions::default()
        },
        &NoSolver,
    )
    .unwrap();

    assert_eq!(result.status, ProofStatus::Proven);
    assert_eq!(result.leaves[0].depth, 2);
    assert_eq!(
        result.leaves[0]
            .trace
            .iter()
            .map(|entry| entry.kind)
            .collect::<Vec<_>>(),
        vec![TraceKind::Rewrite, TraceKind::Claim]
    );
}


#[test]
fn partial_destination_remainders_respect_the_stuck_check() {
    let definition = proof_definition(
        r#"
        symbol start{}(SortS{}) : SortS{} [constructor{}()]
        symbol done{}(SortS{}) : SortS{} [constructor{}()]
        axiom{} \rewrites{SortS{}}(
            \and{SortS{}}(start{}(X:SortS{}), \top{SortS{}}()),
            done{}(X:SortS{})
        ) [label{}("step")]
        "#,
        r#"
        claim{} \implies{SortS{}}(
            \and{SortS{}}(start{}(X:SortS{}), \top{SortS{}}()),
            weakAlwaysFinally{SortS{}}(done{}(a{}()))
        ) [label{}("partial-destination")]
        "#,
    );

    let checked = prove_claim(
        &definition,
        &definition.reachability_claims[0],
        ProofOptions::default(),
        &NoSolver,
    )
    .expect("claim should execute");
    let unchecked = prove_claim(
        &definition,
        &definition.reachability_claims[0],
        ProofOptions {
            stuck_check: false,
            ..ProofOptions::default()
        },
        &NoSolver,
    )
    .expect("claim should execute without the stuck heuristic");

    assert_eq!(checked.status, ProofStatus::Disproved);
    assert_eq!(checked.leaves[0].depth, 1);
    assert!(matches!(checked.leaves[0].outcome, ProofLeafOutcome::Stuck));
    assert_eq!(unchecked.status, ProofStatus::Disproved);
    assert!(unchecked.leaves.iter().any(|leaf| {
        leaf.trace
            .iter()
            .any(|entry| entry.kind == TraceKind::Remainder)
            && leaf.pattern.constraints.iter().any(|predicate| {
                matches!(
                    predicate,
                    Predicate::Not(inner)
                        if matches!(inner.as_ref(), Predicate::Equals(..))
                )
            })
    }));
}

// Sessions

const BASE: &str = r#"
    []
    module BASE
        sort SortState{} [hasDomainValues{}()]
        symbol state{}(SortState{}) : SortState{} [constructor{}()]
        axiom{} \rewrites{SortState{}}(
            \and{SortState{}}(
                state{}(\dv{SortState{}}("a")), \top{SortState{}}()
            ),
            \and{SortState{}}(
                state{}(\dv{SortState{}}("d")), \top{SortState{}}()
            )
        ) [label{}("BASE.AD")]
    endmodule []
"#;

const ADDED: &str = r#"module NEW
        import BASE []
        axiom{} \rewrites{SortState{}}(
            \and{SortState{}}(
                state{}(\dv{SortState{}}("d")), \top{SortState{}}()
            ),
            \and{SortState{}}(
                state{}(\dv{SortState{}}("e")), \top{SortState{}}()
            )
        ) [label{}("NEW.DE")]
        axiom{} \rewrites{SortState{}}(
            \and{SortState{}}(
                state{}(\dv{SortState{}}("e")), \top{SortState{}}()
            ),
            \and{SortState{}}(
                state{}(\dv{SortState{}}("f")), \top{SortState{}}()
            )
        ) [label{}("NEW.EF")]
    endmodule []"#;

fn session(default_module: &str) -> BackendSession<Definition> {
    BackendSession::new(
        parse_definition(BASE),
        default_module,
    )
}

fn rule_count(definition: &Definition) -> usize {
    definition
        .rewrite_theory
        .entries
        .iter()
        .flat_map(|(_, groups)| groups)
        .map(|(_, rules)| rules.len())
        .sum()
}

struct Internalizer;

impl Compiler<Definition> for Internalizer {
    fn compile(
        &self,
        syntax: &KoreDefinition,
        module: &String,
    ) -> Result<Definition, DefinitionError> {
        internalize(syntax, module)
    }
}

#[test]
fn added_module_is_idempotent_selectable_and_does_not_change_the_default() {
    let module = parse_module(ADDED);
    let mut session = session("BASE");
    let default = session.definition(&Internalizer, None).unwrap();
    assert_eq!(rule_count(&default), 1);

    let id = session.add_module(&Internalizer, ADDED, parse_module(ADDED), true).unwrap();
    assert_eq!(
        id,
        "m662deaa65f16b563cbc774410183536650dc7bcf8f482a131b4fa8eedf5f4809"
    );
    assert_eq!(session.add_module(&Internalizer, ADDED, module, true).unwrap(), id);
    assert_eq!(rule_count(&session.definition(&Internalizer, Some("NEW")).unwrap()), 3);
    assert_eq!(rule_count(&session.definition(&Internalizer, Some(&id)).unwrap()), 3);
    assert_eq!(rule_count(&session.definition(&Internalizer, None).unwrap()), 1);
}

#[test]
fn selected_module_may_be_added_after_session_creation() {
    let mut session = session("NEW");
    session
        .add_module(&Internalizer, ADDED, parse_module(ADDED), true)
        .unwrap();
    assert_eq!(rule_count(&session.definition(&Internalizer, None).unwrap()), 3);
}

#[test]
fn a_module_named_like_the_default_leaves_the_default_as_it_is() {
    let mut session = session("BASE");
    let before = rule_count(&session.definition(&Internalizer, None).unwrap());
    let source = ADDED.replace("module NEW", "module BASE");
    session
        .add_module(&Internalizer, &source, parse_module(&source), true)
        .unwrap();
    assert_eq!(rule_count(&session.definition(&Internalizer, None).unwrap()), before);
    session
        .add_module(&Internalizer, ADDED, parse_module(ADDED), true)
        .unwrap();
    assert_eq!(rule_count(&session.definition(&Internalizer, None).unwrap()), before);
}

#[test]
fn an_identity_that_is_a_name_already_is_added_and_leaves_the_default_as_it_is() {
    let id = "m662deaa65f16b563cbc774410183536650dc7bcf8f482a131b4fa8eedf5f4809";
    let named = format!("module {id} import BASE [] endmodule []");
    for default in ["BASE", id] {
        let mut session = session(default);
        let other = session
            .add_module(&Internalizer, &named, parse_module(&named), true)
            .unwrap();
        assert_ne!(other, id);
        assert_eq!(rule_count(&session.definition(&Internalizer, None).unwrap()), 1);

        let added = session.add_module(&Internalizer, ADDED, parse_module(ADDED), true);
        assert_eq!(added.unwrap(), id);
        assert_eq!(rule_count(&session.definition(&Internalizer, None).unwrap()), 1);
        assert_eq!(rule_count(&session.definition(&Internalizer, Some(id)).unwrap()), 1);
        assert_eq!(rule_count(&session.definition(&Internalizer, Some("NEW")).unwrap()), 3);
    }
}

#[test]
fn an_identity_that_is_declared_already_is_added() {
    let id = "m662deaa65f16b563cbc774410183536650dc7bcf8f482a131b4fa8eedf5f4809";
    let syntax = format!("{BASE} module {id} import BASE [] endmodule []");
    let mut session: BackendSession<Definition> =
        BackendSession::new(parse_definition(&syntax), id);
    assert_eq!(rule_count(&session.definition(&Internalizer, None).unwrap()), 1);
    let added = session.add_module(&Internalizer, ADDED, parse_module(ADDED), true);
    assert_eq!(added.unwrap(), id);
    assert_eq!(rule_count(&session.definition(&Internalizer, None).unwrap()), 1);
}

#[test]
fn rejects_new_sorts_symbols_and_reused_source_names() {
    let mut session = session("BASE");
    let sort_source = "module SORTS sort SortNew{} [] endmodule []";
    assert_eq!(
        session
            .add_module(&Internalizer, sort_source, parse_module(sort_source), false)
            .unwrap_err(),
        SessionError::IntroducesSorts(vec!["SortNew".into()])
    );
    let symbol_source = "module SYMBOLS symbol new{}() : SortState{} [] endmodule []";
    assert_eq!(
        session
            .add_module(&Internalizer, symbol_source, parse_module(symbol_source), false)
            .unwrap_err(),
        SessionError::IntroducesSymbols(vec!["new".into()])
    );

    session
        .add_module(&Internalizer, ADDED, parse_module(ADDED), true)
        .unwrap();
    let replacement = ADDED.replace("NEW.DE", "NEW.REPLACEMENT");
    assert_eq!(
        session
            .add_module(&Internalizer, &replacement, parse_module(&replacement), true)
            .unwrap_err(),
        SessionError::DuplicateModuleName("NEW".into())
    );
}

#[test]
fn rewrites_imports_through_prior_name_aliases() {
    let mut session = session("BASE");
    session
        .add_module(&Internalizer, ADDED, parse_module(ADDED), true)
        .unwrap();
    let extension = r#"module EXTENSION
        import NEW []
        axiom{} \rewrites{SortState{}}(
            \and{SortState{}}(
                state{}(\dv{SortState{}}("f")), \top{SortState{}}()
            ),
            \and{SortState{}}(
                state{}(\dv{SortState{}}("g")), \top{SortState{}}()
            )
        ) [label{}("EXTENSION.FG")]
    endmodule []"#;
    session
        .add_module(&Internalizer, extension, parse_module(extension), true)
        .unwrap();

    assert_eq!(
        rule_count(&session.definition(&Internalizer, Some("EXTENSION")).unwrap()),
        4
    );
}

// Rules

fn classify(source: &str) -> Result<Option<ClassifiedAxiom>, AxiomError> {
    let KoreSentence::Axiom {
        parameters,
        pattern,
        attributes,
    } = Reader::new(source).sentence()
    else {
        panic!("expected an equation or a rewrite");
    };
    classify_axiom(
        "MAIN".into(),
        parameters,
        &pattern,
        &attributes,
    )
}

#[test]
fn classifies_rewrites_and_extracts_rhs_existentials() {
    let classified = classify(
        r#"axiom{} \rewrites{S{}}(
            \and{S{}}(lhs{}(X:S{}), \top{S{}}()),
            \exists{S{}}(Y:S{}, rhs{}(Y:S{}))
        ) [label{}("step"), priority{}("42")]"#,
    )
    .expect("axiom should classify")
    .expect("axiom should be executable");

    let ClassifiedAxiom::Rewrite {
        existentials,
        attributes,
        ..
    } = classified
    else {
        panic!("expected rewrite");
    };
    assert_eq!(existentials.len(), 1);
    assert_eq!(existentials[0].name, "Y");
    assert_eq!(attributes.priority, 42);
    assert_eq!(attributes.label.as_deref(), Some("step"));
    assert_eq!(attributes.unique_id, "step");
}

#[test]
fn classifies_function_argument_binders() {
    let classified = classify(
        r#"axiom{R} \implies{R}(
            \and{R}(
                \top{R}(),
                \and{R}(
                    \in{S{}, R}(X:S{}, arg{}()),
                    \top{R}()
                )
            ),
            \equals{S{}, R}(
                f{}(X:S{}),
                \and{S{}}(result{}(), \top{S{}}())
            )
        ) [concrete{}(X:S{})]"#,
    )
    .expect("axiom should classify")
    .expect("axiom should be executable");

    let ClassifiedAxiom::Function {
        binders,
        attributes,
        ..
    } = classified
    else {
        panic!("expected function equation");
    };
    assert_eq!(binders.len(), 1);
    assert_eq!(binders[0].variable.name, "X");
    assert_eq!(
        attributes.concreteness,
        Concreteness::Listed(vec![(
            ("X".to_owned(), "S".to_owned()),
            ConstraintKind::Concrete,
        )])
    );
}

#[test]
fn classifies_simplifications_with_the_reference_default_priority() {
    let classified = classify(
        r#"axiom{R} \implies{R}(
            \top{R}(),
            \equals{S{}, R}(f{}(X:S{}), \and{S{}}(X:S{}, \top{S{}}()))
        ) [simplification{}()]"#,
    )
    .expect("axiom should classify")
    .expect("axiom should be executable");

    let ClassifiedAxiom::Simplification { attributes, .. } = classified else {
        panic!("expected simplification");
    };
    assert!(attributes.simplification);
    assert_eq!(attributes.priority, 50);
}

#[test]
fn ignores_generated_constructor_axioms() {
    assert_eq!(
        classify(r#"axiom{} \or{S{}}(constructor{}(), \bottom{S{}}()) [constructor{}()]"#),
        Ok(None)
    );
}

#[test]
fn rejects_conflicting_priority_attributes() {
    assert_eq!(
        classify(
            r#"axiom{} \rewrites{S{}}(
                \and{S{}}(lhs{}(), \top{S{}}()), rhs{}()
            ) [priority{}("10"), owise{}()]"#
        ),
        Err(AxiomError::ConflictingPriorities(vec!["priority", "owise"]))
    );
}

// Steps

#[test]
fn rule_diagnostics_omit_term_alias_binders() {
    let sort = Sort::simple("SortS");
    let alias = Variable::new("Rule#Alias", sort.duplicate());
    let ordinary = Variable::new("Rule#Ordinary", sort.duplicate());
    let lhs = Term::application(
        Symbol::constructor(
            "pair",
            vec![sort.duplicate(), sort.duplicate()],
            sort.duplicate(),
        ),
        Vec::new(),
        vec![
            Term::and(
                Term::domain_value(sort.duplicate(), "value"),
                Term::variable(alias.duplicate()),
            ),
            Term::variable(ordinary.duplicate()),
        ],
    );

    assert_eq!(term_alias_variables(&lhs), vec![alias]);
    assert!(!term_alias_variables(&lhs).contains(&ordinary));
}

fn wrapping_definition(axioms: &str) -> Definition {
    let source = format!(
        r#"[]
        module MAIN
            sort SortS{{}} [hasDomainValues{{}}()]
            symbol wrap{{}}(SortS{{}}) : SortS{{}}
                [function{{}}(), total{{}}(), injective{{}}(), no-evaluators{{}}()]
            symbol injectiveFunction{{}}(SortS{{}}) : SortS{{}}
                [function{{}}(), total{{}}(), injective{{}}()]
            {axioms}
        endmodule []"#
    );
    internal(&source, "MAIN")
}

fn subject(definition: &Definition, value: &str) -> Pattern {
    pattern(
        definition,
        &format!(r#"wrap{{}}(\dv{{SortS{{}}}}("{value}"))"#),
    )
}

#[test]
fn got_stuck_selection_releases_and_suppresses_depth_bound_leaves_online() {
    let definition = wrapping_definition("");
    let leaf = |name, halt_reason| ExecutionLeaf {
        pattern: subject(&definition, name),
        depth: 1,
        trace: Vec::new(),
        branch: Vec::new(),
        observations: Vec::new(),
        halt_reason,
    };
    let mut selected = SelectedExecutionLeaves::default();

    selected.push(leaf("depth-before", HaltReason::DepthBound));
    assert_eq!(selected.retained().len(), 1);

    selected.push(leaf("stuck", HaltReason::Stuck));
    assert_eq!(selected.retained().len(), 1);
    assert_eq!(selected.retained()[0].halt_reason, HaltReason::Stuck);

    selected.push(leaf("depth-after", HaltReason::DepthBound));
    selected.push(leaf("cancelled", HaltReason::Cancelled));
    assert_eq!(selected.retained().len(), 2);
    assert_eq!(selected.retained()[0].halt_reason, HaltReason::Stuck);
    assert_eq!(selected.retained()[1].halt_reason, HaltReason::Cancelled);
}

#[test]
fn applies_the_canonically_first_same_priority_ceil_equation() {
    let definition = internal(
        r#"[]
        module MAIN
            sort SortS{} [hasDomainValues{}()]
            symbol f{}(SortS{}) : SortS{} [function{}()]
            axiom{R, Q} \implies{R}(
                \top{R}(),
                \equals{Q, R}(
                    \ceil{SortS{}, Q}(f{}(X:SortS{})),
                    \and{Q}(\top{Q}(), \top{Q}())
                )
            ) [label{}("ceil-first"), simplification{}()]
            axiom{R, Q} \implies{R}(
                \top{R}(),
                \equals{Q, R}(
                    \ceil{SortS{}, Q}(f{}(X:SortS{})),
                    \and{Q}(\bottom{Q}(), \top{Q}())
                )
            ) [label{}("ceil-second"), simplification{}()]
        endmodule []"#,
        "MAIN",
    );
    let predicate = Predicate::Ceil(term(&definition, r#"f{}(\dv{SortS{}}("value"))"#));
    assert_eq!(
        definition
            .ceil_theory
            .entries
            .iter()
            .flat_map(|(_, groups)| groups)
            .map(|(_, rules)| rules.len())
            .sum::<usize>(),
        2
    );

    let result = apply_ceil_theory(
        &Environment {
            definition: &definition,
            solver: &NoSolver,
        },
        1000,
        &predicate,
        &Scope {
            known: &Vec::new(),
            options: SimplificationOptions::default(),
            active: &Vec::new(),
        },
    )
    .expect("the first applicable ceil equation should win")
    .expect("the first ceil equation should apply");

    assert_eq!(result, Predicate::True);
}

// Errors of rules

#[test]
fn rewrites_need_a_conjunction_on_the_left() {
    assert_eq!(
        classify(r#"axiom{} \rewrites{S{}}(lhs{}(), rhs{}()) []"#),
        Err(AxiomError::UnsupportedAliasRewrite("lhs".into()))
    );
    assert_eq!(
        classify(r#"axiom{} \rewrites{S{}}(\top{S{}}(), rhs{}()) []"#),
        Err(AxiomError::MalformedRewrite)
    );
}

#[test]
fn malformed_equations_are_refused() {
    assert_eq!(
        classify(r#"axiom{R} \implies{R}(\top{R}(), \equals{S{}, R}(f{}(), g{}())) []"#),
        Err(AxiomError::MalformedEquation)
    );
    assert_eq!(
        classify(
            r#"axiom{R} \implies{R}(
                \and{R}(\top{R}(), \and{R}(\in{S{}, R}(g{}(), X:S{}), \top{R}())),
                \equals{S{}, R}(f{}(X:S{}), \and{S{}}(g{}(), \top{S{}}()))
            ) []"#
        ),
        Err(AxiomError::MalformedArgumentBinder)
    );
    assert_eq!(
        classify(r#"axiom{} \not{S{}}(f{}()) []"#),
        Err(AxiomError::Unexpected)
    );
}

#[test]
fn malformed_rule_attributes_are_refused() {
    let rewrite = r#"axiom{} \rewrites{S{}}(\and{S{}}(lhs{}(), \top{S{}}()), rhs{}())"#;
    let refusal = |attributes: &str| classify(&format!("{rewrite} [{attributes}]")).unwrap_err();

    assert_eq!(
        refusal(r#"priority{}("many")"#),
        AxiomError::InvalidPriority("many".into())
    );
    assert_eq!(
        refusal(r#"priority{}("256")"#),
        AxiomError::InvalidPriority("256".into())
    );
    assert_eq!(
        refusal(r#"label{}("a", "b")"#),
        AxiomError::MalformedAttribute("label".into())
    );
    assert_eq!(
        refusal(r#"concrete{}("X")"#),
        AxiomError::InvalidConcreteness("X".into())
    );
    assert_eq!(
        refusal(r#"concrete{}("X:S"), symbolic{}("X:S")"#),
        AxiomError::ConcretenessOverlap("X:S".into())
    );
    assert_eq!(
        refusal(r#"concrete{}(), symbolic{}("X:S")"#),
        AxiomError::ConcretenessOverlap("all concrete".into())
    );
}

fn refused(axioms: &str) -> DefinitionError {
    let source = format!(
        r#"[]
        module MAIN
            sort SortS{{}} []
            sort SortT{{}} []
            symbol a{{}}() : SortS{{}} [constructor{{}}()]
            symbol t{{}}() : SortT{{}} [constructor{{}}()]
            symbol f{{}}(SortS{{}}) : SortS{{}} [function{{}}()]
            {axioms}
        endmodule []"#
    );
    match internalize(&parse_definition(&source), "MAIN") {
        Err(error) => error,
        Ok(_) => panic!("the definition should be refused"),
    }
}

#[test]
fn malformed_rules_are_refused() {
    let rewrite = |lhs: &str| {
        format!(r#"axiom{{}} \rewrites{{SortS{{}}}}(\and{{SortS{{}}}}({lhs}), a{{}}()) []"#)
    };
    assert_eq!(
        refused(&rewrite(r#"\top{SortS{}}(), \top{SortS{}}()"#)),
        DefinitionError::RulePattern(RulePatternError::MissingTerm)
    );
    assert_eq!(
        refused(&rewrite(
            r#"a{}(), \not{SortS{}}(\rewrites{SortS{}}(a{}(), a{}()))"#
        )),
        DefinitionError::RulePattern(RulePatternError::UnsupportedPredicate("rewrites"))
    );
    assert_eq!(
        refused(
            r#"axiom{R} \implies{R}(
                \and{R}(\top{R}(), \and{R}(\in{SortS{}, R}(X:SortS{}, t{}()), \top{R}())),
                \equals{SortS{}, R}(
                    f{}(X:SortS{}),
                    \and{SortS{}}(a{}(), \top{SortS{}}())
                )
            ) []"#
        ),
        DefinitionError::RulePattern(RulePatternError::BinderSortMismatch(Variable::new(
            "X",
            Sort::simple("SortS")
        )))
    );
    assert_eq!(
        refused(r#"axiom{} \not{SortS{}}(a{}()) []"#),
        DefinitionError::MalformedAxiom(AxiomError::Unexpected)
    );
}

#[test]
fn malformed_terms_are_refused() {
    let definition = search_definition();
    let refusal = |source: &str| {
        definition
            .internalize_term(&parse_pattern(source), &Vec::new())
            .unwrap_err()
    };
    assert_eq!(
        refusal("missing{}()"),
        DefinitionError::UnknownSymbol("missing".into())
    );
    assert_eq!(
        refusal("X:SortMissing{}"),
        DefinitionError::UnknownSort("SortMissing".into())
    );
    assert_eq!(
        refusal("X:S"),
        DefinitionError::UnknownSortVariable("S".into())
    );
    assert_eq!(
        refusal("initial{}(X:SortS{})"),
        DefinitionError::ArgumentCount {
            symbol: "initial".into(),
            expected: 0,
            found: 1,
        }
    );
    assert_eq!(refusal(r#""text""#), DefinitionError::UnsupportedTerm("string"));
    assert_eq!(
        refusal(r#"\not{SortS{}}(initial{}())"#),
        DefinitionError::UnsupportedTerm("predicate")
    );
}

#[test]
fn sessions_report_refused_definitions() {
    let mut session = session("MISSING");
    assert_eq!(
        session.definition(&Internalizer, None).err(),
        Some(SessionError::Definition(DefinitionError::UnknownModule(
            "MISSING".into()
        )))
    );
    let source = "module EXTENSION import MISSING [] endmodule []";
    assert_eq!(
        session
            .add_module(&Internalizer, source, parse_module(source), false)
            .unwrap_err(),
        SessionError::Definition(DefinitionError::UnknownModule("MISSING".into()))
    );
    assert_eq!(session.default_module(), "MISSING");
}

// Theories

#[test]
fn rules_stay_in_the_order_of_their_insertion() {
    let definition = search_definition();
    let index = TermIndex::Symbol("initial".into());
    let (_, groups) = definition
        .rewrite_theory
        .entries
        .iter()
        .find(|(key, _)| *key == index)
        .expect("rules for the initial state");
    let labels = groups
        .iter()
        .map(|(priority, rules)| {
            let labels = rules.iter().map(|rule| rule.attributes.unique_id.as_str());
            (*priority, labels.collect::<Vec<_>>())
        })
        .collect::<Vec<_>>();

    assert_eq!(labels, vec![(50, vec!["initial-next1", "initial-next2"])]);
}

// Executions

fn execution_options(max_depth: u64) -> ExecutionOptions {
    ExecutionOptions {
        max_depth,
        branch_mode: ExecutionBranchMode::ExploreAll,
        ..ExecutionOptions::default()
    }
}

fn leaf_names(result: &ExecutionResult) -> Vec<(String, u64)> {
    result
        .leaves
        .iter()
        .map(|leaf| (symbol_name(&leaf.pattern.term), leaf.depth))
        .collect()
}

#[test]
fn executions_end_in_stuck_leaves() {
    let definition = search_definition();
    let result = execute(&definition, initial(&definition), &execution_options(10));

    assert_eq!(
        leaf_names(&result),
        vec![("final1".to_owned(), 2), ("final2".to_owned(), 2)]
    );
    for leaf in &result.leaves {
        assert_eq!(leaf.halt_reason, HaltReason::Stuck);
        let steps = leaf.trace.iter().filter(|entry| entry.kind == TraceKind::Rewrite);
        assert_eq!(steps.count() as u64, leaf.depth);
    }
}

#[test]
fn executions_stop_at_their_bounds() {
    let definition = search_definition();
    let bounded = execute(&definition, initial(&definition), &execution_options(1));
    assert_eq!(
        leaf_names(&bounded),
        vec![("next1".to_owned(), 1), ("next2".to_owned(), 1)]
    );
    assert!(bounded
        .leaves
        .iter()
        .all(|leaf| leaf.halt_reason == HaltReason::DepthBound));

    let narrow = execute(
        &definition,
        initial(&definition),
        &ExecutionOptions {
            max_breadth: Some(1),
            ..execution_options(10)
        },
    );
    assert!(narrow
        .leaves
        .iter()
        .all(|leaf| leaf.halt_reason == HaltReason::BreadthBound));
}

#[test]
fn executions_stop_at_branches_and_at_named_rules() {
    let definition = search_definition();
    let stopped = execute(
        &definition,
        initial(&definition),
        &ExecutionOptions {
            branch_mode: ExecutionBranchMode::StopAtBranch,
            ..execution_options(10)
        },
    );
    assert!(matches!(
        stopped.leaves.as_slice(),
        [ExecutionLeaf { halt_reason: HaltReason::Branch { branches, remainder: None }, depth: 0, .. }]
            if branches.len() == 2
    ));

    let terminal = execute(
        &definition,
        pattern(&definition, "next1{}()"),
        &ExecutionOptions {
            terminal_rules: vec!["next1-final1".into()],
            ..execution_options(10)
        },
    );
    assert!(matches!(
        terminal.leaves.as_slice(),
        [ExecutionLeaf { halt_reason: HaltReason::TerminalRule { rule }, depth: 1, .. }]
            if rule == "next1-final1"
    ));

    let cut = execute(
        &definition,
        pattern(&definition, "next1{}()"),
        &ExecutionOptions {
            cut_point_rules: vec!["next1-final1".into()],
            ..execution_options(10)
        },
    );
    assert!(matches!(
        cut.leaves.as_slice(),
        [ExecutionLeaf { halt_reason: HaltReason::CutPointRule { rule, next_states }, depth: 0, .. }]
            if rule == "next1-final1" && next_states.len() == 1
    ));
}

#[test]
fn refuted_patterns_are_vacuous_and_others_stuck() {
    let definition = search_definition();
    let step = |source: &str| rewrite_step(&definition, &pattern(&definition, source), &mut 0);

    assert!(matches!(
        step(r#"\and{SortS{}}(initial{}(), \bottom{SortS{}}())"#),
        RewriteResult::Vacuous(_)
    ));
    assert!(matches!(step("final1{}()"), RewriteResult::Stuck(_)));
    assert!(matches!(
        step("next1{}()"),
        RewriteResult::Finished(applied) if applied.unique_id == "next1-final1"
            && applied.pattern.term == term(&definition, "final1{}()")
    ));
    assert!(matches!(
        step("initial{}()"),
        RewriteResult::Branch { branches, remainder: None, trivial, .. }
            if branches.len() == 2 && trivial.is_empty()
    ));
}

#[test]
fn equal_leaves_are_merged_but_for_bottom_leaves() {
    let definition = search_definition();
    let leaf = |source: &str, halt_reason| ExecutionLeaf {
        pattern: pattern(&definition, source),
        depth: 1,
        trace: Vec::new(),
        branch: Vec::new(),
        observations: Vec::new(),
        halt_reason,
    };
    let merged = merge_equal_final_leaves(vec![
        leaf("final1{}()", HaltReason::Stuck),
        leaf("final1{}()", HaltReason::DepthBound),
        leaf("final1{}()", HaltReason::Vacuous),
        leaf("final1{}()", HaltReason::Vacuous),
        leaf("final2{}()", HaltReason::Stuck),
    ]);
    let reasons = merged.iter().map(|leaf| &leaf.halt_reason).collect::<Vec<_>>();

    assert_eq!(
        reasons,
        vec![
            &HaltReason::Stuck,
            &HaltReason::Vacuous,
            &HaltReason::Vacuous,
            &HaltReason::Stuck,
        ]
    );
}

fn interrupted(
    definition: &Definition,
    options: &ExecutionOptions,
    interruption: Interruption,
) -> ExecutionResult {
    let config = ExecutionConfig {
        definition,
        solver: &NoSolver,
        options,
        observation: None,
    };
    let mut machine = Machine::new(&config, vec![initial(definition)]);
    while machine.is_waiting() {
        machine = machine.advance(&config);
    }
    machine = machine.interrupt(interruption);
    while !machine.is_finished() {
        machine = machine.advance(&config);
    }
    machine.into_result().0
}

#[test]
fn machines_stop_when_they_are_interrupted() {
    let definition = search_definition();
    let options = execution_options(10);
    for (interruption, reason) in [
        (Interruption::Cancelled, HaltReason::Cancelled),
        (
            Interruption::TimedOut(StepTimeoutMode::Manual(3)),
            HaltReason::Timeout(StepTimeoutMode::Manual(3)),
        ),
    ] {
        let result = interrupted(&definition, &options, interruption);
        assert!(result.leaves.iter().any(|leaf| leaf.halt_reason == reason));
    }
}

// Proofs under a refused implication

struct Refusing;

impl<S: SmtSolver> ImplicationChecker<Syntactic, S> for Refusing {
    fn check_disjunctive_implication_with_existentials(
        &self,
        _definition: &Definition,
        _antecedent: &Pattern,
        _consequents: &Vec<Pattern>,
        _existentials: &Vec<Variable>,
        _options: SimplificationOptions,
        _solver: &S,
    ) -> Result<Implication, ImplicationError> {
        Err(ImplicationError::Simplification(SimplificationError::Cancelled))
    }
}

#[test]
fn a_refused_implication_ends_the_proof() {
    let claims = modal_claim(ReachabilityMode::AllPath, "a", "b", false);
    let definition = proof_definition(A_TO_B, &claims);
    let result = k_rust_backend::reach::prove_claim(
        &definition,
        &definition.reachability_claims[0],
        &Vec::new(),
        ProofOptions::default(),
        &NoSolver,
        &Refusing,
    );

    assert_eq!(
        result,
        Err(ProofError::Implication(ImplicationError::Simplification(
            SimplificationError::Cancelled
        )))
    );
}

// Names

#[test]
fn existentials_keep_their_names_or_are_counted_up() {
    let definition = internal(
        r#"[]
        module MAIN
            sort SortS{} []
            symbol one{}(SortS{}) : SortS{} [constructor{}()]
            symbol two{}(SortS{}, SortS{}) : SortS{} [constructor{}()]
            axiom{} \rewrites{SortS{}}(
                \and{SortS{}}(one{}(X:SortS{}), \top{SortS{}}()),
                \exists{SortS{}}(Y:SortS{}, two{}(X:SortS{}, Y:SortS{}))
            ) [label{}("new")]
        endmodule []"#,
        "MAIN",
    );
    let successor = |source: &str| {
        match rewrite_step(&definition, &pattern(&definition, source), &mut 0) {
            RewriteResult::Finished(applied) => applied.pattern.term,
            other => panic!("expected one successor, found {other:?}"),
        }
    };

    assert_eq!(
        successor("one{}(Z:SortS{})"),
        term(&definition, "two{}(Z:SortS{}, Y:SortS{})")
    );
    assert_eq!(
        successor("one{}(Y:SortS{})"),
        term(&definition, "two{}(Y:SortS{}, Y0:SortS{})")
    );
    assert_eq!(
        successor("one{}(two{}(Y:SortS{}, Y0:SortS{}))"),
        term(&definition, "two{}(two{}(Y:SortS{}, Y0:SortS{}), Y1:SortS{})")
    );
}

#[test]
fn fresh_names_are_not_in_use() {
    let variable = Variable::new("X", Sort::simple("SortS"));
    let mut avoided = vec!["X".to_owned()];
    let mut counter = 0;
    let first = fresh_variable(&variable, &mut avoided, &mut counter);
    let second = fresh_variable(&variable, &mut avoided, &mut counter);

    assert_ne!(first.name, "X");
    assert_ne!(first.name, second.name);
    assert_eq!(first.sort, variable.sort);
    assert!(avoided.contains(&first.name) && avoided.contains(&second.name));
}

// Observed executions

#[test]
fn observed_executions_report_their_transitions() {
    let definition = search_definition();
    let all = execute_observed(
        &definition,
        pattern(&definition, "next1{}()"),
        &execution_options(10),
        &ObservationOptions { rules: None },
    );
    assert_eq!(all.leaves[0].branch.len(), 1);
    assert_eq!(all.leaves[0].branch[0].rule, "next1-final1");
    assert!(all.leaves[0].observations.iter().any(|event| {
        matches!(event, ObservationEvent::Applied { applied, .. }
            if applied.unique_id == "next1-final1")
    }));

    let none = execute_observed(
        &definition,
        pattern(&definition, "next1{}()"),
        &execution_options(10),
        &ObservationOptions {
            rules: Some(Vec::new()),
        },
    );
    assert!(none.leaves[0].observations.iter().all(|event| {
        !matches!(event, ObservationEvent::Applied { .. })
    }));
}

#[test]
fn a_refuted_input_is_reported_as_bottom() {
    let definition = search_definition();
    let refuted = r#"\and{SortS{}}(initial{}(), \bottom{SortS{}}())"#;
    let mut effects = Vec::new();
    let (_, status) = execute_disjunction_with_solver_and_observer_with_initial_status(
        &definition,
        vec![pattern(&definition, refuted)],
        &execution_options(10),
        &NoSolver,
        &mut effects,
    );
    assert!(status.simplified_to_bottom());

    let (_, status) = execute_disjunction_with_solver_and_observer_with_initial_status(
        &definition,
        vec![pattern(&definition, refuted), initial(&definition)],
        &execution_options(10),
        &NoSolver,
        &mut effects,
    );
    assert!(!status.simplified_to_bottom());
}

// Simplification

#[test]
fn equations_simplify_terms_and_predicates() {
    let definition = internal(
        r#"[]
        module MAIN
            sort SortS{} []
            symbol a{}() : SortS{} [constructor{}()]
            symbol b{}() : SortS{} [constructor{}()]
            symbol f{}(SortS{}) : SortS{} [function{}(), total{}()]
            axiom{R} \implies{R}(
                \top{R}(),
                \equals{SortS{}, R}(f{}(X:SortS{}), \and{SortS{}}(X:SortS{}, \top{SortS{}}()))
            ) [label{}("identity"), simplification{}()]
        endmodule []"#,
        "MAIN",
    );
    let applied = term(&definition, "f{}(f{}(a{}()))");
    let result = simplify(&definition, &applied, SimplificationOptions::default()).unwrap();
    assert_eq!(result.term, term(&definition, "a{}()"));
    assert_eq!(result.applied_rules, vec!["identity".to_owned(); 2]);
    assert_eq!(result.exhausted, None);

    let simplified = |left: &str, right: &str| {
        simplify_and_decide_predicate_with_solver(
            &definition,
            &Predicate::Equals(term(&definition, left), term(&definition, right)),
            &Vec::new(),
            SimplificationOptions::default(),
            &NoSolver,
        )
        .unwrap()
    };
    assert_eq!(simplified("f{}(a{}())", "a{}()"), Predicate::True);
    assert_eq!(simplified("f{}(a{}())", "b{}()"), Predicate::False);

    let pattern = simplify_pattern_with_solver(
        &definition,
        &pattern(
            &definition,
            r#"\and{SortS{}}(
                f{}(X:SortS{}),
                \not{SortS{}}(\equals{SortS{}, SortS{}}(X:SortS{}, f{}(a{}())))
            )"#,
        ),
        SimplificationOptions::default(),
        &NoSolver,
    )
    .unwrap();
    assert_eq!(pattern.term, term(&definition, "X:SortS{}"));
    assert_eq!(
        pattern.constraints,
        vec![Predicate::Not(Box::new(Predicate::Equals(
            term(&definition, "X:SortS{}"),
            term(&definition, "a{}()"),
        )))]
    );
}
