use k_rust_backend::predicate::Predicate;
use k_rust_backend::sexpr::{SExpr, SmtType};
use k_rust_backend::sexpr_text::SExprError;
use k_rust_backend::smt::{fill_placeholders, TranslationError, TranslationState};
use k_rust_backend::term::{
    FunctionType, Sort, Symbol, SymbolAttributes, SymbolType, Term, Variable,
};

fn symbol(name: &str, smt: Option<SmtType>, arguments: Vec<Sort>, result: Sort) -> Symbol {
    Symbol {
        name: name.into(),
        sort_variables: Vec::new(),
        argument_sorts: arguments,
        result_sort: result,
        attributes: SymbolAttributes {
            symbol_type: SymbolType::Function(FunctionType::Total),
            associative: false,
            idempotent: false,
            injective: false,
            macro_or_alias: false,
            has_evaluators: true,
            smt,
            hook: None,
            collection: None,
        },
    }
}

fn integer(value: &str) -> Term {
    Term::domain_value(Sort::simple("SortInt"), value)
}

#[test]
fn parses_and_renders_nested_s_expressions() {
    let source = "(ite (< #1 0) (- 0 #1) #1)";
    assert_eq!(SExpr::parse(source).unwrap().to_string(), source);
    assert!(matches!(
        SExpr::parse("(+ #1 #2) trailing"),
        Err(SExprError::TrailingInput(_))
    ));
}

#[test]
fn expands_smt_hook_placeholders_recursively() {
    let int = Sort::simple("SortInt");
    let absolute = Term::application(
        symbol(
            "absolute",
            Some(SmtType::Hook(
                SExpr::parse("(ite (< #1 0) (- 0 #1) #1)").unwrap(),
            )),
            vec![Sort::simple("SortInt")],
            int,
        ),
        Vec::new(),
        vec![integer("-5")],
    );

    assert_eq!(
        TranslationState::new()
            .translate_term(&absolute)
            .unwrap()
            .to_string(),
        "(ite (< -5 0) (- 0 -5) -5)"
    );
}

#[test]
fn abstracts_uninterpreted_terms_stably_and_preserves_their_sorts() {
    let variable = || Term::variable(Variable::new("X", Sort::simple("SortInt")));
    let predicate = Predicate::Equals(variable(), variable());
    let mut translation = TranslationState::new();

    assert_eq!(
        translation
            .translate_predicate(&predicate)
            .unwrap()
            .to_string(),
        "(= SMT-1 SMT-1)"
    );
    assert_eq!(translation.mapping(&variable()), Some(&"SMT-1".to_string()));
    assert_eq!(variable().sort(), Sort::simple("SortInt"));
}

#[test]
fn rejects_out_of_range_placeholders() {
    assert_eq!(
        fill_placeholders(&SExpr::atom("#2"), &vec![SExpr::atom("one")]),
        Err(TranslationError::PlaceholderOutOfBounds {
            placeholder: 2,
            arguments: 1,
        })
    );
}

#[test]
fn texts_that_are_no_s_expressions_are_refused() {
    assert_eq!(SExpr::parse("  "), Err(SExprError::UnexpectedEnd));
    assert_eq!(SExpr::parse(" )"), Err(SExprError::UnexpectedClose(1)));
    assert_eq!(SExpr::parse("(+ 1"), Err(SExprError::UnterminatedList(0)));
    assert_eq!(SExpr::parse("a b"), Err(SExprError::TrailingInput(2)));
    assert_eq!(SExpr::parse(";"), Err(SExprError::EmptyAtom(0)));
}

#[test]
fn rendered_s_expressions_parse_back() {
    let expression = SExpr::list(vec![
        SExpr::atom("and"),
        SExpr::list(vec![SExpr::atom("="), SExpr::atom("x"), SExpr::atom("1")]),
        SExpr::list(Vec::new()),
    ]);
    assert_eq!(expression.to_string(), "(and (= x 1) ())");
    assert_eq!(SExpr::parse("(and (= x 1) ())"), Ok(expression));
}

#[test]
fn white_space_is_that_of_unicode() {
    for code in 0..=0x10ffff_u32 {
        if let Some(character) = char::from_u32(code) {
            let text = format!("a{character}b");
            let parsed = SExpr::parse(&text);
            if character.is_whitespace() {
                assert!(matches!(parsed, Err(SExprError::TrailingInput(_))), "{code:x}");
            } else if !matches!(character, '(' | ')' | ';') {
                assert_eq!(parsed, Ok(SExpr::atom(&text)), "{code:x}");
            }
        }
    }
}

#[test]
fn abstractions_are_numbered_in_order_and_kept() {
    let variable = |name: &str| Term::variable(Variable::new(name, Sort::simple("SortInt")));
    let mut translation = TranslationState::new();
    let mut translated = |name: &str| {
        translation
            .translate_term(&variable(name))
            .unwrap()
            .to_string()
    };

    assert_eq!(translated("X"), "SMT-1");
    assert_eq!(translated("Y"), "SMT-2");
    assert_eq!(translated("X"), "SMT-1");
}

#[test]
fn predicates_translate_to_connectives() {
    let variable = |name: &str| Term::variable(Variable::new(name, Sort::simple("SortInt")));
    let equality = || Predicate::Equals(variable("X"), integer("1"));
    let mut translation = TranslationState::new();
    let mut translated = |predicate: &Predicate| {
        translation
            .translate_predicate(predicate)
            .map(|expression| expression.to_string())
    };

    assert_eq!(
        translated(&Predicate::Not(Box::new(equality()))),
        Ok("(not (= SMT-1 1))".to_owned())
    );
    assert_eq!(translated(&Predicate::True), Ok("true".to_owned()));
    assert_eq!(translated(&Predicate::False), Ok("false".to_owned()));
    assert!(matches!(
        translated(&Predicate::Ceil(variable("X"))),
        Err(TranslationError::UnsupportedPredicate(_))
    ));
    assert!(matches!(
        translated(&Predicate::Term(Term::and(variable("X"), variable("Y")))),
        Err(TranslationError::NonBooleanAnd(_))
    ));
}
