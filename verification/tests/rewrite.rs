use k_rust_backend::index::extend_unique;
use k_rust_backend::model::Value;
use k_rust_backend::predicate::Predicate;
use k_rust_backend::term::{Sort, Term, Variable};

#[test]
fn large_unique_extensions_preserve_first_occurrence_order() {
    let mut predicates = (0..20)
        .map(|index| {
            Predicate::Equals(
                Term::variable(Variable::new(&format!("X{index}"), Sort::simple("SortS"))),
                Term::domain_value(Sort::simple("SortS"), &index.to_string()),
            )
        })
        .collect::<Vec<_>>();
    let original = predicates.duplicate();

    extend_unique(
        &mut predicates,
        vec![original[19].duplicate(), Predicate::True, original[0].duplicate()],
    );

    assert_eq!(&predicates[..20], original);
    assert_eq!(predicates[20], Predicate::True);
}
