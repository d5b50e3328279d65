//! The shapes of the axioms that the frontend writes.

use vstd::prelude::*;
use crate::attributes::{has_attribute, is_marked, rule_attributes_of, AxiomError, AxiomErrorV};
use crate::kernel::result_view;
use crate::kore::{
    lemma_kore_view, KoreAttributes, KoreAttributesV, KorePattern, KorePatternV, KoreVariable,
    KoreVariableV,
};
use crate::model::{deep, group_deep, Value};
use crate::rule::{RuleAttributes, RuleAttributesV};
use crate::text::is_text;

verus! {

broadcast use group_deep;

/// An argument of a function and the pattern that it stands for.
#[derive(Debug, PartialEq, Eq)]
pub struct ArgumentBinder {
    pub variable: KoreVariable,
    pub pattern: KorePattern,
}

/// The view of [`ArgumentBinder`].
pub struct ArgumentBinderV {
    pub variable: KoreVariableV,
    pub pattern: KorePatternV,
}

impl View for ArgumentBinder {
    type V = ArgumentBinderV;

    open spec fn view(&self) -> ArgumentBinderV {
        ArgumentBinderV {
            variable: self.variable@,
            pattern: self.pattern@,
        }
    }
}

impl DeepView for ArgumentBinder {
    type V = ArgumentBinderV;

    open spec fn deep_view(&self) -> ArgumentBinderV {
        self@
    }
}

impl Value for ArgumentBinder {
    fn duplicate(&self) -> (copy: Self) {
        ArgumentBinder {
            variable: self.variable.duplicate(),
            pattern: self.pattern.duplicate(),
        }
    }

    fn equals(&self, other: &Self) -> (same: bool) {
        self.variable.equals(&other.variable)
            && self.pattern.equals(&other.pattern)
    }
}

/// An axiom that is a rule.
#[derive(Debug, PartialEq, Eq)]
pub enum ClassifiedAxiom {
    Rewrite {
        module: String,
        sort_parameters: Vec<String>,
        lhs: KorePattern,
        rhs: KorePattern,
        existentials: Vec<KoreVariable>,
        attributes: RuleAttributes,
    },
    Function {
        module: String,
        sort_parameters: Vec<String>,
        condition: KorePattern,
        binders: Vec<ArgumentBinder>,
        lhs: KorePattern,
        rhs: KorePattern,
        attributes: RuleAttributes,
    },
    Simplification {
        module: String,
        sort_parameters: Vec<String>,
        condition: KorePattern,
        lhs: KorePattern,
        rhs: KorePattern,
        attributes: RuleAttributes,
    },
    Ceil {
        module: String,
        sort_parameters: Vec<String>,
        lhs: KorePattern,
        rhs: KorePattern,
        attributes: RuleAttributes,
    },
}

/// The view of [`ClassifiedAxiom`].
pub enum ClassifiedAxiomV {
    Rewrite {
        module: Seq<char>,
        sort_parameters: Seq<Seq<char>>,
        lhs: KorePatternV,
        rhs: KorePatternV,
        existentials: Seq<KoreVariableV>,
        attributes: RuleAttributesV,
    },
    Function {
        module: Seq<char>,
        sort_parameters: Seq<Seq<char>>,
        condition: KorePatternV,
        binders: Seq<ArgumentBinderV>,
        lhs: KorePatternV,
        rhs: KorePatternV,
        attributes: RuleAttributesV,
    },
    Simplification {
        module: Seq<char>,
        sort_parameters: Seq<Seq<char>>,
        condition: KorePatternV,
        lhs: KorePatternV,
        rhs: KorePatternV,
        attributes: RuleAttributesV,
    },
    Ceil {
        module: Seq<char>,
        sort_parameters: Seq<Seq<char>>,
        lhs: KorePatternV,
        rhs: KorePatternV,
        attributes: RuleAttributesV,
    },
}

impl View for ClassifiedAxiom {
    type V = ClassifiedAxiomV;

    open spec fn view(&self) -> ClassifiedAxiomV {
        match self {
            ClassifiedAxiom::Rewrite {
                module,
                sort_parameters,
                lhs,
                rhs,
                existentials,
                attributes,
            } => ClassifiedAxiomV::Rewrite {
                module: module@,
                sort_parameters: deep(sort_parameters@),
                lhs: lhs@,
                rhs: rhs@,
                existentials: deep(existentials@),
                attributes: attributes@,
            },
            ClassifiedAxiom::Function {
                module,
                sort_parameters,
                condition,
                binders,
                lhs,
                rhs,
                attributes,
            } => ClassifiedAxiomV::Function {
                module: module@,
                sort_parameters: deep(sort_parameters@),
                condition: condition@,
                binders: deep(binders@),
                lhs: lhs@,
                rhs: rhs@,
                attributes: attributes@,
            },
            ClassifiedAxiom::Simplification {
                module,
                sort_parameters,
                condition,
                lhs,
                rhs,
                attributes,
            } => ClassifiedAxiomV::Simplification {
                module: module@,
                sort_parameters: deep(sort_parameters@),
                condition: condition@,
                lhs: lhs@,
                rhs: rhs@,
                attributes: attributes@,
            },
            ClassifiedAxiom::Ceil {
                module,
                sort_parameters,
                lhs,
                rhs,
                attributes,
            } => ClassifiedAxiomV::Ceil {
                module: module@,
                sort_parameters: deep(sort_parameters@),
                lhs: lhs@,
                rhs: rhs@,
                attributes: attributes@,
            },
        }
    }
}

impl DeepView for ClassifiedAxiom {
    type V = ClassifiedAxiomV;

    open spec fn deep_view(&self) -> ClassifiedAxiomV {
        self@
    }
}

impl Value for ClassifiedAxiom {
    fn duplicate(&self) -> (copy: Self) {
        match self {
            ClassifiedAxiom::Rewrite {
                module,
                sort_parameters,
                lhs,
                rhs,
                existentials,
                attributes,
            } => ClassifiedAxiom::Rewrite {
                module: module.clone(),
                sort_parameters: sort_parameters.duplicate(),
                lhs: lhs.duplicate(),
                rhs: rhs.duplicate(),
                existentials: existentials.duplicate(),
                attributes: attributes.duplicate(),
            },
            ClassifiedAxiom::Function {
                module,
                sort_parameters,
                condition,
                binders,
                lhs,
                rhs,
                attributes,
            } => ClassifiedAxiom::Function {
                module: module.clone(),
                sort_parameters: sort_parameters.duplicate(),
                condition: condition.duplicate(),
                binders: binders.duplicate(),
                lhs: lhs.duplicate(),
                rhs: rhs.duplicate(),
                attributes: attributes.duplicate(),
            },
            ClassifiedAxiom::Simplification {
                module,
                sort_parameters,
                condition,
                lhs,
                rhs,
                attributes,
            } => ClassifiedAxiom::Simplification {
                module: module.clone(),
                sort_parameters: sort_parameters.duplicate(),
                condition: condition.duplicate(),
                lhs: lhs.duplicate(),
                rhs: rhs.duplicate(),
                attributes: attributes.duplicate(),
            },
            ClassifiedAxiom::Ceil {
                module,
                sort_parameters,
                lhs,
                rhs,
                attributes,
            } => ClassifiedAxiom::Ceil {
                module: module.clone(),
                sort_parameters: sort_parameters.duplicate(),
                lhs: lhs.duplicate(),
                rhs: rhs.duplicate(),
                attributes: attributes.duplicate(),
            },
        }
    }

    fn equals(&self, other: &Self) -> (same: bool) {
        match (self, other) {
            (
                ClassifiedAxiom::Rewrite {
                    module,
                    sort_parameters,
                    lhs,
                    rhs,
                    existentials,
                    attributes,
                },
                ClassifiedAxiom::Rewrite {
                    module: other_module,
                    sort_parameters: other_sort_parameters,
                    lhs: other_lhs,
                    rhs: other_rhs,
                    existentials: other_existentials,
                    attributes: other_attributes,
                },
            ) => *module == *other_module
                && sort_parameters.equals(other_sort_parameters)
                && lhs.equals(other_lhs)
                && rhs.equals(other_rhs)
                && existentials.equals(other_existentials)
                && attributes.equals(other_attributes),
            (
                ClassifiedAxiom::Function {
                    module,
                    sort_parameters,
                    condition,
                    binders,
                    lhs,
                    rhs,
                    attributes,
                },
                ClassifiedAxiom::Function {
                    module: other_module,
                    sort_parameters: other_sort_parameters,
                    condition: other_condition,
                    binders: other_binders,
                    lhs: other_lhs,
                    rhs: other_rhs,
                    attributes: other_attributes,
                },
            ) => *module == *other_module
                && sort_parameters.equals(other_sort_parameters)
                && condition.equals(other_condition)
                && binders.equals(other_binders)
                && lhs.equals(other_lhs)
                && rhs.equals(other_rhs)
                && attributes.equals(other_attributes),
            (
                ClassifiedAxiom::Simplification {
                    module,
                    sort_parameters,
                    condition,
                    lhs,
                    rhs,
                    attributes,
                },
                ClassifiedAxiom::Simplification {
                    module: other_module,
                    sort_parameters: other_sort_parameters,
                    condition: other_condition,
                    lhs: other_lhs,
                    rhs: other_rhs,
                    attributes: other_attributes,
                },
            ) => *module == *other_module
                && sort_parameters.equals(other_sort_parameters)
                && condition.equals(other_condition)
                && lhs.equals(other_lhs)
                && rhs.equals(other_rhs)
                && attributes.equals(other_attributes),
            (
                ClassifiedAxiom::Ceil { module, sort_parameters, lhs, rhs, attributes },
                ClassifiedAxiom::Ceil {
                    module: other_module,
                    sort_parameters: other_sort_parameters,
                    lhs: other_lhs,
                    rhs: other_rhs,
                    attributes: other_attributes,
                },
            ) => *module == *other_module
                && sort_parameters.equals(other_sort_parameters)
                && lhs.equals(other_lhs)
                && rhs.equals(other_rhs)
                && attributes.equals(other_attributes),
            _ => false,
        }
    }
}

// ---------------------------------------------------------------------------------------------
// Parts of axioms
// ---------------------------------------------------------------------------------------------
/// The pattern under the existential quantifiers of `pattern`, and their variables behind `found`.
pub open spec fn under_existentials(pattern: KorePatternV, found: Seq<KoreVariableV>) -> (
    KorePatternV,
    Seq<KoreVariableV>,
)
    decreases pattern,
{
    match pattern {
        KorePatternV::Exists { variable, body } => under_existentials(*body, found.push(variable)),
        _ => (pattern, found),
    }
}

fn extract_existentials(pattern: &KorePattern, found: Vec<KoreVariable>) -> (result: (
    KorePattern,
    Vec<KoreVariable>,
))
    ensures
        result.deep_view() == under_existentials(pattern@, deep(found@)),
    decreases pattern,
{
    proof {
        lemma_kore_view(*pattern);
    }
    match pattern {
        KorePattern::Exists { variable, body } => {
            let mut all = found;
            all.push(variable.duplicate());
            extract_existentials(body, all)
        },
        _ => (pattern.duplicate(), found),
    }
}

/// The binder that a membership is.
pub open spec fn binder_of(pattern: KorePatternV) -> Option<ArgumentBinderV> {
    match pattern {
        KorePatternV::In { left, right } => match *left {
            KorePatternV::Variable(variable) => Some(ArgumentBinderV { variable, pattern: *right }),
            _ => None,
        },
        _ => None,
    }
}

/// The binders of a pattern: memberships, each before the rest.
pub open spec fn binders_of(pattern: KorePatternV, found: Seq<ArgumentBinderV>) -> Result<
    Seq<ArgumentBinderV>,
    AxiomErrorV,
>
    decreases pattern,
{
    match pattern {
        KorePatternV::Top => Ok(found),
        KorePatternV::In { .. } => match binder_of(pattern) {
            Some(binder) => Ok(found.push(binder)),
            None => Err(AxiomErrorV::MalformedArgumentBinder),
        },
        KorePatternV::And { arguments } => if arguments.len() == 2 {
            match binder_of(arguments[0]) {
                Some(binder) => binders_of(arguments[1], found.push(binder)),
                None => Err(AxiomErrorV::MalformedArgumentBinder),
            }
        } else {
            Err(AxiomErrorV::MalformedArgumentBinder)
        },
        _ => Err(AxiomErrorV::MalformedArgumentBinder),
    }
}

fn make_binder(pattern: &KorePattern) -> (result: Option<ArgumentBinder>)
    ensures
        result.deep_view() == binder_of(pattern@),
{
    proof {
        lemma_kore_view(*pattern);
    }
    match pattern {
        KorePattern::In { left, right } => {
            proof {
                lemma_kore_view(**left);
            }
            match &**left {
                KorePattern::Variable(variable) => Some(
                    ArgumentBinder { variable: variable.duplicate(), pattern: right.duplicate() },
                ),
                _ => None,
            }
        },
        _ => None,
    }
}

fn extract_binders(pattern: &KorePattern, found: Vec<ArgumentBinder>) -> (result: Result<
    Vec<ArgumentBinder>,
    AxiomError,
>)
    ensures
        result_view(result) == binders_of(pattern@, deep(found@)),
    decreases pattern,
{
    proof {
        lemma_kore_view(*pattern);
    }
    match pattern {
        KorePattern::Top => Ok(found),
        KorePattern::In { .. } => match make_binder(pattern) {
            Some(binder) => {
                let mut all = found;
                all.push(binder);
                Ok(all)
            },
            None => Err(AxiomError::MalformedArgumentBinder),
        },
        KorePattern::And { arguments } => extract_two_binders(arguments, found),
        _ => Err(AxiomError::MalformedArgumentBinder),
    }
}

fn extract_two_binders(arguments: &Vec<KorePattern>, found: Vec<ArgumentBinder>) -> (result: Result<
    Vec<ArgumentBinder>,
    AxiomError,
>)
    ensures
        result_view(result) == (if arguments@.len() == 2 {
            match binder_of(deep(arguments@)[0]) {
                Some(binder) => binders_of(deep(arguments@)[1], deep(found@).push(binder)),
                None => Err(AxiomErrorV::MalformedArgumentBinder),
            }
        } else {
            Err(AxiomErrorV::MalformedArgumentBinder)
        }),
    decreases arguments,
{
    if arguments.len() != 2 {
        return Err(AxiomError::MalformedArgumentBinder);
    }
    assert(deep(arguments@)[0] == arguments[0]@);
    assert(deep(arguments@)[1] == arguments[1]@);
    match make_binder(&arguments[0]) {
        Some(binder) => {
            let mut all = found;
            all.push(binder);
            extract_binders(&arguments[1], all)
        },
        None => Err(AxiomError::MalformedArgumentBinder),
    }
}

/// The requirement and the binders of a function equation.
pub open spec fn function_conditions_of(condition: KorePatternV, nullary: bool) -> Result<
    (KorePatternV, Seq<ArgumentBinderV>),
    AxiomErrorV,
> {
    match condition {
        KorePatternV::And { arguments } => if arguments.len() != 2 {
            Err(AxiomErrorV::MalformedEquation)
        } else if nullary && arguments[1] is Top {
            Ok((arguments[0], Seq::empty()))
        } else {
            match arguments[1] {
                KorePatternV::And { arguments: inner } => {
                    if inner.len() > 0 && inner[0] is In {
                        match binders_of(arguments[1], Seq::empty()) {
                            Ok(binders) => Ok((arguments[0], binders)),
                            Err(error) => Err(error),
                        }
                    } else if inner.len() == 2 {
                        match binders_of(inner[1], Seq::empty()) {
                            Ok(binders) => Ok((inner[0], binders)),
                            Err(error) => Err(error),
                        }
                    } else {
                        Err(AxiomErrorV::MalformedEquation)
                    }
                },
                _ => Err(AxiomErrorV::MalformedEquation),
            }
        },
        _ => Err(AxiomErrorV::MalformedEquation),
    }
}

#[verifier::spinoff_prover]
fn function_conditions(condition: &KorePattern, nullary: bool) -> (result: Result<
    (KorePattern, Vec<ArgumentBinder>),
    AxiomError,
>)
    ensures
        result_view(result) == function_conditions_of(condition@, nullary),
{
    proof {
        lemma_kore_view(*condition);
    }
    let arguments = match condition {
        KorePattern::And { arguments } => arguments,
        _ => {
            return Err(AxiomError::MalformedEquation);
        },
    };
    if arguments.len() != 2 {
        return Err(AxiomError::MalformedEquation);
    }
    assert(deep(arguments@)[0] == arguments[0]@);
    assert(deep(arguments@)[1] == arguments[1]@);
    proof {
        lemma_kore_view(arguments[1]);
    }
    if nullary && matches!(&arguments[1], KorePattern::Top) {
        return Ok((arguments[0].duplicate(), Vec::new()));
    }
    if let KorePattern::And { arguments: inner } = &arguments[1] {
        if inner.len() > 0 {
            assert(deep(inner@)[0] == inner[0]@);
            proof {
                lemma_kore_view(inner[0]);
            }
            if matches!(&inner[0], KorePattern::In { .. }) {
                return match extract_binders(&arguments[1], Vec::new()) {
                    Ok(binders) => Ok((arguments[0].duplicate(), binders)),
                    Err(error) => Err(error),
                };
            }
        }
        if inner.len() == 2 {
            assert(deep(inner@)[1] == inner[1]@);
            return match extract_binders(&inner[1], Vec::new()) {
                Ok(binders) => Ok((inner[0].duplicate(), binders)),
                Err(error) => Err(error),
            };
        }
    }
    Err(AxiomError::MalformedEquation)
}

// ---------------------------------------------------------------------------------------------
// Classification
// ---------------------------------------------------------------------------------------------
/// What is known of an axiom besides its pattern.
pub struct AxiomContext {
    pub module: String,
    pub sort_parameters: Vec<String>,
    pub attributes: RuleAttributes,
}

/// The view of an [`AxiomContext`].
pub struct AxiomContextV {
    pub module: Seq<char>,
    pub sort_parameters: Seq<Seq<char>>,
    pub attributes: RuleAttributesV,
}

impl View for AxiomContext {
    type V = AxiomContextV;

    open spec fn view(&self) -> AxiomContextV {
        AxiomContextV {
            module: self.module@,
            sort_parameters: deep(self.sort_parameters@),
            attributes: self.attributes@,
        }
    }
}

/// What an axiom is: a rule, nothing that is executed, or malformed.
pub type Classified = Result<Option<ClassifiedAxiomV>, AxiomErrorV>;

/// What a rewrite axiom is.
pub open spec fn rewrite_classified(
    context: AxiomContextV,
    left: KorePatternV,
    right: KorePatternV,
) -> Classified {
    match left {
        KorePatternV::And { .. } => {
            let (rhs, existentials) = under_existentials(right, Seq::empty());
            Ok(
                Some(
                    ClassifiedAxiomV::Rewrite {
                        module: context.module,
                        sort_parameters: context.sort_parameters,
                        lhs: left,
                        rhs,
                        existentials,
                        attributes: context.attributes,
                    },
                ),
            )
        },
        KorePatternV::Application { symbol, .. } => Err(
            AxiomErrorV::UnsupportedAliasRewrite(symbol.name),
        ),
        _ => Err(AxiomErrorV::MalformedRewrite),
    }
}

/// Whether all patterns are variables.
pub open spec fn all_variables(patterns: Seq<KorePatternV>, from: int) -> bool
    decreases patterns.len() - from,
{
    from >= patterns.len() || (patterns[from] is Variable && all_variables(patterns, from + 1))
}

/// What an equation under a condition is.
pub open spec fn equation_classified(
    context: AxiomContextV,
    condition: KorePatternV,
    left: KorePatternV,
    right: KorePatternV,
) -> Classified {
    if left is Ceil {
        Ok(
            Some(
                ClassifiedAxiomV::Ceil {
                    module: context.module,
                    sort_parameters: context.sort_parameters,
                    lhs: *left->Ceil_argument,
                    rhs: right,
                    attributes: context.attributes,
                },
            ),
        )
    } else if !(right is And) {
        Err(AxiomErrorV::MalformedEquation)
    } else if context.attributes.simplification {
        if left is Application {
            Ok(
                Some(
                    ClassifiedAxiomV::Simplification {
                        module: context.module,
                        sort_parameters: context.sort_parameters,
                        condition,
                        lhs: left,
                        rhs: right,
                        attributes: context.attributes,
                    },
                ),
            )
        } else {
            Ok(None)
        }
    } else {
        match left {
            KorePatternV::Application { arguments, .. } => if !all_variables(arguments, 0) {
                Err(AxiomErrorV::MalformedEquation)
            } else {
                match function_conditions_of(condition, arguments.len() == 0) {
                    Err(error) => Err(error),
                    Ok((condition, binders)) => Ok(
                        Some(
                            ClassifiedAxiomV::Function {
                                module: context.module,
                                sort_parameters: context.sort_parameters,
                                condition,
                                binders,
                                lhs: left,
                                rhs: right,
                                attributes: context.attributes,
                            },
                        ),
                    ),
                }
            },
            _ => Err(AxiomErrorV::MalformedEquation),
        }
    }
}

/// Whether a pattern says that a function has a value: some variable equals it.
pub open spec fn states_value(variable: KoreVariableV, body: KorePatternV) -> bool {
    match body {
        KorePatternV::Equals { left, .. } => *left == KorePatternV::Variable(variable),
        _ => false,
    }
}

/// Whether a pattern is an injection.
pub open spec fn is_injection_of(pattern: KorePatternV) -> bool {
    match pattern {
        KorePatternV::Application { symbol, .. } => symbol.name == "inj"@,
        _ => false,
    }
}

/// Whether the attributes are those of an axiom on a symbol that matching takes care of.
pub open spec fn is_structural(attributes: KoreAttributesV) -> bool {
    is_marked(attributes, "assoc"@) || is_marked(attributes, "comm"@) || is_marked(
        attributes,
        "idem"@,
    ) || is_marked(attributes, "unit"@) || is_marked(attributes, "symbol-overload"@) || is_marked(
        attributes,
        "overload"@,
    )
}

/// Whether an axiom that is no rule is one that the frontend writes.
pub open spec fn is_ignored(pattern: KorePatternV, attributes: KoreAttributesV) -> bool {
    match pattern {
        KorePatternV::Exists { variable, body } => (states_value(variable, *body) && (is_marked(
            attributes,
            "functional"@,
        ) || is_marked(attributes, "total"@))) || is_marked(attributes, "subsort"@),
        KorePatternV::Or { .. } => is_marked(attributes, "constructor"@),
        KorePatternV::Bottom => is_marked(attributes, "constructor"@),
        KorePatternV::Not { .. } => is_marked(attributes, "constructor"@),
        KorePatternV::Implies { .. } => is_marked(attributes, "constructor"@),
        KorePatternV::Equals { left, right } => is_structural(attributes) || (is_marked(
            attributes,
            "simplification"@,
        ) && is_injection_of(*left) && is_injection_of(*right)),
        _ => false,
    }
}

/// What an axiom is.
pub open spec fn axiom_classified(
    module: Seq<char>,
    sort_parameters: Seq<Seq<char>>,
    pattern: KorePatternV,
    attributes: KoreAttributesV,
) -> Classified {
    let ignored = if is_ignored(pattern, attributes) {
        Ok(None)
    } else {
        Err(AxiomErrorV::Unexpected)
    };
    match rule_attributes_of(attributes) {
        Err(error) => Err(error),
        Ok(rule_attributes) => {
            let context = AxiomContextV { module, sort_parameters, attributes: rule_attributes };
            match pattern {
                KorePatternV::Rewrites { left, right } => rewrite_classified(
                    context,
                    *left,
                    *right,
                ),
                KorePatternV::Implies { left, right } => match *right {
                    KorePatternV::Equals { left: equation_left, right: equation_right } => {
                        equation_classified(context, *left, *equation_left, *equation_right)
                    },
                    _ => ignored,
                },
                _ => ignored,
            }
        },
    }
}

fn classify_rewrite(context: AxiomContext, left: &KorePattern, right: &KorePattern) -> (result:
    Result<Option<ClassifiedAxiom>, AxiomError>)
    ensures
        result_view(result) == rewrite_classified(context@, left@, right@),
{
    proof {
        lemma_kore_view(*left);
    }
    match left {
        KorePattern::And { .. } => {
            let (rhs, existentials) = extract_existentials(right, Vec::new());
            Ok(
                Some(
                    ClassifiedAxiom::Rewrite {
                        module: context.module,
                        sort_parameters: context.sort_parameters,
                        lhs: left.duplicate(),
                        rhs,
                        existentials,
                        attributes: context.attributes,
                    },
                ),
            )
        },
        KorePattern::Application { symbol, .. } => Err(
            AxiomError::UnsupportedAliasRewrite(symbol.name.duplicate()),
        ),
        _ => Err(AxiomError::MalformedRewrite),
    }
}

fn are_all_variables(patterns: &Vec<KorePattern>) -> (result: bool)
    ensures
        result == all_variables(deep(patterns@), 0),
{
    let mut i: usize = 0;
    while i < patterns.len()
        invariant
            i <= patterns.len(),
            all_variables(deep(patterns@), 0) == all_variables(deep(patterns@), i as int),
        decreases patterns.len() - i,
    {
        assert(deep(patterns@)[i as int] == patterns[i as int]@);
        proof {
            lemma_kore_view(patterns[i as int]);
        }
        if !matches!(&patterns[i], KorePattern::Variable(_)) {
            return false;
        }
        i += 1;
    }
    true
}

#[verifier::spinoff_prover]
fn classify_equation(
    context: AxiomContext,
    condition: &KorePattern,
    left: &KorePattern,
    right: &KorePattern,
) -> (result: Result<Option<ClassifiedAxiom>, AxiomError>)
    ensures
        result_view(result) == equation_classified(context@, condition@, left@, right@),
{
    proof {
        lemma_kore_view(*left);
        lemma_kore_view(*right);
    }
    if let KorePattern::Ceil { argument } = left {
        return Ok(
            Some(
                ClassifiedAxiom::Ceil {
                    module: context.module,
                    sort_parameters: context.sort_parameters,
                    lhs: argument.duplicate(),
                    rhs: right.duplicate(),
                    attributes: context.attributes,
                },
            ),
        );
    }
    if !matches!(right, KorePattern::And { .. }) {
        return Err(AxiomError::MalformedEquation);
    }
    if context.attributes.simplification {
        return if matches!(left, KorePattern::Application { .. }) {
            Ok(
                Some(
                    ClassifiedAxiom::Simplification {
                        module: context.module,
                        sort_parameters: context.sort_parameters,
                        condition: condition.duplicate(),
                        lhs: left.duplicate(),
                        rhs: right.duplicate(),
                        attributes: context.attributes,
                    },
                ),
            )
        } else {
            Ok(None)
        };
    }
    match left {
        KorePattern::Application { arguments, .. } => {
            if !are_all_variables(arguments) {
                return Err(AxiomError::MalformedEquation);
            }
            match function_conditions(condition, arguments.len() == 0) {
                Err(error) => Err(error),
                Ok((condition, binders)) => Ok(
                    Some(
                        ClassifiedAxiom::Function {
                            module: context.module,
                            sort_parameters: context.sort_parameters,
                            condition,
                            binders,
                            lhs: left.duplicate(),
                            rhs: right.duplicate(),
                            attributes: context.attributes,
                        },
                    ),
                ),
            }
        },
        _ => Err(AxiomError::MalformedEquation),
    }
}

fn is_injection(pattern: &KorePattern) -> (result: bool)
    ensures
        result == is_injection_of(pattern@),
{
    proof {
        lemma_kore_view(*pattern);
    }
    match pattern {
        KorePattern::Application { symbol, .. } => is_text(&symbol.name, "inj"),
        _ => false,
    }
}

fn has_structural_attribute(attributes: &KoreAttributes) -> (result: bool)
    ensures
        result == is_structural(attributes@),
{
    has_attribute(attributes, "assoc") || has_attribute(attributes, "comm") || has_attribute(
        attributes,
        "idem",
    ) || has_attribute(attributes, "unit") || has_attribute(attributes, "symbol-overload")
        || has_attribute(attributes, "overload")
}

fn is_value_statement(variable: &KoreVariable, body: &KorePattern) -> (result: bool)
    ensures
        result == states_value(variable@, body@),
{
    proof {
        lemma_kore_view(*body);
    }
    match body {
        KorePattern::Equals { left, .. } => {
            proof {
                lemma_kore_view(**left);
            }
            match &**left {
                KorePattern::Variable(found) => found.equals(variable),
                _ => false,
            }
        },
        _ => false,
    }
}

#[verifier::spinoff_prover]
fn is_ignored_axiom(pattern: &KorePattern, attributes: &KoreAttributes) -> (result: bool)
    ensures
        result == is_ignored(pattern@, attributes@),
{
    proof {
        lemma_kore_view(*pattern);
    }
    match pattern {
        KorePattern::Exists { variable, body } => (is_value_statement(variable, body) && (
        has_attribute(attributes, "functional") || has_attribute(attributes, "total")))
            || has_attribute(attributes, "subsort"),
        KorePattern::Or { .. } => has_attribute(attributes, "constructor"),
        KorePattern::Bottom => has_attribute(attributes, "constructor"),
        KorePattern::Not { .. } => has_attribute(attributes, "constructor"),
        KorePattern::Implies { .. } => has_attribute(attributes, "constructor"),
        KorePattern::Equals { left, right } => has_structural_attribute(attributes) || (
        has_attribute(attributes, "simplification") && is_injection(left) && is_injection(right)),
        _ => false,
    }
}

/// Recognize the shape of an axiom.
#[verifier::spinoff_prover]
pub fn classify_axiom(
    module: String,
    sort_parameters: Vec<String>,
    pattern: &KorePattern,
    syntax_attributes: &KoreAttributes,
) -> (result: Result<Option<ClassifiedAxiom>, AxiomError>)
    ensures
        result_view(result) == axiom_classified(
            module@,
            deep(sort_parameters@),
            pattern@,
            syntax_attributes@,
        ),
{
    proof {
        lemma_kore_view(*pattern);
    }
    let attributes = match RuleAttributes::parse(syntax_attributes) {
        Ok(attributes) => attributes,
        Err(error) => {
            return Err(error);
        },
    };
    let context = AxiomContext { module, sort_parameters, attributes };
    if let KorePattern::Rewrites { left, right } = pattern {
        return classify_rewrite(context, left, right);
    }
    if let KorePattern::Implies { left, right } = pattern {
        proof {
            lemma_kore_view(**right);
        }
        if let KorePattern::Equals { left: equation_left, right: equation_right } = &**right {
            return classify_equation(context, left, equation_left, equation_right);
        }
    }
    if is_ignored_axiom(pattern, syntax_attributes) {
        Ok(None)
    } else {
        Err(AxiomError::Unexpected)
    }
}

} // verus!
