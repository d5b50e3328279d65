//! Fresh variables for the parts of a rule that a match leaves unbound.

use vstd::prelude::*;
use crate::assoc::assoc;
use crate::construct::{constructor_like, variables_of};
use crate::domain::{strip_prefix, stripped};
use crate::numbers::{digits_value, is_decimal_digit, parse_digits};
use crate::model::{contains, deep, group_deep, Value};
use crate::names::{
    decimal, decimal_text, digit, fresh_counter_for, fresh_from, fresh_variable, is_digit,
    lemma_some_name_is_free, next_counter,
};
use crate::pattern::{
    names_of, pattern_names, pattern_variable_names, variable_names, Pattern, PatternV,
};
use crate::rule::{RewriteRule, RewriteRuleV};
use crate::substitution::{bound, compose, composed, Substitution, SubstitutionV};
use crate::term::{Term, TermV, Variable, VariableV};

verus! {

broadcast use group_deep;

// ---------------------------------------------------------------------------------------------
// Existential variables
// ---------------------------------------------------------------------------------------------
/// How many digits `name` ends in.
pub open spec fn trailing_digits(name: Seq<char>) -> nat
    decreases name.len(),
{
    if name.len() == 0 || !is_digit(name.last()) {
        0
    } else {
        trailing_digits(name.drop_last()) + 1
    }
}

/// `name` with the number that it ends in increased by one, or with a zero behind it where it ends
/// in no number that can be increased.
pub open spec fn incremented(name: Seq<char>) -> Seq<char> {
    let start = name.len() - trailing_digits(name);
    let value = digits_value(name.subrange(start, name.len() as int));
    if start == name.len() || value >= u64::MAX {
        name + "0"@
    } else {
        name.subrange(0, start) + decimal(value + 1)
    }
}

proof fn lemma_trailing_digits(name: Seq<char>)
    ensures
        trailing_digits(name) <= name.len(),
        forall|i: int|
            name.len() - trailing_digits(name) <= i < name.len() ==> is_digit(#[trigger] name[i]),
    decreases name.len(),
{
    if name.len() > 0 && is_digit(name.last()) {
        lemma_trailing_digits(name.drop_last());
        assert forall|i: int|
            name.len() - trailing_digits(name) <= i < name.len() implies is_digit(
            #[trigger] name[i],
        ) by {
            if i < name.len() - 1 {
                assert(name.drop_last()[i] == name[i]);
            }
        }
    }
}

proof fn lemma_trailing_digits_from(name: Seq<char>, from: int)
    requires
        0 <= from <= name.len(),
        forall|i: int| from <= i < name.len() ==> is_digit(#[trigger] name[i]),
        from == 0 || !is_digit(name[from - 1]),
    ensures
        trailing_digits(name) == name.len() - from,
    decreases name.len(),
{
    if from < name.len() {
        assert(is_digit(name[name.len() - 1]));
        assert forall|i: int| from <= i < name.drop_last().len() implies is_digit(
            #[trigger] name.drop_last()[i],
        ) by {
            assert(name.drop_last()[i] == name[i]);
        }
        if from > 0 {
            assert(name.drop_last()[from - 1] == name[from - 1]);
        }
        lemma_trailing_digits_from(name.drop_last(), from);
    } else if from > 0 {
        assert(name.last() == name[from - 1]);
    }
}

pub(crate) fn increment_name_counter(name: &String) -> (result: String)
    ensures
        result@ == incremented(name@),
{
    let length: usize = name.as_str().unicode_len();
    let mut start: usize = length;
    while start > 0 && is_decimal_digit(name.as_str().get_char((start - 1) as usize))
        invariant
            start <= length,
            length == name@.len(),
            forall|i: int| start <= i < length ==> is_digit(#[trigger] name@[i]),
        decreases start,
    {
        start = start - 1;
    }
    proof {
        lemma_trailing_digits_from(name@, start as int);
    }
    if start < length {
        if let Some(value) = parse_digits(name, start, length) {
            if value < u64::MAX {
                let mut result = name.as_str().substring_char(0, start).to_owned();
                result.append(decimal_text(value + 1).as_str());
                return result;
            }
        }
    }
    let mut result = name.clone();
    result.append("0");
    result
}

/// The name of an existential variable of a rule without the mark of its origin.
pub open spec fn unmarked(name: Seq<char>) -> Seq<char> {
    match stripped(name, "Ex#"@) {
        Some(rest) => rest,
        None => match stripped(name, "Rule#"@) {
            Some(rest) => rest,
            None => name,
        },
    }
}

/// `name`, increased as often as needed, at most `fuel` times, until it is not in `avoided`.
pub open spec fn available(name: Seq<char>, avoided: Seq<Seq<char>>, fuel: nat) -> Seq<char>
    decreases fuel,
{
    if fuel == 0 || !avoided.contains(name) {
        name
    } else {
        available(incremented(name), avoided, (fuel - 1) as nat)
    }
}

/// The name that an existential variable of a rule gets in a successor.
pub open spec fn existential_name(name: Seq<char>, avoided: Seq<Seq<char>>) -> Seq<char> {
    available(unmarked(name), avoided, avoided.len())
}

/// `found` with the variables from `from` on bound to fresh ones.
pub open spec fn existentials_from(
    variables: Seq<VariableV>,
    avoided: Seq<Seq<char>>,
    found: SubstitutionV,
    from: int,
) -> SubstitutionV
    decreases variables.len() - from,
{
    if from >= variables.len() {
        found
    } else {
        let name = existential_name(variables[from].name, avoided);
        existentials_from(
            variables,
            avoided.push(name),
            bound(
                found,
                variables[from],
                TermV::Variable(VariableV { name, ..variables[from] }),
            ),
            from + 1,
        )
    }
}

/// The existential variables of a rule bound to variables that the pattern does not have.
pub open spec fn fresh_existentials(rule: RewriteRuleV, pattern: PatternV) -> SubstitutionV {
    existentials_from(rule.existentials, pattern_names(pattern), Seq::empty(), 0)
}

/// Give an existential variable of a rule its name in a successor: the name that it has in the
/// source, where that is available, else with a counter increased until it is.
fn freshen_existential(variable: &Variable, avoided: &mut Vec<String>) -> (result: Variable)
    ensures
        result@ == (VariableV {
            name: existential_name(variable@.name, deep(old(avoided)@)),
            ..variable@
        }),
        deep(final(avoided)@) == deep(old(avoided)@).push(result@.name),
{
    let mut name = match strip_prefix(&variable.name, "Ex#") {
        Some(rest) => rest,
        None => match strip_prefix(&variable.name, "Rule#") {
            Some(rest) => rest,
            None => variable.name.clone(),
        },
    };
    let mut fuel: usize = avoided.len();
    while fuel > 0 && contains(avoided, &name)
        invariant
            *avoided == *old(avoided),
            existential_name(variable@.name, deep(avoided@)) == available(
                name@,
                deep(avoided@),
                fuel as nat,
            ),
        decreases fuel,
    {
        name = increment_name_counter(&name);
        fuel = fuel - 1;
    }
    avoided.push(name.clone());
    variable.with_name(name)
}

pub(crate) fn freshen_existentials(rule: &RewriteRule, pattern: &Pattern) -> (result: Substitution)
    ensures
        result@ == fresh_existentials(rule@, pattern@),
{
    let mut avoided = pattern_variable_names(pattern);
    let mut found = Substitution::new();
    let mut i: usize = 0;
    while i < rule.existentials.len()
        invariant
            i <= rule.existentials.len(),
            fresh_existentials(rule@, pattern@) == existentials_from(
                rule@.existentials,
                deep(avoided@),
                found@,
                i as int,
            ),
        decreases rule.existentials.len() - i,
    {
        assert(rule@.existentials[i as int] == rule.existentials[i as int]@);
        let fresh = freshen_existential(&rule.existentials[i], &mut avoided);
        found.insert(rule.existentials[i].duplicate(), Term::variable(fresh));
        i += 1;
    }
    found
}

// ---------------------------------------------------------------------------------------------
// Unbound variables
// ---------------------------------------------------------------------------------------------
/// The names of the variables in the terms that are bound from `from` on, behind `found`.
pub open spec fn value_names(
    substitution: SubstitutionV,
    found: Seq<Seq<char>>,
    from: int,
) -> Seq<Seq<char>>
    decreases substitution.len() - from,
{
    if from >= substitution.len() {
        found
    } else {
        value_names(
            substitution,
            found + names_of(variables_of(substitution[from].1)),
            from + 1,
        )
    }
}

pub(crate) fn collect_value_names(substitution: &Substitution, found: &mut Vec<String>)
    ensures
        deep(final(found)@) == value_names(substitution@, deep(old(found)@), 0),
{
    let mut i: usize = 0;
    while i < substitution.bindings.len()
        invariant
            i <= substitution.bindings.len(),
            value_names(substitution@, deep(old(found)@), 0) == value_names(
                substitution@,
                deep(found@),
                i as int,
            ),
        decreases substitution.bindings.len() - i,
    {
        assert(substitution@[i as int].1 == substitution.bindings[i as int].1@);
        let mut names = variable_names(&substitution.bindings[i].1.variables());
        found.append(&mut names);
        i += 1;
    }
}

/// The variables from `from` on that are not bound, behind `found`.
pub open spec fn unbound_variables(
    variables: Seq<VariableV>,
    substitution: SubstitutionV,
    found: Seq<VariableV>,
    from: int,
) -> Seq<VariableV>
    decreases variables.len() - from,
{
    if from >= variables.len() {
        found
    } else if assoc(substitution, variables[from]) is Some {
        unbound_variables(variables, substitution, found, from + 1)
    } else {
        unbound_variables(variables, substitution, found.push(variables[from]), from + 1)
    }
}

/// The variables of `term` that are not bound.
pub open spec fn missing_variables(term: TermV, substitution: SubstitutionV) -> Seq<VariableV> {
    unbound_variables(variables_of(term), substitution, Seq::empty(), 0)
}

pub(crate) fn find_missing_variables(term: &Term, substitution: &Substitution) -> (result: Vec<
    Variable,
>)
    ensures
        deep(result@) == missing_variables(term@, substitution@),
{
    let variables = term.variables();
    let mut result: Vec<Variable> = Vec::new();
    let mut i: usize = 0;
    while i < variables.len()
        invariant
            i <= variables.len(),
            deep(variables@) == variables_of(term@),
            missing_variables(term@, substitution@) == unbound_variables(
                deep(variables@),
                substitution@,
                deep(result@),
                i as int,
            ),
        decreases variables.len() - i,
    {
        assert(deep(variables@)[i as int] == variables[i as int]@);
        if substitution.get(&variables[i]).is_none() {
            result.push(variables[i].duplicate());
        }
        i += 1;
    }
    result
}

/// The variable from which a fresh one is made for an unbound variable of a rule.
pub open spec fn fresh_seed(variable: VariableV) -> VariableV {
    VariableV {
        name: "Ex#"@ + (match stripped(variable.name, "Rule#"@) {
            Some(rest) => rest,
            None => match stripped(variable.name, "Eq#"@) {
                Some(rest) => rest,
                None => variable.name,
            },
        }),
        ..variable
    }
}

/// A substitution with fresh variables, the fresh variables, and the counter behind them.
pub struct FreshenedV {
    pub substitution: SubstitutionV,
    pub fresh: Seq<VariableV>,
    pub counter: u64,
}

/// `found` with the variables from `from` on bound to fresh ones.
pub open spec fn freshened_from(
    unbound: Seq<VariableV>,
    avoided: Seq<Seq<char>>,
    found: FreshenedV,
    from: int,
) -> FreshenedV
    decreases unbound.len() - from,
{
    if from >= unbound.len() {
        found
    } else {
        let seed = fresh_seed(unbound[from]);
        let fresh = fresh_from(seed, avoided, found.counter);
        freshened_from(
            unbound,
            avoided.push(fresh.name),
            FreshenedV {
                substitution: composed(
                    seq![(unbound[from], TermV::Variable(fresh))],
                    found.substitution,
                ),
                fresh: found.fresh.push(fresh),
                counter: next_counter(fresh_counter_for(seed.name, avoided, found.counter)),
            },
            from + 1,
        )
    }
}

/// The variables of a rule that a match leaves unbound, bound to fresh variables. On a concrete
/// term they stay unbound: a condition of the rule may still bind them.
pub open spec fn freshened(
    rule: RewriteRuleV,
    pattern: PatternV,
    substitution: SubstitutionV,
    counter: u64,
) -> FreshenedV {
    let start = FreshenedV { substitution, fresh: Seq::empty(), counter };
    if constructor_like(pattern.term) {
        start
    } else {
        freshened_from(
            missing_variables(rule.lhs, substitution),
            value_names(substitution, pattern_names(pattern), 0),
            start,
            0,
        )
    }
}

fn make_fresh_seed(variable: &Variable) -> (result: Variable)
    ensures
        result@ == fresh_seed(variable@),
{
    let base = match strip_prefix(&variable.name, "Rule#") {
        Some(rest) => rest,
        None => match strip_prefix(&variable.name, "Eq#") {
            Some(rest) => rest,
            None => variable.name.clone(),
        },
    };
    let mut name = "Ex#".to_owned();
    name.append(base.as_str());
    variable.with_name(name)
}

/// Bind the variables of a rule that a match leaves unbound to fresh variables.
pub(crate) fn freshen_unbound_rule_variables(
    rule: &RewriteRule,
    pattern: &Pattern,
    substitution: Substitution,
    counter: &mut u64,
) -> (result: (Substitution, Vec<Variable>))
    ensures
        (FreshenedV {
            substitution: result.0@,
            fresh: deep(result.1@),
            counter: *final(counter),
        }) == freshened(rule@, pattern@, substitution@, *old(counter)),
{
    let mut fresh_variables: Vec<Variable> = Vec::new();
    if pattern.term.is_constructor_like() {
        return (substitution, fresh_variables);
    }
    let mut avoided = pattern_variable_names(pattern);
    collect_value_names(&substitution, &mut avoided);
    let unbound = find_missing_variables(&rule.lhs, &substitution);
    let ghost goal = freshened(rule@, pattern@, substitution@, *counter);
    let mut current = substitution;
    let mut i: usize = 0;
    while i < unbound.len()
        invariant
            i <= unbound.len(),
            goal == freshened_from(
                deep(unbound@),
                deep(avoided@),
                FreshenedV {
                    substitution: current@,
                    fresh: deep(fresh_variables@),
                    counter: *counter,
                },
                i as int,
            ),
        decreases unbound.len() - i,
    {
        assert(deep(unbound@)[i as int] == unbound[i as int]@);
        let seed = make_fresh_seed(&unbound[i]);
        let fresh = fresh_variable(&seed, &mut avoided, counter);
        let single = Substitution::singleton(
            unbound[i].duplicate(),
            Term::variable(fresh.duplicate()),
        );
        fresh_variables.push(fresh);
        current = compose(&single, &current);
        i += 1;
    }
    (current, fresh_variables)
}

// ---------------------------------------------------------------------------------------------
// Laws
// ---------------------------------------------------------------------------------------------
/// The number that a name ends in, or minus one where it ends in none.
pub open spec fn number_at_end(name: Seq<char>) -> int {
    let start = name.len() - trailing_digits(name);
    if start == name.len() {
        -1
    } else {
        digits_value(name.subrange(start, name.len() as int)) as int
    }
}

proof fn lemma_decimal_digits(value: nat)
    ensures
        decimal(value).len() > 0,
        forall|i: int| 0 <= i < decimal(value).len() ==> is_digit(#[trigger] decimal(value)[i]),
        digits_value(decimal(value)) == value,
    decreases value,
{
    let text = decimal(value);
    assert(is_digit(digit((value % 10) as int)));
    if value < 10 {
        assert(text.drop_last() =~= Seq::<char>::empty());
        assert(text.last() == digit(value as int));
        assert(digits_value(text.drop_last()) == 0);
    } else {
        lemma_decimal_digits(value / 10);
        assert(text.drop_last() =~= decimal(value / 10));
        assert(text.last() == digit((value % 10) as int));
        assert forall|i: int| 0 <= i < text.len() implies is_digit(#[trigger] text[i]) by {
            if i < text.len() - 1 {
                assert(text[i] == decimal(value / 10)[i]);
            }
        }
        assert((value / 10) * 10 + value % 10 == value);
    }
}

proof fn lemma_trailing_start(name: Seq<char>)
    ensures
        trailing_digits(name) <= name.len(),
        trailing_digits(name) < name.len() ==> !is_digit(
            name[name.len() - trailing_digits(name) - 1],
        ),
    decreases name.len(),
{
    if name.len() > 0 && is_digit(name.last()) {
        lemma_trailing_start(name.drop_last());
    }
}

/// To increase a name increases the number that it ends in.
proof fn lemma_incremented_grows(name: Seq<char>)
    ensures
        number_at_end(incremented(name)) > number_at_end(name),
{
    lemma_trailing_digits(name);
    lemma_trailing_start(name);
    let start = name.len() - trailing_digits(name);
    let digits = name.subrange(start, name.len() as int);
    let value = digits_value(digits);
    let next = incremented(name);
    if start == name.len() || value >= u64::MAX {
        reveal_strlit("0");
        assert("0"@ =~= seq!['0']);
        assert(next =~= name.push('0'));
        assert(next.drop_last() =~= name);
        assert(is_digit('0'));
        assert(trailing_digits(next) == trailing_digits(name) + 1);
        let longer = next.subrange(start, next.len() as int);
        assert(longer.drop_last() =~= digits);
        assert(longer.last() == '0');
        assert(digits_value(longer) == value * 10);
        if start == name.len() {
            assert(digits =~= Seq::<char>::empty());
        }
    } else {
        let text = decimal(value + 1);
        lemma_decimal_digits(value + 1);
        assert(next =~= name.subrange(0, start) + text);
        assert forall|i: int| start <= i < next.len() implies is_digit(#[trigger] next[i]) by {
            assert(next[i] == text[i - start]);
        }
        if start > 0 {
            assert(next[start - 1] == name[start - 1]);
        }
        lemma_trailing_digits_from(next, start);
        assert(next.subrange(start, next.len() as int) =~= text);
    }
}

/// A name increased as often as said.
pub open spec fn increased(name: Seq<char>, times: nat) -> Seq<char>
    decreases times,
{
    if times == 0 {
        name
    } else {
        increased(incremented(name), (times - 1) as nat)
    }
}

proof fn lemma_increased_grows(name: Seq<char>, less: nat, more: nat)
    requires
        less < more,
    ensures
        number_at_end(increased(name, less)) < number_at_end(increased(name, more)),
    decreases more,
{
    reveal_with_fuel(increased, 2);
    if less > 0 {
        lemma_increased_grows(incremented(name), (less - 1) as nat, (more - 1) as nat);
    } else {
        lemma_incremented_grows(name);
        if more > 1 {
            lemma_increased_grows(incremented(name), 0, (more - 1) as nat);
        }
    }
}

proof fn lemma_available(name: Seq<char>, avoided: Seq<Seq<char>>, fuel: nat, times: nat)
    requires
        times <= fuel,
        !avoided.contains(increased(name, times)),
    ensures
        !avoided.contains(available(name, avoided, fuel)),
    decreases fuel,
{
    if fuel > 0 && avoided.contains(name) {
        assert(times > 0);
        lemma_available(incremented(name), avoided, (fuel - 1) as nat, (times - 1) as nat);
    }
}

/// An existential variable of a rule gets a name that is not in use.
pub proof fn law_existential_name_is_new(name: Seq<char>, avoided: Seq<Seq<char>>)
    ensures
        !avoided.contains(existential_name(name, avoided)),
{
    let base = unmarked(name);
    let made = |i: int| increased(base, i as nat);
    assert forall|i: int, j: int|
        #![trigger made(i), made(j)]
        0 <= i <= avoided.len() && 0 <= j <= avoided.len() && made(i) == made(j) implies i == j by {
        if i < j {
            lemma_increased_grows(base, i as nat, j as nat);
        } else if j < i {
            lemma_increased_grows(base, j as nat, i as nat);
        }
    }
    lemma_some_name_is_free(avoided, made);
    let i = choose|i: int| 0 <= i <= avoided.len() && !avoided.contains(#[trigger] made(i));
    lemma_available(base, avoided, avoided.len(), i as nat);
}

/// An existential variable of a rule keeps its name where that is not in use.
pub proof fn law_existential_name_is_kept(name: Seq<char>, avoided: Seq<Seq<char>>)
    requires
        !avoided.contains(unmarked(name)),
    ensures
        existential_name(name, avoided) == unmarked(name),
{
}

} // verus!
