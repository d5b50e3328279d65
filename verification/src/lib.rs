//! Symbolic rewriting for K definitions.

pub mod alike;
pub mod applicability;
pub mod application_laws;
pub mod apply;
pub mod apply_parts;
pub mod assoc;
pub mod attributes;
pub mod binding_laws;
pub mod claim_laws;
pub mod claims;
pub mod classify;
pub mod closed_maps;
pub mod collection_laws;
pub mod collections;
pub mod construct;
pub mod definition;
pub mod diagnostic;
pub mod domain;
pub mod equation_laws;
pub mod equations;
pub mod execution;
pub mod execution_case_laws;
pub mod execution_laws;
pub mod execution_parts;
pub mod execution_types;
pub mod freshen;
pub mod group_laws;
pub mod implication;
pub mod index;
pub mod instance_laws;
pub mod internalize;
pub mod kernel;
pub mod keys;
pub mod kore;
pub mod leaves;
pub mod map_keys;
pub mod match_collection_laws;
pub mod match_collections;
pub mod match_complete_laws;
pub mod match_laws;
pub mod match_unordered_laws;
pub mod matcher;
pub mod matching;
pub mod model;
pub mod names;
pub mod narrow;
pub mod normalize;
pub mod normalize_laws;
pub mod numbers;
pub mod observation_laws;
pub mod ops;
pub mod order;
pub mod overload;
pub mod path;
pub mod path_laws;
pub mod pattern;
pub mod pattern_laws;
pub mod pattern_search;
pub mod predicate;
pub mod predicate_laws;
pub mod predicates;
pub mod problems;
pub mod reach;
pub mod proof_case_laws;
pub mod proof_laws;
pub mod proof_types;
pub mod rebuild;
pub mod recovery;
pub mod refusal_laws;
pub mod rewrite_types;
pub mod rule;
pub mod rule_laws;
pub mod rules;
pub mod search;
pub mod search_case_laws;
pub mod search_laws;
pub mod search_machine;
pub mod search_types;
pub mod session;
pub mod sexpr;
pub mod sexpr_text;
pub mod simplification;
pub mod simplify;
pub mod simplify_laws;
pub mod simplify_parts;
pub mod simplify_spec;
pub mod simplify_types;
pub mod smt;
pub mod smt_laws;
pub mod smt_value_laws;
pub mod solve;
pub mod solver;
pub mod sorts;
pub mod splits;
pub mod step;
pub mod step_case_laws;
pub mod step_laws;
pub mod substitution;
pub mod substitution_laws;
pub mod term;
pub mod text;
pub mod truth;
pub mod value_laws;
