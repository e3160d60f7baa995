//! Rule-based classification of UK environment, safety and health legislation:
//! text cleaning, purpose and POPIMAR tagging, applicability (fitness) rules,
//! clause decomposition and law-level DRRP aggregation.

pub mod rx;
pub mod text;
pub mod text_cleaner;
pub mod fitness;
pub mod order;
pub mod purpose;
pub mod popimar;
pub mod amendment;
pub mod labelset;
pub mod law_drrp;
pub mod duty_patterns;
pub mod clause_structure;
pub mod clause_refiner;
pub mod applicability;
pub mod application;
pub mod applicability_compile;
pub mod training;
pub mod taxa;
pub mod actors;
pub mod duty_patterns_v2;
pub mod signals;
pub mod duty_patterns_offence;
pub mod duty_patterns_rule;
pub mod duty_type;
pub mod decision;
pub mod pipeline;
pub mod making;
pub mod correlatives;
pub mod hdr;
pub mod drrp_prompt;
pub mod normal_form;
pub mod compile_laws;
pub mod confidence;
pub mod lance_sql;
