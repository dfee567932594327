//! Typed, deterministic specifications: artifact syntax, validation, and reports.

pub mod agent;
pub mod artifact;
pub mod assemble;
pub mod assumptions;
pub mod check;
pub mod claims;
pub mod conclusions;
pub mod dependencies;
pub mod evidence;
mod docs;
mod lexer;
pub mod engine;
pub mod guide;
pub mod html;
pub mod logic;
pub mod markdown;
pub mod mutation;
pub mod names;
pub mod observations;
pub mod narrative;
pub mod source;
mod parser;
pub mod plan;
pub mod plan_project;
pub mod plan_syntax;
pub mod printer;
pub mod program;
pub mod projection;
pub mod readback;
pub mod reasoning;
pub mod relationships;
pub mod safety;
pub mod mutation_rules;
pub mod mutation_text;
pub mod status;
pub mod text;
pub mod upgrade;
pub mod validation;
