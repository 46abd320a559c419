//! Validators, grammar and deterministic helpers of the Chiyoda scenario toolchain.

pub mod anchor;
pub mod benchmark;
pub mod evidence;
pub mod experiment;
pub mod issues;
pub mod text;
pub mod model;
pub mod lexer;
pub mod literal;
pub mod syntax;
pub mod parser;
pub mod digest;
pub mod calibration;
pub mod paths;
pub mod reference;
pub mod bundle;
pub mod runtime;
pub mod layout;
pub mod coordination;
pub mod formatter;
pub mod inspection;
pub mod diagnostics;
pub mod canonical;
pub mod reformat;
pub mod agent_line;
