//! Verified core of a local GitHub Actions workflow runner: the expression
//! language, workflow model checks, job ordering, matrix expansion and the
//! decisions the runner takes around the outside work it performs.

pub mod text;
pub mod number;
pub mod value;
pub mod error;
pub mod lexer;
pub mod parser;
pub mod json;
pub mod functions;
pub mod evaluator;
pub mod strmap;
pub mod env_files;
pub mod github;
pub mod paths;
pub mod path_sanitizer;
pub mod runner_ctx;
pub mod action_resolver;
pub mod model;
pub mod shell;
pub mod builtin;
pub mod context;
pub mod ast;
pub mod runner;
pub mod engine;
pub mod matrix;
pub mod workflow;
pub mod event;
pub mod step_run;
pub mod job_run;
pub mod composite_run;
pub mod workflow_run;
pub mod checkout;
pub mod options;
