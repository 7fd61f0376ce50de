//! Errors of the runner and their messages.
use crate::text::{nat_text, push_decimal, push_str};
use vstd::prelude::*;

verus! {

#[derive(Debug)]
pub enum Error {
    WorkflowParse { file: String, message: String },
    Validation(String),
    ExpressionSyntax { position: usize, message: String },
    ExpressionEval(String),
    UnknownFunction(String),
    DependencyCycle(String),
    StepFailed { job: String, step: String, exit_code: i32 },
    JobFailed(String),
    Action { action: String, message: String },
    PathTraversal(String),
    /// An I/O failure, with the text the operating system gave for it.
    Io(String),
}

pub ghost enum SpecError {
    WorkflowParse { file: Seq<char>, message: Seq<char> },
    Validation(Seq<char>),
    ExpressionSyntax { position: int, message: Seq<char> },
    ExpressionEval(Seq<char>),
    UnknownFunction(Seq<char>),
    DependencyCycle(Seq<char>),
    StepFailed { job: Seq<char>, step: Seq<char>, exit_code: int },
    JobFailed(Seq<char>),
    Action { action: Seq<char>, message: Seq<char> },
    PathTraversal(Seq<char>),
    Io(Seq<char>),
}

impl View for Error {
    type V = SpecError;

    open spec fn view(&self) -> SpecError {
        match self {
            Error::WorkflowParse { file, message } => SpecError::WorkflowParse {
                file: file@,
                message: message@,
            },
            Error::Validation(m) => SpecError::Validation(m@),
            Error::ExpressionSyntax { position, message } => SpecError::ExpressionSyntax {
                position: *position as int,
                message: message@,
            },
            Error::ExpressionEval(m) => SpecError::ExpressionEval(m@),
            Error::UnknownFunction(m) => SpecError::UnknownFunction(m@),
            Error::DependencyCycle(m) => SpecError::DependencyCycle(m@),
            Error::StepFailed { job, step, exit_code } => SpecError::StepFailed {
                job: job@,
                step: step@,
                exit_code: *exit_code as int,
            },
            Error::JobFailed(m) => SpecError::JobFailed(m@),
            Error::Action { action, message } => SpecError::Action {
                action: action@,
                message: message@,
            },
            Error::PathTraversal(m) => SpecError::PathTraversal(m@),
            Error::Io(m) => SpecError::Io(m@),
        }
    }
}

/// Decimal text of an integer.
pub open spec fn int_text(i: int) -> Seq<char> {
    if i < 0 {
        seq!['-'] + nat_text((-i) as nat)
    } else {
        nat_text(i as nat)
    }
}

/// The message of an error.
pub open spec fn error_text(e: SpecError) -> Seq<char> {
    match e {
        SpecError::WorkflowParse { file, message } => "workflow parse error in "@ + file + ": "@
            + message,
        SpecError::Validation(m) => "workflow validation: "@ + m,
        SpecError::ExpressionSyntax { position, message } => "expression syntax error at position "@
            + nat_text(position as nat) + ": "@ + message,
        SpecError::ExpressionEval(m) => "expression evaluation error: "@ + m,
        SpecError::UnknownFunction(m) => "unknown function: "@ + m,
        SpecError::DependencyCycle(m) => "job dependency cycle: "@ + m,
        SpecError::StepFailed { job, step, exit_code } => "step '"@ + step + "' in job '"@ + job
            + "' failed (exit code "@ + int_text(exit_code) + ")"@,
        SpecError::JobFailed(m) => "job '"@ + m + "' failed"@,
        SpecError::Action { action, message } => "action '"@ + action + "' error: "@ + message,
        SpecError::PathTraversal(m) => "path traversal attempt: "@ + m,
        SpecError::Io(m) => m,
    }
}

impl Error {
    /// The error's message (`error_text`).
    pub fn to_string(&self) -> (s: String)
        ensures
            s@ == error_text(self@),
    {
        let mut s = String::new();
        match self {
            Error::WorkflowParse { file, message } => {
                push_str(&mut s, "workflow parse error in ");
                push_str(&mut s, file.as_str());
                push_str(&mut s, ": ");
                push_str(&mut s, message.as_str());
            },
            Error::Validation(m) => {
                push_str(&mut s, "workflow validation: ");
                push_str(&mut s, m.as_str());
            },
            Error::ExpressionSyntax { position, message } => {
                push_str(&mut s, "expression syntax error at position ");
                push_decimal(&mut s, *position as u64);
                push_str(&mut s, ": ");
                push_str(&mut s, message.as_str());
            },
            Error::ExpressionEval(m) => {
                push_str(&mut s, "expression evaluation error: ");
                push_str(&mut s, m.as_str());
            },
            Error::UnknownFunction(m) => {
                push_str(&mut s, "unknown function: ");
                push_str(&mut s, m.as_str());
            },
            Error::DependencyCycle(m) => {
                push_str(&mut s, "job dependency cycle: ");
                push_str(&mut s, m.as_str());
            },
            Error::StepFailed { job, step, exit_code } => {
                push_str(&mut s, "step '");
                push_str(&mut s, step.as_str());
                push_str(&mut s, "' in job '");
                push_str(&mut s, job.as_str());
                push_str(&mut s, "' failed (exit code ");
                if *exit_code < 0 {
                    crate::text::push_char(&mut s, '-');
                    push_decimal(&mut s, (-(*exit_code as i64)) as u64);
                } else {
                    push_decimal(&mut s, *exit_code as u64);
                }
                push_str(&mut s, ")");
            },
            Error::JobFailed(m) => {
                push_str(&mut s, "job '");
                push_str(&mut s, m.as_str());
                push_str(&mut s, "' failed");
            },
            Error::Action { action, message } => {
                push_str(&mut s, "action '");
                push_str(&mut s, action.as_str());
                push_str(&mut s, "' error: ");
                push_str(&mut s, message.as_str());
            },
            Error::PathTraversal(m) => {
                push_str(&mut s, "path traversal attempt: ");
                push_str(&mut s, m.as_str());
            },
            Error::Io(m) => {
                push_str(&mut s, m.as_str());
            },
        }
        assert(s@ =~= error_text(self@));
        s
    }
}

} // verus!
