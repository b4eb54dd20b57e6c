//! The crate-wide error type and the process exit code of each error.

use vstd::prelude::*;

use crate::text::{dec, push_decimal, push_str};

verus! {

/// Everything that can go wrong. Errors that come from I/O or from an
/// outside library carry that error's message.
#[derive(Debug)]
pub enum AzdoError {
    Config(String),
    PatMissing(String),
    Http { status: u16, url: String, body: String },
    Transport(String),
    Io(String),
    Toml(String),
    Header(String),
    Render(String),
    Browser(String),
    /// A command-line argument or piped input that cannot be used.
    Input(String),
}

/// Exit codes the CLI reports for each error category.
#[derive(Debug, Clone, Copy, PartialEq, Eq, Structural)]
pub enum ExitCode {
    Generic,
    Config,
    Transport,
    HttpClient,
    HttpServer,
}

/// The exit category of an error.
pub open spec fn exit_code_of(e: AzdoError) -> ExitCode {
    match e {
        AzdoError::Config(_) | AzdoError::PatMissing(_) => ExitCode::Config,
        AzdoError::Http { status, .. } => if 400 <= status <= 499 {
            ExitCode::HttpClient
        } else if 500 <= status <= 599 {
            ExitCode::HttpServer
        } else {
            ExitCode::Generic
        },
        AzdoError::Transport(_) => ExitCode::Transport,
        _ => ExitCode::Generic,
    }
}

/// The number the process exits with for each category.
pub open spec fn exit_number(c: ExitCode) -> u8 {
    match c {
        ExitCode::Generic => 1,
        ExitCode::Config => 2,
        ExitCode::Transport => 3,
        ExitCode::HttpClient => 4,
        ExitCode::HttpServer => 5,
    }
}

impl ExitCode {
    /// The process exit status for this category.
    pub fn code(self) -> (r: u8)
        ensures
            r == exit_number(self),
    {
        match self {
            ExitCode::Generic => 1,
            ExitCode::Config => 2,
            ExitCode::Transport => 3,
            ExitCode::HttpClient => 4,
            ExitCode::HttpServer => 5,
        }
    }
}

/// The message of an error, as the CLI prints it.
pub open spec fn error_text(e: AzdoError) -> Seq<char> {
    match e {
        AzdoError::Config(s) => "config error: "@ + s@,
        AzdoError::PatMissing(s) => "PAT env variable `"@ + s@ + "` not set or empty"@,
        AzdoError::Http { status, url, body } => "http error: "@ + dec(status as nat) + " "@
            + url@ + "\n"@ + body@,
        AzdoError::Transport(s) => "transport error: "@ + s@,
        AzdoError::Io(s) => "io error: "@ + s@,
        AzdoError::Toml(s) => "toml parse error: "@ + s@,
        AzdoError::Header(s) => "invalid header: "@ + s@,
        AzdoError::Render(s) => "render error: "@ + s@,
        AzdoError::Browser(s) => "browser error: "@ + s@,
        AzdoError::Input(s) => "input error: "@ + s@,
    }
}

impl AzdoError {
    /// Exit code category for this error.
    pub fn exit_code(&self) -> (r: ExitCode)
        ensures
            r == exit_code_of(*self),
    {
        match self {
            AzdoError::Config(_) | AzdoError::PatMissing(_) => ExitCode::Config,
            AzdoError::Http { status, .. } => if *status >= 400 && *status <= 499 {
                ExitCode::HttpClient
            } else if *status >= 500 && *status <= 599 {
                ExitCode::HttpServer
            } else {
                ExitCode::Generic
            },
            AzdoError::Transport(_) => ExitCode::Transport,
            AzdoError::Io(_) | AzdoError::Toml(_) | AzdoError::Header(_) | AzdoError::Render(_)
            | AzdoError::Browser(_) | AzdoError::Input(_) => ExitCode::Generic,
        }
    }

    /// The error's message.
    pub fn message(&self) -> (r: String)
        ensures
            r@ == error_text(*self),
    {
        let mut out = String::new();
        match self {
            AzdoError::Config(s) => {
                push_str(&mut out, "config error: ");
                push_str(&mut out, s.as_str());
            },
            AzdoError::PatMissing(s) => {
                push_str(&mut out, "PAT env variable `");
                push_str(&mut out, s.as_str());
                push_str(&mut out, "` not set or empty");
            },
            AzdoError::Http { status, url, body } => {
                push_str(&mut out, "http error: ");
                push_decimal(&mut out, *status as u64);
                push_str(&mut out, " ");
                push_str(&mut out, url.as_str());
                push_str(&mut out, "\n");
                push_str(&mut out, body.as_str());
            },
            AzdoError::Transport(s) => {
                push_str(&mut out, "transport error: ");
                push_str(&mut out, s.as_str());
            },
            AzdoError::Io(s) => {
                push_str(&mut out, "io error: ");
                push_str(&mut out, s.as_str());
            },
            AzdoError::Toml(s) => {
                push_str(&mut out, "toml parse error: ");
                push_str(&mut out, s.as_str());
            },
            AzdoError::Header(s) => {
                push_str(&mut out, "invalid header: ");
                push_str(&mut out, s.as_str());
            },
            AzdoError::Render(s) => {
                push_str(&mut out, "render error: ");
                push_str(&mut out, s.as_str());
            },
            AzdoError::Browser(s) => {
                push_str(&mut out, "browser error: ");
                push_str(&mut out, s.as_str());
            },
            AzdoError::Input(s) => {
                push_str(&mut out, "input error: ");
                push_str(&mut out, s.as_str());
            },
        }
        assert(out@ =~= error_text(*self));
        out
    }
}

} // verus!
