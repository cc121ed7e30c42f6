use vstd::prelude::*;

verus! {

/// Failure taxonomy of the harness, one variant per pipeline stage.  Each
/// variant carries the underlying diagnostic text, forwarded unchanged, so
/// a caller can branch on the kind and still display the original message.
#[derive(Debug)]
pub enum Error {
    /// No package manifest was found under the root directory.
    ManifestNotFound(String),
    /// The workspace could not be resolved, or it holds no library package.
    ResolutionError(String),
    /// Semantic checking or per-function compilation failed.
    CompileError(String),
    /// The requested function name is absent from the exported set.
    FunctionNotFound(String),
    /// The input mapping does not match the target function's ABI.
    EncodeError(String),
    /// Circuit evaluation failed.
    SolveError(String),
    /// The completed witness cannot be decoded against the return shape.
    DecodeError(String),
}

impl Error {
    /// The diagnostic text carried by the variant.
    pub open spec fn text(self) -> Seq<char> {
        match self {
            Error::ManifestNotFound(s) => s@,
            Error::ResolutionError(s) => s@,
            Error::CompileError(s) => s@,
            Error::FunctionNotFound(s) => s@,
            Error::EncodeError(s) => s@,
            Error::SolveError(s) => s@,
            Error::DecodeError(s) => s@,
        }
    }

    /// Hands back the carried diagnostic for display, losslessly.
    pub fn message(&self) -> (r: &str)
        ensures
            r@ == self.text(),
    {
        match self {
            Error::ManifestNotFound(s) => s.as_str(),
            Error::ResolutionError(s) => s.as_str(),
            Error::CompileError(s) => s.as_str(),
            Error::FunctionNotFound(s) => s.as_str(),
            Error::EncodeError(s) => s.as_str(),
            Error::SolveError(s) => s.as_str(),
            Error::DecodeError(s) => s.as_str(),
        }
    }
}

/// Renders a diagnostic value as plain text for the single textual
/// failure channel.
pub fn debug_string<E: core::fmt::Debug>(e: E) -> String {
    format_debug(e)
}

/// Relies on core::fmt's `Debug` formatting.
#[verifier::external_body]
fn format_debug<E: core::fmt::Debug>(e: E) -> String {
    format!("{e:?}")
}

} // verus!
