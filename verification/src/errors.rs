//! Compilation errors. All of them are static: they are found while the
//! syntax tree is lowered, before any assembly is produced, and each one
//! aborts the whole compilation.

use vstd::prelude::*;
use vstd::string::StringExecFns;

verus! {

/// Why a compilation was rejected. Variants carrying a `String` name the
/// offending identifier.
#[derive(Debug)]
pub enum CompileError {
    /// The same name was declared twice in one scope frame.
    DuplicateDeclaration(String),
    /// An identifier resolves to neither a local nor a global.
    UndefinedVariable(String),
    /// A call names a function that was never declared.
    UndefinedFunction(String),
    /// A second full definition of an already defined global or function.
    ConflictingDefinition(String),
    /// `break` outside of any loop.
    BreakOutsideLoop,
    /// `continue` outside of any loop.
    ContinueOutsideLoop,
}

/// The diagnostic text for an error, as a character sequence.
pub open spec fn message_view(e: CompileError) -> Seq<char> {
    match e {
        CompileError::DuplicateDeclaration(n) =>
            "variable `"@ + n@ + "` redefined in current context"@,
        CompileError::UndefinedVariable(n) =>
            "variable `"@ + n@ + "` not defined in current context"@,
        CompileError::UndefinedFunction(n) =>
            "function `"@ + n@ + "` not defined in current context"@,
        CompileError::ConflictingDefinition(n) =>
            "`"@ + n@ + "` redefined in current context"@,
        CompileError::BreakOutsideLoop => "break out of loop"@,
        CompileError::ContinueOutsideLoop => "continue out of loop"@,
    }
}

impl CompileError {
    /// A human-readable description naming the offending identifier.
    pub fn message(&self) -> (r: String)
        ensures
            r@ == message_view(*self),
    {
        match self {
            CompileError::DuplicateDeclaration(n) => {
                let mut s = String::from_str("variable `");
                s.append(n.as_str());
                s.append("` redefined in current context");
                s
            }
            CompileError::UndefinedVariable(n) => {
                let mut s = String::from_str("variable `");
                s.append(n.as_str());
                s.append("` not defined in current context");
                s
            }
            CompileError::UndefinedFunction(n) => {
                let mut s = String::from_str("function `");
                s.append(n.as_str());
                s.append("` not defined in current context");
                s
            }
            CompileError::ConflictingDefinition(n) => {
                let mut s = String::from_str("`");
                s.append(n.as_str());
                s.append("` redefined in current context");
                s
            }
            CompileError::BreakOutsideLoop => String::from_str("break out of loop"),
            CompileError::ContinueOutsideLoop => String::from_str("continue out of loop"),
        }
    }
}

} // verus!
