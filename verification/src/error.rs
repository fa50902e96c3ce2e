//! What can be wrong with a program that parsed.

use vstd::prelude::*;
use vstd::string::StringExecFns;
use crate::ast::Ident;
use crate::env::{spelling, Environment};

verus! {

/// The reason why no code was generated.
///
/// A name is resolved as what its use asks for: a value, an assignable cell,
/// an array, or a function of as many parameters as the call has arguments.
/// A name whose innermost binding is of another kind counts as undefined for
/// that use.
#[derive(Clone, Copy, Debug, PartialEq, Eq, Structural, Hash)]
pub enum CompilerError {
    /// The name is already declared in the innermost scope.
    DuplicateDeclaration(Ident),
    /// The name is used but no enclosing scope binds it to what the use needs.
    UndefinedVariable(Ident),
    /// `break` with no loop around it inside the current function.
    BreakOutsideLoop,
    /// `continue` with no loop around it inside the current function.
    ContinueOutsideLoop,
    /// `return` outside every function.
    ReturnOutsideFunction,
    /// A call inside a constant expression.
    FunctionCallInConstant,
    /// An array access inside a constant expression.
    IndexInConstant,
    /// A name inside a constant expression that is not a constant.
    UndefinedOrNonConstInConstant,
}

impl CompilerError {
    /// The message for this error, with a name spelled as `names` has it.
    pub open spec fn message(self, names: Seq<Seq<char>>) -> Seq<char> {
        match self {
            CompilerError::DuplicateDeclaration(name) => "Duplicate declaration of variable: "@
                + spelling(names, name),
            CompilerError::UndefinedVariable(name) => "Undefined variable: "@ + spelling(
                names,
                name,
            ),
            CompilerError::BreakOutsideLoop => "Break outside loop"@,
            CompilerError::ContinueOutsideLoop => "Continue outside loop"@,
            CompilerError::ReturnOutsideFunction => "Return outside function"@,
            CompilerError::FunctionCallInConstant => "Function call in const context"@,
            CompilerError::IndexInConstant => "Array indexing in const context"@,
            CompilerError::UndefinedOrNonConstInConstant => {
                "Undefined or un-const variable in const context"@
            },
        }
    }

    /// Spells the error out for a reader.
    pub fn render(&self, env: &Environment) -> (text: String)
        ensures
            text@ == self.message(env@),
    {
        match self {
            CompilerError::DuplicateDeclaration(name) => String::from_str(
                "Duplicate declaration of variable: ",
            ).concat(env.resolve_name(*name)),
            CompilerError::UndefinedVariable(name) => String::from_str(
                "Undefined variable: ",
            ).concat(env.resolve_name(*name)),
            CompilerError::BreakOutsideLoop => String::from_str("Break outside loop"),
            CompilerError::ContinueOutsideLoop => String::from_str("Continue outside loop"),
            CompilerError::ReturnOutsideFunction => String::from_str("Return outside function"),
            CompilerError::FunctionCallInConstant => String::from_str(
                "Function call in const context",
            ),
            CompilerError::IndexInConstant => String::from_str("Array indexing in const context"),
            CompilerError::UndefinedOrNonConstInConstant => String::from_str(
                "Undefined or un-const variable in const context",
            ),
        }
    }
}

} // verus!
