//! A compiler from a small imperative language to the instructions of a
//! simple stored-program machine.
//!
//! A source text goes through three steps. [`parser::comments`] takes the
//! comments out, [`parser::reader`] reads the tree of [`ast`] and interns the
//! names in an [`env::Environment`], and [`codegen::generator`] resolves the
//! names in [`scope`]s, tells by the [`control`] context whether `break`,
//! `continue` and `return` are legal, and emits the instructions of
//! [`target`]. The first thing that is wrong ends the compilation with a
//! [`parser::token::ParseError`] or an [`error::CompilerError`];
//! [`violations`] lists all that is wrong. [`compile_source`] does the three
//! steps in a row.

pub mod ast;
pub mod codegen;
pub mod control;
pub mod env;
pub mod error;
pub mod parser;
pub mod scope;
pub mod shape;
pub mod target;
pub mod violations;

use vstd::prelude::*;
use vstd::string::{StringExecFns, StringSliceAdditionalSpecFns};
use crate::ast::Program;
use crate::codegen::congruence::lemma_program_same;
use crate::codegen::generator::generate;
use crate::codegen::model::program_code;
use crate::parser::comments::{strip_comments, without_comments};
use crate::parser::grammar::parsed;
use crate::parser::reader::parse;
use crate::shape::program_shape;
use crate::target::Instr;

verus! {

/// Whether `result` is what compiling the text `source` gives: the
/// instructions of the program that the text spells once its comments are
/// taken out, or a message that says why there are none.
pub open spec fn compiled(source: Seq<u8>, result: Result<Vec<Instr>, String>) -> bool {
    match parsed(without_comments(source)) {
        Err(e) => result matches Err(text) && text@ == "Error during file parsing:\n"@
            + e.message(),
        Ok(reading) => {
            &&& exists|program: Program| #[trigger] program_shape(program) == reading.program
            &&& forall|program: Program| #[trigger]
                program_shape(program) == reading.program ==> match program_code(program) {
                    Ok(code) => result matches Ok(c) && c@ == code,
                    Err(e) => result matches Err(text) && text@ == "Error during compilation:\n"@
                        + e.message(reading.names),
                }
        },
    }
}

/// Compiles a source text: takes the comments out, reads the program, and
/// generates its instructions. What is wrong with the text comes back as a
/// message, under a heading that says whether the text is no program or the
/// program cannot be compiled.
pub fn compile_source(source: &str) -> (result: Result<Vec<Instr>, String>)
    ensures
        compiled(source.spec_bytes(), result),
{
    let text = strip_comments(source.as_bytes());
    let (program, env) = match parse(text.as_slice()) {
        Ok(read) => read,
        Err(e) => {
            let message = e.render();
            return Err(String::from_str("Error during file parsing:\n").concat(message.as_str()));
        },
    };
    let result = match generate(&program, &env) {
        Ok(code) => Ok(code),
        Err(e) => {
            let message = e.render(&env);
            Err(String::from_str("Error during compilation:\n").concat(message.as_str()))
        },
    };
    proof {
        let reading = parsed(without_comments(source.spec_bytes()))->Ok_0;
        assert forall|other: Program| #[trigger]
            program_shape(other) == reading.program implies match program_code(other) {
            Ok(code) => result matches Ok(c) && c@ == code,
            Err(e) => result matches Err(text) && text@ == "Error during compilation:\n"@
                + e.message(reading.names),
        } by {
            lemma_program_same(other, program);
        }
    }
    result
}

} // verus!
