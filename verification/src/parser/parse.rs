use crate::ast::ast::{law_insert_keeps_names_sorted, names_sorted, Program};
use crate::ast::view::FunV;
use crate::parser::common::{program_parser, toks};
use crate::parser::grammar::{insert_fun, insert_funs, program_at};
use crate::parser::lexer::token::TokenV;
use crate::parser::lexer::token::Token;
use vstd::prelude::*;

verus! {

/// The report of a token sequence that is no program.
#[derive(Debug, Clone, Copy, PartialEq, Eq)]
pub struct ParseError;

/// The program the tokens spell, or `ParseError` exactly where they spell none.
pub fn parse(tokens: &[Token]) -> (r: Result<Program, ParseError>)
    ensures
        match r {
            Ok(prog) => program_at(toks(tokens)) == Some(prog@),
            Err(_) => program_at(toks(tokens)) is None,
        },
{
    match program_parser(tokens) {
        Some(prog) => Ok(prog),
        None => Err(ParseError),
    }
}

proof fn lemma_insert_funs_sorted(m: Seq<FunV>, fs: Seq<FunV>)
    requires
        names_sorted(m),
    ensures
        names_sorted(insert_funs(m, fs)),
    decreases fs.len(),
{
    if fs.len() > 0 {
        lemma_insert_funs_sorted(m, fs.drop_last());
        law_insert_keeps_names_sorted(insert_funs(m, fs.drop_last()), fs.last());
    }
}

/// A parsed program has one function per name, in the order of the names.
pub proof fn law_parsed_names_sorted(t: Seq<TokenV>)
    requires
        program_at(t) is Some,
    ensures
        names_sorted(program_at(t)->Some_0),
{
    let e = Seq::<FunV>::empty();
    let (before, p1) = crate::parser::grammar::funs_from(t, 0, e);
    let (main, p2) = crate::parser::grammar::main_fun_at(t, p1)->Some_0;
    let (after, p3) = crate::parser::grammar::funs_from(t, p2, e);
    lemma_insert_funs_sorted(e, before);
    law_insert_keeps_names_sorted(insert_funs(e, before), main);
    lemma_insert_funs_sorted(insert_fun(insert_funs(e, before), main), after);
}

} // verus!
