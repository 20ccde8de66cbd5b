//! Turning source text into tokens.

pub mod standard;
pub mod token;

use crate::lexer::standard::{fresh_state, lex_all, room};
use crate::lexer::token::{tokens_view, Token};
use crate::session::source::FileId;
use crate::session::Session;
use vstd::prelude::*;

verus! {

/// A lexer: turns a file of the session into tokens, ending with `Eof`, and reports
/// the errors it finds to the session.
pub trait Lexer {
    fn tokenize(&mut self, session: &mut Session, file_id: FileId) -> (r: Vec<Token>)
        requires
            old(session).wf(),
            file_id < old(session).spec_sources().len(),
            old(session).spec_sources()[file_id as int].wf(),
            lex_all(
                old(session).spec_sources()[file_id as int].text@,
                old(session).spec_sources()[file_id as int].len as int,
                file_id as nat,
                fresh_state(old(session).diags()),
            ) is Some,
            room(fresh_state(old(session).diags()), old(session).spec_sources()[file_id as int].len as int),
        ensures
            final(session).wf(),
            final(session).spec_sources() == old(session).spec_sources(),
            final(session).mangle_count() == old(session).mangle_count(),
            final(session).spec_reporter() == old(session).spec_reporter(),
            final(session).spec_modules() == old(session).spec_modules(),
            ({
                let s = lex_all(
                    old(session).spec_sources()[file_id as int].text@,
                    old(session).spec_sources()[file_id as int].len as int,
                    file_id as nat,
                    fresh_state(old(session).diags()),
                ).unwrap();
                &&& final(session).diags() == s.diags
                &&& tokens_view(r@) == s.toks
            }),
    ;
}

} // verus!
