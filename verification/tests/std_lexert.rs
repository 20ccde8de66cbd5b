use colored::Colorize;
use krez::lexer::standard::StdLexer;
use krez::report::standard::{StdReporter, Verbose};
use krez::session::Session;

fn lex(text: &str) -> (Session, Vec<krez::lexer::token::Token>) {
    let mut session = Session::new(Some(StdReporter::new(Verbose::Dev)));
    let file_id = session.source_map_mut().add("test.kz", text);
    let mut lx = StdLexer::new();
    let tokens = lx.tokenize(&mut session, file_id);
    (session, tokens)
}

fn test_lexer_all_tokens() {
    println!("{}", "test_lexer_all_tokens".yellow());
    let (session, tokens) = lex(
        "+ - * /
< <= >= > != == && ||
= += -= *= /= 
/* long 
comment */ () {} [] // short comment
true false some1_ident
fn while ret
\"Some string\"",
    );
    println!("{}", "Tokenized:".blue());
    for token in tokens {
        println!("{}", token.to_string());
    }
    if session.has_error() {
        for line in session.show_errors() {
            println!("{line}");
        }
    }
    assert_eq!(session.has_error(), false);
}

fn test_lexer_errors() {
    println!("{}", "test_lexer_errors".yellow());
    let (session, tokens) = lex("@ # | &");
    for token in tokens {
        println!("{}", token.to_string());
    }
    if session.has_error() {
        for line in session.show_errors() {
            println!("{line}");
        }
    }
    assert_eq!(session.has_error(), true);
}

#[test]
fn std_lexert_main() {
    println!("===== Running tests =====");
    test_lexer_all_tokens();
    test_lexer_errors();
    println!("===== All tests passed! =====");
}
