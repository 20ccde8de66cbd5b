use colored::Colorize;
use krez::lexer::standard::StdLexer;
use krez::parser::ast::Stmt;
use krez::parser::standard::StdParser;
use krez::report::standard::{StdReporter, Verbose};
use krez::session::Session;

fn parse_source(text: &str) -> (Session, Vec<Stmt>) {
    let mut session = Session::new(Some(StdReporter::new(Verbose::Dev)));
    let file_id = session.source_map_mut().add("test.kz", text);
    let mut lx = StdLexer::new();
    let tokens = lx.tokenize(&mut session, file_id);
    let mut pr = StdParser::new();
    let ast = pr.parse(&mut session, tokens, file_id);
    (session, ast)
}

fn report(session: &Session, ast: &[Stmt]) {
    println!("AST:");
    for stmt in ast {
        println!("{}", stmt.to_string());
    }
    if session.has_error() {
        for line in session.show_errors() {
            println!("{line}");
        }
    }
}

fn test_parser_if_else() {
    println!("{}", "test_parser_if_else".yellow());
    let (session, ast) = parse_source(
        "
fix a = 4;
mut r = 0;
if a < 3 {
	r = -3;
} elif a > 3 {
	r = 3;
} else {
	r = 0;
}",
    );
    report(&session, &ast);
    assert_eq!(session.has_error(), false);
}

fn test_parser_if_else_err() {
    println!("{}", "test_parser_if_else_err".yellow());
    let (session, ast) = parse_source(
        "
fix a = 4
mut r = 0;
if a < 3 
	r = -3;
} elif a > 3 {
	r = 3;
 else {
	r = 0;
}",
    );
    report(&session, &ast);
    assert_eq!(session.has_error(), true);
}

#[test]
fn std_parser_if_elset_main() {
    println!("===== Running tests =====");
    test_parser_if_else();
    test_parser_if_else_err();
    println!("===== All tests passed! =====");
}
