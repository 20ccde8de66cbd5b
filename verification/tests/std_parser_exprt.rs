use colored::Colorize;
use krez::lexer::standard::StdLexer;
use krez::parser::standard::StdParser;
use krez::report::standard::{StdReporter, Verbose};
use krez::session::Session;

fn parser_for(text: &str) -> (Session, StdParser) {
    let mut session = Session::new(Some(StdReporter::new(Verbose::Dev)));
    let file_id = session.source_map_mut().add("test.kz", text);
    let mut lx = StdLexer::new();
    let tokens = lx.tokenize(&mut session, file_id);
    (session, StdParser::new_full(tokens, file_id))
}

fn test_parser_expr_arithmetic() {
    println!("{}", "test_parser_arithmetic".yellow());
    let (mut session, mut pr) = parser_for("2 / 2 + 2 * 2 + math::add(1, 3)");
    println!("AST: {}", pr.expr(&mut session).unwrap().to_string());
    if session.has_error() {
        for line in session.show_errors() {
            println!("{line}");
        }
    }
    assert_eq!(session.has_error(), false);
}

fn test_parser_expr_compare_and_logic() {
    println!("{}", "test_parser_expr_compare_and_logic".yellow());
    let (mut session, mut pr) = parser_for("2 / 2 + 2 * 2 > 2 && 1 != 2");
    println!("AST: {}", pr.expr(&mut session).unwrap().to_string());
    if session.has_error() {
        for line in session.show_errors() {
            println!("{line}");
        }
    }
    assert_eq!(session.has_error(), false);
}

#[test]
fn std_parser_exprt_main() {
    println!("===== Running tests =====");
    test_parser_expr_arithmetic();
    test_parser_expr_compare_and_logic();
    println!("===== All tests passed! =====");
}
