use colored::Colorize;
use krez::lexer::standard::StdLexer;
use krez::parser::standard::StdParser;
use krez::report::standard::{StdReporter, Verbose};
use krez::session::Session;

fn test_parser_types() {
    println!("{}", "test_parser_types".yellow());
    let mut session = Session::new(Some(StdReporter::new(Verbose::Dev)));
    let file_id = session.source_map_mut().add("test.kz", "&[i32]");
    let mut lx = StdLexer::new();
    let tokens = lx.tokenize(&mut session, file_id);
    let mut pr = StdParser::new_full(tokens, file_id);
    let ty = pr.parse_type(&mut session);
    println!("AST: {}", ty.text().iter().collect::<String>());
    if session.has_error() {
        for line in session.show_errors() {
            println!("{line}");
        }
    }
    assert_eq!(session.has_error(), false);
}

#[test]
fn std_parser_typet_main() {
    println!("===== Running tests =====");
    test_parser_types();
    println!("===== All tests passed! =====");
}
