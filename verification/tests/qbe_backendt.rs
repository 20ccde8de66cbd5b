use colored::Colorize;
use krez::backend::qbe::QbeBackend;
use krez::lexer::standard::StdLexer;
use krez::parser::standard::StdParser;
use krez::report::standard::{StdReporter, Verbose};
use krez::session::Session;

fn compile(text: &str) -> Session {
    let mut session = Session::new(Some(StdReporter::new(Verbose::Dev)));
    let file_id = session.source_map_mut().add("test.kz", text);
    let mut lx = StdLexer::new();
    let tokens = lx.tokenize(&mut session, file_id);
    let mut pr = StdParser::new();
    let ast = pr.parse(&mut session, tokens, file_id);
    let mut backend = QbeBackend::new();
    backend.compile(&mut session, file_id, &ast);
    println!("QBE IR:\n{:?}", backend.module());
    session
}

fn test_qbe() {
    println!("{}", "test_qbe".yellow());
    let session = compile(
        "
fn main(argc: i32, args: &[string]) i32 {
	fix a: i32 = 2 + 2 * 2;
	mut z: bool = true;
	fix j: f32 = 3.14 + 3.0; 
	
	
}",
    );
    if session.has_error() {
        for line in session.show_errors() {
            println!("{line}");
        }
    }
    assert_eq!(session.has_error(), false);
}

fn test_qbe_err() {
    println!("{}", "test_qbe_err".yellow());
    let session = compile(
        "
fn main(argc: i32, args: &[string]) i32 {
	fix a: i32 = 3.15 + 2;
	mut z: bool = true;
	fix j: f32 = 3.14 + z + r; 
}",
    );
    if session.has_error() {
        for line in session.show_errors() {
            println!("{line}");
        }
    }
    assert_eq!(session.has_error(), true);
}

#[test]
fn qbe_backendt_main() {
    println!("===== Running tests =====");
    test_qbe();
    test_qbe_err();
    println!("===== All tests passed! =====");
}
