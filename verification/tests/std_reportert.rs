use krez::lexer::token::{Token, TokenKind};
use krez::report::standard::{StdReporter, Verbose};
use krez::report::{Diagnostic, Help, Level, Phase, Span};
use krez::session::source::SourceMap;

fn emit(reporter: &StdReporter, diag: &Diagnostic, source_map: &SourceMap) -> Vec<String> {
    let lines = reporter.render(diag, source_map);
    for line in &lines {
        println!("{line}");
    }
    lines
}

fn test_reporter_error() {
    let mut source_map = SourceMap::new();
    let file_id = source_map.add("test.kz", "fn main() {\n    x = @ 5\n}");

    let span = Span::new(file_id, 1, 8, 1);
    let diag = Diagnostic::new("unexpected token '@'".to_string(), Level::Error, span, Phase::Lexing, vec![], vec![]);

    let reporter = StdReporter::new(Verbose::Verbose);
    emit(&reporter, &diag, &source_map);
}

fn test_reporter_with_note() {
    let mut source_map = SourceMap::new();
    let file_id = source_map.add("test.kz", "fn main() {\n    x = 5\n}");

    let span = Span::new(file_id, 1, 4, 1);
    let diag = Diagnostic::new(
        "unused variable".to_string(),
        Level::Warn,
        span,
        Phase::TypeChecking,
        vec!["variable `x` is never read".to_string()],
        vec![],
    );

    let reporter = StdReporter::new(Verbose::Verbose);
    emit(&reporter, &diag, &source_map);
}

fn test_reporter_with_help() {
    let mut source_map = SourceMap::new();
    let file_id = source_map.add("test.kz", "fn main() {\n    x = 5\n}");

    let span = Span::new(file_id, 1, 4, 1);
    let help = Help::new("did you mean to declare `x`?".to_string(), Span::new(file_id, 1, 4, 1), "fix x".to_string());

    let diag = Diagnostic::new("undefined variable `x`".to_string(), Level::Error, span, Phase::Parsing, vec![], vec![help]);

    let reporter = StdReporter::new(Verbose::Verbose);
    emit(&reporter, &diag, &source_map);
}

fn test_reporter_dev_mode() {
    let mut source_map = SourceMap::new();
    let file_id = source_map.add("test.kz", "fn main() {}");

    let span = Span::new(file_id, 0, 0, 1);
    let diag = Diagnostic::new("test".to_string(), Level::Error, span, Phase::CodeGen, vec![], vec![]);

    let reporter = StdReporter::new(Verbose::Dev);
    emit(&reporter, &diag, &source_map);
}

fn test_normal_verbosity_skips_warnings() {
    let mut source_map = SourceMap::new();
    let file_id = source_map.add("test.kz", "");

    let span = Span::new(file_id, 0, 0, 0);
    let diag = Diagnostic::new("test warning".to_string(), Level::Warn, span, Phase::Parsing, vec![], vec![]);

    let reporter = StdReporter::new(Verbose::Normal);
    emit(&reporter, &diag, &source_map);
}

fn test_macro_span_from_token() {
    let token = Token::new(TokenKind::Plus, 5, 10, 100, 1);
    let file_id = 0;
    let span = Span::new(file_id, token.line, token.offset, token.len);

    assert_eq!(span.id, 0);
    assert_eq!(span.line, 5);
    assert_eq!(span.offset, 10);
    assert_eq!(span.len, 1);
}

fn test_macro_diag_with_all_fields() {
    let file_id = 0;
    let span = Span::new(file_id, 1, 2, 3);
    let help_msg = Help::new("test help".to_string(), span, "fixed".to_string());

    let diag = Diagnostic::new(
        "test message".to_string(),
        Level::Error,
        span,
        Phase::Lexing,
        vec!["note 1".to_string()],
        vec![help_msg],
    );

    assert_eq!(diag.message, "test message");
    assert_eq!(diag.level, Level::Error);
    assert_eq!(diag.notes.len(), 1);
    assert_eq!(diag.helps.len(), 1);
}

#[test]
fn std_reportert_main() {
    println!("\n===== Running tests =====");

    test_reporter_error();

    test_reporter_with_note();

    test_reporter_with_help();

    test_reporter_dev_mode();

    test_normal_verbosity_skips_warnings();

    test_macro_span_from_token();

    test_macro_diag_with_all_fields();

    println!("===== All tests passed! =====");
}
