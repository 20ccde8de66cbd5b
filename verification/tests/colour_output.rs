use krez::report::standard::{StdReporter, Verbose};
use krez::report::{Diagnostic, Help, Level, Phase, Span};
use krez::session::source::SourceMap;

#[test]
fn painted_report() {
    colored::control::set_override(true);
    let mut source_map = SourceMap::new();
    let file_id = source_map.add("c.kz", "x = 1");
    let help = Help::new("add fix".to_string(), Span::new(file_id, 0, 0, 0), "fix ".to_string());
    let diag = Diagnostic::new(
        "bad".to_string(),
        Level::Error,
        Span::new(file_id, 0, 0, 1),
        Phase::Parsing,
        vec!["n".to_string()],
        vec![help],
    );
    let lines = StdReporter::new(Verbose::Verbose).render(&diag, &source_map);
    assert_eq!(
        lines,
        vec![
            "\x1b[31mError\x1b[0m: bad",
            "\x1b[34m--> c.kz in 1:1\x1b[0m",
            "1 | x = 1\n  | \x1b[33m^\x1b[0m",
            "\x1b[34mNote: n\x1b[0m",
            "\x1b[34mHelp: add fix\x1b[0m",
            "1 | \x1b[34mfix \x1b[0mx = 1\n  | \x1b[34m++++\x1b[0m",
        ]
    );
    let warn = Diagnostic::new("w".to_string(), Level::Warn, Span::new(file_id, 0, 0, 1), Phase::Lexing, vec![], vec![]);
    let lines = StdReporter::new(Verbose::Verbose).render(&warn, &source_map);
    assert_eq!(lines[0], "\x1b[33mWarn\x1b[0m: w");
}
