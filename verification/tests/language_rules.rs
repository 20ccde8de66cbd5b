use krez::backend::qbe::QbeBackend;
use krez::backend::ir::{IrCmp, IrDataItem, IrInstr, IrStatement, IrType, IrValue};
use krez::backend::{Backend, BackendOutput};
use krez::compiler::{KrezCompiler, KrezCompilerApi};
use krez::compiler::Module;
use krez::lexer::standard::{is_letter, StdLexer};
use krez::lexer::Lexer;
use krez::lexer::token::{Keyword, Token, TokenKind};
use krez::parser::ast::Stmt;
use krez::parser::standard::StdParser;
use krez::parser::types::Type;
use krez::parser::{Info, Parser};
use krez::report::standard::{StdReporter, Verbose};
use krez::report::{Diagnostic, Level, Phase, Reporter, Span};
use krez::session::source::{Source, SourceMap};
use krez::session::Session;
use krez::visitor::standard::collector::StdCollector;

fn plain() {
    colored::control::set_override(false);
}

fn lex_with(verbose: Verbose, text: &str) -> (Session, Vec<Token>) {
    plain();
    let mut session = Session::new(Some(StdReporter::new(verbose)));
    let file_id = session.source_map_mut().add("test.kz", text);
    let mut lx = StdLexer::new();
    let tokens = lx.tokenize(&mut session, file_id);
    (session, tokens)
}

fn parse_with(verbose: Verbose, text: &str) -> (Session, Vec<Stmt>) {
    let (mut session, tokens) = lex_with(verbose, text);
    let mut pr = StdParser::new();
    let ast = pr.parse(&mut session, tokens, 0);
    (session, ast)
}

fn texts(ast: &[Stmt]) -> Vec<String> {
    ast.iter().map(|s| s.to_string()).collect()
}

fn compile(text: &str) -> (Session, QbeBackend) {
    let (mut session, ast) = parse_with(Verbose::Normal, text);
    assert!(!session.has_error());
    let mut backend = QbeBackend::new();
    backend.compile(&mut session, 0, &ast);
    (session, backend)
}

#[test]
fn tokens_end_with_one_eof() {
    let (session, tokens) = lex_with(Verbose::Normal, "fix a = 1;\nmut b = a;");
    assert!(!session.has_error());
    assert_eq!(tokens.len(), 11);
    assert!(matches!(tokens.last().unwrap().kind, TokenKind::Eof));
    let eofs = tokens.iter().filter(|t| matches!(t.kind, TokenKind::Eof)).count();
    assert_eq!(eofs, 1);
    assert_eq!(tokens.last().unwrap().to_string(), "Eof");
    let starts: Vec<usize> = tokens.iter().map(|t| t.pos).collect();
    assert_eq!(starts, vec![0, 4, 6, 8, 9, 11, 15, 17, 19, 20, 21]);
}

#[test]
fn token_positions() {
    let (_, tokens) = lex_with(Verbose::Normal, "fix a = 1;\n  b");
    let b = &tokens[5];
    assert_eq!(b.to_string(), "b");
    assert_eq!((b.line, b.offset, b.pos, b.len), (1, 2, 13, 1));
}

#[test]
fn keywords_read_back() {
    let words = "fn while fix mut break continue if elif else ret extern pub use";
    let (session, tokens) = lex_with(Verbose::Normal, &format!("{words} true false"));
    assert!(!session.has_error());
    let expected = [
        Keyword::Fn,
        Keyword::While,
        Keyword::Fix,
        Keyword::Mut,
        Keyword::Break,
        Keyword::Continue,
        Keyword::If,
        Keyword::Elif,
        Keyword::Else,
        Keyword::Ret,
        Keyword::Extern,
        Keyword::Pub,
        Keyword::Use,
    ];
    for (i, (word, kw)) in words.split(' ').zip(expected.iter()).enumerate() {
        assert!(matches!(tokens[i].kind, TokenKind::Keyword(k) if k == *kw));
        assert_eq!(tokens[i].to_string(), word);
    }
    assert!(matches!(tokens[13].kind, TokenKind::Bool(true)));
    assert!(matches!(tokens[14].kind, TokenKind::Bool(false)));
    assert!(matches!(&tokens[15].kind, TokenKind::Eof));
}

#[test]
fn number_literals() {
    let (session, tokens) = lex_with(Verbose::Normal, "42 3.14");
    assert!(!session.has_error());
    assert!(matches!(tokens[0].kind, TokenKind::Int(42)));
    assert!(matches!(&tokens[1].kind, TokenKind::Float(s) if s == "3.14"));
}

#[test]
fn string_literal_takes_the_next_character() {
    let (session, tokens) = lex_with(Verbose::Normal, "\"a b\"; x");
    assert!(!session.has_error());
    assert!(matches!(&tokens[0].kind, TokenKind::Str(s) if s == "a b"));
    assert_eq!((tokens[0].pos, tokens[0].len), (0, 5));
    assert_eq!(tokens[1].to_string(), "x");
    assert_eq!(tokens.len(), 3);
}

#[test]
fn unknown_character_error() {
    let (session, _) = lex_with(Verbose::Normal, "a @ b");
    assert!(session.has_error());
    let lines = session.show_errors();
    assert_eq!(lines, vec!["Error: Unknown character '@'", "--> test.kz in 1:3", "1 | a @ b\n  |   ^"]);
}

#[test]
fn lone_pipe_error_with_help() {
    let (session, _) = lex_with(Verbose::Verbose, "a | b");
    assert!(session.has_error());
    let lines = session.show_errors();
    assert_eq!(lines[0], "Error: Unknown character '|'");
    assert_eq!(lines[3], "Help: Meybe you mean `||`?");
    assert_eq!(lines[4], "1 | a || b\n  |   ++");
    assert_eq!(lines.len(), 5);
}

#[test]
fn number_errors() {
    let (session, tokens) = lex_with(Verbose::Normal, "99999999999999999999");
    assert!(matches!(tokens[0].kind, TokenKind::Int(0)));
    assert_eq!(session.show_errors()[0], "Error: Failed parse number: number too large to fit in target type");
    let (session, tokens) = lex_with(Verbose::Normal, "1.2.3");
    assert!(matches!(&tokens[0].kind, TokenKind::Float(s) if s == "0.0"));
    assert_eq!(session.show_errors()[0], "Error: Failed parse number: invalid float literal");
}

#[test]
fn expression_text() {
    let (session, ast) = parse_with(Verbose::Normal, "2 / 2 + 2 * 2 + math::add(1, 3) > -x && !ok || \"s\" == 1.5");
    assert!(!session.has_error());
    assert_eq!(
        texts(&ast),
        vec!["((((((2 / 2) + (2 * 2)) + math::add(1, 3)) > -x) && !ok) || (\"s\" == 1.5))"]
    );
}

#[test]
fn statement_text() {
    let (session, ast) = parse_with(
        Verbose::Normal,
        "fix a: i32 = 2 + 2;\nmut b = 4;\n*p -= 1;\nuse std::io;\npub use a::b::c;",
    );
    assert!(!session.has_error());
    assert_eq!(
        texts(&ast),
        vec!["fix a: i32 = (2 + 2);", "mut b: UNKNOWN = 4;", "*p -= 1;", "use std::io;", "pub use a::b::c;"]
    );
}

#[test]
fn function_and_block_text() {
    let (session, ast) = parse_with(
        Verbose::Normal,
        "pub fn add(x: i32, y: &[string]) i32 {\n while x < 3 { x += 1; break; }\n if x { ret 1; } elif y { continue; } else { ret; }\n}",
    );
    assert!(!session.has_error());
    assert_eq!(
        texts(&ast),
        vec![
            "pub fn add(x: i32, y: &[string]) i32{\n    while (x < 3) {\n\tx += 1;\n\tbreak;\n}\n    if x {\n    ret 1;\n} elif y {\n    continue;\n} else  {\n    ret;\n}\n\n}"
        ]
    );
}

#[test]
fn parse_errors() {
    let (session, ast) = parse_with(Verbose::Normal, "fix a = 1\nfix b = 2;");
    assert!(session.has_error());
    assert_eq!(session.show_errors()[0], "Error: Expected ';', found fix");
    assert_eq!(ast.len(), 2);

    let (session, _) = parse_with(Verbose::Normal, "fix = 1;");
    assert_eq!(session.show_errors()[0], "Error: Expected identificator, found =");

    let (session, _) = parse_with(Verbose::Normal, ")");
    assert_eq!(session.show_errors()[0], "Error: Unexpected token )");

    let (session, ast) = parse_with(Verbose::Normal, "fix b: i32 2;");
    assert_eq!(session.show_errors()[0], "Error: Expected '=', found 2");
    assert_eq!(texts(&ast), vec!["fix b: i32 = INVALID_VALUE;"]);

    let (session, _) = parse_with(Verbose::Normal, "fix c = ;");
    assert_eq!(session.show_errors()[0], "Error: Expected expression, found ;");
}

#[test]
fn type_names_read_back() {
    for name in ["i32", "f32", "bool", "string", "Point"] {
        let t = Type::from_str(&name.to_string(), Info::empty());
        assert_eq!(t.to_string(), name);
    }
    assert!(matches!(Type::from_str(&"i32".to_string(), Info::empty()), Type::I32(_)));
    assert!(matches!(Type::from_str(&"Point".to_string(), Info::empty()), Type::Custom(_, _)));
}

#[test]
fn info_text() {
    let i = Info { line: 3, offset: 14, len: 2 };
    assert_eq!(i.to_string(), "3:14 2");
}

#[test]
fn source_lines_and_tabs() {
    let s = Source::new("a.kz", "a\tb\nsecond\n\nlast");
    assert_eq!(s.text, "a    b\nsecond\n\nlast");
    assert_eq!(s.lines, vec![0, 7, 14, 15]);
    assert_eq!(s.len, 19);
    assert_eq!(s.get_line(0), "a    b");
    assert_eq!(s.get_line(1), "second");
    assert_eq!(s.get_line(2), "");
    assert_eq!(s.get_line(3), "last");
}

#[test]
fn error_flag_stays_raised() {
    let (mut session, tokens) = lex_with(Verbose::Normal, "@ fix a = 1;");
    assert!(session.has_error());
    let mut pr = StdParser::new();
    let ast = pr.parse(&mut session, tokens, 0);
    assert_eq!(texts(&ast), vec!["fix a: UNKNOWN = 1;"]);
    assert!(session.has_error());
}

#[test]
fn verbosity_levels() {
    let (session, _) = parse_with(Verbose::Normal, "fix a = 1");
    let normal = session.show_errors();
    assert_eq!(normal.len(), 3);
    let (session, _) = parse_with(Verbose::Verbose, "fix a = 1");
    assert_eq!(session.show_errors().len(), 5);
    let (session, _) = parse_with(Verbose::Dev, "fix a = 1");
    let dev = session.show_errors();
    assert_eq!(dev.len(), 6);
    assert_eq!(dev[1], "Phase: Parsing");

    let mut source_map = SourceMap::new();
    let file_id = source_map.add("w.kz", "fix a = 1;");
    let warn = || Diagnostic::new("unused".to_string(), Level::Warn, Span::new(file_id, 0, 4, 1), Phase::TypeChecking, vec!["note".to_string()], vec![]);
    assert!(StdReporter::new(Verbose::Normal).render(&warn(), &source_map).is_empty());
    let shown = StdReporter::new(Verbose::Verbose).render(&warn(), &source_map);
    assert_eq!(shown, vec!["Warn: unused", "--> w.kz in 1:5", "1 | fix a = 1;\n  |     ^", "Note: note"]);
}

#[test]
fn exported_functions() {
    let (session, backend) = compile("fn main() i32 { ret 0; }\nfn helper() { }\npub fn api() { }");
    assert!(!session.has_error());
    let fs = &backend.module().functions;
    let names: Vec<(&str, bool)> = fs.iter().map(|f| (f.name.as_str(), f.exported)).collect();
    assert_eq!(names, vec![("main", true), ("helper", false), ("api", false)]);
    assert_eq!(fs[0].blocks[0].label, "start");
}

#[test]
fn string_data_made_once() {
    let (session, backend) = compile("fn main() {\n fix a: string = \"hi\" ;\n fix b: string = \"hi\" ;\n fix c: string = \"yo\" ;\n}");
    assert!(!session.has_error());
    let data = &backend.module().data;
    assert_eq!(data.len(), 2);
    assert_eq!((data[0].name.as_str(), data[1].name.as_str()), ("_lit_0", "_lit_1"));
    for (d, text) in data.iter().zip(["hi", "yo"]) {
        assert!(!d.exported);
        assert_eq!(d.items.len(), 2);
        assert!(matches!(&d.items[0], (IrType::Byte, IrDataItem::Str(s)) if s == text));
        assert!(matches!(&d.items[1], (IrType::Byte, IrDataItem::Const(0))));
    }
}

#[test]
fn fresh_labels_distinct() {
    let (session, backend) = compile("fn main() {\n mut a: i32 = 0;\n while a < 3 { a += 1; }\n while a < 6 { a += 1; }\n}");
    assert!(!session.has_error());
    let labels: Vec<&str> = backend.module().functions[0].blocks.iter().map(|b| b.label.as_str()).collect();
    for i in 0..labels.len() {
        for j in i + 1..labels.len() {
            assert_ne!(labels[i], labels[j]);
        }
    }
    assert!(labels.contains(&"while_check_0"));
    assert!(labels.contains(&"while_check_3"));
}

#[test]
fn undeclared_variable_is_invalid_type() {
    let (mut session, ast) = parse_with(Verbose::Normal, "fn main() {\n fix a: i32 = b;\n}");
    assert!(!session.has_error());
    let mut backend = QbeBackend::new();
    backend.compile(&mut session, 0, &ast);
    assert!(session.has_error());
    assert_eq!(session.show_errors()[0], "Error: Invalid type: UNKNOWN");
}

#[test]
fn mangled_names_fresh_across_files() {
    let (mut session, first) = parse_with(Verbose::Normal, "pub fn a() { }\nfn b() { }\npub fn c() { }");
    let (_, second) = parse_with(Verbose::Normal, "pub fn d() { }");
    let collector = StdCollector::new();
    let mut m1 = Module { id: "one".to_string(), pub_func: vec![], pub_uses: vec![] };
    let mut m2 = Module { id: "two".to_string(), pub_func: vec![], pub_uses: vec![] };
    collector.collect(&mut session, &first, &mut m1);
    collector.collect(&mut session, &second, &mut m2);
    let names: Vec<(&str, &str)> =
        m1.pub_func.iter().chain(m2.pub_func.iter()).map(|f| (f.id.as_str(), f.id_mangled.as_str())).collect();
    assert_eq!(names, vec![("a", "f0"), ("c", "f1"), ("d", "f2")]);
}

#[test]
fn components_through_their_traits() {
    let (mut session, first) = lex_with(Verbose::Normal, "ret 1;");
    let mut lx = StdLexer::new();
    let tokens = Lexer::tokenize(&mut lx, &mut session, 0);
    assert_eq!(tokens.len(), first.len());
    let mut pr = StdParser::new();
    let ast = Parser::parse(&mut pr, &mut session, tokens, 0);
    assert_eq!(texts(&ast), vec!["ret 1;"]);

    let mut source_map = SourceMap::new();
    let file_id = source_map.add("e.kz", "ret 1;");
    let diag = Diagnostic::new("boom".to_string(), Level::Error, Span::new(file_id, 0, 4, 1), Phase::CodeGen, vec![], vec![]);
    let lines = Reporter::emit(&StdReporter::new(Verbose::Normal), &diag, &source_map);
    assert_eq!(lines, vec!["Error: boom", "--> e.kz in 1:5", "1 | ret 1;\n  |     ^"]);
}

#[test]
fn backend_output_text() {
    assert_eq!(BackendOutput::Binary(vec![1, 20, 255]).to_string(), "[1, 20, 255]");
    assert_eq!(BackendOutput::Binary(vec![]).to_string(), "[]");
    assert_eq!(BackendOutput::Text("x".to_string()).to_string(), "x");
}

#[test]
fn lexer_starts_each_file_afresh() {
    plain();
    let mut session = Session::new(Some(StdReporter::new(Verbose::Normal)));
    let a = session.source_map_mut().add("a.kz", "fix a = 1;");
    let b = session.source_map_mut().add("b.kz", "ret x;");
    let mut lx = StdLexer::new();
    let first = lx.tokenize(&mut session, a);
    assert_eq!(first.len(), 6);
    let second = lx.tokenize(&mut session, b);
    let fresh = StdLexer::new().tokenize(&mut session, b);
    let texts_of = |ts: &Vec<Token>| ts.iter().map(|t| (t.to_string(), t.pos, t.line, t.offset)).collect::<Vec<_>>();
    assert_eq!(texts_of(&second), texts_of(&fresh));
    assert_eq!(second.len(), 4);
    assert_eq!(second[0].pos, 0);
}

#[test]
fn not_equal_compares_for_difference() {
    let (session, backend) = compile("fn main() {\n fix a: bool = 1 != 2;\n}");
    assert!(!session.has_error());
    let items = &backend.module().functions[0].blocks[0].items;
    let found = items.iter().any(|st| matches!(st, IrStatement::Assign(_, _, IrInstr::Cmp(IrType::Word, IrCmp::Ne, _, _))));
    assert!(found);
}

#[test]
fn continue_checks_the_condition_again() {
    let (session, backend) =
        compile("fn main() {\n mut a: i32 = 0;\n while a < 3 { a += 1; continue; }\n}");
    assert!(!session.has_error());
    let blocks = &backend.module().functions[0].blocks;
    let body = blocks.iter().find(|b| b.label == "while_start_1").unwrap();
    let jumps: Vec<&str> = body
        .items
        .iter()
        .filter_map(|st| match st {
            IrStatement::Volatile(IrInstr::Jmp(l)) => Some(l.as_str()),
            _ => None,
        })
        .collect();
    assert_eq!(jumps, vec!["while_check_0", "while_check_0"]);
}

#[test]
fn calls_named_through_use_paths() {
    let (session, backend) = compile(
        "fn some_math_add(x: i32) i32 { ret 1; }\nuse some::math;\nfn main() {\n fix r: i32 = math::add(1);\n fix s: i32 = some_math_add(2);\n}",
    );
    assert!(!session.has_error());
    let calls: Vec<&str> = backend.module().functions[1].blocks[0]
        .items
        .iter()
        .filter_map(|st| match st {
            IrStatement::Volatile(IrInstr::Call(f, _)) => Some(f.as_str()),
            _ => None,
        })
        .collect();
    assert_eq!(calls, vec!["some_math_add", "some_math_add"]);
}

#[test]
fn compile_every_source() {
    plain();
    let mut session = Session::new(Some(StdReporter::new(Verbose::Normal)));
    session.source_map_mut().add("a.kz", "fn main() i32 { ret 0; }");
    session.source_map_mut().add("b.kz", "pub fn api() { fix s: string = \"x\" ; }");
    let mut compiler = KrezCompiler::default();
    let out = compiler.compile_sources(&mut session).unwrap();
    assert!(!session.has_error());
    assert_eq!(out.len(), 2);
    assert_eq!((out[0].0, out[1].0), (0, 1));
    assert_eq!(out[0].1.functions.len(), 1);
    let names: Vec<&str> = out[1].1.functions.iter().map(|f| f.name.as_str()).collect();
    assert_eq!(names, vec!["main", "api"]);
    assert_eq!(out[1].1.data.len(), 1);

    let mut session = Session::new(Some(StdReporter::new(Verbose::Normal)));
    session.source_map_mut().add("a.kz", "fix a = 1");
    session.source_map_mut().add("b.kz", "fn main() { }");
    let mut compiler = KrezCompiler::default();
    assert!(compiler.compile_sources(&mut session).is_none());
    assert!(session.has_error());
    assert_eq!(session.show_errors().len(), 3);
}

#[test]
fn if_chain_jumps_to_existing_blocks() {
    let (session, backend) = compile(
        "fn main() {\n mut a: i32 = 0;\n if a < 1 { a = 1; } elif a < 2 { a = 2; } else { a = 3; }\n if a > 5 { a = 0; } elif a > 4 { a = 1; }\n}",
    );
    assert!(!session.has_error());
    let blocks = &backend.module().functions[0].blocks;
    let labels: Vec<&str> = blocks.iter().map(|b| b.label.as_str()).collect();
    let mut targets: Vec<&str> = Vec::new();
    for b in blocks {
        for st in &b.items {
            match st {
                IrStatement::Volatile(IrInstr::Jnz(_, t, f)) => {
                    targets.push(t.as_str());
                    targets.push(f.as_str());
                },
                IrStatement::Volatile(IrInstr::Jmp(t)) => targets.push(t.as_str()),
                _ => {},
            }
        }
    }
    for t in &targets {
        assert!(labels.contains(t), "missing block {t}");
    }
    let check1 = blocks.iter().find(|b| b.label == "if_check_1").unwrap();
    assert!(matches!(check1.items.last(), Some(IrStatement::Volatile(IrInstr::Jnz(_, t, f))) if t == "if_start_2" && f == "if_check_3"));
    let check3 = blocks.iter().find(|b| b.label == "if_check_3").unwrap();
    assert!(matches!(check3.items.last(), Some(IrStatement::Volatile(IrInstr::Jnz(_, t, f))) if t == "if_start_4" && f == "if_start_6"));
}

#[test]
fn push_mod_replaces_a_files_entry() {
    let module = |id: &str| Module { id: id.to_string(), pub_func: Vec::new(), pub_uses: Vec::new() };
    let mut api = KrezCompilerApi { ast: Vec::new(), modules: Vec::new() };
    api.push_mod(0, module("0"));
    api.push_mod(1, module("1"));
    api.push_mod(0, module("zero"));
    let entries: Vec<(usize, &str)> = api.modules.iter().map(|(k, m)| (*k, m.id.as_str())).collect();
    assert_eq!(entries, vec![(0, "zero"), (1, "1")]);
    assert!(api.ast.is_empty());
}

#[test]
fn qbe_output_goes_under_its_own_directory() {
    let compiler = KrezCompiler::default();
    assert_eq!(compiler.backend().out_dir(), "/qbe");
    assert_eq!(compiler.backend().ext(), ".ssa");
    assert!(compiler.backend().module().functions.is_empty());
}

#[test]
fn logical_not_tests_for_zero() {
    let (session, backend) = compile("fn main() {\n fix a: bool = true;\n fix b: bool = !a;\n}");
    assert!(!session.has_error());
    let items = &backend.module().functions[0].blocks[0].items;
    let cmps: Vec<&IrStatement> = items
        .iter()
        .filter(|st| matches!(st, IrStatement::Assign(_, _, IrInstr::Cmp(_, _, _, _))))
        .collect();
    assert_eq!(cmps.len(), 1);
    match cmps[0] {
        IrStatement::Assign(_, _, IrInstr::Cmp(IrType::Word, cmp, IrValue::Temporary(x), IrValue::Const(0))) => {
            assert_eq!(*cmp, IrCmp::Eq);
            assert_eq!(x, "a");
        },
        _ => panic!("the comparison of !a is not a == 0"),
    }
}

#[test]
fn export_flag_decides_linkage_and_text() {
    let exported = Stmt::Func(true, false, "f".to_string(), Vec::new(), None, Vec::new());
    let public = Stmt::Func(false, true, "f".to_string(), Vec::new(), None, Vec::new());
    let both = Stmt::Func(true, true, "g".to_string(), Vec::new(), None, Vec::new());
    assert_eq!(exported.to_string(), "export fn f() {\n\n}");
    assert_eq!(public.to_string(), "pub fn f() {\n\n}");
    assert_eq!(both.to_string(), "export pub fn g() {\n\n}");

    let mut session = Session::new(None);
    let mut backend = QbeBackend::new();
    backend.compile(&mut session, 0, &vec![exported, public, both]);
    assert!(!session.has_error());
    let flags: Vec<(&str, bool)> =
        backend.module().functions.iter().map(|f| (f.name.as_str(), f.exported)).collect();
    assert_eq!(flags, vec![("f", true), ("f", false), ("g", true)]);
}

#[test]
fn letters_of_the_lexer() {
    assert!(is_letter('a') && is_letter('Z') && is_letter('é'));
    assert!(!is_letter('_') && !is_letter('7') && !is_letter(' '));
}

#[test]
fn files_before_a_code_error_keep_their_output() {
    plain();
    let mut session = Session::new(Some(StdReporter::new(Verbose::Normal)));
    session.source_map_mut().add("a.kz", "fn main() i32 { ret 0; }");
    session.source_map_mut().add("b.kz", "fn f() { fix j: i32 = r; }");
    session.source_map_mut().add("c.kz", "fn g() { }");
    let mut compiler = KrezCompiler::default();
    let out = compiler.compile_sources(&mut session).unwrap();
    assert!(session.has_error());
    assert_eq!(out.len(), 1);
    assert_eq!(out[0].0, 0);
    assert_eq!(out[0].1.functions[0].name, "main");
}

#[test]
fn printed_types_read_back() {
    for text in ["i32", "[&[point_2]]", "&[string]", "[[bool]]", "&f32"] {
        let mut session = Session::new(None);
        let file_id = session.source_map_mut().add("t.kz", text);
        let mut lx = StdLexer::new();
        let tokens = lx.tokenize(&mut session, file_id);
        assert!(matches!(tokens.last().unwrap().kind, TokenKind::Eof));
        let mut pr = StdParser::new_full(tokens, file_id);
        let ty = pr.parse_type(&mut session);
        assert!(!session.has_error());
        assert_eq!(ty.to_string(), text);
    }
}
