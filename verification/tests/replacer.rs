use moon_bundler::require_replacer::{ErrorKind, RequireReplacer};
use moon_bundler::source::{Fault, Import, LoadSite, SourceFile};
use moon_bundler::syntax::{Call, Expr, QuoteKind, Statement, Token};
use moon_bundler::visitor::{ParentType, Visitor};

fn site(start: usize, end: usize, argument: &str, parent_type: ParentType) -> LoadSite {
    LoadSite {
        start,
        end,
        argument: argument.to_string(),
        quote_type: QuoteKind::Double,
        parent_type,
    }
}

fn file(path: &str, text: &str, imports: Vec<Import>) -> SourceFile {
    SourceFile {
        path: path.to_string(),
        canonical: path.to_string(),
        text: text.as_bytes().to_vec(),
        state: Ok(imports),
    }
}

fn import(start: usize, end: usize, target: &str, parent_type: ParentType) -> Import {
    Import { site: site(start, end, target, parent_type), target: target.to_string() }
}

#[test]
fn new_replacer_holds_no_file() {
    let replacer = RequireReplacer::new("root", Visitor, true);
    assert!(replacer.loaded().is_empty());
}

#[test]
fn files_given_by_hand_are_inlined() {
    let mut replacer = RequireReplacer::new("", Visitor, true);
    replacer.add_file(file(
        "main",
        "x = LOAD; LOAD",
        vec![import(4, 8, "m", ParentType::Assignment), import(10, 14, "n", ParentType::Stmt)],
    ));
    replacer.add_file(file("m", "return 1", vec![]));
    replacer.add_file(file("n", "print(2)", vec![]));
    let out = replacer.replace_requires("main").unwrap();
    assert_eq!(out, b"x = (function() return 1 end)(); print(2)".to_vec());
    assert_eq!(replacer.loaded().len(), 3);
}

#[test]
fn first_file_with_a_path_is_the_one_used() {
    let mut replacer = RequireReplacer::new("", Visitor, true);
    replacer.add_file(file("main", "first", vec![]));
    replacer.add_file(file("main", "second", vec![]));
    assert_eq!(replacer.replace_requires("main").unwrap(), b"first".to_vec());
}

#[test]
fn spans_out_of_order_are_a_span_fault() {
    let mut replacer = RequireReplacer::new("", Visitor, true);
    replacer.add_file(file(
        "main",
        "0123456789",
        vec![import(5, 7, "m", ParentType::Stmt), import(1, 3, "m", ParentType::Stmt)],
    ));
    replacer.add_file(file("m", "", vec![]));
    let error = replacer.replace_requires("main").unwrap_err();
    assert_eq!(error.kind, ErrorKind::File(Fault::Span));
    assert_eq!(error.path, "main");
}

#[test]
fn span_behind_the_text_is_a_span_fault() {
    let mut replacer = RequireReplacer::new("", Visitor, true);
    replacer.add_file(file("main", "short", vec![import(2, 9, "m", ParentType::Stmt)]));
    let error = replacer.replace_requires("main").unwrap_err();
    assert_eq!(error.kind, ErrorKind::File(Fault::Span));
}

#[test]
fn fault_of_a_file_is_reported_at_that_file() {
    let mut replacer = RequireReplacer::new("", Visitor, true);
    replacer.add_file(file("main", "LOAD", vec![import(0, 4, "m", ParentType::Stmt)]));
    replacer.add_file(SourceFile {
        path: "m".to_string(),
        canonical: "m".to_string(),
        text: vec![],
        state: Err(Fault::NoDirectory),
    });
    let error = replacer.replace_requires("main").unwrap_err();
    assert_eq!(error.kind, ErrorKind::File(Fault::NoDirectory));
    assert_eq!(error.path, "m");
    assert_eq!(error.chain, vec!["main".to_string()]);
    assert_eq!(
        error.describe(),
        "no directory to resolve load calls against: m\n  required by main"
    );
}

#[test]
fn first_failing_import_decides_the_error() {
    let mut replacer = RequireReplacer::new("", Visitor, true);
    replacer.add_file(file(
        "main",
        "AA BB CC",
        vec![
            import(0, 2, "good", ParentType::Stmt),
            import(3, 5, "gone", ParentType::Stmt),
            import(6, 8, "bad", ParentType::Stmt),
        ],
    ));
    replacer.add_file(file("good", "ok", vec![]));
    replacer.add_file(SourceFile {
        path: "bad".to_string(),
        canonical: "bad".to_string(),
        text: vec![],
        state: Err(Fault::Parse),
    });
    let error = replacer.replace_requires("main").unwrap_err();
    assert_eq!(error.kind, ErrorKind::Absent);
    assert_eq!(error.path, "gone");
}

#[test]
fn parsed_statements_become_imports_under_the_root_policy() {
    let call = Call {
        prefix: vec![Token::Identifier { identifier: "require".to_string() }],
        suffixes: vec![vec![
            Token::LeftParen,
            Token::RightParen,
            Token::StringLiteral { literal: "m.lua".to_string(), quote_type: QuoteKind::Single },
        ]],
        span: Some((10, 26)),
    };
    let stmts = vec![Statement::LocalAssignment(vec![Expr::FunctionCall(call)])];
    let mut replacer = RequireReplacer::new("root", Visitor, true);
    replacer.add_parsed(
        "anywhere/main.lua",
        "/abs/anywhere/main.lua",
        "local m = require('m.lua')",
        &stmts,
    );
    let files = replacer.loaded();
    assert_eq!(files.len(), 1);
    assert_eq!(files[0].path, "anywhere/main.lua");
    assert_eq!(files[0].canonical, "/abs/anywhere/main.lua");
    assert_eq!(files[0].text, b"local m = require('m.lua')".to_vec());
    let imports = files[0].state.as_ref().unwrap();
    assert_eq!(imports.len(), 1);
    assert_eq!((imports[0].site.start, imports[0].site.end), (10, 26));
    assert_eq!(imports[0].site.argument, "m.lua");
    assert_eq!(imports[0].site.quote_type, QuoteKind::Single);
    assert_eq!(imports[0].site.parent_type, ParentType::Assignment);
    assert_eq!(imports[0].target, "root/m.lua");
}

#[test]
fn parser_reports_spans_quotes_and_targets() {
    let mut replacer = RequireReplacer::new("root", Visitor, false);
    let text = "local a = require(\"x.lua\")\nrequire('y.lua') -- c\nlocal b = require([==[z.lua]==])\n";
    replacer.add_source("dir/main.lua", "/abs/dir/main.lua", text);
    let files = replacer.loaded();
    let imports = files[0].state.as_ref().unwrap();
    assert_eq!(imports.len(), 3);
    let found: Vec<(&str, QuoteKind, ParentType, &str, &str)> = imports
        .iter()
        .map(|i| {
            (
                &text[i.site.start..i.site.end],
                i.site.quote_type,
                i.site.parent_type,
                i.site.argument.as_str(),
                i.target.as_str(),
            )
        })
        .collect();
    assert_eq!(
        found,
        vec![
            ("require(\"x.lua\")", QuoteKind::Double, ParentType::Assignment, "x.lua", "dir/x.lua"),
            ("require('y.lua')", QuoteKind::Single, ParentType::Stmt, "y.lua", "dir/y.lua"),
            (
                "require([==[z.lua]==])",
                QuoteKind::Brackets,
                ParentType::Assignment,
                "z.lua",
                "dir/z.lua"
            ),
        ]
    );
}

#[test]
fn keyword_inside_a_callee_expression_counts() {
    let mut replacer = RequireReplacer::new("root", Visitor, true);
    replacer.add_source("main.lua", "main.lua", "local m = (require)(\"m.lua\")\n");
    let imports = replacer.loaded()[0].state.as_ref().unwrap();
    assert_eq!(imports.len(), 1);
    assert_eq!(imports[0].target, "root/m.lua");
}

#[test]
fn method_on_another_name_is_no_load() {
    let mut replacer = RequireReplacer::new("root", Visitor, true);
    replacer.add_source(
        "main.lua",
        "main.lua",
        "local m = loader.require(\"m.lua\")\nrequired(\"x\")\n",
    );
    assert!(replacer.loaded()[0].state.as_ref().unwrap().is_empty());
}

#[test]
fn text_that_is_no_script_is_a_parse_fault() {
    let mut replacer = RequireReplacer::new("root", Visitor, true);
    replacer.add_source("main.lua", "/abs/main.lua", "local = = 3");
    assert_eq!(replacer.loaded()[0].state.as_ref().unwrap_err(), &Fault::Parse);
    assert_eq!(replacer.loaded()[0].text, b"local = = 3".to_vec());
    assert_eq!(replacer.loaded()[0].canonical, "/abs/main.lua");
}

#[test]
fn unreadable_file_is_kept_with_its_fault() {
    let mut replacer = RequireReplacer::new("root", Visitor, true);
    replacer.add_unreadable("gone.lua");
    assert_eq!(replacer.loaded()[0].path, "gone.lua");
    assert_eq!(replacer.loaded()[0].canonical, "gone.lua");
    assert_eq!(replacer.loaded()[0].state.as_ref().unwrap_err(), &Fault::Unreadable);
    let error = replacer.replace_requires("gone.lua").unwrap_err();
    assert_eq!(error.kind, ErrorKind::File(Fault::Unreadable));
}

#[test]
fn file_without_loads_needs_no_directory() {
    let mut replacer = RequireReplacer::new("root", Visitor, false);
    replacer.add_source("/", "/", "print(1)\n");
    assert!(replacer.loaded()[0].state.as_ref().unwrap().is_empty());
    assert_eq!(replacer.replace_requires("/").unwrap(), b"print(1)\n".to_vec());
}

#[test]
fn file_reached_again_under_another_path_is_a_cycle() {
    let mut replacer = RequireReplacer::new("", Visitor, true);
    let mut entry = file("main", "LOAD", vec![import(0, 4, "again", ParentType::Stmt)]);
    entry.canonical = "/real/main".to_string();
    let mut alias = file("again", "LOAD", vec![import(0, 4, "again", ParentType::Stmt)]);
    alias.canonical = "/real/main".to_string();
    replacer.add_file(entry);
    replacer.add_file(alias);
    let error = replacer.replace_requires("main").unwrap_err();
    assert_eq!(error.kind, ErrorKind::Cycle);
    assert_eq!(error.path, "again");
    assert_eq!(error.chain, vec!["main".to_string()]);
}

#[test]
fn files_with_different_canonical_paths_are_no_cycle() {
    let mut replacer = RequireReplacer::new("", Visitor, true);
    let mut entry = file("main", "LOAD", vec![import(0, 4, "m", ParentType::Stmt)]);
    entry.canonical = "/real/main".to_string();
    let mut module = file("m", "print(1)", vec![]);
    module.canonical = "/real/m".to_string();
    replacer.add_file(entry);
    replacer.add_file(module);
    assert_eq!(replacer.replace_requires("main").unwrap(), b"print(1)".to_vec());
}
