use bazel_lsp::index::{FunctionCall, FunctionDecl, IndexedDocument};
use bazel_lsp::indexer::{index_statements, IndexError};
use bazel_lsp::syntax::{Expr, Keyword, Position, Stmt};

fn pos(line: u64, col: u64) -> Position {
    Position::new(line, col)
}

fn ident(name: &str, line: u64, col: u64) -> Expr {
    Expr::Identifier { name: name.to_string(), start: pos(line, col) }
}

fn string(value: &str) -> Expr {
    Expr::StringLiteral { value: value.to_string() }
}

fn call(function: Expr, args: Vec<Expr>, keywords: Vec<Keyword>) -> Expr {
    Expr::Call { function: Box::new(function), args, keywords }
}

fn kw(name: &str, value: Expr) -> Keyword {
    Keyword { name: Some(name.to_string()), value }
}

fn expr_stmt(e: Expr) -> Stmt {
    Stmt::Expression { expression: e }
}

fn declaration_in_file(name: &str, line: u64, col: u64) -> FunctionDecl {
    FunctionDecl::declared_in_file(&name.to_string(), pos(line, col))
}

fn declaration_loaded(name: &str, imported_name: Option<&str>, path: &str) -> FunctionDecl {
    FunctionDecl::loaded(&name.to_string(), &imported_name.unwrap_or(name).to_string(), &path.to_string())
}

fn call_at(name: &str, line: u64, col: u64) -> FunctionCall {
    FunctionCall::from_identifier(&name.to_string(), pos(line, col))
}

fn some_file_table() -> Vec<(String, String)> {
    vec![("//:some_file.bzl".to_string(), "some_file.bzl".to_string())]
}

fn assert_same_declarations(actual: &IndexedDocument, expected: &IndexedDocument) {
    assert_eq!(actual.declarations().len(), expected.declarations().len());
    for d in expected.declarations() {
        assert_eq!(actual.declaration_of(&d.imported_name), Some(d.clone()));
    }
}

// a = 3
fn single_assignment() -> Vec<Stmt> {
    vec![Stmt::Assign { targets: vec![ident("a", 0, 0)], value: Expr::Other }]
}

#[test]
fn test_single_assignment() {
    let (indexed_document, paths_to_load) = index_statements(&single_assignment(), &vec![]).unwrap();
    let expected = IndexedDocument::finished(vec![declaration_in_file("a", 0, 0)], vec![]);
    assert_eq!(indexed_document, expected);
    assert!(paths_to_load.is_empty());
}

#[test]
fn single_assignment_range_covers_the_name() {
    let (doc, _) = index_statements(&single_assignment(), &vec![]).unwrap();
    let decl = doc.declaration_of(&"a".to_string()).unwrap();
    match decl.source {
        bazel_lsp::index::CallableSymbolSource::DeclaredInFile(r) => {
            assert_eq!(r.start, pos(0, 0));
            assert_eq!(r.end, pos(0, 1));
        }
        _ => panic!("expected a declaration in the file"),
    }
    assert!(doc.calls().is_empty());
}

// def hello():
//   call_to_other_function()
// hello()
fn single_function_declaration() -> Vec<Stmt> {
    vec![
        Stmt::FunctionDef {
            name: "hello".to_string(),
            start: pos(0, 4),
            body: vec![expr_stmt(call(ident("call_to_other_function", 1, 2), vec![], vec![]))],
        },
        expr_stmt(call(ident("hello", 2, 0), vec![], vec![])),
    ]
}

#[test]
fn test_single_function_declaration() {
    let (indexed_document, paths_to_load) =
        index_statements(&single_function_declaration(), &vec![]).unwrap();
    let expected = IndexedDocument::finished(
        vec![declaration_in_file("hello", 0, 4)],
        vec![call_at("call_to_other_function", 1, 2), call_at("hello", 2, 0)],
    );
    assert_same_declarations(&indexed_document, &expected);
    assert_eq!(indexed_document.calls(), expected.calls());
    assert!(paths_to_load.is_empty());
}

// load('//:some_file.bzl',
//      'loaded_func',
//      loaded_and_renamed_func = 'other_func',
// )
// loaded_func()
// loaded_and_renamed_func(3, 4)
fn load_statement() -> Vec<Stmt> {
    vec![
        expr_stmt(call(
            ident("load", 0, 0),
            vec![string("//:some_file.bzl"), string("loaded_func")],
            vec![kw("loaded_and_renamed_func", string("other_func"))],
        )),
        expr_stmt(call(ident("loaded_func", 4, 0), vec![], vec![])),
        expr_stmt(call(ident("loaded_and_renamed_func", 5, 0), vec![Expr::Other, Expr::Other], vec![])),
    ]
}

#[test]
fn test_load_statement() {
    let (indexed_document, paths_to_load) = index_statements(&load_statement(), &some_file_table()).unwrap();
    let expected = IndexedDocument::finished(
        vec![
            declaration_loaded("loaded_func", None, "some_file.bzl"),
            declaration_loaded("other_func", Some("loaded_and_renamed_func"), "some_file.bzl"),
        ],
        vec![call_at("loaded_func", 4, 0), call_at("loaded_and_renamed_func", 5, 0)],
    );
    assert_same_declarations(&indexed_document, &expected);
    assert_eq!(indexed_document.calls(), expected.calls());
    assert_eq!(paths_to_load, vec!["some_file.bzl".to_string()]);
}

#[test]
fn unresolved_load_is_skipped() {
    let (doc, paths_to_load) = index_statements(&load_statement(), &vec![]).unwrap();
    assert!(doc.declarations().is_empty());
    assert!(paths_to_load.is_empty());
    assert_eq!(doc.calls().len(), 2);
}

// load('//:some_file.bzl', 'loaded_func')
// def defined_func():
//   loaded_func()
// defined_func()
#[test]
fn test_call_loaded_function_from_declared_function() {
    let stmts = vec![
        expr_stmt(call(ident("load", 0, 0), vec![string("//:some_file.bzl"), string("loaded_func")], vec![])),
        Stmt::FunctionDef {
            name: "defined_func".to_string(),
            start: pos(1, 4),
            body: vec![expr_stmt(call(ident("loaded_func", 2, 2), vec![], vec![]))],
        },
        expr_stmt(call(ident("defined_func", 3, 0), vec![], vec![])),
    ];
    let (indexed_document, paths_to_load) = index_statements(&stmts, &some_file_table()).unwrap();
    let expected = IndexedDocument::finished(
        vec![
            declaration_loaded("loaded_func", None, "some_file.bzl"),
            declaration_in_file("defined_func", 1, 4),
        ],
        vec![call_at("loaded_func", 2, 2), call_at("defined_func", 3, 0)],
    );
    assert_same_declarations(&indexed_document, &expected);
    assert_eq!(indexed_document.calls(), expected.calls());
    assert_eq!(paths_to_load, vec!["some_file.bzl".to_string()]);
}

#[test]
fn nested_calls_are_recorded_in_source_order() {
    // x = f(g(a), key = h())
    let stmts = vec![Stmt::Assign {
        targets: vec![ident("x", 0, 0)],
        value: call(
            ident("f", 0, 4),
            vec![call(ident("g", 0, 6), vec![ident("a", 0, 8)], vec![])],
            vec![kw("key", call(ident("h", 0, 18), vec![], vec![]))],
        ),
    }];
    let (doc, _) = index_statements(&stmts, &vec![]).unwrap();
    let names: Vec<String> = doc.calls().iter().map(|c| c.function_name.clone()).collect();
    assert_eq!(names, vec!["f", "g", "a", "h"]);
}

#[test]
fn later_declaration_of_a_name_wins() {
    // a = 1
    // def a(): ...
    let stmts = vec![
        Stmt::Assign { targets: vec![ident("a", 0, 0)], value: Expr::Other },
        Stmt::FunctionDef { name: "a".to_string(), start: pos(1, 4), body: vec![] },
    ];
    let (doc, _) = index_statements(&stmts, &vec![]).unwrap();
    assert_eq!(doc.declarations().len(), 1);
    assert_eq!(doc.declaration_of(&"a".to_string()), Some(declaration_in_file("a", 1, 4)));
}

#[test]
fn reindexing_gives_equal_documents() {
    let first = index_statements(&load_statement(), &some_file_table()).unwrap();
    let second = index_statements(&load_statement(), &some_file_table()).unwrap();
    assert_eq!(first, second);
}

#[test]
fn load_without_arguments_is_malformed() {
    let stmts = vec![expr_stmt(call(ident("load", 0, 0), vec![], vec![]))];
    assert_eq!(index_statements(&stmts, &vec![]), Err(IndexError::MalformedLoad));
}

#[test]
fn load_with_non_literal_label_is_malformed() {
    let stmts = vec![expr_stmt(call(ident("load", 0, 0), vec![ident("x", 0, 5)], vec![]))];
    assert_eq!(index_statements(&stmts, &vec![]), Err(IndexError::MalformedLoad));
}

#[test]
fn load_with_non_literal_name_is_malformed() {
    let stmts = vec![expr_stmt(call(
        ident("load", 0, 0),
        vec![string("//:some_file.bzl"), ident("x", 0, 25)],
        vec![],
    ))];
    assert_eq!(index_statements(&stmts, &some_file_table()), Err(IndexError::MalformedLoad));
}

#[test]
fn load_with_unnamed_keyword_is_malformed() {
    let stmts = vec![expr_stmt(call(
        ident("load", 0, 0),
        vec![string("//:some_file.bzl")],
        vec![Keyword { name: None, value: string("x") }],
    ))];
    assert_eq!(index_statements(&stmts, &some_file_table()), Err(IndexError::MalformedLoad));
    assert_eq!(IndexError::MalformedLoad.message(), "malformed load statement");
}

#[test]
fn call_at_finds_the_call_under_the_cursor() {
    let (doc, _) = index_statements(&single_function_declaration(), &vec![]).unwrap();
    assert_eq!(doc.call_at(pos(2, 3)).map(|c| c.function_name), Some("hello".to_string()));
    assert_eq!(doc.call_at(pos(2, 5)).map(|c| c.function_name), Some("hello".to_string()));
    assert_eq!(doc.call_at(pos(2, 6)), None);
    assert_eq!(doc.call_at(pos(0, 0)), None);
}
