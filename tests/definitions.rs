use bazel_lsp::documents::Documents;
use bazel_lsp::index::IndexedDocument;
use bazel_lsp::indexer::index_statements;
use bazel_lsp::syntax::{Expr, Keyword, Position, Range, Stmt};

fn pos(line: u64, col: u64) -> Position {
    Position::new(line, col)
}

fn ident(name: &str, line: u64, col: u64) -> Expr {
    Expr::Identifier { name: name.to_string(), start: pos(line, col) }
}

fn string(value: &str) -> Expr {
    Expr::StringLiteral { value: value.to_string() }
}

fn call(function: Expr, args: Vec<Expr>, keywords: Vec<Keyword>) -> Expr {
    Expr::Call { function: Box::new(function), args, keywords }
}

fn load(label: &str, names: &[&str], renames: &[(&str, &str)]) -> Stmt {
    let mut args = vec![string(label)];
    args.extend(names.iter().map(|n| string(n)));
    let keywords = renames
        .iter()
        .map(|(k, v)| Keyword { name: Some(k.to_string()), value: string(v) })
        .collect();
    Stmt::Expression { expression: call(ident("load", 0, 0), args, keywords) }
}

fn index(stmts: Vec<Stmt>, table: &[(&str, &str)]) -> (IndexedDocument, Vec<String>) {
    let table: Vec<(String, String)> = table.iter().map(|(l, p)| (l.to_string(), p.to_string())).collect();
    index_statements(&stmts, &table).unwrap()
}

fn range(line: u64, col: u64, len: u64) -> Range {
    Range { start: pos(line, col), end: pos(line, col + len) }
}

/// c.bzl declares `loaded_func`; b.bzl loads it from c.bzl; a.bzl loads it
/// from b.bzl and calls it inside a function of its own.
fn chain() -> Documents {
    let mut docs = Documents::new();
    let (c, _) = index(
        vec![Stmt::FunctionDef { name: "loaded_func".to_string(), start: pos(0, 4), body: vec![] }],
        &[],
    );
    let (b, _) = index(vec![load("//:c.bzl", &["loaded_func"], &[])], &[("//:c.bzl", "/ws/c.bzl")]);
    let (a, a_deps) = index(
        vec![
            load("//:b.bzl", &["loaded_func"], &[]),
            Stmt::FunctionDef {
                name: "defined_func".to_string(),
                start: pos(1, 4),
                body: vec![Stmt::Expression { expression: call(ident("loaded_func", 2, 2), vec![], vec![]) }],
            },
        ],
        &[("//:b.bzl", "/ws/b.bzl")],
    );
    let to_index = docs.store_indexed(&"/ws/a.bzl".to_string(), a, &a_deps);
    assert_eq!(to_index, vec!["/ws/b.bzl".to_string()]);
    let to_index = docs.store_indexed(&"/ws/b.bzl".to_string(), b, &vec!["/ws/c.bzl".to_string()]);
    assert_eq!(to_index, vec!["/ws/c.bzl".to_string()]);
    let to_index = docs.store_indexed(&"/ws/c.bzl".to_string(), c, &vec![]);
    assert!(to_index.is_empty());
    docs
}

#[test]
fn definition_follows_loads_to_the_declaring_file() {
    let docs = chain();
    let found = docs.locate_declaration_of_call_at(&"/ws/a.bzl".to_string(), pos(2, 5));
    assert_eq!(found, Some(("/ws/c.bzl".to_string(), range(0, 4, 11))));
}

#[test]
fn definition_in_the_same_file() {
    let docs = chain();
    let (d, _) = index(
        vec![
            Stmt::FunctionDef { name: "f".to_string(), start: pos(0, 4), body: vec![] },
            Stmt::Expression { expression: call(ident("f", 1, 0), vec![], vec![]) },
        ],
        &[],
    );
    let mut docs = docs;
    docs.insert_doc(&"/ws/d.bzl".to_string(), d);
    assert_eq!(
        docs.locate_declaration_of_call_at(&"/ws/d.bzl".to_string(), pos(1, 0)),
        Some(("/ws/d.bzl".to_string(), range(0, 4, 1)))
    );
}

#[test]
fn renamed_load_is_followed_by_its_real_name() {
    let mut docs = Documents::new();
    let (b, _) = index(
        vec![Stmt::Assign { targets: vec![ident("other_func", 3, 0)], value: Expr::Other }],
        &[],
    );
    let (a, deps) = index(
        vec![
            load("//:b.bzl", &[], &[("renamed", "other_func")]),
            Stmt::Expression { expression: call(ident("renamed", 1, 0), vec![], vec![]) },
        ],
        &[("//:b.bzl", "/ws/b.bzl")],
    );
    docs.store_indexed(&"/ws/a.bzl".to_string(), a, &deps);
    docs.store_indexed(&"/ws/b.bzl".to_string(), b, &vec![]);
    assert_eq!(
        docs.locate_declaration_of_call_at(&"/ws/a.bzl".to_string(), pos(1, 2)),
        Some(("/ws/b.bzl".to_string(), range(3, 0, 10)))
    );
}

#[test]
fn load_cycle_has_no_definition() {
    let mut docs = Documents::new();
    let (a, _) = index(
        vec![
            load("//:b.bzl", &["f"], &[]),
            Stmt::Expression { expression: call(ident("f", 1, 0), vec![], vec![]) },
        ],
        &[("//:b.bzl", "/ws/b.bzl")],
    );
    let (b, _) = index(vec![load("//:a.bzl", &["f"], &[])], &[("//:a.bzl", "/ws/a.bzl")]);
    docs.insert_doc(&"/ws/a.bzl".to_string(), a);
    docs.insert_doc(&"/ws/b.bzl".to_string(), b);
    assert_eq!(docs.locate_declaration_of_call_at(&"/ws/a.bzl".to_string(), pos(1, 0)), None);
}

#[test]
fn missing_pieces_give_no_definition() {
    let docs = chain();
    assert_eq!(docs.locate_declaration_of_call_at(&"/ws/unknown.bzl".to_string(), pos(0, 0)), None);
    assert_eq!(docs.locate_declaration_of_call_at(&"/ws/a.bzl".to_string(), pos(9, 9)), None);
    let mut partial = Documents::new();
    let (a, deps) = index(
        vec![
            load("//:b.bzl", &["g"], &[]),
            Stmt::Expression { expression: call(ident("g", 1, 0), vec![], vec![]) },
            Stmt::Expression { expression: call(ident("h", 2, 0), vec![], vec![]) },
        ],
        &[("//:b.bzl", "/ws/b.bzl")],
    );
    partial.store_indexed(&"/ws/a.bzl".to_string(), a, &deps);
    assert_eq!(partial.locate_declaration_of_call_at(&"/ws/a.bzl".to_string(), pos(1, 0)), None);
    assert_eq!(partial.locate_declaration_of_call_at(&"/ws/a.bzl".to_string(), pos(2, 0)), None);
}

#[test]
fn store_keeps_existing_entries_and_lists_paths() {
    let mut docs = chain();
    let (empty, _) = index(vec![], &[]);
    let to_index = docs.store_indexed(
        &"/ws/e.bzl".to_string(),
        empty,
        &vec!["/ws/a.bzl".to_string(), "/ws/new.bzl".to_string()],
    );
    assert_eq!(to_index, vec!["/ws/new.bzl".to_string()]);
    let mut listed = docs.list_docs();
    listed.sort();
    assert_eq!(listed, vec!["/ws/a.bzl", "/ws/b.bzl", "/ws/c.bzl", "/ws/e.bzl"]);
    assert!(docs.get_doc(&"/ws/b.bzl".to_string()).is_some());
    assert!(docs.get_doc(&"/ws/new.bzl".to_string()).is_none());
}
