use bazel_lsp::bazel::{
    parse_bazel_info_output, read_field, sanitize_trimmed_label, BazelInfo, BazelWorkspace, InnerBazel,
    LabelError, WorkspaceError,
};
use bazel_lsp::indexer::process_document;
use bazel_lsp::symbol::Symbol;
use bazel_lsp::syntax::{Expr, Position, Stmt};

struct FakeInfo {
    output: Result<String, String>,
}

impl BazelInfo for FakeInfo {
    fn info_output(&self, _workspace: &String) -> Result<String, String> {
        self.output.clone()
    }
}

fn s(x: &str) -> String {
    x.to_string()
}

fn initialized() -> InnerBazel {
    let mut bazel = InnerBazel::new();
    bazel
        .apply_info_output(&s("/home/me/ws"), &s("execution_root: /cache/execroot/__main__\noutput_base: /cache"))
        .unwrap();
    bazel
}

#[test]
fn labels_are_sanitized() {
    let bazel = InnerBazel::new();
    assert_eq!(bazel.sanitize_starlark_label(&s("//:some_file.bzl")), "some_file.bzl");
    assert_eq!(bazel.sanitize_starlark_label(&s("//pkg/sub:defs.bzl")), "pkg/sub/defs.bzl");
    assert_eq!(bazel.sanitize_starlark_label(&s("@repo//pkg:defs.bzl")), "repo/pkg/defs.bzl");
    assert_eq!(bazel.sanitize_starlark_label(&s("  defs.bzl \n")), "defs.bzl");
    assert_eq!(sanitize_trimmed_label(&s(":name")), "name");
}

#[test]
fn info_output_sets_the_roots() {
    let bazel = initialized();
    assert_eq!(bazel.candidate_path(&s("//:BUILD")), Ok(s("/home/me/ws/BUILD")));
    assert_eq!(bazel.candidate_path(&s("@rules//go:def.bzl")), Ok(s("/cache/external/rules/go/def.bzl")));
}

#[test]
fn uninitialized_roots_do_not_resolve() {
    let bazel = InnerBazel::new();
    assert_eq!(bazel.candidate_path(&s("//:BUILD")), Err(LabelError::NoRoot));
    assert_eq!(bazel.resolve_bazel_path(&s("//:BUILD")), Err(LabelError::NoRoot));
}

#[test]
fn missing_file_does_not_resolve() {
    let bazel = initialized();
    assert_eq!(bazel.resolve_bazel_path(&s("//:no_such_file.bzl")), Err(LabelError::NotAFile));
}

#[test]
fn existing_file_resolves() {
    let mut bazel = InnerBazel::new();
    bazel.apply_info_output(&s("/nonexistent"), &s("execution_root:/etc")).unwrap();
    assert_eq!(bazel.resolve_bazel_path(&s("@passwd")), Ok(s("/etc/passwd")));
}

#[test]
fn info_output_errors() {
    let mut bazel = InnerBazel::new();
    assert_eq!(bazel.apply_info_output(&s("/ws"), &s("no colon here")), Err(WorkspaceError::MalformedInfoLine));
    assert_eq!(bazel.apply_info_output(&s("/ws"), &s("output_base: /x")), Err(WorkspaceError::MissingExecutionRoot));
    assert_eq!(bazel.candidate_path(&s("//:BUILD")), Err(LabelError::NoRoot));
}

#[test]
fn info_records_split_at_the_first_colon() {
    let records = parse_bazel_info_output(&s("a: 1\nb:c:d")).unwrap();
    assert_eq!(records, vec![(s("a"), s(" 1")), (s("b"), s("c:d"))]);
    assert_eq!(read_field(&s("b"), &records), Ok(s("c:d")));
    assert_eq!(read_field(&s("z"), &records), Err(WorkspaceError::MissingExecutionRoot));
}

#[test]
fn source_root_follows_into_external_repositories() {
    let mut bazel = initialized();
    bazel.maybe_change_source_root(&s("/cache/external/rules/go/def.bzl")).unwrap();
    assert_eq!(bazel.candidate_path(&s("//go:private.bzl")), Ok(s("/cache/external/rules/go/private.bzl")));
    bazel.maybe_change_source_root(&s("/home/me/ws/pkg/BUILD")).unwrap();
    assert_eq!(bazel.candidate_path(&s("//go:private.bzl")), Ok(s("/home/me/ws/go/private.bzl")));
}

#[test]
fn source_root_stays_outside_both_roots() {
    let mut bazel = initialized();
    bazel.maybe_change_source_root(&s("/cache/external/rules/x.bzl")).unwrap();
    bazel.maybe_change_source_root(&s("/tmp/other.bzl")).unwrap();
    assert_eq!(bazel.candidate_path(&s("//:x")), Ok(s("/cache/external/rules/x")));
}

#[test]
fn change_source_root_needs_initialization() {
    let mut bazel = InnerBazel::new();
    assert_eq!(bazel.maybe_change_source_root(&s("/home/me/ws/BUILD")), Err(WorkspaceError::NotInitialized));
}

#[test]
fn workspace_update_through_bazel_info() {
    let mut ws = BazelWorkspace::with_bazel_info(FakeInfo { output: Ok(s("execution_root: /c/execroot/__main__\n")) });
    assert_eq!(ws.resolve_bazel_path(&s("//:BUILD")), Err(LabelError::NoRoot));
    ws.update_workspace(&s("/w")).unwrap();
    assert_eq!(ws.resolve_bazel_path(&s("//:BUILD")), Err(LabelError::NotAFile));
    ws.maybe_change_source_root(&s("/c/external/r/BUILD")).unwrap();

    let mut failing = BazelWorkspace::with_bazel_info(FakeInfo { output: Err(s("boom")) });
    assert_eq!(failing.update_workspace(&s("/w")), Err(WorkspaceError::QueryFailed(s("boom"))));
    assert_eq!(failing.maybe_change_source_root(&s("/w/BUILD")), Err(WorkspaceError::NotInitialized));
}

#[test]
fn symbol_fully_qualified_name() {
    let symbol = Symbol(s("@my_repo//my/file:file.bzl"), s("symbol"));
    assert_eq!(symbol.fully_qualified_name(), "@my_repo//my/file:file.bzl#symbol");
}

#[test]
fn load_of_missing_file_is_skipped_by_process_document() {
    let mut ws = BazelWorkspace::with_bazel_info(FakeInfo { output: Ok(s("execution_root: /nonexistent/c")) });
    ws.update_workspace(&s("/nonexistent/w")).unwrap();
    // load('//:some_file.bzl', 'loaded_func')
    // loaded_func()
    let stmts = vec![
        Stmt::Expression {
            expression: Expr::Call {
                function: Box::new(Expr::Identifier { name: s("load"), start: Position::new(0, 0) }),
                args: vec![
                    Expr::StringLiteral { value: s("//:some_file.bzl") },
                    Expr::StringLiteral { value: s("loaded_func") },
                ],
                keywords: vec![],
            },
        },
        Stmt::Expression {
            expression: Expr::Call {
                function: Box::new(Expr::Identifier { name: s("loaded_func"), start: Position::new(1, 0) }),
                args: vec![],
                keywords: vec![],
            },
        },
    ];
    let (doc, deps) = process_document(&stmts, &ws).unwrap();
    assert!(doc.declarations().is_empty());
    assert!(deps.is_empty());
    assert_eq!(doc.calls().len(), 1);
}
