//! The indexer: from one file's statement tree to its declarations, its
//! calls and the files that its `load` statements name.
use vstd::prelude::*;
use crate::syntax::{Expr, Keyword, Stmt};
use crate::index::{
    CallView, DeclView, FunctionCall, FunctionDecl, IndexedDocument, call_view, declared_view,
    loaded_view,
};
use vstd::string::*;
use crate::bazel::{BazelInfo, BazelWorkspace, candidate_path};

verus! {

/// What indexing has gathered so far.
pub ghost struct IndexState {
    pub declarations: Map<Seq<char>, DeclView>,
    pub calls: Seq<CallView>,
    pub deps: Seq<Seq<char>>,
}

/// The path that `label` resolved to, per a table of (label, path) pairs;
/// the first pair for a label counts.
pub open spec fn resolved_path(table: Seq<(Seq<char>, Seq<char>)>, label: Seq<char>) -> Option<Seq<char>>
    decreases table.len(),
{
    if table.len() == 0 {
        None
    } else if table[0].0 == label {
        Some(table[0].1)
    } else {
        resolved_path(table.drop_first(), label)
    }
}

pub open spec fn strings_view(v: Seq<String>) -> Seq<Seq<char>> {
    v.map_values(|s: String| s@)
}

pub open spec fn table_view(table: Seq<(String, String)>) -> Seq<(Seq<char>, Seq<char>)> {
    table.map_values(|p: (String, String)| (p.0@, p.1@))
}

pub open spec fn string_value(e: Expr) -> Option<Seq<char>> {
    match e {
        Expr::StringLiteral { value } => Some(value@),
        _ => None,
    }
}

pub open spec fn is_load_callee(e: Expr) -> bool {
    match e {
        Expr::Identifier { name, .. } => name@ == seq!['l', 'o', 'a', 'd'],
        _ => false,
    }
}

/// Every name that a load imports as it is is a string literal.
pub open spec fn positional_names_ok(names: Seq<Expr>) -> bool {
    forall|i: int| 0 <= i < names.len() ==> (#[trigger] string_value(names[i])).is_some()
}

/// Every renaming of a load has a name and a string-literal value.
pub open spec fn renames_ok(kws: Seq<Keyword>) -> bool {
    forall|i: int|
        0 <= i < kws.len() ==> (#[trigger] kws[i]).name.is_some() && string_value(kws[i].value).is_some()
}

/// The declarations after importing each of `names` from `path`, in order.
pub open spec fn add_positional(
    decls: Map<Seq<char>, DeclView>,
    names: Seq<Expr>,
    path: Seq<char>,
) -> Map<Seq<char>, DeclView>
    decreases names.len(),
{
    if names.len() == 0 {
        decls
    } else {
        let n = string_value(names.last()).unwrap();
        add_positional(decls, names.drop_last(), path).insert(n, loaded_view(n, n, path))
    }
}

/// The declarations after importing each `k = "v"` of `kws` from `path`, in order.
pub open spec fn add_renames(
    decls: Map<Seq<char>, DeclView>,
    kws: Seq<Keyword>,
    path: Seq<char>,
) -> Map<Seq<char>, DeclView>
    decreases kws.len(),
{
    if kws.len() == 0 {
        decls
    } else {
        let k = kws.last().name.unwrap()@;
        let v = string_value(kws.last().value).unwrap();
        add_renames(decls, kws.drop_last(), path).insert(k, loaded_view(v, k, path))
    }
}

/// The effect of `load(args..., kws...)`: `None` where the load is malformed.
pub open spec fn index_load(
    st: IndexState,
    args: Seq<Expr>,
    kws: Seq<Keyword>,
    table: Seq<(Seq<char>, Seq<char>)>,
) -> Option<IndexState> {
    if args.len() == 0 || string_value(args[0]).is_none() {
        None
    } else {
        match resolved_path(table, string_value(args[0]).unwrap()) {
            None => Some(st),
            Some(path) => {
                let names = args.subrange(1, args.len() as int);
                if !positional_names_ok(names) || !renames_ok(kws) {
                    None
                } else {
                    Some(IndexState {
                        declarations: add_renames(add_positional(st.declarations, names, path), kws, path),
                        calls: st.calls,
                        deps: st.deps.push(path),
                    })
                }
            }
        }
    }
}

/// The effect of an expression evaluated for its value.
pub open spec fn index_expr(st: IndexState, e: Expr, table: Seq<(Seq<char>, Seq<char>)>) -> Option<IndexState>
    decreases e,
{
    match e {
        Expr::Identifier { name, start } => Some(
            IndexState { calls: st.calls.push(call_view(name@, start)), ..st },
        ),
        Expr::Call { function, args, keywords } => {
            if is_load_callee(*function) {
                index_load(st, args@, keywords@, table)
            } else {
                match index_expr(st, *function, table) {
                    None => None,
                    Some(s1) => match index_exprs(s1, args@, table) {
                        None => None,
                        Some(s2) => index_keyword_values(s2, keywords@, table),
                    },
                }
            }
        },
        _ => Some(st),
    }
}

pub open spec fn index_exprs(st: IndexState, es: Seq<Expr>, table: Seq<(Seq<char>, Seq<char>)>) -> Option<IndexState>
    decreases es,
{
    if es.len() == 0 {
        Some(st)
    } else {
        match index_expr(st, es[0], table) {
            None => None,
            Some(s1) => index_exprs(s1, es.drop_first(), table),
        }
    }
}

pub open spec fn index_keyword_values(
    st: IndexState,
    kws: Seq<Keyword>,
    table: Seq<(Seq<char>, Seq<char>)>,
) -> Option<IndexState>
    decreases kws,
{
    if kws.len() == 0 {
        Some(st)
    } else {
        match index_expr(st, kws[0].value, table) {
            None => None,
            Some(s1) => index_keyword_values(s1, kws.drop_first(), table),
        }
    }
}

/// The declarations after binding each identifier among `targets`.
pub open spec fn bind_targets(decls: Map<Seq<char>, DeclView>, targets: Seq<Expr>) -> Map<Seq<char>, DeclView>
    decreases targets.len(),
{
    if targets.len() == 0 {
        decls
    } else {
        let d = bind_targets(decls, targets.drop_last());
        match targets.last() {
            Expr::Identifier { name, start } => d.insert(name@, declared_view(name@, start)),
            _ => d,
        }
    }
}

pub open spec fn index_stmt(st: IndexState, s: Stmt, table: Seq<(Seq<char>, Seq<char>)>) -> Option<IndexState>
    decreases s,
{
    match s {
        Stmt::FunctionDef { name, start, body } => index_stmts(
            IndexState { declarations: st.declarations.insert(name@, declared_view(name@, start)), ..st },
            body@,
            table,
        ),
        Stmt::Assign { targets, value } => index_expr(
            IndexState { declarations: bind_targets(st.declarations, targets@), ..st },
            value,
            table,
        ),
        Stmt::Expression { expression } => index_expr(st, expression, table),
        Stmt::Other => Some(st),
    }
}

pub open spec fn index_stmts(st: IndexState, ss: Seq<Stmt>, table: Seq<(Seq<char>, Seq<char>)>) -> Option<IndexState>
    decreases ss,
{
    if ss.len() == 0 {
        Some(st)
    } else {
        match index_stmt(st, ss[0], table) {
            None => None,
            Some(s1) => index_stmts(s1, ss.drop_first(), table),
        }
    }
}

pub open spec fn empty_state() -> IndexState {
    IndexState { declarations: Map::empty(), calls: Seq::empty(), deps: Seq::empty() }
}

/// The index of a file with statements `ss`, where `table` gives the path of
/// each label that resolved; `None` where a load in it is malformed.
pub open spec fn index_of(ss: Seq<Stmt>, table: Seq<(Seq<char>, Seq<char>)>) -> Option<IndexState> {
    index_stmts(empty_state(), ss, table)
}

/// Why a file could not be indexed.
#[derive(Debug, Clone, Copy, PartialEq, Eq, Structural)]
pub enum IndexError {
    /// A `load` without a label, with an argument that is not a string
    /// literal where one is needed, or with an unnamed keyword argument.
    MalformedLoad,
}

impl IndexError {
    pub fn message(&self) -> (r: String)
        ensures
            r@ == "malformed load statement"@,
    {
        match self {
            IndexError::MalformedLoad => String::from_str("malformed load statement"),
        }
    }
}

pub open spec fn state_of(doc: IndexedDocument, deps: Seq<String>) -> IndexState {
    IndexState {
        declarations: doc@.declarations,
        calls: doc@.calls,
        deps: deps.map_values(|s: String| s@),
    }
}

/// The path that `label` resolved to in `table`, the first match counting.
pub fn lookup_label(table: &Vec<(String, String)>, label: &String) -> (r: Option<String>)
    ensures
        match r {
            Some(p) => resolved_path(table_view(table@), label@) == Some(p@),
            None => resolved_path(table_view(table@), label@).is_none(),
        },
{
    let ghost tv = table_view(table@);
    assert(tv.skip(0) =~= tv);
    let mut i: usize = 0;
    while i < table.len()
        invariant
            i <= table.len(),
            tv == table_view(table@),
            resolved_path(tv, label@) == resolved_path(tv.skip(i as int), label@),
        decreases table.len() - i,
    {
        assert(tv.skip(i as int).drop_first() =~= tv.skip(i as int + 1));
        if table[i].0 == *label {
            return Some(table[i].1.clone());
        }
        i += 1;
    }
    None
}

fn is_load_name(name: &String) -> (r: bool)
    ensures
        r == (name@ == seq!['l', 'o', 'a', 'd']),
{
    proof {
        reveal_strlit("load");
    }
    let load = String::from_str("load");
    assert(load@ =~= seq!['l', 'o', 'a', 'd']);
    *name == load
}

fn is_load_callee_exec(e: &Expr) -> (r: bool)
    ensures
        r == is_load_callee(*e),
{
    match e {
        Expr::Identifier { name, .. } => is_load_name(name),
        _ => false,
    }
}

fn index_load_into(
    doc: &mut IndexedDocument,
    deps: &mut Vec<String>,
    args: &Vec<Expr>,
    kws: &Vec<Keyword>,
    table: &Vec<(String, String)>,
) -> (r: Result<(), IndexError>)
    requires
        old(doc).wf(),
    ensures
        final(doc).wf(),
        match index_load(state_of(*old(doc), old(deps)@), args@, kws@, table_view(table@)) {
            Some(s) => r is Ok && state_of(*final(doc), final(deps)@) == s,
            None => r is Err,
        },
{
    if args.len() == 0 {
        return Err(IndexError::MalformedLoad);
    }
    let label = match &args[0] {
        Expr::StringLiteral { value } => value,
        _ => {
            return Err(IndexError::MalformedLoad);
        },
    };
    let path = match lookup_label(table, label) {
        None => {
            return Ok(());
        },
        Some(p) => p,
    };
    let ghost names = args@.subrange(1, args@.len() as int);
    let mut i: usize = 1;
    while i < args.len()
        invariant
            1 <= i <= args.len(),
            doc.wf(),
            *doc == *old(doc),
            *deps == *old(deps),
            args.len() > 0,
            string_value(args@[0]) == Some(label@),
            resolved_path(table_view(table@), label@) == Some(path@),
            names == args@.subrange(1, args@.len() as int),
            forall|j: int| 0 <= j < i - 1 ==> (#[trigger] string_value(names[j])).is_some(),
        decreases args.len() - i,
    {
        match &args[i] {
            Expr::StringLiteral { .. } => {},
            _ => {
                assert(string_value(names[i - 1]).is_none());
                return Err(IndexError::MalformedLoad);
            },
        }
        i += 1;
    }
    let mut j: usize = 0;
    while j < kws.len()
        invariant
            j <= kws.len(),
            doc.wf(),
            *doc == *old(doc),
            *deps == *old(deps),
            args.len() > 0,
            string_value(args@[0]) == Some(label@),
            resolved_path(table_view(table@), label@) == Some(path@),
            forall|k: int|
                0 <= k < j ==> (#[trigger] kws@[k]).name.is_some() && string_value(kws@[k].value).is_some(),
        decreases kws.len() - j,
    {
        if kws[j].name.is_none() {
            return Err(IndexError::MalformedLoad);
        }
        match &kws[j].value {
            Expr::StringLiteral { .. } => {},
            _ => {
                return Err(IndexError::MalformedLoad);
            },
        }
        j += 1;
    }
    let ghost d0 = doc@.declarations;
    let ghost c0 = doc@.calls;
    let mut i: usize = 1;
    while i < args.len()
        invariant
            1 <= i <= args.len(),
            doc.wf(),
            positional_names_ok(names),
            names == args@.subrange(1, args@.len() as int),
            doc@.calls == c0,
            doc@.declarations == add_positional(d0, args@.subrange(1, i as int), path@),
        decreases args.len() - i,
    {
        assert(args@.subrange(1, i as int + 1).drop_last() =~= args@.subrange(1, i as int));
        assert(args@.subrange(1, i as int + 1).last() == names[i - 1]);
        assert(string_value(names[i - 1]).is_some());
        match &args[i] {
            Expr::StringLiteral { value } => {
                doc.insert_declaration(FunctionDecl::loaded(value, value, &path));
            },
            _ => {},
        }
        i += 1;
    }
    assert(args@.subrange(1, args@.len() as int) == names);
    let ghost d1 = doc@.declarations;
    let mut j: usize = 0;
    while j < kws.len()
        invariant
            j <= kws.len(),
            doc.wf(),
            renames_ok(kws@),
            doc@.calls == c0,
            doc@.declarations == add_renames(d1, kws@.subrange(0, j as int), path@),
        decreases kws.len() - j,
    {
        assert(kws@.subrange(0, j as int + 1).drop_last() =~= kws@.subrange(0, j as int));
        assert(kws@.subrange(0, j as int + 1).last() == kws@[j as int]);
        let kw = &kws[j];
        match (&kw.name, &kw.value) {
            (Some(name), Expr::StringLiteral { value }) => {
                doc.insert_declaration(FunctionDecl::loaded(value, name, &path));
            },
            _ => {},
        }
        j += 1;
    }
    assert(kws@.subrange(0, kws@.len() as int) =~= kws@);
    let ghost old_deps = deps@;
    deps.push(path);
    assert(deps@.map_values(|s: String| s@) =~= old_deps.map_values(|s: String| s@).push(path@));
    Ok(())
}

fn index_expr_into(
    doc: &mut IndexedDocument,
    deps: &mut Vec<String>,
    e: &Expr,
    table: &Vec<(String, String)>,
) -> (r: Result<(), IndexError>)
    requires
        old(doc).wf(),
    ensures
        final(doc).wf(),
        match index_expr(state_of(*old(doc), old(deps)@), *e, table_view(table@)) {
            Some(s) => r is Ok && state_of(*final(doc), final(deps)@) == s,
            None => r is Err,
        },
    decreases e,
{
    match e {
        Expr::Identifier { name, start } => {
            doc.push_call(FunctionCall::from_identifier(name, *start));
            Ok(())
        },
        Expr::Call { function, args, keywords } => {
            if is_load_callee_exec(function) {
                index_load_into(doc, deps, args, keywords, table)
            } else {
                match index_expr_into(doc, deps, function, table) {
                    Err(err) => {
                        return Err(err);
                    },
                    Ok(()) => {},
                }
                match index_exprs_into(doc, deps, args, table) {
                    Err(err) => {
                        return Err(err);
                    },
                    Ok(()) => {},
                }
                index_keyword_values_into(doc, deps, keywords, table)
            }
        },
        _ => Ok(()),
    }
}

fn index_exprs_into(
    doc: &mut IndexedDocument,
    deps: &mut Vec<String>,
    es: &Vec<Expr>,
    table: &Vec<(String, String)>,
) -> (r: Result<(), IndexError>)
    requires
        old(doc).wf(),
    ensures
        final(doc).wf(),
        match index_exprs(state_of(*old(doc), old(deps)@), es@, table_view(table@)) {
            Some(s) => r is Ok && state_of(*final(doc), final(deps)@) == s,
            None => r is Err,
        },
    decreases es,
{
    let ghost tv = table_view(table@);
    assert(es@.skip(0) =~= es@);
    let mut i: usize = 0;
    while i < es.len()
        invariant
            i <= es.len(),
            doc.wf(),
            tv == table_view(table@),
            index_exprs(state_of(*old(doc), old(deps)@), es@, tv) == index_exprs(
                state_of(*doc, deps@),
                es@.skip(i as int),
                tv,
            ),
        decreases es.len() - i,
    {
        assert(es@.skip(i as int).drop_first() =~= es@.skip(i as int + 1));
        assert(es@.skip(i as int)[0] == es@[i as int]);
        match index_expr_into(doc, deps, &es[i], table) {
            Err(err) => {
                return Err(err);
            },
            Ok(()) => {},
        }
        i += 1;
    }
    Ok(())
}

fn index_keyword_values_into(
    doc: &mut IndexedDocument,
    deps: &mut Vec<String>,
    kws: &Vec<Keyword>,
    table: &Vec<(String, String)>,
) -> (r: Result<(), IndexError>)
    requires
        old(doc).wf(),
    ensures
        final(doc).wf(),
        match index_keyword_values(state_of(*old(doc), old(deps)@), kws@, table_view(table@)) {
            Some(s) => r is Ok && state_of(*final(doc), final(deps)@) == s,
            None => r is Err,
        },
    decreases kws,
{
    let ghost tv = table_view(table@);
    assert(kws@.skip(0) =~= kws@);
    let mut i: usize = 0;
    while i < kws.len()
        invariant
            i <= kws.len(),
            doc.wf(),
            tv == table_view(table@),
            index_keyword_values(state_of(*old(doc), old(deps)@), kws@, tv) == index_keyword_values(
                state_of(*doc, deps@),
                kws@.skip(i as int),
                tv,
            ),
        decreases kws.len() - i,
    {
        assert(kws@.skip(i as int).drop_first() =~= kws@.skip(i as int + 1));
        assert(kws@.skip(i as int)[0] == kws@[i as int]);
        match index_expr_into(doc, deps, &kws[i].value, table) {
            Err(err) => {
                return Err(err);
            },
            Ok(()) => {},
        }
        i += 1;
    }
    Ok(())
}

fn bind_targets_into(doc: &mut IndexedDocument, targets: &Vec<Expr>)
    requires
        old(doc).wf(),
    ensures
        final(doc).wf(),
        final(doc)@.declarations == bind_targets(old(doc)@.declarations, targets@),
        final(doc)@.calls == old(doc)@.calls,
{
    let mut i: usize = 0;
    while i < targets.len()
        invariant
            i <= targets.len(),
            doc.wf(),
            doc@.calls == old(doc)@.calls,
            doc@.declarations == bind_targets(old(doc)@.declarations, targets@.subrange(0, i as int)),
        decreases targets.len() - i,
    {
        assert(targets@.subrange(0, i as int + 1).drop_last() =~= targets@.subrange(0, i as int));
        assert(targets@.subrange(0, i as int + 1).last() == targets@[i as int]);
        match &targets[i] {
            Expr::Identifier { name, start } => {
                doc.insert_declaration(FunctionDecl::declared_in_file(name, *start));
            },
            _ => {},
        }
        i += 1;
    }
    assert(targets@.subrange(0, targets@.len() as int) =~= targets@);
}

fn index_stmt_into(
    doc: &mut IndexedDocument,
    deps: &mut Vec<String>,
    s: &Stmt,
    table: &Vec<(String, String)>,
) -> (r: Result<(), IndexError>)
    requires
        old(doc).wf(),
    ensures
        final(doc).wf(),
        match index_stmt(state_of(*old(doc), old(deps)@), *s, table_view(table@)) {
            Some(st) => r is Ok && state_of(*final(doc), final(deps)@) == st,
            None => r is Err,
        },
    decreases s,
{
    match s {
        Stmt::FunctionDef { name, start, body } => {
            doc.insert_declaration(FunctionDecl::declared_in_file(name, *start));
            index_stmts_into(doc, deps, body, table)
        },
        Stmt::Assign { targets, value } => {
            bind_targets_into(doc, targets);
            index_expr_into(doc, deps, value, table)
        },
        Stmt::Expression { expression } => index_expr_into(doc, deps, expression, table),
        Stmt::Other => Ok(()),
    }
}

fn index_stmts_into(
    doc: &mut IndexedDocument,
    deps: &mut Vec<String>,
    ss: &Vec<Stmt>,
    table: &Vec<(String, String)>,
) -> (r: Result<(), IndexError>)
    requires
        old(doc).wf(),
    ensures
        final(doc).wf(),
        match index_stmts(state_of(*old(doc), old(deps)@), ss@, table_view(table@)) {
            Some(st) => r is Ok && state_of(*final(doc), final(deps)@) == st,
            None => r is Err,
        },
    decreases ss,
{
    let ghost tv = table_view(table@);
    assert(ss@.skip(0) =~= ss@);
    let mut i: usize = 0;
    while i < ss.len()
        invariant
            i <= ss.len(),
            doc.wf(),
            tv == table_view(table@),
            index_stmts(state_of(*old(doc), old(deps)@), ss@, tv) == index_stmts(
                state_of(*doc, deps@),
                ss@.skip(i as int),
                tv,
            ),
        decreases ss.len() - i,
    {
        assert(ss@.skip(i as int).drop_first() =~= ss@.skip(i as int + 1));
        assert(ss@.skip(i as int)[0] == ss@[i as int]);
        match index_stmt_into(doc, deps, &ss[i], table) {
            Err(err) => {
                return Err(err);
            },
            Ok(()) => {},
        }
        i += 1;
    }
    Ok(())
}

/// Indexes a file's statements. `table` pairs each load label that resolved
/// with its path; a load whose label is not in it is skipped. Returns the
/// index and the paths of the loaded files, in order.
pub fn index_statements(stmts: &Vec<Stmt>, table: &Vec<(String, String)>) -> (r: Result<
    (IndexedDocument, Vec<String>),
    IndexError,
>)
    ensures
        match index_of(stmts@, table_view(table@)) {
            Some(st) => r matches Ok((doc, deps)) && doc.wf() && state_of(doc, deps@) == st,
            None => r is Err,
        },
{
    let mut doc = IndexedDocument::new();
    let mut deps: Vec<String> = Vec::new();
    assert(state_of(doc, deps@) =~= empty_state()) by {
        assert(deps@.map_values(|s: String| s@) =~= Seq::<Seq<char>>::empty());
    }
    match index_stmts_into(&mut doc, &mut deps, stmts, table) {
        Err(err) => Err(err),
        Ok(()) => Ok((doc, deps)),
    }
}

/// The labels of the loads of an expression, in order: the first argument
/// of each `load` call that is a string literal.
pub open spec fn labels_in_expr(e: Expr) -> Seq<Seq<char>>
    decreases e,
{
    match e {
        Expr::Call { function, args, keywords } => if is_load_callee(*function) {
            if args@.len() > 0 && string_value(args@[0]).is_some() {
                seq![string_value(args@[0]).unwrap()]
            } else {
                Seq::empty()
            }
        } else {
            labels_in_expr(*function) + labels_in_exprs(args@) + labels_in_keywords(keywords@)
        },
        _ => Seq::empty(),
    }
}

pub open spec fn labels_in_exprs(es: Seq<Expr>) -> Seq<Seq<char>>
    decreases es,
{
    if es.len() == 0 {
        Seq::empty()
    } else {
        labels_in_expr(es[0]) + labels_in_exprs(es.drop_first())
    }
}

pub open spec fn labels_in_keywords(kws: Seq<Keyword>) -> Seq<Seq<char>>
    decreases kws,
{
    if kws.len() == 0 {
        Seq::empty()
    } else {
        labels_in_expr(kws[0].value) + labels_in_keywords(kws.drop_first())
    }
}

pub open spec fn labels_in_stmt(s: Stmt) -> Seq<Seq<char>>
    decreases s,
{
    match s {
        Stmt::FunctionDef { body, .. } => labels_in_stmts(body@),
        Stmt::Assign { value, .. } => labels_in_expr(value),
        Stmt::Expression { expression } => labels_in_expr(expression),
        Stmt::Other => Seq::empty(),
    }
}

pub open spec fn labels_in_stmts(ss: Seq<Stmt>) -> Seq<Seq<char>>
    decreases ss,
{
    if ss.len() == 0 {
        Seq::empty()
    } else {
        labels_in_stmt(ss[0]) + labels_in_stmts(ss.drop_first())
    }
}

fn collect_expr_labels(e: &Expr, out: &mut Vec<String>)
    ensures
        strings_view(final(out)@) == strings_view(old(out)@) + labels_in_expr(*e),
    decreases e,
{
    let ghost start = strings_view(out@);
    match e {
        Expr::Call { function, args, keywords } => {
            if is_load_callee_exec(function) {
                if args.len() > 0 {
                    match &args[0] {
                        Expr::StringLiteral { value } => {
                            out.push(value.clone());
                            assert(strings_view(out@) =~= start + seq![value@]);
                        },
                        _ => {
                            assert(strings_view(out@) =~= start + Seq::<Seq<char>>::empty());
                        },
                    }
                } else {
                    assert(strings_view(out@) =~= start + Seq::<Seq<char>>::empty());
                }
            } else {
                collect_expr_labels(function, out);
                collect_exprs_labels(args, out);
                collect_keyword_labels(keywords, out);
                assert(start + labels_in_expr(**function) + labels_in_exprs(args@) + labels_in_keywords(keywords@)
                    =~= start + (labels_in_expr(**function) + labels_in_exprs(args@) + labels_in_keywords(keywords@)));
            }
        },
        _ => {
            assert(strings_view(out@) =~= start + Seq::<Seq<char>>::empty());
        },
    }
}

fn collect_exprs_labels(es: &Vec<Expr>, out: &mut Vec<String>)
    ensures
        strings_view(final(out)@) == strings_view(old(out)@) + labels_in_exprs(es@),
    decreases es,
{
    let ghost start = strings_view(out@);
    assert(es@.skip(0) =~= es@);
    assert(start + Seq::<Seq<char>>::empty() =~= start);
    let mut i: usize = 0;
    while i < es.len()
        invariant
            i <= es.len(),
            start == strings_view(old(out)@),
            strings_view(out@) + labels_in_exprs(es@.skip(i as int)) == start + labels_in_exprs(es@),
        decreases es.len() - i,
    {
        let ghost before = strings_view(out@);
        assert(es@.skip(i as int).drop_first() =~= es@.skip(i as int + 1));
        assert(es@.skip(i as int)[0] == es@[i as int]);
        collect_expr_labels(&es[i], out);
        assert(before + labels_in_exprs(es@.skip(i as int)) =~= before + labels_in_expr(es@[i as int])
            + labels_in_exprs(es@.skip(i as int + 1)));
        i += 1;
    }
    assert(strings_view(out@) + labels_in_exprs(es@.skip(i as int)) =~= strings_view(out@));
}

fn collect_keyword_labels(kws: &Vec<Keyword>, out: &mut Vec<String>)
    ensures
        strings_view(final(out)@) == strings_view(old(out)@) + labels_in_keywords(kws@),
    decreases kws,
{
    let ghost start = strings_view(out@);
    assert(kws@.skip(0) =~= kws@);
    let mut i: usize = 0;
    while i < kws.len()
        invariant
            i <= kws.len(),
            start == strings_view(old(out)@),
            strings_view(out@) + labels_in_keywords(kws@.skip(i as int)) == start + labels_in_keywords(kws@),
        decreases kws.len() - i,
    {
        let ghost before = strings_view(out@);
        assert(kws@.skip(i as int).drop_first() =~= kws@.skip(i as int + 1));
        assert(kws@.skip(i as int)[0] == kws@[i as int]);
        collect_expr_labels(&kws[i].value, out);
        assert(before + labels_in_keywords(kws@.skip(i as int)) =~= before + labels_in_expr(kws@[i as int].value)
            + labels_in_keywords(kws@.skip(i as int + 1)));
        i += 1;
    }
    assert(strings_view(out@) + labels_in_keywords(kws@.skip(i as int)) =~= strings_view(out@));
}

fn collect_stmts_labels(ss: &Vec<Stmt>, out: &mut Vec<String>)
    ensures
        strings_view(final(out)@) == strings_view(old(out)@) + labels_in_stmts(ss@),
    decreases ss,
{
    let ghost start = strings_view(out@);
    assert(ss@.skip(0) =~= ss@);
    let mut i: usize = 0;
    while i < ss.len()
        invariant
            i <= ss.len(),
            start == strings_view(old(out)@),
            strings_view(out@) + labels_in_stmts(ss@.skip(i as int)) == start + labels_in_stmts(ss@),
        decreases ss.len() - i,
    {
        let ghost before = strings_view(out@);
        assert(ss@.skip(i as int).drop_first() =~= ss@.skip(i as int + 1));
        assert(ss@.skip(i as int)[0] == ss@[i as int]);
        collect_stmt_labels(&ss[i], out);
        assert(before + labels_in_stmts(ss@.skip(i as int)) =~= before + labels_in_stmt(ss@[i as int])
            + labels_in_stmts(ss@.skip(i as int + 1)));
        i += 1;
    }
    assert(strings_view(out@) + labels_in_stmts(ss@.skip(i as int)) =~= strings_view(out@));
}

fn collect_stmt_labels(s: &Stmt, out: &mut Vec<String>)
    ensures
        strings_view(final(out)@) == strings_view(old(out)@) + labels_in_stmt(*s),
    decreases s,
{
    match s {
        Stmt::FunctionDef { body, .. } => collect_stmts_labels(body, out),
        Stmt::Assign { value, .. } => collect_expr_labels(value, out),
        Stmt::Expression { expression } => collect_expr_labels(expression, out),
        Stmt::Other => {
            assert(strings_view(out@) =~= strings_view(old(out)@) + Seq::<Seq<char>>::empty());
        },
    }
}

/// The table of resolved labels when the disk answered `found[i]` for the
/// `i`-th of `labels`: each label whose root is set and whose file was
/// found, paired with the path that the roots give it.
pub open spec fn resolution_table(
    roots: crate::bazel::RootsView,
    labels: Seq<Seq<char>>,
    found: Seq<bool>,
) -> Seq<(Seq<char>, Seq<char>)>
    decreases labels.len(),
{
    if labels.len() == 0 || found.len() == 0 {
        Seq::empty()
    } else {
        let prev = resolution_table(roots, labels.drop_last(), found.drop_last());
        match candidate_path(roots, labels.last()) {
            Some(p) => if found.last() {
                prev.push((labels.last(), p))
            } else {
                prev
            },
            None => prev,
        }
    }
}

/// Indexes a file's statements, asking `workspace` to resolve the label of
/// each of its loads in order. Which files exist is the disk's to say: the
/// result is the index under the table that holds every label whose file
/// was found, with the path that the roots give it.
pub fn process_document<B: BazelInfo>(stmts: &Vec<Stmt>, workspace: &BazelWorkspace<B>) -> (r: Result<
    (IndexedDocument, Vec<String>),
    IndexError,
>)
    ensures
        exists|found: Seq<bool>|
            found.len() == labels_in_stmts(stmts@).len() && match index_of(
                stmts@,
                #[trigger] resolution_table(workspace@, labels_in_stmts(stmts@), found),
            ) {
                Some(st) => r matches Ok((doc, deps)) && doc.wf() && state_of(doc, deps@) == st,
                None => r is Err,
            },
{
    let mut labels: Vec<String> = Vec::new();
    collect_stmts_labels(stmts, &mut labels);
    assert(strings_view(labels@) =~= labels_in_stmts(stmts@));
    let ghost lv = labels_in_stmts(stmts@);
    let ghost mut found: Seq<bool> = Seq::empty();
    let mut table: Vec<(String, String)> = Vec::new();
    let mut j: usize = 0;
    while j < labels.len()
        invariant
            j <= labels.len(),
            lv == strings_view(labels@),
            found.len() == j,
            table_view(table@) == resolution_table(workspace@, lv.subrange(0, j as int), found),
        decreases labels.len() - j,
    {
        let ghost old_t = table_view(table@);
        let ghost pre = lv.subrange(0, j as int + 1);
        assert(pre.drop_last() =~= lv.subrange(0, j as int));
        assert(pre.last() == labels@[j as int]@);
        match workspace.resolve_bazel_path(&labels[j]) {
            Ok(path) => {
                table.push((labels[j].clone(), path));
                proof {
                    assert(found.push(true).drop_last() =~= found);
                    found = found.push(true);
                }
                assert(table_view(table@) =~= old_t.push((labels@[j as int]@, path@)));
            },
            Err(_) => {
                proof {
                    assert(found.push(false).drop_last() =~= found);
                    found = found.push(false);
                }
            },
        }
        j += 1;
    }
    assert(lv.subrange(0, labels@.len() as int) =~= lv);
    index_statements(stmts, &table)
}

/// The calls of an expression, in the order in which they appear.
pub open spec fn calls_in_expr(e: Expr) -> Seq<CallView>
    decreases e,
{
    match e {
        Expr::Identifier { name, start } => seq![call_view(name@, start)],
        Expr::Call { function, args, keywords } => if is_load_callee(*function) {
            Seq::empty()
        } else {
            calls_in_expr(*function) + calls_in_exprs(args@) + calls_in_keywords(keywords@)
        },
        _ => Seq::empty(),
    }
}

pub open spec fn calls_in_exprs(es: Seq<Expr>) -> Seq<CallView>
    decreases es,
{
    if es.len() == 0 {
        Seq::empty()
    } else {
        calls_in_expr(es[0]) + calls_in_exprs(es.drop_first())
    }
}

pub open spec fn calls_in_keywords(kws: Seq<Keyword>) -> Seq<CallView>
    decreases kws,
{
    if kws.len() == 0 {
        Seq::empty()
    } else {
        calls_in_expr(kws[0].value) + calls_in_keywords(kws.drop_first())
    }
}

pub open spec fn calls_in_stmt(s: Stmt) -> Seq<CallView>
    decreases s,
{
    match s {
        Stmt::FunctionDef { body, .. } => calls_in_stmts(body@),
        Stmt::Assign { value, .. } => calls_in_expr(value),
        Stmt::Expression { expression } => calls_in_expr(expression),
        Stmt::Other => Seq::empty(),
    }
}

pub open spec fn calls_in_stmts(ss: Seq<Stmt>) -> Seq<CallView>
    decreases ss,
{
    if ss.len() == 0 {
        Seq::empty()
    } else {
        calls_in_stmt(ss[0]) + calls_in_stmts(ss.drop_first())
    }
}

/// Each declaration is filed under its own local name.
pub open spec fn keyed_by_name(m: Map<Seq<char>, DeclView>) -> bool {
    forall|k: Seq<char>| #[trigger] m.contains_key(k) ==> m[k].imported_name == k
}

proof fn lemma_add_positional_keyed(m: Map<Seq<char>, DeclView>, names: Seq<Expr>, path: Seq<char>)
    requires
        keyed_by_name(m),
    ensures
        keyed_by_name(add_positional(m, names, path)),
    decreases names.len(),
{
    if names.len() > 0 {
        lemma_add_positional_keyed(m, names.drop_last(), path);
    }
}

proof fn lemma_add_renames_keyed(m: Map<Seq<char>, DeclView>, kws: Seq<Keyword>, path: Seq<char>)
    requires
        keyed_by_name(m),
    ensures
        keyed_by_name(add_renames(m, kws, path)),
    decreases kws.len(),
{
    if kws.len() > 0 {
        lemma_add_renames_keyed(m, kws.drop_last(), path);
    }
}

proof fn lemma_bind_targets_keyed(m: Map<Seq<char>, DeclView>, targets: Seq<Expr>)
    requires
        keyed_by_name(m),
    ensures
        keyed_by_name(bind_targets(m, targets)),
    decreases targets.len(),
{
    if targets.len() > 0 {
        lemma_bind_targets_keyed(m, targets.drop_last());
    }
}

proof fn lemma_expr_order(st: IndexState, e: Expr, t: Seq<(Seq<char>, Seq<char>)>)
    ensures
        index_expr(st, e, t) matches Some(s2) ==> s2.calls == st.calls + calls_in_expr(e) && (
        keyed_by_name(st.declarations) ==> keyed_by_name(s2.declarations)),
    decreases e,
{
    match e {
        Expr::Identifier { name, start } => {
            assert(st.calls.push(call_view(name@, start)) =~= st.calls + seq![call_view(name@, start)]);
        },
        Expr::Call { function, args, keywords } => {
            if is_load_callee(*function) {
                assert(st.calls + Seq::<CallView>::empty() =~= st.calls);
                if keyed_by_name(st.declarations) && args.len() > 0 {
                    let names = args@.subrange(1, args@.len() as int);
                    match resolved_path(t, string_value(args@[0]).unwrap()) {
                        Some(path) => {
                            lemma_add_positional_keyed(st.declarations, names, path);
                            lemma_add_renames_keyed(add_positional(st.declarations, names, path), keywords@, path);
                        },
                        None => {},
                    }
                }
            } else {
                lemma_expr_order(st, *function, t);
                match index_expr(st, *function, t) {
                    Some(s1) => {
                        lemma_exprs_order(s1, args@, t);
                        match index_exprs(s1, args@, t) {
                            Some(s2) => {
                                lemma_keywords_order(s2, keywords@, t);
                                assert(st.calls + (calls_in_expr(*function) + calls_in_exprs(args@)
                                    + calls_in_keywords(keywords@)) =~= st.calls + calls_in_expr(*function)
                                    + calls_in_exprs(args@) + calls_in_keywords(keywords@));
                            },
                            None => {},
                        }
                    },
                    None => {},
                }
            }
        },
        _ => {
            assert(st.calls + Seq::<CallView>::empty() =~= st.calls);
        },
    }
}

proof fn lemma_exprs_order(st: IndexState, es: Seq<Expr>, t: Seq<(Seq<char>, Seq<char>)>)
    ensures
        index_exprs(st, es, t) matches Some(s2) ==> s2.calls == st.calls + calls_in_exprs(es) && (
        keyed_by_name(st.declarations) ==> keyed_by_name(s2.declarations)),
    decreases es,
{
    if es.len() == 0 {
        assert(st.calls + Seq::<CallView>::empty() =~= st.calls);
    } else {
        lemma_expr_order(st, es[0], t);
        match index_expr(st, es[0], t) {
            Some(s1) => {
                lemma_exprs_order(s1, es.drop_first(), t);
                assert(st.calls + (calls_in_expr(es[0]) + calls_in_exprs(es.drop_first())) =~= st.calls
                    + calls_in_expr(es[0]) + calls_in_exprs(es.drop_first()));
            },
            None => {},
        }
    }
}

proof fn lemma_keywords_order(st: IndexState, kws: Seq<Keyword>, t: Seq<(Seq<char>, Seq<char>)>)
    ensures
        index_keyword_values(st, kws, t) matches Some(s2) ==> s2.calls == st.calls + calls_in_keywords(kws)
            && (keyed_by_name(st.declarations) ==> keyed_by_name(s2.declarations)),
    decreases kws,
{
    if kws.len() == 0 {
        assert(st.calls + Seq::<CallView>::empty() =~= st.calls);
    } else {
        lemma_expr_order(st, kws[0].value, t);
        match index_expr(st, kws[0].value, t) {
            Some(s1) => {
                lemma_keywords_order(s1, kws.drop_first(), t);
                assert(st.calls + (calls_in_expr(kws[0].value) + calls_in_keywords(kws.drop_first())) =~= st.calls
                    + calls_in_expr(kws[0].value) + calls_in_keywords(kws.drop_first()));
            },
            None => {},
        }
    }
}

proof fn lemma_stmt_order(st: IndexState, s: Stmt, t: Seq<(Seq<char>, Seq<char>)>)
    ensures
        index_stmt(st, s, t) matches Some(s2) ==> s2.calls == st.calls + calls_in_stmt(s) && (
        keyed_by_name(st.declarations) ==> keyed_by_name(s2.declarations)),
    decreases s,
{
    match s {
        Stmt::FunctionDef { name, start, body } => {
            let st1 = IndexState { declarations: st.declarations.insert(name@, declared_view(name@, start)), ..st };
            lemma_stmts_order(st1, body@, t);
        },
        Stmt::Assign { targets, value } => {
            let st1 = IndexState { declarations: bind_targets(st.declarations, targets@), ..st };
            if keyed_by_name(st.declarations) {
                lemma_bind_targets_keyed(st.declarations, targets@);
            }
            lemma_expr_order(st1, value, t);
        },
        Stmt::Expression { expression } => {
            lemma_expr_order(st, expression, t);
        },
        Stmt::Other => {
            assert(st.calls + Seq::<CallView>::empty() =~= st.calls);
        },
    }
}

proof fn lemma_stmts_order(st: IndexState, ss: Seq<Stmt>, t: Seq<(Seq<char>, Seq<char>)>)
    ensures
        index_stmts(st, ss, t) matches Some(s2) ==> s2.calls == st.calls + calls_in_stmts(ss) && (
        keyed_by_name(st.declarations) ==> keyed_by_name(s2.declarations)),
    decreases ss,
{
    if ss.len() == 0 {
        assert(st.calls + Seq::<CallView>::empty() =~= st.calls);
    } else {
        lemma_stmt_order(st, ss[0], t);
        match index_stmt(st, ss[0], t) {
            Some(s1) => {
                lemma_stmts_order(s1, ss.drop_first(), t);
                assert(st.calls + (calls_in_stmt(ss[0]) + calls_in_stmts(ss.drop_first())) =~= st.calls
                    + calls_in_stmt(ss[0]) + calls_in_stmts(ss.drop_first()));
            },
            None => {},
        }
    }
}

/// Of every file that indexes: each declaration is filed under its own
/// local name, one per name, and the calls are the file's identifier
/// references in the order in which they appear in the source.
pub proof fn lemma_index_shape(stmts: Seq<Stmt>, table: Seq<(Seq<char>, Seq<char>)>)
    ensures
        index_of(stmts, table) matches Some(st) ==> keyed_by_name(st.declarations) && st.calls
            == calls_in_stmts(stmts),
{
    lemma_stmts_order(empty_state(), stmts, table);
    assert(Seq::<CallView>::empty() + calls_in_stmts(stmts) =~= calls_in_stmts(stmts));
}

/// Indexing the same statements twice, with the same labels resolved, gives
/// equal documents and dependency lists.
pub proof fn lemma_reindex_equal(
    stmts: Seq<Stmt>,
    table: Seq<(Seq<char>, Seq<char>)>,
    doc1: IndexedDocument,
    deps1: Seq<String>,
    doc2: IndexedDocument,
    deps2: Seq<String>,
)
    requires
        index_of(stmts, table) matches Some(st) && state_of(doc1, deps1) == st && state_of(doc2, deps2) == st,
    ensures
        doc1@ == doc2@,
        deps1.map_values(|s: String| s@) == deps2.map_values(|s: String| s@),
{
    let a = doc1@;
    let b = doc2@;
    assert(a.declarations == b.declarations);
    assert(a.calls == b.calls);
}

} // verus!
