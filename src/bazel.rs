//! The label resolver: the workspace, source and execution roots, and the
//! mapping of `load` labels to files under them.
use vstd::prelude::*;
use vstd::string::*;
use crate::paths::{
    find_char_from, find_from, is_file, is_under, join, join_path, path_is_under, replace_all,
    replaced, substring, trim_string, trimmed,
};

verus! {

/// Runs the build tool's `info` query in a directory and hands back what it
/// printed. Implemented outside the library by a subprocess-backed runner and
/// by fakes in tests.
pub trait BazelInfo {
    fn info_output(&self, workspace: &String) -> Result<String, String>;
}

pub ghost struct RootsView {
    pub exec_root: Option<Seq<char>>,
    pub workspace_root: Option<Seq<char>>,
    pub source_root: Option<Seq<char>>,
}

/// Why the roots could not be set or changed.
#[derive(Debug, Clone, PartialEq, Eq)]
pub enum WorkspaceError {
    /// The roots were asked for before a workspace was set.
    NotInitialized,
    /// The build tool's query failed, with its message.
    QueryFailed(String),
    /// A line of the query's output has no `:`.
    MalformedInfoLine,
    /// The query's output has no `execution_root` record.
    MissingExecutionRoot,
}

/// Why a label did not resolve.
#[derive(Debug, Clone, Copy, PartialEq, Eq, Structural)]
pub enum LabelError {
    /// The root that the label resolves against is not set.
    NoRoot,
    /// The resolved path is not an existing file.
    NotAFile,
}

/// `label` names a file relative to the source root (`//pkg:name`).
pub open spec fn is_workspace_label(label: Seq<char>) -> bool {
    label.len() >= 2 && label[0] == '/' && label[1] == '/'
}

/// A trimmed label as a relative path: `@` dropped, `//:`, `//` and `:`
/// each made one `/`, and one leading `/` removed.
pub open spec fn sanitized_trimmed(t: Seq<char>) -> Seq<char> {
    let a = replaced(t, seq!['@'], Seq::empty());
    let b = replaced(a, seq!['/', '/', ':'], seq!['/']);
    let c = replaced(b, seq!['/', '/'], seq!['/']);
    let d = replaced(c, seq![':'], seq!['/']);
    if d.len() > 0 && d[0] == '/' {
        d.drop_first()
    } else {
        d
    }
}

pub open spec fn sanitized(label: Seq<char>) -> Seq<char> {
    sanitized_trimmed(trimmed(label))
}

/// The path that `label` names under the current roots, before any check on
/// the disk: `None` where its root is not set.
pub open spec fn candidate_path(roots: RootsView, label: Seq<char>) -> Option<Seq<char>> {
    let root = if is_workspace_label(label) {
        roots.source_root
    } else {
        roots.exec_root
    };
    match root {
        Some(r) => Some(join(r, sanitized(label))),
        None => None,
    }
}

/// The roots after the user opens `file`: under the execution root, the
/// source root becomes the directory right below the execution root that
/// holds `file`; else, under the workspace root, it becomes the workspace
/// root again; else nothing changes.
pub open spec fn changed_root(r: RootsView, file: Seq<char>) -> RootsView {
    match (r.exec_root, r.workspace_root) {
        (Some(e), Some(w)) => if is_under(file, e) {
            if file == e {
                r
            } else {
                RootsView {
                    source_root: Some(file.subrange(0, find_from(file, '/', e.len() as int + 1))),
                    ..r
                }
            }
        } else if is_under(file, w) {
            RootsView { source_root: Some(w), ..r }
        } else {
            r
        },
        _ => r,
    }
}

/// The lines of `s` from `pos` on, split at each `\n`.
pub open spec fn lines_from(s: Seq<char>, pos: int) -> Seq<Seq<char>>
    decreases s.len() - pos,
{
    let i = find_from(s, '\n', pos);
    if pos > s.len() {
        Seq::empty()
    } else if i >= s.len() {
        seq![s.subrange(pos, s.len() as int)]
    } else if i < pos {
        Seq::empty()
    } else {
        seq![s.subrange(pos, i)] + lines_from(s, i + 1)
    }
}

/// A line `key:value`, split at its first `:`.
pub open spec fn record_of(line: Seq<char>) -> Option<(Seq<char>, Seq<char>)> {
    let i = find_from(line, ':', 0);
    if i >= line.len() {
        None
    } else {
        Some((line.subrange(0, i), line.subrange(i + 1, line.len() as int)))
    }
}

/// The records of an `info` output, one per line; `None` where a line has no `:`.
pub open spec fn info_records(output: Seq<char>) -> Option<Seq<(Seq<char>, Seq<char>)>> {
    let lines = lines_from(output, 0);
    if forall|i: int| 0 <= i < lines.len() ==> (#[trigger] record_of(lines[i])).is_some() {
        Some(lines.map_values(|l: Seq<char>| record_of(l).unwrap()))
    } else {
        None
    }
}

/// The value of the last record for `name`.
pub open spec fn field_value(records: Seq<(Seq<char>, Seq<char>)>, name: Seq<char>) -> Option<Seq<char>>
    decreases records.len(),
{
    if records.len() == 0 {
        None
    } else if records.last().0 == name {
        Some(records.last().1)
    } else {
        field_value(records.drop_last(), name)
    }
}

pub open spec fn records_view(v: Seq<(String, String)>) -> Seq<(Seq<char>, Seq<char>)> {
    v.map_values(|p: (String, String)| (p.0@, p.1@))
}

pub open spec fn execution_root_key() -> Seq<char> {
    seq!['e', 'x', 'e', 'c', 'u', 't', 'i', 'o', 'n', '_', 'r', 'o', 'o', 't']
}

pub open spec fn internal_segment() -> Seq<char> {
    seq!['e', 'x', 'e', 'c', 'r', 'o', 'o', 't', '/', '_', '_', 'm', 'a', 'i', 'n', '_', '_']
}

pub open spec fn external_segment() -> Seq<char> {
    seq!['e', 'x', 't', 'e', 'r', 'n', 'a', 'l']
}

/// The execution root that an `info` output gives, with the internal
/// `execroot/__main__` segment turned into `external`, where dependencies
/// are materialised.
pub open spec fn exec_root_of(output: Seq<char>) -> Result<Seq<char>, WorkspaceError> {
    match info_records(trimmed(output)) {
        None => Err(WorkspaceError::MalformedInfoLine),
        Some(rs) => match field_value(rs, execution_root_key()) {
            None => Err(WorkspaceError::MissingExecutionRoot),
            Some(v) => Ok(replaced(trimmed(v), internal_segment(), external_segment())),
        },
    }
}

/// Splits the output of the build tool's `info` query into `key:value`
/// records, one per line, each split at its first `:`.
pub fn parse_bazel_info_output(output: &String) -> (r: Result<Vec<(String, String)>, WorkspaceError>)
    ensures
        match info_records(output@) {
            Some(rs) => r matches Ok(v) && records_view(v@) == rs,
            None => r == Err::<Vec<(String, String)>, WorkspaceError>(WorkspaceError::MalformedInfoLine),
        },
{
    let n = output.as_str().unicode_len();
    let ghost s = output@;
    let mut records: Vec<(String, String)> = Vec::new();
    let ghost mut done: Seq<Seq<char>> = Seq::empty();
    let mut pos: usize = 0;
    loop
        invariant
            n == s.len(),
            s == output@,
            pos <= n,
            lines_from(s, 0) == done + lines_from(s, pos as int),
            forall|j: int| 0 <= j < done.len() ==> (#[trigger] record_of(done[j])).is_some(),
            records_view(records@) == done.map_values(|l: Seq<char>| record_of(l).unwrap()),
        decreases n - pos,
    {
        let i = find_char_from(output, '\n', pos);
        let line = substring(output, pos, i);
        let ghost rest = lines_from(s, pos as int);
        assert(rest[0] == line@);
        let c = find_char_from(&line, ':', 0);
        let ln = line.as_str().unicode_len();
        if c >= ln {
            proof {
                let lines = lines_from(s, 0);
                assert(lines[done.len() as int] == line@);
                assert(record_of(lines[done.len() as int]).is_none());
            }
            return Err(WorkspaceError::MalformedInfoLine);
        }
        let key = substring(&line, 0, c);
        let value = substring(&line, c + 1, ln);
        assert(record_of(line@) == Some((key@, value@)));
        let ghost old_records = records@;
        records.push((key, value));
        proof {
            assert(records@ == old_records.push((key, value)));
            assert(records_view(records@) =~= records_view(old_records).push((key@, value@)));
            let old_done = done;
            done = done.push(line@);
            assert(records_view(records@) =~= done.map_values(|l: Seq<char>| record_of(l).unwrap()));
            if i < n {
                assert(rest =~= seq![line@] + lines_from(s, i + 1));
                assert(done + lines_from(s, i + 1) =~= old_done + rest);
            } else {
                assert(rest =~= seq![line@]);
                assert(lines_from(s, 0) =~= done);
            }
        }
        if i >= n {
            proof {
                let lines = lines_from(s, 0);
                assert(lines == done);
                assert(records_view(records@) =~= lines.map_values(|l: Seq<char>| record_of(l).unwrap()));
            }
            return Ok(records);
        }
        pos = i + 1;
    }
}

/// The value of the last record named `name`.
pub fn read_field(name: &String, fields: &Vec<(String, String)>) -> (r: Result<String, WorkspaceError>)
    ensures
        match field_value(records_view(fields@), name@) {
            Some(v) => r matches Ok(s) && s@ == v,
            None => r == Err::<String, WorkspaceError>(WorkspaceError::MissingExecutionRoot),
        },
{
    let ghost rv = records_view(fields@);
    let mut i: usize = fields.len();
    assert(rv.subrange(0, i as int) =~= rv);
    while i > 0
        invariant
            i <= fields.len(),
            rv == records_view(fields@),
            field_value(rv, name@) == field_value(rv.subrange(0, i as int), name@),
        decreases i,
    {
        let ghost sub = rv.subrange(0, i as int);
        assert(sub.drop_last() =~= rv.subrange(0, i as int - 1));
        if fields[i - 1].0 == *name {
            return Ok(fields[i - 1].1.clone());
        }
        i -= 1;
    }
    Err(WorkspaceError::MissingExecutionRoot)
}

/// Roots are all set or all unset, and the source root is the workspace
/// root or a directory strictly below the execution root.
pub open spec fn roots_wf(r: RootsView) -> bool {
    &&& r.exec_root.is_some() == r.workspace_root.is_some()
    &&& r.workspace_root.is_some() == r.source_root.is_some()
    &&& match (r.source_root, r.exec_root) {
        (Some(s), Some(e)) => r.workspace_root == Some(s) || (is_under(s, e) && s != e),
        _ => true,
    }
}

pub open spec fn no_roots() -> RootsView {
    RootsView { exec_root: None, workspace_root: None, source_root: None }
}

/// A trimmed label as a relative path; see `sanitized_trimmed`.
pub fn sanitize_trimmed_label(t: &String) -> (r: String)
    ensures
        r@ == sanitized_trimmed(t@),
{
    proof {
        reveal_strlit("@");
        reveal_strlit("");
        reveal_strlit("//:");
        reveal_strlit("/");
        reveal_strlit("//");
        reveal_strlit(":");
    }
    assert("@"@ =~= seq!['@']);
    assert(""@ =~= Seq::<char>::empty());
    assert("//:"@ =~= seq!['/', '/', ':']);
    assert("/"@ =~= seq!['/']);
    assert("//"@ =~= seq!['/', '/']);
    assert(":"@ =~= seq![':']);
    let a = replace_all(t.as_str(), "@", "");
    let b = replace_all(a.as_str(), "//:", "/");
    let c = replace_all(b.as_str(), "//", "/");
    let d = replace_all(c.as_str(), ":", "/");
    let n = d.as_str().unicode_len();
    if n > 0 && d.as_str().get_char(0) == '/' {
        let r = substring(&d, 1, n);
        assert(r@ =~= d@.drop_first());
        r
    } else {
        d
    }
}

fn is_workspace_label_exec(label: &String) -> (r: bool)
    ensures
        r == is_workspace_label(label@),
{
    let n = label.as_str().unicode_len();
    n >= 2 && label.as_str().get_char(0) == '/' && label.as_str().get_char(1) == '/'
}

pub open spec fn opt_view(o: Option<String>) -> Option<Seq<char>> {
    match o {
        Some(s) => Some(s@),
        None => None,
    }
}

/// The roots against which labels resolve.
#[derive(Debug)]
pub struct InnerBazel {
    exec_root: Option<String>,
    workspace_root: Option<String>,
    source_root: Option<String>,
}

impl View for InnerBazel {
    type V = RootsView;

    closed spec fn view(&self) -> RootsView {
        RootsView {
            exec_root: opt_view(self.exec_root),
            workspace_root: opt_view(self.workspace_root),
            source_root: opt_view(self.source_root),
        }
    }
}

impl InnerBazel {
    pub fn new() -> (r: InnerBazel)
        ensures
            r@ == no_roots(),
            roots_wf(r@),
    {
        InnerBazel { exec_root: None, workspace_root: None, source_root: None }
    }

    /// The label as a path relative to its root; see `sanitized`.
    pub fn sanitize_starlark_label(&self, label: &String) -> (r: String)
        ensures
            r@ == sanitized(label@),
    {
        let t = trim_string(label);
        sanitize_trimmed_label(&t)
    }

    /// The path that `label` names under the current roots, unchecked.
    pub fn candidate_path(&self, label: &String) -> (r: Result<String, LabelError>)
        ensures
            match candidate_path(self@, label@) {
                Some(p) => r matches Ok(s) && s@ == p,
                None => r == Err::<String, LabelError>(LabelError::NoRoot),
            },
    {
        let root = if is_workspace_label_exec(label) {
            &self.source_root
        } else {
            &self.exec_root
        };
        match root {
            None => Err(LabelError::NoRoot),
            Some(r) => {
                let rel = self.sanitize_starlark_label(label);
                Ok(join_path(r, &rel))
            },
        }
    }

    /// Resolves `label` to the path of an existing file. It fails with
    /// `NoRoot` where the label's root is unset, else with `NotAFile` where
    /// nothing is there.
    pub fn resolve_bazel_path(&self, label: &String) -> (r: Result<String, LabelError>)
        ensures
            match candidate_path(self@, label@) {
                Some(p) => match r {
                    Ok(s) => s@ == p,
                    Err(e) => e == LabelError::NotAFile,
                },
                None => r == Err::<String, LabelError>(LabelError::NoRoot),
            },
    {
        match self.candidate_path(label) {
            Err(e) => Err(e),
            Ok(p) => {
                if is_file(&p) {
                    Ok(p)
                } else {
                    Err(LabelError::NotAFile)
                }
            },
        }
    }

    /// Follows the user into `file_path`; see `changed_root`.
    pub fn maybe_change_source_root(&mut self, file_path: &String) -> (r: Result<(), WorkspaceError>)
        requires
            roots_wf(old(self)@),
        ensures
            roots_wf(final(self)@),
            old(self)@.exec_root.is_none() ==> r == Err::<(), WorkspaceError>(WorkspaceError::NotInitialized)
                && final(self)@ == old(self)@,
            old(self)@.exec_root.is_some() ==> r is Ok && final(self)@ == changed_root(old(self)@, file_path@),
    {
        let (e, w) = match (&self.exec_root, &self.workspace_root) {
            (Some(e), Some(w)) => (e, w),
            _ => {
                return Err(WorkspaceError::NotInitialized);
            },
        };
        if path_is_under(file_path, e) {
            if *file_path == *e {
                return Ok(());
            }
            let m = e.as_str().unicode_len();
            let n = file_path.as_str().unicode_len();
            assert(n > m);
            let k = find_char_from(file_path, '/', m + 1);
            let child = substring(file_path, 0, k);
            proof {
                let f = file_path@;
                assert(child@.subrange(0, m as int) =~= f.subrange(0, m as int));
                assert(child@[m as int] == f[m as int]);
            }
            self.source_root = Some(child);
        } else if path_is_under(file_path, w) {
            self.source_root = Some(w.clone());
        }
        Ok(())
    }

    /// Sets the roots from the output of the `info` query run in `workspace`.
    pub fn apply_info_output(&mut self, workspace: &String, output: &String) -> (r: Result<(), WorkspaceError>)
        ensures
            roots_wf(old(self)@) ==> roots_wf(final(self)@),
            match exec_root_of(output@) {
                Ok(e) => r is Ok && final(self)@ == (RootsView {
                    exec_root: Some(e),
                    workspace_root: Some(workspace@),
                    source_root: Some(workspace@),
                }),
                Err(err) => r == Err::<(), WorkspaceError>(err) && final(self)@ == old(self)@,
            },
    {
        let out = trim_string(output);
        let records = match parse_bazel_info_output(&out) {
            Err(e) => {
                return Err(e);
            },
            Ok(rs) => rs,
        };
        proof {
            reveal_strlit("execution_root");
            reveal_strlit("execroot/__main__");
            reveal_strlit("external");
        }
        let key = String::from_str("execution_root");
        assert(key@ =~= execution_root_key());
        let value = match read_field(&key, &records) {
            Err(e) => {
                return Err(e);
            },
            Ok(v) => v,
        };
        let value = trim_string(&value);
        assert("execroot/__main__"@ =~= internal_segment());
        assert("external"@ =~= external_segment());
        let exec_root = replace_all(value.as_str(), "execroot/__main__", "external");
        self.exec_root = Some(exec_root);
        self.workspace_root = Some(workspace.clone());
        self.source_root = Some(workspace.clone());
        Ok(())
    }

    /// Asks `bazel_info` for the roots of `workspace` and sets them.
    pub fn update_workspace<B: BazelInfo>(&mut self, workspace: &String, bazel_info: &B) -> (r: Result<(), WorkspaceError>)
        ensures
            roots_wf(old(self)@) ==> roots_wf(final(self)@),
            r is Err ==> final(self)@ == old(self)@,
            r is Ok ==> exists|out: Seq<char>|
                #![auto]
                exec_root_of(out) is Ok && final(self)@ == (RootsView {
                    exec_root: Some(exec_root_of(out)->Ok_0),
                    workspace_root: Some(workspace@),
                    source_root: Some(workspace@),
                }),
    {
        match bazel_info.info_output(workspace) {
            Err(msg) => Err(WorkspaceError::QueryFailed(msg)),
            Ok(out) => self.apply_info_output(workspace, &out),
        }
    }
}

/// A session's label resolver together with the build tool it queries.
#[derive(Debug)]
pub struct BazelWorkspace<B: BazelInfo> {
    inner: InnerBazel,
    bazel_info: B,
}

impl<B: BazelInfo> View for BazelWorkspace<B> {
    type V = RootsView;

    closed spec fn view(&self) -> RootsView {
        self.inner@
    }
}

impl<B: BazelInfo> BazelWorkspace<B> {
    pub closed spec fn wf(&self) -> bool {
        roots_wf(self.inner@)
    }

    pub fn with_bazel_info(bazel_info: B) -> (r: BazelWorkspace<B>)
        ensures
            r.wf(),
            r@ == no_roots(),
    {
        BazelWorkspace { inner: InnerBazel::new(), bazel_info }
    }

    pub fn maybe_change_source_root(&mut self, new_root: &String) -> (r: Result<(), WorkspaceError>)
        requires
            old(self).wf(),
        ensures
            final(self).wf(),
            old(self)@.exec_root.is_none() ==> r == Err::<(), WorkspaceError>(WorkspaceError::NotInitialized)
                && final(self)@ == old(self)@,
            old(self)@.exec_root.is_some() ==> r is Ok && final(self)@ == changed_root(old(self)@, new_root@),
    {
        self.inner.maybe_change_source_root(new_root)
    }

    pub fn update_workspace(&mut self, workspace: &String) -> (r: Result<(), WorkspaceError>)
        requires
            old(self).wf(),
        ensures
            final(self).wf(),
            r is Err ==> final(self)@ == old(self)@,
            r is Ok ==> exists|out: Seq<char>|
                #![auto]
                exec_root_of(out) is Ok && final(self)@ == (RootsView {
                    exec_root: Some(exec_root_of(out)->Ok_0),
                    workspace_root: Some(workspace@),
                    source_root: Some(workspace@),
                }),
    {
        self.inner.update_workspace(workspace, &self.bazel_info)
    }

    pub fn resolve_bazel_path(&self, label: &String) -> (r: Result<String, LabelError>)
        ensures
            match candidate_path(self@, label@) {
                Some(p) => match r {
                    Ok(s) => s@ == p,
                    Err(e) => e == LabelError::NotAFile,
                },
                None => r == Err::<String, LabelError>(LabelError::NoRoot),
            },
    {
        self.inner.resolve_bazel_path(label)
    }
}

} // verus!
