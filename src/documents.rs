//! The store of indexed documents and the definition resolver that follows
//! declarations across them.
use vstd::prelude::*;
use crate::index::{CallableSymbolSource, DeclView, DocView, IndexedDocument, SourceView, first_call_at};
use crate::indexer::table_view;
use crate::syntax::{Position, Range};

verus! {

/// The most files that one definition lookup passes through.
pub const MAX_HOPS: usize = 64;

/// No two entries share a path.
pub open spec fn paths_unique(s: Seq<(String, IndexedDocument)>) -> bool {
    forall|i: int, j: int| 0 <= i < s.len() && 0 <= j < s.len() && i != j ==> s[i].0@ != s[j].0@
}

pub open spec fn doc_map(s: Seq<(String, IndexedDocument)>) -> Map<Seq<char>, DocView> {
    Map::new(
        |k: Seq<char>| exists|i: int| 0 <= i < s.len() && s[i].0@ == k,
        |k: Seq<char>| s[choose|i: int| 0 <= i < s.len() && s[i].0@ == k].1@,
    )
}

proof fn lemma_doc_map_update(s: Seq<(String, IndexedDocument)>, idx: int, e: (String, IndexedDocument))
    requires
        paths_unique(s),
        0 <= idx < s.len(),
        s[idx].0@ == e.0@,
    ensures
        paths_unique(s.update(idx, e)),
        doc_map(s.update(idx, e)) == doc_map(s).insert(e.0@, e.1@),
{
    let t = s.update(idx, e);
    let k = e.0@;
    assert(t[idx].0@ == k);
    assert forall|key: Seq<char>| #[trigger] doc_map(t).contains_key(key) == doc_map(s).insert(k, e.1@).contains_key(key) by {
        if key != k {
            if doc_map(t).contains_key(key) {
                let j = choose|j: int| 0 <= j < t.len() && t[j].0@ == key;
                assert(s[j].0@ == key);
            }
            if doc_map(s).contains_key(key) {
                let j = choose|j: int| 0 <= j < s.len() && s[j].0@ == key;
                assert(t[j].0@ == key);
            }
        }
    }
    assert forall|key: Seq<char>| doc_map(t).contains_key(key) implies #[trigger] doc_map(t)[key] == doc_map(s).insert(k, e.1@)[key] by {
        let j = choose|j: int| 0 <= j < t.len() && t[j].0@ == key;
        if key == k {
            assert(j == idx);
        } else {
            assert(s[j].0@ == key);
            let j2 = choose|j2: int| 0 <= j2 < s.len() && s[j2].0@ == key;
            assert(j == j2);
        }
    }
    assert(doc_map(t) =~= doc_map(s).insert(k, e.1@));
}

proof fn lemma_doc_map_push(s: Seq<(String, IndexedDocument)>, e: (String, IndexedDocument))
    requires
        paths_unique(s),
        forall|j: int| 0 <= j < s.len() ==> s[j].0@ != e.0@,
    ensures
        paths_unique(s.push(e)),
        doc_map(s.push(e)) == doc_map(s).insert(e.0@, e.1@),
{
    let t = s.push(e);
    let k = e.0@;
    let n = s.len() as int;
    assert(t[n].0@ == k);
    assert forall|key: Seq<char>| #[trigger] doc_map(t).contains_key(key) == doc_map(s).insert(k, e.1@).contains_key(key) by {
        if key != k {
            if doc_map(t).contains_key(key) {
                let j = choose|j: int| 0 <= j < t.len() && t[j].0@ == key;
                assert(s[j].0@ == key);
            }
            if doc_map(s).contains_key(key) {
                let j = choose|j: int| 0 <= j < s.len() && s[j].0@ == key;
                assert(t[j].0@ == key);
            }
        }
    }
    assert forall|key: Seq<char>| doc_map(t).contains_key(key) implies #[trigger] doc_map(t)[key] == doc_map(s).insert(k, e.1@)[key] by {
        let j = choose|j: int| 0 <= j < t.len() && t[j].0@ == key;
        if key == k {
            assert(j == n);
        } else {
            assert(s[j].0@ == key);
            let j2 = choose|j2: int| 0 <= j2 < s.len() && s[j2].0@ == key;
            assert(j == j2);
        }
    }
    assert(doc_map(t) =~= doc_map(s).insert(k, e.1@));
}

/// Where following `decl`, found in the file at `path`, ends: the file and
/// range of a declaration made in a file, or `None` where a file or a name
/// is missing, a (file, name) pair of `visited` comes again, or `fuel` runs out.
pub open spec fn chase(
    store: Map<Seq<char>, DocView>,
    path: Seq<char>,
    decl: DeclView,
    visited: Seq<(Seq<char>, Seq<char>)>,
    fuel: nat,
) -> Option<(Seq<char>, Range)>
    decreases fuel,
{
    match decl.source {
        SourceView::InFile(r) => Some((path, r)),
        SourceView::Loaded(target) => {
            let key = (target, decl.real_name);
            if fuel == 0 || visited.contains(key) || !store.contains_key(target)
                || !store[target].declarations.contains_key(decl.real_name) {
                None
            } else {
                chase(
                    store,
                    target,
                    store[target].declarations[decl.real_name],
                    visited.push(key),
                    (fuel - 1) as nat,
                )
            }
        },
    }
}

/// The definition of what the call at `pos` in the file at `path` names.
pub open spec fn located(store: Map<Seq<char>, DocView>, path: Seq<char>, pos: Position) -> Option<(Seq<char>, Range)> {
    if !store.contains_key(path) {
        None
    } else {
        match first_call_at(store[path].calls, pos) {
            None => None,
            Some(c) => if !store[path].declarations.contains_key(c.function_name) {
                None
            } else {
                chase(
                    store,
                    path,
                    store[path].declarations[c.function_name],
                    seq![(path, c.function_name)],
                    MAX_HOPS as nat,
                )
            },
        }
    }
}

/// Where the call at `pos` in file `a` names `x`, which `a` loads as `y`
/// from file `b`, and `b` loads `y` back from `a` as `x`, the lookup ends
/// with no definition.
pub proof fn lemma_load_cycle_has_no_definition(
    store: Map<Seq<char>, DocView>,
    a: Seq<char>,
    b: Seq<char>,
    x: Seq<char>,
    y: Seq<char>,
    pos: Position,
)
    requires
        store.contains_key(a),
        store.contains_key(b),
        first_call_at(store[a].calls, pos) matches Some(c) && c.function_name == x,
        store[a].declarations.contains_key(x),
        store[a].declarations[x].source == SourceView::Loaded(b),
        store[a].declarations[x].real_name == y,
        store[b].declarations.contains_key(y),
        store[b].declarations[y].source == SourceView::Loaded(a),
        store[b].declarations[y].real_name == x,
    ensures
        located(store, a, pos).is_none(),
{
    let v0 = seq![(a, x)];
    assert(v0[0] == (a, x));
    if v0.contains((b, y)) {
        assert(chase(store, a, store[a].declarations[x], v0, MAX_HOPS as nat).is_none());
    } else {
        let v1 = v0.push((b, y));
        assert(v1[0] == (a, x));
        assert(v1.contains((a, x)));
        let d1 = store[b].declarations[y];
        assert(chase(store, b, d1, v1, (MAX_HOPS - 1) as nat).is_none());
        assert(chase(store, a, store[a].declarations[x], v0, MAX_HOPS as nat).is_none());
    }
}

/// The paths among `deps` that `store` has no entry for, in order.
pub open spec fn missing_paths(store: Map<Seq<char>, DocView>, deps: Seq<Seq<char>>) -> Seq<Seq<char>>
    decreases deps.len(),
{
    if deps.len() == 0 {
        Seq::empty()
    } else if store.contains_key(deps.last()) {
        missing_paths(store, deps.drop_last())
    } else {
        missing_paths(store, deps.drop_last()).push(deps.last())
    }
}

pub open spec fn paths_view(v: Seq<String>) -> Seq<Seq<char>> {
    v.map_values(|s: String| s@)
}

/// The indexed documents, by path.
#[derive(Debug)]
pub struct Documents {
    docs: Vec<(String, IndexedDocument)>,
}

impl View for Documents {
    type V = Map<Seq<char>, DocView>;

    closed spec fn view(&self) -> Map<Seq<char>, DocView> {
        doc_map(self.docs@)
    }
}

fn contains_pair(visited: &Vec<(String, String)>, path: &String, name: &String) -> (r: bool)
    ensures
        r == table_view(visited@).contains((path@, name@)),
{
    let ghost vv = table_view(visited@);
    let mut i: usize = 0;
    while i < visited.len()
        invariant
            i <= visited.len(),
            vv == table_view(visited@),
            forall|j: int| 0 <= j < i ==> vv[j] != (path@, name@),
        decreases visited.len() - i,
    {
        if visited[i].0 == *path && visited[i].1 == *name {
            assert(vv[i as int] == (path@, name@));
            return true;
        }
        i += 1;
    }
    false
}

impl Documents {
    pub closed spec fn wf(&self) -> bool {
        paths_unique(self.docs@) && forall|i: int| 0 <= i < self.docs@.len() ==> (#[trigger] self.docs@[i]).1.wf()
    }

    pub fn new() -> (r: Documents)
        ensures
            r.wf(),
            r@ == Map::<Seq<char>, DocView>::empty(),
    {
        let r = Documents { docs: Vec::new() };
        assert(r@ =~= Map::<Seq<char>, DocView>::empty());
        r
    }

    /// The cached index of the file at `path`.
    pub fn get_doc(&self, path: &String) -> (r: Option<&IndexedDocument>)
        requires
            self.wf(),
        ensures
            match r {
                Some(d) => self@.contains_key(path@) && d@ == self@[path@] && d.wf(),
                None => !self@.contains_key(path@),
            },
    {
        let mut i: usize = 0;
        while i < self.docs.len()
            invariant
                i <= self.docs.len(),
                self.wf(),
                forall|j: int| 0 <= j < i ==> self.docs@[j].0@ != path@,
            decreases self.docs.len() - i,
        {
            if self.docs[i].0 == *path {
                proof {
                    let k = path@;
                    assert(self.docs@[i as int].0@ == k);
                    let j = choose|j: int| 0 <= j < self.docs@.len() && self.docs@[j].0@ == k;
                    assert(j == i);
                }
                return Some(&self.docs[i].1);
            }
            i += 1;
        }
        None
    }

    /// The paths of all cached documents.
    pub fn list_docs(&self) -> (r: Vec<String>)
        requires
            self.wf(),
        ensures
            forall|k: Seq<char>| self@.contains_key(k) <==> paths_view(r@).contains(k),
    {
        let mut r: Vec<String> = Vec::new();
        let mut i: usize = 0;
        while i < self.docs.len()
            invariant
                i <= self.docs.len(),
                r@.len() == i,
                forall|j: int| 0 <= j < i ==> (#[trigger] r@[j])@ == self.docs@[j].0@,
            decreases self.docs.len() - i,
        {
            r.push(self.docs[i].0.clone());
            i += 1;
        }
        proof {
            assert forall|k: Seq<char>| self@.contains_key(k) <==> paths_view(r@).contains(k) by {
                if self@.contains_key(k) {
                    let j = choose|j: int| 0 <= j < self.docs@.len() && self.docs@[j].0@ == k;
                    assert(paths_view(r@)[j] == k);
                }
                if paths_view(r@).contains(k) {
                    let j = choose|j: int| 0 <= j < paths_view(r@).len() && paths_view(r@)[j] == k;
                    assert(self.docs@[j].0@ == k);
                }
            }
        }
        r
    }

    /// Puts `doc` in as the index of `path`, replacing any earlier one.
    pub fn insert_doc(&mut self, path: &String, doc: IndexedDocument)
        requires
            old(self).wf(),
            doc.wf(),
        ensures
            final(self).wf(),
            final(self)@ == old(self)@.insert(path@, doc@),
    {
        let ghost old_s = self.docs@;
        let mut i: usize = 0;
        while i < self.docs.len()
            invariant
                self.docs@ == old_s,
                old_s == old(self).docs@,
                old(self).wf(),
                doc.wf(),
                i <= old_s.len(),
                forall|j: int| 0 <= j < i ==> old_s[j].0@ != path@,
            decreases old_s.len() - i,
        {
            if self.docs[i].0 == *path {
                let e = (path.clone(), doc);
                assert(e.1.wf());
                proof {
                    lemma_doc_map_update(old_s, i as int, e);
                }
                self.docs.set(i, e);
                assert forall|j: int| 0 <= j < self.docs@.len() implies (#[trigger] self.docs@[j]).1.wf() by {
                    if j != i {
                        assert(self.docs@[j] == old_s[j]);
                        assert(old(self).docs@[j].1.wf());
                    }
                }
                return;
            }
            i += 1;
        }
        let e = (path.clone(), doc);
        proof {
            lemma_doc_map_push(old_s, e);
        }
        self.docs.push(e);
        assert forall|j: int| 0 <= j < self.docs@.len() implies (#[trigger] self.docs@[j]).1.wf() by {
            if j < old_s.len() {
                assert(self.docs@[j] == old_s[j]);
            }
        }
    }

    /// Stores the index of `path` and returns those of its dependencies
    /// `deps` that have no entry yet: the files to index next. Entries that
    /// exist are kept as they are.
    pub fn store_indexed(&mut self, path: &String, doc: IndexedDocument, deps: &Vec<String>) -> (r: Vec<String>)
        requires
            old(self).wf(),
            doc.wf(),
        ensures
            final(self).wf(),
            final(self)@ == old(self)@.insert(path@, doc@),
            paths_view(r@) == missing_paths(final(self)@, paths_view(deps@)),
    {
        self.insert_doc(path, doc);
        let mut r: Vec<String> = Vec::new();
        let mut i: usize = 0;
        while i < deps.len()
            invariant
                i <= deps.len(),
                self.wf(),
                paths_view(r@) == missing_paths(self@, paths_view(deps@).subrange(0, i as int)),
            decreases deps.len() - i,
        {
            let ghost pre = paths_view(deps@).subrange(0, i as int + 1);
            assert(pre.drop_last() =~= paths_view(deps@).subrange(0, i as int));
            assert(pre.last() == deps@[i as int]@);
            match self.get_doc(&deps[i]) {
                Some(_) => {},
                None => {
                    let ghost old_r = r@;
                    r.push(deps[i].clone());
                    assert(paths_view(r@) =~= paths_view(old_r).push(deps@[i as int]@));
                },
            }
            i += 1;
        }
        assert(paths_view(deps@).subrange(0, deps@.len() as int) =~= paths_view(deps@));
        r
    }

    /// Where the symbol called at `position` in the file at `path` is
    /// declared, following loads from file to file.
    pub fn locate_declaration_of_call_at(&self, path: &String, position: Position) -> (r: Option<(String, Range)>)
        requires
            self.wf(),
        ensures
            match r {
                Some((p, range)) => located(self@, path@, position) == Some((p@, range)),
                None => located(self@, path@, position).is_none(),
            },
    {
        let doc = match self.get_doc(path) {
            None => {
                return None;
            },
            Some(d) => d,
        };
        let call = match doc.call_at(position) {
            None => {
                return None;
            },
            Some(c) => c,
        };
        let decl = match doc.declaration_of(&call.function_name) {
            None => {
                return None;
            },
            Some(d) => d,
        };
        let mut visited: Vec<(String, String)> = Vec::new();
        visited.push((path.clone(), call.function_name.clone()));
        let ghost vv = table_view(visited@);
        assert(vv =~= seq![(path@, call.function_name@)]);
        self.locate_declaration(decl, path.clone(), visited)
    }

    /// Follows `decl`, found in the file at `current_file`; see `chase`.
    pub fn locate_declaration(
        &self,
        start: crate::index::FunctionDecl,
        current_file: String,
        visited_pairs: Vec<(String, String)>,
    ) -> (r: Option<(String, Range)>)
        requires
            self.wf(),
        ensures
            match r {
                Some((p, range)) => chase(
                    self@,
                    current_file@,
                    start@,
                    table_view(visited_pairs@),
                    MAX_HOPS as nat,
                ) == Some((p@, range)),
                None => chase(
                    self@,
                    current_file@,
                    start@,
                    table_view(visited_pairs@),
                    MAX_HOPS as nat,
                ).is_none(),
            },
    {
        let ghost target = chase(
            self@,
            current_file@,
            start@,
            table_view(visited_pairs@),
            MAX_HOPS as nat,
        );
        let mut decl = start;
        let mut current = current_file;
        let mut visited = visited_pairs;
        let mut fuel: usize = MAX_HOPS;
        loop
            invariant
                self.wf(),
                target == chase(self@, current_file@, start@, table_view(visited_pairs@), MAX_HOPS as nat),
                target == chase(
                    self@,
                    current@,
                    decl@,
                    table_view(visited@),
                    fuel as nat,
                ),
            decreases fuel,
        {
            let ghost vv = table_view(visited@);
            match &decl.source {
                CallableSymbolSource::DeclaredInFile(range) => {
                    return Some((current, *range));
                },
                CallableSymbolSource::Loaded(target_path) => {
                    let target_path = target_path.clone();
                    if fuel == 0 || contains_pair(&visited, &target_path, &decl.real_name) {
                        return None;
                    }
                    let next_doc = match self.get_doc(&target_path) {
                        None => {
                            return None;
                        },
                        Some(d) => d,
                    };
                    let next = match next_doc.declaration_of(&decl.real_name) {
                        None => {
                            return None;
                        },
                        Some(d) => d,
                    };
                    visited.push((target_path.clone(), decl.real_name.clone()));
                    assert(table_view(visited@) =~= vv.push(
                        (target_path@, decl@.real_name),
                    ));
                    current = target_path;
                    decl = next;
                    fuel -= 1;
                },
            }
        }
    }
}

} // verus!
