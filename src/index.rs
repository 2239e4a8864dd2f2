//! Declarations, call sites and the per-file index that holds them.
use vstd::prelude::*;
use crate::syntax::{Position, Range};

verus! {

/// Where a declaration comes from: a range in the same file, or the path of
/// the file it was loaded from.
#[derive(Debug, Clone, PartialEq, Eq)]
pub enum CallableSymbolSource {
    DeclaredInFile(Range),
    Loaded(String),
}

pub ghost enum SourceView {
    InFile(Range),
    Loaded(Seq<char>),
}

impl View for CallableSymbolSource {
    type V = SourceView;

    open spec fn view(&self) -> SourceView {
        match self {
            CallableSymbolSource::DeclaredInFile(r) => SourceView::InFile(*r),
            CallableSymbolSource::Loaded(p) => SourceView::Loaded(p@),
        }
    }
}

/// A named binding of a document. `imported_name` is the local name,
/// `real_name` the name at the binding's origin.
#[derive(Debug, Clone, PartialEq, Eq)]
pub struct FunctionDecl {
    pub imported_name: String,
    pub real_name: String,
    pub source: CallableSymbolSource,
}

pub ghost struct DeclView {
    pub imported_name: Seq<char>,
    pub real_name: Seq<char>,
    pub source: SourceView,
}

impl View for FunctionDecl {
    type V = DeclView;

    open spec fn view(&self) -> DeclView {
        DeclView {
            imported_name: self.imported_name@,
            real_name: self.real_name@,
            source: self.source@,
        }
    }
}

/// The declaration that a definition of `name` at `start` introduces.
pub open spec fn declared_view(name: Seq<char>, start: Position) -> DeclView {
    DeclView {
        imported_name: name,
        real_name: name,
        source: SourceView::InFile(crate::syntax::identifier_range(name, start)),
    }
}

/// The declaration that loading `real_name` as `imported_name` from `path`
/// introduces.
pub open spec fn loaded_view(real_name: Seq<char>, imported_name: Seq<char>, path: Seq<char>) -> DeclView {
    DeclView { imported_name, real_name, source: SourceView::Loaded(path) }
}

impl FunctionDecl {
    pub fn declared_in_file(name: &String, start: Position) -> (r: FunctionDecl)
        ensures
            r@ == declared_view(name@, start),
    {
        FunctionDecl {
            imported_name: name.clone(),
            real_name: name.clone(),
            source: CallableSymbolSource::DeclaredInFile(Range::from_identifier(name, start)),
        }
    }

    pub fn loaded(name: &String, imported_name: &String, source: &String) -> (r: FunctionDecl)
        ensures
            r@ == loaded_view(name@, imported_name@, source@),
    {
        FunctionDecl {
            imported_name: imported_name.clone(),
            real_name: name.clone(),
            source: CallableSymbolSource::Loaded(source.clone()),
        }
    }
}

/// A reference to an identifier at a place in the source.
#[derive(Debug, Clone, PartialEq, Eq)]
pub struct FunctionCall {
    pub range: Range,
    pub function_name: String,
}

pub ghost struct CallView {
    pub function_name: Seq<char>,
    pub range: Range,
}

impl View for FunctionCall {
    type V = CallView;

    open spec fn view(&self) -> CallView {
        CallView { function_name: self.function_name@, range: self.range }
    }
}

/// The call that an occurrence of identifier `name` at `start` records.
pub open spec fn call_view(name: Seq<char>, start: Position) -> CallView {
    CallView { function_name: name, range: crate::syntax::identifier_range(name, start) }
}

impl FunctionCall {
    pub fn from_identifier(name: &String, start: Position) -> (r: FunctionCall)
        ensures
            r@ == call_view(name@, start),
    {
        FunctionCall { range: Range::from_identifier(name, start), function_name: name.clone() }
    }

    pub fn contains_position(&self, position: Position) -> (r: bool)
        ensures
            r == self.range.contains(position),
    {
        self.range.contains_position(position)
    }
}

/// No two declarations of the sequence share a local name.
pub open spec fn names_unique(s: Seq<FunctionDecl>) -> bool {
    forall|i: int, j: int|
        0 <= i < s.len() && 0 <= j < s.len() && i != j ==> s[i].imported_name@ != s[j].imported_name@
}

/// The declarations of a sequence as a map from local name to declaration.
pub open spec fn decl_map(s: Seq<FunctionDecl>) -> Map<Seq<char>, DeclView> {
    Map::new(
        |k: Seq<char>| exists|i: int| 0 <= i < s.len() && s[i].imported_name@ == k,
        |k: Seq<char>| s[choose|i: int| 0 <= i < s.len() && s[i].imported_name@ == k]@,
    )
}

proof fn lemma_decl_map_update(s: Seq<FunctionDecl>, idx: int, d: FunctionDecl)
    requires
        names_unique(s),
        0 <= idx < s.len(),
        s[idx].imported_name@ == d.imported_name@,
    ensures
        names_unique(s.update(idx, d)),
        decl_map(s.update(idx, d)) == decl_map(s).insert(d.imported_name@, d@),
{
    let t = s.update(idx, d);
    let k = d.imported_name@;
    assert(t[idx].imported_name@ == k);
    assert forall|key: Seq<char>| #[trigger] decl_map(t).contains_key(key) == decl_map(s).insert(k, d@).contains_key(key) by {
        if key != k {
            if decl_map(t).contains_key(key) {
                let j = choose|j: int| 0 <= j < t.len() && t[j].imported_name@ == key;
                assert(s[j].imported_name@ == key);
            }
            if decl_map(s).contains_key(key) {
                let j = choose|j: int| 0 <= j < s.len() && s[j].imported_name@ == key;
                assert(t[j].imported_name@ == key);
            }
        }
    }
    assert forall|key: Seq<char>| decl_map(t).contains_key(key) implies #[trigger] decl_map(t)[key] == decl_map(s).insert(k, d@)[key] by {
        let j = choose|j: int| 0 <= j < t.len() && t[j].imported_name@ == key;
        if key == k {
            assert(j == idx);
        } else {
            assert(s[j].imported_name@ == key);
            let j2 = choose|j2: int| 0 <= j2 < s.len() && s[j2].imported_name@ == key;
            assert(j == j2);
        }
    }
    assert(decl_map(t) =~= decl_map(s).insert(k, d@));
}

proof fn lemma_decl_map_push(s: Seq<FunctionDecl>, d: FunctionDecl)
    requires
        names_unique(s),
        forall|j: int| 0 <= j < s.len() ==> s[j].imported_name@ != d.imported_name@,
    ensures
        names_unique(s.push(d)),
        decl_map(s.push(d)) == decl_map(s).insert(d.imported_name@, d@),
{
    let t = s.push(d);
    let k = d.imported_name@;
    let n = s.len() as int;
    assert(t[n].imported_name@ == k);
    assert forall|key: Seq<char>| #[trigger] decl_map(t).contains_key(key) == decl_map(s).insert(k, d@).contains_key(key) by {
        if key != k {
            if decl_map(t).contains_key(key) {
                let j = choose|j: int| 0 <= j < t.len() && t[j].imported_name@ == key;
                assert(s[j].imported_name@ == key);
            }
            if decl_map(s).contains_key(key) {
                let j = choose|j: int| 0 <= j < s.len() && s[j].imported_name@ == key;
                assert(t[j].imported_name@ == key);
            }
        }
    }
    assert forall|key: Seq<char>| decl_map(t).contains_key(key) implies #[trigger] decl_map(t)[key] == decl_map(s).insert(k, d@)[key] by {
        let j = choose|j: int| 0 <= j < t.len() && t[j].imported_name@ == key;
        if key == k {
            assert(j == n);
        } else {
            assert(s[j].imported_name@ == key);
            let j2 = choose|j2: int| 0 <= j2 < s.len() && s[j2].imported_name@ == key;
            assert(j == j2);
        }
    }
    assert(decl_map(t) =~= decl_map(s).insert(k, d@));
}

pub ghost struct DocView {
    pub declarations: Map<Seq<char>, DeclView>,
    pub calls: Seq<CallView>,
}

/// The index of one file: its declarations, one per local name, and its
/// calls in the order in which they appear.
#[derive(Debug, Clone, PartialEq, Eq)]
pub struct IndexedDocument {
    declarations: Vec<FunctionDecl>,
    calls: Vec<FunctionCall>,
}

impl View for IndexedDocument {
    type V = DocView;

    closed spec fn view(&self) -> DocView {
        DocView {
            declarations: decl_map(self.declarations@),
            calls: self.calls@.map_values(|c: FunctionCall| c@),
        }
    }
}

/// The first call of `calls` whose range contains `p`.
pub open spec fn first_call_at(calls: Seq<CallView>, p: Position) -> Option<CallView>
    decreases calls.len(),
{
    if calls.len() == 0 {
        None
    } else if calls[0].range.contains(p) {
        Some(calls[0])
    } else {
        first_call_at(calls.drop_first(), p)
    }
}

impl FunctionDecl {
    pub fn copy(&self) -> (r: FunctionDecl)
        ensures
            r@ == self@,
    {
        FunctionDecl {
            imported_name: self.imported_name.clone(),
            real_name: self.real_name.clone(),
            source: match &self.source {
                CallableSymbolSource::DeclaredInFile(r) => CallableSymbolSource::DeclaredInFile(*r),
                CallableSymbolSource::Loaded(p) => CallableSymbolSource::Loaded(p.clone()),
            },
        }
    }
}

impl IndexedDocument {
    pub closed spec fn wf(&self) -> bool {
        names_unique(self.declarations@)
    }

    pub fn new() -> (r: IndexedDocument)
        ensures
            r.wf(),
            r@.declarations == Map::<Seq<char>, DeclView>::empty(),
            r@.calls == Seq::<CallView>::empty(),
    {
        let r = IndexedDocument { declarations: Vec::new(), calls: Vec::new() };
        assert(r@.declarations =~= Map::<Seq<char>, DeclView>::empty());
        assert(r@.calls =~= Seq::<CallView>::empty());
        r
    }

    /// Adds `decl` under its local name, replacing any declaration of that name.
    pub fn insert_declaration(&mut self, decl: FunctionDecl)
        requires
            old(self).wf(),
        ensures
            final(self).wf(),
            final(self)@.declarations == old(self)@.declarations.insert(decl@.imported_name, decl@),
            final(self)@.calls == old(self)@.calls,
    {
        let ghost old_s = self.declarations@;
        let mut i: usize = 0;
        while i < self.declarations.len()
            invariant
                self.declarations@ == old_s,
                self.calls == old(self).calls,
                old_s == old(self).declarations@,
                names_unique(old_s),
                i <= old_s.len(),
                forall|j: int| 0 <= j < i ==> old_s[j].imported_name@ != decl@.imported_name,
            decreases old_s.len() - i,
        {
            if self.declarations[i].imported_name == decl.imported_name {
                proof {
                    lemma_decl_map_update(old_s, i as int, decl);
                }
                self.declarations.set(i, decl);
                return;
            }
            i += 1;
        }
        proof {
            lemma_decl_map_push(old_s, decl);
        }
        self.declarations.push(decl);
    }

    /// A document with `declarations` added in order, the last one of a
    /// name counting, and with `calls`.
    pub fn finished(declarations: Vec<FunctionDecl>, calls: Vec<FunctionCall>) -> (r: IndexedDocument)
        ensures
            r.wf(),
            r@.calls == calls@.map_values(|c: FunctionCall| c@),
            forall|i: int| 0 <= i < declarations.len() ==> r@.declarations.contains_key(#[trigger] declarations@[i].imported_name@),
            forall|k: Seq<char>| #[trigger] r@.declarations.contains_key(k) ==> exists|i: int|
                0 <= i < declarations.len() && declarations@[i]@ == r@.declarations[k]
                    && declarations@[i].imported_name@ == k,
    {
        let mut doc = IndexedDocument { declarations: Vec::new(), calls };
        assert(doc@.declarations =~= Map::<Seq<char>, DeclView>::empty());
        let mut i: usize = 0;
        while i < declarations.len()
            invariant
                i <= declarations.len(),
                doc.wf(),
                doc@.calls == calls@.map_values(|c: FunctionCall| c@),
                forall|j: int| 0 <= j < i ==> doc@.declarations.contains_key(#[trigger] declarations@[j].imported_name@),
                forall|k: Seq<char>| #[trigger] doc@.declarations.contains_key(k) ==> exists|j: int|
                    0 <= j < i && declarations@[j]@ == doc@.declarations[k]
                        && declarations@[j].imported_name@ == k,
            decreases declarations.len() - i,
        {
            let d = declarations[i].copy();
            doc.insert_declaration(d);
            proof {
                assert forall|k: Seq<char>| #[trigger] doc@.declarations.contains_key(k) implies exists|j: int|
                    0 <= j < i + 1 && declarations@[j]@ == doc@.declarations[k]
                        && declarations@[j].imported_name@ == k by {
                    if k == d@.imported_name {
                        assert(declarations@[i as int]@ == doc@.declarations[k]);
                    }
                }
            }
            i += 1;
        }
        doc
    }

    /// The declaration of local name `name`, if any.
    pub fn declaration_of(&self, name: &String) -> (r: Option<FunctionDecl>)
        requires
            self.wf(),
        ensures
            match r {
                Some(d) => self@.declarations.contains_key(name@) && d@ == self@.declarations[name@],
                None => !self@.declarations.contains_key(name@),
            },
    {
        let mut i: usize = 0;
        while i < self.declarations.len()
            invariant
                i <= self.declarations.len(),
                names_unique(self.declarations@),
                forall|j: int| 0 <= j < i ==> self.declarations@[j].imported_name@ != name@,
            decreases self.declarations.len() - i,
        {
            if self.declarations[i].imported_name == *name {
                let ghost k = name@;
                assert(decl_map(self.declarations@).contains_key(k));
                proof {
                    let j = choose|j: int| 0 <= j < self.declarations@.len() && self.declarations@[j].imported_name@ == k;
                    assert(self.declarations@[i as int].imported_name@ == k);
                    assert(j == i);
                }
                return Some(self.declarations[i].copy());
            }
            i += 1;
        }
        None
    }

    /// The first call whose range contains `position`.
    pub fn call_at(&self, position: Position) -> (r: Option<FunctionCall>)
        ensures
            match r {
                Some(c) => first_call_at(self@.calls, position) == Some(c@),
                None => first_call_at(self@.calls, position).is_none(),
            },
    {
        let ghost cs = self@.calls;
        assert(cs.skip(0) =~= cs);
        let mut i: usize = 0;
        while i < self.calls.len()
            invariant
                i <= self.calls.len(),
                cs == self@.calls,
                cs.len() == self.calls.len(),
                first_call_at(cs, position) == first_call_at(cs.skip(i as int), position),
            decreases self.calls.len() - i,
        {
            assert(cs.skip(i as int).drop_first() =~= cs.skip(i as int + 1));
            assert(cs.skip(i as int)[0] == self.calls@[i as int]@);
            if self.calls[i].contains_position(position) {
                let c = &self.calls[i];
                return Some(FunctionCall { range: c.range, function_name: c.function_name.clone() });
            }
            i += 1;
        }
        None
    }

    /// The calls, in the order in which they appear.
    pub fn calls(&self) -> (r: &Vec<FunctionCall>)
        ensures
            r@.map_values(|c: FunctionCall| c@) == self@.calls,
    {
        &self.calls
    }

    /// The declarations, one per local name.
    pub fn declarations(&self) -> (r: &Vec<FunctionDecl>)
        ensures
            names_unique(r@) <== self.wf(),
            decl_map(r@) == self@.declarations,
    {
        &self.declarations
    }

    /// Appends a call at the end of the call list.
    pub fn push_call(&mut self, call: FunctionCall)
        requires
            old(self).wf(),
        ensures
            final(self).wf(),
            final(self)@.declarations == old(self)@.declarations,
            final(self)@.calls == old(self)@.calls.push(call@),
    {
        self.calls.push(call);
        assert(self@.calls =~= old(self)@.calls.push(call@));
    }
}

} // verus!
