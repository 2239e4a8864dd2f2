//! Paths as strings with `/` separators, and the few std string calls that
//! label handling relies on.
use vstd::prelude::*;
use vstd::string::*;

verus! {

/// The name of what `str::trim` returns: the text without leading and
/// trailing Unicode whitespace.
pub uninterp spec fn trimmed(s: Seq<char>) -> Seq<char>;

/// Relies on `str::trim`: it depends on the characters alone.
#[verifier::external_body]
pub(crate) fn trim_string(s: &String) -> (r: String)
    ensures
        r@ == trimmed(s@),
{
    s.trim().to_string()
}

/// `s` with every occurrence of `pat`, found from left to right without
/// overlap, replaced by `rep`.
pub open spec fn replaced(s: Seq<char>, pat: Seq<char>, rep: Seq<char>) -> Seq<char>
    decreases s.len(),
{
    if pat.len() == 0 || s.len() < pat.len() {
        s
    } else if s.subrange(0, pat.len() as int) == pat {
        rep + replaced(s.skip(pat.len() as int), pat, rep)
    } else {
        seq![s[0]] + replaced(s.drop_first(), pat, rep)
    }
}

/// Relies on `str::replace`: matches of `from` are taken from left to right,
/// without overlap, and each is replaced by `to`.
#[verifier::external_body]
pub(crate) fn replace_all(s: &str, from: &str, to: &str) -> (r: String)
    requires
        from@.len() > 0,
    ensures
        r@ == replaced(s@, from@, to@),
{
    s.replace(from, to)
}

/// Relies on `std::path::Path::is_file`: whether a regular file exists at
/// `path` when it is called. Nothing is promised of the answer.
#[verifier::external_body]
pub(crate) fn is_file(path: &String) -> (r: bool) {
    std::path::Path::new(path.as_str()).is_file()
}

/// `root` joined with the relative path `rel`.
pub open spec fn join(root: Seq<char>, rel: Seq<char>) -> Seq<char> {
    root + seq!['/'] + rel
}

pub fn join_path(root: &String, rel: &String) -> (r: String)
    ensures
        r@ == join(root@, rel@),
{
    let mut res = root.clone();
    proof {
        reveal_strlit("/");
    }
    res.append("/");
    res.append(rel.as_str());
    res
}

/// `path` is `root` or lies below it.
pub open spec fn is_under(path: Seq<char>, root: Seq<char>) -> bool {
    path == root || (path.len() > root.len() && path.subrange(0, root.len() as int) == root
        && path[root.len() as int] == '/')
}

/// The index of the first `c` in `s` at or after `from`, or the length of `s`.
pub open spec fn find_from(s: Seq<char>, c: char, from: int) -> int
    decreases s.len() - from,
{
    if from >= s.len() {
        s.len() as int
    } else if s[from] == c {
        from
    } else {
        find_from(s, c, from + 1)
    }
}

pub proof fn lemma_find_from_bounds(s: Seq<char>, c: char, from: int)
    requires
        0 <= from <= s.len(),
    ensures
        from <= find_from(s, c, from) <= s.len(),
        find_from(s, c, from) < s.len() ==> s[find_from(s, c, from)] == c,
    decreases s.len() - from,
{
    if from < s.len() && s[from] != c {
        lemma_find_from_bounds(s, c, from + 1);
    }
}

pub fn starts_with_seq(s: &String, prefix: &String) -> (r: bool)
    ensures
        r == (s@.len() >= prefix@.len() && s@.subrange(0, prefix@.len() as int) == prefix@),
{
    let n = s.as_str().unicode_len();
    let m = prefix.as_str().unicode_len();
    if n < m {
        return false;
    }
    let mut i: usize = 0;
    while i < m
        invariant
            n == s@.len(),
            m == prefix@.len(),
            m <= n,
            i <= m,
            forall|j: int| 0 <= j < i ==> s@[j] == prefix@[j],
        decreases m - i,
    {
        if s.as_str().get_char(i) != prefix.as_str().get_char(i) {
            return false;
        }
        i += 1;
    }
    assert(s@.subrange(0, m as int) =~= prefix@);
    true
}

pub fn path_is_under(path: &String, root: &String) -> (r: bool)
    ensures
        r == is_under(path@, root@),
{
    if *path == *root {
        return true;
    }
    let n = path.as_str().unicode_len();
    let m = root.as_str().unicode_len();
    n > m && starts_with_seq(path, root) && path.as_str().get_char(m) == '/'
}

/// The index of the first `c` in `s` at or after `from`, or the length of `s`.
pub fn find_char_from(s: &String, c: char, from: usize) -> (r: usize)
    requires
        from <= s@.len(),
    ensures
        r == find_from(s@, c, from as int),
        from <= r <= s@.len(),
{
    proof {
        lemma_find_from_bounds(s@, c, from as int);
    }
    let n = s.as_str().unicode_len();
    let mut i = from;
    while i < n
        invariant
            n == s@.len(),
            from <= i <= n,
            find_from(s@, c, from as int) == find_from(s@, c, i as int),
        decreases n - i,
    {
        if s.as_str().get_char(i) == c {
            return i;
        }
        i += 1;
    }
    i
}

/// The characters of `s` from `from` to `to`, as a new string.
pub fn substring(s: &String, from: usize, to: usize) -> (r: String)
    requires
        from <= to <= s@.len(),
    ensures
        r@ == s@.subrange(from as int, to as int),
{
    String::from_str(s.as_str().substring_char(from, to))
}

} // verus!
