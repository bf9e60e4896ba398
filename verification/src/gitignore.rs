use vstd::prelude::*;
use crate::text::{chars_of, string_of, lines, lines_of, trimmed, trim, views};
use crate::path::{
    components, file_name, strip_prefix, join_paths, parent, path_components, path_file_name,
    path_strip_prefix, path_join, path_parent,
};
use crate::order::{
    compare_components, compare_component_lists, component_order, lemma_compare_component_total,
    lemma_compare_lex_props, lemma_compare_lex_trans,
};

verus! {

broadcast use vstd::string::group_string_axioms;

/// A file or directory that `.gitignore` matches, and whether the user has
/// chosen to copy it.
#[derive(Debug, Clone)]
pub struct IgnoredItem {
    pub path: String,
    pub is_dir: bool,
    pub selected: bool,
}

/// What an `IgnoredItem` holds, as plain values.
pub struct IgnoredItemView {
    pub path: Seq<char>,
    pub is_dir: bool,
    pub selected: bool,
}

impl View for IgnoredItem {
    type V = IgnoredItemView;

    open spec fn view(&self) -> IgnoredItemView {
        IgnoredItemView { path: self.path@, is_dir: self.is_dir, selected: self.selected }
    }
}

/// The views of a sequence of items.
pub open spec fn item_views(items: Seq<IgnoredItem>) -> Seq<IgnoredItemView> {
    items.map_values(|i: IgnoredItem| i@)
}

/// The name shown for an item: its final component ("unknown" if it has
/// none), with a '/' after it for a directory.
pub open spec fn item_name(path: Seq<char>, is_dir: bool) -> Seq<char> {
    let n = match file_name(path) {
        Some(n) => n,
        None => "unknown"@,
    };
    if is_dir {
        n.push('/')
    } else {
        n
    }
}

/// The path of an item relative to `base`, or the whole path where `base`
/// does not begin it.
pub open spec fn relative_to(path: Seq<char>, base: Seq<char>) -> Seq<char> {
    match strip_prefix(path, base) {
        Some(r) => r,
        None => path,
    }
}

impl IgnoredItem {
    /// The name shown for the item.
    pub fn name(&self) -> (n: String)
        ensures
            n@ == item_name(self.path@, self.is_dir),
    {
        let p = chars_of(self.path.as_str());
        let mut n = match path_file_name(&p) {
            Some(n) => n,
            None => chars_of("unknown"),
        };
        if self.is_dir {
            n.push('/');
        }
        string_of(n.as_slice())
    }

    /// The path of the item relative to `base`, or its whole path.
    pub fn relative_path(&self, base: &str) -> (r: String)
        ensures
            r@ == relative_to(self.path@, base@),
    {
        let p = chars_of(self.path.as_str());
        let b = chars_of(base);
        match path_strip_prefix(&p, &b) {
            Some(r) => string_of(r.as_slice()),
            None => self.path.clone(),
        }
    }
}

// ---------------------------------------------------------------------------
// Patterns from `.gitignore`
// ---------------------------------------------------------------------------

/// The glob pattern that a line of `.gitignore` gives, for the repository at
/// `repo`: none for a blank line or a comment; a line that begins with '/' is
/// appended to the repository's path, any other after a '/'.
pub open spec fn gitignore_pattern(repo: Seq<char>, raw: Seq<char>) -> Option<Seq<char>> {
    let line = trim(raw);
    if line.len() == 0 || line[0] == '#' {
        None
    } else if line[0] == '/' {
        Some(repo + line)
    } else {
        Some(repo.push('/') + line)
    }
}

/// The patterns of the lines `ls`, in order.
pub open spec fn gitignore_patterns(repo: Seq<char>, ls: Seq<Seq<char>>) -> Seq<Seq<char>>
    decreases ls.len(),
{
    if ls.len() == 0 {
        Seq::empty()
    } else {
        let r = gitignore_patterns(repo, ls.drop_last());
        match gitignore_pattern(repo, ls.last()) {
            Some(p) => r.push(p),
            None => r,
        }
    }
}

// ---------------------------------------------------------------------------
// The order of the items: directories first, then by path as `Path` orders.
// ---------------------------------------------------------------------------

/// `a` against `b`: -1 (before), 0 (equal) or 1 (after).
pub open spec fn compare_items(a: IgnoredItemView, b: IgnoredItemView) -> int {
    if a.is_dir && !b.is_dir {
        -1
    } else if !a.is_dir && b.is_dir {
        1
    } else {
        compare_components(components(a.path), components(b.path))
    }
}

/// Each item comes no later than every item after it.
pub open spec fn items_sorted(s: Seq<IgnoredItemView>) -> bool {
    forall|i: int, j: int| 0 <= i < j < s.len() ==> compare_items(#[trigger] s[i], #[trigger] s[j]) <= 0
}

/// No two items stand for the same path (paths are equal when their
/// components are, as `PathBuf`'s equality and hashing have it).
pub open spec fn paths_distinct(s: Seq<IgnoredItemView>) -> bool {
    forall|i: int, j: int| 0 <= i < j < s.len() ==> components(#[trigger] s[i].path) != components(
        #[trigger] s[j].path,
    )
}

/// The order of items is antisymmetric and transitive, and only items of the
/// same kind and path compare equal.
pub proof fn lemma_compare_items_props(a: IgnoredItemView, b: IgnoredItemView, c: IgnoredItemView)
    ensures
        compare_items(a, b) == -compare_items(b, a),
        compare_items(a, b) <= 0 && compare_items(b, c) <= 0 ==> compare_items(a, c) <= 0,
        compare_items(a, b) == 0 ==> a.is_dir == b.is_dir && components(a.path) == components(b.path),
{
    lemma_compare_component_total();
    let f = component_order();
    lemma_compare_lex_props(components(a.path), components(b.path), f);
    if compare_items(a, b) <= 0 && compare_items(b, c) <= 0 {
        if a.is_dir == b.is_dir && b.is_dir == c.is_dir {
            lemma_compare_lex_trans(components(a.path), components(b.path), components(c.path), f);
        }
    }
}

// ---------------------------------------------------------------------------
// Copying
// ---------------------------------------------------------------------------

/// One copy to make: `source` to `target`, a whole directory or a file, after
/// creating `target_parent` where there is one.
#[derive(Debug)]
pub struct CopyStep {
    pub source: String,
    pub target: String,
    pub target_parent: Option<String>,
    pub is_dir: bool,
}

/// What a `CopyStep` holds, as plain values.
pub struct CopyStepView {
    pub source: Seq<char>,
    pub target: Seq<char>,
    pub target_parent: Option<Seq<char>>,
    pub is_dir: bool,
}

impl View for CopyStep {
    type V = CopyStepView;

    open spec fn view(&self) -> CopyStepView {
        CopyStepView {
            source: self.source@,
            target: self.target@,
            target_parent: match self.target_parent {
                Some(p) => Some(p@),
                None => None,
            },
            is_dir: self.is_dir,
        }
    }
}

/// The views of a sequence of copy steps.
pub open spec fn step_views(s: Seq<CopyStep>) -> Seq<CopyStepView> {
    s.map_values(|c: CopyStep| c@)
}

/// The copy of one item of the repository at `repo` into `target_dir`: it keeps
/// its place relative to the repository.
pub open spec fn copy_step(repo: Seq<char>, item: IgnoredItemView, target_dir: Seq<char>) -> CopyStepView {
    let target = join_paths(target_dir, relative_to(item.path, repo));
    CopyStepView { source: item.path, target, target_parent: parent(target), is_dir: item.is_dir }
}

/// The copies of the selected items among `items`, in order.
pub open spec fn copy_steps(repo: Seq<char>, items: Seq<IgnoredItemView>, target_dir: Seq<char>) -> Seq<CopyStepView>
    decreases items.len(),
{
    if items.len() == 0 {
        Seq::empty()
    } else {
        let r = copy_steps(repo, items.drop_last(), target_dir);
        if items.last().selected {
            r.push(copy_step(repo, items.last(), target_dir))
        } else {
            r
        }
    }
}

// ---------------------------------------------------------------------------
// Sorting
// ---------------------------------------------------------------------------

/// The same item, field by field.
pub fn copy_item(item: &IgnoredItem) -> (r: IgnoredItem)
    ensures
        r@ == item@,
{
    IgnoredItem { path: item.path.clone(), is_dir: item.is_dir, selected: item.selected }
}

/// The order of two items (see `compare_items`).
pub fn compare_item(a: &IgnoredItem, b: &IgnoredItem) -> (r: i8)
    ensures
        r as int == compare_items(a@, b@),
{
    if a.is_dir && !b.is_dir {
        -1
    } else if !a.is_dir && b.is_dir {
        1
    } else {
        let ca = path_components(&chars_of(a.path.as_str()));
        let cb = path_components(&chars_of(b.path.as_str()));
        compare_component_lists(&ca, &cb)
    }
}

/// `r` is `a` rearranged by the positions `idx` (`r[m]` is `a[idx[m]]`, each
/// position used once), and entries that compare equal keep their order in `a`.
pub open spec fn stable_arrangement(a: Seq<IgnoredItemView>, r: Seq<IgnoredItemView>, idx: Seq<int>) -> bool {
    &&& idx.len() == r.len()
    &&& r.len() == a.len()
    &&& forall|m: int| 0 <= m < r.len() ==> 0 <= #[trigger] idx[m] < a.len() && r[m] == a[idx[m]]
    &&& forall|m1: int, m2: int| 0 <= m1 < m2 < r.len() ==> #[trigger] idx[m1] != #[trigger] idx[m2]
    &&& forall|m1: int, m2: int|
        0 <= m1 < m2 < r.len() && compare_items(#[trigger] r[m1], #[trigger] r[m2]) == 0 ==> idx[m1] < idx[m2]
}

/// `items` in order: directories first, then by path; items that compare
/// equal keep their order (a stable sort, as `sort_by` is).
#[verifier::spinoff_prover]
pub fn sort_ignored_items(items: &Vec<IgnoredItem>) -> (r: Vec<IgnoredItem>)
    ensures
        items_sorted(item_views(r@)),
        item_views(r@).to_multiset() == item_views(items@).to_multiset(),
        forall|m: int| 0 <= m < r@.len() ==> exists|k: int| 0 <= k < items@.len()
            && #[trigger] item_views(r@)[m] == item_views(items@)[k],
        paths_distinct(item_views(items@)) ==> paths_distinct(item_views(r@)),
        exists|idx: Seq<int>| stable_arrangement(item_views(items@), item_views(r@), idx),
{
    broadcast use vstd::seq_lib::group_to_multiset_ensures;

    let mut r: Vec<IgnoredItem> = Vec::new();
    let mut i: usize = 0;
    let ghost mut idx: Seq<int> = Seq::empty();
    while i < items.len()
        invariant
            i <= items@.len(),
            items_sorted(item_views(r@)),
            item_views(r@).to_multiset() == item_views(items@).take(i as int).to_multiset(),
            forall|m: int| 0 <= m < r@.len() ==> exists|k: int| 0 <= k < i
                && #[trigger] item_views(r@)[m] == item_views(items@)[k],
            paths_distinct(item_views(items@)) ==> paths_distinct(item_views(r@)),
            stable_arrangement(item_views(items@).take(i as int), item_views(r@), idx),
        decreases items@.len() - i,
    {
        let x = copy_item(&items[i]);
        let mut p: usize = 0;
        while p < r.len() && compare_item(&x, &r[p]) >= 0
            invariant
                p <= r@.len(),
                forall|k: int| 0 <= k < p ==> compare_items(x@, #[trigger] item_views(r@)[k]) >= 0,
            decreases r@.len() - p,
        {
            p = p + 1;
        }
        let ghost old_r = item_views(r@);
        r.insert(p, x);
        proof {
            let nr = item_views(r@);
            assert(nr =~= old_r.insert(p as int, x@));
            assert forall|a: int, b: int| 0 <= a < b < nr.len() implies compare_items(#[trigger] nr[a], #[trigger] nr[b]) <= 0 by {
                if a < p && b == p {
                    lemma_compare_items_props(x@, old_r[a], x@);
                } else if a == p {
                    let ob: int = b - 1;
                    lemma_compare_items_props(x@, old_r[p as int], old_r[ob]);
                    if ob > p {
                        assert(compare_items(old_r[p as int], old_r[ob]) <= 0);
                    } else {
                        lemma_compare_items_props(old_r[p as int], old_r[p as int], old_r[p as int]);
                    }
                } else if a < p && b > p {
                    assert(compare_items(old_r[a], old_r[b - 1]) <= 0);
                } else if a > p {
                    assert(compare_items(old_r[a - 1], old_r[b - 1]) <= 0);
                }
            }
            assert(item_views(items@).take(i + 1) =~= item_views(items@).take(i as int).push(x@));
            vstd::seq_lib::to_multiset_insert(old_r, p as int, x@);
            vstd::seq_lib::to_multiset_build(item_views(items@).take(i as int), x@);
            assert(nr.to_multiset() == old_r.to_multiset().insert(x@));
            let iv = item_views(items@);
            assert(x@ == iv[i as int]);
            assert forall|m: int| 0 <= m < nr.len() implies exists|k: int| 0 <= k < i + 1
                && #[trigger] nr[m] == iv[k] by {
                if m < p {
                    assert(nr[m] == old_r[m]);
                } else if m == p {
                    assert(nr[m] == iv[i as int]);
                } else {
                    assert(nr[m] == old_r[m - 1]);
                }
            }
            if paths_distinct(iv) {
                assert forall|a: int, b: int| 0 <= a < b < nr.len() implies components(#[trigger] nr[a].path)
                    != components(#[trigger] nr[b].path) by {
                    if a == p || b == p {
                        let o: int = if a == p { b } else { a };
                        let om: int = if o < p { o } else { o - 1 };
                        assert(nr[o] == old_r[om]);
                        let k: int = choose|k: int| 0 <= k < i && #[trigger] old_r[om] == iv[k];
                        assert(components(iv[k].path) != components(iv[i as int].path));
                    } else {
                        let oa: int = if a < p { a } else { a - 1 };
                        let ob: int = if b < p { b } else { b - 1 };
                        assert(nr[a] == old_r[oa]);
                        assert(nr[b] == old_r[ob]);
                    }
                }
            }
        }
        proof {
            let nr = item_views(r@);
            let iv = item_views(items@);
            let a = iv.take(i as int);
            let a2 = iv.take(i + 1);
            let nidx = idx.insert(p as int, i as int);
            assert(nr =~= old_r.insert(p as int, x@));
            assert(forall|m: int| 0 <= m < a.len() ==> a2[m] == #[trigger] a[m]);
            assert(a2[i as int] == x@);
            assert forall|m: int| 0 <= m < nr.len() implies 0 <= #[trigger] nidx[m] < a2.len() && nr[m] == a2[nidx[m]] by {
                if m < p {
                    assert(nidx[m] == idx[m]);
                    assert(nr[m] == old_r[m]);
                } else if m > p {
                    assert(nidx[m] == idx[m - 1]);
                    assert(nr[m] == old_r[m - 1]);
                }
            }
            assert forall|m1: int, m2: int| 0 <= m1 < m2 < nr.len() implies #[trigger] nidx[m1] != #[trigger] nidx[m2] by {
                let o1: int = if m1 < p { m1 } else { m1 - 1 };
                let o2: int = if m2 < p { m2 } else { m2 - 1 };
                if m1 != p && m2 != p {
                    assert(nidx[m1] == idx[o1]);
                    assert(nidx[m2] == idx[o2]);
                } else if m1 == p {
                    assert(nidx[m2] == idx[o2]);
                } else {
                    assert(nidx[m1] == idx[o1]);
                }
            }
            assert forall|m1: int, m2: int|
                0 <= m1 < m2 < nr.len() && compare_items(#[trigger] nr[m1], #[trigger] nr[m2]) == 0 implies nidx[m1] < nidx[m2] by {
                let o1: int = if m1 < p { m1 } else { m1 - 1 };
                let o2: int = if m2 < p { m2 } else { m2 - 1 };
                if m1 != p && m2 != p {
                    assert(nidx[m1] == idx[o1]);
                    assert(nidx[m2] == idx[o2]);
                    assert(nr[m1] == old_r[o1]);
                    assert(nr[m2] == old_r[o2]);
                } else if m2 == p {
                    assert(nidx[m1] == idx[o1]);
                } else {
                    // x comes before old_r[p], and old_r[p] no later than old_r[o2]:
                    // x cannot compare equal to old_r[o2].
                    assert(nr[m2] == old_r[o2]);
                    assert(compare_items(x@, old_r[p as int]) < 0);
                    if o2 > p {
                        assert(compare_items(old_r[p as int], old_r[o2]) <= 0);
                    }
                    lemma_compare_items_props(old_r[p as int], old_r[o2], x@);
                    lemma_compare_items_props(x@, old_r[o2], x@);
                    lemma_compare_items_props(x@, old_r[p as int], x@);
                }
            }
            idx = nidx;
        }
        i = i + 1;
    }
    assert(item_views(items@).take(items@.len() as int) =~= item_views(items@));
    r
}

// ---------------------------------------------------------------------------
// The file system, through `glob` and `std::path`
// ---------------------------------------------------------------------------

/// Whether `glob::glob` accepts `pattern`. It refuses a pattern exactly when
/// the pattern, or one of its '/'-separated parts, is not a valid Unix shell
/// pattern (`glob::Pattern::new`), which depends on the pattern alone.
pub uninterp spec fn glob_accepts(pattern: Seq<char>) -> bool;

/// Whether `glob::glob(pattern)` can yield `path`: whether, on some file
/// system, `path` is among the paths that match `pattern` under `glob`'s
/// rules (component by component, as its documentation says: "an iterator
/// that produces all the `Path`s that match the given pattern"). Taken over
/// every file system, this depends on the two texts alone.
pub uninterp spec fn glob_matches(pattern: Seq<char>, path: Seq<char>) -> bool;

/// Calls `glob::glob(pattern)` and reads out every entry that it yields: the
/// path, or `None` for an entry that could not be read or whose path is not
/// UTF-8. Claimed: the result is `None` exactly when `glob` refuses the
/// pattern, and every path read out is one that the pattern matches. Which
/// matching paths exist, and so which entries come, depends on the file
/// system, and is not stated.
#[verifier::external_body]
fn glob_entries(pattern: &str) -> (r: Option<Vec<Option<String>>>)
    ensures
        r is Some <==> glob_accepts(pattern@),
        r matches Some(es) ==> forall|i: int| 0 <= i < es@.len() ==> (#[trigger] es@[i] matches Some(p)
            ==> glob_matches(pattern@, p@)),
{
    match glob::glob(pattern) {
        Ok(paths) => {
            let mut out = Vec::new();
            for entry in paths {
                out.push(match entry {
                    Ok(p) => p.into_os_string().into_string().ok(),
                    Err(_) => None,
                });
            }
            Some(out)
        },
        Err(_) => None,
    }
}

/// Calls `std::path::Path::is_dir`: whether `path` names a directory on disk
/// at the time of the call. Nothing is claimed of the result, which depends on
/// the file system.
#[verifier::external_body]
fn path_is_dir(path: &str) -> bool {
    std::path::Path::new(path).is_dir()
}

/// Whether one of `seen` is the list of components `c`.
fn seen_before(seen: &Vec<Vec<Vec<char>>>, c: &Vec<Vec<char>>) -> (b: bool)
    ensures
        b == exists|k: int| 0 <= k < seen@.len() && views(#[trigger] seen@[k]@) == views(c@),
{
    proof {
        lemma_compare_component_total();
    }
    let mut k: usize = 0;
    while k < seen.len()
        invariant
            k <= seen@.len(),
            forall|j: int| 0 <= j < k ==> views(#[trigger] seen@[j]@) != views(c@),
        decreases seen@.len() - k,
    {
        let r: i8 = compare_component_lists(&seen[k], c);
        proof {
            lemma_compare_component_total();
            lemma_compare_lex_props(views(seen@[k as int]@), views(c@), component_order());
        }
        if r == 0 {
            return true;
        }
        k = k + 1;
    }
    false
}

// ---------------------------------------------------------------------------
// From what `glob` found to the list of ignored files
// ---------------------------------------------------------------------------

/// The views of a list of found paths, each with whether it is a directory.
pub open spec fn candidate_views(c: Seq<(String, bool)>) -> Seq<(Seq<char>, bool)> {
    c.map_values(|e: (String, bool)| (e.0@, e.1))
}

/// The key by which found paths are told apart: their components (as
/// `PathBuf`'s equality and hashing have it). Kept opaque, so that proofs
/// compare keys without unfolding the path model.
#[verifier::opaque]
pub open spec fn path_key(p: Seq<char>) -> Seq<Seq<char>> {
    components(p)
}

/// No two items have the same key.
pub open spec fn keys_distinct(s: Seq<IgnoredItemView>) -> bool {
    forall|i: int, j: int| 0 <= i < j < s.len() ==> path_key(#[trigger] s[i].path) != path_key(#[trigger] s[j].path)
}

/// The found paths that no earlier found path equals (paths compared by
/// components, as `PathBuf` is), in order, as items that are not selected.
pub open spec fn first_occurrences(c: Seq<(Seq<char>, bool)>) -> Seq<IgnoredItemView>
    decreases c.len(),
{
    if c.len() == 0 {
        Seq::empty()
    } else {
        let r = first_occurrences(c.drop_last());
        if repeats_earlier(c) {
            r
        } else {
            r.push(IgnoredItemView { path: c.last().0, is_dir: c.last().1, selected: false })
        }
    }
}

/// `r` is `a` sorted stably: in order (directories first, then by path), the
/// same items, and a rearrangement of `a` in which items that compare equal
/// keep their order.
/// Exactly one sequence is such a sort of `a`.
pub open spec fn is_stable_sort(a: Seq<IgnoredItemView>, r: Seq<IgnoredItemView>) -> bool {
    &&& items_sorted(r)
    &&& r.to_multiset() == a.to_multiset()
    &&& exists|idx: Seq<int>| stable_arrangement(a, r, idx)
}

/// What `glob` gave for each pattern, as plain values: nothing for a pattern
/// that it refused, else its entries in order, each a path with whether it is
/// a directory, or nothing for an entry that could not be read.
pub open spec fn match_views(ms: Seq<Option<Vec<Option<(String, bool)>>>>) -> Seq<Option<Seq<Option<(Seq<char>, bool)>>>> {
    ms.map_values(|o: Option<Vec<Option<(String, bool)>>>| match o {
        Some(v) => Some(entry_views(v@)),
        None => None,
    })
}

/// The views of the entries that `glob` gave for one pattern.
pub open spec fn entry_views(es: Seq<Option<(String, bool)>>) -> Seq<Option<(Seq<char>, bool)>> {
    es.map_values(|e: Option<(String, bool)>| match e {
        Some(x) => Some((x.0@, x.1)),
        None => None,
    })
}

/// The entries that could be read, in order.
pub open spec fn readable(es: Seq<Option<(Seq<char>, bool)>>) -> Seq<(Seq<char>, bool)>
    decreases es.len(),
{
    if es.len() == 0 {
        Seq::empty()
    } else {
        let r = readable(es.drop_last());
        match es.last() {
            Some(x) => r.push(x),
            None => r,
        }
    }
}

/// The entries that could be read, pattern by pattern, in order.
pub open spec fn readable_matches(ms: Seq<Option<Seq<Option<(Seq<char>, bool)>>>>) -> Seq<(Seq<char>, bool)>
    decreases ms.len(),
{
    if ms.len() == 0 {
        Seq::empty()
    } else {
        let r = readable_matches(ms.drop_last());
        match ms.last() {
            Some(es) => r + readable(es),
            None => r,
        }
    }
}

/// `ms` is what `glob` can have given for the patterns `ps`: one place per
/// pattern, empty exactly for the patterns that it refuses, and every path
/// read out one that its pattern matches.
pub open spec fn matches_of(ms: Seq<Option<Seq<Option<(Seq<char>, bool)>>>>, ps: Seq<Seq<char>>) -> bool {
    &&& ms.len() == ps.len()
    &&& forall|j: int| 0 <= j < ms.len() ==> ((#[trigger] ms[j]) is Some <==> glob_accepts(ps[j]))
    &&& forall|j: int| 0 <= j < ms.len() ==> ((#[trigger] ms[j]) matches Some(es) ==> forall|i: int|
        0 <= i < es.len() ==> ((#[trigger] es[i]) matches Some(x) ==> glob_matches(ps[j], x.0)))
}

/// Where no place holds anything, nothing can be read.
pub proof fn lemma_readable_matches_none(ms: Seq<Option<Seq<Option<(Seq<char>, bool)>>>>)
    requires
        forall|j: int| 0 <= j < ms.len() ==> (#[trigger] ms[j]) is None,
    ensures
        readable_matches(ms).len() == 0,
    decreases ms.len(),
{
    if ms.len() > 0 {
        assert(ms.last() == ms[ms.len() - 1]);
        assert(forall|j: int| 0 <= j < ms.drop_last().len() ==> #[trigger] ms.drop_last()[j] == ms[j]);
        lemma_readable_matches_none(ms.drop_last());
    }
}

/// The last found path has an earlier one with the same key.
pub open spec fn repeats_earlier(c: Seq<(Seq<char>, bool)>) -> bool {
    exists|k: int| 0 <= k < c.len() - 1 && path_key((#[trigger] c[k]).0) == path_key(c.last().0)
}

/// Every item of `first_occurrences(c)` is a found path.
#[verifier::spinoff_prover]
pub proof fn lemma_first_occurrences_found(c: Seq<(Seq<char>, bool)>)
    ensures
        forall|m: int| 0 <= m < first_occurrences(c).len() ==> exists|k: int| 0 <= k < c.len()
            && (#[trigger] first_occurrences(c)[m]).path == (#[trigger] c[k]).0,
    decreases c.len(),
{
    if c.len() > 0 {
        let p = c.drop_last();
        let r = first_occurrences(p);
        let fo = first_occurrences(c);
        lemma_first_occurrences_found(p);
        assert forall|m: int| 0 <= m < fo.len() implies exists|k: int| 0 <= k < c.len()
            && (#[trigger] fo[m]).path == (#[trigger] c[k]).0 by {
            if m < r.len() {
                assert(fo[m] == r[m]);
                let k = choose|k: int| 0 <= k < p.len() && (#[trigger] r[m]).path == (#[trigger] p[k]).0;
                assert(p[k] == c[k]);
            } else {
                assert(fo[m].path == c.last().0);
                assert(c[c.len() - 1] == c.last());
            }
        }
    }
}

/// Every found path is one of the items of `first_occurrences(c)`, by key.
#[verifier::spinoff_prover]
pub proof fn lemma_first_occurrences_cover(c: Seq<(Seq<char>, bool)>)
    ensures
        forall|k: int| 0 <= k < c.len() ==> exists|m: int| 0 <= m < first_occurrences(c).len()
            && path_key((#[trigger] first_occurrences(c)[m]).path) == path_key((#[trigger] c[k]).0),
    decreases c.len(),
{
    if c.len() > 0 {
        let p = c.drop_last();
        let r = first_occurrences(p);
        let fo = first_occurrences(c);
        lemma_first_occurrences_cover(p);
        assert(forall|m: int| 0 <= m < r.len() ==> #[trigger] fo[m] == r[m]);
        assert forall|k: int| 0 <= k < c.len() implies exists|m: int| 0 <= m < fo.len()
            && path_key((#[trigger] fo[m]).path) == path_key((#[trigger] c[k]).0) by {
            if k < p.len() {
                assert(p[k] == c[k]);
                let m = choose|m: int| 0 <= m < r.len()
                    && path_key((#[trigger] r[m]).path) == path_key((#[trigger] p[k]).0);
                assert(fo[m] == r[m]);
            } else if repeats_earlier(c) {
                let k0 = choose|k0: int| 0 <= k0 < c.len() - 1 && path_key((#[trigger] c[k0]).0) == path_key(c.last().0);
                assert(p[k0] == c[k0]);
                let m = choose|m: int| 0 <= m < r.len()
                    && path_key((#[trigger] r[m]).path) == path_key((#[trigger] p[k0]).0);
                assert(fo[m] == r[m]);
                assert(c[k] == c.last());
            } else {
                assert(fo[r.len() as int].path == c.last().0);
                assert(c[k] == c.last());
            }
        }
    }
}

/// No two items of `first_occurrences(c)` have the same key, and none is selected.
#[verifier::spinoff_prover]
pub proof fn lemma_first_occurrences_distinct(c: Seq<(Seq<char>, bool)>)
    ensures
        keys_distinct(first_occurrences(c)),
        forall|m: int| 0 <= m < first_occurrences(c).len() ==> !(#[trigger] first_occurrences(c)[m]).selected,
    decreases c.len(),
{
    if c.len() > 0 {
        let p = c.drop_last();
        let r = first_occurrences(p);
        let fo = first_occurrences(c);
        lemma_first_occurrences_distinct(p);
        lemma_first_occurrences_found(p);
        assert(forall|m: int| 0 <= m < r.len() ==> #[trigger] fo[m] == r[m]);
        if !repeats_earlier(c) {
            assert forall|a: int, b: int| 0 <= a < b < fo.len() implies path_key(#[trigger] fo[a].path)
                != path_key(#[trigger] fo[b].path) by {
                if b == r.len() {
                    let k = choose|k: int| 0 <= k < p.len() && (#[trigger] r[a]).path == (#[trigger] p[k]).0;
                    assert(p[k] == c[k]);
                    assert(fo[b].path == c.last().0);
                }
            }
        }
    }
}

/// The list of ignored files made from the paths that the patterns matched,
/// in the order found, each with whether it is a directory: the first of each
/// path (by components) kept, none selected, sorted stably with directories
/// first and then by path.
#[verifier::spinoff_prover]
#[verifier::rlimit(30)]
pub fn ignored_items_from(candidates: &Vec<(String, bool)>) -> (items: Vec<IgnoredItem>)
    ensures
        is_stable_sort(first_occurrences(candidate_views(candidates@)), item_views(items@)),
        paths_distinct(item_views(items@)),
        forall|m: int| 0 <= m < items@.len() ==> !(#[trigger] items@[m]).selected,
{
    let ghost cv = candidate_views(candidates@);
    let mut found: Vec<IgnoredItem> = Vec::new();
    let mut seen: Vec<Vec<Vec<char>>> = Vec::new();
    let mut i: usize = 0;
    assert(item_views(found@) =~= first_occurrences(cv.take(0)));
    while i < candidates.len()
        invariant
            i <= candidates@.len(),
            cv == candidate_views(candidates@),
            item_views(found@) == first_occurrences(cv.take(i as int)),
            seen@.len() == found@.len(),
            forall|m: int| 0 <= m < found@.len() ==> views(#[trigger] seen@[m]@) == components(found@[m]@.path),
        decreases candidates@.len() - i,
    {
        let c = path_components(&chars_of(candidates[i].0.as_str()));
        let dup = seen_before(&seen, &c);
        let ghost t = cv.take(i + 1);
        let ghost fo = item_views(found@);
        proof {
            lemma_first_occurrences_found(cv.take(i as int));
            lemma_first_occurrences_cover(cv.take(i as int));
            assert(t.drop_last() =~= cv.take(i as int));
            assert(t.last() == cv[i as int]);
            assert(cv[i as int] == (candidates@[i as int].0@, candidates@[i as int].1));
            assert(forall|k: int| 0 <= k < i ==> #[trigger] t[k] == cv.take(i as int)[k]);
            assert(views(c@) == path_key(t.last().0)) by {
                reveal(path_key);
            }
            let e = exists|k: int| 0 <= k < t.len() - 1 && path_key((#[trigger] t[k]).0) == path_key(t.last().0);
            if dup {
                let m = choose|m: int| 0 <= m < seen@.len() && views(#[trigger] seen@[m]@) == views(c@);
                assert(fo[m] == found@[m]@);
                assert(views(seen@[m]@) == path_key(fo[m].path)) by {
                    reveal(path_key);
                }
                let k = choose|k: int| 0 <= k < cv.take(i as int).len()
                    && (#[trigger] fo[m]).path == (#[trigger] cv.take(i as int)[k]).0;
                assert(t[k] == cv.take(i as int)[k]);
                assert(e);
            } else if e {
                let k = choose|k: int| 0 <= k < t.len() - 1 && path_key((#[trigger] t[k]).0) == path_key(t.last().0);
                let m = choose|m: int| 0 <= m < fo.len()
                    && path_key((#[trigger] fo[m]).path) == path_key((#[trigger] cv.take(i as int)[k]).0);
                assert(fo[m] == found@[m]@);
                assert(views(seen@[m]@) == path_key(fo[m].path)) by {
                    reveal(path_key);
                }
                assert(views(seen@[m]@) == views(c@));
                assert(false);
            }
            assert(e == dup);
        }
        if !dup {
            let item = IgnoredItem { path: candidates[i].0.clone(), is_dir: candidates[i].1, selected: false };
            let ghost old_found = found@;
            let ghost old_seen = seen@;
            found.push(item);
            seen.push(c);
            proof {
                assert(item_views(found@) =~= item_views(old_found).push(item@));
                assert forall|m: int| 0 <= m < found@.len() implies views(#[trigger] seen@[m]@)
                    == components(found@[m]@.path) by {
                    if m < old_found.len() {
                        assert(seen@[m] == old_seen[m]);
                        assert(found@[m] == old_found[m]);
                    }
                }
            }
        }
        i = i + 1;
    }
    assert(cv.take(candidates@.len() as int) =~= cv);
    proof {
        lemma_first_occurrences_distinct(cv);
        let fo = first_occurrences(cv);
        assert forall|a: int, b: int| 0 <= a < b < fo.len() implies components(#[trigger] fo[a].path)
            != components(#[trigger] fo[b].path) by {
            reveal(path_key);
        }
    }
    let sorted = sort_ignored_items(&found);
    proof {
        assert forall|m: int| 0 <= m < sorted@.len() implies !(#[trigger] sorted@[m]).selected by {
            let k = choose|k: int| 0 <= k < found@.len() && #[trigger] item_views(sorted@)[m] == item_views(found@)[k];
            assert(item_views(sorted@)[m].selected == sorted@[m].selected);
            assert(item_views(found@)[k].selected == found@[k].selected);
            assert(item_views(found@)[k] == first_occurrences(cv)[k]);
        }
    }
    sorted
}

/// What `glob` gave for one pattern, each readable path paired with whether
/// it is a directory (`std::path::Path::is_dir`, asked of the file system
/// now): nothing stays nothing, and every entry keeps its place and path.
pub fn with_kinds(got: Option<Vec<Option<String>>>) -> (r: Option<Vec<Option<(String, bool)>>>)
    ensures
        r is Some <==> got is Some,
        r matches Some(v) ==> {
            &&& got->0@.len() == v@.len()
            &&& forall|i: int| 0 <= i < v@.len() ==> ((#[trigger] v@[i]) is Some <==> got->0@[i] is Some)
            &&& forall|i: int| 0 <= i < v@.len() ==> ((#[trigger] v@[i]) matches Some(x) ==> x.0@ == got->0@[i]->0@)
        },
{
    match got {
        None => None,
        Some(entries) => {
            let mut v: Vec<Option<(String, bool)>> = Vec::new();
            let mut e: usize = 0;
            while e < entries.len()
                invariant
                    e <= entries@.len(),
                    v@.len() == e,
                    forall|i: int| 0 <= i < e ==> ((#[trigger] v@[i]) is Some <==> entries@[i] is Some),
                    forall|i: int| 0 <= i < e ==> ((#[trigger] v@[i]) matches Some(x) ==> x.0@ == entries@[i]->0@),
                decreases entries@.len() - e,
            {
                match &entries[e] {
                    None => v.push(None),
                    Some(p) => {
                        let is_dir = path_is_dir(p.as_str());
                        v.push(Some((p.clone(), is_dir)));
                    },
                }
                e = e + 1;
            }
            Some(v)
        },
    }
}

/// The list of ignored files made from what `glob` gave for each pattern:
/// the entries that could be read, pattern by pattern (see
/// `ignored_items_from`).
pub fn ignored_items_from_matches(matches: &Vec<Option<Vec<Option<(String, bool)>>>>) -> (items: Vec<IgnoredItem>)
    ensures
        is_stable_sort(first_occurrences(readable_matches(match_views(matches@))), item_views(items@)),
        paths_distinct(item_views(items@)),
        forall|m: int| 0 <= m < items@.len() ==> !(#[trigger] items@[m]).selected,
{
    let ghost mv = match_views(matches@);
    let mut cands: Vec<(String, bool)> = Vec::new();
    let mut j: usize = 0;
    while j < matches.len()
        invariant
            j <= matches@.len(),
            mv == match_views(matches@),
            candidate_views(cands@) == readable_matches(mv.take(j as int)),
        decreases matches@.len() - j,
    {
        proof {
            assert(mv.take(j + 1).drop_last() =~= mv.take(j as int));
            assert(mv.take(j + 1).last() == mv[j as int]);
        }
        match &matches[j] {
            None => {},
            Some(es) => {
                let ghost ev = entry_views(es@);
                let ghost before = candidate_views(cands@);
                assert(mv[j as int] == Some(ev));
                let mut i: usize = 0;
                assert(readable(ev.take(0)) =~= Seq::<(Seq<char>, bool)>::empty());
                assert(before + readable(ev.take(0)) =~= before);
                while i < es.len()
                    invariant
                        i <= es@.len(),
                        ev == entry_views(es@),
                        candidate_views(cands@) == before + readable(ev.take(i as int)),
                    decreases es@.len() - i,
                {
                    proof {
                        assert(ev.take(i + 1).drop_last() =~= ev.take(i as int));
                        assert(ev.take(i + 1).last() == ev[i as int]);
                    }
                    match &es[i] {
                        None => {},
                        Some(x) => {
                            let ghost old_c = cands@;
                            cands.push((x.0.clone(), x.1));
                            assert(candidate_views(cands@) =~= candidate_views(old_c).push((x.0@, x.1)));
                            assert(before + readable(ev.take(i + 1)) =~= (before + readable(ev.take(i as int))).push((x.0@, x.1)));
                        },
                    }
                    i = i + 1;
                }
                assert(ev.take(es@.len() as int) =~= ev);
            },
        }
        j = j + 1;
    }
    assert(mv.take(matches@.len() as int) =~= mv);
    ignored_items_from(&cands)
}

// ---------------------------------------------------------------------------
// The manager
// ---------------------------------------------------------------------------

/// Finds the files that `.gitignore` matches in the repository at its path,
/// and plans their copy into a new worktree.
pub struct GitignoreManager {
    repo_path: String,
}

impl GitignoreManager {
    /// The path of the repository.
    pub closed spec fn repo(&self) -> Seq<char> {
        self.repo_path@
    }

    /// The manager of the repository at `repo_path`; this never fails.
    pub fn new(repo_path: String) -> (r: Result<Self, String>)
        ensures
            r matches Ok(m) && m.repo() == repo_path@,
    {
        Ok(Self { repo_path })
    }

    /// The glob patterns that the text of `.gitignore` gives.
    pub fn patterns(&self, content: &str) -> (ps: Vec<String>)
        ensures
            crate::worktree::string_views(ps@) == gitignore_patterns(self.repo(), lines_of(content@)),
    {
        let text = chars_of(content);
        let ls = lines(&text);
        let repo = chars_of(self.repo_path.as_str());
        let mut ps: Vec<String> = Vec::new();
        let mut i: usize = 0;
        while i < ls.len()
            invariant
                i <= ls@.len(),
                views(ls@) == lines_of(content@),
                repo@ == self.repo(),
                crate::worktree::string_views(ps@) == gitignore_patterns(self.repo(), views(ls@).take(i as int)),
            decreases ls@.len() - i,
        {
            proof {
                assert(views(ls@).take(i + 1).drop_last() =~= views(ls@).take(i as int));
                assert(views(ls@).take(i + 1).last() == ls@[i as int]@);
            }
            let line = trimmed(&ls[i]);
            if line.len() > 0 && line[0] != '#' {
                let mut p = repo.clone();
                if line[0] != '/' {
                    p.push('/');
                }
                let ghost mid = p@;
                let mut k: usize = 0;
                while k < line.len()
                    invariant
                        k <= line@.len(),
                        p@ == mid + line@.take(k as int),
                    decreases line@.len() - k,
                {
                    p.push(line[k]);
                    k = k + 1;
                    assert(p@ =~= mid + line@.take(k as int));
                }
                assert(line@.take(line@.len() as int) =~= line@);
                let ghost before = ps@;
                ps.push(string_of(p.as_slice()));
                assert(crate::worktree::string_views(ps@) =~= crate::worktree::string_views(before).push(p@));
            }
            i = i + 1;
        }
        assert(views(ls@).take(ls@.len() as int) =~= views(ls@));
        ps
    }

    /// The files and directories that the patterns of `.gitignore` match,
    /// none selected, each path once (paths compared by components, as
    /// `PathBuf` is), directories first and then by path. `gitignore` is the
    /// text of the repository's `.gitignore`, `None` where there is none.
    /// Each pattern is handed to `glob` in turn; what it gives, each readable
    /// path with whether it is a directory, goes to
    /// `ignored_items_from_matches`. Which paths match depends on the file
    /// system.
    pub fn get_ignored_files(&self, gitignore: Option<&str>) -> (items: Vec<IgnoredItem>)
        ensures
            items_sorted(item_views(items@)),
            paths_distinct(item_views(items@)),
            forall|m: int| 0 <= m < items@.len() ==> !(#[trigger] items@[m]).selected,
            gitignore is None ==> items@.len() == 0,
            gitignore matches Some(text) ==> exists|ms: Seq<Option<Seq<Option<(Seq<char>, bool)>>>>|
                #[trigger] matches_of(ms, gitignore_patterns(self.repo(), lines_of(text@)))
                && is_stable_sort(first_occurrences(readable_matches(ms)), item_views(items@)),
            gitignore matches Some(text) && (forall|j: int|
                0 <= j < gitignore_patterns(self.repo(), lines_of(text@)).len()
                    ==> !glob_accepts(#[trigger] gitignore_patterns(self.repo(), lines_of(text@))[j]))
                ==> items@.len() == 0,
    {
        let text = match gitignore {
            None => return Vec::new(),
            Some(t) => t,
        };
        let pats = self.patterns(text);
        let ghost ps = gitignore_patterns(self.repo(), lines_of(text@));
        let mut matches: Vec<Option<Vec<Option<(String, bool)>>>> = Vec::new();
        let mut j: usize = 0;
        while j < pats.len()
            invariant
                j <= pats@.len(),
                crate::worktree::string_views(pats@) == ps,
                matches@.len() == j,
                forall|q: int| 0 <= q < j ==> ((#[trigger] match_views(matches@)[q]) is Some <==> glob_accepts(ps[q])),
                forall|q: int| 0 <= q < j ==> ((#[trigger] match_views(matches@)[q]) matches Some(es) ==> forall|i: int|
                    0 <= i < es.len() ==> ((#[trigger] es[i]) matches Some(x) ==> glob_matches(ps[q], x.0))),
            decreases pats@.len() - j,
        {
            assert(pats@[j as int]@ == ps[j as int]);
            let got = with_kinds(glob_entries(pats[j].as_str()));
            let ghost old_m = matches@;
            proof {
                if got is Some {
                    let v = got->0@;
                    assert forall|i: int| 0 <= i < entry_views(v).len() implies ((#[trigger] entry_views(v)[i]) matches Some(x)
                        ==> glob_matches(ps[j as int], x.0)) by {
                        if v[i] is Some {
                            assert(entry_views(v)[i] == Some(((v[i]->0).0@, (v[i]->0).1)));
                        }
                    }
                }
            }
            matches.push(got);
            proof {
                assert(forall|q: int| 0 <= q < j ==> #[trigger] match_views(matches@)[q] == match_views(old_m)[q]);
                assert(match_views(matches@)[j as int] == match got {
                    Some(v) => Some(entry_views(v@)),
                    None => None,
                });
            }
            j = j + 1;
        }
        let items = ignored_items_from_matches(&matches);
        proof {
            let mv = match_views(matches@);
            assert(matches_of(mv, ps));
            if forall|q: int| 0 <= q < ps.len() ==> !glob_accepts(#[trigger] ps[q]) {
                assert forall|q: int| 0 <= q < mv.len() implies (#[trigger] mv[q]) is None by {
                    assert(!glob_accepts(ps[q]));
                }
                lemma_readable_matches_none(mv);
                assert(first_occurrences(readable_matches(mv)).len() == 0);
                let idx = choose|idx: Seq<int>| stable_arrangement(
                    first_occurrences(readable_matches(mv)),
                    item_views(items@),
                    idx,
                );
                assert(item_views(items@).len() == 0);
            }
        }
        items
    }

    /// The copies that copying the selected `items` into `target_dir` takes.
    pub fn copy_selected_items(&self, items: &Vec<IgnoredItem>, target_dir: &str) -> (steps: Vec<CopyStep>)
        ensures
            step_views(steps@) == copy_steps(self.repo(), item_views(items@), target_dir@),
    {
        let dir = chars_of(target_dir);
        let mut steps: Vec<CopyStep> = Vec::new();
        let mut i: usize = 0;
        while i < items.len()
            invariant
                i <= items@.len(),
                dir@ == target_dir@,
                step_views(steps@) == copy_steps(self.repo(), item_views(items@).take(i as int), target_dir@),
            decreases items@.len() - i,
        {
            proof {
                assert(item_views(items@).take(i + 1).drop_last() =~= item_views(items@).take(i as int));
                assert(item_views(items@).take(i + 1).last() == items@[i as int]@);
            }
            let item = &items[i];
            if item.selected {
                let rel = chars_of(item.relative_path(self.repo_path.as_str()).as_str());
                let target = path_join(&dir, &rel);
                let target_parent = match path_parent(&target) {
                    Some(p) => Some(string_of(p.as_slice())),
                    None => None,
                };
                let step = CopyStep {
                    source: item.path.clone(),
                    target: string_of(target.as_slice()),
                    target_parent,
                    is_dir: item.is_dir,
                };
                let ghost before = steps@;
                steps.push(step);
                assert(step_views(steps@) =~= step_views(before).push(step@));
            }
            i = i + 1;
        }
        assert(item_views(items@).take(items@.len() as int) =~= item_views(items@));
        steps
    }
}

} // verus!
