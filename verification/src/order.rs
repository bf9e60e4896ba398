use vstd::prelude::*;
use crate::text::views;

verus! {

// ---------------------------------------------------------------------------
// Lexicographic order. A comparison gives -1 (before), 0 (equal) or 1 (after).
// ---------------------------------------------------------------------------

/// `f` is a comparison that orders its values totally.
pub open spec fn is_total_order<A>(f: spec_fn(A, A) -> int) -> bool {
    &&& forall|x: A, y: A| -1 <= #[trigger] f(x, y) <= 1
    &&& forall|x: A, y: A| #[trigger] f(x, y) == -f(y, x)
    &&& forall|x: A, y: A| #[trigger] f(x, y) == 0 <==> x == y
    &&& forall|x: A, y: A, z: A| #[trigger] f(x, y) <= 0 && #[trigger] f(y, z) <= 0 ==> f(x, z) <= 0
}

/// `a` against `b` element by element under `f`; a proper prefix comes first.
pub open spec fn compare_lex<A>(a: Seq<A>, b: Seq<A>, f: spec_fn(A, A) -> int) -> int
    decreases a.len(),
{
    if a.len() == 0 && b.len() == 0 {
        0
    } else if a.len() == 0 {
        -1
    } else if b.len() == 0 {
        1
    } else if f(a[0], b[0]) != 0 {
        f(a[0], b[0])
    } else {
        compare_lex(a.drop_first(), b.drop_first(), f)
    }
}

/// Under a total order, the lexicographic comparison is antisymmetric and
/// compares equal exactly the equal sequences.
pub proof fn lemma_compare_lex_props<A>(a: Seq<A>, b: Seq<A>, f: spec_fn(A, A) -> int)
    requires
        is_total_order(f),
    ensures
        -1 <= compare_lex(a, b, f) <= 1,
        compare_lex(a, b, f) == -compare_lex(b, a, f),
        compare_lex(a, b, f) == 0 <==> a == b,
    decreases a.len(),
{
    if a.len() > 0 && b.len() > 0 {
        assert(f(a[0], b[0]) == -f(b[0], a[0]));
        lemma_compare_lex_props(a.drop_first(), b.drop_first(), f);
        if f(a[0], b[0]) == 0 && a.drop_first() == b.drop_first() {
            assert(a =~= seq![a[0]] + a.drop_first());
            assert(b =~= seq![b[0]] + b.drop_first());
        }
        if a == b {
            assert(f(a[0], b[0]) == 0);
            assert(a.drop_first() == b.drop_first());
        }
    } else if a.len() == 0 && b.len() == 0 {
        assert(a =~= b);
    }
}

/// Under a total order, the lexicographic comparison is transitive.
pub proof fn lemma_compare_lex_trans<A>(a: Seq<A>, b: Seq<A>, c: Seq<A>, f: spec_fn(A, A) -> int)
    requires
        is_total_order(f),
        compare_lex(a, b, f) <= 0,
        compare_lex(b, c, f) <= 0,
    ensures
        compare_lex(a, c, f) <= 0,
    decreases a.len(),
{
    if a.len() > 0 && b.len() > 0 && c.len() > 0 {
        let x = a[0];
        let y = b[0];
        let z = c[0];
        assert(f(x, y) <= 0);
        assert(f(y, z) <= 0);
        assert(f(x, z) <= 0);
        if f(x, y) == 0 && f(y, z) == 0 {
            assert(x == y && y == z);
            lemma_compare_lex_trans(a.drop_first(), b.drop_first(), c.drop_first(), f);
        } else {
            if f(x, z) == 0 {
                assert(x == z);
                assert(f(x, y) == -f(y, x));
            }
        }
    }
}

// ---------------------------------------------------------------------------
// Characters by code point, texts lexicographically (as `str` and `OsStr`
// compare: UTF-8 bytes order texts as their code points do).
// ---------------------------------------------------------------------------

/// Two characters by code point.
pub open spec fn compare_char(x: char, y: char) -> int {
    if (x as int) < (y as int) {
        -1
    } else if (x as int) > (y as int) {
        1
    } else {
        0
    }
}

/// The comparison of characters by code point.
pub open spec fn char_order() -> spec_fn(char, char) -> int {
    |x: char, y: char| compare_char(x, y)
}

/// Two texts by code point, lexicographically.
pub open spec fn compare_text(a: Seq<char>, b: Seq<char>) -> int {
    compare_lex(a, b, char_order())
}

/// Characters are totally ordered by code point.
pub proof fn lemma_compare_char_total()
    ensures
        is_total_order(char_order()),
{
    let f = char_order();
    assert forall|x: char, y: char| #[trigger] f(x, y) == 0 <==> x == y by {
        if (x as int) == (y as int) {
            assert(x == y);
        }
    }
}

// ---------------------------------------------------------------------------
// Path components (written as in `path`: "/" root, "." current directory,
// ".." parent directory, any other text a normal component), ordered as
// `std::path::Component` is: root, current, parent, then normal ones by text.
// ---------------------------------------------------------------------------

/// The kind of a component: root, current directory, parent directory, or normal.
pub open spec fn component_rank(c: Seq<char>) -> int {
    if c == seq!['/'] {
        0
    } else if c == seq!['.'] {
        1
    } else if c == seq!['.', '.'] {
        2
    } else {
        3
    }
}

/// Two components: by kind, then by text.
pub open spec fn compare_component(a: Seq<char>, b: Seq<char>) -> int {
    if component_rank(a) < component_rank(b) {
        -1
    } else if component_rank(a) > component_rank(b) {
        1
    } else {
        compare_text(a, b)
    }
}

/// The comparison of components.
pub open spec fn component_order() -> spec_fn(Seq<char>, Seq<char>) -> int {
    |x: Seq<char>, y: Seq<char>| compare_component(x, y)
}

/// Two lists of components, as `Path`'s order compares paths.
pub open spec fn compare_components(a: Seq<Seq<char>>, b: Seq<Seq<char>>) -> int {
    compare_lex(a, b, component_order())
}

/// Components are totally ordered.
pub proof fn lemma_compare_component_total()
    ensures
        is_total_order(component_order()),
{
    let f = component_order();
    let g = char_order();
    lemma_compare_char_total();
    assert forall|x: Seq<char>, y: Seq<char>| -1 <= #[trigger] f(x, y) <= 1 && f(x, y) == -f(y, x)
        && (f(x, y) == 0 <==> x == y) by {
        lemma_compare_lex_props(x, y, g);
    }
    assert forall|x: Seq<char>, y: Seq<char>, z: Seq<char>| #[trigger] f(x, y) <= 0 && #[trigger] f(y, z) <= 0
        implies f(x, z) <= 0 by {
        if component_rank(x) == component_rank(y) && component_rank(y) == component_rank(z) {
            lemma_compare_lex_trans(x, y, z, g);
        }
    }
}

// ---------------------------------------------------------------------------
// Executable comparisons
// ---------------------------------------------------------------------------

/// Two characters compared by code point.
pub fn compare_chars(x: char, y: char) -> (r: i8)
    ensures
        r as int == compare_char(x, y),
{
    if x < y {
        -1
    } else if x > y {
        1
    } else {
        0
    }
}

proof fn lemma_compare_lex_skip<A>(a: Seq<A>, b: Seq<A>, f: spec_fn(A, A) -> int, i: int)
    requires
        0 <= i < a.len(),
        i < b.len(),
        f(a[i], b[i]) == 0,
    ensures
        compare_lex(a.skip(i), b.skip(i), f) == compare_lex(a.skip(i + 1), b.skip(i + 1), f),
{
    assert(a.skip(i).drop_first() =~= a.skip(i + 1));
    assert(b.skip(i).drop_first() =~= b.skip(i + 1));
}

/// Two texts compared by code point.
pub fn compare_texts(a: &Vec<char>, b: &Vec<char>) -> (r: i8)
    ensures
        r as int == compare_text(a@, b@),
{
    let ghost f = char_order();
    let mut i: usize = 0;
    assert(a@.skip(0) =~= a@);
    assert(b@.skip(0) =~= b@);
    while i < a.len() && i < b.len()
        invariant
            i <= a@.len(),
            i <= b@.len(),
            f == char_order(),
            compare_text(a@, b@) == compare_lex(a@.skip(i as int), b@.skip(i as int), f),
        decreases a@.len() - i,
    {
        let c: i8 = compare_chars(a[i], b[i]);
        assert(a@.skip(i as int)[0] == a@[i as int]);
        assert(b@.skip(i as int)[0] == b@[i as int]);
        assert(f(a@[i as int], b@[i as int]) == compare_char(a@[i as int], b@[i as int]));
        if c != 0 {
            return c;
        }
        proof {
            lemma_compare_lex_skip(a@, b@, f, i as int);
        }
        i = i + 1;
    }
    if i < a.len() {
        1
    } else if i < b.len() {
        -1
    } else {
        0
    }
}

fn rank_of(c: &Vec<char>) -> (r: u8)
    ensures
        r as int == component_rank(c@),
{
    if c.len() == 1 && c[0] == '/' {
        assert(c@ =~= seq!['/']);
        0
    } else if c.len() == 1 && c[0] == '.' {
        assert(c@ =~= seq!['.']);
        assert(c@ != seq!['/']);
        1
    } else if c.len() == 2 && c[0] == '.' && c[1] == '.' {
        assert(c@ =~= seq!['.', '.']);
        2
    } else {
        proof {
            if c@ == seq!['/'] || c@ == seq!['.'] {
                assert(c@.len() == 1);
            }
            if c@ == seq!['.', '.'] {
                assert(c@.len() == 2);
            }
        }
        3
    }
}

/// Two path components compared as `std::path::Component` orders them.
pub fn compare_component_exec(a: &Vec<char>, b: &Vec<char>) -> (r: i8)
    ensures
        r as int == compare_component(a@, b@),
{
    let ra: u8 = rank_of(a);
    let rb: u8 = rank_of(b);
    if ra < rb {
        -1
    } else if ra > rb {
        1
    } else {
        compare_texts(a, b)
    }
}

/// Two lists of path components compared as `Path`'s order does.
pub fn compare_component_lists(a: &Vec<Vec<char>>, b: &Vec<Vec<char>>) -> (r: i8)
    ensures
        r as int == compare_components(views(a@), views(b@)),
{
    let ghost f = component_order();
    let ghost va = views(a@);
    let ghost vb = views(b@);
    let mut i: usize = 0;
    assert(va.skip(0) =~= va);
    assert(vb.skip(0) =~= vb);
    while i < a.len() && i < b.len()
        invariant
            i <= a@.len(),
            i <= b@.len(),
            va == views(a@),
            vb == views(b@),
            f == component_order(),
            compare_components(va, vb) == compare_lex(va.skip(i as int), vb.skip(i as int), f),
        decreases a@.len() - i,
    {
        let c: i8 = compare_component_exec(&a[i], &b[i]);
        assert(va.skip(i as int)[0] == va[i as int]);
        assert(vb.skip(i as int)[0] == vb[i as int]);
        assert(va[i as int] == a@[i as int]@);
        assert(f(va[i as int], vb[i as int]) == compare_component(va[i as int], vb[i as int]));
        if c != 0 {
            return c;
        }
        proof {
            lemma_compare_lex_skip(va, vb, f, i as int);
        }
        i = i + 1;
    }
    if i < a.len() {
        1
    } else if i < b.len() {
        -1
    } else {
        0
    }
}

} // verus!
