use vstd::prelude::*;
use crate::text::{split_on, join_with, views, split, join, same_chars};

verus! {

// ---------------------------------------------------------------------------
// The model: a path is a text; its pieces are what lies between `'/'`s.
// Its components, as `std::path::Path::components` gives them on Unix, are
// written as texts too: the root as "/", a leading current directory as ".",
// a parent directory as "..", and a normal component as itself (a normal
// component is never empty and never holds a '/', so the writing is faithful).
// ---------------------------------------------------------------------------

/// The separator of path components.
pub open spec fn sep() -> char {
    '/'
}

/// A piece that gives a component in the body of a path: not empty, not ".".
pub open spec fn is_kept(piece: Seq<char>) -> bool {
    piece.len() > 0 && piece != seq!['.']
}

/// The pieces that give components, in order.
pub open spec fn kept(pieces: Seq<Seq<char>>) -> Seq<Seq<char>>
    decreases pieces.len(),
{
    if pieces.len() == 0 {
        pieces
    } else {
        let r = kept(pieces.drop_last());
        if is_kept(pieces.last()) {
            r.push(pieces.last())
        } else {
            r
        }
    }
}

/// The path begins at the root.
pub open spec fn is_rooted(p: Seq<char>) -> bool {
    p.len() > 0 && p[0] == '/'
}

/// The path begins with the current directory ("." or "./...").
pub open spec fn has_cur_dir(p: Seq<char>) -> bool {
    !is_rooted(p) && split_on(p, '/')[0] == seq!['.']
}

/// How many components stand before the body: the root or the current directory.
pub open spec fn lead_count(p: Seq<char>) -> nat {
    if is_rooted(p) || has_cur_dir(p) {
        1
    } else {
        0
    }
}

/// The components of `p`.
pub open spec fn components(p: Seq<char>) -> Seq<Seq<char>> {
    let lead = if is_rooted(p) {
        seq![seq!['/']]
    } else if has_cur_dir(p) {
        seq![seq!['.']]
    } else {
        Seq::<Seq<char>>::empty()
    };
    lead + kept(split_on(p, '/'))
}

/// A component that is neither the root, the current nor the parent directory.
pub open spec fn is_normal(c: Seq<char>) -> bool {
    c != seq!['/'] && c != seq!['.'] && c != seq!['.', '.']
}

/// The final component of `p` if it is a normal one (`Path::file_name`).
pub open spec fn file_name(p: Seq<char>) -> Option<Seq<char>> {
    let c = components(p);
    if c.len() > 0 && is_normal(c.last()) {
        Some(c.last())
    } else {
        None
    }
}

/// The pieces after the `n`-th piece that gives a component.
pub open spec fn after_kept(pieces: Seq<Seq<char>>, n: nat) -> Seq<Seq<char>>
    decreases pieces.len(),
{
    if n == 0 || pieces.len() == 0 {
        pieces
    } else if is_kept(pieces[0]) {
        after_kept(pieces.drop_first(), (n - 1) as nat)
    } else {
        after_kept(pieces.drop_first(), n)
    }
}

/// `pieces` without the leading pieces that give no component.
pub open spec fn trim_head(pieces: Seq<Seq<char>>) -> Seq<Seq<char>>
    decreases pieces.len(),
{
    if pieces.len() > 0 && !is_kept(pieces[0]) {
        trim_head(pieces.drop_first())
    } else {
        pieces
    }
}

/// `pieces` without the trailing pieces that give no component.
pub open spec fn trim_tail(pieces: Seq<Seq<char>>) -> Seq<Seq<char>>
    decreases pieces.len(),
{
    if pieces.len() > 0 && !is_kept(pieces.last()) {
        trim_tail(pieces.drop_last())
    } else {
        pieces
    }
}

/// The text of the front part `front` of a path (its pieces, the root or
/// current directory piece first where there is one), without trailing
/// separators and "." pieces, but keeping the root or the current directory.
pub open spec fn front_text(front: Seq<Seq<char>>, rooted: bool, cur: bool) -> Seq<char> {
    if rooted {
        let t = trim_tail(front.skip(1));
        if t.len() == 0 {
            seq!['/']
        } else {
            join_with(seq![Seq::<char>::empty()] + t, '/')
        }
    } else if cur {
        join_with(seq![seq!['.']] + trim_tail(front.skip(1)), '/')
    } else {
        join_with(trim_tail(front), '/')
    }
}

/// `base`'s components begin `p`'s components.
pub open spec fn is_component_prefix(p: Seq<char>, base: Seq<char>) -> bool {
    let cp = components(p);
    let cb = components(base);
    cb.len() <= cp.len() && cp.take(cb.len() as int) == cb
}

/// What is left of `p` after the components of `base` (`Path::strip_prefix`).
pub open spec fn strip_prefix(p: Seq<char>, base: Seq<char>) -> Option<Seq<char>> {
    let cb = components(base);
    let pieces = split_on(p, '/');
    if !is_component_prefix(p, base) {
        None
    } else if cb.len() == 0 {
        Some(front_text(pieces, is_rooted(p), has_cur_dir(p)))
    } else {
        let rest = if cb.len() <= lead_count(p) {
            pieces.skip(1)
        } else {
            after_kept(pieces, (cb.len() - lead_count(p)) as nat)
        };
        Some(join_with(trim_tail(trim_head(rest)), '/'))
    }
}

/// The index of the last piece that gives a component.
pub open spec fn last_kept_index(pieces: Seq<Seq<char>>) -> int
    decreases pieces.len(),
{
    if pieces.len() == 0 {
        -1
    } else if is_kept(pieces.last()) {
        pieces.len() - 1
    } else {
        last_kept_index(pieces.drop_last())
    }
}

/// `p` without its final component (`Path::parent`).
pub open spec fn parent(p: Seq<char>) -> Option<Seq<char>> {
    let pieces = split_on(p, '/');
    if kept(pieces).len() == 0 {
        if has_cur_dir(p) {
            Some(Seq::<char>::empty())
        } else {
            None
        }
    } else {
        Some(front_text(pieces.take(last_kept_index(pieces)), is_rooted(p), has_cur_dir(p)))
    }
}

/// `p` with `q` appended (`Path::join` on Unix): an absolute `q` replaces `p`;
/// otherwise a separator goes between them unless `p` is empty or ends in one.
pub open spec fn join_paths(p: Seq<char>, q: Seq<char>) -> Seq<char> {
    if is_rooted(q) {
        q
    } else if p.len() > 0 && p.last() != '/' {
        p.push('/') + q
    } else {
        p + q
    }
}

// ---------------------------------------------------------------------------
// Lemmas
// ---------------------------------------------------------------------------

/// The kept pieces are no more than the pieces, all kept, and the last of
/// them stands at `last_kept_index`.
pub proof fn lemma_kept_len(pieces: Seq<Seq<char>>)
    ensures
        kept(pieces).len() <= pieces.len(),
        kept(pieces).len() == 0 <==> last_kept_index(pieces) == -1,
        kept(pieces).len() > 0 ==> 0 <= last_kept_index(pieces) < pieces.len()
            && is_kept(pieces[last_kept_index(pieces)])
            && kept(pieces).last() == pieces[last_kept_index(pieces)],
        forall|i: int| 0 <= i < kept(pieces).len() ==> is_kept(#[trigger] kept(pieces)[i]),
    decreases pieces.len(),
{
    if pieces.len() > 0 {
        lemma_kept_len(pieces.drop_last());
        let r = kept(pieces.drop_last());
        if is_kept(pieces.last()) {
            assert forall|i: int| 0 <= i < kept(pieces).len() implies is_kept(#[trigger] kept(pieces)[i]) by {
                if i < r.len() {
                    assert(kept(pieces)[i] == r[i]);
                }
            }
        }
    }
}

// ---------------------------------------------------------------------------
// Lemmas on joining and stripping
// ---------------------------------------------------------------------------

/// Splitting a text glued at a separator splits each side.
pub proof fn lemma_split_concat(a: Seq<char>, b: Seq<char>, c: char)
    ensures
        split_on(a.push(c) + b, c) == split_on(a, c) + split_on(b, c),
    decreases b.len(),
{
    crate::text::lemma_split_on_len(b, c);
    if b.len() == 0 {
        assert(a.push(c) + b =~= a.push(c));
        assert(a.push(c).drop_last() =~= a);
        assert(split_on(b, c) == seq![Seq::<char>::empty()]);
        assert(split_on(a, c).push(Seq::<char>::empty()) =~= split_on(a, c) + split_on(b, c));
    } else {
        let b2 = b.drop_last();
        let x = b.last();
        lemma_split_concat(a, b2, c);
        crate::text::lemma_split_on_len(b2, c);
        let whole = a.push(c) + b;
        assert(whole.drop_last() =~= a.push(c) + b2);
        assert(whole.last() == x);
        let prev = split_on(a.push(c) + b2, c);
        let sa = split_on(a, c);
        let sb2 = split_on(b2, c);
        assert(prev == sa + sb2);
        if x == c {
            assert(split_on(b, c) == sb2.push(Seq::<char>::empty()));
            assert(prev.push(Seq::<char>::empty()) =~= sa + sb2.push(Seq::<char>::empty()));
        } else {
            assert(split_on(b, c) == sb2.drop_last().push(sb2.last().push(x)));
            assert(prev.last() == sb2.last());
            assert(prev.drop_last() =~= sa + sb2.drop_last());
            assert(prev.drop_last().push(prev.last().push(x)) =~= sa + sb2.drop_last().push(sb2.last().push(x)));
        }
    }
}

/// Keeping distributes over concatenation.
pub proof fn lemma_kept_concat(x: Seq<Seq<char>>, y: Seq<Seq<char>>)
    ensures
        kept(x + y) == kept(x) + kept(y),
    decreases y.len(),
{
    if y.len() == 0 {
        assert(x + y =~= x);
        assert(kept(x) + kept(y) =~= kept(x));
    } else {
        lemma_kept_concat(x, y.drop_last());
        assert((x + y).drop_last() =~= x + y.drop_last());
        assert((x + y).last() == y.last());
        if is_kept(y.last()) {
            assert(kept(x) + kept(y.drop_last()).push(y.last()) =~= (kept(x) + kept(y.drop_last())).push(y.last()));
        }
    }
}

/// All the pieces are names.
pub open spec fn all_kept(pieces: Seq<Seq<char>>) -> bool {
    forall|i: int| 0 <= i < pieces.len() ==> is_kept(#[trigger] pieces[i])
}

/// None of the pieces is a name.
pub open spec fn none_kept(pieces: Seq<Seq<char>>) -> bool {
    forall|i: int| 0 <= i < pieces.len() ==> !is_kept(#[trigger] pieces[i])
}

/// Pieces that are all kept stay as they are; none is kept exactly when no piece is.
pub proof fn lemma_kept_all(pieces: Seq<Seq<char>>)
    ensures
        all_kept(pieces) ==> kept(pieces) == pieces,
        none_kept(pieces) <==> kept(pieces).len() == 0,
    decreases pieces.len(),
{
    if pieces.len() > 0 {
        lemma_kept_all(pieces.drop_last());
        assert(pieces.drop_last().push(pieces.last()) =~= pieces);
        if none_kept(pieces.drop_last()) && !is_kept(pieces.last()) {
            assert forall|i: int| 0 <= i < pieces.len() implies !is_kept(#[trigger] pieces[i]) by {
                if i < pieces.len() - 1 {
                    assert(pieces[i] == pieces.drop_last()[i]);
                }
            }
        }
        if none_kept(pieces) {
            assert forall|i: int| 0 <= i < pieces.drop_last().len() implies !is_kept(#[trigger] pieces.drop_last()[i]) by {
                assert(pieces.drop_last()[i] == pieces[i]);
            }
            assert(!is_kept(pieces[pieces.len() - 1]));
        }
        if all_kept(pieces) {
            assert forall|i: int| 0 <= i < pieces.drop_last().len() implies is_kept(#[trigger] pieces.drop_last()[i]) by {
                assert(pieces.drop_last()[i] == pieces[i]);
            }
            assert(is_kept(pieces[pieces.len() - 1]));
        }
        lemma_kept_len(pieces);
    } else {
        assert(kept(pieces) =~= pieces);
    }
}

/// The number of kept pieces, counted from the first piece.
pub proof fn lemma_kept_first(x: Seq<Seq<char>>)
    requires
        x.len() > 0,
    ensures
        kept(x).len() == (if is_kept(x[0]) { 1int } else { 0int }) + kept(x.drop_first()).len(),
{
    assert(x =~= seq![x[0]] + x.drop_first());
    lemma_kept_concat(seq![x[0]], x.drop_first());
    let one = seq![x[0]];
    assert(one.drop_last() =~= Seq::<Seq<char>>::empty());
    assert(one.last() == x[0]);
    assert(kept(one.drop_last()).len() == 0);
    assert(kept(one).len() == if is_kept(x[0]) { 1int } else { 0int });
}

/// After all the names of `x`, what is left of `x` holds no name, and what
/// follows `x` comes after it unchanged.
pub proof fn lemma_after_all_kept(x: Seq<Seq<char>>, y: Seq<Seq<char>>)
    requires
        kept(x).len() >= 1,
    ensures
        after_kept(x + y, kept(x).len()) == after_kept(x, kept(x).len()) + y,
        none_kept(after_kept(x, kept(x).len())),
    decreases x.len(),
{
    let n: nat = kept(x).len();
    lemma_kept_len(x);
    lemma_kept_first(x);
    let x2 = x.drop_first();
    assert((x + y)[0] == x[0]);
    assert((x + y).drop_first() =~= x2 + y);
    if is_kept(x[0]) {
        if kept(x2).len() == 0 {
            lemma_kept_all(x2);
            assert(after_kept(x2 + y, 0) == x2 + y);
            assert(after_kept(x2, 0) == x2);
        } else {
            lemma_after_all_kept(x2, y);
        }
    } else {
        lemma_after_all_kept(x2, y);
    }
}

/// Trimming the head skips leading pieces that are not kept.
pub proof fn lemma_trim_head_skips(u: Seq<Seq<char>>, r: Seq<Seq<char>>)
    requires
        none_kept(u),
        r.len() > 0,
        is_kept(r[0]),
    ensures
        trim_head(u + r) == r,
    decreases u.len(),
{
    if u.len() == 0 {
        assert(u + r =~= r);
    } else {
        assert((u + r)[0] == u[0]);
        assert((u + r).drop_first() =~= u.drop_first() + r);
        assert forall|i: int| 0 <= i < u.drop_first().len() implies !is_kept(#[trigger] u.drop_first()[i]) by {
            assert(u.drop_first()[i] == u[i + 1]);
        }
        lemma_trim_head_skips(u.drop_first(), r);
    }
}

/// A text that does not begin with the separator has a non-empty first piece.
pub proof fn lemma_first_piece_named(s: Seq<char>, c: char)
    requires
        s.len() > 0,
        s[0] != c,
    ensures
        split_on(s, c)[0].len() > 0,
    decreases s.len(),
{
    crate::text::lemma_split_on_len(s, c);
    let prev = split_on(s.drop_last(), c);
    if s.len() == 1 {
        assert(s.drop_last() =~= Seq::<char>::empty());
        assert(prev == seq![Seq::<char>::empty()]);
        assert(split_on(s, c) == prev.drop_last().push(prev.last().push(s.last())));
        assert(split_on(s, c)[0] == prev.last().push(s.last()));
    } else {
        lemma_first_piece_named(s.drop_last(), c);
        crate::text::lemma_split_on_len(s.drop_last(), c);
        if s.last() == c {
            assert(split_on(s, c)[0] == prev[0]);
        } else if prev.len() > 1 {
            assert(split_on(s, c)[0] == prev[0]);
        } else {
            assert(split_on(s, c)[0] == prev.last().push(s.last()));
        }
    }
}

// ---------------------------------------------------------------------------
// Executable functions
// ---------------------------------------------------------------------------

fn is_kept_piece(piece: &Vec<char>) -> (b: bool)
    ensures
        b == is_kept(piece@),
{
    let r = !(piece.len() == 0 || (piece.len() == 1 && piece[0] == '.'));
    proof {
        if piece@.len() == 1 && piece@[0] == '.' {
            assert(piece@ =~= seq!['.']);
        }
        if piece@ == seq!['.'] {
            assert(piece@.len() == 1);
        }
    }
    r
}

/// The pieces of `pieces` that give components.
fn kept_pieces(pieces: &Vec<Vec<char>>) -> (r: Vec<Vec<char>>)
    ensures
        views(r@) == kept(views(pieces@)),
{
    let mut r: Vec<Vec<char>> = Vec::new();
    let mut i: usize = 0;
    while i < pieces.len()
        invariant
            i <= pieces@.len(),
            views(r@) == kept(views(pieces@).take(i as int)),
        decreases pieces@.len() - i,
    {
        let ghost before = r@;
        assert(views(pieces@).take(i + 1).drop_last() =~= views(pieces@).take(i as int));
        if is_kept_piece(&pieces[i]) {
            r.push(pieces[i].clone());
            assert(views(r@) =~= views(before).push(pieces@[i as int]@));
        }
        i = i + 1;
    }
    assert(views(pieces@).take(pieces@.len() as int) =~= views(pieces@));
    r
}

/// The text made of the single character `c`.
pub fn one_char(c: char) -> (v: Vec<char>)
    ensures
        v@ == seq![c],
{
    let mut v: Vec<char> = Vec::new();
    v.push(c);
    assert(v@ =~= seq![c]);
    v
}

fn rooted(p: &Vec<char>) -> (b: bool)
    ensures
        b == is_rooted(p@),
{
    p.len() > 0 && p[0] == '/'
}

fn cur_dir(p: &Vec<char>, pieces: &Vec<Vec<char>>) -> (b: bool)
    requires
        views(pieces@) == split_on(p@, '/'),
    ensures
        b == has_cur_dir(p@),
{
    proof {
        crate::text::lemma_split_on_len(p@, '/');
    }
    let first = &pieces[0];
    let b = !rooted(p) && first.len() == 1 && first[0] == '.';
    proof {
        if first@.len() == 1 && first@[0] == '.' {
            assert(first@ =~= seq!['.']);
        }
    }
    b
}

/// The components of `p` (`Path::components`), written as texts.
pub fn path_components(p: &Vec<char>) -> (c: Vec<Vec<char>>)
    ensures
        views(c@) == components(p@),
{
    let pieces = split(p, '/');
    let body = kept_pieces(&pieces);
    let mut c: Vec<Vec<char>> = Vec::new();
    if rooted(p) {
        c.push(one_char('/'));
    } else if cur_dir(p, &pieces) {
        c.push(one_char('.'));
    }
    let ghost lead = views(c@);
    proof {
        if is_rooted(p@) {
            assert(lead =~= seq![seq!['/']]);
        } else if has_cur_dir(p@) {
            assert(lead =~= seq![seq!['.']]);
        } else {
            assert(lead =~= Seq::<Seq<char>>::empty());
        }
    }
    let mut i: usize = 0;
    while i < body.len()
        invariant
            i <= body@.len(),
            views(c@) == lead + views(body@).take(i as int),
        decreases body@.len() - i,
    {
        let ghost before = c@;
        c.push(body[i].clone());
        assert(views(c@) =~= views(before).push(body@[i as int]@));
        i = i + 1;
        assert(views(c@) =~= lead + views(body@).take(i as int));
    }
    assert(views(body@).take(body@.len() as int) =~= views(body@));
    assert(views(c@) =~= components(p@));
    c
}

/// The pieces `v[a..b]`.
fn piece_range(v: &Vec<Vec<char>>, a: usize, b: usize) -> (r: Vec<Vec<char>>)
    requires
        a <= b <= v@.len(),
    ensures
        views(r@) == views(v@).subrange(a as int, b as int),
{
    let mut r: Vec<Vec<char>> = Vec::new();
    let mut k: usize = a;
    while k < b
        invariant
            a <= k <= b <= v@.len(),
            views(r@) == views(v@).subrange(a as int, k as int),
        decreases b - k,
    {
        let ghost before = r@;
        r.push(v[k].clone());
        assert(views(r@) =~= views(before).push(v@[k as int]@));
        k = k + 1;
        assert(views(r@) =~= views(v@).subrange(a as int, k as int));
    }
    r
}

proof fn lemma_trim_head_skip(s: Seq<Seq<char>>, a: int)
    requires
        0 <= a < s.len(),
        !is_kept(s[a]),
    ensures
        trim_head(s.skip(a)) == trim_head(s.skip(a + 1)),
{
    assert(s.skip(a).drop_first() =~= s.skip(a + 1));
}

proof fn lemma_trim_tail_take(s: Seq<Seq<char>>, b: int)
    requires
        0 < b <= s.len(),
        !is_kept(s[b - 1]),
    ensures
        trim_tail(s.take(b)) == trim_tail(s.take(b - 1)),
{
    assert(s.take(b).drop_last() =~= s.take(b - 1));
}

/// The pieces of `v` from `from` on, without the leading and trailing pieces
/// that give no component.
fn trimmed_pieces(v: &Vec<Vec<char>>, from: usize) -> (r: Vec<Vec<char>>)
    requires
        from <= v@.len(),
    ensures
        views(r@) == trim_tail(trim_head(views(v@).skip(from as int))),
{
    let ghost s = views(v@);
    let mut a: usize = from;
    while a < v.len() && !is_kept_piece(&v[a])
        invariant
            from <= a <= v@.len(),
            s == views(v@),
            trim_head(s.skip(from as int)) == trim_head(s.skip(a as int)),
        decreases v@.len() - a,
    {
        proof {
            lemma_trim_head_skip(s, a as int);
        }
        a = a + 1;
    }
    proof {
        if a < v@.len() {
            assert(s.skip(a as int)[0] == s[a as int]);
        }
    }
    let mut b: usize = v.len();
    let ghost t = s.skip(a as int);
    assert(t.take(t.len() as int) =~= t);
    while b > a && !is_kept_piece(&v[b - 1])
        invariant
            a <= b <= v@.len(),
            s == views(v@),
            t == s.skip(a as int),
            trim_tail(t) == trim_tail(t.take(b - a)),
        decreases b,
    {
        proof {
            lemma_trim_tail_take(t, b - a);
        }
        b = b - 1;
    }
    proof {
        if b > a {
            assert(t.take(b - a).last() == s[b - 1]);
        }
        assert(t.take(b - a) =~= s.subrange(a as int, b as int));
    }
    piece_range(v, a, b)
}

/// The text of a front part of a path (see `front_text`).
fn front_text_of(front: &Vec<Vec<char>>, is_root: bool, cur: bool) -> (t: Vec<char>)
    requires
        (is_root || cur) ==> front@.len() >= 1,
    ensures
        t@ == front_text(views(front@), is_root, cur),
{
    let ghost f = views(front@);
    if is_root {
        let tail = trimmed_tail_from(front, 1);
        if tail.len() == 0 {
            one_char('/')
        } else {
            let mut all: Vec<Vec<char>> = Vec::new();
            all.push(Vec::new());
            let all2 = append_pieces(all, &tail);
            assert(views(all2@) =~= seq![Seq::<char>::empty()] + trim_tail(f.skip(1)));
            join(&all2, '/')
        }
    } else if cur {
        let tail = trimmed_tail_from(front, 1);
        let mut all: Vec<Vec<char>> = Vec::new();
        all.push(one_char('.'));
        let all2 = append_pieces(all, &tail);
        assert(views(all2@) =~= seq![seq!['.']] + trim_tail(f.skip(1)));
        join(&all2, '/')
    } else {
        let tail = trimmed_tail_from(front, 0);
        assert(f.skip(0) =~= f);
        join(&tail, '/')
    }
}

/// The pieces `a` followed by the pieces `b`.
fn append_pieces(a: Vec<Vec<char>>, b: &Vec<Vec<char>>) -> (r: Vec<Vec<char>>)
    ensures
        views(r@) == views(a@) + views(b@),
{
    let mut r = a;
    let ghost start = views(r@);
    let mut k: usize = 0;
    while k < b.len()
        invariant
            k <= b@.len(),
            views(r@) == start + views(b@).take(k as int),
        decreases b@.len() - k,
    {
        let ghost before = r@;
        r.push(b[k].clone());
        assert(views(r@) =~= views(before).push(b@[k as int]@));
        k = k + 1;
        assert(views(r@) =~= start + views(b@).take(k as int));
    }
    assert(views(b@).take(b@.len() as int) =~= views(b@));
    r
}

/// The pieces of `v` from `from` on, without the trailing pieces that give no component.
fn trimmed_tail_from(v: &Vec<Vec<char>>, from: usize) -> (r: Vec<Vec<char>>)
    requires
        from <= v@.len(),
    ensures
        views(r@) == trim_tail(views(v@).skip(from as int)),
{
    let ghost s = views(v@);
    let mut b: usize = v.len();
    let ghost t = s.skip(from as int);
    assert(t.take(t.len() as int) =~= t);
    while b > from && !is_kept_piece(&v[b - 1])
        invariant
            from <= b <= v@.len(),
            s == views(v@),
            t == s.skip(from as int),
            trim_tail(t) == trim_tail(t.take(b - from)),
        decreases b,
    {
        proof {
            lemma_trim_tail_take(t, b - from);
        }
        b = b - 1;
    }
    proof {
        if b > from {
            assert(t.take(b - from).last() == s[b - 1]);
        }
        assert(t.take(b - from) =~= s.subrange(from as int, b as int));
    }
    piece_range(v, from, b)
}

fn is_normal_component(c: &Vec<char>) -> (b: bool)
    ensures
        b == is_normal(c@),
{
    let root = one_char('/');
    let dot = one_char('.');
    let mut dots = one_char('.');
    dots.push('.');
    assert(dots@ =~= seq!['.', '.']);
    !same_chars(c, &root) && !same_chars(c, &dot) && !same_chars(c, &dots)
}

/// The final component of `p` if it is a normal one (`Path::file_name`).
pub fn path_file_name(p: &Vec<char>) -> (r: Option<Vec<char>>)
    ensures
        r matches Some(n) ==> file_name(p@) == Some(n@),
        r is None ==> file_name(p@) is None,
{
    let c = path_components(p);
    let n: usize = c.len();
    if n > 0 && is_normal_component(&c[n - 1]) {
        assert(views(c@).last() == c@[n - 1]@);
        Some(c[n - 1].clone())
    } else {
        proof {
            if n > 0 {
                assert(views(c@).last() == c@[n - 1]@);
            }
        }
        None
    }
}

/// `p` with `q` appended (`Path::join`).
pub fn path_join(p: &Vec<char>, q: &Vec<char>) -> (r: Vec<char>)
    ensures
        r@ == join_paths(p@, q@),
{
    if rooted(q) {
        return q.clone();
    }
    let mut r = p.clone();
    if p.len() > 0 && p[p.len() - 1] != '/' {
        r.push('/');
    }
    let ghost mid = r@;
    let mut k: usize = 0;
    while k < q.len()
        invariant
            k <= q@.len(),
            r@ == mid + q@.take(k as int),
        decreases q@.len() - k,
    {
        r.push(q[k]);
        k = k + 1;
        assert(r@ =~= mid + q@.take(k as int));
    }
    assert(q@.take(q@.len() as int) =~= q@);
    r
}

/// A text that begins with the separator has an empty first piece, and at least two.
pub proof fn lemma_split_first_empty(s: Seq<char>, c: char)
    requires
        s.len() > 0,
        s[0] == c,
    ensures
        split_on(s, c).len() >= 2,
        split_on(s, c)[0].len() == 0,
    decreases s.len(),
{
    let prev = split_on(s.drop_last(), c);
    if s.len() == 1 {
        assert(s.drop_last() =~= Seq::<char>::empty());
        assert(prev == seq![Seq::<char>::empty()]);
        assert(s.last() == c);
        assert(split_on(s, c) == prev.push(Seq::<char>::empty()));
    } else {
        lemma_split_first_empty(s.drop_last(), c);
        if s.last() == c {
            assert(split_on(s, c) == prev.push(Seq::<char>::empty()));
        } else {
            assert(split_on(s, c) == prev.drop_last().push(prev.last().push(s.last())));
            assert(split_on(s, c)[0] == prev[0]);
        }
    }
}

/// The index from which the pieces after the `n`-th component-giving piece start.
fn after_kept_start(v: &Vec<Vec<char>>, n: usize) -> (i: usize)
    ensures
        i <= v@.len(),
        after_kept(views(v@), n as nat) == views(v@).skip(i as int),
{
    let ghost s = views(v@);
    let mut i: usize = 0;
    let mut left: usize = n;
    assert(s.skip(0) =~= s);
    while left > 0 && i < v.len()
        invariant
            i <= v@.len(),
            s == views(v@),
            after_kept(s, n as nat) == after_kept(s.skip(i as int), left as nat),
        decreases v@.len() - i,
    {
        assert(s.skip(i as int).drop_first() =~= s.skip(i + 1));
        assert(s.skip(i as int)[0] == s[i as int]);
        if is_kept_piece(&v[i]) {
            left = left - 1;
        }
        i = i + 1;
    }
    i
}

/// What is left of `p` after the components of `base` (`Path::strip_prefix`).
pub fn path_strip_prefix(p: &Vec<char>, base: &Vec<char>) -> (r: Option<Vec<char>>)
    ensures
        r matches Some(x) ==> strip_prefix(p@, base@) == Some(x@),
        r is None ==> strip_prefix(p@, base@) is None,
{
    let cp = path_components(p);
    let cb = path_components(base);
    if cb.len() > cp.len() {
        return None;
    }
    let mut i: usize = 0;
    while i < cb.len()
        invariant
            cb@.len() <= cp@.len(),
            i <= cb@.len(),
            views(cp@) == components(p@),
            views(cb@) == components(base@),
            forall|j: int| 0 <= j < i ==> cp@[j]@ == cb@[j]@,
        decreases cb@.len() - i,
    {
        if !same_chars(&cp[i], &cb[i]) {
            assert(components(p@).take(cb@.len() as int)[i as int] == cp@[i as int]@);
            return None;
        }
        i = i + 1;
    }
    assert(components(p@).take(cb@.len() as int) =~= components(base@));
    let pieces = split(p, '/');
    proof {
        crate::text::lemma_split_on_len(p@, '/');
    }
    let is_root = rooted(p);
    let cur = cur_dir(p, &pieces);
    if cb.len() == 0 {
        return Some(front_text_of(&pieces, is_root, cur));
    }
    let lead: usize = if is_root || cur { 1 } else { 0 };
    let start: usize = if cb.len() <= lead {
        1
    } else {
        after_kept_start(&pieces, cb.len() - lead)
    };
    let rest = trimmed_pieces(&pieces, start);
    Some(join(&rest, '/'))
}

/// The index of the last piece that gives a component, if there is one.
fn last_kept(v: &Vec<Vec<char>>) -> (r: Option<usize>)
    ensures
        r matches Some(j) ==> j as int == last_kept_index(views(v@)),
        r is None ==> last_kept_index(views(v@)) == -1,
{
    let ghost s = views(v@);
    let mut b: usize = v.len();
    assert(s.take(s.len() as int) =~= s);
    while b > 0
        invariant
            b <= v@.len(),
            s == views(v@),
            last_kept_index(s) == last_kept_index(s.take(b as int)),
        decreases b,
    {
        assert(s.take(b as int).last() == s[b - 1]);
        if is_kept_piece(&v[b - 1]) {
            return Some(b - 1);
        }
        assert(s.take(b as int).drop_last() =~= s.take(b - 1));
        b = b - 1;
    }
    None
}

/// `p` without its final component (`Path::parent`).
pub fn path_parent(p: &Vec<char>) -> (r: Option<Vec<char>>)
    ensures
        r matches Some(x) ==> parent(p@) == Some(x@),
        r is None ==> parent(p@) is None,
{
    let pieces = split(p, '/');
    proof {
        crate::text::lemma_split_on_len(p@, '/');
        lemma_kept_len(views(pieces@));
    }
    let is_root = rooted(p);
    let cur = cur_dir(p, &pieces);
    match last_kept(&pieces) {
        None => {
            if cur {
                Some(Vec::new())
            } else {
                None
            }
        },
        Some(j) => {
            proof {
                if is_root {
                    lemma_split_first_empty(p@, '/');
                }
                assert(is_kept(views(pieces@)[j as int]));
                if is_root || cur {
                    assert(!is_kept(views(pieces@)[0]));
                    assert(j >= 1);
                }
            }
            let front = piece_range(&pieces, 0, j);
            assert(views(pieces@).subrange(0, j as int) =~= views(pieces@).take(j as int));
            Some(front_text_of(&front, is_root, cur))
        },
    }
}

} // verus!
