use vstd::prelude::*;

verus! {

broadcast use vstd::string::group_string_axioms;

// ---------------------------------------------------------------------------
// Specifications
// ---------------------------------------------------------------------------

/// `s` split at every occurrence of `sep`: always at least one piece, and
/// `k` separators give `k + 1` pieces (as `str::split` does).
pub open spec fn split_on(s: Seq<char>, sep: char) -> Seq<Seq<char>>
    decreases s.len(),
{
    if s.len() == 0 {
        seq![Seq::<char>::empty()]
    } else {
        let prev = split_on(s.drop_last(), sep);
        if s.last() == sep {
            prev.push(Seq::<char>::empty())
        } else {
            prev.drop_last().push(prev.last().push(s.last()))
        }
    }
}

/// The pieces `parts` glued together with `sep` between neighbours.
pub open spec fn join_with(parts: Seq<Seq<char>>, sep: char) -> Seq<char>
    decreases parts.len(),
{
    if parts.len() == 0 {
        Seq::<char>::empty()
    } else if parts.len() == 1 {
        parts[0]
    } else {
        join_with(parts.drop_last(), sep).push(sep) + parts.last()
    }
}

/// A line taken off before a `'\n'` loses one trailing `'\r'`.
pub open spec fn strip_cr(line: Seq<char>) -> Seq<char> {
    if line.len() > 0 && line.last() == '\r' {
        line.drop_last()
    } else {
        line
    }
}

/// Each piece with `strip_cr` applied.
pub open spec fn strip_all(ls: Seq<Seq<char>>) -> Seq<Seq<char>> {
    ls.map_values(|l: Seq<char>| strip_cr(l))
}

/// The lines of `s` as `str::lines` gives them: split at `'\n'`, each line
/// that ended with `'\n'` loses one trailing `'\r'`, and a final empty piece
/// (after a closing `'\n'`, or of an empty text) is no line.
pub open spec fn lines_of(s: Seq<char>) -> Seq<Seq<char>> {
    let parts = split_on(s, '\n');
    let ended = strip_all(parts.drop_last());
    if parts.last().len() == 0 {
        ended
    } else {
        ended.push(parts.last())
    }
}

/// The Unicode `White_Space` property, which `char::is_whitespace` tests.
pub open spec fn is_white_space(c: char) -> bool {
    let n: u32 = c as u32;
    ||| 0x9 <= n <= 0xd
    ||| n == 0x20
    ||| n == 0x85
    ||| n == 0xa0
    ||| n == 0x1680
    ||| 0x2000 <= n <= 0x200a
    ||| n == 0x2028
    ||| n == 0x2029
    ||| n == 0x202f
    ||| n == 0x205f
    ||| n == 0x3000
}

/// `s` without its leading white space (`str::trim_start`).
pub open spec fn trim_start(s: Seq<char>) -> Seq<char>
    decreases s.len(),
{
    if s.len() > 0 && is_white_space(s[0]) {
        trim_start(s.drop_first())
    } else {
        s
    }
}

/// `s` without its trailing white space (`str::trim_end`).
pub open spec fn trim_end(s: Seq<char>) -> Seq<char>
    decreases s.len(),
{
    if s.len() > 0 && is_white_space(s.last()) {
        trim_end(s.drop_last())
    } else {
        s
    }
}

/// `s` without leading and trailing white space (`str::trim`).
pub open spec fn trim(s: Seq<char>) -> Seq<char> {
    trim_end(trim_start(s))
}

/// `s` without all the copies of `c` at its front (`str::trim_start_matches`).
pub open spec fn trim_start_char(s: Seq<char>, c: char) -> Seq<char>
    decreases s.len(),
{
    if s.len() > 0 && s[0] == c {
        trim_start_char(s.drop_first(), c)
    } else {
        s
    }
}

/// `s` begins with `p`.
pub open spec fn starts_with(s: Seq<char>, p: Seq<char>) -> bool {
    p.len() <= s.len() && s.take(p.len() as int) == p
}

/// The character sequences held by a vector of character vectors.
pub open spec fn views(v: Seq<Vec<char>>) -> Seq<Seq<char>> {
    v.map_values(|p: Vec<char>| p@)
}

// ---------------------------------------------------------------------------
// Lemmas
// ---------------------------------------------------------------------------

/// A split gives at least one piece.
pub proof fn lemma_split_on_len(s: Seq<char>, sep: char)
    ensures
        split_on(s, sep).len() >= 1,
    decreases s.len(),
{
    if s.len() > 0 {
        lemma_split_on_len(s.drop_last(), sep);
    }
}

/// Splitting at `sep` and gluing with `sep` gives the text back.
pub proof fn lemma_join_split(s: Seq<char>, sep: char)
    ensures
        join_with(split_on(s, sep), sep) == s,
    decreases s.len(),
{
    if s.len() > 0 {
        let prev = split_on(s.drop_last(), sep);
        lemma_join_split(s.drop_last(), sep);
        lemma_split_on_len(s.drop_last(), sep);
        if s.last() == sep {
            assert(prev.push(Seq::<char>::empty()).drop_last() == prev);
            assert(join_with(prev, sep).push(sep) + Seq::<char>::empty() =~= s);
        } else {
            let cur = prev.drop_last().push(prev.last().push(s.last()));
            if prev.len() == 1 {
                assert(join_with(prev, sep) == prev[0]);
                assert(cur[0] =~= s);
            } else {
                assert(cur.drop_last() == prev.drop_last());
                assert(join_with(prev, sep) == join_with(prev.drop_last(), sep).push(sep) + prev.last());
                assert(join_with(cur, sep) =~= join_with(prev, sep).push(s.last()));
                assert(s.drop_last().push(s.last()) =~= s);
            }
        }
    }
}

/// `trim_start` gives a suffix that does not begin with white space.
pub proof fn lemma_trim_start_suffix(s: Seq<char>)
    ensures
        trim_start(s).len() <= s.len(),
        trim_start(s) == s.skip(s.len() - trim_start(s).len()),
        trim_start(s).len() > 0 ==> !is_white_space(trim_start(s)[0]),
    decreases s.len(),
{
    if s.len() > 0 && is_white_space(s[0]) {
        lemma_trim_start_suffix(s.drop_first());
        assert(s.drop_first().skip(s.drop_first().len() - trim_start(s).len())
            =~= s.skip(s.len() - trim_start(s).len()));
    } else {
        assert(s.skip(0) =~= s);
    }
}

/// `trim_end` gives a prefix that does not end with white space.
pub proof fn lemma_trim_end_prefix(s: Seq<char>)
    ensures
        trim_end(s).len() <= s.len(),
        trim_end(s) == s.take(trim_end(s).len() as int),
        trim_end(s).len() > 0 ==> !is_white_space(trim_end(s).last()),
    decreases s.len(),
{
    if s.len() > 0 && is_white_space(s.last()) {
        lemma_trim_end_prefix(s.drop_last());
        assert(s.drop_last().take(trim_end(s).len() as int) =~= s.take(trim_end(s).len() as int));
    } else {
        assert(s.take(s.len() as int) =~= s);
    }
}

/// A trimmed text neither begins nor ends with white space.
pub proof fn lemma_trim_bounds(s: Seq<char>)
    ensures
        trim(s).len() > 0 ==> !is_white_space(trim(s)[0]) && !is_white_space(trim(s).last()),
{
    let a = trim_start(s);
    lemma_trim_start_suffix(s);
    lemma_trim_end_prefix(a);
    if trim(s).len() > 0 {
        assert(trim(s)[0] == a[0]);
    }
}

// ---------------------------------------------------------------------------
// Executable functions
// ---------------------------------------------------------------------------

/// Appends one character to a `String` (`String::push`).
/// Claims that the characters of the string afterwards are the old ones followed by `c`.
#[verifier::external_body]
pub(crate) fn push_char(s: &mut String, c: char)
    ensures
        final(s)@ == old(s)@.push(c),
{
    s.push(c);
}

/// Takes the last character off a `String` (`String::pop`).
/// Claims what its documentation says: for a non-empty string the last
/// character is removed and returned; an empty string stays and gives `None`.
#[verifier::external_body]
pub(crate) fn pop_char(s: &mut String) -> (r: Option<char>)
    ensures
        old(s)@.len() > 0 ==> final(s)@ == old(s)@.drop_last() && r == Some(old(s)@.last()),
        old(s)@.len() == 0 ==> final(s)@ == old(s)@ && r is None,
{
    s.pop()
}

/// The characters of `s`, in order.
pub fn chars_of(s: &str) -> (v: Vec<char>)
    ensures
        v@ == s@,
{
    let mut v: Vec<char> = Vec::new();
    for c in it: s.chars()
        invariant
            v@ == it.seq().take(it.index() as int),
            it.seq() == s@,
    {
        v.push(c);
    }
    v
}

/// A `String` made of the characters `v`, in order.
pub fn string_of(v: &[char]) -> (s: String)
    ensures
        s@ == v@,
{
    let mut s = String::new();
    let mut i: usize = 0;
    while i < v.len()
        invariant
            i <= v@.len(),
            s@ == v@.take(i as int),
        decreases v@.len() - i,
    {
        push_char(&mut s, v[i]);
        assert(v@.take(i as int).push(v@[i as int]) =~= v@.take(i + 1));
        i = i + 1;
    }
    assert(v@.take(v@.len() as int) =~= v@);
    s
}

/// Whether `c` is white space (`char::is_whitespace`).
pub fn white_space(c: char) -> (b: bool)
    ensures
        b == is_white_space(c),
{
    let n: u32 = c as u32;
    (0x9 <= n && n <= 0xd) || n == 0x20 || n == 0x85 || n == 0xa0 || n == 0x1680 || (0x2000 <= n
        && n <= 0x200a) || n == 0x2028 || n == 0x2029 || n == 0x202f || n == 0x205f || n == 0x3000
}

/// The pieces of `s` between occurrences of `sep`.
pub fn split(s: &Vec<char>, sep: char) -> (parts: Vec<Vec<char>>)
    ensures
        views(parts@) == split_on(s@, sep),
{
    let mut done: Vec<Vec<char>> = Vec::new();
    let mut cur: Vec<char> = Vec::new();
    let mut i: usize = 0;
    while i < s.len()
        invariant
            i <= s@.len(),
            split_on(s@.take(i as int), sep) == views(done@).push(cur@),
        decreases s@.len() - i,
    {
        let c = s[i];
        proof {
            assert(s@.take(i + 1).drop_last() =~= s@.take(i as int));
            lemma_split_on_len(s@.take(i as int), sep);
        }
        if c == sep {
            let piece = cur;
            done.push(piece);
            cur = Vec::new();
            assert(views(done@) =~= split_on(s@.take(i as int), sep));
        } else {
            cur.push(c);
            assert(split_on(s@.take(i as int), sep).drop_last() =~= views(done@));
        }
        i = i + 1;
        assert(split_on(s@.take(i as int), sep) =~= views(done@).push(cur@));
    }
    assert(s@.take(s@.len() as int) =~= s@);
    done.push(cur);
    done
}

/// The lines of `s` (`str::lines`).
pub fn lines(s: &Vec<char>) -> (ls: Vec<Vec<char>>)
    ensures
        views(ls@) == lines_of(s@),
{
    let parts = split(s, '\n');
    proof {
        lemma_split_on_len(s@, '\n');
    }
    let n: usize = parts.len();
    let mut out: Vec<Vec<char>> = Vec::new();
    let mut i: usize = 0;
    while i + 1 < n
        invariant
            n == parts@.len(),
            n >= 1,
            i + 1 <= n,
            views(parts@) == split_on(s@, '\n'),
            views(out@) == strip_all(views(parts@).take(i as int)),
        decreases n - i,
    {
        let mut line = parts[i].clone();
        let len: usize = line.len();
        if len > 0 && line[len - 1] == '\r' {
            line.pop();
        }
        assert(line@ == strip_cr(views(parts@)[i as int]));
        let ghost prev = out@;
        out.push(line);
        proof {
            let vp = views(parts@);
            assert(views(out@) =~= views(prev).push(line@));
            assert(vp.take(i + 1) =~= vp.take(i as int).push(vp[i as int]));
            assert(strip_all(vp.take(i + 1)) =~= strip_all(vp.take(i as int)).push(strip_cr(vp[i as int])));
        }
        i = i + 1;
    }
    assert(views(parts@).take(i as int) =~= views(parts@).drop_last());
    if parts[n - 1].len() > 0 {
        out.push(parts[n - 1].clone());
        assert(views(out@) =~= lines_of(s@));
    }
    out
}

/// `s` without leading and trailing white space.
pub fn trimmed(s: &Vec<char>) -> (t: Vec<char>)
    ensures
        t@ == trim(s@),
{
    let mut a: usize = 0;
    assert(s@.skip(0) =~= s@);
    while a < s.len() && white_space(s[a])
        invariant
            a <= s@.len(),
            trim_start(s@) == trim_start(s@.skip(a as int)),
        decreases s@.len() - a,
    {
        assert(s@.skip(a as int).drop_first() =~= s@.skip(a + 1));
        a = a + 1;
    }
    let mut b: usize = s.len();
    assert(trim_start(s@.skip(a as int)) == s@.skip(a as int)) by {
        if a < s@.len() {
            assert(s@.skip(a as int)[0] == s@[a as int]);
        }
    }
    while b > a && white_space(s[b - 1])
        invariant
            a <= b <= s@.len(),
            trim(s@) == trim_end(s@.subrange(a as int, b as int)),
        decreases b,
    {
        assert(s@.subrange(a as int, b as int).drop_last() =~= s@.subrange(a as int, b - 1));
        b = b - 1;
    }
    let mut t: Vec<char> = Vec::new();
    let mut k: usize = a;
    while k < b
        invariant
            a <= k <= b <= s@.len(),
            t@ == s@.subrange(a as int, k as int),
        decreases b - k,
    {
        t.push(s[k]);
        k = k + 1;
        assert(t@ =~= s@.subrange(a as int, k as int));
    }
    assert(trim_end(s@.subrange(a as int, b as int)) == s@.subrange(a as int, b as int)) by {
        if b > a {
            assert(s@.subrange(a as int, b as int).last() == s@[b - 1]);
        }
    }
    t
}

/// `s` without the copies of `c` at its front.
pub fn trimmed_start_char(s: &Vec<char>, c: char) -> (t: Vec<char>)
    ensures
        t@ == trim_start_char(s@, c),
{
    let mut a: usize = 0;
    assert(s@.skip(0) =~= s@);
    while a < s.len() && s[a] == c
        invariant
            a <= s@.len(),
            trim_start_char(s@, c) == trim_start_char(s@.skip(a as int), c),
        decreases s@.len() - a,
    {
        assert(s@.skip(a as int).drop_first() =~= s@.skip(a + 1));
        a = a + 1;
    }
    assert(trim_start_char(s@.skip(a as int), c) == s@.skip(a as int)) by {
        if a < s@.len() {
            assert(s@.skip(a as int)[0] == s@[a as int]);
        }
    }
    skip_from(s, a)
}

/// The characters of `s` from position `a` on.
pub fn skip_from(s: &Vec<char>, a: usize) -> (t: Vec<char>)
    requires
        a <= s@.len(),
    ensures
        t@ == s@.skip(a as int),
{
    let mut t: Vec<char> = Vec::new();
    let mut k: usize = a;
    while k < s.len()
        invariant
            a <= k <= s@.len(),
            t@ == s@.subrange(a as int, k as int),
        decreases s@.len() - k,
    {
        t.push(s[k]);
        k = k + 1;
        assert(t@ =~= s@.subrange(a as int, k as int));
    }
    t
}

/// Whether `s` begins with `p`.
pub fn has_prefix(s: &Vec<char>, p: &Vec<char>) -> (b: bool)
    ensures
        b == starts_with(s@, p@),
{
    if p.len() > s.len() {
        return false;
    }
    let mut i: usize = 0;
    while i < p.len()
        invariant
            p@.len() <= s@.len(),
            i <= p@.len(),
            forall|j: int| 0 <= j < i ==> s@[j] == p@[j],
        decreases p@.len() - i,
    {
        if s[i] != p[i] {
            assert(s@.take(p@.len() as int)[i as int] != p@[i as int]);
            return false;
        }
        i = i + 1;
    }
    assert(s@.take(p@.len() as int) =~= p@);
    true
}

/// Whether `a` and `b` hold the same characters.
pub fn same_chars(a: &Vec<char>, b: &Vec<char>) -> (r: bool)
    ensures
        r == (a@ == b@),
{
    if a.len() != b.len() {
        return false;
    }
    let r = has_prefix(a, b);
    assert(a@.take(b@.len() as int) =~= a@);
    r
}

/// The pieces `parts` glued together with `sep`.
pub fn join(parts: &Vec<Vec<char>>, sep: char) -> (s: Vec<char>)
    ensures
        s@ == join_with(views(parts@), sep),
{
    let mut s: Vec<char> = Vec::new();
    let mut i: usize = 0;
    while i < parts.len()
        invariant
            i <= parts@.len(),
            s@ == join_with(views(parts@).take(i as int), sep),
        decreases parts@.len() - i,
    {
        if i > 0 {
            s.push(sep);
        }
        let mut k: usize = 0;
        let ghost mid = s@;
        while k < parts[i].len()
            invariant
                i < parts@.len(),
                k <= parts@[i as int]@.len(),
                s@ == mid + parts@[i as int]@.take(k as int),
            decreases parts@[i as int]@.len() - k,
        {
            s.push(parts[i][k]);
            k = k + 1;
            assert(s@ =~= mid + parts@[i as int]@.take(k as int));
        }
        proof {
            let dv = views(parts@);
            assert(parts@[i as int]@.take(k as int) =~= dv[i as int]);
            assert(dv.take(i + 1).drop_last() =~= dv.take(i as int));
            if i == 0 {
                assert(s@ =~= dv.take(1)[0]);
            } else {
                assert(s@ =~= join_with(dv.take(i as int), sep).push(sep) + dv.take(i + 1).last());
            }
        }
        i = i + 1;
    }
    assert(views(parts@).take(parts@.len() as int) =~= views(parts@));
    s
}

} // verus!
