//! Byte-level path handling: the separator, reserved segment names,
//! lexicographic ordering of names, trimming of trailing separators and
//! splitting a path into its segments.

use vstd::prelude::*;

verus! {

/// The path separator byte, `/`.
pub const SEP: u8 = 47;

/// The byte `.`.
pub const DOT: u8 = 46;

/// The reserved segment `.`.
pub open spec fn dot_seg() -> Seq<u8> {
    seq![DOT]
}

/// The reserved segment `..`.
pub open spec fn dotdot_seg() -> Seq<u8> {
    seq![DOT, DOT]
}

/// A segment that is skipped during resolution: empty or `.`.
pub open spec fn seg_is_noop(s: Seq<u8>) -> bool {
    s.len() == 0 || s == dot_seg()
}

/// A proper name: not empty, not `.`, not `..`.
pub open spec fn seg_is_name(s: Seq<u8>) -> bool {
    !seg_is_noop(s) && s != dotdot_seg()
}

/// A name that a directory may hold: a proper name free of separators.
pub open spec fn valid_name(s: Seq<u8>) -> bool {
    seg_is_name(s) && !s.contains(SEP)
}

/// Strict lexicographic byte order, the order of directory entries.
pub open spec fn lex_lt(a: Seq<u8>, b: Seq<u8>) -> bool
    decreases a.len(),
{
    if b.len() == 0 {
        false
    } else if a.len() == 0 {
        true
    } else if a[0] < b[0] {
        true
    } else if a[0] > b[0] {
        false
    } else {
        lex_lt(a.drop_first(), b.drop_first())
    }
}

/// Two names are either equal or ordered one way.
pub proof fn lemma_lex_total(a: Seq<u8>, b: Seq<u8>)
    ensures
        lex_lt(a, b) || lex_lt(b, a) || a == b,
    decreases a.len(),
{
    if b.len() == 0 || a.len() == 0 {
        if a.len() == 0 && b.len() == 0 {
            assert(a =~= b);
        }
    } else if a[0] == b[0] {
        lemma_lex_total(a.drop_first(), b.drop_first());
        if a.drop_first() == b.drop_first() {
            assert(a.drop_first().len() == a.len() - 1);
            assert(b.drop_first().len() == b.len() - 1);
            assert(a.len() == b.len());
            assert forall|i: int| 0 <= i < a.len() implies a[i] == b[i] by {
                if i > 0 {
                    assert(a.drop_first()[i - 1] == b.drop_first()[i - 1]);
                }
            }
            assert(a =~= b);
        }
    }
}

/// The order is strict: it never holds both ways, nor on equals.
pub proof fn lemma_lex_asym(a: Seq<u8>, b: Seq<u8>)
    requires
        lex_lt(a, b),
    ensures
        !lex_lt(b, a),
        a != b,
    decreases a.len(),
{
    if a.len() != 0 && b.len() != 0 && a[0] == b[0] {
        lemma_lex_asym(a.drop_first(), b.drop_first());
        assert(a != b) by {
            if a == b {
                assert(a.drop_first() =~= b.drop_first());
            }
        }
    }
}

/// The order is transitive.
pub proof fn lemma_lex_trans(a: Seq<u8>, b: Seq<u8>, c: Seq<u8>)
    requires
        lex_lt(a, b),
        lex_lt(b, c),
    ensures
        lex_lt(a, c),
    decreases a.len(),
{
    if a.len() != 0 && b.len() != 0 && c.len() != 0 && a[0] == b[0] && b[0] == c[0] {
        lemma_lex_trans(a.drop_first(), b.drop_first(), c.drop_first());
    }
}

/// A path with its trailing separators removed.
pub open spec fn trim_seps(p: Seq<u8>) -> Seq<u8>
    decreases p.len(),
{
    if p.len() > 0 && p[p.len() - 1] == SEP {
        trim_seps(p.drop_last())
    } else {
        p
    }
}

/// Appending a separator does not change the trimmed path.
pub proof fn lemma_trim_push_sep(p: Seq<u8>)
    ensures
        trim_seps(p.push(SEP)) == trim_seps(p),
{
    assert(p.push(SEP).drop_last() =~= p);
}

/// The index of the first separator, or `-1` when there is none.
pub open spec fn first_sep(p: Seq<u8>) -> int
    decreases p.len(),
{
    if p.len() == 0 {
        -1
    } else if p[0] == SEP {
        0
    } else {
        let r = first_sep(p.drop_first());
        if r < 0 {
            -1
        } else {
            r + 1
        }
    }
}

proof fn lemma_first_sep_none(p: Seq<u8>)
    requires
        !p.contains(SEP),
    ensures
        first_sep(p) == -1,
    decreases p.len(),
{
    if p.len() > 0 {
        assert(p[0] != SEP);
        assert forall|i: int| 0 <= i < p.drop_first().len() implies
            p.drop_first()[i] != SEP by {
            assert(p[i + 1] != SEP);
        }
        lemma_first_sep_none(p.drop_first());
    }
}

proof fn lemma_first_sep_at(a: Seq<u8>, rest: Seq<u8>)
    requires
        !a.contains(SEP),
    ensures
        first_sep(a + seq![SEP] + rest) == a.len(),
    decreases a.len(),
{
    let p = a + seq![SEP] + rest;
    if a.len() == 0 {
        assert(p[0] == SEP);
    } else {
        assert(p[0] == a[0]);
        assert(a[0] != SEP);
        assert forall|i: int| 0 <= i < a.drop_first().len() implies
            a.drop_first()[i] != SEP by {
            assert(a[i + 1] != SEP);
        }
        assert(p.drop_first() =~= a.drop_first() + seq![SEP] + rest);
        lemma_first_sep_at(a.drop_first(), rest);
    }
}

/// The segments of a path: maximal runs between separators.  A path with
/// no separator is one segment; every separator ends a segment, so a
/// trailing separator yields a final empty segment.
pub open spec fn seg_split(p: Seq<u8>) -> Seq<Seq<u8>>
    decreases p.len(),
{
    let i = first_sep(p);
    if 0 <= i < p.len() {
        seq![p.take(i)] + seg_split(p.skip(i + 1))
    } else {
        seq![p]
    }
}

/// A separator-free path is a single segment.
pub proof fn lemma_seg_split_whole(p: Seq<u8>)
    requires
        !p.contains(SEP),
    ensures
        seg_split(p) == seq![p],
{
    lemma_first_sep_none(p);
}

/// Splitting starts with the run before the first separator.
pub proof fn lemma_seg_split_step(a: Seq<u8>, rest: Seq<u8>)
    requires
        !a.contains(SEP),
    ensures
        seg_split(a + seq![SEP] + rest) == seq![a] + seg_split(rest),
{
    let p = a + seq![SEP] + rest;
    lemma_first_sep_at(a, rest);
    assert(p.take(a.len() as int) =~= a);
    assert(p.skip(a.len() as int + 1) =~= rest);
}

/// The views of a list of byte vectors.
pub open spec fn seq_views(s: Seq<Vec<u8>>) -> Seq<Seq<u8>> {
    s.map_values(|v: Vec<u8>| v@)
}

/// Where the first separator sits: at `first_sep`, with none before it.
proof fn lemma_first_sep_props(p: Seq<u8>)
    requires
        0 <= first_sep(p),
    ensures
        first_sep(p) < p.len(),
        p[first_sep(p)] == SEP,
        forall|j: int| 0 <= j < first_sep(p) ==> p[j] != SEP,
    decreases p.len(),
{
    if p.len() > 0 && p[0] != SEP {
        lemma_first_sep_props(p.drop_first());
        assert forall|j: int| 0 <= j < first_sep(p) implies p[j] != SEP by {
            if j > 0 {
                assert(p.drop_first()[j - 1] != SEP);
            }
        }
        assert(p[first_sep(p)] == p.drop_first()[first_sep(p) - 1]);
    }
}

/// No segment contains a separator.
pub proof fn lemma_seg_split_no_sep(p: Seq<u8>)
    ensures
        forall|k: int| 0 <= k < seg_split(p).len() ==> !(#[trigger] seg_split(p)[k]).contains(SEP),
    decreases p.len(),
{
    let i = first_sep(p);
    if 0 <= i < p.len() {
        lemma_first_sep_props(p);
        lemma_seg_split_no_sep(p.skip(i + 1));
        assert forall|k: int| 0 <= k < seg_split(p).len() implies
            !(#[trigger] seg_split(p)[k]).contains(SEP) by {
            if k == 0 {
                assert(seg_split(p)[0] == p.take(i));
                if p.take(i).contains(SEP) {
                    let j = choose|j: int| 0 <= j < p.take(i).len() && p.take(i)[j] == SEP;
                    assert(p[j] == SEP);
                }
            } else {
                assert(seg_split(p)[k] == seg_split(p.skip(i + 1))[k - 1]);
            }
        }
    } else {
        if 0 <= i {
            lemma_first_sep_props(p);
        }
        if p.contains(SEP) {
            let j = choose|j: int| 0 <= j < p.len() && p[j] == SEP;
            lemma_first_sep_found(p, j);
        }
        assert(seg_split(p) == seq![p]);
        assert forall|k: int| 0 <= k < seg_split(p).len() implies
            !(#[trigger] seg_split(p)[k]).contains(SEP) by {
            assert(seg_split(p)[k] == p);
        }
    }
}

/// A separator in the path means `first_sep` finds one.
proof fn lemma_first_sep_found(p: Seq<u8>, j: int)
    requires
        0 <= j < p.len(),
        p[j] == SEP,
    ensures
        0 <= first_sep(p),
    decreases p.len(),
{
    if p[0] != SEP {
        assert(p.drop_first()[j - 1] == SEP);
        lemma_first_sep_found(p.drop_first(), j - 1);
    }
}

/// Split a path into its segments.
pub fn split_path(p: &Vec<u8>) -> (r: Vec<Vec<u8>>)
    ensures
        seq_views(r@) == seg_split(p@),
        r@.len() > 0,
{
    let mut r: Vec<Vec<u8>> = Vec::new();
    let mut cur: Vec<u8> = Vec::new();
    let mut i: usize = 0;
    proof {
        assert(cur@ + p@.skip(0) =~= p@);
        assert(seq_views(r@) + seg_split(p@) =~~= seg_split(p@));
    }
    while i < p.len()
        invariant
            i <= p@.len(),
            !cur@.contains(SEP),
            seg_split(p@) == seq_views(r@) + seg_split(cur@ + p@.skip(i as int)),
        decreases p@.len() - i,
    {
        let b = p[i];
        if b == SEP {
            proof {
                assert(cur@ + p@.skip(i as int) =~= cur@ + seq![SEP] + p@.skip(i + 1));
                lemma_seg_split_step(cur@, p@.skip(i + 1));
            }
            let ghost old_r = seq_views(r@);
            let ghost old_cur = cur@;
            r.push(cur);
            cur = Vec::new();
            proof {
                assert(seq_views(r@) =~~= old_r.push(old_cur));
                assert(old_r + (seq![old_cur] + seg_split(p@.skip(i + 1)))
                    =~~= seq_views(r@) + seg_split(p@.skip(i + 1)));
                assert(cur@ + p@.skip(i + 1) =~= p@.skip(i + 1));
            }
        } else {
            let ghost old_cur = cur@;
            cur.push(b);
            proof {
                assert(cur@ + p@.skip(i + 1) =~= old_cur + p@.skip(i as int));
                assert forall|k: int| 0 <= k < cur@.len() implies cur@[k] != SEP by {
                    if k < old_cur.len() {
                        assert(old_cur[k] != SEP);
                    }
                }
            }
        }
        i = i + 1;
    }
    proof {
        assert(cur@ + p@.skip(i as int) =~= cur@);
        lemma_seg_split_whole(cur@);
    }
    let ghost old_r = seq_views(r@);
    let ghost last = cur@;
    r.push(cur);
    proof {
        assert(seq_views(r@) =~~= old_r.push(last));
        assert(old_r + seq![last] =~~= old_r.push(last));
    }
    r
}

/// Remove trailing separators.
pub fn trim_path(p: &Vec<u8>) -> (r: Vec<u8>)
    ensures
        r@ == trim_seps(p@),
{
    let mut r: Vec<u8> = p.clone();
    while r.len() > 0 && r[r.len() - 1] == SEP
        invariant
            trim_seps(r@) == trim_seps(p@),
        decreases r@.len(),
    {
        let ghost before = r@;
        r.pop();
        proof {
            assert(before.drop_last() =~= r@);
        }
    }
    r
}

/// Classification of one path segment.
#[derive(PartialEq, Eq, Structural, Clone, Copy, Debug)]
pub enum SegKind {
    /// Empty, skipped by plain resolution.
    Empty,
    /// `.`, the current directory.
    Dot,
    /// `..`, the parent directory.
    DotDot,
    /// A proper name.
    Name,
}

/// Classify a segment.
pub fn seg_kind(s: &Vec<u8>) -> (r: SegKind)
    ensures
        (r == SegKind::Empty) == (s@.len() == 0),
        (r == SegKind::Dot) == (s@ == dot_seg()),
        (r == SegKind::DotDot) == (s@ == dotdot_seg()),
        (r == SegKind::Name) == seg_is_name(s@),
{
    if s.len() == 0 {
        proof {
            assert(s@ != dot_seg());
            assert(s@ != dotdot_seg());
        }
        SegKind::Empty
    } else if s.len() == 1 && s[0] == DOT {
        proof {
            assert(s@ =~= dot_seg());
        }
        SegKind::Dot
    } else if s.len() == 2 && s[0] == DOT && s[1] == DOT {
        proof {
            assert(s@ =~= dotdot_seg());
        }
        SegKind::DotDot
    } else {
        proof {
            if s@.len() == 1 {
                assert(s@ != dotdot_seg());
                if s@ == dot_seg() {
                    assert(s@[0] == DOT);
                }
            } else if s@.len() == 2 {
                assert(s@ != dot_seg());
                if s@ == dotdot_seg() {
                    assert(s@[0] == DOT && s@[1] == DOT);
                }
            } else {
                assert(s@ != dot_seg());
                assert(s@ != dotdot_seg());
            }
        }
        SegKind::Name
    }
}

/// Whether a segment contains a separator; a stored name never does.
pub fn has_sep(s: &Vec<u8>) -> (r: bool)
    ensures
        r == s@.contains(SEP),
{
    let mut i: usize = 0;
    while i < s.len()
        invariant
            i <= s@.len(),
            forall|k: int| 0 <= k < i ==> s@[k] != SEP,
        decreases s@.len() - i,
    {
        if s[i] == SEP {
            return true;
        }
        i = i + 1;
    }
    false
}

/// Compare two names in lexicographic byte order.
pub fn lex_cmp_lt(a: &Vec<u8>, b: &Vec<u8>) -> (r: bool)
    ensures
        r == lex_lt(a@, b@),
{
    let mut i: usize = 0;
    proof {
        assert(a@.skip(0) =~= a@);
        assert(b@.skip(0) =~= b@);
    }
    while i < a.len() && i < b.len()
        invariant
            i <= a@.len(),
            i <= b@.len(),
            forall|k: int| 0 <= k < i ==> a@[k] == b@[k],
            lex_lt(a@, b@) == lex_lt(a@.skip(i as int), b@.skip(i as int)),
        decreases a@.len() - i,
    {
        let ghost ai = a@.skip(i as int);
        let ghost bi = b@.skip(i as int);
        if a[i] < b[i] {
            proof {
                assert(ai[0] == a@[i as int]);
                assert(bi[0] == b@[i as int]);
            }
            return true;
        }
        if a[i] > b[i] {
            proof {
                assert(ai[0] == a@[i as int]);
                assert(bi[0] == b@[i as int]);
            }
            return false;
        }
        proof {
            assert(ai[0] == a@[i as int]);
            assert(bi[0] == b@[i as int]);
            assert(ai.drop_first() =~= a@.skip(i + 1));
            assert(bi.drop_first() =~= b@.skip(i + 1));
        }
        i = i + 1;
    }
    proof {
        assert(lex_lt(a@, b@) == lex_lt(a@.skip(i as int), b@.skip(i as int)));
    }
    i == a.len() && i < b.len()
}

/// Whether two byte strings are equal.
pub fn bytes_eq(a: &Vec<u8>, b: &Vec<u8>) -> (r: bool)
    ensures
        r == (a@ == b@),
{
    if a.len() != b.len() {
        proof {
            assert(a@ != b@);
        }
        return false;
    }
    let mut i: usize = 0;
    while i < a.len()
        invariant
            a@.len() == b@.len(),
            i <= a@.len(),
            forall|k: int| 0 <= k < i ==> a@[k] == b@[k],
        decreases a@.len() - i,
    {
        if a[i] != b[i] {
            return false;
        }
        i = i + 1;
    }
    proof {
        assert(a@ =~= b@);
    }
    true
}

} // verus!
