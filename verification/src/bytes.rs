//! Byte-sequence arithmetic for vectored I/O: flattening a buffer list,
//! splicing data into content with zero-fill growth, and filling buffers
//! from content.

use vstd::prelude::*;

use crate::path::seq_views;

verus! {

use vstd::pervasive::VecAdditionalExecFns;

/// The concatenation of a list of buffers.
pub open spec fn flat(bufs: Seq<Seq<u8>>) -> Seq<u8>
    decreases bufs.len(),
{
    if bufs.len() == 0 {
        Seq::empty()
    } else {
        bufs[0] + flat(bufs.drop_first())
    }
}

pub proof fn lemma_flat_snoc(bufs: Seq<Seq<u8>>, x: Seq<u8>)
    ensures
        flat(bufs.push(x)) == flat(bufs) + x,
    decreases bufs.len(),
{
    if bufs.len() == 0 {
        assert(bufs.push(x).drop_first() =~= Seq::<Seq<u8>>::empty());
        assert(bufs.push(x)[0] == x);
        assert(flat(Seq::<Seq<u8>>::empty()) =~= Seq::<u8>::empty());
        assert(flat(bufs) =~= Seq::<u8>::empty());
        assert(flat(bufs.push(x)) =~= flat(bufs) + x);
    } else {
        assert(bufs.push(x).drop_first() =~= bufs.drop_first().push(x));
        lemma_flat_snoc(bufs.drop_first(), x);
        assert(flat(bufs.push(x)) =~= flat(bufs) + x);
    }
}

/// `c` zero-extended to length at least `n`.
pub open spec fn zero_ext(c: Seq<u8>, n: int) -> Seq<u8> {
    if c.len() >= n {
        c
    } else {
        c + Seq::new((n - c.len()) as nat, |k: int| 0u8)
    }
}

/// `d` written into `c` at position `p`, growing `c` with zero fill as
/// needed; writing nothing changes nothing.
pub open spec fn splice(c: Seq<u8>, p: int, d: Seq<u8>) -> Seq<u8> {
    if d.len() == 0 {
        c
    } else {
        let base = zero_ext(c, p + d.len());
        base.take(p) + d + base.skip(p + d.len())
    }
}

/// The bytes available in `c` from `pos`, at most `cap` of them.
pub open spec fn chunk(c: Seq<u8>, pos: int, cap: int) -> Seq<u8> {
    let lo = if pos < c.len() {
        pos
    } else {
        c.len() as int
    };
    let hi = if pos + cap < c.len() {
        pos + cap
    } else {
        c.len() as int
    };
    if lo <= hi {
        c.subrange(lo, hi)
    } else {
        Seq::empty()
    }
}

/// Each buffer filled in turn from `c`, starting at `pos`; a buffer keeps
/// its length, with its tail unchanged past the copied bytes.
pub open spec fn fill_bufs(bufs: Seq<Seq<u8>>, c: Seq<u8>, pos: int) -> Seq<Seq<u8>>
    decreases bufs.len(),
{
    if bufs.len() == 0 {
        bufs
    } else {
        let ch = chunk(c, pos, bufs[0].len() as int);
        seq![ch + bufs[0].skip(ch.len() as int)]
            + fill_bufs(bufs.drop_first(), c, pos + ch.len())
    }
}

/// How many bytes the fill copies in total.
pub open spec fn fill_total(bufs: Seq<Seq<u8>>, c: Seq<u8>, pos: int) -> int
    decreases bufs.len(),
{
    if bufs.len() == 0 {
        0
    } else {
        let ch = chunk(c, pos, bufs[0].len() as int);
        ch.len() + fill_total(bufs.drop_first(), c, pos + ch.len())
    }
}

/// The fill never reads past the end of `c`.
pub proof fn lemma_fill_total_bounds(bufs: Seq<Seq<u8>>, c: Seq<u8>, pos: int)
    requires
        0 <= pos,
    ensures
        0 <= fill_total(bufs, c, pos),
        pos + fill_total(bufs, c, pos) <= if pos < c.len() {
            c.len() as int
        } else {
            pos
        },
    decreases bufs.len(),
{
    if bufs.len() > 0 {
        let ch = chunk(c, pos, bufs[0].len() as int);
        lemma_fill_total_bounds(bufs.drop_first(), c, pos + ch.len());
    }
}

/// The total capacity of a list of buffers.
pub open spec fn caps(bufs: Seq<Seq<u8>>) -> int
    decreases bufs.len(),
{
    if bufs.len() == 0 {
        0
    } else {
        bufs[0].len() + caps(bufs.drop_first())
    }
}

pub proof fn lemma_caps_nonneg(bufs: Seq<Seq<u8>>)
    ensures
        caps(bufs) >= 0,
    decreases bufs.len(),
{
    if bufs.len() > 0 {
        lemma_caps_nonneg(bufs.drop_first());
    }
}

pub proof fn lemma_caps_snoc(bufs: Seq<Seq<u8>>, x: Seq<u8>)
    ensures
        caps(bufs.push(x)) == caps(bufs) + x.len(),
    decreases bufs.len(),
{
    if bufs.len() == 0 {
        assert(bufs.push(x).drop_first() =~= Seq::<Seq<u8>>::empty());
        assert(bufs.push(x)[0] == x);
        assert(caps(Seq::<Seq<u8>>::empty()) == 0);
        assert(caps(bufs.push(x)) == x.len());
    } else {
        assert(bufs.push(x).drop_first() =~= bufs.drop_first().push(x));
        lemma_caps_snoc(bufs.drop_first(), x);
    }
}

/// The fill copies as much as capacity and availability allow.
pub proof fn lemma_fill_total_value(bufs: Seq<Seq<u8>>, c: Seq<u8>, pos: int)
    requires
        0 <= pos,
    ensures
        fill_total(bufs, c, pos) == {
            let avail: int = if pos < c.len() {
                c.len() - pos
            } else {
                0
            };
            if caps(bufs) <= avail {
                caps(bufs)
            } else {
                avail
            }
        },
    decreases bufs.len(),
{
    if bufs.len() > 0 {
        let ch = chunk(c, pos, bufs[0].len() as int);
        lemma_caps_nonneg(bufs.drop_first());
        lemma_fill_total_value(bufs.drop_first(), c, pos + ch.len());
    }
}

/// The flattening is exactly as long as the capacity.
pub proof fn lemma_flat_len(bufs: Seq<Seq<u8>>)
    ensures
        flat(bufs).len() == caps(bufs),
    decreases bufs.len(),
{
    if bufs.len() > 0 {
        lemma_flat_len(bufs.drop_first());
    }
}

/// A fill whose capacity fits inside the content copies a contiguous
/// byte range.
pub proof fn lemma_fill_flat(bufs: Seq<Seq<u8>>, c: Seq<u8>, pos: int)
    requires
        0 <= pos,
        pos + caps(bufs) <= c.len(),
    ensures
        flat(fill_bufs(bufs, c, pos)) == c.subrange(pos, pos + caps(bufs)),
    decreases bufs.len(),
{
    lemma_caps_nonneg(bufs);
    if bufs.len() == 0 {
        assert(flat(fill_bufs(bufs, c, pos)) =~= c.subrange(pos, pos));
    } else {
        let ch = chunk(c, pos, bufs[0].len() as int);
        lemma_caps_nonneg(bufs.drop_first());
        assert(ch =~= c.subrange(pos, pos + bufs[0].len()));
        assert(ch + bufs[0].skip(ch.len() as int) =~= ch);
        lemma_fill_flat(bufs.drop_first(), c, pos + bufs[0].len());
        assert(fill_bufs(bufs, c, pos).drop_first()
            =~= fill_bufs(bufs.drop_first(), c, pos + bufs[0].len()));
        assert(flat(fill_bufs(bufs, c, pos)) =~= c.subrange(pos, pos + caps(bufs)));
    }
}

/// Appending concatenates: a write based at the content's end — what a
/// handle with the append flag does, wherever its cursor sits — extends
/// the content by exactly the written bytes.
pub proof fn lemma_splice_at_end(c: Seq<u8>, d: Seq<u8>)
    ensures
        splice(c, c.len() as int, d) == c + d,
{
    if d.len() == 0 {
        assert(splice(c, c.len() as int, d) =~= c + d);
    } else {
        assert(splice(c, c.len() as int, d) =~= c + d);
    }
}

/// The file round trip: a byte sequence written into an empty file is
/// the file's exact content; reading it back through buffers whose
/// lengths sum to its length delivers every byte in order and counts
/// them all.
pub proof fn lemma_file_round_trip(b: Seq<u8>, bufs: Seq<Seq<u8>>)
    requires
        caps(bufs) == b.len(),
    ensures
        splice(Seq::<u8>::empty(), 0, b) == b,
        fill_total(bufs, b, 0) == b.len(),
        flat(fill_bufs(bufs, b, 0)) == b,
{
    if b.len() > 0 {
        assert(splice(Seq::<u8>::empty(), 0, b) =~= b);
    }
    lemma_fill_total_value(bufs, b, 0);
    lemma_fill_flat(bufs, b, 0);
    assert(b.subrange(0, b.len() as int) =~= b);
}

/// Positional reads see the suffix from their offset, whatever the
/// cursor: filling buffers of total size `b.len() - k` from offset `k`
/// yields exactly the bytes from `k` on.
pub proof fn lemma_read_at_suffix(b: Seq<u8>, bufs: Seq<Seq<u8>>, k: int)
    requires
        0 <= k <= b.len(),
        caps(bufs) == b.len() - k,
    ensures
        flat(fill_bufs(bufs, b, k)) == b.skip(k),
        fill_total(bufs, b, k) == b.len() - k,
{
    lemma_fill_flat(bufs, b, k);
    assert(b.subrange(k, b.len() as int) =~= b.skip(k));
    lemma_fill_total_value(bufs, b, k);
}

/// Whether the buffers can hold at least `need` bytes in total.
pub fn has_capacity(bufs: &Vec<Vec<u8>>, need: usize) -> (r: bool)
    ensures
        r == (caps(seq_views(bufs@)) >= need),
{
    let ghost views = seq_views(bufs@);
    if need == 0 {
        proof {
            lemma_caps_nonneg(views);
        }
        return true;
    }
    let mut acc: usize = 0;
    let mut k: usize = 0;
    proof {
        assert(views.take(0) =~= Seq::<Seq<u8>>::empty());
    }
    while k < bufs.len()
        invariant
            k <= bufs@.len(),
            views == seq_views(bufs@),
            acc == caps(views.take(k as int)),
            acc < need,
        decreases bufs@.len() - k,
    {
        proof {
            assert(views.take(k + 1) =~= views.take(k as int).push(views[k as int]));
            lemma_caps_snoc(views.take(k as int), views[k as int]);
        }
        let l = bufs[k].len();
        if l >= need - acc {
            proof {
                lemma_caps_tail_bound(views, k + 1);
            }
            return true;
        }
        acc = acc + l;
        k = k + 1;
    }
    proof {
        assert(views.take(views.len() as int) =~= views);
    }
    false
}

/// Capacity only grows with more buffers.
proof fn lemma_caps_tail_bound(bufs: Seq<Seq<u8>>, m: int)
    requires
        0 <= m <= bufs.len(),
    ensures
        caps(bufs.take(m)) <= caps(bufs),
    decreases bufs.len(),
{
    if bufs.len() > 0 {
        if m == 0 {
            assert(bufs.take(0) =~= Seq::<Seq<u8>>::empty());
            lemma_caps_nonneg(bufs);
        } else {
            assert(bufs.take(m)[0] == bufs[0]);
            assert(bufs.take(m).drop_first() =~= bufs.drop_first().take(m - 1));
            lemma_caps_tail_bound(bufs.drop_first(), m - 1);
        }
    }
}

/// The exact total capacity, unless it exceeds `limit`.
pub fn total_capped(bufs: &Vec<Vec<u8>>, limit: usize) -> (r: Option<usize>)
    ensures
        caps(seq_views(bufs@)) <= limit ==> r == Option::Some(
            caps(seq_views(bufs@)) as usize,
        ),
        caps(seq_views(bufs@)) > limit ==> r is None,
{
    let ghost views = seq_views(bufs@);
    let mut acc: usize = 0;
    let mut k: usize = 0;
    proof {
        assert(views.take(0) =~= Seq::<Seq<u8>>::empty());
    }
    while k < bufs.len()
        invariant
            k <= bufs@.len(),
            views == seq_views(bufs@),
            acc == caps(views.take(k as int)),
            acc <= limit,
        decreases bufs@.len() - k,
    {
        proof {
            assert(views.take(k + 1) =~= views.take(k as int).push(views[k as int]));
            lemma_caps_snoc(views.take(k as int), views[k as int]);
        }
        let l = bufs[k].len();
        if l > limit - acc {
            proof {
                lemma_caps_tail_bound(views, k + 1);
            }
            return Option::None;
        }
        acc = acc + l;
        k = k + 1;
    }
    proof {
        assert(views.take(views.len() as int) =~= views);
    }
    Option::Some(acc)
}

/// Concatenate a list of buffers.
pub fn concat_bufs(bufs: &Vec<Vec<u8>>) -> (r: Vec<u8>)
    requires
        flat(seq_views(bufs@)).len() <= usize::MAX,
    ensures
        r@ == flat(seq_views(bufs@)),
{
    let ghost views = seq_views(bufs@);
    let mut r: Vec<u8> = Vec::new();
    let mut k: usize = 0;
    proof {
        assert(views.take(0) =~= Seq::<Seq<u8>>::empty());
    }
    while k < bufs.len()
        invariant
            k <= bufs@.len(),
            views == seq_views(bufs@),
            r@ == flat(views.take(k as int)),
            flat(views).len() <= usize::MAX,
        decreases bufs@.len() - k,
    {
        proof {
            assert(views.take(k + 1) =~= views.take(k as int).push(views[k as int]));
            lemma_flat_snoc(views.take(k as int), views[k as int]);
            lemma_flat_prefix_len(views, k as int);
        }
        let buf = &bufs[k];
        let mut j: usize = 0;
        while j < buf.len()
            invariant
                j <= buf@.len(),
                r@ == flat(views.take(k as int)) + buf@.take(j as int),
                flat(views.take(k + 1)) == flat(views.take(k as int)) + buf@,
                flat(views.take(k + 1)).len() <= usize::MAX,
                k < bufs@.len(),
                views == seq_views(bufs@),
                buf@ == views[k as int],
            decreases buf@.len() - j,
        {
            r.push(buf[j]);
            proof {
                assert(r@ =~= flat(views.take(k as int)) + buf@.take(j + 1));
            }
            j = j + 1;
        }
        proof {
            assert(buf@.take(buf@.len() as int) =~= buf@);
        }
        k = k + 1;
    }
    proof {
        assert(views.take(views.len() as int) =~= views);
    }
    r
}

/// A prefix of the flattening is no longer than the whole.
proof fn lemma_flat_prefix_len(bufs: Seq<Seq<u8>>, k: int)
    requires
        0 <= k < bufs.len(),
    ensures
        flat(bufs.take(k + 1)).len() <= flat(bufs).len(),
    decreases bufs.len(),
{
    if k == 0 {
        lemma_flat_mono(bufs, 1);
    } else {
        lemma_flat_mono(bufs, k + 1);
    }
}

/// Flattening a prefix yields a prefix-length bound.
proof fn lemma_flat_mono(bufs: Seq<Seq<u8>>, m: int)
    requires
        0 <= m <= bufs.len(),
    ensures
        flat(bufs.take(m)).len() <= flat(bufs).len(),
    decreases bufs.len(),
{
    if bufs.len() > 0 {
        if m == 0 {
            assert(flat(bufs.take(0)) =~= Seq::<u8>::empty());
        } else {
            assert(bufs.take(m)[0] == bufs[0]);
            assert(bufs.take(m).drop_first() =~= bufs.drop_first().take(m - 1));
            lemma_flat_mono(bufs.drop_first(), m - 1);
        }
    }
}

/// Write `data` into `content` at `pos`, growing with zero fill.
pub fn splice_into(content: &mut Vec<u8>, pos: usize, data: &Vec<u8>)
    requires
        pos + data@.len() <= usize::MAX,
    ensures
        final(content)@ == splice(old(content)@, pos as int, data@),
{
    if data.len() == 0 {
        return ;
    }
    let end = pos + data.len();
    let ghost c0 = content@;
    if end > content.len() {
        content.resize(end, 0);
    }
    proof {
        assert(content@ =~= zero_ext(c0, pos + data@.len()));
    }
    let ghost base = content@;
    let mut j: usize = 0;
    while j < data.len()
        invariant
            j <= data@.len(),
            pos + data@.len() <= usize::MAX,
            pos + data@.len() <= content@.len(),
            content@.len() == base.len(),
            forall|i: int| 0 <= i < content@.len() && !(pos <= i < pos + j)
                ==> content@[i] == base[i],
            forall|i: int| pos <= i < pos + j ==> content@[i] == data@[i - pos],
        decreases data@.len() - j,
    {
        content.set(pos + j, data[j]);
        j = j + 1;
    }
    proof {
        let expect = splice(c0, pos as int, data@);
        assert(expect.len() == base.len());
        assert forall|i: int| 0 <= i < expect.len() implies content@[i] == expect[i] by {
            if i < pos {
                assert(expect[i] == base[i]);
            } else if i < pos + data@.len() {
                assert(expect[i] == data@[i - pos]);
            } else {
                assert(expect[i] == base[i]);
            }
        }
        assert(content@ =~= expect);
    }
}

/// Fill the buffers from `content` starting at `pos`; returns the number
/// of bytes copied.  Buffers keep their lengths; bytes past what was
/// copied stay as they were.
pub fn fill_from(bufs: &mut Vec<Vec<u8>>, content: &Vec<u8>, pos: usize) -> (r: usize)
    ensures
        seq_views(final(bufs)@) == fill_bufs(seq_views(old(bufs)@), content@, pos as int),
        r == fill_total(seq_views(old(bufs)@), content@, pos as int),
{
    let ghost ov = seq_views(old(bufs)@);
    let mut total: usize = 0;
    let mut cur: usize = pos;
    let mut k: usize = 0;
    let clen = content.len();
    proof {
        assert(content@.len() <= usize::MAX);
    }
    proof {
        assert(ov.skip(0) =~= ov);
        assert(seq_views(bufs@).take(0) =~= Seq::<Seq<u8>>::empty());
        assert(Seq::<Seq<u8>>::empty() + fill_bufs(ov, content@, pos as int)
            =~~= fill_bufs(ov, content@, pos as int));
        lemma_fill_total_bounds(ov, content@, pos as int);
    }
    while k < bufs.len()
        invariant
            k <= bufs@.len(),
            bufs@.len() == ov.len(),
            seq_views(bufs@).skip(k as int) == ov.skip(k as int),
            fill_bufs(ov, content@, pos as int)
                == seq_views(bufs@).take(k as int)
                    + fill_bufs(ov.skip(k as int), content@, cur as int),
            fill_total(ov, content@, pos as int)
                == total + fill_total(ov.skip(k as int), content@, cur as int),
            cur == pos + total,
            cur <= usize::MAX,
            total <= usize::MAX,
            pos + fill_total(ov, content@, pos as int) <= usize::MAX,
        decreases bufs@.len() - k,
    {
        let ghost rest = ov.skip(k as int);
        let ghost ch = chunk(content@, cur as int, rest[0].len() as int);
        proof {
            assert(rest[0] == seq_views(bufs@)[k as int]);
            assert(rest.drop_first() =~= ov.skip(k + 1));
            lemma_fill_total_bounds(rest, content@, cur as int);
            lemma_fill_total_bounds(rest.drop_first(), content@, cur as int + ch.len());
        }
        let blen = bufs[k].len();
        let avail: usize = if cur < content.len() {
            content.len() - cur
        } else {
            0
        };
        let cnt: usize = if blen < avail {
            blen
        } else {
            avail
        };
        proof {
            assert(ch.len() == cnt);
        }
        // Build the filled buffer: the chunk, then the old tail.
        let mut nb: Vec<u8> = Vec::new();
        let mut j: usize = 0;
        while j < cnt
            invariant
                j <= cnt,
                cnt == ch.len(),
                ch == chunk(content@, cur as int, blen as int),
                cnt == 0 || cur + cnt <= content@.len(),
                content@.len() <= usize::MAX,
                nb@ == ch.take(j as int),
            decreases cnt - j,
        {
            nb.push(content[cur + j]);
            proof {
                assert(nb@ =~= ch.take(j + 1));
            }
            j = j + 1;
        }
        proof {
            assert(ch.take(ch.len() as int) =~= ch);
        }
        let mut j2: usize = cnt;
        while j2 < blen
            invariant
                cnt <= j2 <= blen,
                blen == bufs@[k as int]@.len(),
                k < bufs@.len(),
                ch == chunk(content@, cur as int, blen as int),
                cnt == ch.len(),
                nb@ == ch + bufs@[k as int]@.subrange(cnt as int, j2 as int),
            decreases blen - j2,
        {
            nb.push(bufs[k][j2]);
            proof {
                assert(nb@ =~= ch + bufs@[k as int]@.subrange(cnt as int, j2 + 1));
            }
            j2 = j2 + 1;
        }
        proof {
            assert(bufs@[k as int]@.subrange(cnt as int, blen as int)
                =~= bufs@[k as int]@.skip(cnt as int));
            assert(nb@ == ch + bufs@[k as int]@.skip(ch.len() as int));
        }
        let ghost before = bufs@;
        bufs.set(k, nb);
        proof {
            assert(seq_views(bufs@).skip(k + 1) =~~= ov.skip(k + 1));
            assert(seq_views(bufs@).take(k + 1)
                =~~= seq_views(before).take(k as int).push(ch + rest[0].skip(ch.len() as int)));
            assert(seq_views(before).take(k as int) =~~= seq_views(bufs@).take(k as int));
            assert(fill_bufs(rest, content@, cur as int)
                == seq![ch + rest[0].skip(ch.len() as int)]
                    + fill_bufs(rest.drop_first(), content@, cur as int + ch.len()));
            assert(seq_views(bufs@).take(k as int)
                + (seq![ch + rest[0].skip(ch.len() as int)]
                    + fill_bufs(ov.skip(k + 1), content@, cur as int + ch.len()))
                =~~= seq_views(bufs@).take(k + 1)
                    + fill_bufs(ov.skip(k + 1), content@, cur as int + ch.len()));
        }
        total = total + cnt;
        cur = cur + cnt;
        k = k + 1;
    }
    proof {
        assert(ov.skip(ov.len() as int) =~= Seq::<Seq<u8>>::empty());
        assert(seq_views(bufs@).take(k as int) =~~= seq_views(bufs@));
        assert(seq_views(bufs@) + Seq::<Seq<u8>>::empty() =~~= seq_views(bufs@));
    }
    total
}

} // verus!
