//! Character-vector utilities.
//!
//! Text that the library transforms is handled as `Vec<char>`, whose view
//! is the same `Seq<char>` that `String` and `&str` views use.  The helpers
//! here convert between the two shapes and provide the joining, splitting
//! and searching primitives that the rest of the crate reasons about.

use vstd::prelude::*;

verus! {

/// Relies on `core::str::Chars` and `FromIterator<char>` for `String`:
/// collecting the characters of a vector yields the string with exactly
/// that character sequence.
#[verifier::external_body]
pub(crate) fn chars_to_string(v: &Vec<char>) -> (s: String)
    ensures
        s@ == v@,
{
    v.iter().collect()
}

/// Collect the characters of a string slice into a vector.
pub fn string_to_chars(s: &str) -> (v: Vec<char>)
    ensures
        v@ == s@,
{
    let n: usize = s.unicode_len();
    let mut v: Vec<char> = Vec::new();
    let mut i: usize = 0;
    while i < n
        invariant
            i <= n,
            n == s@.len(),
            v@ == s@.subrange(0, i as int),
        decreases n - i,
    {
        v.push(s.get_char(i));
        i += 1;
        proof {
            assert(v@ =~= s@.subrange(0, i as int));
        }
    }
    proof {
        assert(v@ =~= s@);
    }
    v
}

/// Whether two character vectors hold the same sequence.
pub fn chars_eq(a: &Vec<char>, b: &Vec<char>) -> (r: bool)
    ensures
        r == (a@ == b@),
{
    if a.len() != b.len() {
        return false;
    }
    let n: usize = a.len();
    let mut i: usize = 0;
    while i < n
        invariant
            i <= n,
            n == a@.len() == b@.len(),
            forall|k: int| 0 <= k < i ==> a@[k] == b@[k],
        decreases n - i,
    {
        if a[i] != b[i] {
            return false;
        }
        i += 1;
    }
    proof {
        assert(a@ =~= b@);
    }
    true
}

/// Whether the sequence holds the character `c` anywhere.
pub open spec fn seq_contains_char(s: Seq<char>, c: char) -> bool {
    exists|k: int| 0 <= k < s.len() && s[k] == c
}

/// The characters of `v` between two positions.
pub fn sub_range(v: &Vec<char>, from: usize, to: usize) -> (r: Vec<char>)
    requires
        from <= to <= v@.len(),
    ensures
        r@ == v@.subrange(from as int, to as int),
{
    let mut r: Vec<char> = Vec::new();
    let mut k: usize = from;
    while k < to
        invariant
            from <= k <= to <= v@.len(),
            r@ == v@.subrange(from as int, k as int),
        decreases to - k,
    {
        r.push(v[k]);
        k += 1;
        proof {
            assert(r@ =~= v@.subrange(from as int, k as int));
        }
    }
    r
}

/// Append all characters of `src` to `dst`.
pub fn push_all(dst: &mut Vec<char>, src: &Vec<char>)
    ensures
        final(dst)@ == old(dst)@ + src@,
{
    let n: usize = src.len();
    let mut i: usize = 0;
    while i < n
        invariant
            i <= n,
            n == src@.len(),
            dst@ == old(dst)@ + src@.subrange(0, i as int),
        decreases n - i,
    {
        dst.push(src[i]);
        i += 1;
        proof {
            assert(dst@ =~= old(dst)@ + src@.subrange(0, i as int));
        }
    }
    proof {
        assert(old(dst)@ + src@.subrange(0, n as int) =~= old(dst)@ + src@);
    }
}

/// The segments joined by a one-character separator, in spec form.
pub open spec fn join_seq(segs: Seq<Seq<char>>, sep: char) -> Seq<char>
    decreases segs.len(),
{
    if segs.len() == 0 {
        Seq::empty()
    } else if segs.len() == 1 {
        segs[0]
    } else {
        join_seq(segs.drop_last(), sep) + seq![sep] + segs.last()
    }
}

/// Appending one more segment extends the join by the separator and the
/// segment (or is the segment alone when nothing was joined yet).
pub proof fn lemma_join_push(segs: Seq<Seq<char>>, seg: Seq<char>, sep: char)
    ensures
        segs.len() == 0 ==> join_seq(segs.push(seg), sep) == seg,
        segs.len() > 0 ==> join_seq(segs.push(seg), sep) == join_seq(segs, sep) + seq![sep] + seg,
{
    let p = segs.push(seg);
    assert(p.last() == seg);
    if segs.len() == 0 {
        assert(p.len() == 1);
        assert(join_seq(p, sep) == p[0]);
    } else {
        assert(p.drop_last() =~= segs);
    }
}

/// A join of two or more separator-free segments holds the separator, and
/// its last occurrence stands just before the last segment.
pub proof fn lemma_join_last_sep(segs: Seq<Seq<char>>, sep: char)
    requires
        segs.len() >= 2,
    ensures
        ({
            let j = join_seq(segs, sep);
            let k = j.len() - segs.last().len() - 1;
            0 <= k < j.len() && j[k] == sep && segs.last() == j.subrange(k + 1, j.len() as int)
        }),
{
    let j = join_seq(segs, sep);
    let front = join_seq(segs.drop_last(), sep);
    let k = front.len() as int;
    assert(j == front + seq![sep] + segs.last());
    assert(j.len() == front.len() + 1 + segs.last().len());
    assert(j[k] == sep);
    assert(segs.last() =~= j.subrange(k + 1, j.len() as int));
}

/// Separator-free segments are recoverable from their join: two lists of
/// segments, none holding the separator, with equal joins are equal.
pub proof fn lemma_split_unique(a: Seq<Seq<char>>, b: Seq<Seq<char>>, sep: char)
    requires
        a.len() >= 1,
        b.len() >= 1,
        forall|k: int| 0 <= k < a.len() ==> !seq_contains_char(#[trigger] a[k], sep),
        forall|k: int| 0 <= k < b.len() ==> !seq_contains_char(#[trigger] b[k], sep),
        join_seq(a, sep) == join_seq(b, sep),
    ensures
        a == b,
    decreases a.len(),
{
    let j = join_seq(a, sep);
    if a.len() == 1 && b.len() == 1 {
        assert(a =~= b);
    } else if a.len() == 1 {
        lemma_join_last_sep(b, sep);
        assert(seq_contains_char(j, sep));
        assert(!seq_contains_char(a[0], sep));
        assert(false);
    } else if b.len() == 1 {
        lemma_join_last_sep(a, sep);
        assert(seq_contains_char(j, sep));
        assert(!seq_contains_char(b[0], sep));
        assert(false);
    } else {
        lemma_join_last_sep(a, sep);
        lemma_join_last_sep(b, sep);
        let ka = j.len() - a.last().len() - 1;
        let kb = j.len() - b.last().len() - 1;
        if ka < kb {
            assert(b.last()[ka - kb - 1 + b.last().len()] == j[ka]);
            assert(seq_contains_char(b.last(), sep));
            assert(false);
        } else if kb < ka {
            assert(a.last()[kb - ka - 1 + a.last().len()] == j[kb]);
            assert(seq_contains_char(a.last(), sep));
            assert(false);
        }
        assert(ka == kb);
        assert(a.last() == b.last());
        let fa = join_seq(a.drop_last(), sep);
        let fb = join_seq(b.drop_last(), sep);
        assert(j == fa + seq![sep] + a.last());
        assert(j == fb + seq![sep] + b.last());
        assert(fa.len() == ka && fb.len() == kb);
        assert(fa =~= j.subrange(0, ka));
        assert(fb =~= j.subrange(0, kb));
        lemma_split_unique(a.drop_last(), b.drop_last(), sep);
        assert(a =~= a.drop_last().push(a.last()));
        assert(b =~= b.drop_last().push(b.last()));
    }
}

/// Join the segments with a one-character separator.
pub fn join_chars(segs: &Vec<Vec<char>>, sep: char) -> (r: Vec<char>)
    ensures
        r@ == join_seq(segs@.map_values(|s: Vec<char>| s@), sep),
{
    let mut r: Vec<char> = Vec::new();
    let n: usize = segs.len();
    let mut i: usize = 0;
    while i < n
        invariant
            i <= n,
            n == segs@.len(),
            r@ == join_seq(segs@.map_values(|s: Vec<char>| s@).subrange(0, i as int), sep),
        decreases n - i,
    {
        if i > 0 {
            r.push(sep);
        }
        let ghost r_mid = r@;
        let seg = &segs[i];
        let m: usize = seg.len();
        let mut j: usize = 0;
        while j < m
            invariant
                j <= m,
                m == seg@.len(),
                r@ == r_mid + seg@.subrange(0, j as int),
            decreases m - j,
        {
            r.push(seg[j]);
            j += 1;
            proof {
                assert(r@ =~= r_mid + seg@.subrange(0, j as int));
            }
        }
        proof {
            let full = segs@.map_values(|s: Vec<char>| s@);
            let pre = full.subrange(0, i as int);
            lemma_join_push(pre, full[i as int], sep);
            assert(pre.push(full[i as int]) =~= full.subrange(0, i + 1));
            assert(seg@ =~= seg@.subrange(0, m as int));
            assert(r@ =~= join_seq(full.subrange(0, i + 1), sep));
        }
        i += 1;
    }
    proof {
        assert(segs@.map_values(|s: Vec<char>| s@).subrange(0, n as int)
            =~= segs@.map_values(|s: Vec<char>| s@));
    }
    r
}

/// Split a character vector at every occurrence of `sep`.
///
/// The result is pinned down exactly by the contract: at least one piece
/// comes back, no piece holds the separator, and joining the pieces with
/// the separator restores the input ([`lemma_split_unique`] says no other
/// list of pieces can do both).
pub fn split_chars(v: &Vec<char>, sep: char) -> (r: Vec<Vec<char>>)
    ensures
        r@.len() >= 1,
        forall|k: int| 0 <= k < r@.len() ==> !seq_contains_char((#[trigger] r@[k])@, sep),
        join_seq(r@.map_values(|s: Vec<char>| s@), sep) == v@,
{
    let n: usize = v.len();
    let mut r: Vec<Vec<char>> = Vec::new();
    let mut cur: Vec<char> = Vec::new();
    let mut i: usize = 0;
    while i < n
        invariant
            i <= n,
            n == v@.len(),
            !seq_contains_char(cur@, sep),
            forall|k: int| 0 <= k < r@.len() ==> !seq_contains_char((#[trigger] r@[k])@, sep),
            join_seq(r@.map_values(|s: Vec<char>| s@).push(cur@), sep) == v@.subrange(0, i as int),
        decreases n - i,
    {
        let ghost pieces = r@.map_values(|s: Vec<char>| s@);
        let ghost cur0 = cur@;
        proof {
            lemma_join_push(pieces, cur0, sep);
        }
        let c = v[i];
        if c == sep {
            let done = cur;
            cur = Vec::new();
            r.push(done);
            proof {
                let pieces2 = r@.map_values(|s: Vec<char>| s@);
                assert(pieces2 =~= pieces.push(cur0));
                lemma_join_push(pieces2, cur@, sep);
                assert(join_seq(pieces2, sep) == join_seq(pieces.push(cur0), sep));
                assert(join_seq(pieces2.push(cur@), sep) == join_seq(pieces.push(cur0), sep)
                    + seq![sep] + cur@);
                assert(join_seq(pieces2.push(cur@), sep) =~= v@.subrange(0, i + 1));
            }
        } else {
            cur.push(c);
            proof {
                assert(r@.map_values(|s: Vec<char>| s@) =~= pieces);
                lemma_join_push(pieces, cur@, sep);
                assert(cur@ == cur0.push(c));
                let lhs = join_seq(pieces.push(cur@), sep);
                let prev = join_seq(pieces.push(cur0), sep);
                assert(prev == v@.subrange(0, i as int));
                if pieces.len() == 0 {
                    assert(lhs == cur0.push(c));
                    assert(prev == cur0);
                    assert forall|k: int| 0 <= k < prev.len() implies lhs[k] == prev[k] by {
                        assert(lhs[k] == cur0[k]);
                    }
                } else {
                    let a = join_seq(pieces, sep) + seq![sep];
                    assert(lhs =~= a + cur0.push(c));
                    assert(prev =~= a + cur0);
                    assert forall|k: int| 0 <= k < prev.len() implies lhs[k] == prev[k] by {
                        if k < a.len() {
                            assert(lhs[k] == a[k]);
                            assert(prev[k] == a[k]);
                        } else {
                            assert(prev[k] == cur0[k - a.len()]);
                            assert(lhs[k] == cur0.push(c)[k - a.len()]);
                        }
                    }
                }
                assert(lhs.len() == prev.len() + 1);
                assert(lhs[prev.len() as int] == c);
                assert(lhs =~= v@.subrange(0, i + 1));
            }
        }
        i += 1;
    }
    let ghost pieces_fin = r@.map_values(|s: Vec<char>| s@);
    let ghost cur_fin = cur@;
    r.push(cur);
    proof {
        assert(r@.map_values(|s: Vec<char>| s@) =~= pieces_fin.push(cur_fin));
        assert(v@.subrange(0, n as int) =~= v@);
    }
    r
}

} // verus!
