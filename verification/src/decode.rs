//! Project path decoding.
//!
//! The external tool's session store names each project directory after
//! its working directory, with path separator, dot and space all collapsed
//! to one ambiguous character.  Decoding reconstructs a real path from
//! such a token by greedy longest-match probing against a filesystem
//! existence oracle, widest window first, preferring the ambiguous
//! character itself, then space, then dot as the separator inside one
//! segment.  The oracle is an injected snapshot of existing paths, so the
//! decoder is a pure function of its inputs; the result is a best-effort
//! guess, since the real filesystem can change between probe and use.

use vstd::prelude::*;
use crate::chars::{
    string_to_chars,
    chars_to_string,
    chars_eq,
    seq_contains_char,
    join_seq,
    join_chars,
    split_chars,
    lemma_join_push,
    lemma_join_last_sep,
    lemma_split_unique,
};

verus! {

/// A snapshot of the paths that exist, injected into the decoder in place
/// of direct filesystem probing.
#[derive(Debug)]
pub struct Fs {
    paths: Vec<Vec<char>>,
}

impl Fs {
    /// The snapshot as the set of existing paths.
    pub closed spec fn view(&self) -> Set<Seq<char>> {
        Set::new(|p: Seq<char>| exists|i: int| 0 <= i < self.paths@.len() && self.paths@[i]@ == p)
    }

    /// An empty snapshot: nothing exists.
    pub fn new() -> (r: Self)
        ensures
            r@ == Set::<Seq<char>>::empty(),
    {
        let r = Fs { paths: Vec::new() };
        proof {
            assert(r@ =~= Set::<Seq<char>>::empty());
        }
        r
    }

    /// Record one existing path.
    pub fn add(&mut self, path: &str)
        ensures
            final(self)@ == old(self)@.insert(path@),
    {
        let ghost pre = self.paths@;
        let v = string_to_chars(path);
        self.paths.push(v);
        proof {
            assert forall|p: Seq<char>| true implies self@.contains(p) == old(self)@.insert(
                path@,
            ).contains(p) by {
                if p == path@ {
                    assert(self.paths@[pre.len() as int]@ == p);
                } else {
                    if self@.contains(p) {
                        let i = choose|i: int| 0 <= i < self.paths@.len() && self.paths@[i]@ == p;
                        assert(pre[i]@ == p);
                        assert(old(self)@.contains(p));
                    }
                    if old(self)@.contains(p) {
                        let i = choose|i: int| 0 <= i < pre.len() && pre[i]@ == p;
                        assert(self.paths@[i]@ == p);
                    }
                }
            }
            assert(self@ =~= old(self)@.insert(path@));
        }
    }

    /// Whether the snapshot holds the path.
    pub fn contains_path(&self, p: &Vec<char>) -> (r: bool)
        ensures
            r == self@.contains(p@),
    {
        let n: usize = self.paths.len();
        let mut i: usize = 0;
        while i < n
            invariant
                i <= n,
                n == self.paths@.len(),
                forall|k: int| 0 <= k < i ==> (#[trigger] self.paths@[k])@ != p@,
            decreases n - i,
        {
            if chars_eq(&self.paths[i], p) {
                proof {
                    assert(self@.contains(p@));
                }
                return true;
            }
            i += 1;
        }
        proof {
            if self@.contains(p@) {
                let k = choose|k: int| 0 <= k < self.paths@.len() && self.paths@[k]@ == p@;
                assert(self.paths@[k]@ != p@);
            }
        }
        false
    }
}

/// Copy a character vector.
fn copy_chars(v: &Vec<char>) -> (r: Vec<char>)
    ensures
        r@ == v@,
{
    let n: usize = v.len();
    let mut r: Vec<char> = Vec::new();
    let mut i: usize = 0;
    while i < n
        invariant
            i <= n,
            n == v@.len(),
            r@ == v@.subrange(0, i as int),
        decreases n - i,
    {
        r.push(v[i]);
        i += 1;
        proof {
            assert(r@ =~= v@.subrange(0, i as int));
        }
    }
    proof {
        assert(v@.subrange(0, n as int) =~= v@);
    }
    r
}

/// Append all characters of `src` to `dst`.
fn append_chars(dst: &mut Vec<char>, src: &Vec<char>)
    ensures
        final(dst)@ == old(dst)@ + src@,
{
    let n: usize = src.len();
    let mut i: usize = 0;
    while i < n
        invariant
            i <= n,
            n == src@.len(),
            dst@ == old(dst)@ + src@.subrange(0, i as int),
        decreases n - i,
    {
        dst.push(src[i]);
        i += 1;
        proof {
            assert(dst@ =~= old(dst)@ + src@.subrange(0, i as int));
        }
    }
    proof {
        assert(old(dst)@ + src@.subrange(0, n as int) =~= old(dst)@ + src@);
    }
}

/// The separator preference order inside one decoded segment: the
/// ambiguous character itself, then space, then dot.
pub open spec fn spec_sep_choice(s: int) -> char {
    if s == 0 {
        '-'
    } else if s == 1 {
        ' '
    } else {
        '.'
    }
}

fn sep_choice(s: usize) -> (c: char)
    requires
        s < 3,
    ensures
        c == spec_sep_choice(s as int),
{
    if s == 0 {
        '-'
    } else if s == 1 {
        ' '
    } else {
        '.'
    }
}

/// Join the raw tokens of one candidate window with a separator.
fn join_window(parts: &Vec<Vec<char>>, i: usize, j: usize, sepc: char) -> (r: Vec<char>)
    requires
        i < j <= parts@.len(),
    ensures
        r@ == join_seq(parts@.map_values(|p: Vec<char>| p@).subrange(i as int, j as int), sepc),
{
    let mut r: Vec<char> = Vec::new();
    let mut k: usize = i;
    while k < j
        invariant
            i <= k <= j <= parts@.len(),
            r@ == join_seq(parts@.map_values(|p: Vec<char>| p@).subrange(i as int, k as int), sepc),
        decreases j - k,
    {
        if k > i {
            r.push(sepc);
        }
        append_chars(&mut r, &parts[k]);
        proof {
            let pv = parts@.map_values(|p: Vec<char>| p@);
            let pre = pv.subrange(i as int, k as int);
            lemma_join_push(pre, pv[k as int], sepc);
            assert(pre.push(pv[k as int]) =~= pv.subrange(i as int, k + 1));
            assert(r@ =~= join_seq(pv.subrange(i as int, k + 1), sepc));
        }
        k += 1;
    }
    r
}

/// The path probed for one candidate segment: the root, then the already
/// decoded segments and the candidate, joined by the platform separator.
pub open spec fn spec_probe_path(
    root: Seq<char>,
    segs: Seq<Seq<char>>,
    cand: Seq<char>,
    sep: char,
) -> Seq<char> {
    root + join_seq(segs.push(cand), sep)
}

/// Probe the oracle for a candidate segment under the decoded prefix.
fn probe(fs: &Fs, root: &Vec<char>, sep: char, decoded: &Vec<Vec<char>>, cand: &Vec<char>) -> (r:
    bool)
    ensures
        r == fs@.contains(
            spec_probe_path(root@, decoded@.map_values(|p: Vec<char>| p@), cand@, sep),
        ),
{
    let mut full = copy_chars(root);
    let joined = join_chars(decoded, sep);
    if decoded.len() > 0 {
        append_chars(&mut full, &joined);
        full.push(sep);
    }
    append_chars(&mut full, cand);
    proof {
        let dv = decoded@.map_values(|p: Vec<char>| p@);
        lemma_join_push(dv, cand@, sep);
        assert(full@ =~= spec_probe_path(root@, dv, cand@, sep));
    }
    fs.contains_path(&full)
}

/// A character sequence is contained in a concatenation wherever it is
/// contained in either part.
pub proof fn lemma_contains_concat(a: Seq<char>, b: Seq<char>, c: char)
    ensures
        seq_contains_char(a, c) ==> seq_contains_char(a + b, c),
        seq_contains_char(b, c) ==> seq_contains_char(a + b, c),
{
    if seq_contains_char(a, c) {
        let k = choose|k: int| 0 <= k < a.len() && a[k] == c;
        assert((a + b)[k] == c);
    }
    if seq_contains_char(b, c) {
        let k = choose|k: int| 0 <= k < b.len() && b[k] == c;
        assert((a + b)[a.len() + k] == c);
    }
}

/// The window bound of the greedy search: at most ten raw tokens are
/// joined into one candidate segment.
pub open spec fn spec_max_j(n: int, i: int) -> int {
    if n - i > 10 {
        i + 10
    } else {
        n
    }
}

/// Whether a candidate segment exists under the decoded prefix.
pub open spec fn spec_hit(
    fs: Set<Seq<char>>,
    root: Seq<char>,
    sep: char,
    done: Seq<Seq<char>>,
    cand: Seq<char>,
) -> bool {
    fs.contains(spec_probe_path(root, done, cand, sep))
}

/// The candidate of one window: the raw tokens `i..j` joined by the
/// separator of preference rank `s`.
pub open spec fn spec_wide_cand(toks: Seq<Seq<char>>, i: int, j: int, s: int) -> Seq<char> {
    join_seq(toks.subrange(i, j), spec_sep_choice(s))
}

/// The first separator rank at or after `s` whose candidate for the
/// window `i..j` exists; 3 when none of the remaining ranks does.
pub open spec fn spec_find_sep(
    fs: Set<Seq<char>>,
    root: Seq<char>,
    sep: char,
    done: Seq<Seq<char>>,
    toks: Seq<Seq<char>>,
    i: int,
    j: int,
    s: int,
) -> int
    decreases 3 - s,
{
    if s < 0 || s >= 3 {
        3
    } else if spec_hit(fs, root, sep, done, spec_wide_cand(toks, i, j, s)) {
        s
    } else {
        spec_find_sep(fs, root, sep, done, toks, i, j, s + 1)
    }
}

/// The widest matching window of two or more tokens: windows are tried
/// from `j` down to width two, separators in preference order inside
/// each window, and the first existing candidate wins.
pub open spec fn spec_find_wide(
    fs: Set<Seq<char>>,
    root: Seq<char>,
    sep: char,
    done: Seq<Seq<char>>,
    toks: Seq<Seq<char>>,
    i: int,
    j: int,
) -> Option<(int, int)>
    decreases j - i,
{
    if j - i < 2 {
        Option::None
    } else {
        let s = spec_find_sep(fs, root, sep, done, toks, i, j, 0);
        if s < 3 {
            Option::Some((j, s))
        } else {
            spec_find_wide(fs, root, sep, done, toks, i, j - 1)
        }
    }
}

/// The first separator rank whose dot-prefixed candidate for the window
/// `i..j` exists; 3 when none does.
pub open spec fn spec_find_dot_sep(
    fs: Set<Seq<char>>,
    root: Seq<char>,
    sep: char,
    done: Seq<Seq<char>>,
    toks: Seq<Seq<char>>,
    pre: Seq<char>,
    i: int,
    j: int,
    s: int,
) -> int
    decreases 3 - s,
{
    if s < 0 || s >= 3 {
        3
    } else if spec_hit(fs, root, sep, done, pre + spec_wide_cand(toks, i, j, s)) {
        s
    } else {
        spec_find_dot_sep(fs, root, sep, done, toks, pre, i, j, s + 1)
    }
}

/// The widest matching dot-prefixed window, down to width one.
pub open spec fn spec_find_dot(
    fs: Set<Seq<char>>,
    root: Seq<char>,
    sep: char,
    done: Seq<Seq<char>>,
    toks: Seq<Seq<char>>,
    pre: Seq<char>,
    i: int,
    j: int,
) -> Option<(int, int)>
    decreases j - i,
{
    if j - i < 1 {
        Option::None
    } else {
        let s = spec_find_dot_sep(fs, root, sep, done, toks, pre, i, j, 0);
        if s < 3 {
            Option::Some((j, s))
        } else {
            spec_find_dot(fs, root, sep, done, toks, pre, i, j - 1)
        }
    }
}

/// The position after the run of empty tokens starting at `i`.
pub open spec fn spec_run_end(toks: Seq<Seq<char>>, i: int) -> int
    decreases toks.len() - i,
{
    if i < 0 || i >= toks.len() {
        toks.len() as int
    } else if toks[i].len() != 0 {
        i
    } else {
        spec_run_end(toks, i + 1)
    }
}

/// A run of dots, one per empty raw token.
pub open spec fn spec_dots(m: int) -> Seq<char> {
    Seq::new(
        if m >= 0 {
            m as nat
        } else {
            0
        },
        |q: int| '.',
    )
}

proof fn lemma_run_end_bounds(toks: Seq<Seq<char>>, i: int)
    requires
        0 <= i <= toks.len(),
    ensures
        i <= spec_run_end(toks, i) <= toks.len(),
    decreases toks.len() - i,
{
    if i < toks.len() && toks[i].len() == 0 {
        lemma_run_end_bounds(toks, i + 1);
    }
}

proof fn lemma_find_wide_bounds(
    fs: Set<Seq<char>>,
    root: Seq<char>,
    sep: char,
    done: Seq<Seq<char>>,
    toks: Seq<Seq<char>>,
    i: int,
    j: int,
)
    ensures
        match spec_find_wide(fs, root, sep, done, toks, i, j) {
            Option::Some((jj, ss)) => i + 2 <= jj <= j && 0 <= ss < 3,
            Option::None => true,
        },
    decreases j - i,
{
    if j - i >= 2 {
        let s = spec_find_sep(fs, root, sep, done, toks, i, j, 0);
        if s >= 3 {
            lemma_find_wide_bounds(fs, root, sep, done, toks, i, j - 1);
        } else {
            lemma_find_sep_bounds(fs, root, sep, done, toks, i, j, 0);
        }
    }
}

proof fn lemma_find_sep_bounds(
    fs: Set<Seq<char>>,
    root: Seq<char>,
    sep: char,
    done: Seq<Seq<char>>,
    toks: Seq<Seq<char>>,
    i: int,
    j: int,
    s: int,
)
    requires
        0 <= s <= 3,
    ensures
        s <= spec_find_sep(fs, root, sep, done, toks, i, j, s) <= 3,
    decreases 3 - s,
{
    if s < 3 && !spec_hit(fs, root, sep, done, spec_wide_cand(toks, i, j, s)) {
        lemma_find_sep_bounds(fs, root, sep, done, toks, i, j, s + 1);
    }
}

proof fn lemma_find_dot_bounds(
    fs: Set<Seq<char>>,
    root: Seq<char>,
    sep: char,
    done: Seq<Seq<char>>,
    toks: Seq<Seq<char>>,
    pre: Seq<char>,
    i: int,
    j: int,
)
    ensures
        match spec_find_dot(fs, root, sep, done, toks, pre, i, j) {
            Option::Some((jj, ss)) => i + 1 <= jj <= j && 0 <= ss < 3,
            Option::None => true,
        },
    decreases j - i,
{
    if j - i >= 1 {
        let s = spec_find_dot_sep(fs, root, sep, done, toks, pre, i, j, 0);
        if s >= 3 {
            lemma_find_dot_bounds(fs, root, sep, done, toks, pre, i, j - 1);
        } else {
            lemma_find_dot_sep_bounds(fs, root, sep, done, toks, pre, i, j, 0);
        }
    }
}

proof fn lemma_find_dot_sep_bounds(
    fs: Set<Seq<char>>,
    root: Seq<char>,
    sep: char,
    done: Seq<Seq<char>>,
    toks: Seq<Seq<char>>,
    pre: Seq<char>,
    i: int,
    j: int,
    s: int,
)
    requires
        0 <= s <= 3,
    ensures
        s <= spec_find_dot_sep(fs, root, sep, done, toks, pre, i, j, s) <= 3,
    decreases 3 - s,
{
    if s < 3 && !spec_hit(fs, root, sep, done, pre + spec_wide_cand(toks, i, j, s)) {
        lemma_find_dot_sep_bounds(fs, root, sep, done, toks, pre, i, j, s + 1);
    }
}

/// The greedy decoding itself, position by position, exactly as the
/// decoder walks the raw tokens: the widest existing window (joined
/// under the ambiguous character, space or dot, in that order) becomes
/// the next segment; otherwise the single token is accepted verbatim;
/// a run of empty tokens becomes a dot prefix retried greedily on the
/// remainder, falling back to the dots glued onto the next token, and a
/// trailing run glues its dots onto the last decoded segment.
pub open spec fn spec_greedy(
    fs: Set<Seq<char>>,
    root: Seq<char>,
    sep: char,
    toks: Seq<Seq<char>>,
    done: Seq<Seq<char>>,
    i: int,
) -> Seq<Seq<char>>
    decreases toks.len() - i,
    via spec_greedy_decreases
{
    let n = toks.len() as int;
    if i < 0 || i >= n {
        done
    } else {
        match spec_find_wide(fs, root, sep, done, toks, i, spec_max_j(n, i)) {
            Option::Some((j, s)) => spec_greedy(
                fs,
                root,
                sep,
                toks,
                done.push(spec_wide_cand(toks, i, j, s)),
                j,
            ),
            Option::None => {
                if spec_hit(fs, root, sep, done, toks[i]) || toks[i].len() != 0 {
                    spec_greedy(fs, root, sep, toks, done.push(toks[i]), i + 1)
                } else {
                    let e = spec_run_end(toks, i);
                    let pre = spec_dots(e - i);
                    if e >= n {
                        if done.len() > 0 {
                            done.update(done.len() - 1, done.last() + pre)
                        } else {
                            done
                        }
                    } else {
                        match spec_find_dot(fs, root, sep, done, toks, pre, e, spec_max_j(n, e)) {
                            Option::Some((j2, s2)) => spec_greedy(
                                fs,
                                root,
                                sep,
                                toks,
                                done.push(pre + spec_wide_cand(toks, e, j2, s2)),
                                j2,
                            ),
                            Option::None => spec_greedy(
                                fs,
                                root,
                                sep,
                                toks,
                                done.push(pre + toks[e]),
                                e + 1,
                            ),
                        }
                    }
                }
            },
        }
    }
}

#[via_fn]
proof fn spec_greedy_decreases(
    fs: Set<Seq<char>>,
    root: Seq<char>,
    sep: char,
    toks: Seq<Seq<char>>,
    done: Seq<Seq<char>>,
    i: int,
) {
    let n = toks.len() as int;
    if 0 <= i < n {
        lemma_find_wide_bounds(fs, root, sep, done, toks, i, spec_max_j(n, i));
        if spec_find_wide(fs, root, sep, done, toks, i, spec_max_j(n, i)) is None {
            if !(spec_hit(fs, root, sep, done, toks[i]) || toks[i].len() != 0) {
                lemma_run_end_bounds(toks, i);
                let e = spec_run_end(toks, i);
                if e < n {
                    lemma_find_dot_bounds(
                        fs,
                        root,
                        sep,
                        done,
                        toks,
                        spec_dots(e - i),
                        e,
                        spec_max_j(n, e),
                    );
                }
            }
        }
    }
}

/// The position of the next ambiguous character at or after `i`, or the
/// end of the text.
pub open spec fn dash_end(s: Seq<char>, i: int) -> int
    decreases s.len() - i,
{
    if i < 0 || i >= s.len() {
        s.len() as int
    } else if s[i] == '-' {
        i
    } else {
        dash_end(s, i + 1)
    }
}

proof fn lemma_dash_end_bounds(s: Seq<char>, i: int)
    requires
        0 <= i <= s.len(),
    ensures
        i <= dash_end(s, i) <= s.len(),
    decreases s.len() - i,
{
    if i < s.len() && s[i] != '-' {
        lemma_dash_end_bounds(s, i + 1);
    }
}

/// The raw tokens of the text from `i` on: the pieces between ambiguous
/// characters, in order, empty pieces included.
pub open spec fn split_from(s: Seq<char>, i: int) -> Seq<Seq<char>>
    decreases s.len() - i + 1,
    via split_from_decreases
{
    if i < 0 || i > s.len() {
        Seq::empty()
    } else {
        let e = dash_end(s, i);
        if e >= s.len() {
            seq![s.subrange(i, s.len() as int)]
        } else {
            seq![s.subrange(i, e)] + split_from(s, e + 1)
        }
    }
}

#[via_fn]
proof fn split_from_decreases(s: Seq<char>, i: int) {
    if 0 <= i <= s.len() {
        lemma_dash_end_bounds(s, i);
    }
}

/// The raw tokens hold no ambiguous character.
proof fn lemma_split_from_no_dash(s: Seq<char>, i: int)
    requires
        0 <= i <= s.len(),
    ensures
        forall|k: int|
            0 <= k < split_from(s, i).len() ==> !seq_contains_char(
                #[trigger] split_from(s, i)[k],
                '-',
            ),
    decreases s.len() - i + 1,
{
    lemma_dash_end_bounds(s, i);
    let e = dash_end(s, i);
    assert forall|q: int| i <= q < e implies s[q] != '-' by {
        lemma_dash_end_before(s, i, q);
    }
    if e >= s.len() {
        let piece = s.subrange(i, s.len() as int);
        assert(!seq_contains_char(piece, '-')) by {
            if seq_contains_char(piece, '-') {
                let k = choose|k: int| 0 <= k < piece.len() && piece[k] == '-';
                assert(s[i + k] == '-');
            }
        }
    } else {
        lemma_split_from_no_dash(s, e + 1);
        let piece = s.subrange(i, e);
        assert(!seq_contains_char(piece, '-')) by {
            if seq_contains_char(piece, '-') {
                let k = choose|k: int| 0 <= k < piece.len() && piece[k] == '-';
                assert(s[i + k] == '-');
            }
        }
        assert forall|k: int|
            0 <= k < split_from(s, i).len() implies !seq_contains_char(
            #[trigger] split_from(s, i)[k],
            '-',
        ) by {
            if k == 0 {
                assert(split_from(s, i)[0] == piece);
            } else {
                assert(split_from(s, i)[k] == split_from(s, e + 1)[k - 1]);
            }
        }
    }
}

/// Everything before the next ambiguous character is not one.
proof fn lemma_dash_end_before(s: Seq<char>, i: int, q: int)
    requires
        0 <= i <= q < dash_end(s, i),
    ensures
        s[q] != '-',
    decreases q - i,
{
    if q > i {
        lemma_dash_end_before(s, i + 1, q);
    }
}

/// Joining from the front: one leading piece, the separator, the rest.
proof fn lemma_join_cons(p: Seq<char>, rest: Seq<Seq<char>>, sep: char)
    requires
        rest.len() >= 1,
    ensures
        join_seq(seq![p] + rest, sep) == p + seq![sep] + join_seq(rest, sep),
    decreases rest.len(),
{
    let whole = seq![p] + rest;
    if rest.len() == 1 {
        assert(whole.drop_last() =~= seq![p]);
        assert(whole.last() == rest[0]);
        assert(join_seq(seq![p], sep) == p);
        assert(join_seq(rest, sep) == rest[0]);
    } else {
        assert(whole.drop_last() =~= seq![p] + rest.drop_last());
        lemma_join_cons(p, rest.drop_last(), sep);
        assert(whole.last() == rest.last());
        assert(p + seq![sep] + join_seq(rest.drop_last(), sep) + seq![sep] + rest.last() =~= p
            + seq![sep] + (join_seq(rest.drop_last(), sep) + seq![sep] + rest.last()));
    }
}

/// The raw tokens joined by the ambiguous character restore the text.
proof fn lemma_split_from_join(s: Seq<char>, i: int)
    requires
        0 <= i <= s.len(),
    ensures
        split_from(s, i).len() >= 1,
        join_seq(split_from(s, i), '-') == s.subrange(i, s.len() as int),
    decreases s.len() - i + 1,
{
    lemma_dash_end_bounds(s, i);
    let e = dash_end(s, i);
    if e >= s.len() {
    } else {
        lemma_split_from_join(s, e + 1);
        lemma_join_cons(s.subrange(i, e), split_from(s, e + 1), '-');
        assert(s[e] == '-') by {
            lemma_dash_end_hit(s, i);
        }
        assert(s.subrange(i, e) + seq!['-'] + s.subrange(e + 1, s.len() as int) =~= s.subrange(
            i,
            s.len() as int,
        ));
    }
}

/// The search stops on an ambiguous character when one is in range.
proof fn lemma_dash_end_hit(s: Seq<char>, i: int)
    requires
        0 <= i <= s.len(),
        dash_end(s, i) < s.len(),
    ensures
        s[dash_end(s, i)] == '-',
    decreases s.len() - i,
{
    if i < s.len() && s[i] != '-' {
        lemma_dash_end_hit(s, i + 1);
    }
}

/// Under the round-trip hypothesis a merged candidate never exists:
/// every wide candidate holds an ambiguous character, and no existing
/// path does.
proof fn lemma_live_cand_miss(fs: Set<Seq<char>>, ts: Seq<Seq<char>>, i: int, j: int, s: int)
    requires
        fs_unambiguous(fs),
        0 <= i,
        i + 2 <= j <= ts.len(),
        0 <= s < 3,
    ensures
        !spec_hit(fs, seq!['/'], '/', ts.take(i), spec_wide_cand(ts, i, j, s)),
{
    let sepc = spec_sep_choice(s);
    let cand = spec_wide_cand(ts, i, j, s);
    let done = ts.take(i);
    let w = ts.subrange(i, j);
    assert(w.len() >= 2);
    lemma_join_last_sep(w, sepc);
    assert(seq_contains_char(cand, sepc));
    lemma_join_push(done, cand, '/');
    if done.len() == 0 {
        assert(join_seq(done.push(cand), '/') == cand);
    } else {
        lemma_contains_concat(join_seq(done, '/') + seq!['/'], cand, sepc);
        assert(join_seq(done, '/') + seq!['/'] + cand =~= (join_seq(done, '/') + seq!['/'])
            + cand);
    }
    assert(seq_contains_char(join_seq(done.push(cand), '/'), sepc));
    lemma_contains_concat(seq!['/'], join_seq(done.push(cand), '/'), sepc);
    let probed = spec_probe_path(seq!['/'], done, cand, '/');
    assert(seq_contains_char(probed, sepc));
    assert(sepc == '-' || sepc == ' ' || sepc == '.');
    if fs.contains(probed) {
        assert(!seq_contains_char(probed, sepc));
    }
}

proof fn lemma_live_sep_none(fs: Set<Seq<char>>, ts: Seq<Seq<char>>, i: int, j: int, s: int)
    requires
        fs_unambiguous(fs),
        0 <= i,
        i + 2 <= j <= ts.len(),
        0 <= s <= 3,
    ensures
        spec_find_sep(fs, seq!['/'], '/', ts.take(i), ts, i, j, s) == 3,
    decreases 3 - s,
{
    if s < 3 {
        lemma_live_cand_miss(fs, ts, i, j, s);
        lemma_live_sep_none(fs, ts, i, j, s + 1);
    }
}

proof fn lemma_live_wide_none(fs: Set<Seq<char>>, ts: Seq<Seq<char>>, i: int, j: int)
    requires
        fs_unambiguous(fs),
        0 <= i,
        j <= ts.len(),
    ensures
        spec_find_wide(fs, seq!['/'], '/', ts.take(i), ts, i, j) is None,
    decreases j - i,
{
    if j - i >= 2 {
        lemma_live_sep_none(fs, ts, i, j, 0);
        lemma_live_wide_none(fs, ts, i, j - 1);
    }
}

/// Under the round-trip hypothesis the greedy decoding accepts each
/// token verbatim: no merged candidate exists, and every single token
/// exists as the next path prefix.
proof fn lemma_live_greedy(fs: Set<Seq<char>>, ts: Seq<Seq<char>>, i: int)
    requires
        clean_tokens(ts),
        prefixes_exist(ts, fs),
        fs_unambiguous(fs),
        0 <= i <= ts.len(),
    ensures
        spec_greedy(fs, seq!['/'], '/', ts, ts.take(i), i) == ts,
    decreases ts.len() - i,
{
    let n = ts.len() as int;
    let root = seq!['/'];
    if i >= n {
        assert(ts.take(n) =~= ts);
    } else {
        lemma_live_wide_none(fs, ts, i, spec_max_j(n, i));
        assert(ts.take(i).push(ts[i]) =~= ts.take(i + 1));
        assert(spec_probe_path(root, ts.take(i), ts[i], '/') == unix_prefix_path(ts, i + 1));
        assert(fs.contains(unix_prefix_path(ts, i + 1)));
        assert(spec_hit(fs, root, '/', ts.take(i), ts[i]));
        lemma_live_greedy(fs, ts, i + 1);
        assert(spec_greedy(fs, root, '/', ts, ts.take(i), i) == spec_greedy(
            fs,
            root,
            '/',
            ts,
            ts.take(i + 1),
            i + 1,
        ));
    }
}

/// The decoded path, character for character: the root read off the
/// first characters, then the greedy decoding of the raw tokens, joined
/// by the platform separator.
pub open spec fn spec_decode(encoded: Seq<char>, fs: Set<Seq<char>>) -> Seq<char> {
    if spec_encoded_is_win(encoded) {
        let root = seq![encoded[0], ':', '\\'];
        root + join_seq(
            spec_greedy(
                fs,
                root,
                '\\',
                split_from(encoded.subrange(2, encoded.len() as int), 0),
                Seq::empty(),
                0,
            ),
            '\\',
        )
    } else {
        let root = seq!['/'];
        let trimmed = if encoded.len() >= 1 && encoded[0] == '-' {
            encoded.subrange(1, encoded.len() as int)
        } else {
            encoded
        };
        root + join_seq(spec_greedy(fs, root, '/', split_from(trimmed, 0), Seq::empty(), 0), '/')
    }
}

/// A raw token that decodes to exactly one real path segment: non-empty
/// and free of the ambiguous character, of the characters it stands for,
/// and of the path separator.
pub open spec fn clean_token(t: Seq<char>) -> bool {
    t.len() > 0 && !seq_contains_char(t, '-') && !seq_contains_char(t, ' ')
        && !seq_contains_char(t, '.') && !seq_contains_char(t, '/')
}

/// A non-empty list of clean tokens.
pub open spec fn clean_tokens(ts: Seq<Seq<char>>) -> bool {
    ts.len() > 0 && forall|k: int| 0 <= k < ts.len() ==> clean_token(#[trigger] ts[k])
}

/// The absolute path of the first `k` segments.
pub open spec fn unix_prefix_path(ts: Seq<Seq<char>>, k: int) -> Seq<char> {
    seq!['/'] + join_seq(ts.take(k), '/')
}

/// The absolute path of all segments.
pub open spec fn unix_path(ts: Seq<Seq<char>>) -> Seq<char> {
    seq!['/'] + join_seq(ts, '/')
}

/// Every prefix of the path exists in the snapshot.
pub open spec fn prefixes_exist(ts: Seq<Seq<char>>, fs: Set<Seq<char>>) -> bool {
    forall|k: int| 1 <= k <= ts.len() ==> fs.contains(#[trigger] unix_prefix_path(ts, k))
}

/// No existing path holds any of the characters the encoding collapses:
/// such a snapshot cannot make a merged multi-token candidate exist.
pub open spec fn fs_unambiguous(fs: Set<Seq<char>>) -> bool {
    forall|p: Seq<char>|
        #[trigger] fs.contains(p) ==> !seq_contains_char(p, '-') && !seq_contains_char(p, ' ')
            && !seq_contains_char(p, '.')
}

/// The hypothesis under which decoding inverts encoding: the encoded
/// token came from clean segments, every prefix of the true path exists,
/// and no existing path holds an ambiguous character.
pub open spec fn round_trip_pre(
    encoded: Seq<char>,
    ts: Seq<Seq<char>>,
    fs: Set<Seq<char>>,
) -> bool {
    clean_tokens(ts) && encoded == seq!['-'] + join_seq(ts, '-') && prefixes_exist(ts, fs)
        && fs_unambiguous(fs)
}

/// The encoding of one path character: path separator, dot and space all
/// collapse to the one ambiguous character.
pub open spec fn spec_encode_char(c: char) -> char {
    if c == '/' || c == '.' || c == ' ' {
        '-'
    } else {
        c
    }
}

/// The lossy encoding of a path, character by character.
pub open spec fn spec_encode(p: Seq<char>) -> Seq<char> {
    Seq::new(p.len(), |k: int| spec_encode_char(p[k]))
}

/// Encode a path as the session store names its project directory.
pub fn encode_project_path(path: &str) -> (r: String)
    ensures
        r@ == spec_encode(path@),
{
    let cs = string_to_chars(path);
    let n: usize = cs.len();
    let mut out: Vec<char> = Vec::new();
    let mut i: usize = 0;
    while i < n
        invariant
            i <= n,
            n == cs@.len(),
            cs@ == path@,
            out@ == spec_encode(path@).subrange(0, i as int),
        decreases n - i,
    {
        let c = cs[i];
        if c == '/' || c == '.' || c == ' ' {
            out.push('-');
        } else {
            out.push(c);
        }
        i += 1;
        proof {
            assert(out@ =~= spec_encode(path@).subrange(0, i as int));
        }
    }
    proof {
        assert(spec_encode(path@).subrange(0, n as int) =~= spec_encode(path@));
    }
    chars_to_string(&out)
}

/// Encoding maps the join of clean segments under `/` to their join under
/// the ambiguous character.
proof fn lemma_encode_join(ts: Seq<Seq<char>>)
    requires
        forall|k: int| 0 <= k < ts.len() ==> clean_token(#[trigger] ts[k]),
    ensures
        spec_encode(join_seq(ts, '/')) == join_seq(ts, '-'),
    decreases ts.len(),
{
    if ts.len() == 0 {
        assert(spec_encode(join_seq(ts, '/')) =~= join_seq(ts, '-'));
    } else if ts.len() == 1 {
        let t = ts[0];
        assert forall|k: int| 0 <= k < t.len() implies spec_encode(t)[k] == t[k] by {
            assert(t[k] != '/' && t[k] != '.' && t[k] != ' ');
        }
        assert(spec_encode(join_seq(ts, '/')) =~= join_seq(ts, '-'));
    } else {
        lemma_encode_join(ts.drop_last());
        let front_s = join_seq(ts.drop_last(), '/');
        let front_d = join_seq(ts.drop_last(), '-');
        let last = ts.last();
        assert(clean_token(last));
        assert(join_seq(ts, '/') == front_s + seq!['/'] + last);
        assert(join_seq(ts, '-') == front_d + seq!['-'] + last);
        assert forall|k: int| 0 <= k < join_seq(ts, '/').len() implies spec_encode(
            join_seq(ts, '/'),
        )[k] == join_seq(ts, '-')[k] by {
            let s = join_seq(ts, '/');
            if k < front_s.len() {
                assert(s[k] == front_s[k]);
                assert(join_seq(ts, '-')[k] == front_d[k]);
                assert(spec_encode(front_s)[k] == front_d[k]);
            } else if k == front_s.len() {
                assert(s[k] == '/');
                assert(join_seq(ts, '-')[k] == '-');
            } else {
                assert(s[k] == last[k - front_s.len() - 1]);
                assert(join_seq(ts, '-')[k] == last[k - front_s.len() - 1]);
                assert(last[k - front_s.len() - 1] != '/' && last[k - front_s.len() - 1] != '.'
                    && last[k - front_s.len() - 1] != ' ');
            }
        }
        assert(spec_encode(join_seq(ts, '/')) =~= join_seq(ts, '-'));
    }
}

/// The round-trip law, encoding half: encoding the absolute path of clean
/// segments yields exactly the token that [`decode_project_name`]'s
/// round-trip clause decodes back to that path.  Together the two say:
/// for a path of clean segments whose every prefix exists, over a
/// snapshot free of ambiguous characters, decoding the encoding of the
/// path gives back the path exactly.
pub proof fn lemma_encode_round_trip(ts: Seq<Seq<char>>, fs: Set<Seq<char>>)
    requires
        clean_tokens(ts),
        prefixes_exist(ts, fs),
        fs_unambiguous(fs),
    ensures
        round_trip_pre(spec_encode(unix_path(ts)), ts, fs),
{
    lemma_encode_join(ts);
    let p = unix_path(ts);
    assert(p == seq!['/'] + join_seq(ts, '/'));
    assert forall|k: int| 0 <= k < p.len() implies spec_encode(p)[k] == (seq!['-'] + join_seq(
        ts,
        '-',
    ))[k] by {
        if k == 0 {
            assert(p[0] == '/');
        } else {
            assert(p[k] == join_seq(ts, '/')[k - 1]);
            assert(spec_encode(join_seq(ts, '/'))[k - 1] == join_seq(ts, '-')[k - 1]);
        }
    }
    assert(spec_encode(p) =~= seq!['-'] + join_seq(ts, '-'));
}

/// Whether the encoded token names a drive-letter root: a letter
/// followed by the ambiguous character.
pub open spec fn spec_encoded_is_win(e: Seq<char>) -> bool {
    e.len() >= 2 && spec_is_alpha(e[0]) && e[1] == '-'
}

/// An ASCII letter, as used to detect a drive-letter root.
pub open spec fn spec_is_alpha(c: char) -> bool {
    (97 <= c as u32 && c as u32 <= 122) || (65 <= c as u32 && c as u32 <= 90)
}

fn is_alpha(c: char) -> (r: bool)
    ensures
        r == spec_is_alpha(c),
{
    let a = c as u32;
    (a >= 97 && a <= 122) || (a >= 65 && a <= 90)
}

/// The characters of `v` from `from` to the end.
fn sub_chars(v: &Vec<char>, from: usize) -> (r: Vec<char>)
    requires
        from <= v@.len(),
    ensures
        r@ == v@.subrange(from as int, v@.len() as int),
{
    let n: usize = v.len();
    let mut r: Vec<char> = Vec::new();
    let mut k: usize = from;
    while k < n
        invariant
            from <= k <= n,
            n == v@.len(),
            r@ == v@.subrange(from as int, k as int),
        decreases n - k,
    {
        r.push(v[k]);
        k += 1;
        proof {
            assert(r@ =~= v@.subrange(from as int, k as int));
        }
    }
    r
}

/// Decode one encoded project-directory name into a real path, using the
/// snapshot as the existence oracle.
///
/// The root form is read off the first characters (a leading ambiguous
/// character is a forward-slash root; a letter followed by the ambiguous
/// character is a drive-letter root), the remainder is split on the
/// ambiguous character, and segments are matched greedily: at each
/// position the widest window of raw tokens (up to ten) whose join, under
/// the ambiguous character, space or dot in that order, exists under the
/// decoded prefix is accepted.  A run of empty tokens is retried as a
/// dot-prefixed segment, and when nothing matches the narrowest token is
/// accepted unchanged, so decoding always advances and always terminates.
/// The result is a best-effort guess, never a certainty.
///
/// When the encoded name came from clean segments whose every prefix
/// exists and no existing path holds an ambiguous character, the guess is
/// exact: the second `ensures` clause is the decoder's half of the
/// round-trip law.
#[verifier::loop_isolation(false)]
/// A run of dots.
fn make_dots(m: usize) -> (r: Vec<char>)
    ensures
        r@ == spec_dots(m as int),
{
    let mut r: Vec<char> = Vec::new();
    let mut d: usize = 0;
    while d < m
        invariant
            d <= m,
            r@ == spec_dots(d as int),
        decreases m - d,
    {
        r.push('.');
        d += 1;
        proof {
            assert(r@ =~= spec_dots(d as int));
        }
    }
    r
}

/// Search the windows of two or more tokens starting at `i`, widest
/// first, separators in preference order, for the first candidate that
/// exists under the decoded prefix.
#[verifier::loop_isolation(false)]
fn wide_search(
    fs: &Fs,
    root: &Vec<char>,
    sep: char,
    decoded: &Vec<Vec<char>>,
    parts: &Vec<Vec<char>>,
    i: usize,
    max_j: usize,
) -> (r: Option<(usize, usize, Vec<char>)>)
    requires
        i < parts@.len(),
        max_j <= parts@.len(),
    ensures
        ({
            let pv = parts@.map_values(|p: Vec<char>| p@);
            let dv = decoded@.map_values(|p: Vec<char>| p@);
            match r {
                Option::Some((j, s, cand)) => spec_find_wide(fs@, root@, sep, dv, pv, i as int,
                    max_j as int) == Option::Some((j as int, s as int)) && cand@ == spec_wide_cand(
                    pv,
                    i as int,
                    j as int,
                    s as int,
                ) && i + 2 <= j <= max_j && s < 3,
                Option::None => spec_find_wide(fs@, root@, sep, dv, pv, i as int, max_j as int)
                    is None,
            }
        }),
{
    let ghost pv = parts@.map_values(|p: Vec<char>| p@);
    let ghost dv = decoded@.map_values(|p: Vec<char>| p@);
    let mut j: usize = max_j;
    while j >= i && j - i >= 2
        invariant
            j <= max_j,
            spec_find_wide(fs@, root@, sep, dv, pv, i as int, max_j as int) == spec_find_wide(
                fs@,
                root@,
                sep,
                dv,
                pv,
                i as int,
                j as int,
            ),
        decreases j,
    {
        let mut s_idx: usize = 0;
        while s_idx < 3
            invariant
                s_idx <= 3,
                i + 2 <= j <= max_j,
                spec_find_wide(fs@, root@, sep, dv, pv, i as int, max_j as int) == spec_find_wide(
                    fs@,
                    root@,
                    sep,
                    dv,
                    pv,
                    i as int,
                    j as int,
                ),
                spec_find_sep(fs@, root@, sep, dv, pv, i as int, j as int, 0) == spec_find_sep(
                    fs@,
                    root@,
                    sep,
                    dv,
                    pv,
                    i as int,
                    j as int,
                    s_idx as int,
                ),
            decreases 3 - s_idx,
        {
            let sepc = sep_choice(s_idx);
            let cand = join_window(parts, i, j, sepc);
            let hit = probe(fs, root, sep, decoded, &cand);
            proof {
                assert(cand@ == spec_wide_cand(pv, i as int, j as int, s_idx as int));
                assert(hit == spec_hit(fs@, root@, sep, dv, cand@));
                if hit {
                    assert(spec_find_sep(fs@, root@, sep, dv, pv, i as int, j as int, s_idx as int)
                        == s_idx as int);
                    assert(spec_find_wide(fs@, root@, sep, dv, pv, i as int, j as int)
                        == Option::Some((j as int, s_idx as int)));
                } else {
                    assert(spec_find_sep(fs@, root@, sep, dv, pv, i as int, j as int, s_idx as int)
                        == spec_find_sep(fs@, root@, sep, dv, pv, i as int, j as int, s_idx + 1));
                }
            }
            if hit {
                return Some((j, s_idx, cand));
            }
            s_idx += 1;
        }
        proof {
            assert(spec_find_sep(fs@, root@, sep, dv, pv, i as int, j as int, 3) == 3);
            assert(spec_find_wide(fs@, root@, sep, dv, pv, i as int, j as int) == spec_find_wide(
                fs@,
                root@,
                sep,
                dv,
                pv,
                i as int,
                j - 1,
            ));
        }
        j -= 1;
    }
    proof {
        assert(spec_find_wide(fs@, root@, sep, dv, pv, i as int, j as int) is None);
    }
    None
}

/// Search the dot-prefixed windows starting at `e`, widest first, down
/// to a single token, for the first candidate that exists.
#[verifier::loop_isolation(false)]
fn dot_search(
    fs: &Fs,
    root: &Vec<char>,
    sep: char,
    decoded: &Vec<Vec<char>>,
    parts: &Vec<Vec<char>>,
    dot_count: usize,
    e: usize,
    dmax: usize,
) -> (r: Option<(usize, Vec<char>)>)
    requires
        e < parts@.len(),
        dmax <= parts@.len(),
    ensures
        ({
            let pv = parts@.map_values(|p: Vec<char>| p@);
            let dv = decoded@.map_values(|p: Vec<char>| p@);
            let pre = spec_dots(dot_count as int);
            match r {
                Option::Some((j2, cand)) => match spec_find_dot(fs@, root@, sep, dv, pv, pre,
                    e as int, dmax as int) {
                    Option::Some((jj, ss)) => jj == j2 as int && cand@ == pre + spec_wide_cand(
                        pv,
                        e as int,
                        jj,
                        ss,
                    ) && e + 1 <= j2 <= dmax,
                    Option::None => false,
                },
                Option::None => spec_find_dot(fs@, root@, sep, dv, pv, pre, e as int, dmax as int)
                    is None,
            }
        }),
{
    let ghost pv = parts@.map_values(|p: Vec<char>| p@);
    let ghost dv = decoded@.map_values(|p: Vec<char>| p@);
    let ghost pre = spec_dots(dot_count as int);
    let mut j2: usize = dmax;
    while j2 > e
        invariant
            j2 <= dmax,
            spec_find_dot(fs@, root@, sep, dv, pv, pre, e as int, dmax as int) == spec_find_dot(
                fs@,
                root@,
                sep,
                dv,
                pv,
                pre,
                e as int,
                j2 as int,
            ),
        decreases j2,
    {
        let mut s2: usize = 0;
        while s2 < 3
            invariant
                s2 <= 3,
                e + 1 <= j2 <= dmax,
                spec_find_dot(fs@, root@, sep, dv, pv, pre, e as int, dmax as int)
                    == spec_find_dot(fs@, root@, sep, dv, pv, pre, e as int, j2 as int),
                spec_find_dot_sep(fs@, root@, sep, dv, pv, pre, e as int, j2 as int, 0)
                    == spec_find_dot_sep(fs@, root@, sep, dv, pv, pre, e as int, j2 as int,
                s2 as int),
            decreases 3 - s2,
        {
            let sepc = sep_choice(s2);
            let mut cand = make_dots(dot_count);
            let win = join_window(parts, e, j2, sepc);
            append_chars(&mut cand, &win);
            proof {
                assert(cand@ == pre + spec_wide_cand(pv, e as int, j2 as int, s2 as int));
            }
            let hit = probe(fs, root, sep, decoded, &cand);
            proof {
                assert(hit == spec_hit(fs@, root@, sep, dv, cand@));
                if hit {
                    assert(spec_find_dot_sep(fs@, root@, sep, dv, pv, pre, e as int, j2 as int,
                        s2 as int) == s2 as int);
                    assert(spec_find_dot(fs@, root@, sep, dv, pv, pre, e as int, j2 as int)
                        == Option::Some((j2 as int, s2 as int)));
                } else {
                    assert(spec_find_dot_sep(fs@, root@, sep, dv, pv, pre, e as int, j2 as int,
                        s2 as int) == spec_find_dot_sep(fs@, root@, sep, dv, pv, pre, e as int,
                        j2 as int, s2 + 1));
                }
            }
            if hit {
                return Some((j2, cand));
            }
            s2 += 1;
        }
        proof {
            assert(spec_find_dot_sep(fs@, root@, sep, dv, pv, pre, e as int, j2 as int, 3) == 3);
            assert(spec_find_dot(fs@, root@, sep, dv, pv, pre, e as int, j2 as int)
                == spec_find_dot(fs@, root@, sep, dv, pv, pre, e as int, j2 - 1));
        }
        j2 -= 1;
    }
    None
}

/// One step of the greedy decoding at position `i`: accept the next
/// segment (or glue trailing dots onto the last one) and return the next
/// position, preserving what the whole decoding from here yields.
#[verifier::loop_isolation(false)]
#[verifier::rlimit(60)]
fn greedy_step(
    fs: &Fs,
    root: &Vec<char>,
    sep: char,
    parts: &Vec<Vec<char>>,
    decoded: &mut Vec<Vec<char>>,
    i: usize,
) -> (next_i: usize)
    requires
        i < parts@.len(),
    ensures
        i < next_i <= parts@.len(),
        ({
            let pv = parts@.map_values(|p: Vec<char>| p@);
            spec_greedy(fs@, root@, sep, pv, old(decoded)@.map_values(|p: Vec<char>| p@), i as int)
                == spec_greedy(
                fs@,
                root@,
                sep,
                pv,
                final(decoded)@.map_values(|p: Vec<char>| p@),
                next_i as int,
            )
        }),
{
    let ghost pv = parts@.map_values(|p: Vec<char>| p@);
    let ghost dv0 = decoded@.map_values(|p: Vec<char>| p@);
    let n: usize = parts.len();
    let max_j: usize = if n - i > 10 {
        i + 10
    } else {
        n
    };
    proof {
        assert(max_j as int == spec_max_j(n as int, i as int));
    }
    match wide_search(fs, root, sep, decoded, parts, i, max_j) {
        Option::Some((j, s, cand)) => {
            let ghost candv = cand@;
            decoded.push(cand);
            proof {
                assert(decoded@.map_values(|p: Vec<char>| p@) =~= dv0.push(candv));
            }
            j
        },
        Option::None => {
            let candn = copy_chars(&parts[i]);
            let hitn = probe(fs, root, sep, decoded, &candn);
            proof {
                assert(candn@ == pv[i as int]);
                assert(hitn == spec_hit(fs@, root@, sep, dv0, pv[i as int]));
            }
            if hitn || parts[i].len() != 0 {
                let ghost candv = candn@;
                decoded.push(candn);
                proof {
                    assert(decoded@.map_values(|p: Vec<char>| p@) =~= dv0.push(candv));
                }
                i + 1
            } else {
                // A run of empty tokens: adjacent ambiguous characters
                // stand for dots with nothing between them.
                let start = i;
                let mut k: usize = i;
                while k < n && parts[k].len() == 0
                    invariant
                        start <= k <= n,
                        spec_run_end(pv, start as int) == spec_run_end(pv, k as int),
                        k == start ==> k < n && pv[k as int].len() == 0,
                    decreases n - k,
                {
                    proof {
                        assert(pv[k as int].len() == 0);
                    }
                    k += 1;
                }
                proof {
                    assert(k > start);
                    assert(spec_run_end(pv, start as int) == k as int);
                }
                let dot_count = k - start;
                if k < n {
                    // Retry the greedy match with the dots glued onto the
                    // candidate: this recovers dot-prefixed (hidden) names.
                    let dmax: usize = if n - k > 10 {
                        k + 10
                    } else {
                        n
                    };
                    proof {
                        assert(dmax as int == spec_max_j(n as int, k as int));
                    }
                    match dot_search(fs, root, sep, decoded, parts, dot_count, k, dmax) {
                        Option::Some((j2, cand)) => {
                            let ghost candv = cand@;
                            decoded.push(cand);
                            proof {
                                assert(decoded@.map_values(|p: Vec<char>| p@) =~= dv0.push(candv));
                            }
                            j2
                        },
                        Option::None => {
                            // Fall back to the dots glued onto the next raw
                            // token, guaranteeing forward progress.
                            let mut cand = make_dots(dot_count);
                            append_chars(&mut cand, &parts[k]);
                            proof {
                                assert(cand@ == spec_dots(dot_count as int) + pv[k as int]);
                            }
                            let ghost candv = cand@;
                            decoded.push(cand);
                            proof {
                                assert(decoded@.map_values(|p: Vec<char>| p@) =~= dv0.push(candv));
                            }
                            k + 1
                        },
                    }
                } else {
                    // Trailing empty tokens: glue the dots onto the last
                    // decoded segment, if any.
                    if decoded.len() > 0 {
                        match decoded.pop() {
                            Option::Some(mut lastseg) => {
                                let ghost last0 = lastseg@;
                                let mut d: usize = 0;
                                while d < dot_count
                                    invariant
                                        d <= dot_count,
                                        lastseg@ == last0 + spec_dots(d as int),
                                    decreases dot_count - d,
                                {
                                    lastseg.push('.');
                                    d += 1;
                                    proof {
                                        assert(lastseg@ =~= last0 + spec_dots(d as int));
                                    }
                                }
                                decoded.push(lastseg);
                                proof {
                                    assert(decoded@.map_values(|p: Vec<char>| p@) =~= dv0.update(
                                        dv0.len() - 1,
                                        dv0.last() + spec_dots(dot_count as int),
                                    ));
                                }
                            },
                            Option::None => {},
                        }
                    }
                    n
                }
            }
        },
    }
}

/// Decode one encoded project-directory name into a real path, using the
/// snapshot as the existence oracle.
///
/// The root form is read off the first characters (a leading ambiguous
/// character is a forward-slash root; a letter followed by the ambiguous
/// character is a drive-letter root), the remainder is split on the
/// ambiguous character, and segments are matched greedily as
/// [`spec_greedy`] states: at each position the widest window of raw
/// tokens (up to ten) whose join, under the ambiguous character, space
/// or dot in that order, exists under the decoded prefix is accepted; a
/// run of empty tokens is retried as a dot-prefixed segment, and when
/// nothing matches the narrowest token is accepted unchanged, so
/// decoding always advances and always terminates.  The result is a
/// best-effort guess, never a certainty.
///
/// The first clause pins the result exactly for every input; the last is
/// the decoder's half of the round-trip law.
#[verifier::loop_isolation(false)]
pub fn decode_project_name(encoded: &str, fs: &Fs) -> (r: String)
    ensures
        r@ == spec_decode(encoded@, fs@),
        r@.len() >= 1,
        spec_encoded_is_win(encoded@) ==> r@.len() >= 3 && r@[0] == encoded@[0] && r@[1] == ':'
            && r@[2] == '\\',
        !spec_encoded_is_win(encoded@) ==> r@[0] == '/',
        forall|ts: Seq<Seq<char>>| round_trip_pre(encoded@, ts, fs@) ==> r@ == unix_path(ts),
{
    let chars = string_to_chars(encoded);
    let is_windows = chars.len() >= 2 && is_alpha(chars[0]) && chars[1] == '-';
    let mut root: Vec<char> = Vec::new();
    let mut sep: char = '/';
    let trimmed: Vec<char>;
    if is_windows {
        root.push(chars[0]);
        root.push(':');
        root.push('\\');
        sep = '\\';
        trimmed = sub_chars(&chars, 2);
    } else if chars.len() >= 1 && chars[0] == '-' {
        root.push('/');
        trimmed = sub_chars(&chars, 1);
    } else {
        root.push('/');
        trimmed = copy_chars(&chars);
    }
    proof {
        assert(is_windows == spec_encoded_is_win(chars@));
        if is_windows {
            assert(root@ =~= seq![chars@[0], ':', '\\']);
            assert(trimmed@ =~= chars@.subrange(2, chars@.len() as int));
        } else {
            assert(root@ =~= seq!['/']);
            if chars@.len() >= 1 && chars@[0] == '-' {
                assert(trimmed@ =~= chars@.subrange(1, chars@.len() as int));
            } else {
                assert(trimmed@ =~= chars@);
            }
        }
        assert(root@.len() >= 1);
    }
    let parts = split_chars(&trimmed, '-');
    let ghost pviews = parts@.map_values(|p: Vec<char>| p@);
    let n: usize = parts.len();
    proof {
        lemma_split_from_join(trimmed@, 0);
        lemma_split_from_no_dash(trimmed@, 0);
        assert(trimmed@.subrange(0, trimmed@.len() as int) =~= trimmed@);
        assert forall|k: int| 0 <= k < pviews.len() implies !seq_contains_char(
            #[trigger] pviews[k],
            '-',
        ) by {
            assert(pviews[k] == (parts@[k])@);
        }
        lemma_split_unique(pviews, split_from(trimmed@, 0), '-');
        assert(pviews == split_from(trimmed@, 0));
    }
    let ghost rootv = root@;
    let ghost target = spec_greedy(fs@, rootv, sep, pviews, Seq::<Seq<char>>::empty(), 0);

    let mut decoded: Vec<Vec<char>> = Vec::new();
    let mut i: usize = 0;
    proof {
        assert(decoded@.map_values(|p: Vec<char>| p@) =~= Seq::<Seq<char>>::empty());
    }
    while i < n
        invariant
            i <= n,
            n == parts@.len(),
            pviews == parts@.map_values(|p: Vec<char>| p@),
            target == spec_greedy(
                fs@,
                rootv,
                sep,
                pviews,
                decoded@.map_values(|p: Vec<char>| p@),
                i as int,
            ),
        decreases n - i,
    {
        i = greedy_step(fs, &root, sep, &parts, &mut decoded, i);
    }

    let joined = join_chars(&decoded, sep);
    let ghost root0 = root@;
    let mut full = root;
    append_chars(&mut full, &joined);
    let r = chars_to_string(&full);
    proof {
        assert(r@ == root0 + joined@);
        assert(r@.len() >= 1);
        let dv_fin = decoded@.map_values(|p: Vec<char>| p@);
        assert(spec_greedy(fs@, rootv, sep, pviews, dv_fin, n as int) == dv_fin);
        assert(dv_fin == target);
        assert(r@ == root0 + join_seq(
            spec_greedy(fs@, root0, sep, pviews, Seq::<Seq<char>>::empty(), 0),
            sep,
        ));
        assert(r@ == spec_decode(encoded@, fs@));
        if spec_encoded_is_win(encoded@) {
            assert(r@[0] == root0[0] && r@[1] == root0[1] && r@[2] == root0[2]);
        } else {
            assert(r@[0] == root0[0]);
        }
        assert forall|ts: Seq<Seq<char>>| round_trip_pre(encoded@, ts, fs@) implies r@
            == unix_path(ts) by {
            assert(encoded@ == seq!['-'] + join_seq(ts, '-'));
            assert(chars@ == encoded@);
            assert(chars@[0] == '-');
            assert(!spec_is_alpha('-'));
            assert(!is_windows);
            assert(chars@.len() >= 1);
            assert(trimmed@ =~= chars@.subrange(1, chars@.len() as int));
            assert(trimmed@ =~= join_seq(ts, '-'));
            assert(join_seq(pviews, '-') == trimmed@);
            assert(pviews.len() >= 1);
            assert(ts.len() >= 1);
            assert forall|k: int| 0 <= k < ts.len() implies !seq_contains_char(
                #[trigger] ts[k],
                '-',
            ) by {
                assert(clean_token(ts[k]));
            }
            lemma_split_unique(pviews, ts, '-');
            assert(pviews == ts);
            assert(rootv == seq!['/'] && sep == '/');
            lemma_live_greedy(fs@, ts, 0);
            assert(ts.take(0) =~= Seq::<Seq<char>>::empty());
            assert(target == ts);
            assert(dv_fin == ts);
            assert(joined@ == join_seq(ts, '/'));
            assert(r@ == unix_path(ts));
        }
    }
    r
}

} // verus!
