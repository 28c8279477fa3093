//! Frontmatter field editing.
//!
//! A document may open with a frontmatter block: `---`, a run of
//! `name: value` lines, and a closing `---`.  Setting a field replaces
//! any line naming that field and appends the new line at the end of the
//! block (creating the block when none exists); clearing a field removes
//! its line, and removes the whole block when nothing else is left in it.

use vstd::prelude::*;
use vstd::string::StringExecFns;
use crate::chars::{string_to_chars, chars_to_string, sub_range};

verus! {

/// Relies on `char::is_whitespace`, whose result depends on the
/// character alone.
pub uninterp spec fn spec_is_whitespace(c: char) -> bool;

/// Relies on `char::is_whitespace`: whether the character is Unicode
/// whitespace.
#[verifier::external_body]
fn char_is_whitespace(c: char) -> (r: bool)
    ensures
        r == spec_is_whitespace(c),
{
    c.is_whitespace()
}

/// The first position at or after `i` holding a non-whitespace character.
pub open spec fn first_non_ws(s: Seq<char>, i: int) -> int
    decreases s.len() - i,
{
    if i < 0 || i >= s.len() {
        s.len() as int
    } else if spec_is_whitespace(s[i]) {
        first_non_ws(s, i + 1)
    } else {
        i
    }
}

/// The text with leading whitespace removed.
pub open spec fn spec_trim_start(s: Seq<char>) -> Seq<char> {
    s.subrange(first_non_ws(s, 0), s.len() as int)
}

/// The length of the text once trailing whitespace is removed.
pub open spec fn trim_end_len(s: Seq<char>) -> int
    decreases s.len(),
{
    if s.len() == 0 {
        0
    } else if spec_is_whitespace(s.last()) {
        trim_end_len(s.drop_last())
    } else {
        s.len() as int
    }
}

/// The text with whitespace removed from both ends.
pub open spec fn spec_trim(s: Seq<char>) -> Seq<char> {
    let t = spec_trim_start(s);
    t.subrange(0, trim_end_len(t))
}

/// The text with leading whitespace removed.
#[verifier::loop_isolation(false)]
fn trim_start_chars(v: &Vec<char>) -> (r: Vec<char>)
    ensures
        r@ == spec_trim_start(v@),
{
    let n: usize = v.len();
    let mut lo: usize = 0;
    while lo < n && char_is_whitespace(v[lo])
        invariant
            lo <= n,
            first_non_ws(v@, 0) == first_non_ws(v@, lo as int),
        decreases n - lo,
    {
        lo += 1;
    }
    proof {
        assert(first_non_ws(v@, 0) == lo as int);
    }
    sub_range(v, lo, n)
}

/// The text with whitespace removed from both ends.
#[verifier::loop_isolation(false)]
fn trim_chars(v: &Vec<char>) -> (r: Vec<char>)
    ensures
        r@ == spec_trim(v@),
{
    let t = trim_start_chars(v);
    let m: usize = t.len();
    let mut hi: usize = m;
    proof {
        assert(t@.subrange(0, m as int) =~= t@);
    }
    while hi > 0 && char_is_whitespace(t[hi - 1])
        invariant
            hi <= m,
            trim_end_len(t@) == trim_end_len(t@.subrange(0, hi as int)),
        decreases hi,
    {
        proof {
            assert(t@.subrange(0, hi as int).drop_last() =~= t@.subrange(0, hi - 1));
        }
        hi -= 1;
    }
    proof {
        if hi > 0 {
            assert(trim_end_len(t@.subrange(0, hi as int)) == hi as int);
        } else {
            assert(t@.subrange(0, 0int) =~= Seq::<char>::empty());
        }
        assert(trim_end_len(t@) == hi as int);
    }
    sub_range(&t, 0, hi)
}

/// Whether `p` is a prefix of `s`.
pub open spec fn spec_starts_with(s: Seq<char>, p: Seq<char>) -> bool {
    p.len() <= s.len() && s.subrange(0, p.len() as int) == p
}

/// Whether `p` is a prefix of `s`.
#[verifier::loop_isolation(false)]
fn starts_with_chars(v: &Vec<char>, p: &Vec<char>) -> (r: bool)
    ensures
        r == spec_starts_with(v@, p@),
{
    let m: usize = p.len();
    if v.len() < m {
        return false;
    }
    let mut k: usize = 0;
    while k < m
        invariant
            k <= m <= v@.len(),
            forall|q: int| 0 <= q < k ==> v@[q] == p@[q],
        decreases m - k,
    {
        if v[k] != p[k] {
            proof {
                assert(v@.subrange(0, m as int)[k as int] != p@[k as int]);
            }
            return false;
        }
        k += 1;
    }
    proof {
        assert(v@.subrange(0, m as int) =~= p@);
    }
    true
}

/// Whether the four-character block-closing marker stands at `k`.
pub open spec fn marker_at(s: Seq<char>, k: int) -> bool {
    0 <= k && k + 4 <= s.len() && s[k] == '\n' && s[k + 1] == '-' && s[k + 2] == '-' && s[k + 3]
        == '-'
}

/// The first position at or after `k` where the closing marker stands,
/// or -1 when there is none.
pub open spec fn find_marker_from(s: Seq<char>, k: int) -> int
    decreases s.len() - k,
{
    if k < 0 || k + 4 > s.len() {
        -1
    } else if marker_at(s, k) {
        k
    } else {
        find_marker_from(s, k + 1)
    }
}

/// Find the block-closing marker.
#[verifier::loop_isolation(false)]
fn find_marker(v: &Vec<char>) -> (r: Option<usize>)
    ensures
        match r {
            Option::Some(k) => find_marker_from(v@, 0) == k as int,
            Option::None => find_marker_from(v@, 0) == -1,
        },
{
    let n: usize = v.len();
    if n < 4 {
        return None;
    }
    let mut k: usize = 0;
    while k <= n - 4
        invariant
            k <= n - 3,
            n >= 4,
            n == v@.len(),
            find_marker_from(v@, 0) == find_marker_from(v@, k as int),
        decreases n - k,
    {
        if v[k] == '\n' && v[k + 1] == '-' && v[k + 2] == '-' && v[k + 3] == '-' {
            proof {
                assert(marker_at(v@, k as int));
            }
            return Some(k);
        }
        k += 1;
    }
    None
}

/// The position of the line break ending the line that starts at `i`,
/// or the end of the text.
pub open spec fn line_end(s: Seq<char>, i: int) -> int
    decreases s.len() - i,
{
    if i < 0 || i >= s.len() {
        s.len() as int
    } else if s[i] == '\n' {
        i
    } else {
        line_end(s, i + 1)
    }
}

proof fn lemma_line_end_bounds(s: Seq<char>, i: int)
    requires
        0 <= i <= s.len(),
    ensures
        i <= line_end(s, i) <= s.len(),
    decreases s.len() - i,
{
    if i < s.len() && s[i] != '\n' {
        lemma_line_end_bounds(s, i + 1);
    }
}

/// The line starting at `i`: up to the line break, with a carriage
/// return just before the break dropped.
pub open spec fn line_piece(s: Seq<char>, i: int) -> Seq<char> {
    let e = line_end(s, i);
    if e < s.len() && e > i && s[e - 1] == '\r' {
        s.subrange(i, e - 1)
    } else {
        s.subrange(i, e)
    }
}

/// The lines of the text from position `i` on, split at line breaks, a
/// carriage return before a break dropped, and no final empty line for a
/// trailing break.
pub open spec fn lines_from(s: Seq<char>, i: int) -> Seq<Seq<char>>
    decreases s.len() - i,
    via lines_from_decreases
{
    if i < 0 || i >= s.len() {
        Seq::empty()
    } else {
        let e = line_end(s, i);
        if e >= s.len() {
            seq![line_piece(s, i)]
        } else {
            seq![line_piece(s, i)] + lines_from(s, e + 1)
        }
    }
}

#[via_fn]
proof fn lines_from_decreases(s: Seq<char>, i: int) {
    if 0 <= i < s.len() {
        lemma_line_end_bounds(s, i);
    }
}

/// Split into lines.
#[verifier::loop_isolation(false)]
fn split_lines(v: &Vec<char>) -> (r: Vec<Vec<char>>)
    ensures
        r@.map_values(|l: Vec<char>| l@) == lines_from(v@, 0),
{
    let n: usize = v.len();
    let mut out: Vec<Vec<char>> = Vec::new();
    let mut i: usize = 0;
    proof {
        assert(out@.map_values(|l: Vec<char>| l@) + lines_from(v@, 0) =~= lines_from(v@, 0));
    }
    while i < n
        invariant
            i <= n,
            lines_from(v@, 0) == out@.map_values(|l: Vec<char>| l@) + lines_from(v@, i as int),
        decreases n - i,
    {
        let ghost i0 = i as int;
        let ghost out0 = out@.map_values(|l: Vec<char>| l@);
        let mut e: usize = i;
        while e < n && v[e] != '\n'
            invariant
                i <= e <= n,
                line_end(v@, i0) == line_end(v@, e as int),
            decreases n - e,
        {
            e += 1;
        }
        proof {
            assert(line_end(v@, i0) == e as int);
        }
        let piece: Vec<char> = if e < n && e > i && v[e - 1] == '\r' {
            sub_range(v, i, e - 1)
        } else {
            sub_range(v, i, e)
        };
        proof {
            assert(piece@ == line_piece(v@, i0));
        }
        out.push(piece);
        if e < n {
            i = e + 1;
        } else {
            i = n;
        }
        proof {
            let now = out@.map_values(|l: Vec<char>| l@);
            assert(now =~= out0.push(line_piece(v@, i0)));
            if line_end(v@, i0) < v@.len() {
                assert(lines_from(v@, i0) == seq![line_piece(v@, i0)] + lines_from(v@, i as int));
            } else {
                assert(lines_from(v@, i0) == seq![line_piece(v@, i0)]);
                assert(lines_from(v@, i as int) =~= Seq::<Seq<char>>::empty());
            }
            assert(out0 + lines_from(v@, i0) =~= now + lines_from(v@, i as int));
        }
    }
    proof {
        assert(lines_from(v@, n as int) =~= Seq::<Seq<char>>::empty());
        assert(out@.map_values(|l: Vec<char>| l@) + lines_from(v@, n as int) =~= out@.map_values(
            |l: Vec<char>| l@,
        ));
    }
    out
}

/// Whether the line survives the edit: a line names the field when its
/// trimmed text starts with the field name and a colon.
pub open spec fn spec_keeps(l: Seq<char>, field: Seq<char>) -> bool {
    !spec_starts_with(spec_trim(l), field.push(':'))
}

/// The lines that survive the edit, in order.
pub open spec fn kept_lines(ls: Seq<Seq<char>>, field: Seq<char>) -> Seq<Seq<char>>
    decreases ls.len(),
{
    if ls.len() == 0 {
        Seq::empty()
    } else {
        kept_lines(ls.drop_last(), field) + if spec_keeps(ls.last(), field) {
            seq![ls.last()]
        } else {
            Seq::<Seq<char>>::empty()
        }
    }
}

/// Each line followed by a line break, concatenated.
pub open spec fn cat_lines(ls: Seq<Seq<char>>) -> Seq<char>
    decreases ls.len(),
{
    if ls.len() == 0 {
        Seq::empty()
    } else {
        cat_lines(ls.drop_last()) + ls.last() + seq!['\n']
    }
}

/// Whether every line is blank once trimmed.
pub open spec fn all_blank(ls: Seq<Seq<char>>) -> bool {
    forall|k: int| 0 <= k < ls.len() ==> spec_trim(#[trigger] ls[k]).len() == 0
}

/// The document with the field set or cleared, character for character.
///
/// With a frontmatter block present, the field's lines are dropped; a
/// new value is appended as the last line of the block, and clearing the
/// last remaining field removes the block (and one line break before the
/// body).  Without a block, setting a field wraps the document in a
/// fresh one and clearing is a no-op.
pub open spec fn spec_update_frontmatter(
    content: Seq<char>,
    field: Seq<char>,
    value: Option<Seq<char>>,
) -> Seq<char> {
    let trimmed = spec_trim_start(content);
    if spec_starts_with(trimmed, seq!['-', '-', '-']) && find_marker_from(
        trimmed.subrange(3, trimmed.len() as int),
        0,
    ) >= 0 {
        let after = trimmed.subrange(3, trimmed.len() as int);
        let close = find_marker_from(after, 0);
        let yaml = after.subrange(0, close);
        let body = after.subrange(close + 4, after.len() as int);
        let kept = kept_lines(lines_from(yaml, 0), field);
        match value {
            Option::Some(val) => "---\n"@ + cat_lines(kept) + field + seq![':', ' '] + val
                + "\n---"@ + body,
            Option::None => {
                if all_blank(kept) {
                    if body.len() > 0 && body[0] == '\n' {
                        body.subrange(1, body.len() as int)
                    } else {
                        body
                    }
                } else {
                    "---\n"@ + cat_lines(kept) + "---"@ + body
                }
            },
        }
    } else {
        match value {
            Option::Some(val) => "---\n"@ + field + seq![':', ' '] + val + "\n---\n"@ + content,
            Option::None => content,
        }
    }
}

/// Set or clear one frontmatter field of a document.
#[verifier::loop_isolation(false)]
#[verifier::rlimit(80)]
pub fn update_frontmatter_field(content: &str, field: &str, value: Option<&str>) -> (r: String)
    ensures
        r@ == spec_update_frontmatter(content@, field@, match value {
            Option::Some(v) => Option::Some(v@),
            Option::None => Option::None,
        }),
{
    let cs = string_to_chars(content);
    let trimmed = trim_start_chars(&cs);
    let mut dashes: Vec<char> = Vec::new();
    dashes.push('-');
    dashes.push('-');
    dashes.push('-');
    proof {
        assert(dashes@ =~= seq!['-', '-', '-']);
    }
    let has_open = starts_with_chars(&trimmed, &dashes);
    if has_open {
        let after = sub_range(&trimmed, 3, trimmed.len());
        match find_marker(&after) {
            Option::Some(close) => {
                proof {
                    assert(marker_at(after@, close as int)) by {
                        lemma_find_marker_hit(after@, 0, close as int);
                    }
                }
                let yaml = sub_range(&after, 0, close);
                let body = sub_range(&after, close + 4, after.len());
                let raw_lines = split_lines(&yaml);
                let mut pat = string_to_chars(field);
                pat.push(':');
                let nl: usize = raw_lines.len();
                let mut kept: Vec<Vec<char>> = Vec::new();
                let ghost lviews = raw_lines@.map_values(|l: Vec<char>| l@);
                let mut li: usize = 0;
                proof {
                    assert(kept@.map_values(|l: Vec<char>| l@) =~= kept_lines(
                        lviews.subrange(0, 0),
                        field@,
                    ));
                }
                while li < nl
                    invariant
                        li <= nl,
                        nl == raw_lines@.len(),
                        pat@ == field@.push(':'),
                        lviews == raw_lines@.map_values(|l: Vec<char>| l@),
                        kept@.map_values(|l: Vec<char>| l@) == kept_lines(
                            lviews.subrange(0, li as int),
                            field@,
                        ),
                    decreases nl - li,
                {
                    let ghost kept0 = kept@.map_values(|l: Vec<char>| l@);
                    let line = &raw_lines[li];
                    let t = trim_chars(line);
                    let names_field = starts_with_chars(&t, &pat);
                    if !names_field {
                        let copy = sub_range(line, 0, line.len());
                        proof {
                            assert(copy@ =~= lviews[li as int]);
                        }
                        kept.push(copy);
                    }
                    li += 1;
                    proof {
                        let cur = lviews.subrange(0, li as int);
                        assert(cur.drop_last() =~= lviews.subrange(0, li - 1));
                        assert(cur.last() == lviews[li - 1]);
                        assert(spec_keeps(lviews[li - 1], field@) == !names_field);
                        assert(kept@.map_values(|l: Vec<char>| l@) =~= kept_lines(cur, field@));
                    }
                }
                proof {
                    assert(lviews.subrange(0, nl as int) =~= lviews);
                }
                // assemble the result
                match value {
                    Option::Some(val) => {
                        let mut out = String::new();
                        out.append("---\n");
                        append_cat_lines(&mut out, &kept);
                        out.append(field);
                        out.append(": ");
                        out.append(val);
                        out.append("\n---");
                        let body_s = chars_to_string(&body);
                        out.append(body_s.as_str());
                        proof {
                            reveal_strlit(": ");
                            assert(": "@ =~= seq![':', ' ']);
                            assert(out@ =~= spec_update_frontmatter(content@, field@, Option::Some(
                                val@,
                            )));
                        }
                        out
                    },
                    Option::None => {
                        let mut blank = true;
                        let nk: usize = kept.len();
                        let mut bi: usize = 0;
                        while bi < nk
                            invariant
                                bi <= nk,
                                nk == kept@.len(),
                                blank == (forall|k: int| 0 <= k < bi ==> spec_trim(
                                    (#[trigger] kept@[k])@,
                                ).len() == 0),
                            decreases nk - bi,
                        {
                            let t = trim_chars(&kept[bi]);
                            if t.len() != 0 {
                                blank = false;
                            }
                            let ghost bi0 = bi as int;
                            bi += 1;
                            proof {
                                if !blank {
                                    if forall|k: int| 0 <= k < bi ==> spec_trim(
                                        (#[trigger] kept@[k])@,
                                    ).len() == 0 {
                                        assert(spec_trim(kept@[bi0]@).len() == 0);
                                        assert(false);
                                    }
                                }
                            }
                        }
                        proof {
                            let kv = kept@.map_values(|l: Vec<char>| l@);
                            if blank {
                                assert forall|k: int| 0 <= k < kv.len() implies spec_trim(
                                    #[trigger] kv[k],
                                ).len() == 0 by {
                                    assert(kv[k] == kept@[k]@);
                                    assert(spec_trim(kept@[k]@).len() == 0);
                                }
                                assert(all_blank(kv));
                            } else {
                                let w = choose|k: int|
                                    0 <= k < nk && spec_trim((#[trigger] kept@[k])@).len() != 0;
                                assert(kv[w] == kept@[w]@);
                                assert(spec_trim(kv[w]).len() != 0);
                                assert(!all_blank(kv));
                            }
                            assert(blank == all_blank(kv));
                        }
                        if blank {
                            if body.len() > 0 && body[0] == '\n' {
                                let tail = sub_range(&body, 1, body.len());
                                chars_to_string(&tail)
                            } else {
                                chars_to_string(&body)
                            }
                        } else {
                            let mut out = String::new();
                            out.append("---\n");
                            append_cat_lines(&mut out, &kept);
                            out.append("---");
                            let body_s = chars_to_string(&body);
                            out.append(body_s.as_str());
                            proof {
                                assert(out@ =~= spec_update_frontmatter(
                                    content@,
                                    field@,
                                    Option::None,
                                ));
                            }
                            out
                        }
                    },
                }
            },
            Option::None => fresh_block(content, field, value),
        }
    } else {
        fresh_block(content, field, value)
    }
}

/// The closing marker found by the search does stand where it says.
proof fn lemma_find_marker_hit(s: Seq<char>, k: int, r: int)
    requires
        0 <= k,
        find_marker_from(s, k) == r,
        r >= 0,
    ensures
        marker_at(s, r),
        k <= r,
    decreases s.len() - k,
{
    if k + 4 <= s.len() && !marker_at(s, k) {
        lemma_find_marker_hit(s, k + 1, r);
    }
}

/// Append every kept line, each followed by a line break.
#[verifier::loop_isolation(false)]
fn append_cat_lines(out: &mut String, ls: &Vec<Vec<char>>)
    ensures
        final(out)@ == old(out)@ + cat_lines(ls@.map_values(|l: Vec<char>| l@)),
{
    let n: usize = ls.len();
    let mut i: usize = 0;
    proof {
        assert(old(out)@ + cat_lines(ls@.map_values(|l: Vec<char>| l@).subrange(0, 0)) =~= old(
            out,
        )@);
    }
    while i < n
        invariant
            i <= n,
            n == ls@.len(),
            out@ == old(out)@ + cat_lines(ls@.map_values(|l: Vec<char>| l@).subrange(0, i as int)),
        decreases n - i,
    {
        let line_s = chars_to_string(&ls[i]);
        out.append(line_s.as_str());
        out.append("\n");
        i += 1;
        proof {
            reveal_strlit("\n");
            let lv = ls@.map_values(|l: Vec<char>| l@);
            let cur = lv.subrange(0, i as int);
            assert(cur.drop_last() =~= lv.subrange(0, i - 1));
            assert(cur.last() == lv[i - 1]);
            assert(out@ =~= old(out)@ + cat_lines(cur));
        }
    }
    proof {
        assert(ls@.map_values(|l: Vec<char>| l@).subrange(0, n as int) =~= ls@.map_values(
            |l: Vec<char>| l@,
        ));
    }
}

/// The fallthrough cases: no frontmatter block was found.
fn fresh_block(content: &str, field: &str, value: Option<&str>) -> (r: String)
    requires
        ({
            let trimmed = spec_trim_start(content@);
            !(spec_starts_with(trimmed, seq!['-', '-', '-']) && find_marker_from(
                trimmed.subrange(3, trimmed.len() as int),
                0,
            ) >= 0)
        }),
    ensures
        r@ == spec_update_frontmatter(content@, field@, match value {
            Option::Some(v) => Option::Some(v@),
            Option::None => Option::None,
        }),
{
    match value {
        Option::Some(val) => {
            let mut out = String::new();
            out.append("---\n");
            out.append(field);
            out.append(": ");
            out.append(val);
            out.append("\n---\n");
            out.append(content);
            proof {
                reveal_strlit(": ");
                assert(": "@ =~= seq![':', ' ']);
                assert(out@ =~= spec_update_frontmatter(content@, field@, Option::Some(val@)));
            }
            out
        },
        Option::None => content.to_owned(),
    }
}

} // verus!
