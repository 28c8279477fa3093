//! Terminal text cleanup.
//!
//! Diagnostic lines from the child can carry ANSI escape sequences
//! (colors, cursor movement) and stray control characters.  Stripping
//! them is specified here as a recursive function over the character
//! sequence: a CSI sequence runs to its final byte, an OSC sequence to
//! its bell or string terminator, a charset designation takes one more
//! character, any other escape takes at most one follower, and control
//! characters other than newline, carriage return and tab are dropped.

use vstd::prelude::*;
use crate::chars::{string_to_chars, chars_to_string};

verus! {

/// A CSI final byte, which ends a `[`-introduced sequence.
pub open spec fn is_csi_final(c: char) -> bool {
    0x40 <= c as u32 && c as u32 <= 0x7e
}

/// One past the final byte of a CSI sequence whose parameters start at
/// `j`; the end of the text if the sequence is unterminated.
pub open spec fn find_csi_end(s: Seq<char>, j: int) -> int
    decreases s.len() - j,
{
    if j < 0 || j >= s.len() {
        s.len() as int
    } else if is_csi_final(s[j]) {
        j + 1
    } else {
        find_csi_end(s, j + 1)
    }
}

/// One past the terminator of an OSC sequence whose payload starts at
/// `j`: a bell ends it, as does an escape followed by a backslash; the
/// end of the text if unterminated.
pub open spec fn find_osc_end(s: Seq<char>, j: int) -> int
    decreases s.len() - j,
{
    if j < 0 || j >= s.len() {
        s.len() as int
    } else if s[j] == '\u{7}' {
        j + 1
    } else if s[j] == '\u{1b}' && j + 1 < s.len() && s[j + 1] == '\\' {
        j + 2
    } else {
        find_osc_end(s, j + 1)
    }
}

/// The position after the unit starting at `i`: past a whole escape
/// sequence when an escape starts there, else past the one character.
pub open spec fn ansi_next(s: Seq<char>, i: int) -> int {
    if s[i] == '\u{1b}' {
        if i + 1 < s.len() && s[i + 1] == '[' {
            find_csi_end(s, i + 2)
        } else if i + 1 < s.len() && s[i + 1] == ']' {
            find_osc_end(s, i + 2)
        } else if i + 1 < s.len() && (s[i + 1] == '(' || s[i + 1] == ')') {
            if i + 3 <= s.len() {
                i + 3
            } else {
                s.len() as int
            }
        } else {
            if i + 2 <= s.len() {
                i + 2
            } else {
                s.len() as int
            }
        }
    } else {
        i + 1
    }
}

/// What the unit starting at `i` contributes to the output: nothing for
/// an escape or a dropped control character, the character itself
/// otherwise.
pub open spec fn ansi_keep(s: Seq<char>, i: int) -> Seq<char> {
    let c = s[i];
    if c == '\u{1b}' {
        Seq::empty()
    } else if (c as u32) < 0x20 && c != '\n' && c != '\r' && c != '\t' {
        Seq::empty()
    } else {
        seq![c]
    }
}

/// The stripped text from position `i` on.
pub open spec fn spec_strip_from(s: Seq<char>, i: int) -> Seq<char>
    decreases s.len() - i,
{
    if i < 0 || i >= s.len() {
        Seq::empty()
    } else {
        let nx = ansi_next(s, i);
        let nx2 = if nx > i {
            nx
        } else {
            i + 1
        };
        let nx3 = if nx2 <= s.len() {
            nx2
        } else {
            s.len() as int
        };
        ansi_keep(s, i) + spec_strip_from(s, nx3)
    }
}

/// The whole text stripped of ANSI escape sequences and stray control
/// characters.
pub open spec fn spec_strip_ansi(s: Seq<char>) -> Seq<char> {
    spec_strip_from(s, 0)
}

/// Strip ANSI escape sequences (terminal color and cursor codes) and
/// control characters other than newline, carriage return and tab.
#[verifier::loop_isolation(false)]
#[verifier::rlimit(60)]
pub fn strip_ansi(s: &str) -> (r: String)
    ensures
        r@ == spec_strip_ansi(s@),
{
    let cs = string_to_chars(s);
    let n: usize = cs.len();
    let mut out: Vec<char> = Vec::new();
    let mut i: usize = 0;
    while i < n
        invariant
            i <= n,
            spec_strip_ansi(s@) == out@ + spec_strip_from(s@, i as int),
        decreases n - i,
    {
        let ghost i0 = i as int;
        let ghost out0 = out@;
        let c = cs[i];
        if c == '\u{1b}' {
            if i + 1 < n && cs[i + 1] == '[' {
                let mut j: usize = i + 2;
                let mut done = false;
                while j < n && !done
                    invariant
                        i + 2 <= j <= n,
                        !done ==> find_csi_end(s@, i0 + 2) == find_csi_end(s@, j as int),
                        done ==> find_csi_end(s@, i0 + 2) == j as int,
                    decreases n - j,
                {
                    let ch = cs[j];
                    proof {
                        assert(find_csi_end(s@, j as int) == if is_csi_final(s@[j as int]) {
                            j + 1
                        } else {
                            find_csi_end(s@, j + 1)
                        });
                    }
                    j += 1;
                    if (ch as u32) >= 0x40 && (ch as u32) <= 0x7e {
                        done = true;
                    }
                }
                proof {
                    if !done {
                        assert(find_csi_end(s@, n as int) == n);
                    }
                    assert(find_csi_end(s@, i0 + 2) == j as int);
                }
                i = j;
            } else if i + 1 < n && cs[i + 1] == ']' {
                let mut j: usize = i + 2;
                let mut done = false;
                while j < n && !done
                    invariant
                        i + 2 <= j <= n,
                        !done ==> find_osc_end(s@, i0 + 2) == find_osc_end(s@, j as int),
                        done ==> find_osc_end(s@, i0 + 2) == j as int,
                    decreases n - j,
                {
                    let ch = cs[j];
                    proof {
                        assert(find_osc_end(s@, j as int) == if s@[j as int] == '\u{7}' {
                            j + 1
                        } else if s@[j as int] == '\u{1b}' && j + 1 < s@.len() && s@[j + 1]
                            == '\\' {
                            j + 2
                        } else {
                            find_osc_end(s@, j + 1)
                        });
                    }
                    if ch == '\u{7}' {
                        j += 1;
                        done = true;
                    } else if ch == '\u{1b}' && j + 1 < n && cs[j + 1] == '\\' {
                        j += 2;
                        done = true;
                    } else {
                        j += 1;
                    }
                }
                proof {
                    if !done {
                        assert(find_osc_end(s@, n as int) == n);
                    }
                    assert(find_osc_end(s@, i0 + 2) == j as int);
                }
                i = j;
            } else if i + 1 < n && (cs[i + 1] == '(' || cs[i + 1] == ')') {
                let t = i + 2;
                i = if t < n {
                    t + 1
                } else {
                    n
                };
            } else {
                let t = i + 1;
                i = if t < n {
                    t + 1
                } else {
                    n
                };
            }
        } else if (c as u32) < 0x20 && c != '\n' && c != '\r' && c != '\t' {
            i += 1;
        } else {
            out.push(c);
            i += 1;
        }
        proof {
            let nx = ansi_next(s@, i0);
            let nx2 = if nx > i0 {
                nx
            } else {
                i0 + 1
            };
            let nx3 = if nx2 <= s@.len() {
                nx2
            } else {
                s@.len() as int
            };
            assert(nx3 == i as int);
            assert(spec_strip_from(s@, i0) == ansi_keep(s@, i0) + spec_strip_from(s@, nx3));
            assert(out0 + spec_strip_from(s@, i0) =~= out@ + spec_strip_from(s@, i as int));
        }
    }
    proof {
        assert(spec_strip_from(s@, n as int) =~= Seq::<char>::empty());
        assert(out@ + Seq::<char>::empty() =~= out@);
    }
    chars_to_string(&out)
}

} // verus!
