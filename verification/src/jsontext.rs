//! JSON text framing.
//!
//! The wire format between the orchestrator and the child process is
//! newline-delimited JSON.  Outbound envelopes are framed by the library
//! itself, character by character, so that every byte written to the
//! child's input is pinned down by a specification: this module gives the
//! string-escaping rules and the hexadecimal rendering used for locally
//! generated request ids.

use vstd::prelude::*;

verus! {

/// One hexadecimal digit, lower case.
pub open spec fn spec_hex_digit(d: int) -> char {
    if d == 0 {
        '0'
    } else if d == 1 {
        '1'
    } else if d == 2 {
        '2'
    } else if d == 3 {
        '3'
    } else if d == 4 {
        '4'
    } else if d == 5 {
        '5'
    } else if d == 6 {
        '6'
    } else if d == 7 {
        '7'
    } else if d == 8 {
        '8'
    } else if d == 9 {
        '9'
    } else if d == 10 {
        'a'
    } else if d == 11 {
        'b'
    } else if d == 12 {
        'c'
    } else if d == 13 {
        'd'
    } else if d == 14 {
        'e'
    } else {
        'f'
    }
}

/// One hexadecimal digit, lower case.
pub fn hex_digit(d: u8) -> (c: char)
    requires
        d < 16,
    ensures
        c == spec_hex_digit(d as int),
{
    if d == 0 {
        '0'
    } else if d == 1 {
        '1'
    } else if d == 2 {
        '2'
    } else if d == 3 {
        '3'
    } else if d == 4 {
        '4'
    } else if d == 5 {
        '5'
    } else if d == 6 {
        '6'
    } else if d == 7 {
        '7'
    } else if d == 8 {
        '8'
    } else if d == 9 {
        '9'
    } else if d == 10 {
        'a'
    } else if d == 11 {
        'b'
    } else if d == 12 {
        'c'
    } else if d == 13 {
        'd'
    } else if d == 14 {
        'e'
    } else {
        'f'
    }
}

/// The hexadecimal rendering of `n`, most significant digit first, with no
/// leading zeros (a single `0` for zero).
pub open spec fn spec_hex(n: int) -> Seq<char>
    decreases n,
{
    if n < 16 {
        seq![spec_hex_digit(if n < 0 {
            0
        } else {
            n
        })]
    } else {
        spec_hex(n / 16) + seq![spec_hex_digit(n % 16)]
    }
}

/// Render `n` in lower-case hexadecimal.
pub fn hex_chars(n: u64) -> (r: Vec<char>)
    ensures
        r@ == spec_hex(n as int),
        r@.len() >= 1,
    decreases n,
{
    if n < 16 {
        let mut r: Vec<char> = Vec::new();
        r.push(hex_digit(n as u8));
        proof {
            assert(r@ =~= spec_hex(n as int));
        }
        r
    } else {
        let mut r = hex_chars(n / 16);
        r.push(hex_digit((n % 16) as u8));
        proof {
            assert(r@ =~= spec_hex(n as int / 16) + seq![spec_hex_digit(n as int % 16)]);
        }
        r
    }
}

/// The escape of one character inside a JSON string literal: quote and
/// backslash are backslash-escaped, the control characters with short
/// names use them, any other control character uses a `\u00XX` escape,
/// and everything else stands for itself.
pub open spec fn spec_escape_char(c: char) -> Seq<char> {
    if c == '"' {
        seq!['\\', '"']
    } else if c == '\\' {
        seq!['\\', '\\']
    } else if c == '\n' {
        seq!['\\', 'n']
    } else if c == '\r' {
        seq!['\\', 'r']
    } else if c == '\t' {
        seq!['\\', 't']
    } else if c == '\u{8}' {
        seq!['\\', 'b']
    } else if c == '\u{c}' {
        seq!['\\', 'f']
    } else if (c as u32) < 0x20 {
        seq!['\\', 'u', '0', '0', spec_hex_digit((c as u32) as int / 16), spec_hex_digit(
            (c as u32) as int % 16,
        )]
    } else {
        seq![c]
    }
}

/// The body of a JSON string literal holding the characters of `s`.
pub open spec fn spec_escape(s: Seq<char>) -> Seq<char>
    decreases s.len(),
{
    if s.len() == 0 {
        Seq::empty()
    } else {
        spec_escape(s.drop_last()) + spec_escape_char(s.last())
    }
}

/// Escape the characters of `s` for use inside a JSON string literal.
pub fn escape_chars(s: &Vec<char>) -> (r: Vec<char>)
    ensures
        r@ == spec_escape(s@),
{
    let n: usize = s.len();
    let mut r: Vec<char> = Vec::new();
    let mut i: usize = 0;
    while i < n
        invariant
            i <= n,
            n == s@.len(),
            r@ == spec_escape(s@.subrange(0, i as int)),
        decreases n - i,
    {
        let c = s[i];
        if c == '"' {
            r.push('\\');
            r.push('"');
        } else if c == '\\' {
            r.push('\\');
            r.push('\\');
        } else if c == '\n' {
            r.push('\\');
            r.push('n');
        } else if c == '\r' {
            r.push('\\');
            r.push('r');
        } else if c == '\t' {
            r.push('\\');
            r.push('t');
        } else if c == '\u{8}' {
            r.push('\\');
            r.push('b');
        } else if c == '\u{c}' {
            r.push('\\');
            r.push('f');
        } else if (c as u32) < 0x20 {
            let code = c as u32;
            r.push('\\');
            r.push('u');
            r.push('0');
            r.push('0');
            r.push(hex_digit((code / 16) as u8));
            r.push(hex_digit((code % 16) as u8));
        } else {
            r.push(c);
        }
        i += 1;
        proof {
            let pre = s@.subrange(0, i as int);
            assert(pre.drop_last() =~= s@.subrange(0, i - 1));
            assert(pre.last() == c);
            assert(r@ =~= spec_escape(pre.drop_last()) + spec_escape_char(c));
        }
    }
    proof {
        assert(s@.subrange(0, n as int) =~= s@);
    }
    r
}

/// The escape of a string never holds an unescaped newline: messages framed
/// with it stay on one line of the wire.
pub proof fn lemma_escape_no_newline(s: Seq<char>)
    ensures
        !crate::chars::seq_contains_char(spec_escape(s), '\n'),
    decreases s.len(),
{
    if s.len() == 0 {
    } else {
        lemma_escape_no_newline(s.drop_last());
        let front = spec_escape(s.drop_last());
        let tail = spec_escape_char(s.last());
        assert(forall|k: int| 0 <= k < tail.len() ==> tail[k] != '\n');
        assert forall|k: int| 0 <= k < spec_escape(s).len() implies spec_escape(s)[k] != '\n' by {
            if k < front.len() {
                assert(spec_escape(s)[k] == front[k]);
            } else {
                assert(spec_escape(s)[k] == tail[k - front.len()]);
            }
        }
    }
}

} // verus!
