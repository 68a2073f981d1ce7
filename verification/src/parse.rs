//! Parsing of the editor's command language: whitespace-separated ASCII
//! tokens, each either a keyword, a decimal number, or a `[n]` variable
//! literal.

use vstd::prelude::*;
use vstd::string::StrSliceExecFns;
use vstd::string::StringExecFns;

use crate::editor::Cmd;

verus! {

/// Whether every character in `s[from..to]` is a decimal digit, with at
/// least one of them.
pub open spec fn spec_all_digits(s: Seq<char>, from: int, to: int) -> bool {
    from < to && forall|i: int| from <= i < to ==> '0' <= #[trigger] s[i] <= '9'
}

/// The value of the digit run `s[from..to]`.
pub open spec fn spec_digits_val(s: Seq<char>, from: int, to: int) -> nat
    decreases to - from,
{
    if to <= from {
        0
    } else {
        (spec_digits_val(s, from, to - 1) * 10 + (s[to - 1] as int - '0' as int)) as nat
    }
}

/// What a token means: a keyword, a decimal number that fits 32 bits, a
/// `[n]` variable literal, or nothing recognisable (the token is kept for
/// the diagnostic).
pub open spec fn spec_parse_token(tok: String) -> Cmd {
    let s = tok@;
    if s == "bs"@ {
        Cmd::Backspace
    } else if s == "l"@ {
        Cmd::Lambda
    } else if s == "b"@ {
        Cmd::Beta
    } else if s == "redux"@ {
        Cmd::Redux
    } else if s == "dn"@ {
        Cmd::Down
    } else if s == "up"@ {
        Cmd::Up
    } else if s == "top"@ {
        Cmd::Top
    } else if s == "lm"@ {
        Cmd::LeftMost
    } else if s == "rm"@ {
        Cmd::RightMost
    } else if s == "lt"@ {
        Cmd::LeftSib
    } else if s == "rt"@ {
        Cmd::RightSib
    } else if s == "$"@ {
        Cmd::ApplyLeft
    } else if s == "@"@ {
        Cmd::ApplyRight
    } else if s == "+"@ {
        Cmd::Plus
    } else if s == "*"@ {
        Cmd::Times
    } else if s == "^"@ {
        Cmd::Power
    } else if s == "."@ {
        Cmd::Dot
    } else if spec_all_digits(s, 0, s.len() as int) && spec_digits_val(
        s,
        0,
        s.len() as int,
    ) <= u32::MAX {
        Cmd::Num(spec_digits_val(s, 0, s.len() as int) as u32)
    } else if s.len() >= 3 && s[0] == '[' && s[s.len() - 1] == ']' && spec_all_digits(
        s,
        1,
        s.len() - 1,
    ) && spec_digits_val(s, 1, s.len() - 1) <= u32::MAX {
        Cmd::VarLit(spec_digits_val(s, 1, s.len() - 1) as u32)
    } else {
        Cmd::Unknown(tok)
    }
}

/// A longer digit run is worth at least as much as its prefix.
proof fn lemma_digits_val_mono(s: Seq<char>, from: int, mid: int, to: int)
    requires
        from <= mid <= to,
        forall|k: int| mid <= k < to ==> '0' <= #[trigger] s[k] <= '9',
    ensures
        spec_digits_val(s, from, mid) <= spec_digits_val(s, from, to),
    decreases to - mid,
{
    if mid < to {
        lemma_digits_val_mono(s, from, mid, to - 1);
        assert(spec_digits_val(s, from, to) >= spec_digits_val(s, from, to - 1) * 10);
    }
}

/// Parse the digit run `s[from..to]` as a 32-bit number; nothing when a
/// character is not a digit, the run is empty, or the value overflows.
fn parse_digits(s: &str, from: usize, to: usize) -> (r: Option<u32>)
    requires
        from <= to <= s@.len(),
    ensures
        r is Some <==> spec_all_digits(s@, from as int, to as int) && spec_digits_val(
            s@,
            from as int,
            to as int,
        ) <= u32::MAX,
        r matches Some(v) ==> v == spec_digits_val(s@, from as int, to as int),
{
    if from >= to {
        return None;
    }
    let mut val: u32 = 0;
    let mut i: usize = from;
    while i < to
        invariant
            from <= i <= to <= s@.len(),
            spec_all_digits(s@, from as int, i as int) || i == from,
            val == spec_digits_val(s@, from as int, i as int),
            from < to,
        decreases to - i,
    {
        let c = s.get_char(i);
        if c < '0' || c > '9' {
            return None;
        }
        let d: u32 = c as u32 - 48;
        if val > (u32::MAX - d) / 10 {
            proof {
                assert(spec_digits_val(s@, from as int, i as int + 1) == val * 10 + d);
                assert(spec_digits_val(s@, from as int, i as int + 1) > u32::MAX);
                if spec_all_digits(s@, from as int, to as int) {
                    lemma_digits_val_mono(s@, from as int, i as int + 1, to as int);
                }
            }
            return None;
        }
        proof {
            assert(spec_digits_val(s@, from as int, i as int + 1) == val * 10 + d);
        }
        val = val * 10 + d;
        i = i + 1;
    }
    Some(val)
}

/// Character-for-character equality of two strings.
fn str_eq(a: &str, b: &str) -> (r: bool)
    ensures
        r == (a@ == b@),
{
    let la = a.unicode_len();
    let lb = b.unicode_len();
    if la != lb {
        return false;
    }
    let mut i: usize = 0;
    while i < la
        invariant
            i <= la,
            la == a@.len(),
            la == b@.len(),
            forall|j: int| 0 <= j < i ==> a@[j] == b@[j],
        decreases la - i,
    {
        if a.get_char(i) != b.get_char(i) {
            return false;
        }
        i = i + 1;
    }
    proof {
        assert(a@ =~= b@);
    }
    true
}

/// Turn one token into a command, per `spec_parse_token`.
pub fn parse_token(tok: String) -> (c: Cmd)
    ensures
        c == spec_parse_token(tok),
{
    if str_eq(tok.as_str(), "bs") {
        Cmd::Backspace
    } else if str_eq(tok.as_str(), "l") {
        Cmd::Lambda
    } else if str_eq(tok.as_str(), "b") {
        Cmd::Beta
    } else if str_eq(tok.as_str(), "redux") {
        Cmd::Redux
    } else if str_eq(tok.as_str(), "dn") {
        Cmd::Down
    } else if str_eq(tok.as_str(), "up") {
        Cmd::Up
    } else if str_eq(tok.as_str(), "top") {
        Cmd::Top
    } else if str_eq(tok.as_str(), "lm") {
        Cmd::LeftMost
    } else if str_eq(tok.as_str(), "rm") {
        Cmd::RightMost
    } else if str_eq(tok.as_str(), "lt") {
        Cmd::LeftSib
    } else if str_eq(tok.as_str(), "rt") {
        Cmd::RightSib
    } else if str_eq(tok.as_str(), "$") {
        Cmd::ApplyLeft
    } else if str_eq(tok.as_str(), "@") {
        Cmd::ApplyRight
    } else if str_eq(tok.as_str(), "+") {
        Cmd::Plus
    } else if str_eq(tok.as_str(), "*") {
        Cmd::Times
    } else if str_eq(tok.as_str(), "^") {
        Cmd::Power
    } else if str_eq(tok.as_str(), ".") {
        Cmd::Dot
    } else {
        let n = tok.as_str().unicode_len();
        match parse_digits(tok.as_str(), 0, n) {
            Some(v) => Cmd::Num(v),
            None => {
                if n >= 3 && tok.as_str().get_char(0) == '[' && tok.as_str().get_char(n - 1)
                    == ']' {
                    match parse_digits(tok.as_str(), 1, n - 1) {
                        Some(v) => Cmd::VarLit(v),
                        None => Cmd::Unknown(tok),
                    }
                } else {
                    Cmd::Unknown(tok)
                }
            },
        }
    }
}

} // verus!
