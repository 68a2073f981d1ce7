//! The pretty-printer: renders a context/focus split as a character
//! stream, recognising Church numerals and the well-known combinators,
//! bracketing lambdas on the left of applications, and surrounding the
//! focus with the two cursor sentinel code points so that a display can
//! switch to inverse video between them.

use vstd::prelude::*;
use vstd::string::StringExecFns;

use crate::editor::LeafMode;
use crate::expr::Expr;
use crate::expr::spec_id;
use crate::expr::spec_const;
use crate::expr::spec_fork;
use crate::expr::spec_succ;
use crate::expr::spec_plus;
use crate::expr::spec_times;
use crate::expr::spec_power;

verus! {

/// The code point that opens the cursor-highlighted region.
pub const CURSOR_START: char = '\u{e000}';

/// The code point that closes the cursor-highlighted region.
pub const CURSOR_END: char = '\u{e001}';

/// One decimal digit as characters.
pub open spec fn spec_digit(n: nat) -> Seq<char> {
    if n == 0 {
        "0"@
    } else if n == 1 {
        "1"@
    } else if n == 2 {
        "2"@
    } else if n == 3 {
        "3"@
    } else if n == 4 {
        "4"@
    } else if n == 5 {
        "5"@
    } else if n == 6 {
        "6"@
    } else if n == 7 {
        "7"@
    } else if n == 8 {
        "8"@
    } else {
        "9"@
    }
}

/// A number in decimal.
pub open spec fn spec_decimal(n: nat) -> Seq<char>
    decreases n,
{
    if n < 10 {
        spec_digit(n)
    } else {
        spec_decimal(n / 10) + spec_digit(n % 10)
    }
}

/// The glyph for a variable index up to 10: a filled circled digit
/// normally, an outlined one in leaf mode.
pub open spec fn spec_var_glyph(u: nat, pad: bool) -> Seq<char> {
    if pad {
        if u == 0 {
            "🄋"@
        } else if u == 1 {
            "➀"@
        } else if u == 2 {
            "➁"@
        } else if u == 3 {
            "➂"@
        } else if u == 4 {
            "➃"@
        } else if u == 5 {
            "➄"@
        } else if u == 6 {
            "➅"@
        } else if u == 7 {
            "➆"@
        } else if u == 8 {
            "➇"@
        } else if u == 9 {
            "➈"@
        } else {
            "➉"@
        }
    } else {
        if u == 0 {
            "🄌"@
        } else if u == 1 {
            "➊"@
        } else if u == 2 {
            "➋"@
        } else if u == 3 {
            "➌"@
        } else if u == 4 {
            "➍"@
        } else if u == 5 {
            "➎"@
        } else if u == 6 {
            "➏"@
        } else if u == 7 {
            "➐"@
        } else if u == 8 {
            "➑"@
        } else if u == 9 {
            "➒"@
        } else {
            "➓"@
        }
    }
}

/// A variable: a glyph for the first eleven indices, `[u]` beyond.
pub open spec fn spec_var(u: nat, pad: bool) -> Seq<char> {
    if u <= 10 {
        spec_var_glyph(u, pad)
    } else {
        "["@ + spec_decimal(u) + "]"@
    }
}

/// Whether the term is rendered as one of the named combinators or a
/// numeral rather than structurally.
pub open spec fn spec_named(e: Expr) -> Option<Seq<char>> {
    if e.spec_to_nat() matches Some(n) && n <= u32::MAX {
        Some(spec_decimal(e.spec_to_nat()->Some_0))
    } else if e == spec_id() {
        Some("I"@)
    } else if e == spec_const() {
        Some("K"@)
    } else if e == spec_fork() {
        Some("S"@)
    } else if e == spec_succ() {
        Some("SUCC"@)
    } else if e == spec_plus() {
        Some("+"@)
    } else if e == spec_times() {
        Some("*"@)
    } else if e == spec_power() {
        Some("^"@)
    } else {
        None
    }
}

/// The rendering of `e` with the focus `cur` standing at the `Slot`.
/// The three flags mirror the formatter state: `alt` brackets the term,
/// `plus` prefixes an application with a space, `pad` picks the leaf
/// variable glyphs.
pub open spec fn spec_render(
    e: Expr,
    cur: Expr,
    lm: LeafMode,
    alt: bool,
    plus: bool,
    pad: bool,
) -> Seq<char>
    decreases (if cur == Expr::Hole {
        0int
    } else {
        1int
    }), e,
{
    match spec_named(e) {
        Some(s) => s,
        None => match e {
            Expr::Var(u) => spec_var(u as nat, pad),
            Expr::Lam(b) => {
                let body = spec_render(*b, cur, lm, false, true, false);
                if alt {
                    "(λ"@ + body + ")"@
                } else {
                    "λ"@ + body
                }
            },
            Expr::App(l, r) => {
                let l_alt = (*l matches Expr::Lam(_)) || (*l == Expr::Slot && cur matches
                    Expr::Lam(_));
                let left = spec_render(*l, cur, lm, l_alt, false, false);
                let right = spec_render(*r, cur, lm, true, false, false);
                let core = left + " "@ + right;
                let opened = if alt {
                    "("@ + core
                } else {
                    core
                };
                let spaced = if plus {
                    " "@ + opened
                } else {
                    opened
                };
                if alt {
                    spaced + ")"@
                } else {
                    spaced
                }
            },
            Expr::Hole => "▪"@,
            Expr::Slot => {
                if lm == LeafMode::Leaf && (cur matches Expr::Var(_)) {
                    spec_var(cur->Var_0 as nat, true)
                } else if lm == LeafMode::InputDot && cur == Expr::Hole {
                    "⬤"@
                } else if cur == Expr::Hole {
                    seq![CURSOR_START] + "▪"@ + seq![CURSOR_END]
                } else {
                    seq![CURSOR_START] + spec_render(
                        cur,
                        Expr::Hole,
                        LeafMode::No,
                        alt,
                        plus,
                        pad,
                    ) + seq![CURSOR_END]
                }
            },
            Expr::Thunk(_) => "▪"@,
        },
    }
}

/// Structural equality of two terms.
pub fn eq_expr(a: &Expr, b: &Expr) -> (r: bool)
    ensures
        r == (*a == *b),
    decreases *a,
{
    match (a, b) {
        (Expr::Var(u), Expr::Var(v)) => u == v,
        (Expr::Lam(x), Expr::Lam(y)) => eq_expr(x, y),
        (Expr::App(xl, xr), Expr::App(yl, yr)) => eq_expr(xl, yl) && eq_expr(xr, yr),
        (Expr::Hole, Expr::Hole) => true,
        (Expr::Slot, Expr::Slot) => true,
        (Expr::Thunk(s), Expr::Thunk(t)) => s == t,
        _ => false,
    }
}

/// One decimal digit.
fn digit_str(n: u32) -> (r: &'static str)
    requires
        n <= 9,
    ensures
        r@ == spec_digit(n as nat),
{
    if n == 0 {
        "0"
    } else if n == 1 {
        "1"
    } else if n == 2 {
        "2"
    } else if n == 3 {
        "3"
    } else if n == 4 {
        "4"
    } else if n == 5 {
        "5"
    } else if n == 6 {
        "6"
    } else if n == 7 {
        "7"
    } else if n == 8 {
        "8"
    } else {
        "9"
    }
}

/// A number in decimal.
fn decimal_string(n: u32) -> (r: String)
    ensures
        r@ == spec_decimal(n as nat),
    decreases n,
{
    if n < 10 {
        digit_str(n).to_owned()
    } else {
        let mut s = decimal_string(n / 10);
        s.append(digit_str(n % 10));
        s
    }
}

/// The glyph for a variable index up to 10.
fn var_glyph(u: u32, pad: bool) -> (r: &'static str)
    requires
        u <= 10,
    ensures
        r@ == spec_var_glyph(u as nat, pad),
{
    if pad {
        if u == 0 {
            "🄋"
        } else if u == 1 {
            "➀"
        } else if u == 2 {
            "➁"
        } else if u == 3 {
            "➂"
        } else if u == 4 {
            "➃"
        } else if u == 5 {
            "➄"
        } else if u == 6 {
            "➅"
        } else if u == 7 {
            "➆"
        } else if u == 8 {
            "➇"
        } else if u == 9 {
            "➈"
        } else {
            "➉"
        }
    } else {
        if u == 0 {
            "🄌"
        } else if u == 1 {
            "➊"
        } else if u == 2 {
            "➋"
        } else if u == 3 {
            "➌"
        } else if u == 4 {
            "➍"
        } else if u == 5 {
            "➎"
        } else if u == 6 {
            "➏"
        } else if u == 7 {
            "➐"
        } else if u == 8 {
            "➑"
        } else if u == 9 {
            "➒"
        } else {
            "➓"
        }
    }
}

/// A variable: a glyph for the first eleven indices, `[u]` beyond.
fn var_string(u: u32, pad: bool) -> (r: String)
    ensures
        r@ == spec_var(u as nat, pad),
{
    if u <= 10 {
        var_glyph(u, pad).to_owned()
    } else {
        let mut s = "[".to_owned();
        s.append(decimal_string(u).as_str());
        s.append("]");
        proof {
            assert(s@ =~= spec_var(u as nat, pad));
        }
        s
    }
}

/// The name of the term, when it is a numeral or a well-known
/// combinator.
fn named_string(e: &Expr) -> (r: Option<String>)
    ensures
        match r {
            Some(s) => spec_named(*e) matches Some(t) && s@ == t,
            None => spec_named(*e) is None,
        },
{
    match e.to_nat() {
        Some(n) => Some(decimal_string(n)),
        None => {
            if eq_expr(e, &crate::expr::combinator_id()) {
                Some("I".to_owned())
            } else if eq_expr(e, &crate::expr::combinator_const()) {
                Some("K".to_owned())
            } else if eq_expr(e, &crate::expr::combinator_fork()) {
                Some("S".to_owned())
            } else if eq_expr(e, &crate::expr::combinator_succ()) {
                Some("SUCC".to_owned())
            } else if eq_expr(e, &crate::expr::combinator_plus()) {
                Some("+".to_owned())
            } else if eq_expr(e, &crate::expr::combinator_times()) {
                Some("*".to_owned())
            } else if eq_expr(e, &crate::expr::combinator_power()) {
                Some("^".to_owned())
            } else {
                None
            }
        },
    }
}

/// Render `e` with the focus `cur` standing at the `Slot`, per
/// `spec_render`.
pub fn render_expr(e: &Expr, cur: &Expr, lm: LeafMode, alt: bool, plus: bool, pad: bool) -> (r:
    String)
    ensures
        r@ == spec_render(*e, *cur, lm, alt, plus, pad),
    decreases (if *cur == Expr::Hole {
        0int
    } else {
        1int
    }), *e,
{
    match named_string(e) {
        Some(s) => s,
        None => {
            match e {
                Expr::Var(u) => var_string(*u, pad),
                Expr::Lam(b) => {
                    let body = render_expr(b, cur, lm, false, true, false);
                    let mut s = if alt {
                        "(λ".to_owned()
                    } else {
                        "λ".to_owned()
                    };
                    s.append(body.as_str());
                    if alt {
                        s.append(")");
                    }
                    proof {
                        assert(s@ =~= spec_render(*e, *cur, lm, alt, plus, pad));
                    }
                    s
                },
                Expr::App(l, r2) => {
                    let l_alt = matches!(**l, Expr::Lam(_)) || (matches!(**l, Expr::Slot)
                        && matches!(*cur, Expr::Lam(_)));
                    let left = render_expr(l, cur, lm, l_alt, false, false);
                    let right = render_expr(r2, cur, lm, true, false, false);
                    let mut s = String::new();
                    if plus {
                        s.append(" ");
                    }
                    if alt {
                        s.append("(");
                    }
                    s.append(left.as_str());
                    s.append(" ");
                    s.append(right.as_str());
                    if alt {
                        s.append(")");
                    }
                    proof {
                        assert(s@ =~= spec_render(*e, *cur, lm, alt, plus, pad));
                    }
                    s
                },
                Expr::Hole => "▪".to_owned(),
                Expr::Slot => {
                    let is_leaf_var = lm == LeafMode::Leaf && matches!(*cur, Expr::Var(_));
                    if is_leaf_var {
                        match cur {
                            Expr::Var(u) => var_string(*u, true),
                            _ => {
                                proof {
                                    assert(false);
                                }
                                String::new()
                            },
                        }
                    } else if lm == LeafMode::InputDot && matches!(*cur, Expr::Hole) {
                        "⬤".to_owned()
                    } else if matches!(*cur, Expr::Hole) {
                        let mut s = "\u{e000}".to_owned();
                        s.append("▪");
                        s.append("\u{e001}");
                        proof {
                            reveal_strlit("\u{e000}");
                            reveal_strlit("\u{e001}");
                            assert(s@ =~= spec_render(*e, *cur, lm, alt, plus, pad));
                        }
                        s
                    } else {
                        let inner = render_expr(cur, &Expr::Hole, LeafMode::No, alt, plus, pad);
                        let mut s = "\u{e000}".to_owned();
                        s.append(inner.as_str());
                        s.append("\u{e001}");
                        proof {
                            reveal_strlit("\u{e000}");
                            reveal_strlit("\u{e001}");
                            assert(s@ =~= spec_render(*e, *cur, lm, alt, plus, pad));
                        }
                        s
                    }
                },
                Expr::Thunk(_) => "▪".to_owned(),
            }
        },
    }
}

/// A context/focus split bundled for rendering, with the leaf-mode flag
/// that picks the focus presentation.
pub struct DisplayStruct<'a> {
    pub expr: &'a Expr,
    pub cursor: &'a Expr,
    pub leaf_mode: LeafMode,
}

impl<'a> DisplayStruct<'a> {
    /// Render the whole split: the context with the focus at its slot.
    pub fn render(&self) -> (r: String)
        ensures
            r@ == spec_render(
                *self.expr,
                *self.cursor,
                self.leaf_mode,
                false,
                false,
                false,
            ),
    {
        render_expr(self.expr, self.cursor, self.leaf_mode, false, false, false)
    }
}

} // verus!
