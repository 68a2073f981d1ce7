//! End-to-end tests of the editor: keystroke sequences, the structural
//! invariant, diagnostics, parsing, and the rendered display.

use picolambda::display::DisplayStruct;
use picolambda::editor::Cmd;
use picolambda::editor::Diag;
use picolambda::editor::EditorState;
use picolambda::editor::LeafMode;
use picolambda::expr::app;
use picolambda::expr::lam;
use picolambda::expr::Expr;
use picolambda::parse::parse_token;

fn run(input: &str) -> EditorState {
    let mut s = EditorState::new();
    for tok in input.split_whitespace() {
        s.exec_cmd(parse_token(tok.to_string()));
        assert!(s.wf_check(), "invariant broken after {tok}");
    }
    s
}

fn render(s: &EditorState) -> String {
    DisplayStruct { expr: &s.expr, cursor: &s.cursor, leaf_mode: s.leaf_mode }.render()
}

#[test]
fn parse_token_recognises_the_vocabulary() {
    assert_eq!(parse_token("bs".to_string()), Cmd::Backspace);
    assert_eq!(parse_token("l".to_string()), Cmd::Lambda);
    assert_eq!(parse_token("b".to_string()), Cmd::Beta);
    assert_eq!(parse_token("redux".to_string()), Cmd::Redux);
    assert_eq!(parse_token("dn".to_string()), Cmd::Down);
    assert_eq!(parse_token("up".to_string()), Cmd::Up);
    assert_eq!(parse_token("top".to_string()), Cmd::Top);
    assert_eq!(parse_token("lm".to_string()), Cmd::LeftMost);
    assert_eq!(parse_token("rm".to_string()), Cmd::RightMost);
    assert_eq!(parse_token("lt".to_string()), Cmd::LeftSib);
    assert_eq!(parse_token("rt".to_string()), Cmd::RightSib);
    assert_eq!(parse_token("$".to_string()), Cmd::ApplyLeft);
    assert_eq!(parse_token("@".to_string()), Cmd::ApplyRight);
    assert_eq!(parse_token("+".to_string()), Cmd::Plus);
    assert_eq!(parse_token("*".to_string()), Cmd::Times);
    assert_eq!(parse_token("^".to_string()), Cmd::Power);
    assert_eq!(parse_token(".".to_string()), Cmd::Dot);
    assert_eq!(parse_token("42".to_string()), Cmd::Num(42));
    assert_eq!(parse_token("0".to_string()), Cmd::Num(0));
    assert_eq!(parse_token("[7]".to_string()), Cmd::VarLit(7));
    assert_eq!(
        parse_token("wibble".to_string()),
        Cmd::Unknown("wibble".to_string())
    );
    // Overflowing numbers are not numbers.
    assert_eq!(
        parse_token("99999999999".to_string()),
        Cmd::Unknown("99999999999".to_string())
    );
}

#[test]
fn diagnostics_have_their_messages() {
    assert_eq!(Diag::Quiet.message(), "");
    assert_eq!(Diag::Boop.message(), "boop");
    assert_eq!(Diag::BoopBeta.message(), "boop(beta)");
    assert_eq!(Diag::BoopRedux.message(), "boop(redux)");
    assert_eq!(
        Diag::Unrecognized("zap".to_string()).message(),
        "unrec'd cmd: zap"
    );
}

#[test]
fn beta_on_non_redex_boops() {
    let mut s = EditorState::new();
    let d = s.exec_cmd(Cmd::Beta);
    assert_eq!(d, Diag::BoopBeta);
    let d2 = s.exec_cmd(Cmd::Redux);
    assert_eq!(d2, Diag::BoopRedux);
    let d3 = s.exec_cmd(Cmd::Up);
    assert_eq!(d3, Diag::Boop);
}

#[test]
fn power_two_four_focus_renders_as_spine() {
    let s = run("^ 2 4");
    assert_eq!(render(&s), "\u{e000}^ 2 4\u{e001}");
}

#[test]
fn power_navigation_keeps_one_cursor_region() {
    let s = run("^ 2 4 redux b dn dn rt rt up");
    let shown = render(&s);
    assert_eq!(shown.chars().filter(|c| *c == '\u{e000}').count(), 1);
    assert_eq!(shown.chars().filter(|c| *c == '\u{e001}').count(), 1);
}

#[test]
fn plus_one_head_normalises_to_succ() {
    let mut s = run("+ 1");
    s.cursor.hnf();
    assert_eq!(render(&s), "\u{e000}SUCC\u{e001}");
}

#[test]
fn plus_one_one_normalises_to_two() {
    let mut s = run("+ 1 $ 1 top");
    loop {
        let d = s.exec_cmd(Cmd::Redux);
        if d != Diag::Quiet {
            break;
        }
        assert_eq!(s.exec_cmd(Cmd::Beta), Diag::Quiet);
        assert_eq!(s.exec_cmd(Cmd::Top), Diag::Quiet);
    }
    assert_eq!(s.cursor.to_nat(), Some(2));
    assert_eq!(render(&s), "\u{e000}2\u{e001}");
}

#[test]
fn power_two_four_normalises_to_sixteen() {
    let mut s = run("^ 2 4 top");
    s.cursor.nf();
    assert_eq!(s.cursor.to_nat(), Some(16));
    assert_eq!(render(&s), "\u{e000}16\u{e001}");
}

#[test]
fn lambda_dot_one_builds_var_under_lambda() {
    let s = run("l . 1 up up up");
    assert_eq!(s.expr, Expr::Slot);
    assert_eq!(s.cursor, lam(Expr::Var(1)));
    assert_eq!(s.leaf_mode, LeafMode::No);
}

#[test]
fn top_then_dn_is_identity_for_lambda_context() {
    let mut s = EditorState::new();
    s.exec_cmd(Cmd::Lambda);
    s.exec_cmd(Cmd::VarLit(3));
    // Context is λ[slot], focus Var(3).
    assert_eq!(s.expr, lam(Expr::Slot));
    let expr_before = s.expr.clone();
    let cursor_before = s.cursor.clone();
    s.exec_cmd(Cmd::Top);
    s.exec_cmd(Cmd::Down);
    assert_eq!(s.expr, expr_before);
    assert_eq!(s.cursor, cursor_before);
}

#[test]
fn dn_then_up_restores_an_application_focus() {
    let mut s = run("^ 2");
    let expr_before = s.expr.clone();
    let cursor_before = s.cursor.clone();
    s.exec_cmd(Cmd::Down);
    s.exec_cmd(Cmd::Up);
    assert_eq!(s.expr, expr_before);
    assert_eq!(s.cursor, cursor_before);
}

#[test]
fn up_collapses_hole_application() {
    // `$` leaves App(cursor, Slot) with a hole focus; `up` then collapses
    // the parent to the other side.
    let mut s = run("[5] $");
    assert_eq!(s.expr, app(Expr::Var(5), Expr::Slot));
    assert_eq!(s.cursor, Expr::Hole);
    s.exec_cmd(Cmd::Up);
    assert_eq!(s.expr, Expr::Slot);
    assert_eq!(s.cursor, Expr::Var(5));
}

#[test]
fn leaf_mode_siblings_swap() {
    // Build (1 2), focus the leftmost leaf, move right, move left.
    let mut s = run("[1] $ [2] top lm");
    assert_eq!(s.leaf_mode, LeafMode::Leaf);
    assert_eq!(s.cursor, Expr::Var(1));
    s.exec_cmd(Cmd::RightSib);
    assert_eq!(s.cursor, Expr::Var(2));
    s.exec_cmd(Cmd::LeftSib);
    assert_eq!(s.cursor, Expr::Var(1));
    // At the outermost leaf the next move exits leaf mode.
    s.exec_cmd(Cmd::LeftSib);
    assert_eq!(s.leaf_mode, LeafMode::No);
}

#[test]
fn backspace_clears_and_unknown_reports() {
    let mut s = run("[5]");
    assert_eq!(s.cursor, Expr::Var(5));
    s.exec_cmd(Cmd::Backspace);
    assert_eq!(s.cursor, Expr::Hole);
    let d = s.exec_cmd(Cmd::Unknown("frob".to_string()));
    assert_eq!(d, Diag::Unrecognized("frob".to_string()));
}

#[test]
fn display_brackets_lambdas_on_the_left() {
    // A lambda on the left of an application is bracketed; a hole
    // renders as the filler glyph. (λ0 itself would print as `I`, so
    // the lambda here is λ1.)
    let t = app(lam(Expr::Var(1)), Expr::Hole);
    let s = EditorState { expr: Expr::Slot, cursor: t, leaf_mode: LeafMode::No };
    assert_eq!(render(&s), "\u{e000}(λ➊) ▪\u{e001}");
}

#[test]
fn display_recognises_combinators() {
    let s = EditorState {
        expr: Expr::Slot,
        cursor: lam(Expr::Var(0)),
        leaf_mode: LeafMode::No,
    };
    assert_eq!(render(&s), "\u{e000}I\u{e001}");
    let k = EditorState {
        expr: Expr::Slot,
        cursor: lam(lam(Expr::Var(1))),
        leaf_mode: LeafMode::No,
    };
    assert_eq!(render(&k), "\u{e000}K\u{e001}");
}

#[test]
fn display_input_dot_and_leaf_mode() {
    let s = run("l .");
    // Input-dot mode with a hole focus shows the entry glyph.
    assert_eq!(render(&s), "λ⬤");
    let s2 = run("l . 1");
    // A leaf-mode variable shows the outlined glyph.
    assert_eq!(render(&s2), "λ➀");
}

#[test]
fn display_large_variables_bracketed() {
    let s = run("[12]");
    assert_eq!(render(&s), "\u{e000}[12]\u{e001}");
}

#[test]
fn invariant_holds_through_mixed_commands() {
    // `run` checks the invariant after every single command.
    run("l l . 1 up up up dn dn bs + 2 $ 3 @ top rm lt rt up lm rm top * ^ . 4 [9] bs");
}

#[test]
fn dot_on_a_non_hole_focus_applies_then_enters() {
    let mut s = run("[3] .");
    assert_eq!(s.expr, app(Expr::Var(3), Expr::Slot));
    assert_eq!(s.cursor, Expr::Hole);
    assert_eq!(s.leaf_mode, LeafMode::InputDot);
    s.exec_cmd(Cmd::Num(0));
    assert_eq!(s.cursor, Expr::Var(0));
    assert_eq!(s.leaf_mode, LeafMode::Leaf);
}

#[test]
fn apply_right_builds_on_the_right() {
    let s = run("[2] @");
    assert_eq!(s.expr, app(Expr::Slot, Expr::Var(2)));
    assert_eq!(s.cursor, Expr::Hole);
}

#[test]
fn rightmost_focus_enters_leaf_mode() {
    let mut s = run("[1] $ [2] top rm");
    assert_eq!(s.cursor, Expr::Var(2));
    assert_eq!(s.leaf_mode, LeafMode::Leaf);
    // At the rightmost leaf, moving right exits leaf mode.
    s.exec_cmd(Cmd::RightSib);
    assert_eq!(s.leaf_mode, LeafMode::No);
}

#[test]
fn times_normalises_to_product() {
    let mut s = run("* 2 $ 3 top");
    s.cursor.nf();
    assert_eq!(s.cursor.to_nat(), Some(6));
}
