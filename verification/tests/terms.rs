use cmb::{Args, Defs, Expr};

const FUEL: u64 = 1000;

fn default_defs() -> Defs {
    Args { c: false, w: false, b: false, s: false, k: false, i: false }.to_defs()
}

fn all_defs() -> Defs {
    Args { c: true, w: true, b: true, s: false, k: false, i: true }.to_defs()
}

fn run(src: &str, d: &Defs) -> String {
    Expr::parse(src, d, FUEL).expect("should parse").render()
}

#[test]
fn bare_combinators_render_as_themselves() {
    let d = default_defs();
    assert_eq!(run("S", &d), "S");
    assert_eq!(run("K", &d), "K");
    assert_eq!(run("I", &d), "I");
}

#[test]
fn s_rule() {
    let d = default_defs();
    assert_eq!(run("Sxyz", &d), "xz(yz)");
}

#[test]
fn k_rule_discards_second_argument() {
    let d = default_defs();
    assert_eq!(run("Kxy", &d), "x");
}

#[test]
fn w_rule() {
    let d = all_defs();
    assert_eq!(run("Wxy", &d), "xyy");
}

#[test]
fn c_rule() {
    let d = all_defs();
    assert_eq!(run("Cxyz", &d), "xzy");
}

#[test]
fn b_rule() {
    let d = all_defs();
    assert_eq!(run("Bxyz", &d), "x(yz)");
}

#[test]
fn i_rule() {
    let d = all_defs();
    assert_eq!(run("Ix", &d), "x");
}

#[test]
fn i_unbound_is_a_variable() {
    let d = default_defs();
    assert_eq!(run("Ix", &d), "Ix");
}

#[test]
fn partial_applications_store_arguments() {
    let d = all_defs();
    assert_eq!(run("Sx", &d), "Sx");
    assert_eq!(run("Sxy", &d), "Sxy");
    assert_eq!(run("Kx", &d), "Kx");
    assert_eq!(run("Cx", &d), "Cx");
    assert_eq!(run("Cxy", &d), "Cxy");
    assert_eq!(run("Bxy", &d), "Bxy");
    assert_eq!(run("Wx", &d), "Wx");
}

#[test]
fn rendering_round_trips_through_the_parser() {
    let d = all_defs();
    for src in ["S(Ka)(Wb)", "B(Ca)b", "Sab", "q", "S", "W(W(Wa))", "C(ab)(cd)"] {
        // terms of primitives and variables render as a fixed point
        let once = run(src, &d);
        let again = run(&once, &d);
        assert_eq!(once, again);
    }
    assert_eq!(run("S(Ka)(Wb)", &d), "S(Ka)(Wb)");
}

#[test]
fn unmatched_open_paren_is_absence() {
    let d = default_defs();
    assert!(Expr::parse("(x", &d, FUEL).is_none());
    assert!(Expr::parse("((xy", &d, FUEL).is_none());
}

#[test]
fn doubled_parentheses_do_not_change_the_term() {
    let d = default_defs();
    assert_eq!(run("((x))", &d), run("x", &d));
    assert_eq!(run("((Sxyz))", &d), "xz(yz)");
}

#[test]
fn empty_group_is_absence() {
    let d = default_defs();
    assert!(Expr::parse("()", &d, FUEL).is_none());
    assert!(Expr::parse("a()", &d, FUEL).is_none());
}

#[test]
fn blank_input_is_absence() {
    let d = default_defs();
    assert!(Expr::parse("", &d, FUEL).is_none());
    assert!(Expr::parse("   ", &d, FUEL).is_none());
}

#[test]
fn spaces_between_tokens_are_ignored() {
    let d = default_defs();
    assert_eq!(run(" S x y z ", &d), "xz(yz)");
}

#[test]
fn exhausted_budget_is_absence() {
    let d = default_defs();
    assert!(Expr::parse("xy", &d, 0).is_none());
    assert_eq!(run("Sxyz", &d), Expr::parse("Sxyz", &d, 10).unwrap().render());
}

#[test]
fn diverging_reduction_exhausts_any_budget() {
    let d = all_defs();
    // SII(SII) reduces to itself forever
    assert!(Expr::parse("SII(SII)", &d, 8).is_none());
}

#[test]
fn apply_follows_the_rewrite_table() {
    let s1 = Expr::S0.apply(Expr::Variable('x'), FUEL).unwrap();
    assert_eq!(s1.render(), "Sx");
    let s2 = s1.apply(Expr::Variable('y'), FUEL).unwrap();
    assert_eq!(s2.render(), "Sxy");
    let fired = s2.apply(Expr::Variable('z'), FUEL).unwrap();
    assert_eq!(fired.render(), "xz(yz)");
    assert!(Expr::S0.apply(Expr::I, 0).is_none());
}

#[test]
fn opaque_chains_only_grow_text() {
    let d = default_defs();
    // once the head is a free variable, structure is kept only as text
    let e = Expr::parse("xKS", &d, FUEL).unwrap();
    assert_eq!(e.render(), "xKS");
    let grown = e.apply(Expr::K0, FUEL).unwrap();
    assert_eq!(grown.render(), "xKSK");
}

#[test]
fn argument_form_parenthesizes_compounds_only() {
    let d = all_defs();
    let atom = Expr::parse("S", &d, FUEL).unwrap();
    assert_eq!(atom.arg(), "S");
    let compound = Expr::parse("Sx", &d, FUEL).unwrap();
    assert_eq!(compound.arg(), "(Sx)");
    let opaque = Expr::parse("xy", &d, FUEL).unwrap();
    assert_eq!(opaque.arg(), "(xy)");
}
