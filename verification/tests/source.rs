use cmb::{Args, Defs, Expr};

const FUEL: u64 = 1000;

fn default_defs() -> Defs {
    Args { c: false, w: false, b: false, s: false, k: false, i: false }.to_defs()
}

#[test]
fn assignment_recognizes_a_binding() {
    let d = default_defs();
    let (name, term) = cmb::assignment("a = Kb", &d, FUEL).expect("should bind");
    assert_eq!(name, 'a');
    assert_eq!(term.render(), "Kb");
}

#[test]
fn assignment_allows_spaces_around_the_name() {
    let d = default_defs();
    let (name, term) = cmb::assignment("   q   =  S K ", &d, FUEL).expect("should bind");
    assert_eq!(name, 'q');
    assert_eq!(term.render(), "SK");
}

#[test]
fn assignment_rejects_a_second_character_before_the_equals() {
    let d = default_defs();
    assert!(cmb::assignment("ab = c", &d, FUEL).is_none());
}

#[test]
fn assignment_rejects_a_blank_line() {
    let d = default_defs();
    assert!(cmb::assignment("", &d, FUEL).is_none());
    assert!(cmb::assignment("    ", &d, FUEL).is_none());
}

#[test]
fn assignment_rejects_a_missing_equals_or_body() {
    let d = default_defs();
    assert!(cmb::assignment("a", &d, FUEL).is_none());
    assert!(cmb::assignment("a =", &d, FUEL).is_none());
    assert!(cmb::assignment("a = (", &d, FUEL).is_none());
}

#[test]
fn later_bindings_shadow_earlier_ones() {
    let mut d = default_defs();
    let e = Expr::parse_file("K = S\nKx", &mut d, FUEL).expect("should parse");
    // the payload's K resolves to the S combinator, not the built-in K
    assert_eq!(e.render(), "Sx");
}

#[test]
fn a_binding_does_not_see_itself() {
    let mut d = default_defs();
    // the K on the right-hand side is still the built-in K, so the
    // binding is K applied to S, and `Kab` reduces to `Sb`
    let e = Expr::parse_file("K = KS\nKab", &mut d, FUEL).expect("should parse");
    assert_eq!(e.render(), "Sb");
}

#[test]
fn parse_file_stops_at_the_first_expression() {
    let mut d = default_defs();
    let e = Expr::parse_file("xy\nzw", &mut d, FUEL).expect("should parse");
    assert_eq!(e.render(), "xy");
}

#[test]
fn parse_file_skips_comments_and_uses_bindings() {
    let mut d = default_defs();
    let body = "# a comment\n// another\n-- a third\na = Kq\naw";
    let e = Expr::parse_file(body, &mut d, FUEL).expect("should parse");
    assert_eq!(e.render(), "q");
}

#[test]
fn parse_file_without_a_payload_is_absence() {
    let mut d = default_defs();
    assert!(Expr::parse_file("# only\na = Kq\n   \n(", &mut d, FUEL).is_none());
    // the binding made on the way is kept
    let e = Expr::parse("aw", &d, FUEL).expect("should parse");
    assert_eq!(e.render(), "q");
}

#[test]
fn parse_file_trims_lines_and_strips_carriage_returns() {
    let mut d = default_defs();
    let e = Expr::parse_file("  # indented comment\r\n  Kxy  \r\n", &mut d, FUEL)
        .expect("should parse");
    assert_eq!(e.render(), "x");
}

#[test]
fn combinator_letters_follow_the_configuration() {
    let all = Args { c: true, w: true, b: true, s: false, k: false, i: true };
    assert_eq!(all.comb(), "CWBSKI");
    let none = Args { c: false, w: false, b: false, s: true, k: true, i: false };
    assert_eq!(none.comb(), "");
    let some = Args { c: true, w: false, b: true, s: false, k: true, i: true };
    assert_eq!(some.comb(), "CBSI");
}

#[test]
fn disabled_letters_are_free_for_bindings() {
    let mut d = Args { c: false, w: false, b: false, s: true, k: false, i: false }.to_defs();
    // S is disabled, so it may be redefined as an abbreviation
    let e = Expr::parse_file("S = Kq\nSw", &mut d, FUEL).expect("should parse");
    assert_eq!(e.render(), "q");
}

#[test]
fn fresh_table_binds_nothing() {
    let d = Defs::new();
    let e = Expr::parse("SKI", &d, FUEL).expect("should parse");
    assert_eq!(e.render(), "SKI");
}
