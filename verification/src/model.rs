//! Mathematical model of combinator terms.
//!
//! `TermV` mirrors the executable term type at the specification level;
//! the opaque text of a variable-headed chain is a `Seq<char>`.  The
//! rewrite relation is given by the fuel-indexed function [`app`]:
//! `app(e, o, fuel)` is the result of applying `e` to `o`, or `None`
//! when `fuel` recursion steps do not suffice (reduction of a
//! self-applying term need not terminate).  `app` is monotone and
//! deterministic in the fuel, so `exists|f| app(e, o, f) == Some(r)`
//! pins `r` down uniquely.
use vstd::prelude::*;

verus! {

/// Specification-level term: one variant per saturation state of each
/// primitive combinator, plus free variables and inert text chains.
pub enum TermV {
    /// A single free symbol.
    Var(char),
    /// An inert application chain, tracked only as rendered text.
    Text(Seq<char>),
    S0,
    S1(Box<TermV>),
    S2(Box<TermV>, Box<TermV>),
    K0,
    K1(Box<TermV>),
    W0,
    W1(Box<TermV>),
    C0,
    C1(Box<TermV>),
    C2(Box<TermV>, Box<TermV>),
    B0,
    B1(Box<TermV>),
    B2(Box<TermV>, Box<TermV>),
    I,
}

/// An atomic term renders as a single letter and needs no parentheses
/// in argument position.
pub open spec fn atomicv(t: TermV) -> bool {
    match t {
        TermV::Var(_) => true,
        TermV::S0 => true,
        TermV::K0 => true,
        TermV::W0 => true,
        TermV::C0 => true,
        TermV::B0 => true,
        TermV::I => true,
        _ => false,
    }
}

/// Canonical head form: bare combinator letter followed by the
/// argument forms of the bound arguments, variable character, or
/// accumulated opaque text.
pub open spec fn renderv(t: TermV) -> Seq<char>
    decreases t, 0int,
{
    match t {
        TermV::Var(c) => seq![c],
        TermV::Text(s) => s,
        TermV::S0 => seq!['S'],
        TermV::S1(x) => seq!['S'] + wrapv(*x),
        TermV::S2(x, y) => seq!['S'] + wrapv(*x) + wrapv(*y),
        TermV::K0 => seq!['K'],
        TermV::K1(x) => seq!['K'] + wrapv(*x),
        TermV::W0 => seq!['W'],
        TermV::W1(x) => seq!['W'] + wrapv(*x),
        TermV::C0 => seq!['C'],
        TermV::C1(x) => seq!['C'] + wrapv(*x),
        TermV::C2(x, y) => seq!['C'] + wrapv(*x) + wrapv(*y),
        TermV::B0 => seq!['B'],
        TermV::B1(x) => seq!['B'] + wrapv(*x),
        TermV::B2(x, y) => seq!['B'] + wrapv(*x) + wrapv(*y),
        TermV::I => seq!['I'],
    }
}

/// Argument form: like [`renderv`] for atomic terms, parenthesized for
/// compound ones.  This is exactly the parenthesization a re-parse
/// needs to see the argument as one token.
pub open spec fn wrapv(t: TermV) -> Seq<char>
    decreases t, 1int,
{
    if atomicv(t) {
        renderv(t)
    } else {
        seq!['('] + renderv(t) + seq![')']
    }
}

/// One application, with at most `fuel` nested rewrite steps.
///
/// Every head variant is total in itself: a variable or text head grows
/// its text, an unsaturated combinator stores the argument, and a
/// combinator at arity minus one fires its rule, which re-applies and
/// may recurse without bound — hence the fuel.
pub open spec fn app(e: TermV, o: TermV, fuel: nat) -> Option<TermV>
    decreases fuel,
{
    if fuel == 0 {
        None
    } else {
        let f = (fuel - 1) as nat;
        match e {
            TermV::Var(c) => Some(TermV::Text(seq![c] + wrapv(o))),
            TermV::Text(s) => Some(TermV::Text(s + wrapv(o))),
            TermV::S0 => Some(TermV::S1(Box::new(o))),
            TermV::S1(x) => Some(TermV::S2(x, Box::new(o))),
            TermV::S2(x, y) => match app(*x, o, f) {
                Some(a) => match app(*y, o, f) {
                    Some(b) => app(a, b, f),
                    None => None,
                },
                None => None,
            },
            TermV::K0 => Some(TermV::K1(Box::new(o))),
            TermV::K1(x) => Some(*x),
            TermV::W0 => Some(TermV::W1(Box::new(o))),
            TermV::W1(x) => match app(*x, o, f) {
                Some(a) => app(a, o, f),
                None => None,
            },
            TermV::C0 => Some(TermV::C1(Box::new(o))),
            TermV::C1(x) => Some(TermV::C2(x, Box::new(o))),
            TermV::C2(x, y) => match app(*x, o, f) {
                Some(a) => app(a, *y, f),
                None => None,
            },
            TermV::B0 => Some(TermV::B1(Box::new(o))),
            TermV::B1(x) => Some(TermV::B2(x, Box::new(o))),
            TermV::B2(x, y) => match app(*y, o, f) {
                Some(b) => app(*x, b, f),
                None => None,
            },
            TermV::I => Some(o),
        }
    }
}

/// `e` applied to `o` converges to `r` after finitely many steps.
pub open spec fn applies_to(e: TermV, o: TermV, r: TermV) -> bool {
    exists|f: nat| app(e, o, f) == Some(r)
}

/// More fuel never changes a result that already converged.
pub proof fn lemma_app_mono(e: TermV, o: TermV, f: nat, g: nat)
    requires
        f <= g,
        app(e, o, f) is Some,
    ensures
        app(e, o, g) == app(e, o, f),
    decreases f,
{
    if f > 0 {
        let fp = (f - 1) as nat;
        let gp = (g - 1) as nat;
        match e {
            TermV::S2(x, y) => {
                let a = app(*x, o, fp).unwrap();
                lemma_app_mono(*x, o, fp, gp);
                let b = app(*y, o, fp).unwrap();
                lemma_app_mono(*y, o, fp, gp);
                lemma_app_mono(a, b, fp, gp);
            },
            TermV::W1(x) => {
                let a = app(*x, o, fp).unwrap();
                lemma_app_mono(*x, o, fp, gp);
                lemma_app_mono(a, o, fp, gp);
            },
            TermV::C2(x, y) => {
                let a = app(*x, o, fp).unwrap();
                lemma_app_mono(*x, o, fp, gp);
                lemma_app_mono(a, *y, fp, gp);
            },
            TermV::B2(x, y) => {
                let b = app(*y, o, fp).unwrap();
                lemma_app_mono(*y, o, fp, gp);
                lemma_app_mono(*x, b, fp, gp);
            },
            _ => {},
        }
    }
}

/// Two converging runs of the same application agree: the fuel only
/// decides whether an answer is reached, never which one.
pub proof fn lemma_app_det(e: TermV, o: TermV, f: nat, g: nat)
    requires
        app(e, o, f) is Some,
        app(e, o, g) is Some,
    ensures
        app(e, o, f) == app(e, o, g),
{
    if f <= g {
        lemma_app_mono(e, o, f, g);
    } else {
        lemma_app_mono(e, o, g, f);
    }
}

} // verus!
