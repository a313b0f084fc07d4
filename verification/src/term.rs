//! The executable term type and its canonical renderer.
use vstd::prelude::*;
use vstd::string::*;

use crate::model::{renderv, wrapv, TermV};

verus! {

/// A combinator term.
///
/// For each primitive combinator `X` of arity `n` there is one variant
/// per saturation state `X0 .. X(n-1)`; applying the `n-1` state once
/// more fires the rewrite rule instead of storing the argument
/// (`I` has arity 1 and reduces from its bare state).  A chain whose
/// head was a free variable is kept only as its rendered text in
/// `LongVar`; such a term is permanently inert, further arguments only
/// grow the text.
pub enum Expr {
    Variable(char),
    LongVar(String),
    S0,
    S1(Box<Expr>),
    S2(Box<Expr>, Box<Expr>),
    K0,
    K1(Box<Expr>),
    W0,
    W1(Box<Expr>),
    C0,
    C1(Box<Expr>),
    C2(Box<Expr>, Box<Expr>),
    B0,
    B1(Box<Expr>),
    B2(Box<Expr>, Box<Expr>),
    I,
}

/// The model value of an executable term.
pub open spec fn ev(e: Expr) -> TermV
    decreases e,
{
    match e {
        Expr::Variable(c) => TermV::Var(c),
        Expr::LongVar(s) => TermV::Text(s@),
        Expr::S0 => TermV::S0,
        Expr::S1(x) => TermV::S1(Box::new(ev(*x))),
        Expr::S2(x, y) => TermV::S2(Box::new(ev(*x)), Box::new(ev(*y))),
        Expr::K0 => TermV::K0,
        Expr::K1(x) => TermV::K1(Box::new(ev(*x))),
        Expr::W0 => TermV::W0,
        Expr::W1(x) => TermV::W1(Box::new(ev(*x))),
        Expr::C0 => TermV::C0,
        Expr::C1(x) => TermV::C1(Box::new(ev(*x))),
        Expr::C2(x, y) => TermV::C2(Box::new(ev(*x)), Box::new(ev(*y))),
        Expr::B0 => TermV::B0,
        Expr::B1(x) => TermV::B1(Box::new(ev(*x))),
        Expr::B2(x, y) => TermV::B2(Box::new(ev(*x)), Box::new(ev(*y))),
        Expr::I => TermV::I,
    }
}

impl View for Expr {
    type V = TermV;

    open spec fn view(&self) -> TermV {
        ev(*self)
    }
}

impl Clone for Expr {
    fn clone(&self) -> (r: Self)
        ensures
            r@ == self@,
        decreases self,
    {
        match self {
            Expr::Variable(c) => Expr::Variable(*c),
            Expr::LongVar(s) => Expr::LongVar(s.clone()),
            Expr::S0 => Expr::S0,
            Expr::S1(x) => Expr::S1(Box::new((&**x).clone())),
            Expr::S2(x, y) => Expr::S2(Box::new((&**x).clone()), Box::new((&**y).clone())),
            Expr::K0 => Expr::K0,
            Expr::K1(x) => Expr::K1(Box::new((&**x).clone())),
            Expr::W0 => Expr::W0,
            Expr::W1(x) => Expr::W1(Box::new((&**x).clone())),
            Expr::C0 => Expr::C0,
            Expr::C1(x) => Expr::C1(Box::new((&**x).clone())),
            Expr::C2(x, y) => Expr::C2(Box::new((&**x).clone()), Box::new((&**y).clone())),
            Expr::B0 => Expr::B0,
            Expr::B1(x) => Expr::B1(Box::new((&**x).clone())),
            Expr::B2(x, y) => Expr::B2(Box::new((&**x).clone()), Box::new((&**y).clone())),
            Expr::I => Expr::I,
        }
    }
}

/// The model value of an optional term.
pub open spec fn view_opt(r: Option<Expr>) -> Option<TermV> {
    match r {
        Some(e) => Some(e@),
        None => None,
    }
}

/// Relies on `char::to_string`: the returned string holds exactly the
/// one character.
#[verifier::external_body]
pub(crate) fn char_string(c: char) -> (r: String)
    ensures
        r@ == seq![c],
{
    c.to_string()
}

impl Expr {
    /// Canonical textual form: the head's letter, variable character or
    /// opaque text, followed by the argument form of each bound argument.
    pub fn render(&self) -> (r: String)
        ensures
            r@ == renderv(self@),
        decreases self, 0int,
    {
        proof {
            reveal_strlit("S");
            reveal_strlit("K");
            reveal_strlit("W");
            reveal_strlit("C");
            reveal_strlit("B");
            reveal_strlit("I");
        }
        match self {
            Expr::Variable(c) => char_string(*c),
            Expr::LongVar(s) => s.clone(),
            Expr::S0 => String::from_str("S"),
            Expr::S1(x) => {
                let ax = (&**x).arg();
                String::from_str("S").concat(ax.as_str())
            },
            Expr::S2(x, y) => {
                let ax = (&**x).arg();
                let ay = (&**y).arg();
                String::from_str("S").concat(ax.as_str()).concat(ay.as_str())
            },
            Expr::K0 => String::from_str("K"),
            Expr::K1(x) => {
                let ax = (&**x).arg();
                String::from_str("K").concat(ax.as_str())
            },
            Expr::W0 => String::from_str("W"),
            Expr::W1(x) => {
                let ax = (&**x).arg();
                String::from_str("W").concat(ax.as_str())
            },
            Expr::C0 => String::from_str("C"),
            Expr::C1(x) => {
                let ax = (&**x).arg();
                String::from_str("C").concat(ax.as_str())
            },
            Expr::C2(x, y) => {
                let ax = (&**x).arg();
                let ay = (&**y).arg();
                String::from_str("C").concat(ax.as_str()).concat(ay.as_str())
            },
            Expr::B0 => String::from_str("B"),
            Expr::B1(x) => {
                let ax = (&**x).arg();
                String::from_str("B").concat(ax.as_str())
            },
            Expr::B2(x, y) => {
                let ax = (&**x).arg();
                let ay = (&**y).arg();
                String::from_str("B").concat(ax.as_str()).concat(ay.as_str())
            },
            Expr::I => String::from_str("I"),
        }
    }

    /// Argument form: identical to [`Expr::render`] for atomic terms,
    /// parenthesized for compound ones, so that a re-parse reads the
    /// term back as a single token.
    pub fn arg(&self) -> (r: String)
        ensures
            r@ == wrapv(self@),
        decreases self, 1int,
    {
        proof {
            reveal_strlit("(");
            reveal_strlit(")");
        }
        match self {
            Expr::Variable(_)
            | Expr::S0
            | Expr::K0
            | Expr::W0
            | Expr::C0
            | Expr::B0
            | Expr::I => self.render(),
            _ => {
                let inner = self.render();
                String::from_str("(").concat(inner.as_str()).concat(")")
            },
        }
    }
}

} // verus!
