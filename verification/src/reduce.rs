//! The reduction engine.
//!
//! `apply` follows the rewrite table of the primitive combinators.  The
//! rules that re-apply their results (`S`, `W`, `C`, `B`) recurse with
//! no structural bound, and a self-applying term need not converge at
//! all, so the engine takes an explicit step budget.  Its result is
//! exactly the model function [`app`] at that budget: `None` means the
//! budget was exhausted, never anything else, and by
//! [`crate::model::lemma_app_mono`] and [`crate::model::lemma_app_det`]
//! a converged answer is independent of the budget.
use vstd::prelude::*;

use crate::model::{app, TermV};
use crate::term::{char_string, view_opt, Expr};

verus! {

impl Expr {
    /// Apply a term to an argument, spending at most `fuel` rewrite
    /// steps.
    ///
    /// A variable or text head grows its text, an unsaturated
    /// combinator stores the argument, and a combinator at arity minus
    /// one fires its rule.
    pub fn apply(self, other: Expr, fuel: u64) -> (r: Option<Expr>)
        ensures
            view_opt(r) == app(self@, other@, fuel as nat),
        decreases fuel,
    {
        if fuel == 0 {
            return None;
        }
        let f = fuel - 1;
        match self {
            Expr::Variable(c) => {
                let t = char_string(c);
                Some(Expr::LongVar(t.concat(other.arg().as_str())))
            },
            Expr::LongVar(s) => Some(Expr::LongVar(s.concat(other.arg().as_str()))),
            Expr::S0 => Some(Expr::S1(Box::new(other))),
            Expr::S1(x) => Some(Expr::S2(x, Box::new(other))),
            Expr::S2(x, y) => {
                let a = match (*x).apply(other.clone(), f) {
                    Some(a) => a,
                    None => {
                        return None;
                    },
                };
                let b = match (*y).apply(other, f) {
                    Some(b) => b,
                    None => {
                        return None;
                    },
                };
                a.apply(b, f)
            },
            Expr::K0 => Some(Expr::K1(Box::new(other))),
            Expr::K1(x) => Some(*x),
            Expr::W0 => Some(Expr::W1(Box::new(other))),
            Expr::W1(x) => {
                let a = match (*x).apply(other.clone(), f) {
                    Some(a) => a,
                    None => {
                        return None;
                    },
                };
                a.apply(other, f)
            },
            Expr::C0 => Some(Expr::C1(Box::new(other))),
            Expr::C1(x) => Some(Expr::C2(x, Box::new(other))),
            Expr::C2(x, y) => {
                let a = match (*x).apply(other, f) {
                    Some(a) => a,
                    None => {
                        return None;
                    },
                };
                a.apply(*y, f)
            },
            Expr::B0 => Some(Expr::B1(Box::new(other))),
            Expr::B1(x) => Some(Expr::B2(x, Box::new(other))),
            Expr::B2(x, y) => {
                let b = match (*y).apply(other, f) {
                    Some(b) => b,
                    None => {
                        return None;
                    },
                };
                (*x).apply(b, f)
            },
            Expr::I => Some(other),
        }
    }
}

} // verus!
