//! The enabled-combinator configuration.
//!
//! `S` and `K` are on unless switched off; `W`, `C`, `B` and `I` are
//! opt-in.  Each enabled letter is bound to its bare combinator in the
//! initial definition table; a disabled letter stays free, so a user
//! may redefine it like any other character.
use vstd::prelude::*;
use vstd::string::*;

use crate::defs::Defs;
use crate::model::TermV;
use crate::term::Expr;

verus! {

/// Which primitive combinators a session enables.
pub struct Args {
    /// Enable `C`.
    pub c: bool,
    /// Enable `W`.
    pub w: bool,
    /// Enable `B`.
    pub b: bool,
    /// Disable `S`.
    pub s: bool,
    /// Disable `K`.
    pub k: bool,
    /// Enable `I`.
    pub i: bool,
}

/// The bare combinator a letter stands for.
pub open spec fn prim_of(ch: char) -> TermV {
    if ch == 'S' {
        TermV::S0
    } else if ch == 'K' {
        TermV::K0
    } else if ch == 'W' {
        TermV::W0
    } else if ch == 'C' {
        TermV::C0
    } else if ch == 'B' {
        TermV::B0
    } else {
        TermV::I
    }
}

/// Whether the configuration enables the letter.
pub open spec fn enabled(a: Args, ch: char) -> bool {
    (ch == 'C' && a.c) || (ch == 'W' && a.w) || (ch == 'B' && a.b) || (ch == 'S' && !a.s) || (ch
        == 'K' && !a.k) || (ch == 'I' && a.i)
}

/// The letters of the enabled combinators, in the order the prompt
/// shows them.
pub open spec fn combv(a: Args) -> Seq<char> {
    (if a.c {
        seq!['C']
    } else {
        Seq::<char>::empty()
    }) + (if a.w {
        seq!['W']
    } else {
        Seq::<char>::empty()
    }) + (if a.b {
        seq!['B']
    } else {
        Seq::<char>::empty()
    }) + (if !a.s {
        seq!['S']
    } else {
        Seq::<char>::empty()
    }) + (if !a.k {
        seq!['K']
    } else {
        Seq::<char>::empty()
    }) + (if a.i {
        seq!['I']
    } else {
        Seq::<char>::empty()
    })
}

impl Args {
    /// The initial definition table: each enabled letter bound to its
    /// bare combinator, nothing else bound.
    pub fn to_defs(&self) -> (d: Defs)
        ensures
            forall|ch: char| d@.contains_key(ch) == enabled(*self, ch),
            forall|ch: char| enabled(*self, ch) ==> d@[ch] == prim_of(ch),
    {
        let mut out = Defs::new();
        if self.c {
            out.insert('C', Expr::C0);
        }
        if self.w {
            out.insert('W', Expr::W0);
        }
        if self.b {
            out.insert('B', Expr::B0);
        }
        if !self.s {
            out.insert('S', Expr::S0);
        }
        if !self.k {
            out.insert('K', Expr::K0);
        }
        if self.i {
            out.insert('I', Expr::I);
        }
        out
    }

    /// The letters of the enabled combinators, for display.
    #[verifier::rlimit(60)]
    pub fn comb(&self) -> (r: String)
        ensures
            r@ == combv(*self),
    {
        proof {
            reveal_strlit("C");
            reveal_strlit("W");
            reveal_strlit("B");
            reveal_strlit("S");
            reveal_strlit("K");
            reveal_strlit("I");
        }
        let ghost p0 = Seq::<char>::empty();
        let ghost p1 = p0 + (if self.c { seq!['C'] } else { Seq::<char>::empty() });
        let ghost p2 = p1 + (if self.w { seq!['W'] } else { Seq::<char>::empty() });
        let ghost p3 = p2 + (if self.b { seq!['B'] } else { Seq::<char>::empty() });
        let ghost p4 = p3 + (if !self.s { seq!['S'] } else { Seq::<char>::empty() });
        let ghost p5 = p4 + (if !self.k { seq!['K'] } else { Seq::<char>::empty() });
        let ghost p6 = p5 + (if self.i { seq!['I'] } else { Seq::<char>::empty() });
        let mut out = String::new();
        if self.c {
            out.append("C");
        }
        proof {
            assert(out@ =~= p1);
        }
        if self.w {
            out.append("W");
        }
        proof {
            assert(out@ =~= p2);
        }
        if self.b {
            out.append("B");
        }
        proof {
            assert(out@ =~= p3);
        }
        if !self.s {
            out.append("S");
        }
        proof {
            assert(out@ =~= p4);
        }
        if !self.k {
            out.append("K");
        }
        proof {
            assert(out@ =~= p5);
        }
        if self.i {
            out.append("I");
        }
        proof {
            assert(out@ =~= p6);
            assert(p6 =~= combv(*self));
        }
        out
    }
}

} // verus!
