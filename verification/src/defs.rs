//! The definition table: single-character names bound to terms.
//!
//! Modelled as a `Map<char, TermV>`; a later binding for the same name
//! shadows an earlier one, exactly as repeated insertion does on the
//! model map.
use vstd::prelude::*;

use crate::model::TermV;
use crate::term::Expr;

verus! {

/// A table of single-character definitions, threaded through parsing.
pub struct Defs {
    pairs: Vec<(char, Expr)>,
}

/// The map a run of bindings denotes: later entries win.
spec fn defs_map(s: Seq<(char, Expr)>) -> Map<char, TermV>
    decreases s.len(),
{
    if s.len() == 0 {
        Map::empty()
    } else {
        defs_map(s.drop_last()).insert(s.last().0, s.last().1@)
    }
}

impl View for Defs {
    type V = Map<char, TermV>;

    closed spec fn view(&self) -> Map<char, TermV> {
        defs_map(self.pairs@)
    }
}

impl Defs {
    /// The empty table.
    pub fn new() -> (d: Defs)
        ensures
            d@ == Map::<char, TermV>::empty(),
    {
        Defs { pairs: Vec::new() }
    }

    /// Bind `c` to `e`, shadowing any earlier binding of `c`.
    pub fn insert(&mut self, c: char, e: Expr)
        ensures
            final(self)@ == old(self)@.insert(c, e@),
    {
        self.pairs.push((c, e));
        proof {
            assert(self.pairs@.drop_last() =~= old(self).pairs@);
        }
    }

    /// Look the name `c` up and hand out a copy of its binding.
    pub fn lookup(&self, c: char) -> (r: Option<Expr>)
        ensures
            (r is Some) == self@.contains_key(c),
            r is Some ==> r.unwrap()@ == self@[c],
    {
        match self.get(c) {
            Some(e) => Some(e.clone()),
            None => None,
        }
    }

    /// Look the name `c` up; the most recent binding wins.
    pub fn get(&self, c: char) -> (r: Option<&Expr>)
        ensures
            match r {
                Some(e) => self@.contains_key(c) && e@ == self@[c],
                None => !self@.contains_key(c),
            },
    {
        let mut i = self.pairs.len();
        proof {
            assert(self.pairs@.subrange(0, i as int) =~= self.pairs@);
        }
        while i > 0
            invariant
                i <= self.pairs@.len(),
                defs_map(self.pairs@).contains_key(c) == defs_map(
                    self.pairs@.subrange(0, i as int),
                ).contains_key(c),
                defs_map(self.pairs@).contains_key(c) ==> defs_map(self.pairs@)[c] == defs_map(
                    self.pairs@.subrange(0, i as int),
                )[c],
            decreases i,
        {
            let p = &self.pairs[i - 1];
            let ghost pre = self.pairs@.subrange(0, i as int);
            proof {
                assert(pre.drop_last() =~= self.pairs@.subrange(0, i - 1));
                assert(pre.last() == self.pairs@[i - 1]);
            }
            if p.0 == c {
                return Some(&p.1);
            }
            i = i - 1;
        }
        proof {
            assert(self.pairs@.subrange(0, 0) =~= Seq::<(char, Expr)>::empty());
        }
        None
    }
}

} // verus!
