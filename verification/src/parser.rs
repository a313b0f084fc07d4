//! The recursive parser.
//!
//! Source text is scanned left to right.  Spaces are skipped; an
//! opening parenthesis groups everything up to its matching close into
//! one token, parsed recursively; a character bound in the definition
//! table stands for its bound term; any other character is a fresh
//! variable.  The token sequence is then left-folded by application.
//! An unmatched opening parenthesis, or no token at all, yields
//! absence.
//!
//! The model functions [`close_off`], [`parse_toks`], [`foldv`] and
//! [`parsev`] state this scan over `Seq<char>`; the executable parser
//! returns exactly `parsev` of its input at the given step budget.
use vstd::prelude::*;
use vstd::string::*;

use crate::defs::Defs;
use crate::model::{app, lemma_app_mono, TermV};
use crate::term::{view_opt, Expr};

verus! {

/// Index of the closing parenthesis that brings the nesting `depth`
/// back to zero, if any: the first `)` at depth one.
pub open spec fn close_off(s: Seq<char>, depth: nat) -> Option<nat>
    decreases s.len(),
{
    if s.len() == 0 {
        None
    } else if s[0] == ')' {
        if depth == 1 {
            Some(0)
        } else {
            match close_off(s.skip(1), (depth - 1) as nat) {
                Some(j) => Some(j + 1),
                None => None,
            }
        }
    } else if s[0] == '(' {
        match close_off(s.skip(1), depth + 1) {
            Some(j) => Some(j + 1),
            None => None,
        }
    } else {
        match close_off(s.skip(1), depth) {
            Some(j) => Some(j + 1),
            None => None,
        }
    }
}

/// A matching close lies inside the scanned text, on a `)`.
pub proof fn lemma_close_off_bound(s: Seq<char>, depth: nat)
    requires
        close_off(s, depth) is Some,
    ensures
        close_off(s, depth).unwrap() < s.len(),
        s[close_off(s, depth).unwrap() as int] == ')',
    decreases s.len(),
{
    let j = close_off(s, depth).unwrap();
    if s[0] == ')' && depth == 1 {
    } else if s[0] == ')' {
        lemma_close_off_bound(s.skip(1), (depth - 1) as nat);
    } else if s[0] == '(' {
        lemma_close_off_bound(s.skip(1), depth + 1);
    } else {
        lemma_close_off_bound(s.skip(1), depth);
    }
}

/// The token sequence of a scan, with groups parsed recursively.
pub open spec fn parse_toks(s: Seq<char>, d: Map<char, TermV>, fuel: nat) -> Option<Seq<TermV>>
    decreases s.len(), 0int,
{
    if s.len() == 0 {
        Some(Seq::empty())
    } else if s[0] == ' ' {
        parse_toks(s.skip(1), d, fuel)
    } else if s[0] == '(' {
        match close_off(s.skip(1), 1) {
            None => None,
            Some(j) => if 1 + j < s.len() {
                match parsev(s.subrange(1, 1 + j as int), d, fuel) {
                    None => None,
                    Some(t) => match parse_toks(s.skip(2 + j as int), d, fuel) {
                        None => None,
                        Some(ts) => Some(seq![t] + ts),
                    },
                }
            } else {
                None
            },
        }
    } else {
        let t = if d.contains_key(s[0]) {
            d[s[0]]
        } else {
            TermV::Var(s[0])
        };
        match parse_toks(s.skip(1), d, fuel) {
            None => None,
            Some(ts) => Some(seq![t] + ts),
        }
    }
}

/// Left fold of the token sequence by application: the first token is
/// the initial term, each later token is applied to the accumulator.
/// No token at all is absence.
pub open spec fn foldv(ts: Seq<TermV>, fuel: nat) -> Option<TermV>
    decreases ts.len(),
{
    if ts.len() == 0 {
        None
    } else if ts.len() == 1 {
        Some(ts[0])
    } else {
        match foldv(ts.drop_last(), fuel) {
            Some(a) => app(a, ts.last(), fuel),
            None => None,
        }
    }
}

/// What parsing `s` under the table `d` yields with step budget
/// `fuel`: the left fold of the token sequence.
pub open spec fn parsev(s: Seq<char>, d: Map<char, TermV>, fuel: nat) -> Option<TermV>
    decreases s.len(), 1int,
{
    match parse_toks(s, d, fuel) {
        None => None,
        Some(ts) => foldv(ts, fuel),
    }
}

/// The model values of a run of terms.
pub open spec fn views(s: Seq<Expr>) -> Seq<TermV> {
    s.map_values(|e: Expr| e@)
}

/// The characters of a string, one by one.
pub(crate) fn chars_of(s: &str) -> (cs: Vec<char>)
    ensures
        cs@ == s@,
{
    let n = s.unicode_len();
    let mut cs: Vec<char> = Vec::new();
    let mut i: usize = 0;
    while i < n
        invariant
            n == s@.len(),
            i <= n,
            cs@ =~= s@.subrange(0, i as int),
        decreases n - i,
    {
        let c = s.get_char(i);
        cs.push(c);
        proof {
            assert(s@.subrange(0, i + 1 as int) =~= s@.subrange(0, i as int).push(c));
        }
        i = i + 1;
    }
    proof {
        assert(s@.subrange(0, n as int) =~= s@);
    }
    cs
}

/// Scan for the closing parenthesis matching `depth` opens, from `i`
/// up to `end`.
fn close_idx(cs: &Vec<char>, i: usize, end: usize, depth: usize) -> (r: Option<usize>)
    requires
        i <= end,
        end <= cs@.len(),
        1 <= depth,
        depth <= usize::MAX - (end - i),
    ensures
        match r {
            Some(k) => i <= k < end && close_off(cs@.subrange(i as int, end as int), depth as nat)
                == Some((k - i) as nat),
            None => close_off(cs@.subrange(i as int, end as int), depth as nat) is None,
        },
    decreases end - i,
{
    let ghost sub = cs@.subrange(i as int, end as int);
    if i >= end {
        return None;
    }
    proof {
        assert(sub[0] == cs@[i as int]);
        assert(sub.skip(1) =~= cs@.subrange(i + 1 as int, end as int));
    }
    let c = cs[i];
    if c == ')' {
        if depth == 1 {
            Some(i)
        } else {
            match close_idx(cs, i + 1, end, depth - 1) {
                Some(k) => Some(k),
                None => None,
            }
        }
    } else if c == '(' {
        match close_idx(cs, i + 1, end, depth + 1) {
            Some(k) => Some(k),
            None => None,
        }
    } else {
        match close_idx(cs, i + 1, end, depth) {
            Some(k) => Some(k),
            None => None,
        }
    }
}

/// Collect the tokens of `cs[i..end]` into `out`; `false` reports an
/// unmatched opening parenthesis, an empty group or an exhausted
/// budget inside a group.
#[verifier::rlimit(60)]
fn toks_range(cs: &Vec<char>, i: usize, end: usize, d: &Defs, fuel: u64, out: &mut Vec<Expr>) -> (ok:
    bool)
    requires
        i <= end,
        end <= cs@.len(),
    ensures
        ok == (parse_toks(cs@.subrange(i as int, end as int), d@, fuel as nat) is Some),
        ok ==> final(out)@.len() >= old(out)@.len() && final(out)@.subrange(
            0,
            old(out)@.len() as int,
        ) == old(out)@ && views(final(out)@.skip(old(out)@.len() as int)) == parse_toks(
            cs@.subrange(i as int, end as int),
            d@,
            fuel as nat,
        ).unwrap(),
    decreases end - i, 0int,
{
    let ghost sub = cs@.subrange(i as int, end as int);
    let ghost base = out@.len() as int;
    if i >= end {
        proof {
            assert(sub =~= Seq::<char>::empty());
            assert(out@.subrange(0, base) =~= out@);
            assert(out@.skip(base) =~= Seq::<Expr>::empty());
            assert(views(Seq::<Expr>::empty()) =~= Seq::<TermV>::empty());
        }
        true
    } else {
        proof {
            assert(sub[0] == cs@[i as int]);
            assert(sub.skip(1) =~= cs@.subrange(i + 1 as int, end as int));
        }
        let c = cs[i];
        if c == ' ' {
            toks_range(cs, i + 1, end, d, fuel, out)
        } else if c == '(' {
            match close_idx(cs, i + 1, end, 1) {
                None => false,
                Some(cj) => {
                    let ghost j = (cj - (i + 1)) as nat;
                    proof {
                        assert(1 + j < sub.len());
                        assert(sub.subrange(1, 1 + j as int) =~= cs@.subrange(
                            i + 1 as int,
                            cj as int,
                        ));
                    }
                    match parse_range(cs, i + 1, cj, d, fuel) {
                        None => false,
                        Some(t) => {
                            let ghost gt = t@;
                            out.push(t);
                            proof {
                                assert(sub.skip(2 + j as int) =~= cs@.subrange(
                                    cj + 1 as int,
                                    end as int,
                                ));
                            }
                            let ghost mid = out@;
                            let ok = toks_range(cs, cj + 1, end, d, fuel, out);
                            proof {
                                if ok {
                                    assert(mid.subrange(0, base) =~= old(out)@);
                                    lemma_collect_step(old(out)@, mid, out@, gt);
                                }
                            }
                            ok
                        },
                    }
                },
            }
        } else {
            let tok: Expr = token_of(d, c);
            let ghost gt = tok@;
            out.push(tok);
            let ghost mid = out@;
            proof {
                assert(mid.subrange(0, base) =~= old(out)@);
            }
            let ok = toks_range(cs, i + 1, end, d, fuel, out);
            proof {
                if ok {
                    assert(mid.subrange(0, base) =~= old(out)@);
                    lemma_collect_step(old(out)@, mid, out@, gt);
                }
            }
            ok
        }
    }
}



/// The token a single character stands for: its binding, or a fresh
/// variable.
fn token_of(d: &Defs, c: char) -> (t: Expr)
    ensures
        t@ == (if d@.contains_key(c) {
            d@[c]
        } else {
            TermV::Var(c)
        }),
{
    match d.lookup(c) {
        Some(e) => e,
        None => Expr::Variable(c),
    }
}




/// One collected token: `fin` extends `mid == pre + [the token]`, so
/// what `fin` adds beyond `pre` starts with that token.
proof fn lemma_collect_step(pre: Seq<Expr>, mid: Seq<Expr>, fin: Seq<Expr>, gt: TermV)
    requires
        mid.len() == pre.len() + 1,
        mid.subrange(0, pre.len() as int) == pre,
        mid[pre.len() as int]@ == gt,
        fin.len() >= mid.len(),
        fin.subrange(0, mid.len() as int) == mid,
    ensures
        fin.subrange(0, pre.len() as int) == pre,
        views(fin.skip(pre.len() as int)) == seq![gt] + views(fin.skip(pre.len() as int + 1)),
        fin.len() >= pre.len(),
{
    let b = pre.len() as int;
    assert forall|ii: int| 0 <= ii < mid.len() implies fin[ii] == #[trigger] mid[ii] by {
        assert(fin.subrange(0, mid.len() as int)[ii] == fin[ii]);
    }
    assert forall|ii: int| 0 <= ii < b implies mid[ii] == #[trigger] pre[ii] by {
        assert(mid.subrange(0, b)[ii] == mid[ii]);
    }
    assert(fin.subrange(0, b) =~= pre);
    assert(fin.skip(b) =~= seq![mid[b]] + fin.skip(b + 1));
    assert(views(fin.skip(b)) =~= seq![gt] + views(fin.skip(b + 1)));
}

/// A converged fold is independent of any larger budget.
pub proof fn lemma_foldv_mono(ts: Seq<TermV>, f: nat, g: nat)
    requires
        f <= g,
        foldv(ts, f) is Some,
    ensures
        foldv(ts, g) == foldv(ts, f),
    decreases ts.len(),
{
    if ts.len() > 1 {
        let a = foldv(ts.drop_last(), f).unwrap();
        lemma_foldv_mono(ts.drop_last(), f, g);
        lemma_app_mono(a, ts.last(), f, g);
    }
}

/// A converged token scan is independent of any larger budget.
pub proof fn lemma_parse_toks_mono(s: Seq<char>, d: Map<char, TermV>, f: nat, g: nat)
    requires
        f <= g,
        parse_toks(s, d, f) is Some,
    ensures
        parse_toks(s, d, g) == parse_toks(s, d, f),
    decreases s.len(), 0int,
{
    if s.len() == 0 {
    } else if s[0] == ' ' {
        lemma_parse_toks_mono(s.skip(1), d, f, g);
    } else if s[0] == '(' {
        let j = close_off(s.skip(1), 1).unwrap();
        lemma_parsev_mono(s.subrange(1, 1 + j as int), d, f, g);
        lemma_parse_toks_mono(s.skip(2 + j as int), d, f, g);
    } else {
        lemma_parse_toks_mono(s.skip(1), d, f, g);
    }
}

/// A converged parse is independent of any larger budget.
pub proof fn lemma_parsev_mono(s: Seq<char>, d: Map<char, TermV>, f: nat, g: nat)
    requires
        f <= g,
        parsev(s, d, f) is Some,
    ensures
        parsev(s, d, g) == parsev(s, d, f),
    decreases s.len(), 1int,
{
    let ts = parse_toks(s, d, f).unwrap();
    lemma_parse_toks_mono(s, d, f, g);
    lemma_foldv_mono(ts, f, g);
}

/// Prefixes of a diverged fold diverge too: once the budget runs out,
/// appending more tokens cannot bring an answer back.
proof fn lemma_foldv_prefix_none(ts: Seq<TermV>, k: int, fuel: nat)
    requires
        1 <= k <= ts.len(),
        foldv(ts.subrange(0, k), fuel) is None,
    ensures
        foldv(ts, fuel) is None,
    decreases ts.len() - k,
{
    if k == ts.len() {
        assert(ts.subrange(0, k) =~= ts);
    } else {
        assert(ts.subrange(0, k + 1).drop_last() =~= ts.subrange(0, k));
        lemma_foldv_prefix_none(ts, k + 1, fuel);
    }
}

/// Parse the window `cs[start..end]`: tokens, then the left fold.
pub(crate) fn parse_range(cs: &Vec<char>, start: usize, end: usize, d: &Defs, fuel: u64) -> (r:
    Option<Expr>)
    requires
        start <= end,
        end <= cs@.len(),
    ensures
        view_opt(r) == parsev(cs@.subrange(start as int, end as int), d@, fuel as nat),
    decreases end - start, 1int,
{
    let ghost sub = cs@.subrange(start as int, end as int);
    let mut toks: Vec<Expr> = Vec::new();
    let ok = toks_range(cs, start, end, d, fuel, &mut toks);
    if !ok {
        return None;
    }
    let ghost ts = parse_toks(sub, d@, fuel as nat).unwrap();
    proof {
        assert(toks@.skip(0) =~= toks@);
        assert(views(toks@) == ts);
    }
    if toks.len() == 0 {
        return None;
    }
    let mut acc = toks[0].clone();
    proof {
        assert(ts.subrange(0, 1) =~= seq![toks@[0]@]);
        assert(views(toks@)[0] == toks@[0]@);
        assert(foldv(ts.subrange(0, 1), fuel as nat) == Some(acc@));
    }
    let mut k: usize = 1;
    while k < toks.len()
        invariant
            1 <= k <= toks@.len(),
            sub == cs@.subrange(start as int, end as int),
            views(toks@) == ts,
            foldv(ts, fuel as nat) == parsev(sub, d@, fuel as nat),
            foldv(ts.subrange(0, k as int), fuel as nat) == Some(acc@),
        decreases toks@.len() - k,
    {
        let t = toks[k].clone();
        let ghost pre = ts.subrange(0, k as int);
        let ghost cur = ts.subrange(0, k + 1 as int);
        proof {
            assert(cur.drop_last() =~= pre);
            assert(cur.last() == views(toks@)[k as int]);
            assert(views(toks@)[k as int] == toks@[k as int]@);
        }
        match acc.apply(t, fuel) {
            Some(a2) => {
                acc = a2;
            },
            None => {
                proof {
                    assert(foldv(cur, fuel as nat) is None);
                    lemma_foldv_prefix_none(ts, k + 1, fuel as nat);
                }
                return None;
            },
        }
        k = k + 1;
    }
    proof {
        assert(ts.subrange(0, toks@.len() as int) =~= ts);
    }
    Some(acc)
}

impl Expr {
    /// Parse `s` under the table `d`, with step budget `fuel` for the
    /// applications the fold performs.
    ///
    /// The result is exactly [`parsev`]: absence for blank input, for
    /// an unmatched opening parenthesis and for an exhausted budget,
    /// the folded term otherwise.
    pub fn parse(s: &str, d: &Defs, fuel: u64) -> (r: Option<Expr>)
        ensures
            view_opt(r) == parsev(s@, d@, fuel as nat),
    {
        let cs = chars_of(s);
        let n = cs.len();
        proof {
            assert(cs@.subrange(0, n as int) =~= s@);
        }
        parse_range(&cs, 0, n, d, fuel)
    }
}

} // verus!
