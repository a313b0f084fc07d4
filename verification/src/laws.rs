//! Rendering is a fixed point under re-parsing.
//!
//! For a term built purely from primitive combinators and plain
//! variables (no opaque text), parsing its rendered form under a
//! compatible definition table yields a term whose rendered form — in
//! head position and in argument position — is the same.  One rewrite
//! step of budget per application suffices, because re-parsing a
//! rendered term only ever stores arguments or grows variable-headed
//! text: no combinator rule fires.
use vstd::prelude::*;
use vstd::seq_lib::lemma_concat_associative;

use crate::config::prim_of;
use crate::model::{app, atomicv, renderv, wrapv, TermV};
use crate::parser::{
    close_off, foldv, lemma_close_off_bound, lemma_parsev_mono, parse_toks, parsev,
};

verus! {

/// Scanning `s` for a closing parenthesis passes through it whole:
/// `s` closes none of the enclosing groups and opens none that stays
/// open.
pub open spec fn passes(s: Seq<char>) -> bool {
    forall|u: Seq<char>, dep: nat|
        1 <= dep ==> #[trigger] close_off(s + u, dep) == (match close_off(u, dep) {
            Some(k) => Some((s.len() + k) as nat),
            None => None::<nat>,
        })
}

proof fn lemma_passes_char(c: char)
    requires
        c != '(',
        c != ')',
    ensures
        passes(seq![c]),
{
    assert forall|u: Seq<char>, dep: nat| 1 <= dep implies #[trigger] close_off(seq![c] + u, dep)
        == (match close_off(u, dep) {
        Some(k) => Some((seq![c].len() + k) as nat),
        None => None::<nat>,
    }) by {
        let s = seq![c] + u;
        assert(s[0] == c);
        assert(s.skip(1) =~= u);
    }
}

proof fn lemma_passes_concat(s1: Seq<char>, s2: Seq<char>)
    requires
        passes(s1),
        passes(s2),
    ensures
        passes(s1 + s2),
{
    assert forall|u: Seq<char>, dep: nat| 1 <= dep implies #[trigger] close_off((s1 + s2) + u, dep)
        == (match close_off(u, dep) {
        Some(k) => Some(((s1 + s2).len() + k) as nat),
        None => None::<nat>,
    }) by {
        assert((s1 + s2) + u =~= s1 + (s2 + u));
        assert(close_off(s1 + (s2 + u), dep) == (match close_off(s2 + u, dep) {
            Some(k) => Some((s1.len() + k) as nat),
            None => None::<nat>,
        }));
    }
}

proof fn lemma_passes_group(m: Seq<char>)
    requires
        passes(m),
    ensures
        passes(seq!['('] + m + seq![')']),
{
    let g = seq!['('] + m + seq![')'];
    assert forall|u: Seq<char>, dep: nat| 1 <= dep implies #[trigger] close_off(g + u, dep) == (
    match close_off(u, dep) {
        Some(k) => Some((g.len() + k) as nat),
        None => None::<nat>,
    }) by {
        let s = g + u;
        assert(s[0] == '(');
        assert(s.skip(1) =~= m + (seq![')'] + u));
        let v = seq![')'] + u;
        assert(v[0] == ')');
        assert(v.skip(1) =~= u);
        assert(close_off(v, dep + 1) == (match close_off(u, dep) {
            Some(k) => Some((k + 1) as nat),
            None => None::<nat>,
        }));
        assert(close_off(m + v, dep + 1) == (match close_off(v, dep + 1) {
            Some(k) => Some((m.len() + k) as nat),
            None => None::<nat>,
        }));
    }
}

/// A found close is stable under appending more text.
proof fn lemma_close_extend(v: Seq<char>, dep: nat, y: Seq<char>)
    requires
        close_off(v, dep) is Some,
    ensures
        close_off(v + y, dep) == close_off(v, dep),
    decreases v.len(),
{
    let t = v + y;
    assert(t[0] == v[0]);
    assert(t.skip(1) =~= v.skip(1) + y);
    if v[0] == ')' && dep == 1 {
    } else if v[0] == ')' {
        lemma_close_extend(v.skip(1), (dep - 1) as nat, y);
    } else if v[0] == '(' {
        lemma_close_extend(v.skip(1), dep + 1, y);
    } else {
        lemma_close_extend(v.skip(1), dep, y);
    }
}

/// Tokenizing a concatenation tokenizes the parts in turn, as long as
/// each part tokenizes on its own.
proof fn lemma_toks_concat(s1: Seq<char>, s2: Seq<char>, d: Map<char, TermV>, fuel: nat)
    requires
        parse_toks(s1, d, fuel) is Some,
        parse_toks(s2, d, fuel) is Some,
    ensures
        parse_toks(s1 + s2, d, fuel) == Some(
            parse_toks(s1, d, fuel).unwrap() + parse_toks(s2, d, fuel).unwrap(),
        ),
    decreases s1.len(),
{
    let t = s1 + s2;
    let a = parse_toks(s1, d, fuel).unwrap();
    let b = parse_toks(s2, d, fuel).unwrap();
    if s1.len() == 0 {
        assert(t =~= s2);
        assert(a + b =~= b);
        assert(parse_toks(t, d, fuel) == Some(a + b));
    } else {
        assert(t[0] == s1[0]);
        assert(t.skip(1) =~= s1.skip(1) + s2);
        if s1[0] == ' ' {
            lemma_toks_concat(s1.skip(1), s2, d, fuel);
            assert(parse_toks(t, d, fuel) == Some(a + b));
        } else if s1[0] == '(' {
            let j = close_off(s1.skip(1), 1).unwrap();
            lemma_close_off_bound(s1.skip(1), 1);
            lemma_close_extend(s1.skip(1), 1, s2);
            assert(t.subrange(1, 1 + j as int) =~= s1.subrange(1, 1 + j as int));
            assert(t.skip(2 + j as int) =~= s1.skip(2 + j as int) + s2);
            lemma_toks_concat(s1.skip(2 + j as int), s2, d, fuel);
            let inner = parsev(s1.subrange(1, 1 + j as int), d, fuel).unwrap();
            let rest = parse_toks(s1.skip(2 + j as int), d, fuel).unwrap();
            assert(a == seq![inner] + rest);
            lemma_cons_assoc(inner, rest, b, a);
            assert(parse_toks(t, d, fuel) == Some(a + b));
        } else {
            lemma_toks_concat(s1.skip(1), s2, d, fuel);
            let tok = if d.contains_key(s1[0]) {
                d[s1[0]]
            } else {
                TermV::Var(s1[0])
            };
            let rest = parse_toks(s1.skip(1), d, fuel).unwrap();
            assert(a == seq![tok] + rest);
            lemma_cons_assoc(tok, rest, b, a);
            assert(parse_toks(t, d, fuel) == Some(a + b));
        }
    }
}

/// Prepending one token commutes with appending more tokens.
proof fn lemma_cons_assoc(x: TermV, r: Seq<TermV>, b: Seq<TermV>, a: Seq<TermV>)
    requires
        a == seq![x] + r,
    ensures
        a + b == seq![x] + (r + b),
{
    lemma_concat_associative(seq![x], r, b);
}

/// The token a bare letter scans to.
pub open spec fn letter_tok(c: char, d: Map<char, TermV>) -> TermV {
    if d.contains_key(c) {
        d[c]
    } else {
        TermV::Var(c)
    }
}

proof fn lemma_tok_char(c: char, d: Map<char, TermV>, fuel: nat)
    requires
        c != ' ',
        c != '(',
    ensures
        parse_toks(seq![c], d, fuel) == Some(seq![letter_tok(c, d)]),
{
    let s = seq![c];
    assert(s[0] == c);
    assert(s.skip(1) =~= Seq::<char>::empty());
    assert(parse_toks(Seq::<char>::empty(), d, fuel) == Some(Seq::<TermV>::empty()));
    assert(seq![letter_tok(c, d)] + Seq::<TermV>::empty() =~= seq![letter_tok(c, d)]);
}

proof fn lemma_tok_group(m: Seq<char>, d: Map<char, TermV>, fuel: nat)
    requires
        passes(m),
        parsev(m, d, fuel) is Some,
    ensures
        parse_toks(seq!['('] + m + seq![')'], d, fuel) == Some(seq![parsev(m, d, fuel).unwrap()]),
{
    let s = seq!['('] + m + seq![')'];
    assert(s[0] == '(');
    assert(s.skip(1) =~= m + seq![')']);
    let v = seq![')'];
    assert(v[0] == ')');
    assert(close_off(v, 1) == Some(0nat));
    assert(close_off(m + v, 1) == Some((m.len() + 0) as nat));
    let j = m.len();
    assert(1 + j < s.len());
    assert(s.subrange(1, 1 + j as int) =~= m);
    assert(s.skip(2 + j as int) =~= Seq::<char>::empty());
    assert(parse_toks(Seq::<char>::empty(), d, fuel) == Some(Seq::<TermV>::empty()));
    assert(seq![parsev(m, d, fuel).unwrap()] + Seq::<TermV>::empty() =~= seq![
        parsev(m, d, fuel).unwrap(),
    ]);
}

/// Letter-and-one-argument form: the scan gives the letter's token and
/// the argument's token.
proof fn lemma_letter_arg1(
    ch: char,
    w1: Seq<char>,
    x2: TermV,
    d: Map<char, TermV>,
)
    requires
        ch != ' ',
        ch != '(',
        ch != ')',
        passes(w1),
        parse_toks(w1, d, 1) == Some(seq![x2]),
    ensures
        passes(seq![ch] + w1),
        parse_toks(seq![ch] + w1, d, 1) == Some(seq![letter_tok(ch, d), x2]),
{
    lemma_passes_char(ch);
    lemma_passes_concat(seq![ch], w1);
    lemma_tok_char(ch, d, 1);
    lemma_toks_concat(seq![ch], w1, d, 1);
    assert(seq![letter_tok(ch, d)] + seq![x2] =~= seq![letter_tok(ch, d), x2]);
}

/// Letter-and-two-arguments form.
proof fn lemma_letter_arg2(
    ch: char,
    w1: Seq<char>,
    w2: Seq<char>,
    x2: TermV,
    y2: TermV,
    d: Map<char, TermV>,
)
    requires
        ch != ' ',
        ch != '(',
        ch != ')',
        passes(w1),
        passes(w2),
        parse_toks(w1, d, 1) == Some(seq![x2]),
        parse_toks(w2, d, 1) == Some(seq![y2]),
    ensures
        passes(seq![ch] + w1 + w2),
        parse_toks(seq![ch] + w1 + w2, d, 1) == Some(seq![letter_tok(ch, d), x2, y2]),
{
    lemma_letter_arg1(ch, w1, x2, d);
    lemma_passes_concat(seq![ch] + w1, w2);
    lemma_toks_concat(seq![ch] + w1, w2, d, 1);
    assert(seq![letter_tok(ch, d), x2] + seq![y2] =~= seq![letter_tok(ch, d), x2, y2]);
}

/// A term the round trip speaks of: built from primitive combinators
/// and variables only, the variables plain characters that the table
/// does not bind.
pub open spec fn rt_wf(t: TermV, d: Map<char, TermV>) -> bool
    decreases t,
{
    match t {
        TermV::Var(c) => c != '(' && c != ')' && c != ' ' && !d.contains_key(c),
        TermV::Text(_) => false,
        TermV::S0 => true,
        TermV::S1(x) => rt_wf(*x, d),
        TermV::S2(x, y) => rt_wf(*x, d) && rt_wf(*y, d),
        TermV::K0 => true,
        TermV::K1(x) => rt_wf(*x, d),
        TermV::W0 => true,
        TermV::W1(x) => rt_wf(*x, d),
        TermV::C0 => true,
        TermV::C1(x) => rt_wf(*x, d),
        TermV::C2(x, y) => rt_wf(*x, d) && rt_wf(*y, d),
        TermV::B0 => true,
        TermV::B1(x) => rt_wf(*x, d),
        TermV::B2(x, y) => rt_wf(*x, d) && rt_wf(*y, d),
        TermV::I => true,
    }
}

/// The table binds a primitive's letter, if at all, to that primitive.
pub open spec fn defs_std(d: Map<char, TermV>) -> bool {
    (d.contains_key('S') ==> d['S'] == TermV::S0) && (d.contains_key('K') ==> d['K']
        == TermV::K0) && (d.contains_key('W') ==> d['W'] == TermV::W0) && (d.contains_key('C')
        ==> d['C'] == TermV::C0) && (d.contains_key('B') ==> d['B'] == TermV::B0) && (
    d.contains_key('I') ==> d['I'] == TermV::I)
}

/// Re-parsing the rendered form of `t` with budget `fuel` gives `t2`,
/// which renders as `t` does, in head position and in argument
/// position.
pub open spec fn rt_at(t: TermV, d: Map<char, TermV>, fuel: nat, t2: TermV) -> bool {
    parsev(renderv(t), d, fuel) == Some(t2) && renderv(t2) == renderv(t) && wrapv(t2) == wrapv(t)
}

/// [`rt_at`] with the least sufficient budget.
pub open spec fn rt_to(t: TermV, d: Map<char, TermV>, t2: TermV) -> bool {
    rt_at(t, d, 1, t2)
}

/// In argument position the rendered form of `t` scans as one token
/// `t2`, which renders as `t` does.
pub open spec fn arg_to(t: TermV, d: Map<char, TermV>, t2: TermV) -> bool {
    parse_toks(wrapv(t), d, 1) == Some(seq![t2]) && renderv(t2) == renderv(t) && wrapv(t2)
        == wrapv(t)
}

/// Folding a variable-headed token run only accumulates text.
proof fn lemma_var_fold1(ch: char, x2: TermV)
    ensures
        foldv(seq![TermV::Var(ch), x2], 1) == Some(TermV::Text(seq![ch] + wrapv(x2))),
{
    let ts = seq![TermV::Var(ch), x2];
    assert(ts.drop_last() =~= seq![TermV::Var(ch)]);
    assert(foldv(seq![TermV::Var(ch)], 1) == Some(TermV::Var(ch)));
    assert(app(TermV::Var(ch), x2, 1) == Some(TermV::Text(seq![ch] + wrapv(x2))));
}

proof fn lemma_var_fold2(ch: char, x2: TermV, y2: TermV)
    ensures
        foldv(seq![TermV::Var(ch), x2, y2], 1) == Some(
            TermV::Text(seq![ch] + wrapv(x2) + wrapv(y2)),
        ),
{
    let ts = seq![TermV::Var(ch), x2, y2];
    assert(ts.drop_last() =~= seq![TermV::Var(ch), x2]);
    lemma_var_fold1(ch, x2);
    assert(foldv(seq![TermV::Var(ch), x2], 1) == Some(TermV::Text(seq![ch] + wrapv(x2))));
    assert(app(TermV::Text(seq![ch] + wrapv(x2)), y2, 1) == Some(
        TermV::Text(seq![ch] + wrapv(x2) + wrapv(y2)),
    ));
}

/// The argument-position half of the round trip.
proof fn lemma_rt_arg(t: TermV, d: Map<char, TermV>)
    requires
        rt_wf(t, d),
        defs_std(d),
    ensures
        passes(wrapv(t)),
        exists|t2: TermV| #[trigger] arg_to(t, d, t2),
    decreases t, 2int,
{
    if atomicv(t) {
        lemma_rt_atom(t, d);
    } else {
        lemma_rt(t, d);
        let t2 = choose|t2: TermV| #[trigger] rt_to(t, d, t2);
        lemma_passes_group(renderv(t));
        lemma_tok_group(renderv(t), d, 1);
        assert(wrapv(t) == seq!['('] + renderv(t) + seq![')']);
        assert(arg_to(t, d, t2));
    }
}

/// An atomic term round-trips through its single letter.
proof fn lemma_rt_atom(t: TermV, d: Map<char, TermV>)
    requires
        rt_wf(t, d),
        defs_std(d),
        atomicv(t),
    ensures
        passes(renderv(t)),
        passes(wrapv(t)),
        exists|t2: TermV| #[trigger] rt_to(t, d, t2),
        exists|t2: TermV| #[trigger] arg_to(t, d, t2),
{
    let ch = renderv(t)[0];
    assert(renderv(t) =~= seq![ch]);
    assert(wrapv(t) == renderv(t));
    lemma_passes_char(ch);
    lemma_tok_char(ch, d, 1);
    let tok = letter_tok(ch, d);
    assert(foldv(seq![tok], 1) == Some(tok));
    assert(parsev(renderv(t), d, 1) == Some(tok));
    assert(renderv(tok) =~= renderv(t));
    assert(wrapv(tok) =~= wrapv(t));
    assert(rt_to(t, d, tok));
    assert(arg_to(t, d, tok));
}

/// Rendering is a fixed point under re-parsing.
///
/// For any term `t` built purely from primitive combinators and plain
/// variables that the table does not bind, and any table that binds a
/// primitive's letter, if at all, to that primitive: parsing the
/// rendered form of `t` under that table succeeds (one rewrite step of
/// budget per application suffices), and the parsed term renders
/// exactly as `t` does, both as a head and in argument position.
pub proof fn lemma_rt(t: TermV, d: Map<char, TermV>)
    requires
        rt_wf(t, d),
        defs_std(d),
    ensures
        passes(renderv(t)),
        exists|t2: TermV| #[trigger] rt_to(t, d, t2),
    decreases t, 1int,
{
    match t {
        TermV::S1(x) => {
            lemma_rt_one(t, d, 'S', *x);
        },
        TermV::S2(x, y) => {
            lemma_rt_two(t, d, 'S', *x, *y);
        },
        TermV::K1(x) => {
            lemma_rt_one(t, d, 'K', *x);
        },
        TermV::W1(x) => {
            lemma_rt_one(t, d, 'W', *x);
        },
        TermV::C1(x) => {
            lemma_rt_one(t, d, 'C', *x);
        },
        TermV::C2(x, y) => {
            lemma_rt_two(t, d, 'C', *x, *y);
        },
        TermV::B1(x) => {
            lemma_rt_one(t, d, 'B', *x);
        },
        TermV::B2(x, y) => {
            lemma_rt_two(t, d, 'B', *x, *y);
        },
        _ => {
            lemma_rt_atom(t, d);
        },
    }
}

/// Rendering is a fixed point under re-parsing, whatever the budget:
/// one rewrite step per application suffices, and a converged parse is
/// independent of any larger budget.
pub proof fn lemma_rt_any_budget(t: TermV, d: Map<char, TermV>, fuel: nat)
    requires
        rt_wf(t, d),
        defs_std(d),
        1 <= fuel,
    ensures
        exists|t2: TermV| #[trigger] rt_at(t, d, fuel, t2),
{
    lemma_rt(t, d);
    let t2 = choose|t2: TermV| #[trigger] rt_to(t, d, t2);
    lemma_parsev_mono(renderv(t), d, 1, fuel);
    assert(rt_at(t, d, fuel, t2));
}

/// The table binds every primitive letter (to its primitive, by
/// [`defs_std`]).
pub open spec fn defs_full(d: Map<char, TermV>) -> bool {
    d.contains_key('S') && d.contains_key('K') && d.contains_key('W') && d.contains_key('C')
        && d.contains_key('B') && d.contains_key('I')
}

/// Under a table that binds every primitive letter, re-parsing the
/// rendered form gives back the very same term: parsing is a left
/// inverse of rendering on the terms the round trip speaks of.
pub proof fn lemma_rt_exact(t: TermV, d: Map<char, TermV>)
    requires
        rt_wf(t, d),
        defs_std(d),
        defs_full(d),
    ensures
        parsev(renderv(t), d, 1) == Some(t),
    decreases t, 1int,
{
    if atomicv(t) {
        lemma_strict_atom(t, d);
    } else {
        match t {
            TermV::S1(x) => {
                lemma_strict_one(t, d, 'S', *x);
            },
            TermV::S2(x, y) => {
                lemma_strict_two(t, d, 'S', *x, *y);
            },
            TermV::K1(x) => {
                lemma_strict_one(t, d, 'K', *x);
            },
            TermV::W1(x) => {
                lemma_strict_one(t, d, 'W', *x);
            },
            TermV::C1(x) => {
                lemma_strict_one(t, d, 'C', *x);
            },
            TermV::C2(x, y) => {
                lemma_strict_two(t, d, 'C', *x, *y);
            },
            TermV::B1(x) => {
                lemma_strict_one(t, d, 'B', *x);
            },
            TermV::B2(x, y) => {
                lemma_strict_two(t, d, 'B', *x, *y);
            },
            _ => {},
        }
    }
}

/// The exact round trip, in argument position: one token, the term
/// itself.
proof fn lemma_strict_arg(t: TermV, d: Map<char, TermV>)
    requires
        rt_wf(t, d),
        defs_std(d),
        defs_full(d),
    ensures
        parse_toks(wrapv(t), d, 1) == Some(seq![t]),
    decreases t, 2int,
{
    if atomicv(t) {
        lemma_strict_atom(t, d);
        assert(wrapv(t) == renderv(t));
    } else {
        lemma_rt(t, d);
        lemma_rt_exact(t, d);
        lemma_tok_group(renderv(t), d, 1);
        assert(wrapv(t) == seq!['('] + renderv(t) + seq![')']);
    }
}

/// An atomic term scans back to itself exactly.
proof fn lemma_strict_atom(t: TermV, d: Map<char, TermV>)
    requires
        rt_wf(t, d),
        defs_std(d),
        defs_full(d),
        atomicv(t),
    ensures
        parse_toks(renderv(t), d, 1) == Some(seq![t]),
        parsev(renderv(t), d, 1) == Some(t),
{
    let ch = renderv(t)[0];
    assert(renderv(t) =~= seq![ch]);
    lemma_tok_char(ch, d, 1);
    assert(letter_tok(ch, d) == t);
    assert(foldv(seq![t], 1) == Some(t));
}

/// The exact compound case with one bound argument.
proof fn lemma_strict_one(t: TermV, d: Map<char, TermV>, ch: char, x: TermV)
    requires
        rt_wf(t, d),
        defs_std(d),
        defs_full(d),
        rt_wf(x, d),
        t == TermV::S1(Box::new(x)) || t == TermV::K1(Box::new(x)) || t == TermV::W1(Box::new(x))
            || t == TermV::C1(Box::new(x)) || t == TermV::B1(Box::new(x)),
        (t is S1 ==> ch == 'S') && (t is K1 ==> ch == 'K') && (t is W1 ==> ch == 'W') && (t is C1
            ==> ch == 'C') && (t is B1 ==> ch == 'B'),
        renderv(t) == seq![ch] + wrapv(x),
    ensures
        parsev(renderv(t), d, 1) == Some(t),
    decreases t, 0int,
{
    lemma_rt_arg(x, d);
    lemma_strict_arg(x, d);
    lemma_letter_arg1(ch, wrapv(x), x, d);
    let h = letter_tok(ch, d);
    assert(h == prim_of(ch));
    let ts = seq![h, x];
    assert(ts.drop_last() =~= seq![h]);
    assert(foldv(seq![h], 1) == Some(h));
    assert(app(h, x, 1) == Some(t));
    assert(foldv(ts, 1) == Some(t));
}

/// The exact compound case with two bound arguments.
proof fn lemma_strict_two(t: TermV, d: Map<char, TermV>, ch: char, x: TermV, y: TermV)
    requires
        rt_wf(t, d),
        defs_std(d),
        defs_full(d),
        rt_wf(x, d),
        rt_wf(y, d),
        t == TermV::S2(Box::new(x), Box::new(y)) || t == TermV::C2(Box::new(x), Box::new(y)) || t
            == TermV::B2(Box::new(x), Box::new(y)),
        (t is S2 ==> ch == 'S') && (t is C2 ==> ch == 'C') && (t is B2 ==> ch == 'B'),
        renderv(t) == seq![ch] + wrapv(x) + wrapv(y),
    ensures
        parsev(renderv(t), d, 1) == Some(t),
    decreases t, 0int,
{
    lemma_rt_arg(x, d);
    lemma_rt_arg(y, d);
    lemma_strict_arg(x, d);
    lemma_strict_arg(y, d);
    lemma_letter_arg2(ch, wrapv(x), wrapv(y), x, y, d);
    let h = letter_tok(ch, d);
    assert(h == prim_of(ch));
    let mid = if ch == 'S' {
        TermV::S1(Box::new(x))
    } else if ch == 'C' {
        TermV::C1(Box::new(x))
    } else {
        TermV::B1(Box::new(x))
    };
    let ts = seq![h, x, y];
    assert(ts.drop_last() =~= seq![h, x]);
    assert(seq![h, x].drop_last() =~= seq![h]);
    assert(foldv(seq![h], 1) == Some(h));
    assert(app(h, x, 1) == Some(mid));
    assert(foldv(seq![h, x], 1) == Some(mid));
    assert(app(mid, y, 1) == Some(t));
    assert(foldv(ts, 1) == Some(t));
}

/// The compound case with one bound argument.
proof fn lemma_rt_one(t: TermV, d: Map<char, TermV>, ch: char, x: TermV)
    requires
        rt_wf(t, d),
        defs_std(d),
        rt_wf(x, d),
        t == TermV::S1(Box::new(x)) || t == TermV::K1(Box::new(x)) || t == TermV::W1(Box::new(x))
            || t == TermV::C1(Box::new(x)) || t == TermV::B1(Box::new(x)),
        (t is S1 ==> ch == 'S') && (t is K1 ==> ch == 'K') && (t is W1 ==> ch == 'W') && (t is C1
            ==> ch == 'C') && (t is B1 ==> ch == 'B'),
        renderv(t) == seq![ch] + wrapv(x),
    ensures
        passes(renderv(t)),
        exists|t2: TermV| #[trigger] rt_to(t, d, t2),
    decreases t, 0int,
{
    lemma_rt_arg(x, d);
    let x2 = choose|x2: TermV| #[trigger] arg_to(x, d, x2);
    lemma_letter_arg1(ch, wrapv(x), x2, d);
    let h = letter_tok(ch, d);
    let ts = seq![h, x2];
    assert(ts.drop_last() =~= seq![h]);
    assert(foldv(seq![h], 1) == Some(h));
    if d.contains_key(ch) {
        assert(h == prim_of(ch));
        let t2 = if ch == 'S' {
            TermV::S1(Box::new(x2))
        } else if ch == 'K' {
            TermV::K1(Box::new(x2))
        } else if ch == 'W' {
            TermV::W1(Box::new(x2))
        } else if ch == 'C' {
            TermV::C1(Box::new(x2))
        } else {
            TermV::B1(Box::new(x2))
        };
        assert(app(h, x2, 1) == Some(t2));
        assert(foldv(ts, 1) == Some(t2));
        assert(renderv(t2) =~= renderv(t));
        assert(wrapv(t2) =~= wrapv(t));
        assert(rt_to(t, d, t2));
    } else {
        lemma_var_fold1(ch, x2);
        let t2 = TermV::Text(seq![ch] + wrapv(x2));
        assert(renderv(t2) =~= renderv(t));
        assert(wrapv(t2) =~= wrapv(t));
        assert(rt_to(t, d, t2));
    }
}

/// The compound case with two bound arguments.
proof fn lemma_rt_two(t: TermV, d: Map<char, TermV>, ch: char, x: TermV, y: TermV)
    requires
        rt_wf(t, d),
        defs_std(d),
        rt_wf(x, d),
        rt_wf(y, d),
        t == TermV::S2(Box::new(x), Box::new(y)) || t == TermV::C2(Box::new(x), Box::new(y)) || t
            == TermV::B2(Box::new(x), Box::new(y)),
        (t is S2 ==> ch == 'S') && (t is C2 ==> ch == 'C') && (t is B2 ==> ch == 'B'),
        renderv(t) == seq![ch] + wrapv(x) + wrapv(y),
    ensures
        passes(renderv(t)),
        exists|t2: TermV| #[trigger] rt_to(t, d, t2),
    decreases t, 0int,
{
    lemma_rt_arg(x, d);
    lemma_rt_arg(y, d);
    let x2 = choose|x2: TermV| #[trigger] arg_to(x, d, x2);
    let y2 = choose|y2: TermV| #[trigger] arg_to(y, d, y2);
    lemma_letter_arg2(ch, wrapv(x), wrapv(y), x2, y2, d);
    let h = letter_tok(ch, d);
    let ts = seq![h, x2, y2];
    assert(ts.drop_last() =~= seq![h, x2]);
    assert(seq![h, x2].drop_last() =~= seq![h]);
    assert(foldv(seq![h], 1) == Some(h));
    if d.contains_key(ch) {
        assert(h == prim_of(ch));
        let mid = if ch == 'S' {
            TermV::S1(Box::new(x2))
        } else if ch == 'C' {
            TermV::C1(Box::new(x2))
        } else {
            TermV::B1(Box::new(x2))
        };
        let t2 = if ch == 'S' {
            TermV::S2(Box::new(x2), Box::new(y2))
        } else if ch == 'C' {
            TermV::C2(Box::new(x2), Box::new(y2))
        } else {
            TermV::B2(Box::new(x2), Box::new(y2))
        };
        assert(app(h, x2, 1) == Some(mid));
        assert(foldv(seq![h, x2], 1) == Some(mid));
        assert(app(mid, y2, 1) == Some(t2));
        assert(foldv(ts, 1) == Some(t2));
        assert(renderv(t2) =~= renderv(t));
        assert(wrapv(t2) =~= wrapv(t));
        assert(rt_to(t, d, t2));
    } else {
        lemma_var_fold2(ch, x2, y2);
        let t2 = TermV::Text(seq![ch] + wrapv(x2) + wrapv(y2));
        assert(renderv(t2) =~= renderv(t));
        assert(wrapv(t2) =~= wrapv(t));
        assert(rt_to(t, d, t2));
    }
}

} // verus!
