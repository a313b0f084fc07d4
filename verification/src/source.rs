//! Line-oriented source consumption.
//!
//! A body is processed line by line: each line is trimmed; a comment
//! line (`#`, `//` or `--` prefix) is skipped; a line that reads as an
//! assignment (`name = expr`) extends the definition table; otherwise
//! the first line that parses as a term is the result, and everything
//! after it is ignored.  A file with no such line is absence.
use vstd::prelude::*;

use crate::defs::Defs;
use crate::model::TermV;
use crate::parser::{chars_of, parse_range, parsev, views};
use crate::term::{view_opt, Expr};

verus! {

/// Index of the first newline, if any.
pub open spec fn findnl(s: Seq<char>) -> Option<nat>
    decreases s.len(),
{
    if s.len() == 0 {
        None
    } else if s[0] == '\n' {
        Some(0)
    } else {
        match findnl(s.skip(1)) {
            Some(i) => Some(i + 1),
            None => None,
        }
    }
}

/// Drop one trailing carriage return, as line splitting does.
pub open spec fn strip_cr(s: Seq<char>) -> Seq<char> {
    if s.len() > 0 && s.last() == '\r' {
        s.drop_last()
    } else {
        s
    }
}

/// The lines of a body: split on `'\n'`, one trailing `'\r'` stripped
/// from each line, no final empty line after a terminal newline.
pub open spec fn linesv(s: Seq<char>) -> Seq<Seq<char>>
    decreases s.len(),
{
    if s.len() == 0 {
        Seq::empty()
    } else {
        match findnl(s) {
            None => seq![strip_cr(s)],
            Some(i) => if i < s.len() {
                seq![strip_cr(s.subrange(0, i as int))] + linesv(s.skip(i as int + 1))
            } else {
                seq![strip_cr(s)]
            },
        }
    }
}

/// A blank character at a line's edge.
pub open spec fn is_blank(c: char) -> bool {
    c == ' ' || c == '\t' || c == '\r'
}

/// The line with leading and trailing blanks removed.
pub open spec fn trimv(s: Seq<char>) -> Seq<char>
    decreases s.len(),
{
    if s.len() > 0 && is_blank(s[0]) {
        trimv(s.skip(1))
    } else if s.len() > 0 && is_blank(s.last()) {
        trimv(s.drop_last())
    } else {
        s
    }
}

/// A comment line: its trimmed form starts with `#`, `//` or `--`.
pub open spec fn is_comment(s: Seq<char>) -> bool {
    (s.len() >= 1 && s[0] == '#') || (s.len() >= 2 && ((s[0] == '/' && s[1] == '/') || (s[0] == '-'
        && s[1] == '-')))
}

/// Index of the first character that is not a space, if any.
pub open spec fn findns(s: Seq<char>) -> Option<nat>
    decreases s.len(),
{
    if s.len() == 0 {
        None
    } else if s[0] != ' ' {
        Some(0)
    } else {
        match findns(s.skip(1)) {
            Some(i) => Some(i + 1),
            None => None,
        }
    }
}

/// Split an assignment line into its name and the text after the `=`:
/// the first non-space character is the name; after it only spaces may
/// precede the `=`; anything else, or no `=` at all, is refusal.
pub open spec fn split_assign(s: Seq<char>) -> Option<(char, Seq<char>)> {
    match findns(s) {
        None => None,
        Some(i) => if i + 1 <= s.len() {
            let u = s.skip(i as int + 1);
            match findns(u) {
                None => None,
                Some(k) => if u[k as int] == '=' {
                    Some((s[i as int], u.skip(k as int + 1)))
                } else {
                    None
                },
            }
        } else {
            None
        },
    }
}

/// What recognizing an assignment yields: the name and the parse of
/// the text after the `=`.
pub open spec fn assignv(s: Seq<char>, d: Map<char, TermV>, fuel: nat) -> Option<(char, TermV)> {
    match split_assign(s) {
        None => None,
        Some((c, rest)) => match parsev(rest, d, fuel) {
            None => None,
            Some(t) => Some((c, t)),
        },
    }
}

/// What consuming a body's lines yields: the table after all processed
/// bindings, and the first term a line parses to, if any.
pub open spec fn pfile(ls: Seq<Seq<char>>, d: Map<char, TermV>, fuel: nat) -> (Map<
    char,
    TermV,
>, Option<TermV>)
    decreases ls.len(),
{
    if ls.len() == 0 {
        (d, None)
    } else {
        let line = trimv(ls[0]);
        if is_comment(line) {
            pfile(ls.skip(1), d, fuel)
        } else {
            match assignv(line, d, fuel) {
                Some((c, t)) => pfile(ls.skip(1), d.insert(c, t), fuel),
                None => match parsev(line, d, fuel) {
                    Some(t) => (d, Some(t)),
                    None => pfile(ls.skip(1), d, fuel),
                },
            }
        }
    }
}

/// Consumption stops at the first line that is neither a comment nor
/// an assignment and parses as a term: that line's term is the result,
/// the table is left as the earlier assignment lines made it, and the
/// lines after it — whatever they hold — are never consulted.
pub proof fn lemma_file_stops_at_first_expression(
    ls: Seq<Seq<char>>,
    d: Map<char, TermV>,
    fuel: nat,
)
    requires
        ls.len() >= 1,
        !is_comment(trimv(ls[0])),
        assignv(trimv(ls[0]), d, fuel) is None,
        parsev(trimv(ls[0]), d, fuel) is Some,
    ensures
        pfile(ls, d, fuel) == (d, parsev(trimv(ls[0]), d, fuel)),
{
}

/// The model value of an optional binding.
pub open spec fn view_bind(r: Option<(char, Expr)>) -> Option<(char, TermV)> {
    match r {
        Some((c, e)) => Some((c, e@)),
        None => None,
    }
}

/// Find the first newline in `cs[i..end]`.
fn find_nl(cs: &Vec<char>, i: usize, end: usize) -> (r: Option<usize>)
    requires
        i <= end,
        end <= cs@.len(),
    ensures
        match r {
            Some(k) => i <= k < end && findnl(cs@.subrange(i as int, end as int)) == Some(
                (k - i) as nat,
            ),
            None => findnl(cs@.subrange(i as int, end as int)) is None,
        },
    decreases end - i,
{
    let ghost sub = cs@.subrange(i as int, end as int);
    if i >= end {
        return None;
    }
    proof {
        assert(sub[0] == cs@[i as int]);
        assert(sub.skip(1) =~= cs@.subrange(i + 1 as int, end as int));
    }
    if cs[i] == '\n' {
        Some(i)
    } else {
        match find_nl(cs, i + 1, end) {
            Some(k) => Some(k),
            None => None,
        }
    }
}

/// Find the first non-space in `cs[i..end]`.
fn find_ns(cs: &Vec<char>, i: usize, end: usize) -> (r: Option<usize>)
    requires
        i <= end,
        end <= cs@.len(),
    ensures
        match r {
            Some(k) => i <= k < end && findns(cs@.subrange(i as int, end as int)) == Some(
                (k - i) as nat,
            ),
            None => findns(cs@.subrange(i as int, end as int)) is None,
        },
    decreases end - i,
{
    let ghost sub = cs@.subrange(i as int, end as int);
    if i >= end {
        return None;
    }
    proof {
        assert(sub[0] == cs@[i as int]);
        assert(sub.skip(1) =~= cs@.subrange(i + 1 as int, end as int));
    }
    if cs[i] != ' ' {
        Some(i)
    } else {
        match find_ns(cs, i + 1, end) {
            Some(k) => Some(k),
            None => None,
        }
    }
}

/// Trim blanks off both ends of the window `cs[a..b]`.
fn trim_range(cs: &Vec<char>, a: usize, b: usize) -> (r: (usize, usize))
    requires
        a <= b,
        b <= cs@.len(),
    ensures
        a <= r.0 <= r.1 <= b,
        cs@.subrange(r.0 as int, r.1 as int) == trimv(cs@.subrange(a as int, b as int)),
    decreases b - a,
{
    let ghost sub = cs@.subrange(a as int, b as int);
    if a >= b {
        return (a, a);
    }
    proof {
        assert(sub[0] == cs@[a as int]);
        assert(sub.last() == cs@[b - 1 as int]);
        assert(sub.skip(1) =~= cs@.subrange(a + 1 as int, b as int));
        assert(sub.drop_last() =~= cs@.subrange(a as int, b - 1 as int));
    }
    let c0 = cs[a];
    if c0 == ' ' || c0 == '\t' || c0 == '\r' {
        trim_range(cs, a + 1, b)
    } else {
        let c1 = cs[b - 1];
        if c1 == ' ' || c1 == '\t' || c1 == '\r' {
            trim_range(cs, a, b - 1)
        } else {
            (a, b)
        }
    }
}

/// Recognize an assignment in the window `cs[start..end]`.
fn assign_range(cs: &Vec<char>, start: usize, end: usize, d: &Defs, fuel: u64) -> (r: Option<
    (char, Expr),
>)
    requires
        start <= end,
        end <= cs@.len(),
    ensures
        view_bind(r) == assignv(cs@.subrange(start as int, end as int), d@, fuel as nat),
{
    let ghost sub = cs@.subrange(start as int, end as int);
    match find_ns(cs, start, end) {
        None => None,
        Some(i) => {
            let name = cs[i];
            proof {
                assert(sub[(i - start) as int] == cs@[i as int]);
                assert(sub.skip((i - start) + 1) =~= cs@.subrange(i + 1 as int, end as int));
            }
            match find_ns(cs, i + 1, end) {
                None => None,
                Some(k) => {
                    proof {
                        assert(cs@.subrange(i + 1 as int, end as int)[(k - (i + 1)) as int]
                            == cs@[k as int]);
                        assert(cs@.subrange(i + 1 as int, end as int).skip((k - (i + 1)) + 1)
                            =~= cs@.subrange(k + 1 as int, end as int));
                    }
                    if cs[k] == '=' {
                        match parse_range(cs, k + 1, end, d, fuel) {
                            Some(t) => Some((name, t)),
                            None => None,
                        }
                    } else {
                        None
                    }
                },
            }
        },
    }
}

/// Recognize an assignment: optional spaces, one name character,
/// optional spaces, `=`, and a parseable term after it.
///
/// The result is exactly [`assignv`] of the line: absence when the
/// line has no name, when a foreign character precedes the `=`, when
/// there is no `=`, and when the text after it does not parse.
pub fn assignment(line: &str, d: &Defs, fuel: u64) -> (r: Option<(char, Expr)>)
    ensures
        view_bind(r) == assignv(line@, d@, fuel as nat),
{
    let cs = chars_of(line);
    let n = cs.len();
    proof {
        assert(cs@.subrange(0, n as int) =~= line@);
    }
    assign_range(&cs, 0, n, d, fuel)
}

/// Process the lines of `cs[start..]` as [`pfile`] does.
fn file_range(cs: &Vec<char>, start: usize, d: &mut Defs, fuel: u64) -> (r: Option<Expr>)
    requires
        start <= cs@.len(),
    ensures
        final(d)@ == pfile(linesv(cs@.skip(start as int)), old(d)@, fuel as nat).0,
        view_opt(r) == pfile(linesv(cs@.skip(start as int)), old(d)@, fuel as nat).1,
    decreases cs@.len() - start,
{
    let ghost sub = cs@.skip(start as int);
    let n = cs.len();
    if start >= n {
        proof {
            assert(sub =~= Seq::<char>::empty());
        }
        return None;
    }
    let (line_end, next) = match find_nl(cs, start, n) {
        Some(k) => (k, k + 1),
        None => (n, n),
    };
    let ghost rawline = cs@.subrange(start as int, line_end as int);
    // one trailing carriage return is part of the line text and is
    // stripped here; further blanks fall to the trim below
    let stripped_end = if line_end > start && cs[line_end - 1] == '\r' {
        line_end - 1
    } else {
        line_end
    };
    let ghost line0 = strip_cr(rawline);
    proof {
        assert(rawline.len() == line_end - start);
        if line_end > start {
            assert(rawline.last() == cs@[line_end - 1 as int]);
            assert(rawline.drop_last() =~= cs@.subrange(start as int, line_end - 1 as int));
        }
        assert(cs@.subrange(start as int, stripped_end as int) == line0);
        assert(linesv(sub)[0] == line0 && linesv(sub).len() >= 1 && linesv(sub).skip(1) =~= (
        if next <= n {
            linesv(cs@.skip(next as int))
        } else {
            Seq::<Seq<char>>::empty()
        })) by {
            assert(sub.len() > 0);
            if line_end < n {
                assert(findnl(sub) == Some((line_end - start) as nat));
                assert(sub.subrange(0, (line_end - start) as int) =~= rawline);
                assert(sub.skip((line_end - start) + 1) =~= cs@.skip(next as int));
                assert(linesv(sub) == seq![line0] + linesv(cs@.skip(next as int)));
            } else {
                assert(findnl(sub) is None);
                assert(sub =~= rawline);
                assert(linesv(sub) == seq![line0]);
                assert(linesv(sub).skip(1) =~= Seq::<Seq<char>>::empty());
            }
        }
    }
    let (ta, tb) = trim_range(cs, start, stripped_end);
    let ghost line = trimv(line0);
    let ghost dsub = cs@.subrange(ta as int, tb as int);
    proof {
        assert(dsub == line);
    }
    // comment check on the trimmed line
    let is_com = if tb - ta >= 1 && cs[ta] == '#' {
        true
    } else if tb - ta >= 2 && cs[ta] == '/' && cs[ta + 1] == '/' {
        true
    } else if tb - ta >= 2 && cs[ta] == '-' && cs[ta + 1] == '-' {
        true
    } else {
        false
    };
    proof {
        if line.len() >= 1 {
            assert(line[0] == cs@[ta as int]);
        }
        if line.len() >= 2 {
            assert(line[1] == cs@[ta + 1 as int]);
        }
        assert(is_com == is_comment(line));
    }
    if is_com {
        let rr = file_range(cs, next, d, fuel);
        proof {
            assert(cs@.skip(next as int) =~= cs@.skip(next as int));
        }
        return rr;
    }
    match assign_range(cs, ta, tb, d, fuel) {
        Some((c, t)) => {
            d.insert(c, t);
            file_range(cs, next, d, fuel)
        },
        None => {
            match parse_range(cs, ta, tb, d, fuel) {
                Some(e) => Some(e),
                None => file_range(cs, next, d, fuel),
            }
        },
    }
}

impl Expr {
    /// Consume a body as zero or more definitions followed by one
    /// payload expression.
    ///
    /// The result and the table's growth are exactly [`pfile`] over
    /// the body's lines: comment lines are skipped, assignment lines
    /// extend the table, the first line that parses is returned and
    /// everything after it is ignored; a body with no such line is
    /// absence.
    pub fn parse_file(body: &str, d: &mut Defs, fuel: u64) -> (r: Option<Self>)
        ensures
            final(d)@ == pfile(linesv(body@), old(d)@, fuel as nat).0,
            view_opt(r) == pfile(linesv(body@), old(d)@, fuel as nat).1,
    {
        let cs = chars_of(body);
        proof {
            assert(cs@.skip(0) =~= body@);
        }
        file_range(&cs, 0, d, fuel)
    }
}

} // verus!
