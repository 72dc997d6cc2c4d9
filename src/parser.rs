use vstd::prelude::*;
use vstd::std_specs::iter::IteratorSpec;
use vstd::string::axiom_spec_iter;
use vstd::string::next_postcondition;
use vstd::string::StringExecFns;
use crate::error::SexpError;
use crate::error::ParseError;
use crate::{Sexp, Tree, views, push_char, lemma_views_push};

verus! {

/// Why parsing stopped.
#[derive(Debug, Clone, Copy, PartialEq, Eq, Structural)]
pub enum ParseFail {
    /// the text ended while more was expected
    EndOfInput,
    /// a closing bracket where a value was expected
    UnexpectedClose,
}

/// The outcome of parsing from a position: a value and the position after
/// it, or a failure and the position where it was detected.
pub enum Step<T> {
    Done(T, int),
    Fail(ParseFail, int),
}

pub open spec fn is_space(c: char) -> bool {
    c == ' ' || c == '\t' || c == '\r' || c == '\n'
}

/// A character that may stand in an unquoted atom.
pub open spec fn is_bare(c: char) -> bool {
    !(c == '(' || c == ')' || c == ' ' || c == '\r' || c == '\n')
}

/// The end of the run of bare characters that starts at `p`.
pub open spec fn bare_end(t: Seq<char>, p: int) -> int
    decreases t.len() - p,
{
    if 0 <= p < t.len() && is_bare(t[p]) {
        bare_end(t, p + 1)
    } else {
        p
    }
}

/// The position of the first quote at or after `p`, or the end of the text.
pub open spec fn quote_end(t: Seq<char>, p: int) -> int
    decreases t.len() - p,
{
    if 0 <= p < t.len() && t[p] != '"' {
        quote_end(t, p + 1)
    } else {
        p
    }
}

/// Parses one value at `p`, after optional white space.
pub open spec fn parse_value(t: Seq<char>, p: int) -> Step<Tree>
    decreases t.len() - p, 0int,
{
    if p < 0 || p >= t.len() {
        Step::Fail(ParseFail::EndOfInput, t.len() as int)
    } else if is_space(t[p]) {
        parse_value(t, p + 1)
    } else if t[p] == '(' {
        match parse_items(t, p + 1) {
            Step::Done(items, e) => Step::Done(Tree::List(items), e),
            Step::Fail(k, q) => Step::Fail(k, q),
        }
    } else if t[p] == ')' {
        Step::Fail(ParseFail::UnexpectedClose, p)
    } else if t[p] == '"' {
        let e = quote_end(t, p + 1);
        if e >= t.len() {
            Step::Fail(ParseFail::EndOfInput, t.len() as int)
        } else {
            Step::Done(Tree::Atom(t.subrange(p + 1, e)), e + 1)
        }
    } else {
        let e = bare_end(t, p);
        Step::Done(Tree::Atom(t.subrange(p, e)), e)
    }
}

/// Parses the items of a list up to and including its closing bracket.
pub open spec fn parse_items(t: Seq<char>, p: int) -> Step<Seq<Tree>>
    decreases t.len() - p, 1int,
{
    if p < 0 || p >= t.len() {
        Step::Fail(ParseFail::EndOfInput, t.len() as int)
    } else if is_space(t[p]) {
        parse_items(t, p + 1)
    } else if t[p] == ')' {
        Step::Done(Seq::empty(), p + 1)
    } else {
        // A parsed value always ends past its start and within the text; the
        // test keeps the recursion well founded.
        match parse_value(t, p) {
            Step::Done(v, e) => if p < e <= t.len() {
                match parse_items(t, e) {
                    Step::Done(vs, f) => Step::Done(seq![v] + vs, f),
                    Step::Fail(k, q) => Step::Fail(k, q),
                }
            } else {
                Step::Fail(ParseFail::UnexpectedClose, p)
            },
            Step::Fail(k, q) => Step::Fail(k, q),
        }
    }
}

/// What parsing a whole text gives: `Empty` for no text, else the first value
/// in it, or the failure with its position.
pub open spec fn parse_text(t: Seq<char>) -> Result<Tree, (ParseFail, int)> {
    if t.len() == 0 {
        Ok(Tree::Empty)
    } else {
        match parse_value(t, 0) {
            Step::Done(v, _) => Ok(v),
            Step::Fail(k, q) => Err((k, q)),
        }
    }
}

/// The 1-based line of position `p`.
pub open spec fn line_of(t: Seq<char>, p: int) -> int
    decreases p,
{
    if p <= 0 {
        1
    } else {
        line_of(t, p - 1) + if t[p - 1] == '\n' { 1int } else { 0int }
    }
}

/// The 1-based column of position `p`.
pub open spec fn col_of(t: Seq<char>, p: int) -> int
    decreases p,
{
    if p <= 0 {
        1
    } else if t[p - 1] == '\n' {
        1
    } else {
        col_of(t, p - 1) + 1
    }
}

pub open spec fn fail_message(k: ParseFail) -> Seq<char> {
    match k {
        ParseFail::EndOfInput => "End of file reached"@,
        ParseFail::UnexpectedClose => "Unexpected )"@,
    }
}

/// The characters of `s`, in order.
pub(crate) fn chars_of(s: &str) -> (r: Vec<char>)
    ensures
        r@ == s@,
{
    broadcast use axiom_spec_iter, next_postcondition;

    let mut it = s.chars();
    let mut v: Vec<char> = Vec::new();
    loop
        invariant
            v@ + it.remaining() == s@,
            it.decrease() is Some,
        ensures
            v@ == s@,
        decreases it.decrease()->0,
    {
        match it.next() {
            Some(c) => {
                v.push(c);
            },
            None => {
                assert(it.remaining().len() == 0);
                assert(v@ =~= s@);
                break;
            },
        }
    }
    v
}

pub open spec fn step_agrees(r: Result<(Sexp, usize), (ParseFail, usize)>, s: Step<Tree>) -> bool {
    match s {
        Step::Done(v, e) => r matches Ok((x, f)) && x@ == v && f == e,
        Step::Fail(k, q) => r matches Err((k2, q2)) && k2 == k && q2 == q,
    }
}

pub open spec fn prepend(pre: Seq<Tree>, s: Step<Seq<Tree>>) -> Step<Seq<Tree>> {
    match s {
        Step::Done(vs, f) => Step::Done(pre + vs, f),
        Step::Fail(k, q) => Step::Fail(k, q),
    }
}

fn parse_value_at(t: &Vec<char>, p0: usize) -> (r: Result<(Sexp, usize), (ParseFail, usize)>)
    requires
        p0 <= t@.len(),
    ensures
        step_agrees(r, parse_value(t@, p0 as int)),
        r matches Err((_, q)) ==> q <= t@.len(),
    decreases t@.len() - p0, 0int,
{
    let mut p = p0;
    while p < t.len() && (t[p] == ' ' || t[p] == '\t' || t[p] == '\r' || t[p] == '\n')
        invariant
            p0 <= p <= t.len(),
            parse_value(t@, p0 as int) == parse_value(t@, p as int),
        decreases t.len() - p,
    {
        p = p + 1;
    }
    if p >= t.len() {
        return Err((ParseFail::EndOfInput, t.len()));
    }
    let c = t[p];
    if c == '(' {
        match parse_items_at(t, p + 1) {
            Ok((v, e)) => Ok((Sexp::List(v), e)),
            Err(f) => Err(f),
        }
    } else if c == ')' {
        Err((ParseFail::UnexpectedClose, p))
    } else if c == '"' {
        let mut s = String::new();
        let mut q = p + 1;
        while q < t.len() && t[q] != '"'
            invariant
                p + 1 <= q <= t.len(),
                s@ == t@.subrange(p + 1, q as int),
                quote_end(t@, p + 1) == quote_end(t@, q as int),
            decreases t.len() - q,
        {
            push_char(&mut s, t[q]);
            assert(t@.subrange(p + 1, q + 1) =~= t@.subrange(p + 1, q as int).push(t@[q as int]));
            q = q + 1;
        }
        if q >= t.len() {
            Err((ParseFail::EndOfInput, t.len()))
        } else {
            Ok((Sexp::String(s), q + 1))
        }
    } else {
        let mut s = String::new();
        let mut q = p;
        while q < t.len() && !(t[q] == '(' || t[q] == ')' || t[q] == ' ' || t[q] == '\r' || t[q]
            == '\n')
            invariant
                p <= q <= t.len(),
                s@ == t@.subrange(p as int, q as int),
                bare_end(t@, p as int) == bare_end(t@, q as int),
            decreases t.len() - q,
        {
            push_char(&mut s, t[q]);
            assert(t@.subrange(p as int, q + 1) =~= t@.subrange(p as int, q as int).push(
                t@[q as int],
            ));
            q = q + 1;
        }
        Ok((Sexp::String(s), q))
    }
}

fn parse_items_at(t: &Vec<char>, p0: usize) -> (r: Result<(Vec<Sexp>, usize), (ParseFail, usize)>)
    requires
        p0 <= t@.len(),
    ensures
        match parse_items(t@, p0 as int) {
            Step::Done(vs, e) => r matches Ok((v, f)) && views(v@) == vs && f == e,
            Step::Fail(k, q) => r matches Err((k2, q2)) && k2 == k && q2 == q,
        },
        r matches Err((_, q)) ==> q <= t@.len(),
    decreases t@.len() - p0, 1int,
{
    let mut v: Vec<Sexp> = Vec::new();
    let mut p = p0;
    loop
        invariant
            p0 <= p <= t@.len(),
            parse_items(t@, p0 as int) == prepend(views(v@), parse_items(t@, p as int)),
        decreases t.len() - p,
    {
        if p >= t.len() {
            return Err((ParseFail::EndOfInput, t.len()));
        }
        let c = t[p];
        if c == ' ' || c == '\t' || c == '\r' || c == '\n' {
            p = p + 1;
        } else if c == ')' {
            assert(views(v@) + Seq::<Tree>::empty() =~= views(v@));
            return Ok((v, p + 1));
        } else {
            match parse_value_at(t, p) {
                Ok((x, e)) => {
                    if e > p && e <= t.len() {
                        proof {
                            lemma_views_push(v@, x);
                            match parse_items(t@, e as int) {
                                Step::Done(vs, f) => {
                                    assert(views(v@) + (seq![x@] + vs) =~= views(v@).push(x@)
                                        + vs);
                                },
                                Step::Fail(_, _) => {},
                            }
                        }
                        v.push(x);
                        p = e;
                    } else {
                        return Err((ParseFail::UnexpectedClose, p));
                    }
                },
                Err(f) => {
                    return Err(f);
                },
            }
        }
    }
}

} // verus!

verus! {

/// The 1-based line and column of position `p` in `t`.
fn line_col(t: &Vec<char>, p: usize) -> (r: (usize, usize))
    requires
        p <= t@.len() < usize::MAX,
    ensures
        r.0 == line_of(t@, p as int),
        r.1 == col_of(t@, p as int),
{
    let mut line: usize = 1;
    let mut col: usize = 1;
    let mut i: usize = 0;
    while i < p
        invariant
            i <= p <= t@.len() < usize::MAX,
            line == line_of(t@, i as int),
            col == col_of(t@, i as int),
            1 <= line <= i + 1,
            1 <= col <= i + 1,
        decreases p - i,
    {
        if t[i] == '\n' {
            line = line + 1;
            col = 1;
        } else {
            col = col + 1;
        }
        i = i + 1;
    }
    (line, col)
}

fn fail_text(k: ParseFail) -> (r: String)
    ensures
        r@ == fail_message(k),
{
    match k {
        ParseFail::EndOfInput => {
            proof {
                reveal_strlit("End of file reached");
            }
            String::from_str("End of file reached")
        },
        ParseFail::UnexpectedClose => {
            proof {
                reveal_strlit("Unexpected )");
            }
            String::from_str("Unexpected )")
        },
    }
}

/// Parses a whole text. No text gives `Empty`; otherwise the first value in
/// the text is parsed and what follows it is left unread. A failure carries
/// its message and the line and column where it was detected.
pub fn parse_str(sexp: &str) -> (r: Result<Sexp, SexpError>)
    requires
        sexp@.len() < usize::MAX,
    ensures
        match parse_text(sexp@) {
            Ok(v) => r matches Ok(x) && x@ == v,
            Err((k, q)) => r matches Err(SexpError::Parse(pe)) && pe.msg@ == fail_message(k)
                && pe.line == line_of(sexp@, q) && pe.col == col_of(sexp@, q),
        },
{
    if sexp.is_empty() {
        return Ok(Sexp::Empty);
    }
    let t = chars_of(sexp);
    match parse_value_at(&t, 0) {
        Ok((x, _)) => Ok(x),
        Err((k, q)) => {
            let (line, col) = line_col(&t, q);
            Err(SexpError::Parse(ParseError { msg: fail_text(k), line, col }))
        },
    }
}

} // verus!
