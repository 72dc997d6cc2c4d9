use vstd::prelude::*;

pub mod error;
pub mod parser;
pub mod formatter;
pub mod ser;
pub mod decode;
pub mod iteratom;
pub mod laws;

pub use error::{Error, ParseError, SexpError, parse_error};
pub use parser::parse_str;
pub use ser::to_string;
use vstd::string::StringExecFns;
use vstd::slice::slice_subrange;
use ser::render_plain;

verus! {

broadcast use vstd::std_specs::vec::group_vec_axioms, vstd::seq::group_seq_axioms;

/// The mathematical value of a symbolic expression.
pub enum Tree {
    Atom(Seq<char>),
    List(Seq<Tree>),
    Empty,
}

/// A symbolic expression: a text atom, a list of expressions, or nothing.
#[derive(Debug)]
pub enum Sexp {
    String(String),
    List(Vec<Sexp>),
    Empty,
}

/// The trees of a sequence of expressions, in order.
pub open spec fn views(s: Seq<Sexp>) -> Seq<Tree>
    decreases s,
{
    if s.len() == 0 {
        Seq::empty()
    } else {
        views(s.drop_last()).push(s.last().view())
    }
}

impl Sexp {
    pub open spec fn view(&self) -> Tree
        decreases self,
    {
        match self {
            Sexp::String(s) => Tree::Atom(s@),
            Sexp::List(v) => Tree::List(views(v@)),
            Sexp::Empty => Tree::Empty,
        }
    }
}

/// A value that can give itself as a symbolic expression.
pub trait IntoSexp {
    fn into_sexp(&self) -> Sexp;
}

pub type Result<T> = core::result::Result<T, SexpError>;

/// The value of a run of decimal digits.
pub open spec fn digits_value(s: Seq<char>) -> int
    decreases s.len(),
{
    if s.len() == 0 {
        0
    } else {
        digits_value(s.drop_last()) * 10 + (s.last() as int - '0' as int)
    }
}

pub open spec fn all_digits(s: Seq<char>) -> bool {
    s.len() > 0 && forall|i: int| 0 <= i < s.len() ==> '0' <= #[trigger] s[i] <= '9'
}

/// The integer that a text writes in decimal, with an optional sign.
pub open spec fn int_value(s: Seq<char>) -> Option<int> {
    if s.len() > 0 && (s[0] == '+' || s[0] == '-') {
        let d = s.subrange(1, s.len() as int);
        if all_digits(d) {
            Some(
                if s[0] == '-' {
                    -digits_value(d)
                } else {
                    digits_value(d)
                },
            )
        } else {
            None
        }
    } else if all_digits(s) {
        Some(digits_value(s))
    } else {
        None
    }
}

pub open spec fn fits_i64(v: int) -> bool {
    i64::MIN <= v <= i64::MAX
}

/// Relies on i64's FromStr: an optional sign and decimal digits, in range.
#[verifier::external_body]
fn parse_i64(s: &str) -> (r: core::result::Result<i64, core::num::ParseIntError>)
    ensures
        match int_value(s@) {
            Some(v) => if fits_i64(v) {
                r == Ok::<i64, core::num::ParseIntError>(v as i64)
            } else {
                r is Err
            },
            None => r is Err,
        },
{
    <i64 as core::str::FromStr>::from_str(s)
}

/// Relies on String::push: appends one character.
#[verifier::external_body]
pub(crate) fn push_char(s: &mut String, c: char)
    ensures
        final(s)@ == old(s)@.push(c),
{
    s.push(c)
}

fn copy_of(s: &Sexp) -> (r: Sexp)
    ensures
        r@ == s@,
    decreases s,
{
    match s {
        Sexp::String(t) => Sexp::String(t.clone()),
        Sexp::List(v) => {
            let mut out: Vec<Sexp> = Vec::new();
            let mut i: usize = 0;
            proof {
                lemma_views_len(v@);
            }
            while i < v.len()
                invariant
                    i <= v@.len(),
                    *s == Sexp::List(*v),
                    s@ == Tree::List(views(v@)),
                    views(out@) == views(v@.subrange(0, i as int)),
                decreases v.len() - i,
            {
                let x = &v[i];
                proof {
                    assert(decreases_to!(v => v[i as int]));
                }
                let c = copy_of(x);
                proof {
                    lemma_views_push(out@, c);
                    lemma_views_push(v@.subrange(0, i as int), v@[i as int]);
                    assert(v@.subrange(0, i as int).push(v@[i as int]) =~= v@.subrange(0, i + 1));
                }
                out.push(c);
                i = i + 1;
            }
            assert(v@.subrange(0, v@.len() as int) =~= v@);
            Sexp::List(out)
        },
        Sexp::Empty => Sexp::Empty,
    }
}

impl Clone for Sexp {
    fn clone(&self) -> (r: Sexp)
        ensures
            r@ == self@,
    {
        copy_of(self)
    }
}

pub proof fn lemma_views_index(s: Seq<Sexp>, i: int)
    requires
        0 <= i < s.len(),
    ensures
        views(s).len() == s.len(),
        views(s)[i] == s[i]@,
    decreases s.len(),
{
    lemma_views_len(s);
    if i < s.len() - 1 {
        lemma_views_index(s.drop_last(), i);
    }
}

pub proof fn lemma_views_push(s: Seq<Sexp>, x: Sexp)
    ensures
        views(s.push(x)) == views(s).push(x@),
{
    assert(s.push(x).drop_last() =~= s);
}

pub proof fn lemma_views_len(s: Seq<Sexp>)
    ensures
        views(s).len() == s.len(),
    decreases s.len(),
{
    if s.len() > 0 {
        lemma_views_len(s.drop_last());
    }
}

} // verus!

verus! {

/// `e` reports a list tagged `found` where `expected` was asked for.
pub open spec fn is_tag_mismatch(e: SexpError, expected: Seq<char>, found: Seq<char>) -> bool {
    e matches SexpError::TagMismatch { expected: x, found: y } && x@ == expected && y@ == found
}

fn str_error<T>(s: String) -> (r: Result<T>)
    ensures
        r matches Err(SexpError::Other(m)) && m@ == s@,
{
    Err(SexpError::Other(s))
}

fn message(prefix: &str, s: &Sexp) -> (r: String)
    ensures
        r@ == prefix@ + render_plain(s@),
{
    let mut m = String::from_str(prefix);
    let t = ser::to_string(s);
    match t {
        Ok(t) => m.append(t.as_str()),
        Err(_) => {},
    }
    m
}

impl Sexp {
    /// The text of the atom, when this is an atom.
    pub open spec fn atom(&self) -> Option<Seq<char>> {
        match self {
            Sexp::String(s) => Some(s@),
            _ => None,
        }
    }

    /// The items, when this is a list.
    pub open spec fn items(&self) -> Option<Seq<Sexp>> {
        match self {
            Sexp::List(v) => Some(v@),
            _ => None,
        }
    }

    /// The tag of a list: the text of its first item, when that is an atom.
    pub open spec fn tag(&self) -> Option<Seq<char>> {
        match self {
            Sexp::List(v) => if v@.len() > 0 {
                v@[0].atom()
            } else {
                None
            },
            _ => None,
        }
    }

    /// Why `(s value)` cannot be read from this value, which is a list:
    /// another tag, or another shape.
    pub open spec fn named_error(&self, s: Seq<char>, e: SexpError) -> bool {
        match self.tag() {
            Some(t) => if self.items()->0.len() == 2 && t != s {
                is_tag_mismatch(e, s, t)
            } else {
                e is Other
            },
            None => e is Other,
        }
    }

    pub fn new_empty() -> (r: Sexp)
        ensures
            r@ == Tree::Empty,
    {
        Sexp::Empty
    }

    /// The expression that `t` gives of itself.
    pub fn from<T: IntoSexp>(t: &T) -> (r: Sexp)
        ensures
            call_ensures(T::into_sexp, (t,), r),
    {
        t.into_sexp()
    }

    /// The items of a list.
    pub fn list(&self) -> (r: Result<&Vec<Sexp>>)
        ensures
            match self {
                Sexp::List(v) => r matches Ok(x) && *x == v,
                _ => r matches Err(SexpError::Other(_)),
            },
    {
        match self {
            Sexp::List(v) => Ok(v),
            _ => str_error(message("not a list: ", self)),
        }
    }

    /// The text of an atom.
    pub fn string(&self) -> (r: Result<&String>)
        ensures
            match self {
                Sexp::String(s) => r matches Ok(x) && *x == s,
                _ => r matches Err(SexpError::Other(_)),
            },
    {
        match self {
            Sexp::String(s) => Ok(s),
            _ => str_error(message("not a string: ", self)),
        }
    }

    /// The integer that an atom writes in decimal.
    pub fn i(&self) -> (r: Result<i64>)
        ensures
            match self.atom() {
                None => r matches Err(SexpError::Other(_)),
                Some(a) => match int_value(a) {
                    Some(v) => if fits_i64(v) {
                        r matches Ok(x) && x == v
                    } else {
                        r matches Err(SexpError::Int(_))
                    },
                    None => r matches Err(SexpError::Int(_)),
                },
            },
    {
        let s = self.string()?;
        match parse_i64(s.as_str()) {
            Ok(v) => Ok(v),
            Err(e) => Err(SexpError::Int(e)),
        }
    }

    /// The tag of a list.
    pub fn list_name(&self) -> (r: Result<&String>)
        ensures
            match self.tag() {
                Some(t) => r matches Ok(x) && x@ == t,
                None => r matches Err(SexpError::Other(_)),
            },
    {
        let l = self.list()?;
        if l.len() == 0 {
            return str_error(message("empty list: ", self));
        }
        l[0].string()
    }

    /// The items of a list after its tag, which must be `s`.
    pub fn slice_atom(&self, s: &str) -> (r: Result<&[Sexp]>)
        ensures
            match self.tag() {
                Some(t) => if t == s@ {
                    r matches Ok(x) && x@ == self.items()->0.subrange(
                        1,
                        self.items()->0.len() as int,
                    )
                } else {
                    r matches Err(e) && is_tag_mismatch(e, s@, t)
                },
                None => r matches Err(SexpError::Other(_)),
            },
    {
        let v = self.list()?;
        if v.len() == 0 {
            return str_error(message("empty list: ", self));
        }
        let st = v[0].string()?;
        let expected = String::from_str(s);
        if *st != expected {
            return Err(SexpError::TagMismatch { expected, found: st.clone() });
        }
        Ok(slice_subrange(v.as_slice(), 1, v.len()))
    }

    /// The value of a pair `(s value)`.
    pub fn named_value(&self, s: &str) -> (r: Result<&Sexp>)
        ensures
            match self.items() {
                Some(v) => if v.len() != 2 {
                    r matches Err(SexpError::Other(_))
                } else {
                    match self.tag() {
                        Some(t) => if t == s@ {
                            r matches Ok(x) && *x == v[1]
                        } else {
                            r matches Err(e) && is_tag_mismatch(e, s@, t)
                        },
                        None => r matches Err(SexpError::Other(_)),
                    }
                },
                None => r matches Err(SexpError::Other(_)),
            },
    {
        let v = self.list()?;
        if v.len() != 2 {
            let mut m = String::from_str("list ");
            m.append(s);
            m.append(" is not a named_value");
            return str_error(m);
        }
        let l = self.slice_atom(s)?;
        Ok(&l[0])
    }

    /// The integer value of a pair `(s value)`.
    pub fn named_value_i(&self, s: &str) -> (r: Result<i64>)
        ensures
            match self.items() {
                Some(v) => if v.len() == 2 && self.tag() == Some(s@) {
                    match v[1].atom() {
                        None => r matches Err(SexpError::Other(_)),
                        Some(a) => match int_value(a) {
                            Some(n) => if fits_i64(n) {
                                r matches Ok(x) && x == n
                            } else {
                                r matches Err(SexpError::Int(_))
                            },
                            None => r matches Err(SexpError::Int(_)),
                        },
                    }
                } else {
                    r matches Err(e) && self.named_error(s@, e)
                },
                None => r matches Err(SexpError::Other(_)),
            },
    {
        self.named_value(s)?.i()
    }

    /// The text value of a pair `(s value)`.
    pub fn named_value_string(&self, s: &str) -> (r: Result<&String>)
        ensures
            match self.items() {
                Some(v) => if v.len() == 2 && self.tag() == Some(s@) {
                    match v[1] {
                        Sexp::String(a) => r matches Ok(x) && *x == a,
                        _ => r matches Err(SexpError::Other(_)),
                    }
                } else {
                    r matches Err(e) && self.named_error(s@, e)
                },
                None => r matches Err(SexpError::Other(_)),
            },
    {
        self.named_value(s)?.string()
    }

    /// The items of a list after its tag, which must be `s`, when there are
    /// exactly `num` of them.
    pub fn slice_atom_num(&self, s: &str, num: usize) -> (r: Result<&[Sexp]>)
        ensures
            match self.tag() {
                Some(t) => if t != s@ {
                    r matches Err(e) && is_tag_mismatch(e, s@, t)
                } else if self.items()->0.len() != num + 1 {
                    r matches Err(SexpError::ArityMismatch { tag, expected, found }) && tag@ == s@
                        && expected == num && found == self.items()->0.len() - 1
                } else {
                    r matches Ok(x) && x@ == self.items()->0.subrange(
                        1,
                        self.items()->0.len() as int,
                    )
                },
                None => r matches Err(SexpError::Other(_)),
            },
    {
        let l = self.slice_atom(s)?;
        if l.len() != num {
            return Err(SexpError::ArityMismatch { tag: String::from_str(s), expected: num, found: l.len() });
        }
        Ok(l)
    }
}

/// The text of an atom: quoted when it is empty or holds a space or a
/// bracket.
pub fn display_string(s: &str) -> (r: String)
    ensures
        r@ == ser::atom_text(s@),
{
    let a = String::from_str(s);
    let mut out = String::new();
    ser::push_atom(&mut out, &a);
    assert(out@ =~= ser::atom_text(s@));
    out
}

} // verus!