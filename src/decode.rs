use vstd::prelude::*;
use vstd::string::StringExecFns;
use crate::error::SexpError;
use crate::{Result, Sexp, int_value, fits_i64};

verus! {

/// A type that can build itself from a symbolic expression.
pub trait FromSexp: Sized {
    fn from_sexp(s: &Sexp) -> Result<Self>;
}

/// Builds a value of type `T` from `s`.
pub fn decode<T: FromSexp>(s: Sexp) -> (r: Result<T>)
    ensures
        call_ensures(T::from_sexp, (&s,), r),
{
    T::from_sexp(&s)
}

/// An entry `(name value)`.
pub open spec fn is_entry(x: Sexp, name: Seq<char>) -> bool {
    x.tag() == Some(name) && x.items()->0.len() == 2
}

/// The index of the first entry `(name value)` at or after `i`.
pub open spec fn first_entry(items: Seq<Sexp>, name: Seq<char>, i: int) -> Option<int>
    decreases items.len() - i,
{
    if i < 0 || i >= items.len() {
        None
    } else if is_entry(items[i], name) {
        Some(i)
    } else {
        first_entry(items, name, i + 1)
    }
}

/// What decoding an atom as an integer gives.
pub open spec fn int_of(x: Sexp) -> Option<i64> {
    match x.atom() {
        Some(a) => match int_value(a) {
            Some(v) => if fits_i64(v) {
                Some(v as i64)
            } else {
                None
            },
            None => None,
        },
        None => None,
    }
}

/// The value of the first field `(name value)` among `items`.
pub fn field<'a>(items: &'a [Sexp], name: &str) -> (r: Result<&'a Sexp>)
    ensures
        match first_entry(items@, name@, 0) {
            Some(j) => r matches Ok(x) && *x == items@[j].items()->0[1],
            None => r matches Err(SexpError::Other(m)) && m@ == "missing field "@ + name@,
        },
{
    let k = String::from_str(name);
    let mut i: usize = 0;
    while i < items.len()
        invariant
            i <= items@.len(),
            k@ == name@,
            first_entry(items@, name@, 0) == first_entry(items@, name@, i as int),
        decreases items.len() - i,
    {
        let x = &items[i];
        match x {
            Sexp::List(v) => {
                if v.len() == 2 {
                    match &v[0] {
                        Sexp::String(t) => {
                            if *t == k {
                                return Ok(&v[1]);
                            }
                        },
                        _ => {},
                    }
                }
            },
            _ => {},
        }
        i = i + 1;
    }
    let mut m = String::from_str("missing field ");
    m.append(name);
    proof {
        reveal_strlit("missing field ");
    }
    Err(SexpError::Other(m))
}

/// Item `j` is the first that is no integer.
pub open spec fn first_failure(v: Seq<Sexp>, j: int) -> bool {
    &&& int_of(v[j]) is None
    &&& forall|i: int| 0 <= i < j ==> int_of(#[trigger] v[i]) is Some
}

/// Decodes every item of a list as an integer, failing on the first one
/// that is not.
pub fn decode_ints(s: &Sexp) -> (r: Result<Vec<i64>>)
    ensures
        match s.items() {
            Some(v) => if forall|i: int| 0 <= i < v.len() ==> int_of(#[trigger] v[i]) is Some {
                r matches Ok(x) && x@.len() == v.len() && forall|i: int|
                    0 <= i < v.len() ==> x@[i] == int_of(#[trigger] v[i])->0
            } else {
                r matches Err(e) && exists|j: int|
                    0 <= j < v.len() && first_failure(v, j) && (if (#[trigger] v[j]).atom() is Some {
                        e is Int
                    } else {
                        e is Other
                    })
            },
            None => r matches Err(SexpError::Other(_)),
        },
{
    let v = s.list()?;
    let mut out: Vec<i64> = Vec::new();
    let mut i: usize = 0;
    while i < v.len()
        invariant
            i <= v@.len(),
            s.items() == Some(v@),
            out@.len() == i,
            forall|j: int| 0 <= j < i ==> int_of(#[trigger] v@[j]) is Some,
            forall|j: int| 0 <= j < i ==> out@[j] == int_of(#[trigger] v@[j])->0,
        decreases v.len() - i,
    {
        match v[i].i() {
            Ok(x) => {
                out.push(x);
            },
            Err(e) => {
                assert(first_failure(v@, i as int));
                return Err(e);
            },
        }
        i = i + 1;
    }
    Ok(out)
}

/// Decodes every item of a list as a text atom, failing on the first one
/// that is not.
pub fn decode_strings(s: &Sexp) -> (r: Result<Vec<String>>)
    ensures
        match s.items() {
            Some(v) => if forall|i: int| 0 <= i < v.len() ==> (#[trigger] v[i]).atom() is Some {
                r matches Ok(x) && x@.len() == v.len() && forall|i: int|
                    0 <= i < v.len() ==> Some(x@[i]@) == (#[trigger] v[i]).atom()
            } else {
                r matches Err(SexpError::Other(_))
            },
            None => r matches Err(SexpError::Other(_)),
        },
{
    let v = s.list()?;
    let mut out: Vec<String> = Vec::new();
    let mut i: usize = 0;
    while i < v.len()
        invariant
            i <= v@.len(),
            s.items() == Some(v@),
            out@.len() == i,
            forall|j: int| 0 <= j < i ==> (#[trigger] v@[j]).atom() is Some,
            forall|j: int| 0 <= j < i ==> Some(out@[j]@) == (#[trigger] v@[j]).atom(),
        decreases v.len() - i,
    {
        let x = v[i].string()?;
        out.push(x.clone());
        i = i + 1;
    }
    Ok(out)
}

/// `T` may build itself from `x`.
pub open spec fn may_decode<T: FromSexp>(x: Sexp) -> bool {
    exists|y: T| #[trigger] call_ensures(T::from_sexp, (&x,), Ok::<T, SexpError>(y))
}

/// Decodes every item of a list, failing on the first one that fails.
pub fn decode_vec<T: FromSexp>(s: &Sexp) -> (r: Result<Vec<T>>)
    ensures
        s.items() is None ==> r matches Err(SexpError::Other(_)),
        s.items() == Some(Seq::<Sexp>::empty()) ==> (r matches Ok(x) && x@.len() == 0),
        r matches Ok(x) ==> x@.len() == s.items()->0.len() && forall|i: int|
            0 <= i < x@.len() ==> call_ensures(
                T::from_sexp,
                (&s.items()->0[i],),
                Ok::<T, SexpError>(#[trigger] x@[i]),
            ),
        r is Err && s.items() is Some ==> exists|j: int|
            0 <= j < s.items()->0.len() && call_ensures(
                T::from_sexp,
                (&(#[trigger] s.items()->0[j]),),
                Err::<T, SexpError>(r->Err_0),
            ) && forall|i: int| 0 <= i < j ==> may_decode::<T>(#[trigger] s.items()->0[i]),
{
    let v = s.list()?;
    let mut out: Vec<T> = Vec::new();
    let mut i: usize = 0;
    while i < v.len()
        invariant
            i <= v@.len(),
            s.items() == Some(v@),
            out@.len() == i,
            forall|j: int|
                0 <= j < i ==> call_ensures(
                    T::from_sexp,
                    (&v@[j],),
                    Ok::<T, SexpError>(#[trigger] out@[j]),
                ),
        decreases v.len() - i,
    {
        let d = T::from_sexp(&v[i]);
        assert(call_ensures(T::from_sexp, (&v@[i as int],), d));
        match d {
            Ok(x) => {
                out.push(x);
            },
            Err(e) => {
                assert forall|k: int| 0 <= k < i implies may_decode::<T>(#[trigger] v@[k]) by {
                    assert(call_ensures(T::from_sexp, (&v@[k],), Ok::<T, SexpError>(out@[k])));
                }
                assert(s.items()->0[i as int] == v@[i as int]);
                return Err(e);
            },
        }
        i = i + 1;
    }
    Ok(out)
}

/// The unit value, which only `Empty` gives.
pub fn decode_unit(s: &Sexp) -> (r: Result<()>)
    ensures
        r is Ok <==> s is Empty,
{
    match s {
        Sexp::Empty => Ok(()),
        _ => Err(SexpError::Other(String::from_str("not empty"))),
    }
}

impl FromSexp for i64 {
    fn from_sexp(s: &Sexp) -> Result<i64> {
        s.i()
    }
}

impl FromSexp for String {
    fn from_sexp(s: &Sexp) -> Result<String> {
        let t = s.string()?;
        Ok(t.clone())
    }
}

impl<T: FromSexp> FromSexp for Vec<T> {
    fn from_sexp(s: &Sexp) -> Result<Vec<T>> {
        decode_vec(s)
    }
}

impl FromSexp for () {
    fn from_sexp(s: &Sexp) -> Result<()> {
        decode_unit(s)
    }
}

} // verus!
