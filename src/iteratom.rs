use vstd::prelude::*;
use vstd::string::StringExecFns;
use crate::error::SexpError;
use crate::decode::int_of;
use crate::{Sexp, is_tag_mismatch};

pub use crate::decode::FromSexp;

verus! {

pub type SResult<T> = crate::Result<T>;

/// A one-pass reader over the items of a list after its tag. Items are
/// taken in order, or picked by name; either way each item is taken once.
pub struct IterAtom<'a> {
    items: &'a [Sexp],
    pos: usize,
    used: Vec<bool>,
}

/// The first item at or after `i` that is not taken yet.
pub open spec fn next_free(used: Seq<bool>, i: int) -> Option<int>
    decreases used.len() - i,
{
    if i < 0 || i >= used.len() {
        None
    } else if !used[i] {
        Some(i)
    } else {
        next_free(used, i + 1)
    }
}

/// The first item at or after `i`, not taken yet, that is a list tagged
/// `name`.
pub open spec fn next_named(items: Seq<Sexp>, used: Seq<bool>, name: Seq<char>, i: int) -> Option<
    int,
>
    decreases items.len() - i,
{
    if i < 0 || i >= items.len() {
        None
    } else if !used[i] && items[i].tag() == Some(name) {
        Some(i)
    } else {
        next_named(items, used, name, i + 1)
    }
}

impl<'a> IterAtom<'a> {
    /// The items after the tag.
    pub closed spec fn items(&self) -> Seq<Sexp> {
        self.items@
    }

    /// Which items are taken.
    pub closed spec fn used(&self) -> Seq<bool> {
        self.used@
    }

    /// Where reading in order goes on.
    pub closed spec fn pos(&self) -> int {
        self.pos as int
    }

    pub closed spec fn wf(&self) -> bool {
        &&& self.used@.len() == self.items@.len()
        &&& self.pos <= self.items@.len()
    }

    /// A reader over the items of `s` after its tag, which must be `name`.
    pub fn new(s: &'a Sexp, name: &str) -> (r: SResult<IterAtom<'a>>)
        ensures
            match s.tag() {
                Some(t) => if t == name@ {
                    r matches Ok(it) && it.wf() && it.items() == s.items()->0.subrange(
                        1,
                        s.items()->0.len() as int,
                    ) && it.pos() == 0 && forall|i: int|
                        0 <= i < it.used().len() ==> !#[trigger] it.used()[i]
                } else {
                    r matches Err(e) && is_tag_mismatch(e, name@, t)
                },
                None => r matches Err(SexpError::Other(_)),
            },
    {
        let items = s.slice_atom(name)?;
        let mut used: Vec<bool> = Vec::new();
        let mut i: usize = 0;
        while i < items.len()
            invariant
                i <= items@.len(),
                used@.len() == i,
                forall|j: int| 0 <= j < i ==> !#[trigger] used@[j],
            decreases items.len() - i,
        {
            used.push(false);
            i = i + 1;
        }
        Ok(IterAtom { items, pos: 0, used })
    }

    fn find_named(&self, name: &str) -> (r: Option<usize>)
        requires
            self.wf(),
        ensures
            next_named(self.items(), self.used(), name@, self.pos()) == match r {
                Some(j) => Some(j as int),
                None => None::<int>,
            },
            r matches Some(j) ==> j < self.items().len() && self.items()[j as int].tag() == Some(
                name@,
            ),
    {
        let k = String::from_str(name);
        let mut i = self.pos;
        while i < self.items.len()
            invariant
                self.wf(),
                self.pos <= i <= self.items@.len(),
                k@ == name@,
                next_named(self.items(), self.used(), name@, self.pos())
                    == next_named(self.items(), self.used(), name@, i as int),
            decreases self.items.len() - i,
        {
            if !self.used[i] {
                match &self.items[i] {
                    Sexp::List(v) => {
                        if v.len() > 0 {
                            match &v[0] {
                                Sexp::String(t) => {
                                    if *t == k {
                                        return Some(i);
                                    }
                                },
                                _ => {},
                            }
                        }
                    },
                    _ => {},
                }
            }
            i = i + 1;
        }
        None
    }

    /// Takes the first free entry `(name value)` and gives its text value.
    pub fn s_in_list(&mut self, name: &str) -> (r: SResult<String>)
        requires
            old(self).wf(),
        ensures
            final(self).wf(),
            final(self).items() == old(self).items(),
            final(self).pos() == old(self).pos(),
            match next_named(old(self).items(), old(self).used(), name@, old(self).pos()) {
                Some(j) => final(self).used() == old(self).used().update(j, true) && {
                    let e = old(self).items()[j].items()->0;
                    if e.len() == 2 && e[1].atom() is Some {
                        r matches Ok(x) && x@ == e[1].atom()->0
                    } else {
                        r matches Err(SexpError::Other(_))
                    }
                },
                None => final(self).used() == old(self).used() && r matches Err(
                    SexpError::Other(_),
                ),
            },
    {
        match self.find_named(name) {
            Some(j) => {
                self.used.set(j, true);
                let x = self.items[j].named_value_string(name)?;
                Ok(x.clone())
            },
            None => {
                let mut m = String::from_str("no entry named ");
                m.append(name);
                Err(SexpError::Other(m))
            },
        }
    }

    /// Takes the first free entry `(name value)` and gives its integer value.
    pub fn i_in_list(&mut self, name: &str) -> (r: SResult<i64>)
        requires
            old(self).wf(),
        ensures
            final(self).wf(),
            final(self).items() == old(self).items(),
            final(self).pos() == old(self).pos(),
            match next_named(old(self).items(), old(self).used(), name@, old(self).pos()) {
                Some(j) => final(self).used() == old(self).used().update(j, true) && {
                    let e = old(self).items()[j].items()->0;
                    if e.len() == 2 && int_of(e[1]) is Some {
                        r matches Ok(x) && x == int_of(e[1])->0
                    } else {
                        r is Err
                    }
                },
                None => final(self).used() == old(self).used() && r matches Err(
                    SexpError::Other(_),
                ),
            },
    {
        match self.find_named(name) {
            Some(j) => {
                self.used.set(j, true);
                self.items[j].named_value_i(name)
            },
            None => {
                let mut m = String::from_str("no entry named ");
                m.append(name);
                Err(SexpError::Other(m))
            },
        }
    }

    /// Takes the first free list tagged `name` and decodes it whole.
    pub fn t<T: FromSexp>(&mut self, name: &str) -> (r: SResult<T>)
        requires
            old(self).wf(),
        ensures
            final(self).wf(),
            final(self).items() == old(self).items(),
            final(self).pos() == old(self).pos(),
            match next_named(old(self).items(), old(self).used(), name@, old(self).pos()) {
                Some(j) => final(self).used() == old(self).used().update(j, true) && call_ensures(
                    T::from_sexp,
                    (&old(self).items()[j],),
                    r,
                ),
                None => final(self).used() == old(self).used() && r matches Err(
                    SexpError::Other(_),
                ),
            },
    {
        match self.find_named(name) {
            Some(j) => {
                self.used.set(j, true);
                T::from_sexp(&self.items[j])
            },
            None => {
                let mut m = String::from_str("no entry named ");
                m.append(name);
                Err(SexpError::Other(m))
            },
        }
    }

    /// Takes the next free item in order and decodes it.
    pub fn next_as<T: FromSexp>(&mut self) -> (r: SResult<T>)
        requires
            old(self).wf(),
        ensures
            final(self).wf(),
            final(self).items() == old(self).items(),
            match next_free(old(self).used(), old(self).pos()) {
                Some(j) => final(self).used() == old(self).used().update(j, true)
                    && final(self).pos() == j + 1
                    && call_ensures(T::from_sexp, (&old(self).items()[j],), r),
                None => final(self).used() == old(self).used()
                    && final(self).pos() == old(self).pos()
                    && r matches Err(SexpError::Other(_)),
            },
    {
        let mut i = self.pos;
        while i < self.used.len()
            invariant
                self.wf(),
                *self == *old(self),
                self.pos <= i <= self.used@.len(),
                next_free(self.used(), self.pos()) == next_free(self.used(), i as int),
            decreases self.used.len() - i,
        {
            if !self.used[i] {
                self.used.set(i, true);
                self.pos = i + 1;
                return T::from_sexp(&self.items[i]);
            }
            i = i + 1;
        }
        Err(SexpError::Other(String::from_str("out of elements")))
    }
}

} // verus!
