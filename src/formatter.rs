use vstd::prelude::*;
use vstd::string::StringExecFns;

verus! {

/// Formatting rules: for a tag, the number of children after the tag that
/// stay on the tag's line. A list whose tag has a rule also starts on a line
/// of its own when it is not the first item of its parent.
pub struct Rules {
    entries: Vec<(String, usize)>,
}

/// The mapping that a list of entries describes; an earlier entry wins.
pub open spec fn rules_map(e: Seq<(String, usize)>) -> Map<Seq<char>, usize>
    decreases e.len(),
{
    if e.len() == 0 {
        Map::empty()
    } else {
        rules_map(e.subrange(1, e.len() as int)).insert(e[0].0@, e[0].1)
    }
}

impl Rules {
    pub closed spec fn view(&self) -> Map<Seq<char>, usize> {
        rules_map(self.entries@)
    }

    /// No rules.
    pub fn new() -> (r: Rules)
        ensures
            r@ == Map::<Seq<char>, usize>::empty(),
    {
        Rules { entries: Vec::new() }
    }

    /// Sets the rule for `key` to `value`, replacing any earlier one.
    pub fn insert(&mut self, key: &str, value: usize)
        ensures
            final(self)@ == old(self)@.insert(key@, value),
    {
        let k = String::from_str(key);
        let ghost old_e = self.entries@;
        self.entries.insert(0, (k, value));
        assert(self.entries@.subrange(1, self.entries@.len() as int) =~= old_e);
    }

    /// The rule for `key`, if there is one.
    pub fn get(&self, key: &str) -> (r: Option<usize>)
        ensures
            r == (if self@.contains_key(key@) {
                Some(self@[key@])
            } else {
                None::<usize>
            }),
    {
        let k = String::from_str(key);
        let mut i: usize = 0;
        assert(self.entries@.subrange(0, self.entries@.len() as int) =~= self.entries@);
        while i < self.entries.len()
            invariant
                i <= self.entries@.len(),
                k@ == key@,
                rules_map(self.entries@).contains_key(key@) == rules_map(
                    self.entries@.subrange(i as int, self.entries@.len() as int),
                ).contains_key(key@),
                rules_map(self.entries@).contains_key(key@) ==> rules_map(self.entries@)[key@]
                    == rules_map(
                    self.entries@.subrange(i as int, self.entries@.len() as int),
                )[key@],
            decreases self.entries.len() - i,
        {
            let e = &self.entries[i];
            let ghost rest = self.entries@.subrange(i as int, self.entries@.len() as int);
            assert(rest.subrange(1, rest.len() as int) =~= self.entries@.subrange(
                i + 1,
                self.entries@.len() as int,
            ));
            assert(rules_map(rest) == rules_map(rest.subrange(1, rest.len() as int)).insert(
                rest[0].0@,
                rest[0].1,
            ));
            if e.0 == k {
                return Some(e.1);
            }
            i = i + 1;
        }
        None
    }
}

} // verus!
