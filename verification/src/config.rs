//! Process configuration: a small key–value store holding, among other
//! things, the notes-root directory. The values come in from the
//! surroundings as plain pairs; nothing here reads the environment.

use vstd::prelude::*;

verus! {

/// The first value bound to `key` among the pairs, if any.
pub open spec fn lookup_pairs<T>(entries: Seq<(String, T)>, key: Seq<char>) -> Option<T>
    decreases entries.len(),
{
    if entries.len() == 0 {
        None
    } else if entries.first().0@ == key {
        Some(entries.first().1)
    } else {
        lookup_pairs(entries.drop_first(), key)
    }
}

/// The configuration: named string settings.
pub struct ScribeConfig {
    entries: Vec<(String, String)>,
}

impl ScribeConfig {
    /// The settings this configuration holds.
    pub closed spec fn pairs(&self) -> Seq<(String, String)> {
        self.entries@
    }

    /// Builds a configuration from explicit key–value pairs.
    pub fn from_pairs(entries: Vec<(String, String)>) -> (r: Self)
        ensures
            r.pairs() == entries@,
    {
        ScribeConfig { entries }
    }

    /// The value bound to `key`, if any.
    pub fn get(&self, key: &str) -> (r: Option<&String>)
        ensures
            match r {
                Some(v) => lookup_pairs(self.pairs(), key@) == Some(*v),
                None => lookup_pairs(self.pairs(), key@) is None,
            },
    {
        let k = String::from_str(key);
        let mut i: usize = 0;
        proof {
            assert(self.entries@.skip(0) =~= self.entries@);
        }
        while i < self.entries.len()
            invariant
                k@ == key@,
                0 <= i <= self.entries@.len(),
                lookup_pairs(self.pairs(), key@) == lookup_pairs(
                    self.entries@.skip(i as int),
                    key@,
                ),
            decreases self.entries@.len() - i,
        {
            let ghost rest = self.entries@.skip(i as int);
            if self.entries[i].0.eq(&k) {
                proof {
                    assert(rest.first() == self.entries@[i as int]);
                }
                return Some(&self.entries[i].1);
            }
            proof {
                assert(rest.first() == self.entries@[i as int]);
                assert(rest.drop_first() =~= self.entries@.skip(i + 1));
            }
            i += 1;
        }
        proof {
            assert(self.entries@.skip(i as int) =~= Seq::<(String, String)>::empty());
        }
        None
    }

    /// Whether a value is bound to `key`.
    pub fn contains_key(&self, key: &str) -> (r: bool)
        ensures
            r == (lookup_pairs(self.pairs(), key@) is Some),
    {
        self.get(key).is_some()
    }
}

} // verus!
