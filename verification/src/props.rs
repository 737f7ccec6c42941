//! Property bags attached to graph nodes.
//!
//! A node carries a flat map from string keys to string or integer values
//! (`name`, `path`, `start_line`, ...). The map is an association list with
//! unique keys; `insert` replaces any earlier binding of the key.

use vstd::prelude::*;

use crate::assoc::assoc_lookup;
use crate::assoc::assoc_unique;
use crate::assoc::assoc_find;
use crate::assoc::lemma_assoc_lookup_at;
use crate::assoc::lemma_assoc_lookup_none;
use crate::assoc::lemma_assoc_lookup_push_other;
use crate::assoc::lemma_assoc_lookup_remove_other;
use crate::assoc::lemma_assoc_unique_push;
use crate::assoc::lemma_assoc_unique_remove;

verus! {

/// A property value: either a string or a signed integer.
#[derive(Clone, Debug)]
pub enum PropertyValue {
    Str(String),
    Int(i64),
}

impl PropertyValue {
    /// Value equality up to string views.
    pub open spec fn same_value(self, other: PropertyValue) -> bool {
        match (self, other) {
            (PropertyValue::Str(a), PropertyValue::Str(b)) => a@ == b@,
            (PropertyValue::Int(a), PropertyValue::Int(b)) => a == b,
            _ => false,
        }
    }

    /// Compare two property values.
    pub fn value_eq(&self, other: &PropertyValue) -> (r: bool)
        ensures
            r == self.same_value(*other),
    {
        match (self, other) {
            (PropertyValue::Str(a), PropertyValue::Str(b)) => *a == *b,
            (PropertyValue::Int(a), PropertyValue::Int(b)) => *a == *b,
            _ => false,
        }
    }
}

/// A flat string-keyed property map with unique keys.
#[derive(Clone, Debug)]
pub struct PropertyMap {
    entries: Vec<(String, PropertyValue)>,
}

impl PropertyMap {
    /// Keys are unique.
    pub closed spec fn well_formed(self) -> bool {
        assoc_unique(self.entries@)
    }

    /// The value bound to `key`, if any.
    pub closed spec fn spec_get(self, key: Seq<char>) -> Option<PropertyValue> {
        assoc_lookup(self.entries@, key)
    }

    /// The string bound to `key`, if the binding exists and is a string.
    pub open spec fn spec_get_str(self, key: Seq<char>) -> Option<Seq<char>> {
        match self.spec_get(key) {
            Some(PropertyValue::Str(s)) => Some(s@),
            _ => None,
        }
    }

    /// The integer bound to `key`, if the binding exists and is an integer.
    pub open spec fn spec_get_int(self, key: Seq<char>) -> Option<i64> {
        match self.spec_get(key) {
            Some(PropertyValue::Int(v)) => Some(v),
            _ => None,
        }
    }

    /// An empty property map.
    pub fn new() -> (r: PropertyMap)
        ensures
            r.well_formed(),
            forall|k: Seq<char>| #[trigger] r.spec_get(k) == Option::<PropertyValue>::None,
    {
        PropertyMap { entries: Vec::new() }
    }

    /// Bind `key` to `value`, replacing any earlier binding.
    pub fn insert(&mut self, key: String, value: PropertyValue)
        requires
            old(self).well_formed(),
        ensures
            final(self).well_formed(),
            final(self).spec_get(key@) == Some(value),
            forall|k: Seq<char>|
                k != key@ ==> #[trigger] final(self).spec_get(k) == old(self).spec_get(k),
    {
        let ghost orig = self.entries@;
        let found = assoc_find(&self.entries, key.as_str());
        match found {
            Some(fi) => {
                self.entries.remove(fi);
                proof {
                    lemma_assoc_unique_remove(orig, fi as int);
                    assert(forall|j: int|
                        0 <= j < self.entries@.len() ==> (#[trigger] self.entries@[j]).0@ != key@);
                }
            },
            None => {},
        }
        let ghost mid = self.entries@;
        proof {
            assert(forall|j: int| 0 <= j < mid.len() ==> (#[trigger] mid[j]).0@ != key@) by {
                if found is None {
                    assert(mid == orig);
                }
            }
        }
        self.entries.push((key, value));
        proof {
            let fin = self.entries@;
            lemma_assoc_unique_push(mid, (key, value));
            lemma_assoc_lookup_at(fin, key@, mid.len() as int);
            assert forall|k: Seq<char>| k != key@ implies #[trigger] final(self).spec_get(k) == old(
                self,
            ).spec_get(k) by {
                lemma_assoc_lookup_push_other(mid, (key, value), k);
                match found {
                    Some(fi) => {
                        lemma_assoc_lookup_remove_other(orig, fi as int, k);
                    },
                    None => {},
                }
            }
        }
    }

    /// The value bound to `key`, if any.
    pub fn get(&self, key: &str) -> (r: Option<&PropertyValue>)
        ensures
            match r {
                Some(v) => self.spec_get(key@) == Some(*v),
                None => self.spec_get(key@) is None,
            },
    {
        match assoc_find(&self.entries, key) {
            Some(i) => {
                proof {
                    lemma_assoc_lookup_at(self.entries@, key@, i as int);
                }
                Some(&self.entries[i].1)
            },
            None => {
                proof {
                    lemma_assoc_lookup_none(self.entries@, key@);
                }
                None
            },
        }
    }

    /// The string bound to `key`, if the binding exists and is a string.
    pub fn get_string(&self, key: &str) -> (r: Option<&String>)
        ensures
            match r {
                Some(s) => self.spec_get_str(key@) == Some(s@),
                None => self.spec_get_str(key@) is None,
            },
    {
        match self.get(key) {
            Some(PropertyValue::Str(s)) => Some(s),
            _ => None,
        }
    }

    /// The integer bound to `key`, if the binding exists and is an integer.
    pub fn get_int(&self, key: &str) -> (r: Option<i64>)
        ensures
            r == self.spec_get_int(key@),
    {
        match self.get(key) {
            Some(PropertyValue::Int(v)) => Some(*v),
            _ => None,
        }
    }
}

/// Compare two string slices.
pub fn str_eq(a: &str, b: &str) -> (r: bool)
    ensures
        r == (a@ == b@),
{
    let sa: String = a.to_owned();
    let sb: String = b.to_owned();
    sa == sb
}

} // verus!
