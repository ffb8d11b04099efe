//! Parameters of the process that go into every shipped record.

use crate::log_event::ContextModel;
use crate::text::str_eq;
use vstd::prelude::*;
use vstd::std_specs::iter::IteratorSpec;

verus! {

/// The key of the parameter that says where the process runs from. In a
/// record it is written as the exception field.
pub const LOCATION_KEY: &'static str = "Location";

/// The index of the first pair with the key `key`, or the length of `pairs`
/// if there is none.
pub open spec fn first_with_key(pairs: ContextModel, key: Seq<char>) -> int
    decreases pairs.len(),
{
    if pairs.len() == 0 {
        0
    } else if pairs[0].0 == key {
        0
    } else {
        1 + first_with_key(pairs.drop_first(), key)
    }
}

/// Where `first_with_key` points: at the first pair with that key, if any.
pub proof fn lemma_first_with_key(pairs: ContextModel, key: Seq<char>)
    ensures
        0 <= first_with_key(pairs, key) <= pairs.len(),
        first_with_key(pairs, key) < pairs.len() ==> pairs[first_with_key(pairs, key)].0 == key,
        forall|j: int| 0 <= j < first_with_key(pairs, key) ==> (#[trigger] pairs[j]).0 != key,
    decreases pairs.len(),
{
    if pairs.len() > 0 && pairs[0].0 != key {
        let rest = pairs.drop_first();
        lemma_first_with_key(rest, key);
        assert forall|j: int| 0 <= j < first_with_key(pairs, key) implies (#[trigger] pairs[j]).0
            != key by {
            if j > 0 {
                assert(rest[j - 1] == pairs[j]);
            }
        }
    }
}

/// An ordered list of `(key, value)` pairs.
#[derive(Debug, Clone)]
pub struct PopulatedParams {
    data: Vec<(String, String)>,
}

impl View for PopulatedParams {
    type V = ContextModel;

    closed spec fn view(&self) -> ContextModel {
        self.data.deep_view()
    }
}

impl PopulatedParams {
    /// The pairs as they are stored.
    pub closed spec fn entries(&self) -> Seq<(String, String)> {
        self.data@
    }

    /// The view is the stored pairs, each key and value taken as its text.
    pub proof fn lemma_view(&self)
        ensures
            self@.len() == self.entries().len(),
            forall|i: int|
                0 <= i < self.entries().len() ==> #[trigger] self@[i] == (
                    self.entries()[i].0@,
                    self.entries()[i].1@,
                ),
    {
    }

    pub fn new_empty() -> (params: Self)
        ensures
            params@ == ContextModel::empty(),
    {
        let params = Self { data: Vec::new() };
        assert(params.data.deep_view() == ContextModel::empty());
        params
    }

    pub fn new(data: Vec<(String, String)>) -> (params: Self)
        ensures
            params.entries() == data@,
            params@ == data.deep_view(),
    {
        Self { data }
    }

    pub fn get_data(&self) -> (data: &[(String, String)])
        ensures
            data@ == self.entries(),
    {
        self.data.as_slice()
    }

    pub fn push(&mut self, key: String, value: String)
        ensures
            final(self)@ == old(self)@.push((key@, value@)),
            final(self).entries() == old(self).entries().push((key, value)),
    {
        self.data.push((key, value));
        assert(self.data.deep_view() == old(self).data.deep_view().push((key@, value@)));
    }

    /// The value of the first pair with the key `key`.
    pub fn get(&self, key: &str) -> (value: Option<&String>)
        ensures
            match value {
                Some(found) => first_with_key(self@, key@) < self@.len() && found@
                    == self@[first_with_key(self@, key@)].1,
                None => first_with_key(self@, key@) == self@.len(),
            },
    {
        let mut i: usize = 0;
        while i < self.data.len()
            invariant
                i <= self.data.len(),
                forall|j: int| 0 <= j < i ==> (#[trigger] self@[j]).0 != key@,
            decreases self.data.len() - i,
        {
            if str_eq(self.data[i].0.as_str(), key) {
                proof {
                    lemma_first_with_key(self@, key@);
                    assert(self@[i as int].0 == key@);
                }
                return Some(&self.data[i].1);
            }
            assert(self@[i as int].0 != key@);
            i += 1;
        }
        proof {
            lemma_first_with_key(self@, key@);
        }
        None
    }

    pub fn len(&self) -> (count: usize)
        ensures
            count == self@.len(),
    {
        self.data.len()
    }

    pub fn is_empty(&self) -> (empty: bool)
        ensures
            empty == (self@.len() == 0),
    {
        self.data.len() == 0
    }

    /// An iterator over the pairs, in their order.
    pub fn iter(&self) -> (iter: std::slice::Iter<'_, (String, String)>)
        ensures
            IteratorSpec::remaining(&iter).unref() == self.entries(),
            IteratorSpec::decrease(&iter) is Some,
            IteratorSpec::initial_value_relation(&iter, &iter),
    {
        let slice = self.data.as_slice();
        proof {
            vstd::std_specs::slice::axiom_spec_slice_iter(slice);
            assert(slice@.as_ref().unref() == slice@);
        }
        slice.iter()
    }
}

} // verus!
