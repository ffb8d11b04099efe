//! The builder of an event's context: a list of keys with their values, in
//! which no key stands twice.

use crate::log_event::ContextModel;
use crate::populated_params::{first_with_key, lemma_first_with_key};
use crate::text::str_eq;
use vstd::prelude::*;

verus! {

/// No key stands twice among the pairs.
pub open spec fn distinct_keys(pairs: ContextModel) -> bool {
    forall|i: int, j: int|
        0 <= i < pairs.len() && 0 <= j < pairs.len() && i != j ==> (#[trigger] pairs[i]).0
            != (#[trigger] pairs[j]).0
}

/// The pairs after `key` has been given `value`: a key that is there keeps its
/// place and gets the new value, a new key goes to the end.
pub open spec fn with_entry(pairs: ContextModel, key: Seq<char>, value: Seq<char>) -> ContextModel {
    let at = first_with_key(pairs, key);
    if 0 <= at < pairs.len() {
        pairs.update(at, (key, value))
    } else {
        pairs.push((key, value))
    }
}

/// Giving a key a value leaves the keys distinct.
pub proof fn lemma_with_entry_keeps_keys_distinct(
    pairs: ContextModel,
    key: Seq<char>,
    value: Seq<char>,
)
    requires
        distinct_keys(pairs),
    ensures
        distinct_keys(with_entry(pairs, key, value)),
{
    lemma_first_with_key(pairs, key);
    let at = first_with_key(pairs, key);
    let after = with_entry(pairs, key, value);
    assert forall|i: int, j: int|
        0 <= i < after.len() && 0 <= j < after.len() && i != j implies (#[trigger] after[i]).0 != (
        #[trigger] after[j]).0 by {
        if at < pairs.len() {
            assert(after[i].0 == pairs[i].0);
            assert(after[j].0 == pairs[j].0);
        } else {
            if i < pairs.len() {
                assert(after[i] == pairs[i]);
            }
            if j < pairs.len() {
                assert(after[j] == pairs[j]);
            }
        }
    }
}

/// `format!("{:?}", value)` of the standard library: what `Debug` writes for
/// the value. Nothing is claimed of the text: it depends on how the type of
/// the value implements `Debug`.
#[verifier::external_body]
fn debug_format<T: std::fmt::Debug>(value: &T) -> (text: String) {
    format!("{:?}", value)
}

/// The context of an event while it is put together.
#[derive(Debug, Clone)]
pub struct LogEventCtx(Option<Vec<(String, String)>>);

impl View for LogEventCtx {
    type V = Option<ContextModel>;

    closed spec fn view(&self) -> Option<ContextModel> {
        self.0.deep_view()
    }
}

impl LogEventCtx {
    /// No key stands twice.
    pub open spec fn wf(&self) -> bool {
        self@ matches Some(pairs) ==> distinct_keys(pairs)
    }

    /// The pairs of the context; none where nothing was added yet.
    pub open spec fn pairs(&self) -> ContextModel {
        match self@ {
            Some(pairs) => pairs,
            None => Seq::empty(),
        }
    }

    pub fn new() -> (ctx: Self)
        ensures
            ctx@ is None,
            ctx.wf(),
    {
        Self(None)
    }

    /// The context with `key` set to `value`.
    pub fn add(self, key: &str, value: &str) -> (ctx: Self)
        requires
            self.wf(),
        ensures
            ctx@ == Some(with_entry(self.pairs(), key@, value@)),
            ctx.wf(),
    {
        let mut pairs: Vec<(String, String)> = match self.0 {
            Some(pairs) => pairs,
            None => Vec::new(),
        };
        let ghost before = pairs.deep_view();
        assert(before == self.pairs());
        let mut i: usize = 0;
        while i < pairs.len()
            invariant
                i <= pairs.len(),
                pairs.deep_view() == before,
                before == self.pairs(),
                distinct_keys(before),
                forall|j: int| 0 <= j < i ==> (#[trigger] before[j]).0 != key@,
            decreases pairs.len() - i,
        {
            if str_eq(pairs[i].0.as_str(), key) {
                proof {
                    lemma_first_with_key(before, key@);
                    lemma_with_entry_keeps_keys_distinct(before, key@, value@);
                    let at = first_with_key(before, key@);
                    assert(before[i as int].0 == key@);
                    if at < i {
                        assert(before[at].0 == key@);
                    }
                    assert(at == i);
                }
                pairs.set(i, (key.to_owned(), value.to_owned()));
                assert(pairs.deep_view() == before.update(i as int, (key@, value@)));
                return Self(Some(pairs));
            }
            assert(before[i as int].0 != key@);
            i += 1;
        }
        proof {
            lemma_first_with_key(before, key@);
            lemma_with_entry_keeps_keys_distinct(before, key@, value@);
            let at = first_with_key(before, key@);
            if at < before.len() {
                assert(before[at].0 == key@);
            }
        }
        pairs.push((key.to_owned(), value.to_owned()));
        assert(pairs.deep_view() == before.push((key@, value@)));
        Self(Some(pairs))
    }

    /// The context with `key` set to what `{:?}` writes for `value`.
    pub fn add_object<T: std::fmt::Debug>(self, key: &str, value: &T) -> (ctx: Self)
        requires
            self.wf(),
        ensures
            exists|text: Seq<char>| ctx@ == Some(with_entry(self.pairs(), key@, text)),
            ctx.wf(),
    {
        let text = debug_format(value);
        self.add(key, text.as_str())
    }

    /// A context with the one key `key`, set to what `{:?}` writes for
    /// `value`.
    pub fn from_object<T: std::fmt::Debug>(key: &str, value: &T) -> (ctx: Self)
        ensures
            exists|text: Seq<char>| ctx@ == Some(seq![(key@, text)]),
            ctx.wf(),
    {
        let text = debug_format(value);
        let ctx = Self::new().add(key, text.as_str());
        assert(with_entry(Seq::empty(), key@, text@) == seq![(key@, text@)]);
        ctx
    }

    /// The pairs that were added, or `None` if none was.
    pub fn get_result(self) -> (result: Option<Vec<(String, String)>>)
        ensures
            result.deep_view() == self@,
    {
        self.0
    }
}

} // verus!
