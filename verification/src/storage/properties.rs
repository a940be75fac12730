//! The properties of a vertex or an edge.

use std::sync::Arc;

use vstd::prelude::*;

use crate::common::share::share;
use crate::common::value::ScalarValue;

verus! {

/// The values of the properties, by position. Copies share their values.
#[derive(Debug)]
pub struct PropertyRecord {
    values: Arc<Vec<ScalarValue>>,
}

impl View for PropertyRecord {
    type V = Seq<ScalarValue>;

    closed spec fn view(&self) -> Seq<ScalarValue> {
        self.values@
    }
}

/// A copy of values.
pub fn duplicate_values(values: &Vec<ScalarValue>) -> (copy: Vec<ScalarValue>)
    ensures
        copy@ == values@,
{
    let mut copy: Vec<ScalarValue> = Vec::new();
    for i in 0..values.len()
        invariant
            copy@ == values@.take(i as int),
    {
        copy.push(values[i].duplicate());
        assert(values@.take(i + 1) =~= values@.take(i as int).push(values@[i as int]));
    }
    assert(values@.take(values@.len() as int) =~= values@);
    copy
}

impl PropertyRecord {
    /// A record of the given values.
    pub fn new(values: Vec<ScalarValue>) -> (record: Self)
        ensures
            record@ == values@,
    {
        PropertyRecord { values: Arc::new(values) }
    }

    /// The number of properties.
    pub fn len(&self) -> (len: usize)
        ensures
            len == self@.len(),
    {
        self.values.len()
    }

    /// The value of a property.
    pub fn get(&self, index: usize) -> (value: Option<&ScalarValue>)
        ensures
            index < self@.len() ==> value == Some(&self@[index as int]),
            index >= self@.len() ==> value is None,
    {
        if index < self.values.len() {
            Some(&self.values[index])
        } else {
            None
        }
    }

    /// Replaces the value of a property.
    pub fn set_prop(&mut self, index: usize, prop: ScalarValue)
        requires
            index < old(self)@.len(),
        ensures
            final(self)@ == old(self)@.update(index as int, prop),
    {
        let mut values = duplicate_values(&self.values);
        values.set(index, prop);
        self.values = Arc::new(values);
    }

    /// A copy.
    pub fn duplicate(&self) -> (copy: Self)
        ensures
            copy == *self,
    {
        PropertyRecord { values: share(&self.values) }
    }
}

} // verus!
