//! The conversion capability: how a native value describes itself as a
//! [`Value`].
//!
//! A type takes part in the exchange by saying which value stands for it: a
//! primitive, a sequence, a mapping or a tagged record. The conversion maps
//! shapes and cannot fail.

use vstd::prelude::*;
use crate::error::FressError;
use crate::exports::CustomError;
use crate::value::{list_view, Value, ValueModel};

verus! {

/// A type whose values can be written as a [`Value`].
pub trait ToValue {
    /// The value that stands for `self`.
    spec fn value_of(&self) -> ValueModel;

    /// Converts `self` to the value that stands for it.
    fn to_value(&self) -> (v: Value)
        ensures
            v@ == self.value_of(),
    ;
}

impl ToValue for bool {
    open spec fn value_of(&self) -> ValueModel {
        ValueModel::Bool(*self)
    }

    fn to_value(&self) -> (v: Value) {
        Value::Bool(*self)
    }
}

impl ToValue for i64 {
    open spec fn value_of(&self) -> ValueModel {
        ValueModel::Int(*self)
    }

    fn to_value(&self) -> (v: Value) {
        Value::Int(*self)
    }
}

impl ToValue for String {
    open spec fn value_of(&self) -> ValueModel {
        ValueModel::Str(self@)
    }

    fn to_value(&self) -> (v: Value) {
        Value::Str(self.clone())
    }
}

impl ToValue for FressError {
    open spec fn value_of(&self) -> ValueModel {
        self@.record()
    }

    fn to_value(&self) -> (v: Value) {
        FressError::to_value(self)
    }
}

impl ToValue for CustomError {
    open spec fn value_of(&self) -> ValueModel {
        self.record()
    }

    fn to_value(&self) -> (v: Value) {
        CustomError::to_value(self)
    }
}

/// The values that stand for the items of a sequence, in order.
pub open spec fn values_of<T: ToValue>(items: Seq<T>) -> Seq<ValueModel> {
    Seq::new(items.len(), |i: int| items[i].value_of())
}

impl<T: ToValue> ToValue for Vec<T> {
    open spec fn value_of(&self) -> ValueModel {
        ValueModel::List(values_of(self@))
    }

    fn to_value(&self) -> (v: Value) {
        let mut items: Vec<Value> = Vec::new();
        let mut i: usize = 0;
        while i < self.len()
            invariant
                i <= self.len(),
                items.len() == i,
                forall|k: int| 0 <= k < i ==> (#[trigger] items@[k])@ == self@[k].value_of(),
            decreases self.len() - i,
        {
            items.push(self[i].to_value());
            i += 1;
        }
        proof {
            assert(list_view(items@) =~= values_of(self@));
        }
        Value::List(items)
    }
}

} // verus!
