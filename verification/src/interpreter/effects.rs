//! Effects: named signals raised by `toss`.

use crate::interpreter::value::{Value, ValueView};
use vstd::prelude::*;

verus! {

/// A signal raised by evaluating a `toss`. It is not a value: it leaves the
/// expression that raised it on a channel of its own.
#[derive(Debug)]
pub struct Effect {
    pub name: String,
    pub payload: Option<Value>,
}

/// Mathematical value of an [`Effect`].
pub struct EffectView {
    pub name: Seq<char>,
    pub payload: Option<ValueView>,
}

impl View for Effect {
    type V = EffectView;

    open spec fn view(&self) -> EffectView {
        EffectView {
            name: self.name@,
            payload: match self.payload {
                Some(value) => Some(value@),
                None => None,
            },
        }
    }
}

} // verus!
