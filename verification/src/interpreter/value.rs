//! Runtime values.

use vstd::prelude::*;

verus! {

/// A value a program computes.
#[derive(Debug, PartialEq)]
pub enum Value {
    Int(i64),
    String(String),
    Unit,
}

/// Mathematical value of a [`Value`].
pub enum ValueView {
    Int(i64),
    Str(Seq<char>),
    Unit,
}

impl View for Value {
    type V = ValueView;

    open spec fn view(&self) -> ValueView {
        match self {
            Value::Int(n) => ValueView::Int(*n),
            Value::String(text) => ValueView::Str(text@),
            Value::Unit => ValueView::Unit,
        }
    }
}

/// The views of a run of values.
pub open spec fn value_views(values: Seq<Value>) -> Seq<ValueView> {
    values.map_values(|v: Value| v@)
}

impl Clone for Value {
    fn clone(&self) -> (copy: Value)
        ensures
            copy@ == self@,
    {
        match self {
            Value::Int(n) => Value::Int(*n),
            Value::String(text) => Value::String(text.clone()),
            Value::Unit => Value::Unit,
        }
    }
}

impl Value {
    /// The name of the value's type.
    pub fn type_label(&self) -> (name: &'static str)
        ensures
            name@ == match self@ {
                ValueView::Int(_) => "Int"@,
                ValueView::Str(_) => "String"@,
                ValueView::Unit => "Unit"@,
            },
    {
        match self {
            Value::Int(_) => "Int",
            Value::String(_) => "String",
            Value::Unit => "Unit",
        }
    }
}

} // verus!
