//! The values that evaluation produces.

use vstd::prelude::*;
use crate::decimal::{decimal_text, format_decimal};

verus! {

/// A value: an integer, a text, a truth value, or nothing.
#[derive(Debug, PartialEq)]
pub enum ObjectType {
    Number(i64),
    String(String),
    Boolean(bool),
    Null,
}

/// The mathematical value of an `ObjectType`.
pub enum ObjectView {
    Number(i64),
    Text(Seq<char>),
    Boolean(bool),
    Null,
}

impl View for ObjectType {
    type V = ObjectView;

    open spec fn view(&self) -> ObjectView {
        match self {
            ObjectType::Number(n) => ObjectView::Number(*n),
            ObjectType::String(s) => ObjectView::Text(s@),
            ObjectType::Boolean(b) => ObjectView::Boolean(*b),
            ObjectType::Null => ObjectView::Null,
        }
    }
}

impl Clone for ObjectType {
    fn clone(&self) -> (copy: ObjectType)
        ensures
            copy@ == self@,
    {
        match self {
            ObjectType::Number(n) => ObjectType::Number(*n),
            ObjectType::String(s) => ObjectType::String(s.clone()),
            ObjectType::Boolean(b) => ObjectType::Boolean(*b),
            ObjectType::Null => ObjectType::Null,
        }
    }
}

/// How a value is shown: an integer in decimal notation, a text as it is, a
/// truth value as `true` or `false`, and nothing as `Null`.
pub open spec fn inspect_text(value: ObjectView) -> Seq<char> {
    match value {
        ObjectView::Number(n) => decimal_text(n as int),
        ObjectView::Text(s) => s,
        ObjectView::Boolean(b) => if b {
            "true"@
        } else {
            "false"@
        },
        ObjectView::Null => "Null"@,
    }
}

/// What every value offers: the value itself and the text that shows it.
pub trait Object {
    /// The value that this object stands for.
    spec fn value(&self) -> ObjectView;

    /// The text that shows the value.
    fn inspect(&self) -> (text: String)
        ensures
            text@ == inspect_text(self.value()),
    ;

    /// The value, as an `ObjectType`.
    fn get_type(&self) -> (object: ObjectType)
        ensures
            object@ == self.value(),
    ;

    /// The text that shows the value: the same as `inspect`.
    fn to_string(&self) -> (text: String)
        ensures
            text@ == inspect_text(self.value()),
    {
        self.inspect()
    }
}

impl Object for ObjectType {
    open spec fn value(&self) -> ObjectView {
        self@
    }

    fn inspect(&self) -> (text: String) {
        match self {
            ObjectType::Number(number) => format_decimal(*number),
            ObjectType::String(text) => text.clone(),
            ObjectType::Boolean(truth) => if *truth {
                String::from_str("true")
            } else {
                String::from_str("false")
            },
            ObjectType::Null => String::from_str("Null"),
        }
    }

    fn get_type(&self) -> (object: ObjectType) {
        self.clone()
    }
}

} // verus!
