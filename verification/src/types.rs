//! The primitive types of JSON Schema and the supported drafts.
use vstd::prelude::*;
use crate::json::{Json, Number, Value};
use crate::text::str_eq;

verus! {

/// A primitive type, as the `type` keyword names it.
#[derive(Clone, Copy, Debug, PartialEq, Eq, Structural)]
pub enum JsonType {
    Array,
    Boolean,
    Integer,
    Null,
    Number,
    Object,
    String,
}

/// A revision of the JSON Schema specification.
#[derive(Clone, Copy, Debug, PartialEq, Eq, Structural)]
pub enum Draft {
    Draft4,
    Draft6,
    Draft7,
    Draft201909,
    Draft202012,
}

impl JsonType {
    /// The name of the type in a schema.
    pub open spec fn name(self) -> Seq<char> {
        match self {
            JsonType::Array => "array"@,
            JsonType::Boolean => "boolean"@,
            JsonType::Integer => "integer"@,
            JsonType::Null => "null"@,
            JsonType::Number => "number"@,
            JsonType::Object => "object"@,
            JsonType::String => "string"@,
        }
    }

    /// Whether `value` is of this type. `strict` is the reading of the oldest
    /// draft, in which a number written with a fraction is never an integer.
    pub open spec fn admits(self, strict: bool, value: Json) -> bool {
        match self {
            JsonType::Array => value is Array,
            JsonType::Boolean => value is Bool,
            JsonType::Integer => value is Number && if strict {
                Number::plain_integer(value->Number_0)
            } else {
                Number::integer(value->Number_0)
            },
            JsonType::Null => value is Null,
            JsonType::Number => value is Number,
            JsonType::Object => value is Object,
            JsonType::String => value is String,
        }
    }

    pub fn as_str(self) -> (r: &'static str)
        ensures
            r@ == self.name(),
    {
        match self {
            JsonType::Array => "array",
            JsonType::Boolean => "boolean",
            JsonType::Integer => "integer",
            JsonType::Null => "null",
            JsonType::Number => "number",
            JsonType::Object => "object",
            JsonType::String => "string",
        }
    }

    /// The type that `name` names, if any.
    pub open spec fn named(name: Seq<char>) -> Option<JsonType> {
        if name == "array"@ {
            Some(JsonType::Array)
        } else if name == "boolean"@ {
            Some(JsonType::Boolean)
        } else if name == "integer"@ {
            Some(JsonType::Integer)
        } else if name == "null"@ {
            Some(JsonType::Null)
        } else if name == "number"@ {
            Some(JsonType::Number)
        } else if name == "object"@ {
            Some(JsonType::Object)
        } else if name == "string"@ {
            Some(JsonType::String)
        } else {
            None
        }
    }

    /// Reads the name of a type.
    pub fn from_name(name: &str) -> (r: Option<JsonType>)
        ensures
            r == Self::named(name@),
    {
        if str_eq(name, "array") {
            Some(JsonType::Array)
        } else if str_eq(name, "boolean") {
            Some(JsonType::Boolean)
        } else if str_eq(name, "integer") {
            Some(JsonType::Integer)
        } else if str_eq(name, "null") {
            Some(JsonType::Null)
        } else if str_eq(name, "number") {
            Some(JsonType::Number)
        } else if str_eq(name, "object") {
            Some(JsonType::Object)
        } else if str_eq(name, "string") {
            Some(JsonType::String)
        } else {
            None
        }
    }

    /// Whether `value` is of this type.
    pub fn is_type_of(self, strict: bool, value: &Value) -> (r: bool)
        ensures
            r == self.admits(strict, value@),
    {
        match self {
            JsonType::Array => value.is_array(),
            JsonType::Boolean => value.is_boolean(),
            JsonType::Integer => match value {
                Value::Number(n) => if strict {
                    n.is_plain_integer()
                } else {
                    n.is_integer()
                },
                _ => false,
            },
            JsonType::Null => value.is_null(),
            JsonType::Number => value.is_number(),
            JsonType::Object => value.is_object(),
            JsonType::String => value.is_string(),
        }
    }
}

impl Draft {
    /// The draft that an option value names, if any.
    pub open spec fn named(name: Seq<char>) -> Option<Draft> {
        if name == "draft4"@ {
            Some(Draft::Draft4)
        } else if name == "draft6"@ {
            Some(Draft::Draft6)
        } else if name == "draft7"@ {
            Some(Draft::Draft7)
        } else if name == "draft201909"@ {
            Some(Draft::Draft201909)
        } else if name == "draft202012"@ {
            Some(Draft::Draft202012)
        } else {
            None
        }
    }

    /// Reads the name of a draft, as an option gives it.
    pub fn from_name(name: &str) -> (r: Option<Draft>)
        ensures
            r == Self::named(name@),
    {
        if str_eq(name, "draft4") {
            Some(Draft::Draft4)
        } else if str_eq(name, "draft6") {
            Some(Draft::Draft6)
        } else if str_eq(name, "draft7") {
            Some(Draft::Draft7)
        } else if str_eq(name, "draft201909") {
            Some(Draft::Draft201909)
        } else if str_eq(name, "draft202012") {
            Some(Draft::Draft202012)
        } else {
            None
        }
    }

    /// Whether the draft reads `integer` strictly: a number written with a
    /// fraction is then never an integer.
    pub open spec fn strict_integers(self) -> bool {
        self == Draft::Draft4
    }

    /// Whether a `$ref` stands alone in its schema and hides the keywords
    /// beside it.
    pub open spec fn ref_hides_siblings(self) -> bool {
        self == Draft::Draft4 || self == Draft::Draft6 || self == Draft::Draft7
    }

    pub fn has_strict_integers(self) -> (r: bool)
        ensures
            r == self.strict_integers(),
    {
        self == Draft::Draft4
    }

    pub fn has_ref_hiding_siblings(self) -> (r: bool)
        ensures
            r == self.ref_hides_siblings(),
    {
        self == Draft::Draft4 || self == Draft::Draft6 || self == Draft::Draft7
    }
}

} // verus!
