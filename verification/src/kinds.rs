//! The closed taxonomy of validation failure kinds.
//!
//! Every kind carries a stable machine-readable identifier and exactly one
//! default human-readable message template; both lookups are total.

use vstd::prelude::*;
use vstd::string::StringExecFns;

verus! {

/// One category of validation failure.
#[derive(Debug, Clone, Copy, PartialEq, Eq, Structural)]
pub enum ErrorKind {
    /// The value is not a string.
    StrType,
    /// The value is raw bytes that do not decode as UTF-8.
    StrUnicode,
    /// The value is not a boolean.
    BoolType,
    /// The value looked boolean-convertible but could not be interpreted.
    BoolParsing,
    /// The value is not an integer.
    IntType,
    /// The value is a string or float that does not denote an integer.
    IntParsing,
    /// The value is not a number.
    FloatType,
    /// The value is a string that does not denote a number.
    FloatParsing,
    /// The value is not a dictionary.
    DictType,
    /// The value offered a mapping view, but reading it failed.
    DictFromMapping,
    /// The value offered attribute reflection, but reading it failed.
    DictFromObject,
    /// The value is not list-like.
    ListType,
    /// The value is not set-like.
    SetType,
}

/// The stable identifier of each kind, used for programmatic matching.
pub open spec fn kind_name_spec(kind: ErrorKind) -> Seq<char> {
    match kind {
        ErrorKind::StrType => "str_type"@,
        ErrorKind::StrUnicode => "str_unicode"@,
        ErrorKind::BoolType => "bool_type"@,
        ErrorKind::BoolParsing => "bool_parsing"@,
        ErrorKind::IntType => "int_type"@,
        ErrorKind::IntParsing => "int_parsing"@,
        ErrorKind::FloatType => "float_type"@,
        ErrorKind::FloatParsing => "float_parsing"@,
        ErrorKind::DictType => "dict_type"@,
        ErrorKind::DictFromMapping => "dict_from_mapping"@,
        ErrorKind::DictFromObject => "dict_from_object"@,
        ErrorKind::ListType => "list_type"@,
        ErrorKind::SetType => "set_type"@,
    }
}

/// The default message template of each kind. A `{name}` group in a template
/// is a placeholder filled from a line error's context at rendering time.
pub open spec fn default_message_spec(kind: ErrorKind) -> Seq<char> {
    match kind {
        ErrorKind::StrType => "Value must be a valid string"@,
        ErrorKind::StrUnicode => "Value must be a valid string, unable to parse raw data as a unicode string"@,
        ErrorKind::BoolType => "Value must be a valid boolean"@,
        ErrorKind::BoolParsing => "Value must be a valid boolean, unable to interpret input"@,
        ErrorKind::IntType => "Value must be a valid integer"@,
        ErrorKind::IntParsing => "Value must be a valid integer, unable to parse string as an integer"@,
        ErrorKind::FloatType => "Value must be a valid number"@,
        ErrorKind::FloatParsing => "Value must be a valid number, unable to parse string as a number"@,
        ErrorKind::DictType => "Value must be a valid dictionary"@,
        ErrorKind::DictFromMapping => "Unable to convert mapping to a dictionary, error: {error}"@,
        ErrorKind::DictFromObject => "Unable to convert object to a dictionary, error: {error}"@,
        ErrorKind::ListType => "Value must be a valid list/array"@,
        ErrorKind::SetType => "Value must be a valid set"@,
    }
}

impl ErrorKind {
    /// The stable machine-readable identifier of this kind.
    pub fn kind_name(&self) -> (r: String)
        ensures
            r@ == kind_name_spec(*self),
    {
        match self {
            ErrorKind::StrType => String::from_str("str_type"),
            ErrorKind::StrUnicode => String::from_str("str_unicode"),
            ErrorKind::BoolType => String::from_str("bool_type"),
            ErrorKind::BoolParsing => String::from_str("bool_parsing"),
            ErrorKind::IntType => String::from_str("int_type"),
            ErrorKind::IntParsing => String::from_str("int_parsing"),
            ErrorKind::FloatType => String::from_str("float_type"),
            ErrorKind::FloatParsing => String::from_str("float_parsing"),
            ErrorKind::DictType => String::from_str("dict_type"),
            ErrorKind::DictFromMapping => String::from_str("dict_from_mapping"),
            ErrorKind::DictFromObject => String::from_str("dict_from_object"),
            ErrorKind::ListType => String::from_str("list_type"),
            ErrorKind::SetType => String::from_str("set_type"),
        }
    }

    /// The default message template of this kind.
    pub fn default_message(&self) -> (r: String)
        ensures
            r@ == default_message_spec(*self),
    {
        match self {
            ErrorKind::StrType => String::from_str("Value must be a valid string"),
            ErrorKind::StrUnicode => String::from_str(
                "Value must be a valid string, unable to parse raw data as a unicode string",
            ),
            ErrorKind::BoolType => String::from_str("Value must be a valid boolean"),
            ErrorKind::BoolParsing => String::from_str(
                "Value must be a valid boolean, unable to interpret input",
            ),
            ErrorKind::IntType => String::from_str("Value must be a valid integer"),
            ErrorKind::IntParsing => String::from_str(
                "Value must be a valid integer, unable to parse string as an integer",
            ),
            ErrorKind::FloatType => String::from_str("Value must be a valid number"),
            ErrorKind::FloatParsing => String::from_str(
                "Value must be a valid number, unable to parse string as a number",
            ),
            ErrorKind::DictType => String::from_str("Value must be a valid dictionary"),
            ErrorKind::DictFromMapping => String::from_str(
                "Unable to convert mapping to a dictionary, error: {error}",
            ),
            ErrorKind::DictFromObject => String::from_str(
                "Unable to convert object to a dictionary, error: {error}",
            ),
            ErrorKind::ListType => String::from_str("Value must be a valid list/array"),
            ErrorKind::SetType => String::from_str("Value must be a valid set"),
        }
    }
}

/// No two kinds share an identifier: `kind_name` is injective over the
/// closed taxonomy.
pub proof fn lemma_kind_names_distinct(a: ErrorKind, b: ErrorKind)
    ensures
        a != b ==> kind_name_spec(a) != kind_name_spec(b),
{
    reveal_strlit("str_type");
    reveal_strlit("str_unicode");
    reveal_strlit("bool_type");
    reveal_strlit("bool_parsing");
    reveal_strlit("int_type");
    reveal_strlit("int_parsing");
    reveal_strlit("float_type");
    reveal_strlit("float_parsing");
    reveal_strlit("dict_type");
    reveal_strlit("dict_from_mapping");
    reveal_strlit("dict_from_object");
    reveal_strlit("list_type");
    reveal_strlit("set_type");
    let sa = kind_name_spec(a);
    let sb = kind_name_spec(b);
    if a != b && sa == sb {
        assert(sa.len() == sb.len());
        assert(sa[0] == sb[0]);
        assert(sa[1] == sb[1]);
        assert(false);
    }
}

} // verus!
