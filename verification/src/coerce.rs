//! The coercion engine: strict and lax conversion of a host value to each
//! target type.
//!
//! Strict conversion accepts only an exact type match and fails with the
//! target's type kind otherwise. Lax conversion applies a fixed fallback
//! chain per target. A boolean is rejected before any numeric or string
//! reading of it: a host boolean must never silently become a number or
//! text. Every failure echoes the offending value itself.

use vstd::prelude::*;
use vstd::utf8::valid_utf8;
use vstd::utf8::decode_utf8;
use crate::kinds::ErrorKind;
use crate::line_error::ValError;
use crate::line_error::ValResult;
use crate::line_error::is_single_error;
use crate::line_error::new_error;
use crate::line_error::new_error_msg;
use crate::text::bool_word_spec;
use crate::text::int_text;
use crate::text::parse_bool_word;
use crate::text::parse_i64;
use crate::text::parse_int_spec;
use crate::value::Dec;
use crate::value::DecV;
use crate::value::Value;
use crate::value::ValueV;
use crate::value::dec_text;
use crate::value::dec_to_string;
use crate::value::dec_wf;
use crate::value::parse_dec;
use crate::value::parse_dec_spec;
use crate::value::clone_value;
use crate::value::clone_pairs;
use crate::value::pairs_view;
use crate::value::values_view;
use crate::value::map_entries_view;
use crate::value::attr_entries_view;
use crate::value::first_map_fault;
use crate::value::lemma_first_map_fault;
use crate::value::first_attr_fault;
use crate::value::lemma_first_attr_fault;
use crate::value::public_attrs;
use crate::value::MapEntry;
use crate::value::AttrEntry;
use crate::value::MapEntryV;
use crate::value::pair_view;
use vstd::string::StrSliceExecFns;

verus! {

/// Relies on `String::from_utf8`: it succeeds exactly on valid UTF-8 input
/// and decodes it, as `vstd`'s UTF-8 specification states.
#[verifier::external_body]
fn utf8_to_string(b: &Vec<u8>) -> (r: Option<String>)
    ensures
        match r {
            Some(s) => valid_utf8(b@) && s@ == decode_utf8(b@),
            None => !valid_utf8(b@),
        },
{
    match String::from_utf8(b.clone()) {
        Ok(s) => Some(s),
        Err(_) => None,
    }
}

/// The integer a decimal denotes when its fractional part is empty.
pub open spec fn dec_as_int(d: DecV) -> int {
    if d.neg {
        -d.int_part
    } else {
        d.int_part
    }
}

/// The outcome lax int coercion owes for numeric text: the denoted integer
/// when it fits an `i64`.
pub open spec fn int_from_text(s: Seq<char>) -> Option<int> {
    match parse_int_spec(s) {
        Some(v) => if i64::MIN <= v <= i64::MAX {
            Some(v)
        } else {
            None
        },
        None => None,
    }
}

fn dec_from_i64(i: i64) -> (r: Dec)
    ensures
        r@ == (DecV { neg: i < 0, int_part: if i < 0 { -(i as int) } else { i as int }, frac: Seq::<u8>::empty() }),
        dec_wf(r@),
{
    let mag: u64 = if i < 0 {
        (-(i as i128)) as u64
    } else {
        i as u64
    };
    let r = Dec { neg: i < 0, int_part: mag, frac: Vec::new() };
    proof {
        assert(r@ =~= (DecV {
            neg: i < 0,
            int_part: if i < 0 { -(i as int) } else { i as int },
            frac: Seq::<u8>::empty(),
        }));
    }
    r
}

impl Value {
    /// Whether this value is the host's null.
    pub fn is_none(&self) -> (r: bool)
        ensures
            r == (self@ is Null),
    {
        match self {
            Value::Null => true,
            _ => false,
        }
    }

    /// Strict string coercion: only a string is accepted.
    pub fn strict_str(&self) -> (r: ValResult<String>)
        ensures
            match self@ {
                ValueV::Str(s) => r matches Ok(o) && o@ == s,
                _ => r matches Err(e) && is_single_error(e, ErrorKind::StrType, None, self@),
            },
    {
        match self {
            Value::Str(s) => Ok(s.clone()),
            _ => Err(new_error(ErrorKind::StrType, clone_value(self))),
        }
    }

    /// Lax string coercion: a string, UTF-8 bytes, an integer or a decimal
    /// become text; a boolean is rejected before the numeric readings.
    pub fn lax_str(&self) -> (r: ValResult<String>)
        ensures
            match self@ {
                ValueV::Str(s) => r matches Ok(o) && o@ == s,
                ValueV::Bytes(b) => if valid_utf8(b) {
                    r matches Ok(o) && o@ == decode_utf8(b)
                } else {
                    r matches Err(e) && is_single_error(e, ErrorKind::StrUnicode, None, self@)
                },
                ValueV::Int(i) => r matches Ok(o) && o@ == int_text(i),
                ValueV::Float(d) => r matches Ok(o) && o@ == dec_text(d),
                _ => r matches Err(e) && is_single_error(e, ErrorKind::StrType, None, self@),
            },
    {
        match self {
            Value::Str(s) => Ok(s.clone()),
            Value::Bytes(b) => match utf8_to_string(b) {
                Some(s) => Ok(s),
                None => Err(new_error(ErrorKind::StrUnicode, clone_value(self))),
            },
            Value::Bool(_) => Err(new_error(ErrorKind::StrType, clone_value(self))),
            Value::Int(i) => Ok(crate::text::i64_to_string(*i)),
            Value::Float(d) => Ok(dec_to_string(d)),
            _ => Err(new_error(ErrorKind::StrType, clone_value(self))),
        }
    }

    /// Strict boolean coercion: only a boolean is accepted.
    pub fn strict_bool(&self) -> (r: ValResult<bool>)
        ensures
            match self@ {
                ValueV::Bool(b) => r == Ok::<bool, ValError>(b),
                _ => r matches Err(e) && is_single_error(e, ErrorKind::BoolType, None, self@),
            },
    {
        match self {
            Value::Bool(b) => Ok(*b),
            _ => Err(new_error(ErrorKind::BoolType, clone_value(self))),
        }
    }

    /// Utility shared by the lax numeric coercions: the value as text, when
    /// it is a string or UTF-8 bytes; bytes that do not decode fail with
    /// the caller's parsing kind.
    fn maybe_as_string(&self, unicode_kind: ErrorKind) -> (r: Result<Option<String>, ValError>)
        ensures
            match self@ {
                ValueV::Str(s) => r matches Ok(o) && o matches Some(t) && t@ == s,
                ValueV::Bytes(b) => if valid_utf8(b) {
                    r matches Ok(o) && o matches Some(t) && t@ == decode_utf8(b)
                } else {
                    r matches Err(e) && is_single_error(e, unicode_kind, None, self@)
                },
                _ => r matches Ok(o) && o is None,
            },
    {
        match self {
            Value::Str(s) => Ok(Some(s.clone())),
            Value::Bytes(b) => match utf8_to_string(b) {
                Some(s) => Ok(Some(s)),
                None => Err(new_error(unicode_kind, clone_value(self))),
            },
            _ => Ok(None),
        }
    }

    /// Lax boolean coercion: a boolean, a boolean word, or the integers 0
    /// and 1.
    pub fn lax_bool(&self) -> (r: ValResult<bool>)
        ensures
            match self@ {
                ValueV::Bool(b) => r == Ok::<bool, ValError>(b),
                ValueV::Str(s) => match bool_word_spec(s) {
                    Some(b) => r == Ok::<bool, ValError>(b),
                    None => r matches Err(e) && is_single_error(
                        e,
                        ErrorKind::BoolParsing,
                        None,
                        self@,
                    ),
                },
                ValueV::Bytes(b) => if valid_utf8(b) {
                    match bool_word_spec(decode_utf8(b)) {
                        Some(x) => r == Ok::<bool, ValError>(x),
                        None => r matches Err(e) && is_single_error(
                            e,
                            ErrorKind::BoolParsing,
                            None,
                            self@,
                        ),
                    }
                } else {
                    r matches Err(e) && is_single_error(e, ErrorKind::BoolParsing, None, self@)
                },
                ValueV::Int(i) => if i == 0 || i == 1 {
                    r == Ok::<bool, ValError>(i == 1)
                } else {
                    r matches Err(e) && is_single_error(e, ErrorKind::BoolParsing, None, self@)
                },
                _ => r matches Err(e) && is_single_error(e, ErrorKind::BoolType, None, self@),
            },
    {
        match self {
            Value::Bool(b) => Ok(*b),
            Value::Str(_) | Value::Bytes(_) => match self.maybe_as_string(
                ErrorKind::BoolParsing,
            ) {
                Err(e) => Err(e),
                Ok(None) => Err(new_error(ErrorKind::BoolType, clone_value(self))),
                Ok(Some(s)) => match parse_bool_word(s.as_str()) {
                    Some(b) => Ok(b),
                    None => Err(new_error(ErrorKind::BoolParsing, clone_value(self))),
                },
            },
            Value::Int(i) => {
                if *i == 0 {
                    Ok(false)
                } else if *i == 1 {
                    Ok(true)
                } else {
                    Err(new_error(ErrorKind::BoolParsing, clone_value(self)))
                }
            },
            _ => Err(new_error(ErrorKind::BoolType, clone_value(self))),
        }
    }

    /// Strict integer coercion: a boolean is rejected first, then only an
    /// integer is accepted.
    pub fn strict_int(&self) -> (r: ValResult<i64>)
        ensures
            match self@ {
                ValueV::Int(i) => r matches Ok(o) && o as int == i,
                _ => r matches Err(e) && is_single_error(e, ErrorKind::IntType, None, self@),
            },
    {
        match self {
            Value::Bool(_) => Err(new_error(ErrorKind::IntType, clone_value(self))),
            Value::Int(i) => Ok(*i),
            _ => Err(new_error(ErrorKind::IntType, clone_value(self))),
        }
    }

    /// Lax integer coercion: an integer, integer text, or a decimal whose
    /// fractional part is empty; a boolean is rejected first.
    pub fn lax_int(&self) -> (r: ValResult<i64>)
        ensures
            match self@ {
                ValueV::Bool(_) => r matches Err(e) && is_single_error(
                    e,
                    ErrorKind::IntType,
                    None,
                    self@,
                ),
                ValueV::Int(i) => r matches Ok(o) && o as int == i,
                ValueV::Str(s) => match int_from_text(s) {
                    Some(v) => r matches Ok(o) && o as int == v,
                    None => r matches Err(e) && is_single_error(
                        e,
                        ErrorKind::IntParsing,
                        None,
                        self@,
                    ),
                },
                ValueV::Bytes(b) => if valid_utf8(b) {
                    match int_from_text(decode_utf8(b)) {
                        Some(v) => r matches Ok(o) && o as int == v,
                        None => r matches Err(e) && is_single_error(
                            e,
                            ErrorKind::IntParsing,
                            None,
                            self@,
                        ),
                    }
                } else {
                    r matches Err(e) && is_single_error(e, ErrorKind::IntParsing, None, self@)
                },
                ValueV::Float(d) => if d.frac.len() == 0 && i64::MIN <= dec_as_int(d) <= i64::MAX {
                    r matches Ok(o) && o as int == dec_as_int(d)
                } else {
                    r matches Err(e) && is_single_error(e, ErrorKind::IntParsing, None, self@)
                },
                _ => r matches Err(e) && is_single_error(e, ErrorKind::IntType, None, self@),
            },
    {
        match self {
            Value::Bool(_) => Err(new_error(ErrorKind::IntType, clone_value(self))),
            Value::Int(i) => Ok(*i),
            Value::Str(_) | Value::Bytes(_) => match self.maybe_as_string(ErrorKind::IntParsing) {
                Err(e) => Err(e),
                Ok(None) => Err(new_error(ErrorKind::IntType, clone_value(self))),
                Ok(Some(s)) => match parse_i64(s.as_str()) {
                    Some(v) => Ok(v),
                    None => Err(new_error(ErrorKind::IntParsing, clone_value(self))),
                },
            },
            Value::Float(d) => {
                if d.frac.len() == 0 {
                    if d.neg {
                        if d.int_part <= 9223372036854775808u64 {
                            Ok((-(d.int_part as i128)) as i64)
                        } else {
                            Err(new_error(ErrorKind::IntParsing, clone_value(self)))
                        }
                    } else {
                        if d.int_part <= 9223372036854775807u64 {
                            Ok(d.int_part as i64)
                        } else {
                            Err(new_error(ErrorKind::IntParsing, clone_value(self)))
                        }
                    }
                } else {
                    Err(new_error(ErrorKind::IntParsing, clone_value(self)))
                }
            },
            _ => Err(new_error(ErrorKind::IntType, clone_value(self))),
        }
    }

    /// Strict number coercion: a boolean is rejected first, then only a
    /// decimal is accepted.
    pub fn strict_float(&self) -> (r: ValResult<Dec>)
        ensures
            match self@ {
                ValueV::Float(d) => r matches Ok(o) && o@ == d,
                _ => r matches Err(e) && is_single_error(e, ErrorKind::FloatType, None, self@),
            },
    {
        match self {
            Value::Bool(_) => Err(new_error(ErrorKind::FloatType, clone_value(self))),
            Value::Float(d) => Ok(d.clone()),
            _ => Err(new_error(ErrorKind::FloatType, clone_value(self))),
        }
    }

    /// Lax number coercion: a decimal, an integer, or numeric text; a
    /// boolean is rejected first.
    pub fn lax_float(&self) -> (r: ValResult<Dec>)
        ensures
            match self@ {
                ValueV::Bool(_) => r matches Err(e) && is_single_error(
                    e,
                    ErrorKind::FloatType,
                    None,
                    self@,
                ),
                ValueV::Float(d) => r matches Ok(o) && o@ == d,
                ValueV::Int(i) => r matches Ok(o) && o@ == (DecV {
                    neg: i < 0,
                    int_part: if i < 0 { -i } else { i },
                    frac: Seq::<u8>::empty(),
                }),
                ValueV::Str(s) => match parse_dec_spec(s) {
                    Some(d) => r matches Ok(o) && o@ == d,
                    None => r matches Err(e) && is_single_error(
                        e,
                        ErrorKind::FloatParsing,
                        None,
                        self@,
                    ),
                },
                ValueV::Bytes(b) => if valid_utf8(b) {
                    match parse_dec_spec(decode_utf8(b)) {
                        Some(d) => r matches Ok(o) && o@ == d,
                        None => r matches Err(e) && is_single_error(
                            e,
                            ErrorKind::FloatParsing,
                            None,
                            self@,
                        ),
                    }
                } else {
                    r matches Err(e) && is_single_error(e, ErrorKind::FloatParsing, None, self@)
                },
                _ => r matches Err(e) && is_single_error(e, ErrorKind::FloatType, None, self@),
            },
    {
        match self {
            Value::Bool(_) => Err(new_error(ErrorKind::FloatType, clone_value(self))),
            Value::Float(d) => Ok(d.clone()),
            Value::Int(i) => Ok(dec_from_i64(*i)),
            Value::Str(_) | Value::Bytes(_) => match self.maybe_as_string(
                ErrorKind::FloatParsing,
            ) {
                Err(e) => Err(e),
                Ok(None) => Err(new_error(ErrorKind::FloatType, clone_value(self))),
                Ok(Some(s)) => match parse_dec(s.as_str()) {
                    Some(d) => Ok(d),
                    None => Err(new_error(ErrorKind::FloatParsing, clone_value(self))),
                },
            },
            _ => Err(new_error(ErrorKind::FloatType, clone_value(self))),
        }
    }
}


/// The pairs a fault-free run of mapping entries yields, in order.
pub open spec fn mapping_pairs(es: Seq<MapEntryV>) -> Seq<(ValueV, ValueV)> {
    Seq::new(es.len(), |i: int| (es[i]->Pair_0, es[i]->Pair_1))
}

/// Reads a duck-typed mapping into an ordered pair snapshot; the host's
/// error text comes back if iteration faults, with nothing kept of the
/// part already read.
#[verifier::loop_isolation(false)]
fn mapping_as_dict(entries: &Vec<MapEntry>) -> (r: Result<Vec<(Value, Value)>, String>)
    ensures
        ({
            let es = map_entries_view(entries@);
            if first_map_fault(es) < es.len() {
                r matches Err(m) && m@ == es[first_map_fault(es)]->Fault_0
            } else {
                r matches Ok(o) && pairs_view(o@) == mapping_pairs(es)
            }
        }),
{
    let ghost es = map_entries_view(entries@);
    let mut out: Vec<(Value, Value)> = Vec::new();
    let mut i: usize = 0;
    while i < entries.len()
        invariant
            0 <= i <= entries@.len(),
            out@.len() == i,
            forall|j: int| 0 <= j < i ==> !(es[j] is Fault),
            forall|j: int|
                0 <= j < i ==> #[trigger] pair_view(out@[j]) == (es[j]->Pair_0, es[j]->Pair_1),
        decreases entries@.len() - i,
    {
        match &entries[i] {
            MapEntry::Pair(k, w) => {
                let p = (clone_value(k), clone_value(w));
                out.push(p);
            },
            MapEntry::Fault(m) => {
                proof {
                    lemma_first_map_fault(es, i as int);
                }
                return Err(m.clone());
            },
        }
        i = i + 1;
    }
    proof {
        lemma_first_map_fault(es, es.len() as int);
        assert(pairs_view(out@) =~= mapping_pairs(es));
    }
    Ok(out)
}

/// Reads a reflectable object into a synthetic mapping of its public
/// attributes; the host's error text comes back if attribute access faults.
#[verifier::loop_isolation(false)]
fn instance_as_dict(entries: &Vec<AttrEntry>) -> (r: Result<Vec<(Value, Value)>, String>)
    ensures
        ({
            let es = attr_entries_view(entries@);
            if first_attr_fault(es) < es.len() {
                r matches Err(m) && m@ == es[first_attr_fault(es)]->Fault_0
            } else {
                r matches Ok(o) && pairs_view(o@) == public_attrs(es)
            }
        }),
{
    let ghost es = attr_entries_view(entries@);
    let mut out: Vec<(Value, Value)> = Vec::new();
    let mut i: usize = 0;
    proof {
        assert(es.subrange(0, es.len() as int) =~= es);
    }
    while i < entries.len()
        invariant
            0 <= i <= entries@.len(),
            forall|j: int| 0 <= j < i ==> !(es[j] is Fault),
            public_attrs(es) == pairs_view(out@) + public_attrs(
                es.subrange(i as int, es.len() as int),
            ),
        decreases entries@.len() - i,
    {
        let ghost before = out@;
        match &entries[i] {
            AttrEntry::Attr(n, w) => {
                let name_str = n.as_str();
                let private = name_str.unicode_len() > 0 && name_str.get_char(0) == '_';
                if !private {
                    let p = (Value::Str(n.clone()), clone_value(w));
                    out.push(p);
                }
            },
            AttrEntry::Fault(m) => {
                proof {
                    lemma_first_attr_fault(es, i as int);
                }
                return Err(m.clone());
            },
        }
        proof {
            let suffix = es.subrange(i as int, es.len() as int);
            assert(suffix.subrange(1, suffix.len() as int) =~= es.subrange(
                i + 1,
                es.len() as int,
            ));
            assert(suffix[0] == es[i as int]);
            if out@.len() > before.len() {
                assert(pairs_view(out@) =~= pairs_view(before) + seq![
                    pair_view(out@[out@.len() - 1]),
                ]);
            } else {
                assert(pairs_view(out@) =~= pairs_view(before));
            }
        }
        i = i + 1;
    }
    proof {
        lemma_first_attr_fault(es, es.len() as int);
        assert(public_attrs(es.subrange(es.len() as int, es.len() as int)) =~= Seq::<(
            ValueV,
            ValueV,
        )>::empty());
        assert(pairs_view(out@) + public_attrs(es.subrange(es.len() as int, es.len() as int))
            =~= pairs_view(out@));
    }
    Ok(out)
}

impl Value {
    /// Strict dictionary coercion: only a dictionary is accepted; its pairs
    /// come back in order.
    pub fn strict_dict(&self) -> (r: ValResult<Vec<(Value, Value)>>)
        ensures
            match self@ {
                ValueV::Dict(ps) => r matches Ok(o) && pairs_view(o@) == ps,
                _ => r matches Err(e) && is_single_error(e, ErrorKind::DictType, None, self@),
            },
    {
        match self {
            Value::Dict(pairs) => {
                let o = clone_pairs(pairs);
                proof {
                    assert(pairs_view(o@) =~= self@->Dict_0);
                }
                Ok(o)
            },
            _ => Err(new_error(ErrorKind::DictType, clone_value(self))),
        }
    }

    /// Lax dictionary coercion: a dictionary; then a duck-typed mapping;
    /// then, only when enabled, attribute reflection. The synthetic mapping
    /// a reflection produces is re-read with reflection disabled, so the
    /// fallback never recurses more than one level.
    pub fn lax_dict(&self, try_instance: bool) -> (r: ValResult<Vec<(Value, Value)>>)
        ensures
            match self@ {
                ValueV::Dict(ps) => r matches Ok(o) && pairs_view(o@) == ps,
                ValueV::Mapping(es) => if first_map_fault(es) < es.len() {
                    r matches Err(e) && is_single_error(
                        e,
                        ErrorKind::DictFromMapping,
                        Some(es[first_map_fault(es)]->Fault_0),
                        self@,
                    )
                } else {
                    r matches Ok(o) && pairs_view(o@) == mapping_pairs(es)
                },
                ValueV::Instance(es) => if !try_instance {
                    r matches Err(e) && is_single_error(e, ErrorKind::DictType, None, self@)
                } else if first_attr_fault(es) < es.len() {
                    r matches Err(e) && is_single_error(
                        e,
                        ErrorKind::DictFromObject,
                        Some(es[first_attr_fault(es)]->Fault_0),
                        self@,
                    )
                } else {
                    r matches Ok(o) && pairs_view(o@) == public_attrs(es)
                },
                _ => r matches Err(e) && is_single_error(e, ErrorKind::DictType, None, self@),
            },
        decreases (if try_instance { 1int } else { 0int }),
    {
        match self {
            Value::Dict(pairs) => {
                let o = clone_pairs(pairs);
                proof {
                    assert(pairs_view(o@) =~= self@->Dict_0);
                }
                Ok(o)
            },
            Value::Mapping(entries) => {
                proof {
                    assert(map_entries_view(entries@) =~= self@->Mapping_0);
                }
                match mapping_as_dict(entries) {
                    Ok(o) => Ok(o),
                    Err(m) => Err(
                        new_error_msg(ErrorKind::DictFromMapping, m, clone_value(self)),
                    ),
                }
            },
            Value::Instance(entries) => {
                if try_instance {
                    proof {
                        assert(attr_entries_view(entries@) =~= self@->Instance_0);
                    }
                    match instance_as_dict(entries) {
                        Ok(pairs) => {
                            let inner = Value::Dict(pairs);
                            proof {
                                assert(inner@->Dict_0 =~= pairs_view(pairs@));
                                assert(inner@->Dict_0 == public_attrs(
                                    attr_entries_view(entries@),
                                ));
                            }
                            let o = inner.lax_dict(false);
                            o
                        },
                        Err(m) => Err(
                            new_error_msg(ErrorKind::DictFromObject, m, clone_value(self)),
                        ),
                    }
                } else {
                    Err(new_error(ErrorKind::DictType, clone_value(self)))
                }
            },
            _ => Err(new_error(ErrorKind::DictType, clone_value(self))),
        }
    }

    /// Strict list coercion: only a list is accepted; its items come back
    /// in order.
    pub fn strict_list(&self) -> (r: ValResult<Vec<Value>>)
        ensures
            match self@ {
                ValueV::List(items) => r matches Ok(o) && values_view(o@) == items,
                _ => r matches Err(e) && is_single_error(e, ErrorKind::ListType, None, self@),
            },
    {
        match self {
            Value::List(items) => {
                let o = crate::value::clone_values(items);
                proof {
                    assert(values_view(o@) =~= self@->List_0);
                }
                Ok(o)
            },
            _ => Err(new_error(ErrorKind::ListType, clone_value(self))),
        }
    }

    /// Lax list coercion: a list, a tuple, a set or a frozen set; the items
    /// come back in the snapshot's order.
    pub fn lax_list(&self) -> (r: ValResult<Vec<Value>>)
        ensures
            match self@ {
                ValueV::List(items) => r matches Ok(o) && values_view(o@) == items,
                ValueV::Tuple(items) => r matches Ok(o) && values_view(o@) == items,
                ValueV::SetVal(items) => r matches Ok(o) && values_view(o@) == items,
                ValueV::FrozenSet(items) => r matches Ok(o) && values_view(o@) == items,
                _ => r matches Err(e) && is_single_error(e, ErrorKind::ListType, None, self@),
            },
    {
        match self {
            Value::List(items) => {
                let o = crate::value::clone_values(items);
                proof {
                    assert(values_view(o@) =~= self@->List_0);
                }
                Ok(o)
            },
            Value::Tuple(items) => {
                let o = crate::value::clone_values(items);
                proof {
                    assert(values_view(o@) =~= self@->Tuple_0);
                }
                Ok(o)
            },
            Value::SetVal(items) => {
                let o = crate::value::clone_values(items);
                proof {
                    assert(values_view(o@) =~= self@->SetVal_0);
                }
                Ok(o)
            },
            Value::FrozenSet(items) => {
                let o = crate::value::clone_values(items);
                proof {
                    assert(values_view(o@) =~= self@->FrozenSet_0);
                }
                Ok(o)
            },
            _ => Err(new_error(ErrorKind::ListType, clone_value(self))),
        }
    }

    /// Strict set coercion: only a set is accepted.
    pub fn strict_set(&self) -> (r: ValResult<Vec<Value>>)
        ensures
            match self@ {
                ValueV::SetVal(items) => r matches Ok(o) && values_view(o@) == items,
                _ => r matches Err(e) && is_single_error(e, ErrorKind::SetType, None, self@),
            },
    {
        match self {
            Value::SetVal(items) => {
                let o = crate::value::clone_values(items);
                proof {
                    assert(values_view(o@) =~= self@->SetVal_0);
                }
                Ok(o)
            },
            _ => Err(new_error(ErrorKind::SetType, clone_value(self))),
        }
    }

    /// Lax set coercion: a set, a list, a tuple or a frozen set.
    pub fn lax_set(&self) -> (r: ValResult<Vec<Value>>)
        ensures
            match self@ {
                ValueV::SetVal(items) => r matches Ok(o) && values_view(o@) == items,
                ValueV::List(items) => r matches Ok(o) && values_view(o@) == items,
                ValueV::Tuple(items) => r matches Ok(o) && values_view(o@) == items,
                ValueV::FrozenSet(items) => r matches Ok(o) && values_view(o@) == items,
                _ => r matches Err(e) && is_single_error(e, ErrorKind::SetType, None, self@),
            },
    {
        match self {
            Value::SetVal(items) => {
                let o = crate::value::clone_values(items);
                proof {
                    assert(values_view(o@) =~= self@->SetVal_0);
                }
                Ok(o)
            },
            Value::List(items) => {
                let o = crate::value::clone_values(items);
                proof {
                    assert(values_view(o@) =~= self@->List_0);
                }
                Ok(o)
            },
            Value::Tuple(items) => {
                let o = crate::value::clone_values(items);
                proof {
                    assert(values_view(o@) =~= self@->Tuple_0);
                }
                Ok(o)
            },
            Value::FrozenSet(items) => {
                let o = crate::value::clone_values(items);
                proof {
                    assert(values_view(o@) =~= self@->FrozenSet_0);
                }
                Ok(o)
            },
            _ => Err(new_error(ErrorKind::SetType, clone_value(self))),
        }
    }
}

} // verus!
