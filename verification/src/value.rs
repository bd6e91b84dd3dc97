//! The generic host value: a capability-based model of one input value.
//!
//! A `Value` holds, as plain data, exactly what the coercion engine reads of
//! a host value: its primitive content, or an ordered snapshot of its
//! entries. A duck-typed mapping or a reflectable object may also record
//! that reading it fails part-way, which models a host whose iteration or
//! attribute access raises.
//!
//! Floating-point host numbers are carried as `Dec`, an exact decimal
//! stand-in: a sign, an integer part, and the fractional digits with
//! trailing zeros stripped. The host adapter converts in both directions.

use vstd::prelude::*;
use vstd::string::StringExecFns;
use crate::text::digit_char;
use crate::text::dec_digits;
use crate::text::int_text;
use crate::text::push_u64_dec;

verus! {

/// An exact decimal number standing in for a host float.
#[derive(Debug, PartialEq)]
pub struct Dec {
    /// Whether the number is negative.
    pub neg: bool,
    /// The magnitude of the integer part.
    pub int_part: u64,
    /// The fractional digits, most significant first, each 0 to 9, with no
    /// trailing zero digit.
    pub frac: Vec<u8>,
}

/// The mathematical content of a `Dec`.
#[verifier::ext_equal]
pub ghost struct DecV {
    pub neg: bool,
    pub int_part: int,
    pub frac: Seq<u8>,
}

impl View for Dec {
    type V = DecV;

    open spec fn view(&self) -> DecV {
        DecV { neg: self.neg, int_part: self.int_part as int, frac: self.frac@ }
    }
}

/// Well-formedness of a decimal: digits in range and no trailing zero, so
/// that each number has exactly one representation.
pub open spec fn dec_wf(d: DecV) -> bool {
    &&& forall|i: int| 0 <= i < d.frac.len() ==> d.frac[i] <= 9
    &&& d.frac.len() > 0 ==> d.frac[d.frac.len() - 1] != 0
    &&& 0 <= d.int_part <= u64::MAX
}

/// The text of the fractional digits.
pub open spec fn frac_text(f: Seq<u8>) -> Seq<char> {
    Seq::new(f.len(), |i: int| digit_char(f[i] as int))
}

/// The text of a decimal: sign, integer digits, and the fractional digits
/// after a point when there are any.
pub open spec fn dec_text(d: DecV) -> Seq<char> {
    (if d.neg {
        seq!['-']
    } else {
        Seq::<char>::empty()
    }) + dec_digits(d.int_part as nat) + (if d.frac.len() > 0 {
        seq!['.'] + frac_text(d.frac)
    } else {
        Seq::<char>::empty()
    })
}

/// Renders a decimal as text. A digit above 9 (which no well-formed
/// decimal holds) shows as 9 rather than failing: rendering is total.
#[verifier::loop_isolation(false)]
pub fn dec_to_string(d: &Dec) -> (r: String)
    ensures
        r@ == dec_text(d@),
{
    let mut out = if d.neg {
        let s = String::from_str("-");
        proof {
            reveal_strlit("-");
        }
        s
    } else {
        String::new()
    };
    push_u64_dec(&mut out, d.int_part);
    if d.frac.len() > 0 {
        out.append(".");
        proof {
            reveal_strlit(".");
        }
        let ghost base = out@;
        proof {
            assert(frac_text(d.frac@.subrange(0, 0)) =~= Seq::<char>::empty());
        }
        let mut i: usize = 0;
        while i < d.frac.len()
            invariant
                0 <= i <= d.frac@.len(),
                out@ == base + frac_text(d.frac@.subrange(0, i as int)),
            decreases d.frac@.len() - i,
        {
            let digit = d.frac[i];
            let shown: u8 = if digit <= 9 {
                digit
            } else {
                9
            };
            out.append(crate::text::digit_str(shown as u64));
            proof {
                assert(digit_char(shown as int) == digit_char(d.frac@[i as int] as int));
            }
            proof {
                assert(frac_text(d.frac@.subrange(0, i + 1)) =~= frac_text(
                    d.frac@.subrange(0, i as int),
                ) + seq![digit_char(d.frac@[i as int] as int)]);
                assert(out@ =~= base + frac_text(d.frac@.subrange(0, i + 1)));
            }
            i = i + 1;
        }
        proof {
            assert(d.frac@.subrange(0, d.frac@.len() as int) =~= d.frac@);
            assert(out@ =~= dec_text(d@));
        }
    } else {
        proof {
            assert(out@ =~= dec_text(d@));
        }
    }
    out
}

/// One entry a duck-typed mapping yields: a key/value pair, or the point at
/// which its iteration raises, with the host's error text.
#[derive(Debug, PartialEq)]
pub enum MapEntry {
    Pair(Value, Value),
    Fault(String),
}

/// One attribute a reflectable object yields: a name/value pair, or the
/// point at which attribute access raises, with the host's error text.
#[derive(Debug, PartialEq)]
pub enum AttrEntry {
    Attr(String, Value),
    Fault(String),
}

/// A host value, as the coercion engine sees it.
#[derive(Debug, PartialEq)]
pub enum Value {
    /// The host's null.
    Null,
    /// An exact boolean.
    Bool(bool),
    /// An exact integer.
    Int(i64),
    /// A host float, as an exact decimal stand-in.
    Float(Dec),
    /// An exact string.
    Str(String),
    /// Raw bytes.
    Bytes(Vec<u8>),
    /// An exact dictionary: an ordered snapshot of its pairs.
    Dict(Vec<(Value, Value)>),
    /// A list: an ordered snapshot of its items.
    List(Vec<Value>),
    /// A tuple: an ordered snapshot of its items.
    Tuple(Vec<Value>),
    /// A set: a snapshot of its items in the host's iteration order.
    SetVal(Vec<Value>),
    /// A frozen set: a snapshot of its items in the host's iteration order.
    FrozenSet(Vec<Value>),
    /// A duck-typed mapping, read entry by entry; reading may fault.
    Mapping(Vec<MapEntry>),
    /// An object offering attribute reflection; reading may fault.
    Instance(Vec<AttrEntry>),
}

/// The mathematical content of a `MapEntry`.
#[verifier::ext_equal]
pub ghost enum MapEntryV {
    Pair(ValueV, ValueV),
    Fault(Seq<char>),
}

/// The mathematical content of an `AttrEntry`.
#[verifier::ext_equal]
pub ghost enum AttrEntryV {
    Attr(Seq<char>, ValueV),
    Fault(Seq<char>),
}

/// The mathematical content of a `Value`.
#[verifier::ext_equal]
pub ghost enum ValueV {
    Null,
    Bool(bool),
    Int(int),
    Float(DecV),
    Str(Seq<char>),
    Bytes(Seq<u8>),
    Dict(Seq<(ValueV, ValueV)>),
    List(Seq<ValueV>),
    Tuple(Seq<ValueV>),
    SetVal(Seq<ValueV>),
    FrozenSet(Seq<ValueV>),
    Mapping(Seq<MapEntryV>),
    Instance(Seq<AttrEntryV>),
}

/// The content of one dictionary pair.
pub open spec fn pair_view(p: (Value, Value)) -> (ValueV, ValueV)
    decreases p,
{
    match p {
        (k, w) => (value_view(k), value_view(w)),
    }
}

/// The content of one mapping entry.
pub open spec fn map_entry_view(e: MapEntry) -> MapEntryV
    decreases e,
{
    match e {
        MapEntry::Pair(k, w) => MapEntryV::Pair(value_view(k), value_view(w)),
        MapEntry::Fault(m) => MapEntryV::Fault(m@),
    }
}

/// The content of one attribute entry.
pub open spec fn attr_entry_view(e: AttrEntry) -> AttrEntryV
    decreases e,
{
    match e {
        AttrEntry::Attr(n, w) => AttrEntryV::Attr(n@, value_view(w)),
        AttrEntry::Fault(m) => AttrEntryV::Fault(m@),
    }
}

/// The content of a value, recursively.
pub open spec fn value_view(v: Value) -> ValueV
    decreases v,
{
    match v {
        Value::Null => ValueV::Null,
        Value::Bool(b) => ValueV::Bool(b),
        Value::Int(i) => ValueV::Int(i as int),
        Value::Float(d) => ValueV::Float(d@),
        Value::Str(s) => ValueV::Str(s@),
        Value::Bytes(b) => ValueV::Bytes(b@),
        Value::Dict(pairs) => ValueV::Dict(
            Seq::new(
                pairs@.len(),
                |i: int|
                    if 0 <= i < pairs@.len() {
                        pair_view(pairs@[i])
                    } else {
                        (ValueV::Null, ValueV::Null)
                    },
            ),
        ),
        Value::List(items) => ValueV::List(
            Seq::new(
                items@.len(),
                |i: int|
                    if 0 <= i < items@.len() {
                        value_view(items@[i])
                    } else {
                        ValueV::Null
                    },
            ),
        ),
        Value::Tuple(items) => ValueV::Tuple(
            Seq::new(
                items@.len(),
                |i: int|
                    if 0 <= i < items@.len() {
                        value_view(items@[i])
                    } else {
                        ValueV::Null
                    },
            ),
        ),
        Value::SetVal(items) => ValueV::SetVal(
            Seq::new(
                items@.len(),
                |i: int|
                    if 0 <= i < items@.len() {
                        value_view(items@[i])
                    } else {
                        ValueV::Null
                    },
            ),
        ),
        Value::FrozenSet(items) => ValueV::FrozenSet(
            Seq::new(
                items@.len(),
                |i: int|
                    if 0 <= i < items@.len() {
                        value_view(items@[i])
                    } else {
                        ValueV::Null
                    },
            ),
        ),
        Value::Mapping(entries) => ValueV::Mapping(
            Seq::new(
                entries@.len(),
                |i: int|
                    if 0 <= i < entries@.len() {
                        map_entry_view(entries@[i])
                    } else {
                        MapEntryV::Fault(Seq::<char>::empty())
                    },
            ),
        ),
        Value::Instance(entries) => ValueV::Instance(
            Seq::new(
                entries@.len(),
                |i: int|
                    if 0 <= i < entries@.len() {
                        attr_entry_view(entries@[i])
                    } else {
                        AttrEntryV::Fault(Seq::<char>::empty())
                    },
            ),
        ),
    }
}

impl View for Value {
    type V = ValueV;

    open spec fn view(&self) -> ValueV {
        value_view(*self)
    }
}

/// Validity of a value: every decimal stand-in it contains is well-formed.
pub open spec fn value_wf(v: ValueV) -> bool
    decreases v,
{
    match v {
        ValueV::Float(d) => dec_wf(d),
        ValueV::Dict(pairs) => forall|i: int|
            0 <= i < pairs.len() ==> #[trigger] value_wf(pairs[i].0) && value_wf(pairs[i].1),
        ValueV::List(items) => forall|i: int|
            0 <= i < items.len() ==> #[trigger] value_wf(items[i]),
        ValueV::Tuple(items) => forall|i: int|
            0 <= i < items.len() ==> #[trigger] value_wf(items[i]),
        ValueV::SetVal(items) => forall|i: int|
            0 <= i < items.len() ==> #[trigger] value_wf(items[i]),
        ValueV::FrozenSet(items) => forall|i: int|
            0 <= i < items.len() ==> #[trigger] value_wf(items[i]),
        ValueV::Mapping(entries) => forall|i: int|
            0 <= i < entries.len() ==> #[trigger] map_entry_wf(entries[i]),
        ValueV::Instance(entries) => forall|i: int|
            0 <= i < entries.len() ==> #[trigger] attr_entry_wf(entries[i]),
        _ => true,
    }
}

pub open spec fn map_entry_wf(e: MapEntryV) -> bool
    decreases e,
{
    match e {
        MapEntryV::Pair(k, w) => value_wf(k) && value_wf(w),
        MapEntryV::Fault(_) => true,
    }
}

pub open spec fn attr_entry_wf(e: AttrEntryV) -> bool
    decreases e,
{
    match e {
        AttrEntryV::Attr(_, w) => value_wf(w),
        AttrEntryV::Fault(_) => true,
    }
}

/// The host-facing label of a value's type, used only for rendering.
pub open spec fn type_label_spec(v: ValueV) -> Seq<char> {
    match v {
        ValueV::Null => "NoneType"@,
        ValueV::Bool(_) => "bool"@,
        ValueV::Int(_) => "int"@,
        ValueV::Float(_) => "float"@,
        ValueV::Str(_) => "str"@,
        ValueV::Bytes(_) => "bytes"@,
        ValueV::Dict(_) => "dict"@,
        ValueV::List(_) => "list"@,
        ValueV::Tuple(_) => "tuple"@,
        ValueV::SetVal(_) => "set"@,
        ValueV::FrozenSet(_) => "frozenset"@,
        ValueV::Mapping(_) => "mapping"@,
        ValueV::Instance(_) => "object"@,
    }
}

impl Value {
    /// The name of this value's type, for rendering.
    pub fn type_label(&self) -> (r: String)
        ensures
            r@ == type_label_spec(self@),
    {
        match self {
            Value::Null => String::from_str("NoneType"),
            Value::Bool(_) => String::from_str("bool"),
            Value::Int(_) => String::from_str("int"),
            Value::Float(_) => String::from_str("float"),
            Value::Str(_) => String::from_str("str"),
            Value::Bytes(_) => String::from_str("bytes"),
            Value::Dict(_) => String::from_str("dict"),
            Value::List(_) => String::from_str("list"),
            Value::Tuple(_) => String::from_str("tuple"),
            Value::SetVal(_) => String::from_str("set"),
            Value::FrozenSet(_) => String::from_str("frozenset"),
            Value::Mapping(_) => String::from_str("mapping"),
            Value::Instance(_) => String::from_str("object"),
        }
    }
}

fn clone_u8_vec(v: &Vec<u8>) -> (r: Vec<u8>)
    ensures
        r@ == v@,
{
    let mut out: Vec<u8> = Vec::new();
    let mut i: usize = 0;
    while i < v.len()
        invariant
            0 <= i <= v@.len(),
            out@ =~= v@.subrange(0, i as int),
        decreases v@.len() - i,
    {
        out.push(v[i]);
        i = i + 1;
    }
    proof {
        assert(v@.subrange(0, v@.len() as int) =~= v@);
    }
    out
}

fn clone_pair(p: &(Value, Value)) -> (r: (Value, Value))
    ensures
        pair_view(r) == pair_view(*p),
    decreases *p,
{
    match p {
        (k, w) => (clone_value(k), clone_value(w)),
    }
}

fn clone_map_entry(e: &MapEntry) -> (r: MapEntry)
    ensures
        map_entry_view(r) == map_entry_view(*e),
    decreases *e,
{
    match e {
        MapEntry::Pair(k, w) => MapEntry::Pair(clone_value(k), clone_value(w)),
        MapEntry::Fault(m) => MapEntry::Fault(m.clone()),
    }
}

fn clone_attr_entry(e: &AttrEntry) -> (r: AttrEntry)
    ensures
        attr_entry_view(r) == attr_entry_view(*e),
    decreases *e,
{
    match e {
        AttrEntry::Attr(n, w) => AttrEntry::Attr(n.clone(), clone_value(w)),
        AttrEntry::Fault(m) => AttrEntry::Fault(m.clone()),
    }
}

/// Copies a value; the copy has the same content.
#[verifier::loop_isolation(false)]
#[verifier::rlimit(50)]
#[verifier::spinoff_prover]
pub fn clone_value(v: &Value) -> (r: Value)
    ensures
        r@ == v@,
    decreases *v,
{
    match v {
        Value::Null => Value::Null,
        Value::Bool(b) => Value::Bool(*b),
        Value::Int(i) => Value::Int(*i),
        Value::Float(d) => Value::Float(
            Dec { neg: d.neg, int_part: d.int_part, frac: clone_u8_vec(&d.frac) },
        ),
        Value::Str(s) => Value::Str(s.clone()),
        Value::Bytes(b) => Value::Bytes(clone_u8_vec(b)),
        Value::Dict(pairs) => {
            let mut out: Vec<(Value, Value)> = Vec::new();
            let mut i: usize = 0;
            while i < pairs.len()
                invariant
                    0 <= i <= pairs@.len(),
                    out@.len() == i,
                    forall|j: int|
                        0 <= j < i ==> #[trigger] pair_view(out@[j]) == pair_view(pairs@[j]),
                decreases pairs@.len() - i,
            {
                proof {
                    assert(decreases_to!(*v => pairs@[i as int]));
                }
                let p = clone_pair(&pairs[i]);
                out.push(p);
                i = i + 1;
            }
            let r = Value::Dict(out);
            proof {
                let s1 = value_view(r)->Dict_0;
                let s2 = value_view(*v)->Dict_0;
                assert(forall|j: int| 0 <= j < s1.len() ==> s1[j] == pair_view(out@[j]));
                assert(forall|j: int| 0 <= j < s2.len() ==> s2[j] == pair_view(pairs@[j]));
                assert(s1 =~= s2);
                assert(r@ =~= v@);
            }
            r
        },
        Value::List(items) => {
            let out = clone_values(items);
            let r = Value::List(out);
            proof {
                let s1 = value_view(r)->List_0;
                let s2 = value_view(*v)->List_0;
                assert(forall|j: int| 0 <= j < s1.len() ==> s1[j] == value_view(out@[j]));
                assert(forall|j: int| 0 <= j < s2.len() ==> s2[j] == value_view(items@[j]));
                assert(s1 =~= s2);
                assert(r@ =~= v@);
            }
            r
        },
        Value::Tuple(items) => {
            let out = clone_values(items);
            let r = Value::Tuple(out);
            proof {
                let s1 = value_view(r)->Tuple_0;
                let s2 = value_view(*v)->Tuple_0;
                assert(forall|j: int| 0 <= j < s1.len() ==> s1[j] == value_view(out@[j]));
                assert(forall|j: int| 0 <= j < s2.len() ==> s2[j] == value_view(items@[j]));
                assert(s1 =~= s2);
                assert(r@ =~= v@);
            }
            r
        },
        Value::SetVal(items) => {
            let out = clone_values(items);
            let r = Value::SetVal(out);
            proof {
                let s1 = value_view(r)->SetVal_0;
                let s2 = value_view(*v)->SetVal_0;
                assert(forall|j: int| 0 <= j < s1.len() ==> s1[j] == value_view(out@[j]));
                assert(forall|j: int| 0 <= j < s2.len() ==> s2[j] == value_view(items@[j]));
                assert(s1 =~= s2);
                assert(r@ =~= v@);
            }
            r
        },
        Value::FrozenSet(items) => {
            let out = clone_values(items);
            let r = Value::FrozenSet(out);
            proof {
                let s1 = value_view(r)->FrozenSet_0;
                let s2 = value_view(*v)->FrozenSet_0;
                assert(forall|j: int| 0 <= j < s1.len() ==> s1[j] == value_view(out@[j]));
                assert(forall|j: int| 0 <= j < s2.len() ==> s2[j] == value_view(items@[j]));
                assert(s1 =~= s2);
                assert(r@ =~= v@);
            }
            r
        },
        Value::Mapping(entries) => {
            let mut out: Vec<MapEntry> = Vec::new();
            let mut i: usize = 0;
            while i < entries.len()
                invariant
                    0 <= i <= entries@.len(),
                    out@.len() == i,
                    forall|j: int|
                        0 <= j < i ==> #[trigger] map_entry_view(out@[j]) == map_entry_view(
                            entries@[j],
                        ),
                decreases entries@.len() - i,
            {
                proof {
                    assert(decreases_to!(*v => entries@[i as int]));
                }
                let e = clone_map_entry(&entries[i]);
                out.push(e);
                i = i + 1;
            }
            let r = Value::Mapping(out);
            proof {
                let s1 = value_view(r)->Mapping_0;
                let s2 = value_view(*v)->Mapping_0;
                assert(forall|j: int| 0 <= j < s1.len() ==> s1[j] == map_entry_view(out@[j]));
                assert(forall|j: int| 0 <= j < s2.len() ==> s2[j] == map_entry_view(entries@[j]));
                assert(s1 =~= s2);
                assert(r@ =~= v@);
            }
            r
        },
        Value::Instance(entries) => {
            let mut out: Vec<AttrEntry> = Vec::new();
            let mut i: usize = 0;
            while i < entries.len()
                invariant
                    0 <= i <= entries@.len(),
                    out@.len() == i,
                    forall|j: int|
                        0 <= j < i ==> #[trigger] attr_entry_view(out@[j]) == attr_entry_view(
                            entries@[j],
                        ),
                decreases entries@.len() - i,
            {
                proof {
                    assert(decreases_to!(*v => entries@[i as int]));
                }
                let e = clone_attr_entry(&entries[i]);
                out.push(e);
                i = i + 1;
            }
            let r = Value::Instance(out);
            proof {
                let s1 = value_view(r)->Instance_0;
                let s2 = value_view(*v)->Instance_0;
                assert(forall|j: int| 0 <= j < s1.len() ==> s1[j] == attr_entry_view(out@[j]));
                assert(forall|j: int| 0 <= j < s2.len() ==> s2[j] == attr_entry_view(entries@[j]));
                assert(s1 =~= s2);
                assert(r@ =~= v@);
            }
            r
        },
    }
}

/// Copies a value vector; the copy has the same contents.
#[verifier::loop_isolation(false)]
pub fn clone_values(items: &Vec<Value>) -> (r: Vec<Value>)
    ensures
        r@.len() == items@.len(),
        forall|j: int| 0 <= j < items@.len() ==> #[trigger] value_view(r@[j]) == value_view(
            items@[j],
        ),
    decreases items@,
{
    let mut out: Vec<Value> = Vec::new();
    let mut i: usize = 0;
    while i < items.len()
        invariant
            0 <= i <= items@.len(),
            out@.len() == i,
            forall|j: int| 0 <= j < i ==> #[trigger] value_view(out@[j]) == value_view(items@[j]),
        decreases items@.len() - i,
    {
        proof {
            assert(decreases_to!(items@ => items@[i as int]));
        }
        let w = clone_value(&items[i]);
        out.push(w);
        i = i + 1;
    }
    out
}

impl Clone for Value {
    /// The copy has the same content as the original.
    fn clone(&self) -> (r: Self)
        ensures
            r@ == self@,
    {
        clone_value(self)
    }
}

impl Clone for Dec {
    /// The copy has the same content as the original.
    fn clone(&self) -> (r: Self)
        ensures
            r@ == self@,
    {
        Dec { neg: self.neg, int_part: self.int_part, frac: clone_u8_vec(&self.frac) }
    }
}


/// The index of the first point in `s`, or `s.len()` when there is none.
pub open spec fn dot_pos(s: Seq<char>) -> int
    decreases s.len(),
{
    if s.len() == 0 {
        0
    } else if s[0] == '.' {
        0
    } else {
        1 + dot_pos(s.subrange(1, s.len() as int))
    }
}

proof fn lemma_dot_pos(s: Seq<char>, k: int)
    requires
        0 <= k <= s.len(),
        forall|j: int| 0 <= j < k ==> s[j] != '.',
        k < s.len() ==> s[k] == '.',
    ensures
        dot_pos(s) == k,
    decreases k,
{
    if k == 0 {
        if s.len() > 0 && s[0] != '.' {
            assert(k < s.len());
        }
    } else {
        let rest = s.subrange(1, s.len() as int);
        assert(forall|j: int| 0 <= j < k - 1 ==> rest[j] == s[j + 1] && s[j + 1] != '.');
        assert(k - 1 < rest.len() ==> rest[k - 1] == s[k as int]);
        lemma_dot_pos(rest, k - 1);
    }
}

/// The fractional digits denoted by a digit run.
pub open spec fn frac_digits_of(f: Seq<char>) -> Seq<u8> {
    Seq::new(f.len(), |i: int| crate::text::digit_val(f[i]) as u8)
}

/// Strips trailing zero digits, canonicalizing a fractional part.
pub open spec fn strip_zeros(d: Seq<u8>) -> Seq<u8>
    decreases d.len(),
{
    if d.len() > 0 && d[d.len() - 1] == 0 {
        strip_zeros(d.subrange(0, d.len() - 1))
    } else {
        d
    }
}

/// The decimal denoted by `s` under the strict grammar: an optional sign,
/// one or more digits, and optionally a point followed by one or more
/// digits. `None` when `s` does not fit the grammar or its integer part
/// exceeds the carried magnitude.
pub open spec fn parse_dec_spec(s: Seq<char>) -> Option<DecV> {
    let signed = s.len() > 0 && (s[0] == '-' || s[0] == '+');
    let neg = s.len() > 0 && s[0] == '-';
    let body = if signed {
        s.skip(1)
    } else {
        s
    };
    let k = dot_pos(body);
    let ipart = body.subrange(0, k);
    let fpart = if k < body.len() {
        body.subrange(k + 1, body.len() as int)
    } else {
        Seq::<char>::empty()
    };
    if ipart.len() > 0 && crate::text::all_digits(ipart) && (k == body.len() || (fpart.len() > 0
        && crate::text::all_digits(fpart))) && crate::text::digits_val(ipart) <= u64::MAX {
        Some(
            DecV {
                neg,
                int_part: crate::text::digits_val(ipart),
                frac: strip_zeros(frac_digits_of(fpart)),
            },
        )
    } else {
        None
    }
}


/// Checks that `s[from..to]` consists of digits only.
#[verifier::loop_isolation(false)]
fn check_digits(s: &str, from: usize, to: usize) -> (r: bool)
    requires
        from <= to <= s@.len(),
    ensures
        r == crate::text::all_digits(s@.subrange(from as int, to as int)),
{
    let ghost sub = s@.subrange(from as int, to as int);
    let mut p = from;
    while p < to
        invariant
            from <= p <= to,
            forall|j: int| from <= j < p ==> crate::text::is_digit(s@[j]),
        decreases to - p,
    {
        let c = s.get_char(p);
        let cu = c as u32;
        if cu < 48 || cu > 57 {
            proof {
                assert(sub[p - from] == s@[p as int]);
                assert(!crate::text::all_digits(sub));
            }
            return false;
        }
        p = p + 1;
    }
    proof {
        assert(crate::text::all_digits(sub)) by {
            assert(forall|j: int|
                0 <= j < sub.len() ==> sub[j] == s@[j + from] && crate::text::is_digit(
                    s@[j + from],
                ));
        }
    }
    true
}

/// Collects the digit run `s[from..to]` as digit values.
#[verifier::loop_isolation(false)]
fn collect_digits(s: &str, from: usize, to: usize) -> (r: Vec<u8>)
    requires
        from <= to <= s@.len(),
        crate::text::all_digits(s@.subrange(from as int, to as int)),
    ensures
        r@ == frac_digits_of(s@.subrange(from as int, to as int)),
{
    let ghost sub = s@.subrange(from as int, to as int);
    let mut out: Vec<u8> = Vec::new();
    let mut q = from;
    while q < to
        invariant
            from <= q <= to,
            out@.len() == q - from,
            forall|j: int|
                from <= j < q ==> out@[j - from] == crate::text::digit_val(s@[j]) as u8,
        decreases to - q,
    {
        let c = s.get_char(q);
        proof {
            assert(sub[q - from] == s@[q as int]);
        }
        let cu = c as u32;
        out.push((cu - 48) as u8);
        q = q + 1;
    }
    proof {
        assert(out@ =~= frac_digits_of(sub)) by {
            assert(forall|j: int| 0 <= j < sub.len() ==> sub[j] == s@[j + from]);
        }
    }
    out
}

/// Removes trailing zero digits in place.
#[verifier::loop_isolation(false)]
fn strip_trailing_zeros(frac: &mut Vec<u8>)
    ensures
        final(frac)@ == strip_zeros(old(frac)@),
        forall|j: int| 0 <= j < final(frac)@.len() ==> final(frac)@[j] == old(frac)@[j],
        final(frac)@.len() <= old(frac)@.len(),
        final(frac)@.len() > 0 ==> final(frac)@[final(frac)@.len() - 1] != 0,
{
    let ghost frac0 = frac@;
    while frac.len() > 0 && frac[frac.len() - 1] == 0
        invariant
            strip_zeros(frac@) == strip_zeros(frac0),
            forall|j: int| 0 <= j < frac@.len() ==> frac@[j] == frac0[j],
            frac@.len() <= frac0.len(),
        decreases frac@.len(),
    {
        let ghost before = frac@;
        frac.pop();
        proof {
            assert(frac@ =~= before.subrange(0, before.len() - 1));
        }
    }
    proof {
        assert(strip_zeros(frac@) == frac@);
    }
}

/// Parses a decimal under the strict grammar, canonicalizing the result.
#[verifier::loop_isolation(false)]
#[verifier::rlimit(50)]
pub fn parse_dec(s: &str) -> (r: Option<Dec>)
    ensures
        match parse_dec_spec(s@) {
            Some(dv) => r matches Some(d) && d@ == dv && dec_wf(d@),
            None => r is None,
        },
{
    let n = s.unicode_len();
    if n == 0 {
        return None;
    }
    let c0 = s.get_char(0);
    let signed = c0 == '-' || c0 == '+';
    let neg = c0 == '-';
    let start: usize = if signed {
        1
    } else {
        0
    };
    let ghost body = if signed {
        s@.skip(1)
    } else {
        s@
    };
    proof {
        assert(body =~= s@.subrange(start as int, n as int));
    }
    // find the first point, if any
    let mut i = start;
    while i < n && s.get_char(i) != '.'
        invariant
            start <= i <= n,
            forall|j: int| start <= j < i ==> s@[j] != '.',
        decreases n - i,
    {
        i = i + 1;
    }
    let dot = i;
    let ghost k = dot_pos(body);
    proof {
        assert(forall|j: int| 0 <= j < dot - start ==> body[j] == s@[j + start] && s@[j + start]
            != '.');
        if dot < n {
            assert(body[dot - start] == s@[dot as int]);
            lemma_dot_pos(body, dot - start);
        } else {
            lemma_dot_pos(body, body.len() as int);
        }
        assert(k == dot - start);
    }
    if dot <= start {
        // empty integer part
        proof {
            assert(body.subrange(0, k).len() == 0);
        }
        return None;
    }
    // integer digits
    proof {
        assert(body.subrange(0, k) =~= s@.subrange(start as int, dot as int));
    }
    if !check_digits(s, start, dot) {
        return None;
    }
    // fractional digits
    let ghost fpart = if k < body.len() {
        body.subrange(k + 1, body.len() as int)
    } else {
        Seq::<char>::empty()
    };
    let mut frac: Vec<u8> = Vec::new();
    if dot < n {
        if dot + 1 >= n {
            // a point with nothing after it
            proof {
                assert(fpart.len() == 0);
                assert(k < body.len());
            }
            return None;
        }
        proof {
            assert(fpart =~= s@.subrange(dot + 1, n as int));
        }
        if !check_digits(s, dot + 1, n) {
            return None;
        }
        frac = collect_digits(s, dot + 1, n);
    } else {
        proof {
            assert(frac@ =~= frac_digits_of(fpart));
        }
    }
    // canonicalize: strip trailing zeros
    let ghost frac_raw = frac@;
    strip_trailing_zeros(&mut frac);
    proof {
        assert(frac@ == strip_zeros(frac_digits_of(fpart)));
    }
    // integer part
    match crate::text::digits_to_u64(s, start, dot) {
        None => {
            proof {
                assert(s@.subrange(start as int, dot as int) =~= body.subrange(0, k));
            }
            None
        },
        Some(m) => {
            let d = Dec { neg, int_part: m, frac };
            proof {
                assert(s@.subrange(start as int, dot as int) =~= body.subrange(0, k));
                let dv = parse_dec_spec(s@);
                assert(dv matches Some(x) && d@ =~= x);
                assert(forall|j: int| 0 <= j < frac_raw.len() ==> frac_raw[j] <= 9) by {
                    assert(forall|j: int|
                        0 <= j < fpart.len() ==> crate::text::is_digit(#[trigger] fpart[j])
                            && frac_raw[j] == crate::text::digit_val(fpart[j]) as u8);
                }
                assert(dec_wf(d@));
            }
            Some(d)
        },
    }
}


/// The contents of a pair vector.
pub open spec fn pairs_view(s: Seq<(Value, Value)>) -> Seq<(ValueV, ValueV)> {
    Seq::new(s.len(), |i: int| pair_view(s[i]))
}

/// The contents of a value vector.
pub open spec fn values_view(s: Seq<Value>) -> Seq<ValueV> {
    Seq::new(s.len(), |i: int| value_view(s[i]))
}

/// The contents of a mapping-entry vector.
pub open spec fn map_entries_view(s: Seq<MapEntry>) -> Seq<MapEntryV> {
    Seq::new(s.len(), |i: int| map_entry_view(s[i]))
}

/// The contents of an attribute-entry vector.
pub open spec fn attr_entries_view(s: Seq<AttrEntry>) -> Seq<AttrEntryV> {
    Seq::new(s.len(), |i: int| attr_entry_view(s[i]))
}

/// Copies a pair vector; the copy has the same contents.
#[verifier::loop_isolation(false)]
pub fn clone_pairs(pairs: &Vec<(Value, Value)>) -> (r: Vec<(Value, Value)>)
    ensures
        pairs_view(r@) == pairs_view(pairs@),
{
    let mut out: Vec<(Value, Value)> = Vec::new();
    let mut i: usize = 0;
    while i < pairs.len()
        invariant
            0 <= i <= pairs@.len(),
            out@.len() == i,
            forall|j: int| 0 <= j < i ==> #[trigger] pair_view(out@[j]) == pair_view(pairs@[j]),
        decreases pairs@.len() - i,
    {
        let k = clone_value(&pairs[i].0);
        let w = clone_value(&pairs[i].1);
        out.push((k, w));
        i = i + 1;
    }
    proof {
        assert(pairs_view(out@) =~= pairs_view(pairs@));
    }
    out
}

/// The index of the first fault among mapping entries, or the length when
/// every entry is a pair.
pub open spec fn first_map_fault(es: Seq<MapEntryV>) -> int
    decreases es.len(),
{
    if es.len() == 0 {
        0
    } else if es[0] is Fault {
        0
    } else {
        1 + first_map_fault(es.subrange(1, es.len() as int))
    }
}

pub proof fn lemma_first_map_fault(es: Seq<MapEntryV>, k: int)
    requires
        0 <= k <= es.len(),
        forall|j: int| 0 <= j < k ==> !(es[j] is Fault),
        k < es.len() ==> es[k] is Fault,
    ensures
        first_map_fault(es) == k,
    decreases k,
{
    if k == 0 {
        if es.len() > 0 && !(es[0] is Fault) {
            assert(k < es.len());
        }
    } else {
        let rest = es.subrange(1, es.len() as int);
        assert(forall|j: int| 0 <= j < k - 1 ==> rest[j] == es[j + 1] && !(es[j + 1] is Fault));
        assert(k - 1 < rest.len() ==> rest[k - 1] == es[k as int]);
        lemma_first_map_fault(rest, k - 1);
    }
}

/// The index of the first fault among attribute entries, or the length.
pub open spec fn first_attr_fault(es: Seq<AttrEntryV>) -> int
    decreases es.len(),
{
    if es.len() == 0 {
        0
    } else if es[0] is Fault {
        0
    } else {
        1 + first_attr_fault(es.subrange(1, es.len() as int))
    }
}

pub proof fn lemma_first_attr_fault(es: Seq<AttrEntryV>, k: int)
    requires
        0 <= k <= es.len(),
        forall|j: int| 0 <= j < k ==> !(es[j] is Fault),
        k < es.len() ==> es[k] is Fault,
    ensures
        first_attr_fault(es) == k,
    decreases k,
{
    if k == 0 {
        if es.len() > 0 && !(es[0] is Fault) {
            assert(k < es.len());
        }
    } else {
        let rest = es.subrange(1, es.len() as int);
        assert(forall|j: int| 0 <= j < k - 1 ==> rest[j] == es[j + 1] && !(es[j + 1] is Fault));
        assert(k - 1 < rest.len() ==> rest[k - 1] == es[k as int]);
        lemma_first_attr_fault(rest, k - 1);
    }
}

/// Whether an attribute name is private: it begins with the underscore
/// privacy marker.
pub open spec fn is_private_name(n: Seq<char>) -> bool {
    n.len() > 0 && n[0] == '_'
}

/// The synthetic mapping produced by attribute reflection: one pair per
/// public attribute, in order, with each attribute value kept unchanged.
pub open spec fn public_attrs(es: Seq<AttrEntryV>) -> Seq<(ValueV, ValueV)>
    decreases es.len(),
{
    if es.len() == 0 {
        Seq::<(ValueV, ValueV)>::empty()
    } else {
        let rest = public_attrs(es.subrange(1, es.len() as int));
        match es[0] {
            AttrEntryV::Attr(n, w) => if is_private_name(n) {
                rest
            } else {
                seq![(ValueV::Str(n), w)] + rest
            },
            AttrEntryV::Fault(_) => rest,
        }
    }
}

/// Attribute reflection is one-shot: every pair of the synthesized mapping
/// is exactly one public attribute's name and its value, unchanged -- even
/// when that value is itself a reflectable object.
pub proof fn lemma_reflection_one_level(es: Seq<AttrEntryV>, j: int)
    requires
        0 <= j < public_attrs(es).len(),
    ensures
        exists|i: int|
            0 <= i < es.len() && ((#[trigger] es[i]) matches AttrEntryV::Attr(n, w) && !is_private_name(n)
                && public_attrs(es)[j] == (ValueV::Str(n), w)),
    decreases es.len(),
{
    let rest = es.subrange(1, es.len() as int);
    match es[0] {
        AttrEntryV::Attr(n, w) => {
            if is_private_name(n) {
                lemma_reflection_one_level(rest, j);
                let i0 = choose|i: int|
                    0 <= i < rest.len() && ((#[trigger] rest[i]) matches AttrEntryV::Attr(n2, w2)
                        && !is_private_name(n2) && public_attrs(rest)[j] == (ValueV::Str(n2), w2));
                assert(es[i0 + 1] == rest[i0]);
            } else {
                if j == 0 {
                    assert(es[0] matches AttrEntryV::Attr(n2, w2) && !is_private_name(n2)
                        && public_attrs(es)[0] == (ValueV::Str(n2), w2));
                } else {
                    lemma_reflection_one_level(rest, j - 1);
                    let i0 = choose|i: int|
                        0 <= i < rest.len() && ((#[trigger] rest[i]) matches AttrEntryV::Attr(n2, w2)
                            && !is_private_name(n2) && public_attrs(rest)[j - 1] == (
                        ValueV::Str(n2),
                        w2,
                    ));
                    assert(es[i0 + 1] == rest[i0]);
                }
            }
        },
        AttrEntryV::Fault(_) => {
            lemma_reflection_one_level(rest, j);
            let i0 = choose|i: int|
                0 <= i < rest.len() && ((#[trigger] rest[i]) matches AttrEntryV::Attr(n2, w2)
                    && !is_private_name(n2) && public_attrs(rest)[j] == (ValueV::Str(n2), w2));
            assert(es[i0 + 1] == rest[i0]);
        },
    }
}


/// The character for one hexadecimal digit.
pub open spec fn hex_char(d: int) -> char {
    if d < 10 {
        digit_char(d)
    } else if d == 10 {
        'a'
    } else if d == 11 {
        'b'
    } else if d == 12 {
        'c'
    } else if d == 13 {
        'd'
    } else if d == 14 {
        'e'
    } else {
        'f'
    }
}

fn hex_str(d: u64) -> (r: &'static str)
    requires
        d < 16,
    ensures
        r@ == seq![hex_char(d as int)],
{
    proof {
        reveal_strlit("a");
        reveal_strlit("b");
        reveal_strlit("c");
        reveal_strlit("d");
        reveal_strlit("e");
        reveal_strlit("f");
    }
    if d < 10 {
        crate::text::digit_str(d)
    } else {
        match d {
            10 => "a",
            11 => "b",
            12 => "c",
            13 => "d",
            14 => "e",
            _ => "f",
        }
    }
}

/// The escape text of one byte: a backslash-x escape with two hex digits.
pub open spec fn byte_escape(x: u8) -> Seq<char> {
    seq!['\\', 'x', hex_char(x as int / 16), hex_char(x as int % 16)]
}

/// The escape text of the bytes `b[i..]`.
pub open spec fn bytes_text_from(b: Seq<u8>, i: int) -> Seq<char>
    decreases b.len() - i,
{
    if i < 0 || i >= b.len() {
        Seq::<char>::empty()
    } else {
        byte_escape(b[i]) + bytes_text_from(b, i + 1)
    }
}

/// The textual form of a value, used for echoing it in a report. Strings
/// are quoted without escaping, bytes are shown byte by byte as hex
/// escapes, and a container is summarized by its type alone.
pub open spec fn repr_spec(v: ValueV) -> Seq<char> {
    match v {
        ValueV::Null => "None"@,
        ValueV::Bool(b) => if b {
            "True"@
        } else {
            "False"@
        },
        ValueV::Int(i) => int_text(i),
        ValueV::Float(d) => dec_text(d),
        ValueV::Str(s) => seq!['\''] + s + seq!['\''],
        ValueV::Bytes(b) => "b'"@ + bytes_text_from(b, 0) + seq!['\''],
        ValueV::Dict(_) => "<dict>"@,
        ValueV::List(_) => "<list>"@,
        ValueV::Tuple(_) => "<tuple>"@,
        ValueV::SetVal(_) => "<set>"@,
        ValueV::FrozenSet(_) => "<frozenset>"@,
        ValueV::Mapping(_) => "<mapping>"@,
        ValueV::Instance(_) => "<object>"@,
    }
}

impl Value {
    /// The textual form of this value, for echoing it in a report.
    #[verifier::loop_isolation(false)]
    pub fn repr(&self) -> (r: String)
        ensures
            r@ == repr_spec(self@),
    {
        match self {
            Value::Null => String::from_str("None"),
            Value::Bool(b) => {
                if *b {
                    String::from_str("True")
                } else {
                    String::from_str("False")
                }
            },
            Value::Int(i) => crate::text::i64_to_string(*i),
            Value::Float(d) => dec_to_string(d),
            Value::Str(s) => {
                let mut out = String::from_str("'");
                out.append(s.as_str());
                out.append("'");
                proof {
                    reveal_strlit("'");
                    assert(out@ =~= repr_spec(self@));
                }
                out
            },
            Value::Bytes(b) => {
                let mut out = String::from_str("b'");
                let mut i: usize = 0;
                while i < b.len()
                    invariant
                        0 <= i <= b@.len(),
                        out@ + bytes_text_from(b@, i as int) == "b'"@ + bytes_text_from(b@, 0),
                    decreases b@.len() - i,
                {
                    let ghost pre = out@;
                    let x = b[i];
                    out.append("\\x");
                    out.append(hex_str((x / 16) as u64));
                    out.append(hex_str((x % 16) as u64));
                    proof {
                        reveal_strlit("\\x");
                        let ghost esc = byte_escape(b@[i as int]);
                        assert(bytes_text_from(b@, i as int) == esc + bytes_text_from(b@, i + 1));
                        assert(out@ =~= pre + esc);
                        assert(out@ + bytes_text_from(b@, i + 1) =~= pre + bytes_text_from(
                            b@,
                            i as int,
                        ));
                    }
                    i = i + 1;
                }
                out.append("'");
                proof {
                    reveal_strlit("'");
                    assert(bytes_text_from(b@, b@.len() as int) == Seq::<char>::empty());
                    assert(out@ =~= repr_spec(self@));
                }
                out
            },
            Value::Dict(_) => String::from_str("<dict>"),
            Value::List(_) => String::from_str("<list>"),
            Value::Tuple(_) => String::from_str("<tuple>"),
            Value::SetVal(_) => String::from_str("<set>"),
            Value::FrozenSet(_) => String::from_str("<frozenset>"),
            Value::Mapping(_) => String::from_str("<mapping>"),
            Value::Instance(_) => String::from_str("<object>"),
        }
    }
}

} // verus!
