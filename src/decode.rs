use vstd::prelude::*;
use crate::value::{
    lemma_view_list, lemma_view_named, lemma_view_pairs,
    DecodedValue, Fields, FieldsModel, ValueModel, view_list, view_named, view_pairs,
    view_value,
};

verus! {

broadcast use vstd::std_specs::vec::group_vec_axioms;

pub const TYPE_UNIT: u8 = 0x00;
pub const TYPE_BOOL: u8 = 0x01;
pub const TYPE_I8: u8 = 0x02;
pub const TYPE_I16: u8 = 0x03;
pub const TYPE_I32: u8 = 0x04;
pub const TYPE_I64: u8 = 0x05;
pub const TYPE_I128: u8 = 0x06;
pub const TYPE_U8: u8 = 0x07;
pub const TYPE_U16: u8 = 0x08;
pub const TYPE_U32: u8 = 0x09;
pub const TYPE_U64: u8 = 0x0a;
pub const TYPE_U128: u8 = 0x0b;
pub const TYPE_STRING: u8 = 0x0c;
pub const TYPE_STRUCT: u8 = 0x10;
pub const TYPE_ENUM: u8 = 0x11;
pub const TYPE_FIELDS_NAMED: u8 = 0x12;
pub const TYPE_FIELDS_UNNAMED: u8 = 0x13;
pub const TYPE_FIELDS_UNIT: u8 = 0x14;
pub const TYPE_OPTION: u8 = 0x20;
pub const TYPE_BOX: u8 = 0x21;
pub const TYPE_ARRAY: u8 = 0x22;
pub const TYPE_TUPLE: u8 = 0x23;
pub const TYPE_RESULT: u8 = 0x24;
pub const TYPE_VEC: u8 = 0x30;
pub const TYPE_TREE_SET: u8 = 0x31;
pub const TYPE_TREE_MAP: u8 = 0x32;
pub const TYPE_HASH_SET: u8 = 0x33;
pub const TYPE_HASH_MAP: u8 = 0x34;
/// Tags from here up name the domain extension types, each carried as length-prefixed bytes.
pub const TYPE_CUSTOM_START: u8 = 0x80;

/// Why a byte buffer does not hold a value.
#[derive(Debug, Clone, Copy, PartialEq, Eq, Structural)]
pub enum DecodeError {
    /// The buffer ends before `required` more bytes; only `remaining` are left.
    Underflow { required: usize, remaining: usize },
    /// A type tag that is not defined here, or not the one the context asks for.
    InvalidType { expected: Option<u8>, actual: u8 },
    /// A boolean byte other than 0 or 1.
    InvalidBool(u8),
    /// An option or result discriminator other than 0 or 1.
    InvalidIndex(u8),
    /// String bytes that are not UTF-8.
    InvalidUtf8,
    /// Bytes of a domain extension type that do not have its layout.
    InvalidCustomData(u8),
    /// Bytes left over after the value.
    NotAllBytesUsed(usize),
    /// Lazy maps that refer to each other deeper than the ledger holds maps.
    NestingTooDeep,
}

pub type ParsedText = Result<(Seq<char>, int), DecodeError>;
pub type ParsedValue = Result<(ValueModel, int), DecodeError>;
pub type ParsedFields = Result<(FieldsModel, int), DecodeError>;
pub type ParsedList = Result<(Seq<ValueModel>, int), DecodeError>;
pub type ParsedPairs = Result<(Seq<(ValueModel, ValueModel)>, int), DecodeError>;
pub type ParsedNamed = Result<(Seq<(Seq<char>, ValueModel)>, int), DecodeError>;

/// Whether `t` is the tag of a value (fields tags are not).
pub open spec fn is_value_tag(t: u8) -> bool {
    t <= TYPE_STRING || (TYPE_STRUCT <= t <= TYPE_ENUM) || (TYPE_OPTION <= t <= TYPE_RESULT)
        || (TYPE_VEC <= t <= TYPE_HASH_MAP) || t >= TYPE_CUSTOM_START
}

/// The little-endian number held by `s`.
pub open spec fn le_nat(s: Seq<u8>) -> nat
    decreases s.len(),
{
    if s.len() == 0 {
        0
    } else {
        s[0] as nat + 256 * le_nat(s.drop_first())
    }
}

pub open spec fn pow256(k: nat) -> nat
    decreases k,
{
    if k == 0 { 1 } else { 256 * pow256((k - 1) as nat) }
}

/// The error for a buffer of which fewer than `n` bytes remain after `pos`.
pub open spec fn underflow(d: Seq<u8>, pos: int, n: int) -> DecodeError {
    DecodeError::Underflow { required: n as usize, remaining: (d.len() - pos) as usize }
}

/// Whether `n` bytes can be read at `pos`.
pub open spec fn fits(d: Seq<u8>, pos: int, n: int) -> bool {
    pos + n <= d.len()
}

/// The little-endian number of `n` bytes at `pos`.
pub open spec fn le_at(d: Seq<u8>, pos: int, n: int) -> nat {
    le_nat(d.subrange(pos, pos + n))
}

/// The characters of UTF-8 bytes, or `None` where they are not UTF-8.
pub uninterp spec fn utf8_chars(b: Seq<u8>) -> Option<Seq<char>>;

/// A length-prefixed UTF-8 string at `pos`, and the position after it.
pub open spec fn parse_string(d: Seq<u8>, pos: int) -> Result<(Seq<char>, int), DecodeError> {
    if !fits(d, pos, 4) {
        Err(underflow(d, pos, 4))
    } else {
        let n = le_at(d, pos, 4) as int;
        if !fits(d, pos + 4, n) {
            Err(underflow(d, pos + 4, n))
        } else {
            match utf8_chars(d.subrange(pos + 4, pos + 4 + n)) {
                Some(s) => Ok((s, pos + 4 + n)),
                None => Err(DecodeError::InvalidUtf8),
            }
        }
    }
}

/// The tagged value at `pos`, and the position after it.
pub open spec fn parse_value(d: Seq<u8>, pos: int) -> Result<(ValueModel, int), DecodeError>
    decreases d.len() - pos, 0int, 0int,
{
    if pos < 0 || pos > d.len() {
        Err(underflow(d, pos, 1))
    } else if !fits(d, pos, 1) {
        Err(underflow(d, pos, 1))
    } else {
        parse_body(d, pos + 1, d[pos])
    }
}

/// The fields of a struct or an enum variant at `pos`, and the position after them.
pub open spec fn parse_fields(d: Seq<u8>, pos: int) -> Result<(FieldsModel, int), DecodeError>
    decreases d.len() - pos, 0int, 1int,
{
    if pos < 0 || pos > d.len() {
        Err(underflow(d, pos, 1))
    } else if !fits(d, pos, 1) {
        Err(underflow(d, pos, 1))
    } else if d[pos] == TYPE_FIELDS_UNIT {
        Ok((FieldsModel::Unit, pos + 1))
    } else if d[pos] != TYPE_FIELDS_NAMED && d[pos] != TYPE_FIELDS_UNNAMED {
        Err(DecodeError::InvalidType { expected: None, actual: d[pos] })
    } else if !fits(d, pos + 1, 4) {
        Err(underflow(d, pos + 1, 4))
    } else {
        let n = le_at(d, pos + 1, 4);
        if d[pos] == TYPE_FIELDS_NAMED {
            match parse_named(d, pos + 5, n) {
                Ok((fs, p)) => Ok((FieldsModel::Named(fs), p)),
                Err(e) => Err(e),
            }
        } else {
            match parse_values(d, pos + 5, n) {
                Ok((vs, p)) => Ok((FieldsModel::Unnamed(vs), p)),
                Err(e) => Err(e),
            }
        }
    }
}

/// `n` named fields at `pos`: each a length-prefixed name and a tagged value.
pub open spec fn parse_named(d: Seq<u8>, pos: int, n: nat) -> Result<(Seq<(Seq<char>, ValueModel)>, int), DecodeError>
    decreases d.len() - pos, 2int, n,
{
    if pos < 0 || pos > d.len() {
        Err(underflow(d, pos, 1))
    } else if n == 0 {
        Ok((Seq::empty(), pos))
    } else {
        match parse_string(d, pos) {
            Err(e) => Err(e),
            Ok((name, p1)) => {
                if p1 <= pos || p1 > d.len() {
                    Err(underflow(d, pos, 1))
                } else {
                    match parse_value(d, p1) {
                        Err(e) => Err(e),
                        Ok((v, p2)) => {
                            if p2 <= pos || p2 > d.len() {
                                Err(underflow(d, pos, 1))
                            } else {
                                match parse_named(d, p2, (n - 1) as nat) {
                                    Err(e) => Err(e),
                                    Ok((rest, p3)) => Ok((seq![(name, v)] + rest, p3)),
                                }
                            }
                        }
                    }
                }
            }
        }
    }
}

/// `n` tagged values at `pos`.
///
/// Here and in the other sequence parsers, a check that each item ends at or after where it began
/// makes the recursion's progress evident; every item does so (the decoder's own contracts show it
/// of each item it reads), so the check never rejects input.
pub open spec fn parse_values(d: Seq<u8>, pos: int, n: nat) -> Result<(Seq<ValueModel>, int), DecodeError>
    decreases d.len() - pos, 2int, n,
{
    if pos < 0 || pos > d.len() {
        Err(underflow(d, pos, 1))
    } else if n == 0 {
        Ok((Seq::empty(), pos))
    } else {
        match parse_value(d, pos) {
            Err(e) => Err(e),
            Ok((v, p1)) => {
                if p1 < pos || p1 > d.len() {
                    Err(underflow(d, pos, 1))
                } else {
                    match parse_values(d, p1, (n - 1) as nat) {
                        Err(e) => Err(e),
                        Ok((rest, p2)) => Ok((seq![v] + rest, p2)),
                    }
                }
            }
        }
    }
}

/// `n` untagged values of type `t` at `pos`: the elements of a collection.
pub open spec fn parse_elems(d: Seq<u8>, pos: int, t: u8, n: nat) -> Result<(Seq<ValueModel>, int), DecodeError>
    decreases d.len() - pos, 2int, n,
{
    if pos < 0 || pos > d.len() {
        Err(underflow(d, pos, 1))
    } else if n == 0 {
        Ok((Seq::empty(), pos))
    } else {
        match parse_body(d, pos, t) {
            Err(e) => Err(e),
            Ok((v, p1)) => {
                if p1 < pos || p1 > d.len() {
                    Err(underflow(d, pos, 1))
                } else {
                    match parse_elems(d, p1, t, (n - 1) as nat) {
                        Err(e) => Err(e),
                        Ok((rest, p2)) => Ok((seq![v] + rest, p2)),
                    }
                }
            }
        }
    }
}

/// `n` untagged key/value pairs of types `kt` and `vt` at `pos`: the entries of a map.
pub open spec fn parse_pairs(d: Seq<u8>, pos: int, kt: u8, vt: u8, n: nat) -> Result<(Seq<(ValueModel, ValueModel)>, int), DecodeError>
    decreases d.len() - pos, 2int, n,
{
    if pos < 0 || pos > d.len() {
        Err(underflow(d, pos, 1))
    } else if n == 0 {
        Ok((Seq::empty(), pos))
    } else {
        match parse_body(d, pos, kt) {
            Err(e) => Err(e),
            Ok((k, p1)) => {
                if p1 < pos || p1 > d.len() {
                    Err(underflow(d, pos, 1))
                } else {
                    match parse_body(d, p1, vt) {
                        Err(e) => Err(e),
                        Ok((v, p2)) => {
                            if p2 < pos || p2 > d.len() {
                                Err(underflow(d, pos, 1))
                            } else {
                                match parse_pairs(d, p2, kt, vt, (n - 1) as nat) {
                                    Err(e) => Err(e),
                                    Ok((rest, p3)) => Ok((seq![(k, v)] + rest, p3)),
                                }
                            }
                        }
                    }
                }
            }
        }
    }
}

/// The payload of a value of type `tag` at `pos`, and the position after it.
pub open spec fn parse_body(d: Seq<u8>, pos: int, tag: u8) -> Result<(ValueModel, int), DecodeError>
    decreases d.len() - pos, 1int, 0int,
{
    if pos < 0 || pos > d.len() {
        Err(underflow(d, pos, 1))
    } else if tag == TYPE_UNIT {
        Ok((ValueModel::Unit, pos))
    } else if tag == TYPE_BOOL {
        if !fits(d, pos, 1) {
            Err(underflow(d, pos, 1))
        } else if d[pos] == 0 {
            Ok((ValueModel::Bool(false), pos + 1))
        } else if d[pos] == 1 {
            Ok((ValueModel::Bool(true), pos + 1))
        } else {
            Err(DecodeError::InvalidBool(d[pos]))
        }
    } else if TYPE_I8 <= tag <= TYPE_U128 {
        let w = int_width(tag);
        if !fits(d, pos, w) {
            Err(underflow(d, pos, w))
        } else {
            Ok((int_model(tag, le_at(d, pos, w)), pos + w))
        }
    } else if tag == TYPE_STRING {
        match parse_string(d, pos) {
            Ok((s, p)) => Ok((ValueModel::String(s), p)),
            Err(e) => Err(e),
        }
    } else if tag == TYPE_STRUCT {
        match parse_fields(d, pos) {
            Ok((f, p)) => Ok((ValueModel::Struct(f), p)),
            Err(e) => Err(e),
        }
    } else if tag == TYPE_ENUM {
        if !fits(d, pos, 1) {
            Err(underflow(d, pos, 1))
        } else {
            match parse_fields(d, pos + 1) {
                Ok((f, p)) => Ok((ValueModel::Enum(d[pos], f), p)),
                Err(e) => Err(e),
            }
        }
    } else if tag == TYPE_OPTION || tag == TYPE_RESULT {
        if !fits(d, pos, 1) {
            Err(underflow(d, pos, 1))
        } else if d[pos] > 1 {
            Err(DecodeError::InvalidIndex(d[pos]))
        } else if tag == TYPE_OPTION && d[pos] == 0 {
            Ok((ValueModel::Option(None), pos + 1))
        } else {
            match parse_value(d, pos + 1) {
                Err(e) => Err(e),
                Ok((v, p)) => if tag == TYPE_OPTION {
                    Ok((ValueModel::Option(Some(Box::new(v))), p))
                } else if d[pos] == 0 {
                    Ok((ValueModel::Result(Box::new(Ok(v))), p))
                } else {
                    Ok((ValueModel::Result(Box::new(Err(v))), p))
                },
            }
        }
    } else if tag == TYPE_BOX {
        match parse_value(d, pos) {
            Ok((v, p)) => Ok((ValueModel::Box(Box::new(v)), p)),
            Err(e) => Err(e),
        }
    } else if tag == TYPE_TUPLE {
        if !fits(d, pos, 4) {
            Err(underflow(d, pos, 4))
        } else {
            match parse_values(d, pos + 4, le_at(d, pos, 4)) {
                Ok((vs, p)) => Ok((ValueModel::Tuple(vs), p)),
                Err(e) => Err(e),
            }
        }
    } else if tag == TYPE_ARRAY || tag == TYPE_VEC || tag == TYPE_TREE_SET || tag == TYPE_HASH_SET {
        if !fits(d, pos, 5) {
            Err(underflow(d, pos, 5))
        } else if !is_value_tag(d[pos]) {
            Err(DecodeError::InvalidType { expected: None, actual: d[pos] })
        } else {
            let t = d[pos];
            match parse_elems(d, pos + 5, t, le_at(d, pos + 1, 4)) {
                Err(e) => Err(e),
                Ok((vs, p)) => Ok((
                    if tag == TYPE_ARRAY {
                        ValueModel::Array(t, vs)
                    } else if tag == TYPE_VEC {
                        ValueModel::Vec(t, vs)
                    } else if tag == TYPE_TREE_SET {
                        ValueModel::TreeSet(t, vs)
                    } else {
                        ValueModel::HashSet(t, vs)
                    },
                    p,
                )),
            }
        }
    } else if tag == TYPE_TREE_MAP || tag == TYPE_HASH_MAP {
        if !fits(d, pos, 6) {
            Err(underflow(d, pos, 6))
        } else if !is_value_tag(d[pos]) {
            Err(DecodeError::InvalidType { expected: None, actual: d[pos] })
        } else if !is_value_tag(d[pos + 1]) {
            Err(DecodeError::InvalidType { expected: None, actual: d[pos + 1] })
        } else {
            let kt = d[pos];
            let vt = d[pos + 1];
            match parse_pairs(d, pos + 6, kt, vt, le_at(d, pos + 2, 4)) {
                Err(e) => Err(e),
                Ok((es, p)) => Ok((
                    if tag == TYPE_TREE_MAP {
                        ValueModel::TreeMap(kt, vt, es)
                    } else {
                        ValueModel::HashMap(kt, vt, es)
                    },
                    p,
                )),
            }
        }
    } else if tag >= TYPE_CUSTOM_START {
        if !fits(d, pos, 4) {
            Err(underflow(d, pos, 4))
        } else {
            let n = le_at(d, pos, 4) as int;
            if !fits(d, pos + 4, n) {
                Err(underflow(d, pos + 4, n))
            } else {
                Ok((ValueModel::Custom(tag, d.subrange(pos + 4, pos + 4 + n)), pos + 4 + n))
            }
        }
    } else {
        Err(DecodeError::InvalidType { expected: None, actual: tag })
    }
}

/// The number of bytes of an integer type.
pub open spec fn int_width(tag: u8) -> int {
    if tag == TYPE_I8 || tag == TYPE_U8 { 1 }
    else if tag == TYPE_I16 || tag == TYPE_U16 { 2 }
    else if tag == TYPE_I32 || tag == TYPE_U32 { 4 }
    else if tag == TYPE_I64 || tag == TYPE_U64 { 8 }
    else { 16 }
}

/// The integer of type `tag` whose little-endian bytes read as `n` (two's complement if signed).
pub open spec fn int_model(tag: u8, n: nat) -> ValueModel {
    if tag == TYPE_I8 { ValueModel::I8((n as u8) as i8) }
    else if tag == TYPE_I16 { ValueModel::I16((n as u16) as i16) }
    else if tag == TYPE_I32 { ValueModel::I32((n as u32) as i32) }
    else if tag == TYPE_I64 { ValueModel::I64((n as u64) as i64) }
    else if tag == TYPE_I128 { ValueModel::I128((n as u128) as i128) }
    else if tag == TYPE_U8 { ValueModel::U8(n as u8) }
    else if tag == TYPE_U16 { ValueModel::U16(n as u16) }
    else if tag == TYPE_U32 { ValueModel::U32(n as u32) }
    else if tag == TYPE_U64 { ValueModel::U64(n as u64) }
    else { ValueModel::U128(n as u128) }
}

/// The value that all of `d` holds: the first value, which must use every byte.
pub open spec fn parse_all(d: Seq<u8>) -> Result<ValueModel, DecodeError> {
    match parse_value(d, 0) {
        Ok((v, p)) => if p == d.len() {
            Ok(v)
        } else {
            Err(DecodeError::NotAllBytesUsed((d.len() - p) as usize))
        },
        Err(e) => Err(e),
    }
}

/// Relies on std::str::from_utf8: the characters of the bytes, where they are UTF-8.
#[verifier::external_body]
fn utf8_string(b: &[u8]) -> (r: Option<String>)
    ensures
        match r {
            Some(s) => utf8_chars(b@) == Some(s@),
            None => utf8_chars(b@) is None,
        },
{
    match std::str::from_utf8(b) {
        Ok(s) => Some(s.to_string()),
        Err(_) => None,
    }
}

proof fn lemma_le_bound(s: Seq<u8>)
    ensures
        le_nat(s) < pow256(s.len()),
    decreases s.len(),
{
    if s.len() > 0 {
        lemma_le_bound(s.drop_first());
    }
}

proof fn lemma_pow256_mono(a: nat, b: nat)
    requires
        a <= b,
    ensures
        pow256(a) <= pow256(b),
    decreases b,
{
    if a < b {
        lemma_pow256_mono(a, (b - 1) as nat);
    }
}

/// The little-endian number of `n` bytes at `pos`.
fn read_le(d: &[u8], pos: usize, n: usize) -> (r: u128)
    requires
        pos + n <= d@.len(),
        n <= 16,
    ensures
        r == le_at(d@, pos as int, n as int),
{
    proof {
        reveal_with_fuel(pow256, 17);
        assert(pow256(16) == 0x1_0000_0000_0000_0000_0000_0000_0000_0000);
    }
    let len = d.len();
    let mut acc: u128 = 0;
    let mut i: usize = n;
    assert(d@.subrange(pos + n, pos + n) =~= Seq::<u8>::empty());
    while i > 0
        invariant
            pos + n <= d@.len(),
            d@.len() == len,
            n <= 16,
            i <= n,
            acc == le_nat(d@.subrange(pos + i, pos + n)),
            acc < pow256((n - i) as nat),
            pow256(16) == 0x1_0000_0000_0000_0000_0000_0000_0000_0000,
        decreases i,
    {
        let b = d[pos + (i - 1)];
        proof {
            lemma_pow256_mono((n - i + 1) as nat, 16);
            let s = d@.subrange(pos + i - 1, pos + n);
            assert(s.drop_first() =~= d@.subrange(pos + i, pos + n));
        }
        acc = acc * 256 + b as u128;
        i = i - 1;
    }
    acc
}

/// A copy of the bytes from `from` up to `to`.
pub(crate) fn copy_bytes(d: &[u8], from: usize, to: usize) -> (r: Vec<u8>)
    requires
        from <= to <= d@.len(),
    ensures
        r@ == d@.subrange(from as int, to as int),
{
    let mut r: Vec<u8> = Vec::new();
    let mut i: usize = from;
    while i < to
        invariant
            from <= i <= to <= d@.len(),
            r@ == d@.subrange(from as int, i as int),
        decreases to - i,
    {
        r.push(d[i]);
        i = i + 1;
        assert(r@ =~= d@.subrange(from as int, i as int));
    }
    r
}

/// A length-prefixed UTF-8 string at `pos`.
fn decode_string(d: &[u8], pos: usize) -> (r: Result<(String, usize), DecodeError>)
    requires
        pos <= d@.len(),
    ensures
        match r {
            Ok((s, p)) => parse_string(d@, pos as int) == ParsedText::Ok((s@, p as int)) && pos + 4 <= p <= d@.len(),
            Err(e) => parse_string(d@, pos as int) == ParsedText::Err(e),
        },
{
    if d.len() - pos < 4 {
        return Err(DecodeError::Underflow { required: 4, remaining: d.len() - pos });
    }
    let n = read_le(d, pos, 4);
    proof {
        lemma_le_bound(d@.subrange(pos as int, pos + 4));
        reveal_with_fuel(pow256, 5);
    }
    let n = n as usize;
    if d.len() - (pos + 4) < n {
        return Err(DecodeError::Underflow { required: n, remaining: d.len() - (pos + 4) });
    }
    let bytes = copy_bytes(d, pos + 4, pos + 4 + n);
    match utf8_string(bytes.as_slice()) {
        Some(s) => Ok((s, pos + 4 + n)),
        None => Err(DecodeError::InvalidUtf8),
    }
}

} // verus!

verus! {

pub open spec fn value_result(r: Result<(DecodedValue, usize), DecodeError>, s: ParsedValue) -> bool {
    match r {
        Ok((v, p)) => s == ParsedValue::Ok((v@, p as int)),
        Err(e) => s == ParsedValue::Err(e),
    }
}

pub open spec fn fields_result(r: Result<(Fields, usize), DecodeError>, s: ParsedFields) -> bool {
    match r {
        Ok((f, p)) => s == ParsedFields::Ok((f@, p as int)),
        Err(e) => s == ParsedFields::Err(e),
    }
}

pub open spec fn list_result(r: Result<(Vec<DecodedValue>, usize), DecodeError>, s: ParsedList) -> bool {
    match r {
        Ok((vs, p)) => s == ParsedList::Ok((view_list(vs, vs.len() as nat), p as int)),
        Err(e) => s == ParsedList::Err(e),
    }
}

pub open spec fn pairs_result(r: Result<(Vec<(DecodedValue, DecodedValue)>, usize), DecodeError>, s: ParsedPairs) -> bool {
    match r {
        Ok((vs, p)) => s == ParsedPairs::Ok((view_pairs(vs, vs.len() as nat), p as int)),
        Err(e) => s == ParsedPairs::Err(e),
    }
}

pub open spec fn named_result(r: Result<(Vec<(String, DecodedValue)>, usize), DecodeError>, s: ParsedNamed) -> bool {
    match r {
        Ok((vs, p)) => s == ParsedNamed::Ok((view_named(vs, vs.len() as nat), p as int)),
        Err(e) => s == ParsedNamed::Err(e),
    }
}

/// The little-endian 32-bit number at `pos`.
pub(crate) fn read_u32(d: &[u8], pos: usize) -> (r: u32)
    requires
        pos + 4 <= d@.len(),
    ensures
        r as nat == le_at(d@, pos as int, 4),
{
    let n = read_le(d, pos, 4);
    proof {
        lemma_le_bound(d@.subrange(pos as int, pos + 4));
        reveal_with_fuel(pow256, 5);
    }
    n as u32
}

fn is_value_tag_exec(t: u8) -> (r: bool)
    ensures
        r == is_value_tag(t),
{
    t <= TYPE_STRING || (TYPE_STRUCT <= t && t <= TYPE_ENUM) || (TYPE_OPTION <= t && t <= TYPE_RESULT)
        || (TYPE_VEC <= t && t <= TYPE_HASH_MAP) || t >= TYPE_CUSTOM_START
}

fn int_width_exec(tag: u8) -> (r: usize)
    ensures
        r as int == int_width(tag),
        r <= 16,
{
    if tag == TYPE_I8 || tag == TYPE_U8 { 1 }
    else if tag == TYPE_I16 || tag == TYPE_U16 { 2 }
    else if tag == TYPE_I32 || tag == TYPE_U32 { 4 }
    else if tag == TYPE_I64 || tag == TYPE_U64 { 8 }
    else { 16 }
}

fn int_value(tag: u8, raw: u128) -> (r: DecodedValue)
    ensures
        r@ == int_model(tag, raw as nat),
{
    if tag == TYPE_I8 { DecodedValue::I8((raw as u8) as i8) }
    else if tag == TYPE_I16 { DecodedValue::I16((raw as u16) as i16) }
    else if tag == TYPE_I32 { DecodedValue::I32((raw as u32) as i32) }
    else if tag == TYPE_I64 { DecodedValue::I64((raw as u64) as i64) }
    else if tag == TYPE_I128 { DecodedValue::I128(raw as i128) }
    else if tag == TYPE_U8 { DecodedValue::U8(raw as u8) }
    else if tag == TYPE_U16 { DecodedValue::U16(raw as u16) }
    else if tag == TYPE_U32 { DecodedValue::U32(raw as u32) }
    else if tag == TYPE_U64 { DecodedValue::U64(raw as u64) }
    else { DecodedValue::U128(raw) }
}

/// Decodes the tagged value at `pos`; returns it with the position after it.
pub fn decode_value(d: &[u8], pos: usize) -> (r: Result<(DecodedValue, usize), DecodeError>)
    requires
        pos <= d@.len(),
    ensures
        value_result(r, parse_value(d@, pos as int)),
        r matches Ok((_, p)) ==> pos < p <= d@.len(),
    decreases d@.len() - pos, 0int, 0int,
{
    if d.len() - pos < 1 {
        return Err(DecodeError::Underflow { required: 1, remaining: d.len() - pos });
    }
    decode_body(d, pos + 1, d[pos])
}

fn decode_fields(d: &[u8], pos: usize) -> (r: Result<(Fields, usize), DecodeError>)
    requires
        pos <= d@.len(),
    ensures
        fields_result(r, parse_fields(d@, pos as int)),
        r matches Ok((_, p)) ==> pos < p <= d@.len(),
    decreases d@.len() - pos, 0int, 1int,
{
    let rem = d.len() - pos;
    if rem < 1 {
        return Err(DecodeError::Underflow { required: 1, remaining: rem });
    }
    let t = d[pos];
    if t == TYPE_FIELDS_UNIT {
        return Ok((Fields::Unit, pos + 1));
    }
    if t != TYPE_FIELDS_NAMED && t != TYPE_FIELDS_UNNAMED {
        return Err(DecodeError::InvalidType { expected: None, actual: t });
    }
    if rem - 1 < 4 {
        return Err(DecodeError::Underflow { required: 4, remaining: rem - 1 });
    }
    let n = read_u32(d, pos + 1);
    if t == TYPE_FIELDS_NAMED {
        match decode_named(d, pos + 5, n) {
            Ok((fs, p)) => Ok((Fields::Named(fs), p)),
            Err(e) => Err(e),
        }
    } else {
        match decode_values(d, pos + 5, n) {
            Ok((vs, p)) => Ok((Fields::Unnamed(vs), p)),
            Err(e) => Err(e),
        }
    }
}

fn decode_named(d: &[u8], pos: usize, n: u32) -> (r: Result<(Vec<(String, DecodedValue)>, usize), DecodeError>)
    requires
        pos <= d@.len(),
    ensures
        named_result(r, parse_named(d@, pos as int, n as nat)),
        r matches Ok((_, p)) ==> pos <= p <= d@.len(),
    decreases d@.len() - pos, 2int, n,
{
    let mut out: Vec<(String, DecodedValue)> = Vec::new();
    let ghost mut models: Seq<(Seq<char>, ValueModel)> = Seq::empty();
    let mut cur: usize = pos;
    let mut i: u32 = 0;
    while i < n
        invariant
            pos <= cur <= d@.len(),
            i <= n,
            models.len() == out.len(),
            forall|j: int| 0 <= j < out.len() ==> #[trigger] models[j] == (out[j].0@, view_value(out[j].1)),
            match parse_named(d@, cur as int, (n - i) as nat) {
                Ok((rest, p)) => parse_named(d@, pos as int, n as nat) == ParsedNamed::Ok((models + rest, p)),
                Err(e) => parse_named(d@, pos as int, n as nat) == ParsedNamed::Err(e),
            },
        decreases n - i,
    {
        let (name, p1) = match decode_string(d, cur) {
            Ok(x) => x,
            Err(e) => return Err(e),
        };
        let (v, p2) = match decode_value(d, p1) {
            Ok(x) => x,
            Err(e) => return Err(e),
        };
        let ghost item = (name@, v@);
        proof {
            match parse_named(d@, p2 as int, (n - i - 1) as nat) {
                Ok((rest, p)) => {
                    assert(models.push(item) + rest =~= models + (seq![item] + rest));
                },
                Err(e) => {},
            }
            models = models.push(item);
        }
        out.push((name, v));
        cur = p2;
        i = i + 1;
    }
    proof {
        lemma_view_named(out, out.len() as nat);
        assert(models + Seq::<(Seq<char>, ValueModel)>::empty() =~= view_named(out, out.len() as nat));
    }
    Ok((out, cur))
}

fn decode_values(d: &[u8], pos: usize, n: u32) -> (r: Result<(Vec<DecodedValue>, usize), DecodeError>)
    requires
        pos <= d@.len(),
    ensures
        list_result(r, parse_values(d@, pos as int, n as nat)),
        r matches Ok((_, p)) ==> pos <= p <= d@.len(),
    decreases d@.len() - pos, 2int, n,
{
    let mut out: Vec<DecodedValue> = Vec::new();
    let ghost mut models: Seq<ValueModel> = Seq::empty();
    let mut cur: usize = pos;
    let mut i: u32 = 0;
    while i < n
        invariant
            pos <= cur <= d@.len(),
            i <= n,
            models.len() == out.len(),
            forall|j: int| 0 <= j < out.len() ==> #[trigger] models[j] == view_value(out[j]),
            match parse_values(d@, cur as int, (n - i) as nat) {
                Ok((rest, p)) => parse_values(d@, pos as int, n as nat) == ParsedList::Ok((models + rest, p)),
                Err(e) => parse_values(d@, pos as int, n as nat) == ParsedList::Err(e),
            },
        decreases n - i,
    {
        let (v, p1) = match decode_value(d, cur) {
            Ok(x) => x,
            Err(e) => return Err(e),
        };
        let ghost item = v@;
        proof {
            match parse_values(d@, p1 as int, (n - i - 1) as nat) {
                Ok((rest, p)) => {
                    assert(models.push(item) + rest =~= models + (seq![item] + rest));
                },
                Err(e) => {},
            }
            models = models.push(item);
        }
        out.push(v);
        cur = p1;
        i = i + 1;
    }
    proof {
        lemma_view_list(out, out.len() as nat);
        assert(models + Seq::<ValueModel>::empty() =~= view_list(out, out.len() as nat));
    }
    Ok((out, cur))
}

fn decode_elems(d: &[u8], pos: usize, t: u8, n: u32) -> (r: Result<(Vec<DecodedValue>, usize), DecodeError>)
    requires
        pos <= d@.len(),
    ensures
        list_result(r, parse_elems(d@, pos as int, t, n as nat)),
        r matches Ok((_, p)) ==> pos <= p <= d@.len(),
    decreases d@.len() - pos, 2int, n,
{
    let mut out: Vec<DecodedValue> = Vec::new();
    let ghost mut models: Seq<ValueModel> = Seq::empty();
    let mut cur: usize = pos;
    let mut i: u32 = 0;
    while i < n
        invariant
            pos <= cur <= d@.len(),
            i <= n,
            models.len() == out.len(),
            forall|j: int| 0 <= j < out.len() ==> #[trigger] models[j] == view_value(out[j]),
            match parse_elems(d@, cur as int, t, (n - i) as nat) {
                Ok((rest, p)) => parse_elems(d@, pos as int, t, n as nat) == ParsedList::Ok((models + rest, p)),
                Err(e) => parse_elems(d@, pos as int, t, n as nat) == ParsedList::Err(e),
            },
        decreases n - i,
    {
        let (v, p1) = match decode_body(d, cur, t) {
            Ok(x) => x,
            Err(e) => return Err(e),
        };
        let ghost item = v@;
        proof {
            match parse_elems(d@, p1 as int, t, (n - i - 1) as nat) {
                Ok((rest, p)) => {
                    assert(models.push(item) + rest =~= models + (seq![item] + rest));
                },
                Err(e) => {},
            }
            models = models.push(item);
        }
        out.push(v);
        cur = p1;
        i = i + 1;
    }
    proof {
        lemma_view_list(out, out.len() as nat);
        assert(models + Seq::<ValueModel>::empty() =~= view_list(out, out.len() as nat));
    }
    Ok((out, cur))
}

fn decode_pairs(d: &[u8], pos: usize, kt: u8, vt: u8, n: u32) -> (r: Result<(Vec<(DecodedValue, DecodedValue)>, usize), DecodeError>)
    requires
        pos <= d@.len(),
    ensures
        pairs_result(r, parse_pairs(d@, pos as int, kt, vt, n as nat)),
        r matches Ok((_, p)) ==> pos <= p <= d@.len(),
    decreases d@.len() - pos, 2int, n,
{
    let mut out: Vec<(DecodedValue, DecodedValue)> = Vec::new();
    let ghost mut models: Seq<(ValueModel, ValueModel)> = Seq::empty();
    let mut cur: usize = pos;
    let mut i: u32 = 0;
    while i < n
        invariant
            pos <= cur <= d@.len(),
            i <= n,
            models.len() == out.len(),
            forall|j: int| 0 <= j < out.len() ==> #[trigger] models[j] == (view_value(out[j].0), view_value(out[j].1)),
            match parse_pairs(d@, cur as int, kt, vt, (n - i) as nat) {
                Ok((rest, p)) => parse_pairs(d@, pos as int, kt, vt, n as nat) == ParsedPairs::Ok((models + rest, p)),
                Err(e) => parse_pairs(d@, pos as int, kt, vt, n as nat) == ParsedPairs::Err(e),
            },
        decreases n - i,
    {
        let (k, p1) = match decode_body(d, cur, kt) {
            Ok(x) => x,
            Err(e) => return Err(e),
        };
        let (v, p2) = match decode_body(d, p1, vt) {
            Ok(x) => x,
            Err(e) => return Err(e),
        };
        let ghost item = (k@, v@);
        proof {
            match parse_pairs(d@, p2 as int, kt, vt, (n - i - 1) as nat) {
                Ok((rest, p)) => {
                    assert(models.push(item) + rest =~= models + (seq![item] + rest));
                },
                Err(e) => {},
            }
            models = models.push(item);
        }
        out.push((k, v));
        cur = p2;
        i = i + 1;
    }
    proof {
        lemma_view_pairs(out, out.len() as nat);
        assert(models + Seq::<(ValueModel, ValueModel)>::empty() =~= view_pairs(out, out.len() as nat));
    }
    Ok((out, cur))
}

fn decode_body(d: &[u8], pos: usize, tag: u8) -> (r: Result<(DecodedValue, usize), DecodeError>)
    requires
        pos <= d@.len(),
    ensures
        value_result(r, parse_body(d@, pos as int, tag)),
        r matches Ok((_, p)) ==> pos <= p <= d@.len(),
    decreases d@.len() - pos, 1int, 0int,
{
    let rem = d.len() - pos;
    if tag == TYPE_UNIT {
        Ok((DecodedValue::Unit, pos))
    } else if tag == TYPE_BOOL {
        if rem < 1 {
            return Err(DecodeError::Underflow { required: 1, remaining: rem });
        }
        let b = d[pos];
        if b == 0 {
            Ok((DecodedValue::Bool(false), pos + 1))
        } else if b == 1 {
            Ok((DecodedValue::Bool(true), pos + 1))
        } else {
            Err(DecodeError::InvalidBool(b))
        }
    } else if TYPE_I8 <= tag && tag <= TYPE_U128 {
        let w = int_width_exec(tag);
        if rem < w {
            return Err(DecodeError::Underflow { required: w, remaining: rem });
        }
        let raw = read_le(d, pos, w);
        Ok((int_value(tag, raw), pos + w))
    } else if tag == TYPE_STRING {
        match decode_string(d, pos) {
            Ok((s, p)) => Ok((DecodedValue::String(s), p)),
            Err(e) => Err(e),
        }
    } else if tag == TYPE_STRUCT {
        match decode_fields(d, pos) {
            Ok((f, p)) => Ok((DecodedValue::Struct(f), p)),
            Err(e) => Err(e),
        }
    } else if tag == TYPE_ENUM {
        if rem < 1 {
            return Err(DecodeError::Underflow { required: 1, remaining: rem });
        }
        match decode_fields(d, pos + 1) {
            Ok((f, p)) => Ok((DecodedValue::Enum(d[pos], f), p)),
            Err(e) => Err(e),
        }
    } else if tag == TYPE_OPTION || tag == TYPE_RESULT {
        if rem < 1 {
            return Err(DecodeError::Underflow { required: 1, remaining: rem });
        }
        let index = d[pos];
        if index > 1 {
            return Err(DecodeError::InvalidIndex(index));
        }
        if tag == TYPE_OPTION && index == 0 {
            return Ok((DecodedValue::Option(Box::new(None)), pos + 1));
        }
        match decode_value(d, pos + 1) {
            Err(e) => Err(e),
            Ok((v, p)) => if tag == TYPE_OPTION {
                Ok((DecodedValue::Option(Box::new(Some(v))), p))
            } else if index == 0 {
                Ok((DecodedValue::Result(Box::new(Ok(v))), p))
            } else {
                Ok((DecodedValue::Result(Box::new(Err(v))), p))
            },
        }
    } else if tag == TYPE_BOX {
        match decode_value(d, pos) {
            Ok((v, p)) => Ok((DecodedValue::Box(Box::new(v)), p)),
            Err(e) => Err(e),
        }
    } else if tag == TYPE_TUPLE {
        if rem < 4 {
            return Err(DecodeError::Underflow { required: 4, remaining: rem });
        }
        let n = read_u32(d, pos);
        match decode_values(d, pos + 4, n) {
            Ok((vs, p)) => Ok((DecodedValue::Tuple(vs), p)),
            Err(e) => Err(e),
        }
    } else if tag == TYPE_ARRAY || tag == TYPE_VEC || tag == TYPE_TREE_SET || tag == TYPE_HASH_SET {
        if rem < 5 {
            return Err(DecodeError::Underflow { required: 5, remaining: rem });
        }
        let t = d[pos];
        if !is_value_tag_exec(t) {
            return Err(DecodeError::InvalidType { expected: None, actual: t });
        }
        let n = read_u32(d, pos + 1);
        match decode_elems(d, pos + 5, t, n) {
            Err(e) => Err(e),
            Ok((vs, p)) => Ok((
                if tag == TYPE_ARRAY {
                    DecodedValue::Array(t, vs)
                } else if tag == TYPE_VEC {
                    DecodedValue::Vec(t, vs)
                } else if tag == TYPE_TREE_SET {
                    DecodedValue::TreeSet(t, vs)
                } else {
                    DecodedValue::HashSet(t, vs)
                },
                p,
            )),
        }
    } else if tag == TYPE_TREE_MAP || tag == TYPE_HASH_MAP {
        if rem < 6 {
            return Err(DecodeError::Underflow { required: 6, remaining: rem });
        }
        let kt = d[pos];
        if !is_value_tag_exec(kt) {
            return Err(DecodeError::InvalidType { expected: None, actual: kt });
        }
        let vt = d[pos + 1];
        if !is_value_tag_exec(vt) {
            return Err(DecodeError::InvalidType { expected: None, actual: vt });
        }
        let n = read_u32(d, pos + 2);
        match decode_pairs(d, pos + 6, kt, vt, n) {
            Err(e) => Err(e),
            Ok((es, p)) => Ok((
                if tag == TYPE_TREE_MAP {
                    DecodedValue::TreeMap(kt, vt, es)
                } else {
                    DecodedValue::HashMap(kt, vt, es)
                },
                p,
            )),
        }
    } else if tag >= TYPE_CUSTOM_START {
        if rem < 4 {
            return Err(DecodeError::Underflow { required: 4, remaining: rem });
        }
        let n = read_u32(d, pos) as usize;
        if rem - 4 < n {
            return Err(DecodeError::Underflow { required: n, remaining: rem - 4 });
        }
        let bytes = copy_bytes(d, pos + 4, pos + 4 + n);
        Ok((DecodedValue::Custom(tag, bytes), pos + 4 + n))
    } else {
        Err(DecodeError::InvalidType { expected: None, actual: tag })
    }
}

/// Decodes the value that `data` holds; every byte must belong to it.
pub fn decode_any(data: &[u8]) -> (r: Result<DecodedValue, DecodeError>)
    ensures
        match r {
            Ok(v) => parse_all(data@) == Result::<ValueModel, DecodeError>::Ok(v@),
            Err(e) => parse_all(data@) == Result::<ValueModel, DecodeError>::Err(e),
        },
{
    match decode_value(data, 0) {
        Ok((v, p)) => if p == data.len() {
            Ok(v)
        } else {
            Err(DecodeError::NotAllBytesUsed(data.len() - p))
        },
        Err(e) => Err(e),
    }
}

} // verus!

verus! {

/// A buffer whose first byte is not a value tag is rejected with an invalid-type error naming
/// that byte, whatever follows it: nothing past the tag is read.
pub proof fn unknown_tag_rejected(d: Seq<u8>)
    requires
        d.len() > 0,
        !is_value_tag(d[0]),
    ensures
        parse_value(d, 0) == ParsedValue::Err(DecodeError::InvalidType { expected: None, actual: d[0] }),
        parse_all(d) == Result::<ValueModel, DecodeError>::Err(DecodeError::InvalidType { expected: None, actual: d[0] }),
        forall|d2: Seq<u8>| d2.len() > 0 && d2[0] == d[0] ==> #[trigger] parse_all(d2) == parse_all(d),
{
    assert forall|d2: Seq<u8>| d2.len() > 0 && d2[0] == d[0] implies #[trigger] parse_all(d2) == parse_all(d) by {
        assert(parse_value(d2, 0) == parse_body(d2, 1, d2[0]));
    }
}

} // verus!
