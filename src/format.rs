use vstd::prelude::*;
use crate::decode::{
    DecodeError, copy_bytes, decode_any, is_value_tag, le_at, le_nat, parse_all, pow256, read_u32, unknown_tag_rejected,
};
use crate::ledger::{Address, EntityId, ID_HASH_LEN, ID_LEN, LazyMap, Ledger, address_kind_of, find_lazy_map};
use crate::text::{hex_string, hex_text, int_string, int_text, nat_string, nat_text, push_nat};
use crate::value::{
    DecodedValue, Fields, FieldsModel, ValueModel, lemma_view_list, lemma_view_named, lemma_view_pairs,
    view_list, view_named, view_pairs, view_value,
};

verus! {

broadcast use {vstd::std_specs::vec::group_vec_axioms, vstd::seq::group_seq_axioms};

pub const TYPE_DECIMAL: u8 = 0xa1;
pub const TYPE_BIG_DECIMAL: u8 = 0xa2;
pub const TYPE_ADDRESS: u8 = 0xb1;
pub const TYPE_H256: u8 = 0xb2;
pub const TYPE_LAZY_MAP_ID: u8 = 0xb3;
pub const TYPE_BUCKET_ID: u8 = 0xb4;
pub const TYPE_RESOURCE_REF_ID: u8 = 0xb5;
pub const TYPE_VAULT_ID: u8 = 0xb6;

/// Bytes of a decimal number.
pub const DECIMAL_LEN: usize = 24;
/// Bytes of a big decimal number.
pub const BIG_DECIMAL_LEN: usize = 32;
/// Bytes of a 256-bit hash.
pub const H256_LEN: usize = 32;

pub open spec fn pow10(k: nat) -> nat
    decreases k,
{
    if k == 0 { 1 } else { 10 * pow10((k - 1) as nat) }
}

/// The two's-complement integer whose little-endian bytes are `b`.
pub open spec fn le_signed(b: Seq<u8>) -> int {
    let n = le_nat(b) as int;
    if b.len() > 0 && n >= pow256(b.len()) as int / 2 { n - pow256(b.len()) as int } else { n }
}

/// `x / m` rounded toward zero, for `m > 0`.
pub open spec fn div_toward_zero(x: int, m: int) -> int {
    if x >= 0 { x / m } else { -((-x) / m) }
}

/// `s` with zeros put in front up to `w` characters.
pub open spec fn zero_padded(s: Seq<char>, w: nat) -> Seq<char>
    decreases w - s.len(),
{
    if s.len() >= w { s } else { zero_padded(seq!['0'] + s, w) }
}

/// `s` without its trailing zeros.
pub open spec fn without_trailing_zeros(s: Seq<char>) -> Seq<char>
    decreases s.len(),
{
    if s.len() > 0 && s.last() == '0' { without_trailing_zeros(s.drop_last()) } else { s }
}

/// The text of the fixed-point number `x / 10^places`: the whole part, and where there is a
/// fraction, a point and its digits without trailing zeros; a minus sign in front when the number
/// is negative and its whole part is zero.
pub open spec fn fixed_point_text(x: int, places: nat) -> Seq<char> {
    let m = pow10(places) as int;
    let q = div_toward_zero(x, m);
    let r = x - q * m;
    if r == 0 {
        int_text(q)
    } else {
        (if r < 0 && q == 0 { seq!['-'] } else { Seq::empty() }) + int_text(q) + seq!['.']
            + without_trailing_zeros(zero_padded(nat_text((if r < 0 { -r } else { r }) as nat), places))
    }
}

/// The text of a decimal number given by its bytes: a 192-bit integer of units of 10^-18.
pub open spec fn decimal_text(b: Seq<u8>) -> Seq<char> {
    fixed_point_text(le_signed(b), 18)
}

/// The text of a big decimal number given by its bytes: a 256-bit integer of units of 10^-36.
pub open spec fn big_decimal_text(b: Seq<u8>) -> Seq<char> {
    fixed_point_text(le_signed(b), 36)
}

/// Relies on radix-common's `Decimal`: `try_from` takes exactly 24 bytes as a little-endian
/// two's-complement `I192`, and `Display` divides by 10^18 toward zero and writes the whole part,
/// then the remainder as 18 zero-padded digits without trailing zeros.
#[verifier::external_body]
pub(crate) fn decimal_string(b: &[u8]) -> (r: Option<String>)
    ensures
        r is Some <==> b@.len() == DECIMAL_LEN,
        r matches Some(s) ==> s@ == decimal_text(b@),
{
    match scrypto::math::Decimal::try_from(b) {
        Ok(d) => Some(d.to_string()),
        Err(_) => None,
    }
}

/// Relies on radix-common's `PreciseDecimal`: `try_from` takes exactly 32 bytes as a
/// little-endian two's-complement `I256`, and `Display` divides by 10^36 toward zero and writes the
/// whole part, then the remainder as 36 zero-padded digits without trailing zeros.
#[verifier::external_body]
fn big_decimal_string(b: &[u8]) -> (r: Option<String>)
    ensures
        r is Some <==> b@.len() == BIG_DECIMAL_LEN,
        r matches Some(s) ==> s@ == big_decimal_text(b@),
{
    match scrypto::math::PreciseDecimal::try_from(b) {
        Ok(d) => Some(d.to_string()),
        Err(_) => None,
    }
}

/// Relies on radix-common's `Hash`: `try_from` takes exactly 32 bytes, and `Display` writes them with hex::encode.
#[verifier::external_body]
fn hash_string(b: &[u8]) -> (r: Option<String>)
    ensures
        r is Some <==> b@.len() == H256_LEN,
        r matches Some(s) ==> s@ == hex_text(b@),
{
    match scrypto::crypto::Hash::try_from(b) {
        Ok(h) => Some(h.to_string()),
        Err(_) => None,
    }
}

/// Text and the vault ids met on the way, in order; or why formatting failed, with the vault ids
/// met before the failure, in order.
pub type Formatted = Result<(Seq<char>, Seq<(Seq<u8>, u32)>), (DecodeError, Seq<(Seq<u8>, u32)>)>;

/// The id that 36 bytes hold: a 32-byte hash and a little-endian counter.
pub open spec fn id_of(b: Seq<u8>) -> (Seq<u8>, u32) {
    (b.subrange(0, ID_HASH_LEN as int), le_at(b, ID_HASH_LEN as int, 4) as u32)
}

/// The debug form of an id: `Name(hash, counter)`.
pub open spec fn id_text(name: Seq<char>, id: (Seq<u8>, u32)) -> Seq<char> {
    name + "("@ + hex_text(id.0) + ", "@ + nat_text(id.1 as nat) + ")"@
}

/// The debug form of a 32-bit handle: `Name(counter)`.
pub open spec fn handle_text(name: Seq<char>, n: nat) -> Seq<char> {
    name + "("@ + nat_text(n) + ")"@
}

/// `r` with its text put between `begin` and `end`.
pub open spec fn wrap(begin: Seq<char>, r: Formatted, end: Seq<char>) -> Formatted {
    match r {
        Ok((s, f)) => Ok((begin + s + end, f)),
        Err(x) => Err(x),
    }
}

/// Two results joined by `sep`, the first one's vaults first; the first failure wins, after the
/// vaults met before it.
pub open spec fn join2(a: Formatted, sep: Seq<char>, b: Formatted) -> Formatted {
    match a {
        Err(x) => Err(x),
        Ok((s, f)) => match b {
            Err((e, g)) => Err((e, f + g)),
            Ok((t, g)) => Ok((s + sep + t, f + g)),
        },
    }
}

/// The text of the encoded value `b`, read against `l`.
pub open spec fn fmt_data(b: Seq<u8>, l: Ledger, depth: nat) -> Formatted
    decreases depth, 3int, b, 0int,
{
    match parse_all(b) {
        Err(e) => Err((e, Seq::empty())),
        Ok(v) => fmt_value(v, l, depth),
    }
}

/// The canonical text of a value; `depth` bounds how deep lazy maps may nest.
pub open spec fn fmt_value(v: ValueModel, l: Ledger, depth: nat) -> Formatted
    decreases depth, 2int, v, 0int,
{
    match v {
        ValueModel::Unit => Ok(("()"@, Seq::empty())),
        ValueModel::Bool(b) => Ok((if b { "true"@ } else { "false"@ }, Seq::empty())),
        ValueModel::I8(x) => Ok((int_text(x as int), Seq::empty())),
        ValueModel::I16(x) => Ok((int_text(x as int), Seq::empty())),
        ValueModel::I32(x) => Ok((int_text(x as int), Seq::empty())),
        ValueModel::I64(x) => Ok((int_text(x as int), Seq::empty())),
        ValueModel::I128(x) => Ok((int_text(x as int), Seq::empty())),
        ValueModel::U8(x) => Ok((nat_text(x as nat), Seq::empty())),
        ValueModel::U16(x) => Ok((nat_text(x as nat), Seq::empty())),
        ValueModel::U32(x) => Ok((nat_text(x as nat), Seq::empty())),
        ValueModel::U64(x) => Ok((nat_text(x as nat), Seq::empty())),
        ValueModel::U128(x) => Ok((nat_text(x as nat), Seq::empty())),
        ValueModel::String(s) => Ok(("\""@ + s + "\""@, Seq::empty())),
        ValueModel::Struct(f) => wrap("Struct "@, fmt_fields(f, l, depth), ""@),
        ValueModel::Enum(i, f) => wrap("Enum::"@ + nat_text(i as nat) + " "@, fmt_fields(f, l, depth), ""@),
        ValueModel::Option(o) => match o {
            Some(x) => wrap("Some("@, fmt_value(*x, l, depth), ")"@),
            None => Ok(("None"@, Seq::empty())),
        },
        ValueModel::Box(x) => wrap("Box("@, fmt_value(*x, l, depth), ")"@),
        ValueModel::Array(_, es) => wrap("["@, fmt_list(es, l, depth, es.len()), "]"@),
        ValueModel::Tuple(es) => wrap("("@, fmt_list(es, l, depth, es.len()), ")"@),
        ValueModel::Result(r) => match *r {
            Ok(x) => wrap("Ok("@, fmt_value(x, l, depth), ")"@),
            Err(x) => wrap("Err("@, fmt_value(x, l, depth), ")"@),
        },
        ValueModel::Vec(_, es) => wrap("Vec { "@, fmt_list(es, l, depth, es.len()), " }"@),
        ValueModel::TreeSet(_, es) => wrap("TreeSet { "@, fmt_list(es, l, depth, es.len()), " }"@),
        ValueModel::HashSet(_, es) => wrap("HashSet { "@, fmt_list(es, l, depth, es.len()), " }"@),
        ValueModel::TreeMap(_, _, es) => wrap("TreeMap { "@, fmt_pairs(es, l, depth, es.len()), " }"@),
        ValueModel::HashMap(_, _, es) => wrap("HashMap { "@, fmt_pairs(es, l, depth, es.len()), " }"@),
        ValueModel::Custom(t, b) => fmt_custom(t, b, l, depth),
    }
}

/// The text of struct or variant fields.
pub open spec fn fmt_fields(f: FieldsModel, l: Ledger, depth: nat) -> Formatted
    decreases depth, 2int, f, 0int,
{
    match f {
        FieldsModel::Named(fs) => wrap("{ "@, fmt_named(fs, l, depth, fs.len()), " }"@),
        FieldsModel::Unnamed(es) => wrap("( "@, fmt_list(es, l, depth, es.len()), " )"@),
        FieldsModel::Unit => Ok((Seq::empty(), Seq::empty())),
    }
}

/// The first `n` values, joined by `, `.
pub open spec fn fmt_list(es: Seq<ValueModel>, l: Ledger, depth: nat, n: nat) -> Formatted
    decreases depth, 2int, es, n,
{
    if n == 0 || n > es.len() {
        Ok((Seq::empty(), Seq::empty()))
    } else if n == 1 {
        fmt_value(es[0], l, depth)
    } else {
        join2(fmt_list(es, l, depth, (n - 1) as nat), ", "@, fmt_value(es[n - 1], l, depth))
    }
}

/// The first `n` named fields as `name: value`, joined by `, `.
pub open spec fn fmt_named(fs: Seq<(Seq<char>, ValueModel)>, l: Ledger, depth: nat, n: nat) -> Formatted
    decreases depth, 2int, fs, n,
{
    if n == 0 || n > fs.len() {
        Ok((Seq::empty(), Seq::empty()))
    } else if n == 1 {
        wrap(fs[0].0 + ": "@, fmt_value(fs[0].1, l, depth), ""@)
    } else {
        join2(
            fmt_named(fs, l, depth, (n - 1) as nat),
            ", "@,
            wrap(fs[n - 1].0 + ": "@, fmt_value(fs[n - 1].1, l, depth), ""@),
        )
    }
}

/// The first `n` map entries as `key => value`, joined by `, `.
pub open spec fn fmt_pairs(es: Seq<(ValueModel, ValueModel)>, l: Ledger, depth: nat, n: nat) -> Formatted
    decreases depth, 2int, es, n,
{
    if n == 0 || n > es.len() {
        Ok((Seq::empty(), Seq::empty()))
    } else if n == 1 {
        join2(fmt_value(es[0].0, l, depth), " => "@, fmt_value(es[0].1, l, depth))
    } else {
        join2(
            fmt_pairs(es, l, depth, (n - 1) as nat),
            ", "@,
            join2(fmt_value(es[n - 1].0, l, depth), " => "@, fmt_value(es[n - 1].1, l, depth)),
        )
    }
}

/// The first `n` entries of a lazy map, each decoded and shown as `key => value`, joined by `, `.
pub open spec fn fmt_entries(m: LazyMap, l: Ledger, depth: nat, n: nat) -> Formatted
    decreases depth, 0int, m, n,
{
    if n == 0 || n > m.entries@.len() {
        Ok((Seq::empty(), Seq::empty()))
    } else if depth == 0 {
        Err((DecodeError::NestingTooDeep, Seq::empty()))
    } else {
        let e = join2(
            fmt_data(m.entries@[n - 1].0@, l, (depth - 1) as nat),
            " => "@,
            fmt_data(m.entries@[n - 1].1@, l, (depth - 1) as nat),
        );
        if n == 1 {
            e
        } else {
            join2(fmt_entries(m, l, depth, (n - 1) as nat), ", "@, e)
        }
    }
}

/// The text of a domain extension value of type `t` with bytes `b`.
pub open spec fn fmt_custom(t: u8, b: Seq<u8>, l: Ledger, depth: nat) -> Formatted
    decreases depth, 1int, b, 0int,
{
    let bad = (DecodeError::InvalidCustomData(t), Seq::<(Seq<u8>, u32)>::empty());
    if t == TYPE_DECIMAL {
        if b.len() == DECIMAL_LEN { Ok((decimal_text(b), Seq::empty())) } else { Err(bad) }
    } else if t == TYPE_BIG_DECIMAL {
        if b.len() == BIG_DECIMAL_LEN { Ok((big_decimal_text(b), Seq::empty())) } else { Err(bad) }
    } else if t == TYPE_ADDRESS {
        if address_kind_of(b) is Some { Ok((hex_text(b), Seq::empty())) } else { Err(bad) }
    } else if t == TYPE_H256 {
        if b.len() == H256_LEN { Ok((hex_text(b), Seq::empty())) } else { Err(bad) }
    } else if t == TYPE_LAZY_MAP_ID {
        if b.len() != ID_LEN {
            Err(bad)
        } else {
            let head = id_text("Mid"@, id_of(b)) + " { "@;
            match find_lazy_map(l.lazy_maps@, id_of(b), 0) {
                None => Ok((head + " }"@, Seq::empty())),
                Some(i) => wrap(head, fmt_entries(l.lazy_maps@[i], l, depth, l.lazy_maps@[i].entries@.len()), " }"@),
            }
        }
    } else if t == TYPE_BUCKET_ID {
        if b.len() == 4 { Ok((handle_text("Bid"@, le_at(b, 0, 4)), Seq::empty())) } else { Err(bad) }
    } else if t == TYPE_RESOURCE_REF_ID {
        if b.len() == 4 { Ok((handle_text("Rid"@, le_at(b, 0, 4)), Seq::empty())) } else { Err(bad) }
    } else if t == TYPE_VAULT_ID {
        if b.len() == ID_LEN { Ok((id_text("Vid"@, id_of(b)), seq![id_of(b)])) } else { Err(bad) }
    } else {
        Err((DecodeError::InvalidType { expected: None, actual: t }, Seq::empty()))
    }
}

} // verus!

verus! {

/// The ids of a vault list, in order.
pub open spec fn ids_view(v: Seq<EntityId>) -> Seq<(Seq<u8>, u32)> {
    v.map_values(|id: EntityId| id@)
}

/// `r` is what `f` says, and the vault list went from `before` to `after` by exactly the ids
/// that `f` says were met: all of them on success, those met before the failure otherwise.
pub open spec fn formatted(
    r: Result<String, DecodeError>,
    f: Formatted,
    before: Seq<(Seq<u8>, u32)>,
    after: Seq<(Seq<u8>, u32)>,
) -> bool {
    match f {
        Ok((s, found)) => r matches Ok(t) && t@ == s && after == before + found,
        Err((e, met)) => r == Result::<String, DecodeError>::Err(e) && after == before + met,
    }
}

proof fn lemma_list_err(es: Seq<ValueModel>, l: Ledger, d: nat, k: nat, n: nat)
    requires
        1 <= k <= n <= es.len(),
        fmt_list(es, l, d, k) is Err,
    ensures
        fmt_list(es, l, d, n) == fmt_list(es, l, d, k),
    decreases n,
{
    if n > k {
        lemma_list_err(es, l, d, k, (n - 1) as nat);
    }
}

proof fn lemma_named_err(fs: Seq<(Seq<char>, ValueModel)>, l: Ledger, d: nat, k: nat, n: nat)
    requires
        1 <= k <= n <= fs.len(),
        fmt_named(fs, l, d, k) is Err,
    ensures
        fmt_named(fs, l, d, n) == fmt_named(fs, l, d, k),
    decreases n,
{
    if n > k {
        lemma_named_err(fs, l, d, k, (n - 1) as nat);
    }
}

proof fn lemma_pairs_err(es: Seq<(ValueModel, ValueModel)>, l: Ledger, d: nat, k: nat, n: nat)
    requires
        1 <= k <= n <= es.len(),
        fmt_pairs(es, l, d, k) is Err,
    ensures
        fmt_pairs(es, l, d, n) == fmt_pairs(es, l, d, k),
    decreases n,
{
    if n > k {
        lemma_pairs_err(es, l, d, k, (n - 1) as nat);
    }
}

proof fn lemma_entries_err(m: LazyMap, l: Ledger, d: nat, k: nat, n: nat)
    requires
        1 <= k <= n <= m.entries@.len(),
        d > 0,
        fmt_entries(m, l, d, k) is Err,
    ensures
        fmt_entries(m, l, d, n) == fmt_entries(m, l, d, k),
    decreases n,
{
    if n > k {
        lemma_entries_err(m, l, d, k, (n - 1) as nat);
    }
}

fn concat3(a: &str, b: &str, c: &str) -> (r: String)
    ensures
        r@ == a@ + b@ + c@,
{
    let mut t = String::from_str(a);
    t.append(b);
    t.append(c);
    t
}

/// The id that 36 bytes hold.
fn entity_id_of(b: &[u8]) -> (r: EntityId)
    requires
        b@.len() == ID_LEN,
    ensures
        r@ == id_of(b@),
{
    EntityId { hash: copy_bytes(b, 0, ID_HASH_LEN), index: read_u32(b, ID_HASH_LEN) }
}

/// The debug form of an id.
fn id_string(name: &str, id: &EntityId) -> (r: String)
    ensures
        r@ == id_text(name@, id@),
{
    let mut t = String::from_str(name);
    t.append("(");
    let h = hex_string(id.hash.as_slice());
    t.append(h.as_str());
    t.append(", ");
    push_nat(&mut t, id.index as u128);
    t.append(")");
    t
}

/// The debug form of a 32-bit handle.
fn handle_string(name: &str, n: u32) -> (r: String)
    ensures
        r@ == handle_text(name@, n as nat),
{
    let mut t = String::from_str(name);
    t.append("(");
    push_nat(&mut t, n as u128);
    t.append(")");
    t
}

fn fmt_data_in(b: &Vec<u8>, ledger: &Ledger, depth: usize, vaults: &mut Vec<EntityId>) -> (r: Result<String, DecodeError>)
    ensures
        formatted(r, fmt_data(b@, *ledger, depth as nat), ids_view(old(vaults)@), ids_view(final(vaults)@)),
    decreases depth, 3int, b, 0int,
{
    match decode_any(b.as_slice()) {
        Ok(v) => fmt_value_in(&v, ledger, depth, vaults),
        Err(e) => {
            proof {
                assert(ids_view(vaults@) + Seq::empty() =~= ids_view(vaults@));
            }
            Err(e)
        },
    }
}

fn fmt_value_in(value: &DecodedValue, ledger: &Ledger, depth: usize, vaults: &mut Vec<EntityId>) -> (r: Result<String, DecodeError>)
    ensures
        formatted(r, fmt_value(value@, *ledger, depth as nat), ids_view(old(vaults)@), ids_view(final(vaults)@)),
    decreases depth, 2int, value, 0int,
{
    let ghost before = ids_view(vaults@);
    proof {
        assert(before + Seq::empty() =~= before);
    }
    match value {
        DecodedValue::Unit => Ok(String::from_str("()")),
        DecodedValue::Bool(b) => Ok(if *b { String::from_str("true") } else { String::from_str("false") }),
        DecodedValue::I8(x) => Ok(int_string(*x as i128)),
        DecodedValue::I16(x) => Ok(int_string(*x as i128)),
        DecodedValue::I32(x) => Ok(int_string(*x as i128)),
        DecodedValue::I64(x) => Ok(int_string(*x as i128)),
        DecodedValue::I128(x) => Ok(int_string(*x)),
        DecodedValue::U8(x) => Ok(nat_string(*x as u128)),
        DecodedValue::U16(x) => Ok(nat_string(*x as u128)),
        DecodedValue::U32(x) => Ok(nat_string(*x as u128)),
        DecodedValue::U64(x) => Ok(nat_string(*x as u128)),
        DecodedValue::U128(x) => Ok(nat_string(*x)),
        DecodedValue::String(s) => Ok(concat3("\"", s.as_str(), "\"")),
        DecodedValue::Struct(f) => match fmt_fields_in(f, ledger, depth, vaults) {
            Ok(s) => Ok(concat3("Struct ", s.as_str(), "")),
            Err(e) => Err(e),
        },
        DecodedValue::Enum(i, f) => match fmt_fields_in(f, ledger, depth, vaults) {
            Ok(s) => {
                let mut t = String::from_str("Enum::");
                push_nat(&mut t, *i as u128);
                t.append(" ");
                t.append(s.as_str());
                t.append("");
                Ok(t)
            },
            Err(e) => Err(e),
        },
        DecodedValue::Option(o) => match &**o {
            Some(x) => match fmt_value_in(x, ledger, depth, vaults) {
                Ok(s) => Ok(concat3("Some(", s.as_str(), ")")),
                Err(e) => Err(e),
            },
            None => Ok(String::from_str("None")),
        },
        DecodedValue::Box(x) => match fmt_value_in(&**x, ledger, depth, vaults) {
            Ok(s) => Ok(concat3("Box(", s.as_str(), ")")),
            Err(e) => Err(e),
        },
        DecodedValue::Array(_, es) => {
            proof {
                lemma_view_list(*es, es@.len() as nat);
            }
            fmt_vec_in(es, "[", "]", ledger, depth, vaults)
        },
        DecodedValue::Tuple(es) => {
            proof {
                lemma_view_list(*es, es@.len() as nat);
            }
            fmt_vec_in(es, "(", ")", ledger, depth, vaults)
        },
        DecodedValue::Result(r) => match &**r {
            Ok(x) => match fmt_value_in(x, ledger, depth, vaults) {
                Ok(s) => Ok(concat3("Ok(", s.as_str(), ")")),
                Err(e) => Err(e),
            },
            Err(x) => match fmt_value_in(x, ledger, depth, vaults) {
                Ok(s) => Ok(concat3("Err(", s.as_str(), ")")),
                Err(e) => Err(e),
            },
        },
        DecodedValue::Vec(_, es) => {
            proof {
                lemma_view_list(*es, es@.len() as nat);
            }
            fmt_vec_in(es, "Vec { ", " }", ledger, depth, vaults)
        },
        DecodedValue::TreeSet(_, es) => {
            proof {
                lemma_view_list(*es, es@.len() as nat);
            }
            fmt_vec_in(es, "TreeSet { ", " }", ledger, depth, vaults)
        },
        DecodedValue::HashSet(_, es) => {
            proof {
                lemma_view_list(*es, es@.len() as nat);
            }
            fmt_vec_in(es, "HashSet { ", " }", ledger, depth, vaults)
        },
        DecodedValue::TreeMap(_, _, es) => {
            proof {
                lemma_view_pairs(*es, es@.len() as nat);
            }
            fmt_map_in(es, "TreeMap { ", " }", ledger, depth, vaults)
        },
        DecodedValue::HashMap(_, _, es) => {
            proof {
                lemma_view_pairs(*es, es@.len() as nat);
            }
            fmt_map_in(es, "HashMap { ", " }", ledger, depth, vaults)
        },
        DecodedValue::Custom(t, b) => fmt_custom_in(*t, b, ledger, depth, vaults),
    }
}

fn fmt_fields_in(fields: &Fields, ledger: &Ledger, depth: usize, vaults: &mut Vec<EntityId>) -> (r: Result<String, DecodeError>)
    ensures
        formatted(r, fmt_fields(fields@, *ledger, depth as nat), ids_view(old(vaults)@), ids_view(final(vaults)@)),
    decreases depth, 2int, fields, 0int,
{
    match fields {
        Fields::Named(fs) => {
            proof {
                lemma_view_named(*fs, fs@.len() as nat);
            }
            fmt_named_in(fs, ledger, depth, vaults)
        },
        Fields::Unnamed(es) => {
            proof {
                lemma_view_list(*es, es@.len() as nat);
            }
            fmt_vec_in(es, "( ", " )", ledger, depth, vaults)
        },
        Fields::Unit => {
            proof {
                assert(ids_view(vaults@) + Seq::empty() =~= ids_view(vaults@));
            }
            Ok(String::new())
        },
    }
}

fn fmt_vec_in(
    es: &Vec<DecodedValue>,
    begin: &str,
    end: &str,
    ledger: &Ledger,
    depth: usize,
    vaults: &mut Vec<EntityId>,
) -> (r: Result<String, DecodeError>)
    ensures
        formatted(
            r,
            wrap(begin@, fmt_list(view_list(*es, es@.len() as nat), *ledger, depth as nat, es@.len() as nat), end@),
            ids_view(old(vaults)@),
            ids_view(final(vaults)@),
        ),
    decreases depth, 2int, es, 1int,
{
    let ghost vs = view_list(*es, es@.len() as nat);
    let ghost start = ids_view(vaults@);
    proof {
        lemma_view_list(*es, es@.len() as nat);
    }
    let mut buf = String::from_str(begin);
    let ghost mut text: Seq<char> = Seq::empty();
    let ghost mut found: Seq<(Seq<u8>, u32)> = Seq::empty();
    let mut i: usize = 0;
    proof {
        assert(begin@ + text =~= begin@);
        assert(start + found =~= start);
    }
    while i < es.len()
        invariant
            i <= es@.len(),
            vs == view_list(*es, es@.len() as nat),
            vs.len() == es@.len(),
            forall|j: int| 0 <= j < es@.len() ==> #[trigger] vs[j] == view_value(es@[j]),
            i == 0 ==> text == Seq::<char>::empty() && found == Seq::<(Seq<u8>, u32)>::empty(),
            i > 0 ==> fmt_list(vs, *ledger, depth as nat, i as nat) == Formatted::Ok((text, found)),
            buf@ == begin@ + text,
            ids_view(vaults@) == start + found,
            start == ids_view(old(vaults)@),
        decreases es@.len() - i,
    {
        let ghost mid = ids_view(vaults@);
        assert(vs[i as int] == view_value(es@[i as int]));
        let s = match fmt_value_in(&es[i], ledger, depth, vaults) {
            Ok(s) => s,
            Err(e) => {
                proof {
                    let g = fmt_value(vs[i as int], *ledger, depth as nat)->Err_0.1;
                    assert(ids_view(vaults@) =~= start + (found + g));
                    assert(found + g =~= g || i > 0);
                    lemma_list_err(vs, *ledger, depth as nat, (i + 1) as nat, es@.len() as nat);
                }
                return Err(e);
            },
        };
        if i > 0 {
            buf.append(", ");
        }
        buf.append(s.as_str());
        proof {
            let g = fmt_value(vs[i as int], *ledger, depth as nat)->Ok_0.1;
            if i == 0 {
                text = s@;
            } else {
                text = text + ", "@ + s@;
            }
            found = found + g;
            assert(ids_view(vaults@) =~= start + found);
            assert(buf@ =~= begin@ + text);
        }
        i = i + 1;
    }
    buf.append(end);
    proof {
        if es@.len() == 0 {
            assert(begin@ + Seq::<char>::empty() + end@ =~= buf@);
        }
    }
    Ok(buf)
}

fn fmt_named_in(
    fs: &Vec<(String, DecodedValue)>,
    ledger: &Ledger,
    depth: usize,
    vaults: &mut Vec<EntityId>,
) -> (r: Result<String, DecodeError>)
    ensures
        formatted(
            r,
            wrap("{ "@, fmt_named(view_named(*fs, fs@.len() as nat), *ledger, depth as nat, fs@.len() as nat), " }"@),
            ids_view(old(vaults)@),
            ids_view(final(vaults)@),
        ),
    decreases depth, 2int, fs, 1int,
{
    let ghost vs = view_named(*fs, fs@.len() as nat);
    let ghost start = ids_view(vaults@);
    proof {
        lemma_view_named(*fs, fs@.len() as nat);
    }
    let mut buf = String::from_str("{ ");
    let ghost mut text: Seq<char> = Seq::empty();
    let ghost mut found: Seq<(Seq<u8>, u32)> = Seq::empty();
    let mut i: usize = 0;
    proof {
        assert("{ "@ + text =~= "{ "@);
        assert(start + found =~= start);
    }
    while i < fs.len()
        invariant
            i <= fs@.len(),
            vs == view_named(*fs, fs@.len() as nat),
            vs.len() == fs@.len(),
            forall|j: int| 0 <= j < fs@.len() ==> #[trigger] vs[j] == (fs@[j].0@, view_value(fs@[j].1)),
            i == 0 ==> text == Seq::<char>::empty() && found == Seq::<(Seq<u8>, u32)>::empty(),
            i > 0 ==> fmt_named(vs, *ledger, depth as nat, i as nat) == Formatted::Ok((text, found)),
            buf@ == "{ "@ + text,
            ids_view(vaults@) == start + found,
            start == ids_view(old(vaults)@),
        decreases fs@.len() - i,
    {
        let ghost mid = ids_view(vaults@);
        assert(vs[i as int] == (fs@[i as int].0@, view_value(fs@[i as int].1)));
        let s = match fmt_value_in(&fs[i].1, ledger, depth, vaults) {
            Ok(s) => s,
            Err(e) => {
                proof {
                    let g = fmt_value(vs[i as int].1, *ledger, depth as nat)->Err_0.1;
                    assert(ids_view(vaults@) =~= start + (found + g));
                    assert(found + g =~= g || i > 0);
                    lemma_named_err(vs, *ledger, depth as nat, (i + 1) as nat, fs@.len() as nat);
                }
                return Err(e);
            },
        };
        if i > 0 {
            buf.append(", ");
        }
        buf.append(fs[i].0.as_str());
        buf.append(": ");
        buf.append(s.as_str());
        buf.append("");
        proof {
            let g = fmt_value(vs[i as int].1, *ledger, depth as nat)->Ok_0.1;
            if i == 0 {
                text = fs@[i as int].0@ + ": "@ + s@ + ""@;
            } else {
                text = text + ", "@ + (fs@[i as int].0@ + ": "@ + s@ + ""@);
            }
            found = found + g;
            assert(ids_view(vaults@) =~= start + found);
            assert(buf@ =~= "{ "@ + text);
        }
        i = i + 1;
    }
    buf.append(" }");
    proof {
        if fs@.len() == 0 {
            assert("{ "@ + Seq::<char>::empty() + " }"@ =~= buf@);
        }
    }
    Ok(buf)
}

fn fmt_map_in(
    es: &Vec<(DecodedValue, DecodedValue)>,
    begin: &str,
    end: &str,
    ledger: &Ledger,
    depth: usize,
    vaults: &mut Vec<EntityId>,
) -> (r: Result<String, DecodeError>)
    ensures
        formatted(
            r,
            wrap(begin@, fmt_pairs(view_pairs(*es, es@.len() as nat), *ledger, depth as nat, es@.len() as nat), end@),
            ids_view(old(vaults)@),
            ids_view(final(vaults)@),
        ),
    decreases depth, 2int, es, 1int,
{
    let ghost vs = view_pairs(*es, es@.len() as nat);
    let ghost start = ids_view(vaults@);
    proof {
        lemma_view_pairs(*es, es@.len() as nat);
    }
    let mut buf = String::from_str(begin);
    let ghost mut text: Seq<char> = Seq::empty();
    let ghost mut found: Seq<(Seq<u8>, u32)> = Seq::empty();
    let mut i: usize = 0;
    proof {
        assert(begin@ + text =~= begin@);
        assert(start + found =~= start);
    }
    while i < es.len()
        invariant
            i <= es@.len(),
            vs == view_pairs(*es, es@.len() as nat),
            vs.len() == es@.len(),
            forall|j: int| 0 <= j < es@.len() ==> #[trigger] vs[j] == (view_value(es@[j].0), view_value(es@[j].1)),
            i == 0 ==> text == Seq::<char>::empty() && found == Seq::<(Seq<u8>, u32)>::empty(),
            i > 0 ==> fmt_pairs(vs, *ledger, depth as nat, i as nat) == Formatted::Ok((text, found)),
            buf@ == begin@ + text,
            ids_view(vaults@) == start + found,
            start == ids_view(old(vaults)@),
        decreases es@.len() - i,
    {
        let ghost mid = ids_view(vaults@);
        assert(vs[i as int] == (view_value(es@[i as int].0), view_value(es@[i as int].1)));
        let k = match fmt_value_in(&es[i].0, ledger, depth, vaults) {
            Ok(s) => s,
            Err(e) => {
                proof {
                    let g = fmt_value(vs[i as int].0, *ledger, depth as nat)->Err_0.1;
                    assert(ids_view(vaults@) =~= start + (found + g));
                    assert(found + g =~= g || i > 0);
                    lemma_pairs_err(vs, *ledger, depth as nat, (i + 1) as nat, es@.len() as nat);
                }
                return Err(e);
            },
        };
        let ghost mid2 = ids_view(vaults@);
        let v = match fmt_value_in(&es[i].1, ledger, depth, vaults) {
            Ok(s) => s,
            Err(e) => {
                proof {
                    let g1 = fmt_value(vs[i as int].0, *ledger, depth as nat)->Ok_0.1;
                    let g2 = fmt_value(vs[i as int].1, *ledger, depth as nat)->Err_0.1;
                    assert(ids_view(vaults@) =~= start + (found + (g1 + g2)));
                    assert(found + (g1 + g2) =~= g1 + g2 || i > 0);
                    lemma_pairs_err(vs, *ledger, depth as nat, (i + 1) as nat, es@.len() as nat);
                }
                return Err(e);
            },
        };
        if i > 0 {
            buf.append(", ");
        }
        buf.append(k.as_str());
        buf.append(" => ");
        buf.append(v.as_str());
        proof {
            let g1 = fmt_value(vs[i as int].0, *ledger, depth as nat)->Ok_0.1;
            let g2 = fmt_value(vs[i as int].1, *ledger, depth as nat)->Ok_0.1;
            if i == 0 {
                text = k@ + " => "@ + v@;
            } else {
                text = text + ", "@ + (k@ + " => "@ + v@);
            }
            found = found + (g1 + g2);
            assert(ids_view(vaults@) =~= start + found);
            assert(buf@ =~= begin@ + text);
        }
        i = i + 1;
    }
    buf.append(end);
    proof {
        if es@.len() == 0 {
            assert(begin@ + Seq::<char>::empty() + end@ =~= buf@);
        }
    }
    Ok(buf)
}

/// The `i`-th entry of a lazy map, decoded and shown as `key => value`.
fn fmt_entry_in(m: &LazyMap, i: usize, ledger: &Ledger, depth: usize, vaults: &mut Vec<EntityId>) -> (r: Result<String, DecodeError>)
    requires
        i < m.entries@.len(),
        depth > 0,
    ensures
        formatted(
            r,
            join2(
                fmt_data(m.entries@[i as int].0@, *ledger, (depth - 1) as nat),
                " => "@,
                fmt_data(m.entries@[i as int].1@, *ledger, (depth - 1) as nat),
            ),
            ids_view(old(vaults)@),
            ids_view(final(vaults)@),
        ),
    decreases depth, 0int, m, 0int,
{
    let ghost start = ids_view(vaults@);
    let k = match fmt_data_in(&m.entries[i].0, ledger, depth - 1, vaults) {
        Ok(s) => s,
        Err(e) => return Err(e),
    };
    let ghost mid = ids_view(vaults@);
    let v = match fmt_data_in(&m.entries[i].1, ledger, depth - 1, vaults) {
        Ok(s) => s,
        Err(e) => {
            proof {
                let g1 = fmt_data(m.entries@[i as int].0@, *ledger, (depth - 1) as nat)->Ok_0.1;
                let g2 = fmt_data(m.entries@[i as int].1@, *ledger, (depth - 1) as nat)->Err_0.1;
                assert(ids_view(vaults@) =~= start + (g1 + g2));
            }
            return Err(e);
        },
    };
    proof {
        let g1 = fmt_data(m.entries@[i as int].0@, *ledger, (depth - 1) as nat)->Ok_0.1;
        let g2 = fmt_data(m.entries@[i as int].1@, *ledger, (depth - 1) as nat)->Ok_0.1;
        assert(ids_view(vaults@) =~= start + (g1 + g2));
    }
    Ok(concat3(k.as_str(), " => ", v.as_str()))
}

fn fmt_entries_in(m: &LazyMap, ledger: &Ledger, depth: usize, vaults: &mut Vec<EntityId>) -> (r: Result<String, DecodeError>)
    ensures
        formatted(r, fmt_entries(*m, *ledger, depth as nat, m.entries@.len() as nat), ids_view(old(vaults)@), ids_view(final(vaults)@)),
    decreases depth, 0int, m, 1int,
{
    let ghost start = ids_view(vaults@);
    proof {
        assert(start + Seq::empty() =~= start);
    }
    if m.entries.len() == 0 {
        return Ok(String::new());
    }
    if depth == 0 {
        return Err(DecodeError::NestingTooDeep);
    }
    let mut buf = String::new();
    let ghost mut found: Seq<(Seq<u8>, u32)> = Seq::empty();
    let mut i: usize = 0;
    while i < m.entries.len()
        invariant
            i <= m.entries@.len(),
            depth > 0,
            i == 0 ==> buf@ == Seq::<char>::empty() && found == Seq::<(Seq<u8>, u32)>::empty(),
            i > 0 ==> fmt_entries(*m, *ledger, depth as nat, i as nat) == Formatted::Ok((buf@, found)),
            ids_view(vaults@) == start + found,
            start == ids_view(old(vaults)@),
        decreases m.entries@.len() - i,
    {
        let ghost mid = ids_view(vaults@);
        let ghost e = join2(
            fmt_data(m.entries@[i as int].0@, *ledger, (depth - 1) as nat),
            " => "@,
            fmt_data(m.entries@[i as int].1@, *ledger, (depth - 1) as nat),
        );
        let s = match fmt_entry_in(m, i, ledger, depth, vaults) {
            Ok(s) => s,
            Err(err) => {
                proof {
                    let g = e->Err_0.1;
                    assert(ids_view(vaults@) =~= start + (found + g));
                    assert(found + g =~= g || i > 0);
                    assert(fmt_entries(*m, *ledger, depth as nat, (i + 1) as nat) is Err);
                    lemma_entries_err(*m, *ledger, depth as nat, (i + 1) as nat, m.entries@.len() as nat);
                }
                return Err(err);
            },
        };
        let ghost old_buf = buf@;
        if i > 0 {
            buf.append(", ");
        }
        buf.append(s.as_str());
        proof {
            let g = e->Ok_0.1;
            if i == 0 {
                assert(fmt_entries(*m, *ledger, depth as nat, 1) == e);
                assert(buf@ =~= s@);
            } else {
                assert(fmt_entries(*m, *ledger, depth as nat, (i + 1) as nat)
                    == join2(fmt_entries(*m, *ledger, depth as nat, i as nat), ", "@, e));
                assert(buf@ =~= old_buf + ", "@ + s@);
            }
            found = found + g;
            assert(ids_view(vaults@) =~= start + found);
        }
        i = i + 1;
    }
    Ok(buf)
}

fn fmt_custom_in(t: u8, b: &Vec<u8>, ledger: &Ledger, depth: usize, vaults: &mut Vec<EntityId>) -> (r: Result<String, DecodeError>)
    ensures
        formatted(r, fmt_custom(t, b@, *ledger, depth as nat), ids_view(old(vaults)@), ids_view(final(vaults)@)),
    decreases depth, 1int, b, 0int,
{
    let ghost start = ids_view(vaults@);
    proof {
        assert(start + Seq::empty() =~= start);
    }
    let bad = DecodeError::InvalidCustomData(t);
    if t == TYPE_DECIMAL {
        match decimal_string(b.as_slice()) {
            Some(s) => Ok(s),
            None => Err(bad),
        }
    } else if t == TYPE_BIG_DECIMAL {
        match big_decimal_string(b.as_slice()) {
            Some(s) => Ok(s),
            None => Err(bad),
        }
    } else if t == TYPE_ADDRESS {
        match Address::from_bytes(b.as_slice()) {
            Some(_) => Ok(hex_string(b.as_slice())),
            None => Err(bad),
        }
    } else if t == TYPE_H256 {
        match hash_string(b.as_slice()) {
            Some(s) => Ok(s),
            None => Err(bad),
        }
    } else if t == TYPE_LAZY_MAP_ID {
        if b.len() != ID_LEN {
            return Err(bad);
        }
        let id = entity_id_of(b.as_slice());
        let mut head = id_string("Mid", &id);
        head.append(" { ");
        match ledger.get_lazy_map(&id) {
            None => {
                head.append(" }");
                Ok(head)
            },
            Some(i) => match fmt_entries_in(&ledger.lazy_maps[i], ledger, depth, vaults) {
                Ok(s) => {
                    head.append(s.as_str());
                    head.append(" }");
                    Ok(head)
                },
                Err(e) => Err(e),
            },
        }
    } else if t == TYPE_BUCKET_ID || t == TYPE_RESOURCE_REF_ID {
        if b.len() != 4 {
            return Err(bad);
        }
        let n = read_u32(b.as_slice(), 0);
        Ok(handle_string(if t == TYPE_BUCKET_ID { "Bid" } else { "Rid" }, n))
    } else if t == TYPE_VAULT_ID {
        if b.len() != ID_LEN {
            return Err(bad);
        }
        let id = entity_id_of(b.as_slice());
        let s = id_string("Vid", &id);
        vaults.push(id);
        proof {
            assert(ids_view(vaults@) =~= start + seq![id_of(b@)]);
        }
        Ok(s)
    } else {
        Err(DecodeError::InvalidType { expected: None, actual: t })
    }
}

} // verus!

verus! {

/// How deep lazy maps may nest when formatting against `l`: a chain deeper than the number of
/// maps in the ledger must pass through one map twice, and would never end.
pub open spec fn nesting_bound(l: Ledger) -> nat {
    l.lazy_maps@.len()
}

/// Decodes `data` and formats the value against `ledger`, appending every vault id met to `vaults`.
pub fn format_data_with_ledger(data: &[u8], ledger: &Ledger, vaults: &mut Vec<EntityId>) -> (r: Result<String, DecodeError>)
    ensures
        formatted(r, fmt_data(data@, *ledger, nesting_bound(*ledger)), ids_view(old(vaults)@), ids_view(final(vaults)@)),
{
    match decode_any(data) {
        Ok(v) => fmt_value_in(&v, ledger, ledger.lazy_maps.len(), vaults),
        Err(e) => {
            proof {
                assert(ids_view(vaults@) + Seq::empty() =~= ids_view(vaults@));
            }
            Err(e)
        },
    }
}

/// Formats a decoded value against `ledger`, appending every vault id met to `vaults`.
pub fn format_value(value: &DecodedValue, ledger: &Ledger, vaults: &mut Vec<EntityId>) -> (r: Result<String, DecodeError>)
    ensures
        formatted(r, fmt_value(value@, *ledger, nesting_bound(*ledger)), ids_view(old(vaults)@), ids_view(final(vaults)@)),
{
    fmt_value_in(value, ledger, ledger.lazy_maps.len(), vaults)
}

/// Formats the fields of a struct or an enum variant.
pub fn format_fields(fields: &Fields, ledger: &Ledger, vaults: &mut Vec<EntityId>) -> (r: Result<String, DecodeError>)
    ensures
        formatted(r, fmt_fields(fields@, *ledger, nesting_bound(*ledger)), ids_view(old(vaults)@), ids_view(final(vaults)@)),
{
    fmt_fields_in(fields, ledger, ledger.lazy_maps.len(), vaults)
}

/// Formats values joined by `, ` between `begin` and `end`.
pub fn format_vec(
    elements: &Vec<DecodedValue>,
    begin: &str,
    end: &str,
    ledger: &Ledger,
    vaults: &mut Vec<EntityId>,
) -> (r: Result<String, DecodeError>)
    ensures
        formatted(
            r,
            wrap(begin@, fmt_list(view_list(*elements, elements@.len() as nat), *ledger, nesting_bound(*ledger), elements@.len() as nat), end@),
            ids_view(old(vaults)@),
            ids_view(final(vaults)@),
        ),
{
    fmt_vec_in(elements, begin, end, ledger, ledger.lazy_maps.len(), vaults)
}

/// Formats map entries as `key => value`, joined by `, `, between `begin` and `end`.
pub fn format_map(
    elements: &Vec<(DecodedValue, DecodedValue)>,
    begin: &str,
    end: &str,
    ledger: &Ledger,
    vaults: &mut Vec<EntityId>,
) -> (r: Result<String, DecodeError>)
    ensures
        formatted(
            r,
            wrap(begin@, fmt_pairs(view_pairs(*elements, elements@.len() as nat), *ledger, nesting_bound(*ledger), elements@.len() as nat), end@),
            ids_view(old(vaults)@),
            ids_view(final(vaults)@),
        ),
{
    fmt_map_in(elements, begin, end, ledger, ledger.lazy_maps.len(), vaults)
}

/// Formats a domain extension value of type `ty` with bytes `data`.
pub fn format_custom(ty: u8, data: &Vec<u8>, ledger: &Ledger, vaults: &mut Vec<EntityId>) -> (r: Result<String, DecodeError>)
    ensures
        formatted(r, fmt_custom(ty, data@, *ledger, nesting_bound(*ledger)), ids_view(old(vaults)@), ids_view(final(vaults)@)),
{
    fmt_custom_in(ty, data, ledger, ledger.lazy_maps.len(), vaults)
}

} // verus!

verus! {

/// Formatting is a function of the bytes and the ledger: two calls on the same bytes against the
/// same ledger give the same text, or the same error, and on success append the same vault ids.
pub proof fn formatting_is_deterministic(
    data: Seq<u8>,
    l: Ledger,
    r1: Result<String, DecodeError>,
    before1: Seq<(Seq<u8>, u32)>,
    after1: Seq<(Seq<u8>, u32)>,
    r2: Result<String, DecodeError>,
    before2: Seq<(Seq<u8>, u32)>,
    after2: Seq<(Seq<u8>, u32)>,
)
    requires
        formatted(r1, fmt_data(data, l, nesting_bound(l)), before1, after1),
        formatted(r2, fmt_data(data, l, nesting_bound(l)), before2, after2),
    ensures
        r1 is Ok <==> r2 is Ok,
        r1 is Ok ==> r1->Ok_0@ == r2->Ok_0@,
        r1 is Err ==> r1 == r2,
        after1.len() >= before1.len(),
        after2.len() >= before2.len(),
        after1.subrange(before1.len() as int, after1.len() as int)
            == after2.subrange(before2.len() as int, after2.len() as int),
{
    match fmt_data(data, l, nesting_bound(l)) {
        Ok((s, found)) => {
            assert(after1.subrange(before1.len() as int, after1.len() as int) =~= found);
            assert(after2.subrange(before2.len() as int, after2.len() as int) =~= found);
        },
        Err((e, met)) => {
            assert(after1.subrange(before1.len() as int, after1.len() as int) =~= met);
            assert(after2.subrange(before2.len() as int, after2.len() as int) =~= met);
        },
    }
}

/// Whether `b` has the layout of the domain extension type `t`; lazy map ids are left out, since
/// their entries come from the ledger.
pub open spec fn custom_well_formed(t: u8, b: Seq<u8>) -> bool {
    if t == TYPE_DECIMAL {
        b.len() == DECIMAL_LEN
    } else if t == TYPE_BIG_DECIMAL {
        b.len() == BIG_DECIMAL_LEN
    } else if t == TYPE_ADDRESS {
        address_kind_of(b) is Some
    } else if t == TYPE_H256 {
        b.len() == H256_LEN
    } else if t == TYPE_BUCKET_ID || t == TYPE_RESOURCE_REF_ID {
        b.len() == 4
    } else if t == TYPE_VAULT_ID {
        b.len() == ID_LEN
    } else {
        false
    }
}

/// The vault ids that a value holds, in pre-order, left to right; `None` if it holds a lazy map id
/// or a domain extension value that is malformed or of an unknown type.
pub open spec fn vaults_in(v: ValueModel) -> Option<Seq<(Seq<u8>, u32)>>
    decreases v, 0int,
{
    match v {
        ValueModel::Struct(f) => vaults_in_fields(f),
        ValueModel::Enum(_, f) => vaults_in_fields(f),
        ValueModel::Option(o) => match o {
            Some(x) => vaults_in(*x),
            None => Some(Seq::empty()),
        },
        ValueModel::Box(x) => vaults_in(*x),
        ValueModel::Array(_, es) => vaults_in_list(es, es.len()),
        ValueModel::Tuple(es) => vaults_in_list(es, es.len()),
        ValueModel::Result(r) => match *r {
            Ok(x) => vaults_in(x),
            Err(x) => vaults_in(x),
        },
        ValueModel::Vec(_, es) => vaults_in_list(es, es.len()),
        ValueModel::TreeSet(_, es) => vaults_in_list(es, es.len()),
        ValueModel::HashSet(_, es) => vaults_in_list(es, es.len()),
        ValueModel::TreeMap(_, _, es) => vaults_in_pairs(es, es.len()),
        ValueModel::HashMap(_, _, es) => vaults_in_pairs(es, es.len()),
        ValueModel::Custom(t, b) => if !custom_well_formed(t, b) {
            None
        } else if t == TYPE_VAULT_ID {
            Some(seq![id_of(b)])
        } else {
            Some(Seq::empty())
        },
        _ => Some(Seq::empty()),
    }
}

pub open spec fn vaults_in_fields(f: FieldsModel) -> Option<Seq<(Seq<u8>, u32)>>
    decreases f, 0int,
{
    match f {
        FieldsModel::Named(fs) => vaults_in_named(fs, fs.len()),
        FieldsModel::Unnamed(es) => vaults_in_list(es, es.len()),
        FieldsModel::Unit => Some(Seq::empty()),
    }
}

pub open spec fn concat_ids(a: Option<Seq<(Seq<u8>, u32)>>, b: Option<Seq<(Seq<u8>, u32)>>) -> Option<Seq<(Seq<u8>, u32)>> {
    match (a, b) {
        (Some(x), Some(y)) => Some(x + y),
        _ => None,
    }
}

pub open spec fn vaults_in_list(es: Seq<ValueModel>, n: nat) -> Option<Seq<(Seq<u8>, u32)>>
    decreases es, n,
{
    if n == 0 || n > es.len() {
        Some(Seq::empty())
    } else {
        concat_ids(vaults_in_list(es, (n - 1) as nat), vaults_in(es[n - 1]))
    }
}

pub open spec fn vaults_in_named(fs: Seq<(Seq<char>, ValueModel)>, n: nat) -> Option<Seq<(Seq<u8>, u32)>>
    decreases fs, n,
{
    if n == 0 || n > fs.len() {
        Some(Seq::empty())
    } else {
        concat_ids(vaults_in_named(fs, (n - 1) as nat), vaults_in(fs[n - 1].1))
    }
}

pub open spec fn vaults_in_pairs(es: Seq<(ValueModel, ValueModel)>, n: nat) -> Option<Seq<(Seq<u8>, u32)>>
    decreases es, n,
{
    if n == 0 || n > es.len() {
        Some(Seq::empty())
    } else {
        concat_ids(vaults_in_pairs(es, (n - 1) as nat), concat_ids(vaults_in(es[n - 1].0), vaults_in(es[n - 1].1)))
    }
}

/// Formatting a value whose domain extension values are all well formed, and which holds no lazy
/// map id, succeeds and reports exactly the vault ids it holds, in the order met: pre-order, left
/// to right, map keys before their values, at any depth.
pub proof fn vaults_found_in_order(v: ValueModel, l: Ledger, d: nat)
    requires
        vaults_in(v) is Some,
    ensures
        fmt_value(v, l, d) is Ok,
        fmt_value(v, l, d)->Ok_0.1 == vaults_in(v)->Some_0,
    decreases v, 0int,
{
    match v {
        ValueModel::Struct(f) => vaults_found_fields(f, l, d),
        ValueModel::Enum(_, f) => vaults_found_fields(f, l, d),
        ValueModel::Option(o) => match o {
            Some(x) => vaults_found_in_order(*x, l, d),
            None => {},
        },
        ValueModel::Box(x) => vaults_found_in_order(*x, l, d),
        ValueModel::Array(_, es) => vaults_found_list(es, l, d, es.len()),
        ValueModel::Tuple(es) => vaults_found_list(es, l, d, es.len()),
        ValueModel::Result(r) => match *r {
            Ok(x) => vaults_found_in_order(x, l, d),
            Err(x) => vaults_found_in_order(x, l, d),
        },
        ValueModel::Vec(_, es) => vaults_found_list(es, l, d, es.len()),
        ValueModel::TreeSet(_, es) => vaults_found_list(es, l, d, es.len()),
        ValueModel::HashSet(_, es) => vaults_found_list(es, l, d, es.len()),
        ValueModel::TreeMap(_, _, es) => vaults_found_pairs(es, l, d, es.len()),
        ValueModel::HashMap(_, _, es) => vaults_found_pairs(es, l, d, es.len()),
        ValueModel::Custom(t, b) => {
            assert(fmt_value(v, l, d) == fmt_custom(t, b, l, d));
        },
        _ => {},
    }
}

proof fn vaults_found_fields(f: FieldsModel, l: Ledger, d: nat)
    requires
        vaults_in_fields(f) is Some,
    ensures
        fmt_fields(f, l, d) is Ok,
        fmt_fields(f, l, d)->Ok_0.1 == vaults_in_fields(f)->Some_0,
    decreases f, 0int,
{
    match f {
        FieldsModel::Named(fs) => vaults_found_named(fs, l, d, fs.len()),
        FieldsModel::Unnamed(es) => vaults_found_list(es, l, d, es.len()),
        FieldsModel::Unit => {},
    }
}

proof fn vaults_found_list(es: Seq<ValueModel>, l: Ledger, d: nat, n: nat)
    requires
        vaults_in_list(es, n) is Some,
    ensures
        fmt_list(es, l, d, n) is Ok,
        fmt_list(es, l, d, n)->Ok_0.1 == vaults_in_list(es, n)->Some_0,
    decreases es, n,
{
    if n == 0 || n > es.len() {
    } else if n == 1 {
        assert(vaults_in_list(es, 0) == Some(Seq::<(Seq<u8>, u32)>::empty()));
        vaults_found_in_order(es[0], l, d);
        assert(Seq::<(Seq<u8>, u32)>::empty() + vaults_in(es[0])->Some_0 =~= vaults_in(es[0])->Some_0);
    } else {
        vaults_found_list(es, l, d, (n - 1) as nat);
        vaults_found_in_order(es[n - 1], l, d);
    }
}

proof fn vaults_found_named(fs: Seq<(Seq<char>, ValueModel)>, l: Ledger, d: nat, n: nat)
    requires
        vaults_in_named(fs, n) is Some,
    ensures
        fmt_named(fs, l, d, n) is Ok,
        fmt_named(fs, l, d, n)->Ok_0.1 == vaults_in_named(fs, n)->Some_0,
    decreases fs, n,
{
    if n == 0 || n > fs.len() {
    } else if n == 1 {
        assert(vaults_in_named(fs, 0) == Some(Seq::<(Seq<u8>, u32)>::empty()));
        vaults_found_in_order(fs[0].1, l, d);
        assert(Seq::<(Seq<u8>, u32)>::empty() + vaults_in(fs[0].1)->Some_0 =~= vaults_in(fs[0].1)->Some_0);
    } else {
        vaults_found_named(fs, l, d, (n - 1) as nat);
        vaults_found_in_order(fs[n - 1].1, l, d);
    }
}

proof fn vaults_found_pairs(es: Seq<(ValueModel, ValueModel)>, l: Ledger, d: nat, n: nat)
    requires
        vaults_in_pairs(es, n) is Some,
    ensures
        fmt_pairs(es, l, d, n) is Ok,
        fmt_pairs(es, l, d, n)->Ok_0.1 == vaults_in_pairs(es, n)->Some_0,
    decreases es, n,
{
    if n == 0 || n > es.len() {
    } else {
        if n > 1 {
            vaults_found_pairs(es, l, d, (n - 1) as nat);
        }
        vaults_found_in_order(es[n - 1].0, l, d);
        vaults_found_in_order(es[n - 1].1, l, d);
        if n == 1 {
            assert(vaults_in_pairs(es, 0) == Some(Seq::<(Seq<u8>, u32)>::empty()));
            let kv = vaults_in(es[0].0)->Some_0 + vaults_in(es[0].1)->Some_0;
            assert(Seq::<(Seq<u8>, u32)>::empty() + kv =~= kv);
        } else {
            let a = vaults_in_pairs(es, (n - 1) as nat)->Some_0;
            let b = vaults_in(es[n - 1].0)->Some_0;
            let c = vaults_in(es[n - 1].1)->Some_0;
            assert(a + (b + c) =~= a + (b + c));
        }
    }
}

} // verus!

verus! {

/// Bytes that do not decode are rejected before any value is formatted: the vault list is left
/// as it was. In particular a leading byte that is no value tag gives an invalid-type error naming
/// it, whatever follows.
pub proof fn undecodable_bytes_meet_no_vault(data: Seq<u8>, l: Ledger)
    requires
        parse_all(data) is Err,
    ensures
        fmt_data(data, l, nesting_bound(l)) == Formatted::Err((parse_all(data)->Err_0, Seq::empty())),
        data.len() > 0 && !is_value_tag(data[0]) ==> fmt_data(data, l, nesting_bound(l))
            == Formatted::Err((DecodeError::InvalidType { expected: None, actual: data[0] }, Seq::empty())),
{
    if data.len() > 0 && !is_value_tag(data[0]) {
        unknown_tag_rejected(data);
    }
}

} // verus!
