use vstd::prelude::*;

verus! {

broadcast use vstd::std_specs::vec::group_vec_axioms;

/// The fields of a struct or an enum variant.
#[derive(Debug)]
pub enum Fields {
    Named(Vec<(String, DecodedValue)>),
    Unnamed(Vec<DecodedValue>),
    Unit,
}

/// A decoded value of the tagged binary format.
#[derive(Debug)]
pub enum DecodedValue {
    Unit,
    Bool(bool),
    I8(i8),
    I16(i16),
    I32(i32),
    I64(i64),
    I128(i128),
    U8(u8),
    U16(u16),
    U32(u32),
    U64(u64),
    U128(u128),
    String(String),
    Struct(Fields),
    Enum(u8, Fields),
    Option(Box<Option<DecodedValue>>),
    Box(Box<DecodedValue>),
    Array(u8, Vec<DecodedValue>),
    Tuple(Vec<DecodedValue>),
    Result(Box<Result<DecodedValue, DecodedValue>>),
    Vec(u8, Vec<DecodedValue>),
    TreeSet(u8, Vec<DecodedValue>),
    TreeMap(u8, u8, Vec<(DecodedValue, DecodedValue)>),
    HashSet(u8, Vec<DecodedValue>),
    HashMap(u8, u8, Vec<(DecodedValue, DecodedValue)>),
    Custom(u8, Vec<u8>),
}

/// The mathematical form of `Fields`.
pub ghost enum FieldsModel {
    Named(Seq<(Seq<char>, ValueModel)>),
    Unnamed(Seq<ValueModel>),
    Unit,
}

/// The mathematical form of `DecodedValue`: strings as characters, sequences as `Seq`.
pub ghost enum ValueModel {
    Unit,
    Bool(bool),
    I8(i8),
    I16(i16),
    I32(i32),
    I64(i64),
    I128(i128),
    U8(u8),
    U16(u16),
    U32(u32),
    U64(u64),
    U128(u128),
    String(Seq<char>),
    Struct(FieldsModel),
    Enum(u8, FieldsModel),
    Option(Option<Box<ValueModel>>),
    Box(Box<ValueModel>),
    Array(u8, Seq<ValueModel>),
    Tuple(Seq<ValueModel>),
    Result(Box<Result<ValueModel, ValueModel>>),
    Vec(u8, Seq<ValueModel>),
    TreeSet(u8, Seq<ValueModel>),
    TreeMap(u8, u8, Seq<(ValueModel, ValueModel)>),
    HashSet(u8, Seq<ValueModel>),
    HashMap(u8, u8, Seq<(ValueModel, ValueModel)>),
    Custom(u8, Seq<u8>),
}

pub open spec fn view_value(v: DecodedValue) -> ValueModel
    decreases v,
{
    match v {
        DecodedValue::Unit => ValueModel::Unit,
        DecodedValue::Bool(b) => ValueModel::Bool(b),
        DecodedValue::I8(x) => ValueModel::I8(x),
        DecodedValue::I16(x) => ValueModel::I16(x),
        DecodedValue::I32(x) => ValueModel::I32(x),
        DecodedValue::I64(x) => ValueModel::I64(x),
        DecodedValue::I128(x) => ValueModel::I128(x),
        DecodedValue::U8(x) => ValueModel::U8(x),
        DecodedValue::U16(x) => ValueModel::U16(x),
        DecodedValue::U32(x) => ValueModel::U32(x),
        DecodedValue::U64(x) => ValueModel::U64(x),
        DecodedValue::U128(x) => ValueModel::U128(x),
        DecodedValue::String(s) => ValueModel::String(s@),
        DecodedValue::Struct(f) => ValueModel::Struct(view_fields(f)),
        DecodedValue::Enum(i, f) => ValueModel::Enum(i, view_fields(f)),
        DecodedValue::Option(o) => match *o {
            Some(x) => ValueModel::Option(Some(Box::new(view_value(x)))),
            None => ValueModel::Option(None),
        },
        DecodedValue::Box(x) => ValueModel::Box(Box::new(view_value(*x))),
        DecodedValue::Array(t, es) => ValueModel::Array(t, view_list(es, es.len() as nat)),
        DecodedValue::Tuple(es) => ValueModel::Tuple(view_list(es, es.len() as nat)),
        DecodedValue::Result(r) => match *r {
            Ok(x) => ValueModel::Result(Box::new(Ok(view_value(x)))),
            Err(x) => ValueModel::Result(Box::new(Err(view_value(x)))),
        },
        DecodedValue::Vec(t, es) => ValueModel::Vec(t, view_list(es, es.len() as nat)),
        DecodedValue::TreeSet(t, es) => ValueModel::TreeSet(t, view_list(es, es.len() as nat)),
        DecodedValue::TreeMap(k, t, es) => ValueModel::TreeMap(k, t, view_pairs(es, es.len() as nat)),
        DecodedValue::HashSet(t, es) => ValueModel::HashSet(t, view_list(es, es.len() as nat)),
        DecodedValue::HashMap(k, t, es) => ValueModel::HashMap(k, t, view_pairs(es, es.len() as nat)),
        DecodedValue::Custom(t, b) => ValueModel::Custom(t, b@),
    }
}

/// The views of the first `n` values of `es`.
pub open spec fn view_list(es: Vec<DecodedValue>, n: nat) -> Seq<ValueModel>
    decreases es, n,
{
    if n == 0 || n > es.len() {
        Seq::empty()
    } else {
        view_list(es, (n - 1) as nat).push(view_value(es[n - 1]))
    }
}

/// The views of the first `n` pairs of `es`.
pub open spec fn view_pairs(es: Vec<(DecodedValue, DecodedValue)>, n: nat) -> Seq<(ValueModel, ValueModel)>
    decreases es, n,
{
    if n == 0 || n > es.len() {
        Seq::empty()
    } else {
        view_pairs(es, (n - 1) as nat).push((view_value(es[n - 1].0), view_value(es[n - 1].1)))
    }
}

/// The views of the first `n` named fields of `es`.
pub open spec fn view_named(es: Vec<(String, DecodedValue)>, n: nat) -> Seq<(Seq<char>, ValueModel)>
    decreases es, n,
{
    if n == 0 || n > es.len() {
        Seq::empty()
    } else {
        view_named(es, (n - 1) as nat).push((es[n - 1].0@, view_value(es[n - 1].1)))
    }
}

pub open spec fn view_fields(f: Fields) -> FieldsModel
    decreases f,
{
    match f {
        Fields::Named(es) => FieldsModel::Named(view_named(es, es.len() as nat)),
        Fields::Unnamed(es) => FieldsModel::Unnamed(view_list(es, es.len() as nat)),
        Fields::Unit => FieldsModel::Unit,
    }
}

impl View for DecodedValue {
    type V = ValueModel;

    open spec fn view(&self) -> ValueModel {
        view_value(*self)
    }
}

impl View for Fields {
    type V = FieldsModel;

    open spec fn view(&self) -> FieldsModel {
        view_fields(*self)
    }
}

} // verus!

verus! {

pub proof fn lemma_view_list(es: Vec<DecodedValue>, n: nat)
    requires
        n <= es.len(),
    ensures
        view_list(es, n).len() == n,
        forall|j: int| 0 <= j < n ==> #[trigger] view_list(es, n)[j] == view_value(es[j]),
    decreases n,
{
    if n > 0 {
        lemma_view_list(es, (n - 1) as nat);
    }
}

pub proof fn lemma_view_pairs(es: Vec<(DecodedValue, DecodedValue)>, n: nat)
    requires
        n <= es.len(),
    ensures
        view_pairs(es, n).len() == n,
        forall|j: int| 0 <= j < n ==> #[trigger] view_pairs(es, n)[j] == (view_value(es[j].0), view_value(es[j].1)),
    decreases n,
{
    if n > 0 {
        lemma_view_pairs(es, (n - 1) as nat);
    }
}

pub proof fn lemma_view_named(es: Vec<(String, DecodedValue)>, n: nat)
    requires
        n <= es.len(),
    ensures
        view_named(es, n).len() == n,
        forall|j: int| 0 <= j < n ==> #[trigger] view_named(es, n)[j] == (es[j].0@, view_value(es[j].1)),
    decreases n,
{
    if n > 0 {
        lemma_view_named(es, (n - 1) as nat);
    }
}

} // verus!
