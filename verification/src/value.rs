//! Plain component values, their types, and the guard on what may cross the
//! link seam.

use vstd::prelude::*;

verus! {

/// A component value. Floating-point values are held as their bits.
#[derive(Debug, PartialEq, Eq)]
pub enum Val {
    Bool(bool),
    S8(i8),
    U8(u8),
    S16(i16),
    U16(u16),
    S32(i32),
    U32(u32),
    S64(i64),
    U64(u64),
    Float32(u32),
    Float64(u64),
    Char(char),
    Str(String),
    List(Vec<Val>),
    Record(Vec<(String, Val)>),
    Tuple(Vec<Val>),
    Variant(String, Option<Box<Val>>),
    Enum(String),
    Opt(Option<Box<Val>>),
    Res(Result<Option<Box<Val>>, Option<Box<Val>>>),
    Flags(Vec<String>),
    /// A live resource handle.
    Resource,
    Mapping(Vec<(Val, Val)>),
    Future,
    Stream,
    ErrorContext,
}

/// A component value, as the contracts speak of it.
pub enum ValModel {
    Bool(bool),
    S8(i8),
    U8(u8),
    S16(i16),
    U16(u16),
    S32(i32),
    U32(u32),
    S64(i64),
    U64(u64),
    Float32(u32),
    Float64(u64),
    Char(char),
    Str(Seq<char>),
    List(Seq<ValModel>),
    Record(Seq<(Seq<char>, ValModel)>),
    Tuple(Seq<ValModel>),
    Variant(Seq<char>, Option<Box<ValModel>>),
    Enum(Seq<char>),
    Opt(Option<Box<ValModel>>),
    Res(Result<Option<Box<ValModel>>, Option<Box<ValModel>>>),
    Flags(Seq<Seq<char>>),
    Resource,
    Mapping(Seq<(ValModel, ValModel)>),
    Future,
    Stream,
    ErrorContext,
}

/// The type of a component value.
#[derive(Debug, PartialEq, Eq)]
pub enum Type {
    Bool,
    S8,
    U8,
    S16,
    U16,
    S32,
    U32,
    S64,
    U64,
    Float32,
    Float64,
    Char,
    Str,
    List(Box<Type>),
    Record(Vec<(String, Type)>),
    Tuple(Vec<Type>),
    Variant(Vec<(String, Option<Type>)>),
    Enum(Vec<String>),
    Opt(Box<Type>),
    Res(Option<Box<Type>>, Option<Box<Type>>),
    Flags(Vec<String>),
    Own,
    Borrow,
    Future,
    Stream,
    ErrorContext,
    Mapping,
    FixedLengthList,
}

/// The models of a sequence of values.
pub open spec fn models(vals: Seq<Val>) -> Seq<ValModel>
    decreases vals,
{
    Seq::new(
        vals.len(),
        |i: int|
            if 0 <= i < vals.len() {
                vals[i].model()
            } else {
                ValModel::Resource
            },
    )
}

/// The models of a sequence of named values.
pub open spec fn field_models(fields: Seq<(String, Val)>) -> Seq<(Seq<char>, ValModel)>
    decreases fields,
{
    Seq::new(
        fields.len(),
        |i: int|
            if 0 <= i < fields.len() {
                (fields[i].0@, fields[i].1.model())
            } else {
                (Seq::empty(), ValModel::Resource)
            },
    )
}

/// The models of a sequence of entries.
pub open spec fn entry_models(entries: Seq<(Val, Val)>) -> Seq<(ValModel, ValModel)>
    decreases entries,
{
    Seq::new(
        entries.len(),
        |i: int|
            if 0 <= i < entries.len() {
                (entries[i].0.model(), entries[i].1.model())
            } else {
                (ValModel::Resource, ValModel::Resource)
            },
    )
}

/// The model of an optional boxed value.
pub open spec fn payload_model(payload: Option<Box<Val>>) -> Option<Box<ValModel>>
    decreases payload,
{
    match payload {
        Some(val) => Some(Box::new(val.model())),
        None => None,
    }
}

impl Val {
    pub open spec fn model(self) -> ValModel
        decreases self,
    {
        match self {
            Val::Bool(v) => ValModel::Bool(v),
            Val::S8(v) => ValModel::S8(v),
            Val::U8(v) => ValModel::U8(v),
            Val::S16(v) => ValModel::S16(v),
            Val::U16(v) => ValModel::U16(v),
            Val::S32(v) => ValModel::S32(v),
            Val::U32(v) => ValModel::U32(v),
            Val::S64(v) => ValModel::S64(v),
            Val::U64(v) => ValModel::U64(v),
            Val::Float32(v) => ValModel::Float32(v),
            Val::Float64(v) => ValModel::Float64(v),
            Val::Char(v) => ValModel::Char(v),
            Val::Str(v) => ValModel::Str(v@),
            Val::List(vals) => ValModel::List(models(vals@)),
            Val::Record(fields) => ValModel::Record(field_models(fields@)),
            Val::Tuple(vals) => ValModel::Tuple(models(vals@)),
            Val::Variant(name, payload) => ValModel::Variant(name@, payload_model(payload)),
            Val::Enum(name) => ValModel::Enum(name@),
            Val::Opt(payload) => ValModel::Opt(payload_model(payload)),
            Val::Res(Ok(payload)) => ValModel::Res(Ok(payload_model(payload))),
            Val::Res(Err(payload)) => ValModel::Res(Err(payload_model(payload))),
            Val::Flags(names) => ValModel::Flags(crate::text::views(names@)),
            Val::Resource => ValModel::Resource,
            Val::Mapping(entries) => ValModel::Mapping(entry_models(entries@)),
            Val::Future => ValModel::Future,
            Val::Stream => ValModel::Stream,
            Val::ErrorContext => ValModel::ErrorContext,
        }
    }
}

/// Whether a value carries a live resource handle: it is one, or one of the
/// values that a list, tuple, record, variant, option or result holds carries
/// one.
pub open spec fn carries_resource(val: ValModel) -> bool
    decreases val,
{
    match val {
        ValModel::Resource => true,
        ValModel::List(vals) => exists|i: int|
            0 <= i < vals.len() && carries_resource(#[trigger] vals[i]),
        ValModel::Tuple(vals) => exists|i: int|
            0 <= i < vals.len() && carries_resource(#[trigger] vals[i]),
        ValModel::Record(fields) => exists|i: int|
            0 <= i < fields.len() && carries_resource((#[trigger] fields[i]).1),
        ValModel::Variant(_, Some(payload)) => carries_resource(*payload),
        ValModel::Opt(Some(payload)) => carries_resource(*payload),
        ValModel::Res(Ok(Some(payload))) => carries_resource(*payload),
        ValModel::Res(Err(Some(payload))) => carries_resource(*payload),
        _ => false,
    }
}

/// Recursively reports whether a value carries a live resource handle.
#[must_use]
pub fn contains_resource(value: &Val) -> (r: bool)
    ensures
        r == carries_resource(value.model()),
    decreases value,
{
    proof {
        reveal_with_fuel(Val::model, 2);
        reveal_with_fuel(payload_model, 2);
        reveal_with_fuel(carries_resource, 2);
    }
    match value {
        Val::Resource => true,
        Val::List(values) => {
            assert(value.model()->List_0 == models(values@));
            any_resource(values)
        },
        Val::Tuple(values) => {
            assert(value.model()->Tuple_0 == models(values@));
            any_resource(values)
        },
        Val::Record(fields) => {
            let mut i: usize = 0;
            assert(value.model() == ValModel::Record(field_models(fields@)));
            while i < fields.len()
                invariant
                    i <= fields@.len(),
                    value.model() == ValModel::Record(field_models(fields@)),
                    *value == Val::Record(*fields),
                    forall|j: int|
                        0 <= j < i ==> !carries_resource((#[trigger] field_models(fields@)[j]).1),
                decreases fields@.len() - i,
            {
                let ghost seen = field_models(fields@)[i as int];
                if contains_resource(&fields[i].1) {
                    assert(value.model()->Record_0 == field_models(fields@));
                    assert(carries_resource(field_models(fields@)[i as int].1));
                    return true;
                }
                i = i + 1;
            }
            false
        },
        Val::Variant(_, Some(payload)) => contains_resource(payload),
        Val::Opt(Some(payload)) => contains_resource(payload),
        Val::Res(Ok(Some(payload))) => contains_resource(payload),
        Val::Res(Err(Some(payload))) => contains_resource(payload),
        _ => false,
    }
}

/// Whether any value of a list carries a live resource handle.
pub fn any_resource(values: &Vec<Val>) -> (r: bool)
    ensures
        r == exists|i: int|
            0 <= i < values@.len() && carries_resource(#[trigger] models(values@)[i]),
    decreases values,
{
    let mut i: usize = 0;
    while i < values.len()
        invariant
            i <= values@.len(),
            forall|j: int| 0 <= j < i ==> !carries_resource(#[trigger] models(values@)[j]),
        decreases values@.len() - i,
    {
        let ghost seen = models(values@)[i as int];
        if contains_resource(&values[i]) {
            return true;
        }
        i = i + 1;
    }
    false
}

/// Whether a value is one of those that another directly holds.
pub open spec fn holds_value(val: ValModel, part: ValModel) -> bool {
    match val {
        ValModel::List(vals) => vals.contains(part),
        ValModel::Tuple(vals) => vals.contains(part),
        ValModel::Record(fields) => exists|i: int|
            0 <= i < fields.len() && (#[trigger] fields[i]).1 == part,
        ValModel::Variant(_, Some(held)) => *held == part,
        ValModel::Opt(Some(held)) => *held == part,
        ValModel::Res(Ok(Some(held))) => *held == part,
        ValModel::Res(Err(Some(held))) => *held == part,
        _ => false,
    }
}

/// A resource handle is seen wherever it stands: a handle is one, and a value
/// carries one if one that it holds does.
pub proof fn handles_are_seen_through_values(val: ValModel, part: ValModel)
    ensures
        carries_resource(ValModel::Resource),
        holds_value(val, part) && carries_resource(part) ==> carries_resource(val),
{
    reveal_with_fuel(carries_resource, 2);
    if holds_value(val, part) && carries_resource(part) {
        match val {
            ValModel::List(vals) => {
                let i = choose|i: int| 0 <= i < vals.len() && vals[i] == part;
                assert(carries_resource(vals[i]));
            },
            ValModel::Tuple(vals) => {
                let i = choose|i: int| 0 <= i < vals.len() && vals[i] == part;
                assert(carries_resource(vals[i]));
            },
            ValModel::Record(fields) => {
                let i = choose|i: int| 0 <= i < fields.len() && (#[trigger] fields[i]).1 == part;
                assert(carries_resource(fields[i].1));
            },
            _ => {},
        }
    }
}

/// A value without handles is not refused for one: what carries a handle is
/// one, or holds a value that carries one.
pub proof fn handles_are_not_imagined(val: ValModel)
    requires
        carries_resource(val),
        val != ValModel::Resource,
    ensures
        exists|part: ValModel| #[trigger] holds_value(val, part) && carries_resource(part),
{
    reveal_with_fuel(carries_resource, 2);
    match val {
        ValModel::List(vals) => {
            let i = choose|i: int| 0 <= i < vals.len() && carries_resource(#[trigger] vals[i]);
            assert(holds_value(val, vals[i]));
        },
        ValModel::Tuple(vals) => {
            let i = choose|i: int| 0 <= i < vals.len() && carries_resource(#[trigger] vals[i]);
            assert(holds_value(val, vals[i]));
        },
        ValModel::Record(fields) => {
            let i = choose|i: int|
                0 <= i < fields.len() && carries_resource((#[trigger] fields[i]).1);
            assert(holds_value(val, fields[i].1));
        },
        ValModel::Variant(_, Some(held)) => {
            assert(holds_value(val, *held));
        },
        ValModel::Opt(Some(held)) => {
            assert(holds_value(val, *held));
        },
        ValModel::Res(Ok(Some(held))) => {
            assert(holds_value(val, *held));
        },
        ValModel::Res(Err(Some(held))) => {
            assert(holds_value(val, *held));
        },
        _ => {},
    }
}

/// A model is of the kind of its value: it holds the value's own number, text
/// or truth, as many parts as the value, a payload where the value has one,
/// and tells success from failure as the value does.
pub proof fn models_keep_kinds(val: Val)
    ensures
        match val {
            Val::Bool(v) => val.model() == ValModel::Bool(v),
            Val::S8(v) => val.model() == ValModel::S8(v),
            Val::U8(v) => val.model() == ValModel::U8(v),
            Val::S16(v) => val.model() == ValModel::S16(v),
            Val::U16(v) => val.model() == ValModel::U16(v),
            Val::S32(v) => val.model() == ValModel::S32(v),
            Val::U32(v) => val.model() == ValModel::U32(v),
            Val::S64(v) => val.model() == ValModel::S64(v),
            Val::U64(v) => val.model() == ValModel::U64(v),
            Val::Float32(v) => val.model() == ValModel::Float32(v),
            Val::Float64(v) => val.model() == ValModel::Float64(v),
            Val::Char(v) => val.model() == ValModel::Char(v),
            Val::Str(v) => val.model() == ValModel::Str(v@),
            Val::List(vals) => val.model() matches ValModel::List(held) && held.len() == vals@.len()
                && forall|i: int|
                0 <= i < held.len() ==> #[trigger] held[i] == vals@[i].model(),
            Val::Tuple(vals) => val.model() matches ValModel::Tuple(held) && held.len()
                == vals@.len() && forall|i: int|
                0 <= i < held.len() ==> #[trigger] held[i] == vals@[i].model(),
            Val::Record(fields) => val.model() matches ValModel::Record(held) && held.len()
                == fields@.len() && forall|i: int|
                0 <= i < held.len() ==> #[trigger] held[i] == (fields@[i].0@, fields@[i].1.model()),
            Val::Variant(name, payload) => val.model() matches ValModel::Variant(held, inner)
                && held == name@ && (payload is Some <==> inner is Some) && (payload matches Some(p)
                ==> *inner->0 == p.model()),
            Val::Enum(name) => val.model() == ValModel::Enum(name@),
            Val::Opt(payload) => val.model() matches ValModel::Opt(inner) && (payload is Some
                <==> inner is Some) && (payload matches Some(p) ==> *inner->0 == p.model()),
            Val::Res(Ok(payload)) => val.model() matches ValModel::Res(Ok(inner)) && (payload
                is Some <==> inner is Some) && (payload matches Some(p) ==> *inner->0
                == p.model()),
            Val::Res(Err(payload)) => val.model() matches ValModel::Res(Err(inner)) && (payload
                is Some <==> inner is Some) && (payload matches Some(p) ==> *inner->0
                == p.model()),
            Val::Flags(names) => val.model() == ValModel::Flags(crate::text::views(names@)),
            Val::Resource => val.model() == ValModel::Resource,
            Val::Mapping(entries) => val.model() matches ValModel::Mapping(held) && held.len()
                == entries@.len(),
            Val::Future => val.model() == ValModel::Future,
            Val::Stream => val.model() == ValModel::Stream,
            Val::ErrorContext => val.model() == ValModel::ErrorContext,
        },
{
    reveal_with_fuel(Val::model, 2);
    reveal_with_fuel(payload_model, 2);
    reveal_with_fuel(models, 2);
    reveal_with_fuel(field_models, 2);
    reveal_with_fuel(entry_models, 2);
}

} // verus!
