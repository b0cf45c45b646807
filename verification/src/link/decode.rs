//! Decoding of plain link-seam values from the link's wire format.
//!
//! The decode takes no store: the values that would need one (resources,
//! streams, futures) are refused at the link seam.

use crate::link::wire::{
    read_bool, read_char_utf8, read_core_name, read_exact, read_i16_leb128, read_i32_leb128,
    read_i64_leb128, read_option_status, read_result_status, read_u16_leb128, read_u32_le,
    read_u32_leb128, read_u64_le, read_u64_leb128, starts_whole, utf8_fault, ReadFault,
};
use crate::text::decimal_text;
use crate::value::{Type, Val, ValModel};
use vstd::prelude::*;
use vstd::slice::slice_subrange;
use vstd::string::StringExecFns;

verus! {

/// What a byte that must be 0 or 1 stands for.
#[derive(Clone, Copy, Debug, PartialEq, Eq, Structural)]
pub enum Status {
    /// A boolean.
    Bool,
    /// Whether an optional value is there.
    Opt,
    /// Whether a result is a failure.
    Res,
}

/// Why a value could not be decoded.
#[derive(Clone, Copy, Debug, PartialEq, Eq, Structural)]
pub enum DecodeFault {
    /// A primitive read failed.
    Read(ReadFault),
    /// A LEB128 integer does not fit this many bits.
    Overflow(u8),
    /// A byte is neither 0 nor 1.
    Byte(Status, u8),
    /// The bytes end inside flags.
    ShortFlags,
    /// A number is no character.
    NoChar,
    /// A string is UTF-8 up to an index, where a number of bytes is at fault.
    InvalidName(usize, usize),
    /// A string is UTF-8 up to an index, where it ends inside a character.
    IncompleteName(usize),
    /// The type has no variant case with this discriminant.
    UnknownVariant(u32),
    /// The type has no enum case with this discriminant.
    UnknownEnum(u32),
    /// A resource, stream, future or error context.
    Seam,
    /// A map.
    Mapping,
    /// A list of fixed length.
    FixedLengthList,
}

/// The class of a fault, as an I/O error reports it.
#[derive(Clone, Copy, Debug, PartialEq, Eq, Structural)]
pub enum FaultKind {
    UnexpectedEof,
    InvalidData,
    InvalidInput,
    Unsupported,
}

impl DecodeFault {
    pub open spec fn kind_spec(self) -> FaultKind {
        match self {
            DecodeFault::Read(ReadFault::UnexpectedEof) => FaultKind::UnexpectedEof,
            DecodeFault::Read(ReadFault::InvalidData) => FaultKind::InvalidData,
            DecodeFault::Read(ReadFault::InvalidInput) => FaultKind::InvalidInput,
            DecodeFault::Overflow(_) | DecodeFault::Byte(_, _) => FaultKind::InvalidData,
            DecodeFault::ShortFlags => FaultKind::UnexpectedEof,
            DecodeFault::NoChar => FaultKind::InvalidInput,
            DecodeFault::InvalidName(_, _) | DecodeFault::IncompleteName(_) => {
                FaultKind::InvalidData
            },
            DecodeFault::UnknownVariant(_) | DecodeFault::UnknownEnum(_) => FaultKind::InvalidInput,
            DecodeFault::Seam | DecodeFault::Mapping | DecodeFault::FixedLengthList => {
                FaultKind::Unsupported
            },
        }
    }

    /// The class of the fault.
    pub fn kind(&self) -> (kind: FaultKind)
        ensures
            kind == self.kind_spec(),
    {
        match self {
            DecodeFault::Read(ReadFault::UnexpectedEof) => FaultKind::UnexpectedEof,
            DecodeFault::Read(ReadFault::InvalidData) => FaultKind::InvalidData,
            DecodeFault::Read(ReadFault::InvalidInput) => FaultKind::InvalidInput,
            DecodeFault::Overflow(_) | DecodeFault::Byte(_, _) => FaultKind::InvalidData,
            DecodeFault::ShortFlags => FaultKind::UnexpectedEof,
            DecodeFault::NoChar => FaultKind::InvalidInput,
            DecodeFault::InvalidName(_, _) | DecodeFault::IncompleteName(_) => {
                FaultKind::InvalidData
            },
            DecodeFault::UnknownVariant(_) | DecodeFault::UnknownEnum(_) => FaultKind::InvalidInput,
            DecodeFault::Seam | DecodeFault::Mapping | DecodeFault::FixedLengthList => {
                FaultKind::Unsupported
            },
        }
    }

    pub open spec fn text_spec(self) -> Seq<char> {
        match self {
            DecodeFault::Read(ReadFault::UnexpectedEof) => "unexpected end of file"@,
            DecodeFault::Read(ReadFault::InvalidData) => "invalid data"@,
            DecodeFault::Read(ReadFault::InvalidInput) => "value is not valid UTF8"@,
            DecodeFault::Overflow(bits) => "varint overflows "@ + crate::text::decimal(bits as nat)
                + "-bit integer"@,
            DecodeFault::Byte(Status::Bool, n) => "invalid bool value byte `"@
                + crate::text::decimal(n as nat) + "`"@,
            DecodeFault::Byte(Status::Opt, n) => "invalid option status byte value `"@
                + crate::text::decimal(n as nat) + "`"@,
            DecodeFault::Byte(Status::Res, n) => "invalid result status byte value `"@
                + crate::text::decimal(n as nat) + "`"@,
            DecodeFault::ShortFlags => "early eof"@,
            DecodeFault::NoChar => "converted integer out of range for `char`"@,
            DecodeFault::InvalidName(at, n) => "invalid utf-8 sequence of "@
                + crate::text::decimal(n as nat) + " bytes from index "@ + crate::text::decimal(
                at as nat,
            ),
            DecodeFault::IncompleteName(at) => "incomplete utf-8 byte sequence from index "@
                + crate::text::decimal(at as nat),
            DecodeFault::UnknownVariant(d) => "unknown variant discriminant `"@
                + crate::text::decimal(d as nat) + "`"@,
            DecodeFault::UnknownEnum(d) => "unknown enum discriminant `"@ + crate::text::decimal(
                d as nat,
            ) + "`"@,
            DecodeFault::Seam => "a resource, stream, or future cannot cross the link seam"@,
            DecodeFault::Mapping => "`map` type not supported"@,
            DecodeFault::FixedLengthList => "`fixed-length-list` type not supported"@,
        }
    }

    /// The fault in words.
    pub fn text(&self) -> (text: String)
        ensures
            text@ == self.text_spec(),
    {
        match self {
            DecodeFault::Read(ReadFault::UnexpectedEof) => String::from_str(
                "unexpected end of file",
            ),
            DecodeFault::Read(ReadFault::InvalidData) => String::from_str("invalid data"),
            DecodeFault::Read(ReadFault::InvalidInput) => String::from_str(
                "value is not valid UTF8",
            ),
            DecodeFault::Overflow(bits) => String::from_str("varint overflows ").concat(
                decimal_text(*bits as u64).as_str(),
            ).concat("-bit integer"),
            DecodeFault::Byte(status, n) => {
                let what = match status {
                    Status::Bool => "invalid bool value byte `",
                    Status::Opt => "invalid option status byte value `",
                    Status::Res => "invalid result status byte value `",
                };
                String::from_str(what).concat(decimal_text(*n as u64).as_str()).concat("`")
            },
            DecodeFault::ShortFlags => String::from_str("early eof"),
            DecodeFault::NoChar => String::from_str("converted integer out of range for `char`"),
            DecodeFault::InvalidName(at, n) => String::from_str("invalid utf-8 sequence of ").concat(
                decimal_text(*n as u64).as_str(),
            ).concat(" bytes from index ").concat(decimal_text(*at as u64).as_str()),
            DecodeFault::IncompleteName(at) => String::from_str(
                "incomplete utf-8 byte sequence from index ",
            ).concat(decimal_text(*at as u64).as_str()),
            DecodeFault::UnknownVariant(d) => String::from_str(
                "unknown variant discriminant `",
            ).concat(decimal_text(*d as u64).as_str()).concat("`"),
            DecodeFault::UnknownEnum(d) => String::from_str("unknown enum discriminant `").concat(
                decimal_text(*d as u64).as_str(),
            ).concat("`"),
            DecodeFault::Seam => String::from_str(
                "a resource, stream, or future cannot cross the link seam",
            ),
            DecodeFault::Mapping => String::from_str("`map` type not supported"),
            DecodeFault::FixedLengthList => String::from_str(
                "`fixed-length-list` type not supported",
            ),
        }
    }
}

/// What decoding gives: the value and the bytes behind it, or a fault.
pub type Decoded = Result<(ValModel, Seq<u8>), DecodeFault>;

/// A decoded value behind which `rest` follows.
pub open spec fn done(val: ValModel, rest: Seq<u8>) -> Decoded {
    Ok((val, rest))
}

/// A fault.
pub open spec fn fault(f: DecodeFault) -> Decoded {
    Err(f)
}

/// The fault of a LEB128 integer of `bits` bits.
pub open spec fn varint_fault(f: ReadFault, bits: u8) -> DecodeFault {
    match f {
        ReadFault::InvalidData => DecodeFault::Overflow(bits),
        _ => DecodeFault::Read(f),
    }
}

/// The fault of a byte that must be 0 or 1.
pub open spec fn byte_fault(f: ReadFault, status: Status, bytes: Seq<u8>) -> DecodeFault {
    match f {
        ReadFault::InvalidData => DecodeFault::Byte(status, bytes[0]),
        _ => DecodeFault::Read(f),
    }
}

/// The fault of bytes that start with no character.
pub open spec fn char_refusal(bytes: Seq<u8>) -> DecodeFault {
    if crate::link::wire::char_complete(bytes) {
        DecodeFault::NoChar
    } else {
        DecodeFault::Read(crate::link::wire::char_fault(bytes))
    }
}

/// The fault of a string: that of its length, or that it is not UTF-8.
pub open spec fn name_refusal(f: ReadFault, bytes: Seq<u8>) -> DecodeFault {
    match crate::link::wire::uleb(bytes, 32) {
        Err(length) => varint_fault(length, 32),
        Ok((n, rest)) => match f {
            ReadFault::InvalidData => match crate::link::wire::utf8_stop(rest.take(n)) {
                (at, Some(len)) => DecodeFault::InvalidName(at as usize, len as usize),
                (at, None) => DecodeFault::IncompleteName(at as usize),
            },
            _ => DecodeFault::Read(f),
        },
    }
}

/// How many bytes the flags of `n` names take: a bit each, at least one byte.
pub open spec fn flag_bytes(n: int) -> int {
    if n <= 8 {
        1
    } else {
        (n + 7) / 8
    }
}

/// Whether bit `i` of little-endian bytes is set.
pub open spec fn bit_set(bytes: Seq<u8>, i: int) -> bool {
    bytes[i / 8] & (1u8 << ((i % 8) as u8)) != 0
}

/// The names whose bit is set, in order.
pub open spec fn set_names(names: Seq<Seq<char>>, bytes: Seq<u8>) -> Seq<Seq<char>>
    decreases names.len(),
{
    if names.len() == 0 {
        Seq::empty()
    } else {
        let before = set_names(names.drop_last(), bytes);
        if bit_set(bytes, names.len() - 1) {
            before.push(names.last())
        } else {
            before
        }
    }
}

/// What `bytes` hold of a value of type `ty`.
pub open spec fn decode(ty: Type, bytes: Seq<u8>) -> Decoded
    decreases ty, 0nat,
{
    match ty {
        Type::Bool => match crate::link::wire::bit_byte(bytes) {
            Ok((v, rest)) => done(ValModel::Bool(v), rest),
            Err(f) => fault(byte_fault(f, Status::Bool, bytes)),
        },
        Type::S8 => match crate::link::wire::exact(bytes, 1) {
            Ok((b, rest)) => done(ValModel::S8(b[0] as i8), rest),
            Err(f) => fault(DecodeFault::Read(f)),
        },
        Type::U8 => match crate::link::wire::exact(bytes, 1) {
            Ok((b, rest)) => done(ValModel::U8(b[0]), rest),
            Err(f) => fault(DecodeFault::Read(f)),
        },
        Type::S16 => match crate::link::wire::sleb(bytes, 16) {
            Ok((v, rest)) => done(ValModel::S16(v as i16), rest),
            Err(f) => fault(varint_fault(f, 16)),
        },
        Type::U16 => match crate::link::wire::uleb(bytes, 16) {
            Ok((v, rest)) => done(ValModel::U16(v as u16), rest),
            Err(f) => fault(varint_fault(f, 16)),
        },
        Type::S32 => match crate::link::wire::sleb(bytes, 32) {
            Ok((v, rest)) => done(ValModel::S32(v as i32), rest),
            Err(f) => fault(varint_fault(f, 32)),
        },
        Type::U32 => match crate::link::wire::uleb(bytes, 32) {
            Ok((v, rest)) => done(ValModel::U32(v as u32), rest),
            Err(f) => fault(varint_fault(f, 32)),
        },
        Type::S64 => match crate::link::wire::sleb(bytes, 64) {
            Ok((v, rest)) => done(ValModel::S64(v as i64), rest),
            Err(f) => fault(varint_fault(f, 64)),
        },
        Type::U64 => match crate::link::wire::uleb(bytes, 64) {
            Ok((v, rest)) => done(ValModel::U64(v as u64), rest),
            Err(f) => fault(varint_fault(f, 64)),
        },
        Type::Float32 => match crate::link::wire::exact(bytes, 4) {
            Ok((b, rest)) => done(
                ValModel::Float32(crate::link::wire::le_value(b) as u32),
                rest,
            ),
            Err(f) => fault(DecodeFault::Read(f)),
        },
        Type::Float64 => match crate::link::wire::exact(bytes, 8) {
            Ok((b, rest)) => done(
                ValModel::Float64(crate::link::wire::le_value(b) as u64),
                rest,
            ),
            Err(f) => fault(DecodeFault::Read(f)),
        },
        Type::Char => if vstd::utf8::valid_first_scalar(bytes) {
            done(
                ValModel::Char(vstd::utf8::decode_first_scalar(bytes) as char),
                bytes.skip(vstd::utf8::length_of_first_scalar(bytes)),
            )
        } else {
            fault(char_refusal(bytes))
        },
        Type::Str => match crate::link::wire::core_name(bytes) {
            Ok((s, rest)) => done(ValModel::Str(s), rest),
            Err(f) => fault(name_refusal(f, bytes)),
        },
        Type::List(elem) => match crate::link::wire::uleb(bytes, 32) {
            Ok((n, rest)) => match decode_list(*elem, n as nat, rest) {
                Ok((vals, rest)) => done(ValModel::List(vals), rest),
                Err(f) => fault(f),
            },
            Err(f) => fault(varint_fault(f, 32)),
        },
        Type::Record(fields) => match decode_record(fields@, fields@.len(), bytes) {
            Ok((vals, rest)) => done(ValModel::Record(vals), rest),
            Err(f) => fault(f),
        },
        Type::Tuple(types) => match decode_tuple(types@, types@.len(), bytes) {
            Ok((vals, rest)) => done(ValModel::Tuple(vals), rest),
            Err(f) => fault(f),
        },
        Type::Variant(cases) => match crate::link::wire::uleb(bytes, 32) {
            Ok((d, rest)) => if 0 <= d < cases@.len() {
                match cases@[d].1 {
                    Some(ty) => match decode(ty, rest) {
                        Ok((val, rest)) => done(
                            ValModel::Variant(cases@[d].0@, Some(Box::new(val))),
                            rest,
                        ),
                        Err(f) => fault(f),
                    },
                    None => done(ValModel::Variant(cases@[d].0@, None), rest),
                }
            } else {
                fault(DecodeFault::UnknownVariant(d as u32))
            },
            Err(f) => fault(varint_fault(f, 32)),
        },
        Type::Enum(names) => match crate::link::wire::uleb(bytes, 32) {
            Ok((d, rest)) => if 0 <= d < names@.len() {
                done(ValModel::Enum(names@[d]@), rest)
            } else {
                fault(DecodeFault::UnknownEnum(d as u32))
            },
            Err(f) => fault(varint_fault(f, 32)),
        },
        Type::Opt(ty) => match crate::link::wire::bit_byte(bytes) {
            Ok((there, rest)) => if there {
                match decode(*ty, rest) {
                    Ok((val, rest)) => done(ValModel::Opt(Some(Box::new(val))), rest),
                    Err(f) => fault(f),
                }
            } else {
                done(ValModel::Opt(None), rest)
            },
            Err(f) => fault(byte_fault(f, Status::Opt, bytes)),
        },
        Type::Res(ok, err) => match crate::link::wire::bit_byte(bytes) {
            Ok((failed, rest)) => if failed {
                match err {
                    Some(ty) => match decode(*ty, rest) {
                        Ok((val, rest)) => done(
                            ValModel::Res(Err(Some(Box::new(val)))),
                            rest,
                        ),
                        Err(f) => fault(f),
                    },
                    None => done(ValModel::Res(Err(None)), rest),
                }
            } else {
                match ok {
                    Some(ty) => match decode(*ty, rest) {
                        Ok((val, rest)) => done(
                            ValModel::Res(Ok(Some(Box::new(val)))),
                            rest,
                        ),
                        Err(f) => fault(f),
                    },
                    None => done(ValModel::Res(Ok(None)), rest),
                }
            },
            Err(f) => fault(byte_fault(f, Status::Res, bytes)),
        },
        Type::Flags(names) => match crate::link::wire::exact(
            bytes,
            flag_bytes(names@.len() as int),
        ) {
            Ok((b, rest)) => done(
                ValModel::Flags(set_names(crate::text::views(names@), b)),
                rest,
            ),
            Err(_) => fault(DecodeFault::ShortFlags),
        },
        Type::Own | Type::Borrow | Type::Future | Type::Stream | Type::ErrorContext => fault(
            DecodeFault::Seam,
        ),
        Type::Mapping => fault(DecodeFault::Mapping),
        Type::FixedLengthList => fault(DecodeFault::FixedLengthList),
    }
}

/// What `bytes` hold of `n` values of type `elem`, one behind the other.
pub open spec fn decode_list(elem: Type, n: nat, bytes: Seq<u8>) -> Result<
    (Seq<ValModel>, Seq<u8>),
    DecodeFault,
>
    decreases elem, n + 1,
{
    if n == 0 {
        Ok((Seq::empty(), bytes))
    } else {
        match decode_list(elem, (n - 1) as nat, bytes) {
            Ok((vals, rest)) => match decode(elem, rest) {
                Ok((val, rest)) => Ok((vals.push(val), rest)),
                Err(f) => Err(f),
            },
            Err(f) => Err(f),
        }
    }
}

/// What `bytes` hold of the first `n` fields, one behind the other.
pub open spec fn decode_record(fields: Seq<(String, Type)>, n: nat, bytes: Seq<u8>) -> Result<
    (Seq<(Seq<char>, ValModel)>, Seq<u8>),
    DecodeFault,
>
    decreases fields, n + 1,
{
    if n == 0 || n > fields.len() {
        Ok((Seq::empty(), bytes))
    } else {
        match decode_record(fields, (n - 1) as nat, bytes) {
            Ok((vals, rest)) => match decode(fields[n - 1].1, rest) {
                Ok((val, rest)) => Ok((vals.push((fields[n - 1].0@, val)), rest)),
                Err(f) => Err(f),
            },
            Err(f) => Err(f),
        }
    }
}

/// What `bytes` hold of values of the first `n` types, one behind the other.
pub open spec fn decode_tuple(types: Seq<Type>, n: nat, bytes: Seq<u8>) -> Result<
    (Seq<ValModel>, Seq<u8>),
    DecodeFault,
>
    decreases types, n + 1,
{
    if n == 0 || n > types.len() {
        Ok((Seq::empty(), bytes))
    } else {
        match decode_tuple(types, (n - 1) as nat, bytes) {
            Ok((vals, rest)) => match decode(types[n - 1], rest) {
                Ok((val, rest)) => Ok((vals.push(val), rest)),
                Err(f) => Err(f),
            },
            Err(f) => Err(f),
        }
    }
}

/// The outcome of a decode, as the contracts speak of it.
pub open spec fn outcome(r: Result<(Val, &[u8]), DecodeFault>) -> Decoded {
    match r {
        Ok((val, rest)) => done(val.model(), rest@),
        Err(f) => fault(f),
    }
}

/// A fault among the first values is the fault of the whole list.
proof fn lemma_list_fault(elem: Type, i: nat, n: nat, bytes: Seq<u8>)
    requires
        i <= n,
        decode_list(elem, i, bytes) is Err,
    ensures
        decode_list(elem, n, bytes) == decode_list(elem, i, bytes),
    decreases n,
{
    if i < n {
        lemma_list_fault(elem, i, (n - 1) as nat, bytes);
    }
}

/// A fault among the first fields is the fault of the whole record.
proof fn lemma_record_fault(fields: Seq<(String, Type)>, i: nat, n: nat, bytes: Seq<u8>)
    requires
        i <= n <= fields.len(),
        decode_record(fields, i, bytes) is Err,
    ensures
        decode_record(fields, n, bytes) == decode_record(fields, i, bytes),
    decreases n,
{
    if i < n {
        lemma_record_fault(fields, i, (n - 1) as nat, bytes);
    }
}

/// A fault among the first values is the fault of the whole tuple.
proof fn lemma_tuple_fault(types: Seq<Type>, i: nat, n: nat, bytes: Seq<u8>)
    requires
        i <= n <= types.len(),
        decode_tuple(types, i, bytes) is Err,
    ensures
        decode_tuple(types, n, bytes) == decode_tuple(types, i, bytes),
    decreases n,
{
    if i < n {
        lemma_tuple_fault(types, i, (n - 1) as nat, bytes);
    }
}

/// Decode `n` values of type `elem`.
fn read_list<'a>(bytes: &'a [u8], elem: &Type, n: u32) -> (r: Result<
    (Vec<Val>, &'a [u8]),
    DecodeFault,
>)
    ensures
        match r {
            Ok((vals, rest)) => decode_list(*elem, n as nat, bytes@) == Ok::<
                (Seq<ValModel>, Seq<u8>),
                DecodeFault,
            >((crate::value::models(vals@), rest@)),
            Err(f) => decode_list(*elem, n as nat, bytes@) == Err::<
                (Seq<ValModel>, Seq<u8>),
                DecodeFault,
            >(f),
        },
    decreases elem, 1nat,
{
    let mut vals: Vec<Val> = Vec::new();
    let mut rest = bytes;
    let mut i: u32 = 0;
    assert(crate::value::models(vals@) =~= Seq::empty());
    while i < n
        invariant
            i <= n,
            decode_list(*elem, i as nat, bytes@) == Ok::<(Seq<ValModel>, Seq<u8>), DecodeFault>(
                (crate::value::models(vals@), rest@),
            ),
        decreases n - i,
    {
        match read_plain_value(rest, elem) {
            Ok((val, next)) => {
                let ghost before = vals@;
                vals.push(val);
                assert(crate::value::models(vals@) =~= crate::value::models(before).push(
                    val.model(),
                ));
                rest = next;
            },
            Err(f) => {
                proof {
                    lemma_list_fault(*elem, (i + 1) as nat, n as nat, bytes@);
                }
                return Err(f);
            },
        }
        i = i + 1;
    }
    Ok((vals, rest))
}

/// Decode a value of each field's type, in order.
fn read_record<'a>(bytes: &'a [u8], fields: &Vec<(String, Type)>) -> (r: Result<
    (Vec<(String, Val)>, &'a [u8]),
    DecodeFault,
>)
    ensures
        match r {
            Ok((vals, rest)) => decode_record(fields@, fields@.len(), bytes@) == Ok::<
                (Seq<(Seq<char>, ValModel)>, Seq<u8>),
                DecodeFault,
            >((crate::value::field_models(vals@), rest@)),
            Err(f) => decode_record(fields@, fields@.len(), bytes@) == Err::<
                (Seq<(Seq<char>, ValModel)>, Seq<u8>),
                DecodeFault,
            >(f),
        },
    decreases fields, 1nat,
{
    let mut vals: Vec<(String, Val)> = Vec::new();
    let mut rest = bytes;
    let mut i: usize = 0;
    assert(crate::value::field_models(vals@) =~= Seq::empty());
    while i < fields.len()
        invariant
            i <= fields@.len(),
            decode_record(fields@, i as nat, bytes@) == Ok::<
                (Seq<(Seq<char>, ValModel)>, Seq<u8>),
                DecodeFault,
            >((crate::value::field_models(vals@), rest@)),
        decreases fields@.len() - i,
    {
        let name = fields[i].0.clone();
        match read_plain_value(rest, &fields[i].1) {
            Ok((val, next)) => {
                let ghost before = vals@;
                vals.push((name, val));
                assert(crate::value::field_models(vals@) =~= crate::value::field_models(
                    before,
                ).push((name@, val.model())));
                rest = next;
            },
            Err(f) => {
                proof {
                    lemma_record_fault(fields@, (i + 1) as nat, fields@.len(), bytes@);
                }
                return Err(f);
            },
        }
        i = i + 1;
    }
    Ok((vals, rest))
}

/// Decode a value of each type, in order.
fn read_tuple<'a>(bytes: &'a [u8], types: &Vec<Type>) -> (r: Result<
    (Vec<Val>, &'a [u8]),
    DecodeFault,
>)
    ensures
        match r {
            Ok((vals, rest)) => decode_tuple(types@, types@.len(), bytes@) == Ok::<
                (Seq<ValModel>, Seq<u8>),
                DecodeFault,
            >((crate::value::models(vals@), rest@)),
            Err(f) => decode_tuple(types@, types@.len(), bytes@) == Err::<
                (Seq<ValModel>, Seq<u8>),
                DecodeFault,
            >(f),
        },
    decreases types, 1nat,
{
    let mut vals: Vec<Val> = Vec::new();
    let mut rest = bytes;
    let mut i: usize = 0;
    assert(crate::value::models(vals@) =~= Seq::empty());
    while i < types.len()
        invariant
            i <= types@.len(),
            decode_tuple(types@, i as nat, bytes@) == Ok::<
                (Seq<ValModel>, Seq<u8>),
                DecodeFault,
            >((crate::value::models(vals@), rest@)),
        decreases types@.len() - i,
    {
        match read_plain_value(rest, &types[i]) {
            Ok((val, next)) => {
                let ghost before = vals@;
                vals.push(val);
                assert(crate::value::models(vals@) =~= crate::value::models(before).push(
                    val.model(),
                ));
                rest = next;
            },
            Err(f) => {
                proof {
                    lemma_tuple_fault(types@, (i + 1) as nat, types@.len(), bytes@);
                }
                return Err(f);
            },
        }
        i = i + 1;
    }
    Ok((vals, rest))
}

/// The names whose bit is set in `bytes`.
fn names_set(names: &Vec<String>, bytes: &[u8]) -> (vals: Vec<String>)
    requires
        bytes@.len() == flag_bytes(names@.len() as int),
    ensures
        crate::text::views(vals@) == set_names(crate::text::views(names@), bytes@),
{
    let mut vals: Vec<String> = Vec::new();
    let mut i: usize = 0;
    let ghost all = crate::text::views(names@);
    assert(crate::text::views(vals@) =~= Seq::empty());
    while i < names.len()
        invariant
            i <= names@.len(),
            all == crate::text::views(names@),
            bytes@.len() == flag_bytes(names@.len() as int),
            crate::text::views(vals@) == set_names(all.take(i as int), bytes@),
        decreases names@.len() - i,
    {
        proof {
            assert(all.take(i + 1).drop_last() =~= all.take(i as int));
            assert(all.take(i + 1).last() == names@[i as int]@);
        }
        let mask: u8 = 1u8 << ((i % 8) as u8);
        if bytes[i / 8] & mask != 0 {
            let ghost before = vals@;
            vals.push(names[i].clone());
            assert(crate::text::views(vals@) =~= crate::text::views(before).push(
                names@[i as int]@,
            ));
        }
        i = i + 1;
    }
    assert(all.take(names@.len() as int) =~= all);
    vals
}

/// Whether values of a type hold no other values.
pub open spec fn scalar(ty: Type) -> bool {
    match ty {
        Type::Bool => true,
        Type::S8 => true,
        Type::U8 => true,
        Type::S16 => true,
        Type::U16 => true,
        Type::S32 => true,
        Type::U32 => true,
        Type::S64 => true,
        Type::U64 => true,
        Type::Float32 => true,
        Type::Float64 => true,
        Type::Char => true,
        Type::Str => true,
        _ => false,
    }
}

fn varint(f: ReadFault, bits: u8) -> (r: DecodeFault)
    ensures
        r == varint_fault(f, bits),
{
    match f {
        ReadFault::InvalidData => DecodeFault::Overflow(bits),
        _ => DecodeFault::Read(f),
    }
}

fn status_byte(f: ReadFault, status: Status, bytes: &[u8]) -> (r: DecodeFault)
    requires
        f == ReadFault::InvalidData ==> bytes@.len() > 0,
    ensures
        r == byte_fault(f, status, bytes@),
{
    match f {
        ReadFault::InvalidData => DecodeFault::Byte(status, bytes[0]),
        _ => DecodeFault::Read(f),
    }
}

fn refused_name(f: ReadFault, bytes: &[u8]) -> (r: DecodeFault)
    requires
        crate::link::wire::core_name(bytes@) == Err::<(Seq<char>, Seq<u8>), ReadFault>(f),
    ensures
        r == name_refusal(f, bytes@),
{
    let (n, rest) = match read_u32_leb128(bytes) {
        Ok(read) => read,
        Err(length) => {
            return varint(length, 32);
        },
    };
    match f {
        ReadFault::InvalidData => {
            let name = slice_subrange(rest, 0, n as usize);
            assert(name@ =~= rest@.take(n as int));
            match utf8_fault(name) {
                Some((at, Some(len))) => DecodeFault::InvalidName(at, len),
                Some((at, None)) => DecodeFault::IncompleteName(at),
                None => DecodeFault::Read(f),
            }
        },
        _ => DecodeFault::Read(f),
    }
}

#[verifier::rlimit(40)]
#[verifier::spinoff_prover]
fn read_scalar<'a>(bytes: &'a [u8], ty: &Type) -> (r: Result<(Val, &'a [u8]), DecodeFault>)
    requires
        scalar(*ty),
    ensures
        outcome(r) == decode(*ty, bytes@),
{
    match ty {
        Type::Bool => match read_bool(bytes) {
            Ok((v, rest)) => Ok((Val::Bool(v), rest)),
            Err(f) => Err(status_byte(f, Status::Bool, bytes)),
        },
        Type::S8 => match read_exact(bytes, 1) {
            Ok((b, rest)) => Ok((Val::S8(b[0] as i8), rest)),
            Err(f) => Err(DecodeFault::Read(f)),
        },
        Type::U8 => match read_exact(bytes, 1) {
            Ok((b, rest)) => Ok((Val::U8(b[0]), rest)),
            Err(f) => Err(DecodeFault::Read(f)),
        },
        Type::S16 => match read_i16_leb128(bytes) {
            Ok((v, rest)) => Ok((Val::S16(v), rest)),
            Err(f) => Err(varint(f, 16)),
        },
        Type::U16 => match read_u16_leb128(bytes) {
            Ok((v, rest)) => Ok((Val::U16(v), rest)),
            Err(f) => Err(varint(f, 16)),
        },
        Type::S32 => match read_i32_leb128(bytes) {
            Ok((v, rest)) => Ok((Val::S32(v), rest)),
            Err(f) => Err(varint(f, 32)),
        },
        Type::U32 => match read_u32_leb128(bytes) {
            Ok((v, rest)) => Ok((Val::U32(v), rest)),
            Err(f) => Err(varint(f, 32)),
        },
        Type::S64 => match read_i64_leb128(bytes) {
            Ok((v, rest)) => Ok((Val::S64(v), rest)),
            Err(f) => Err(varint(f, 64)),
        },
        Type::U64 => match read_u64_leb128(bytes) {
            Ok((v, rest)) => Ok((Val::U64(v), rest)),
            Err(f) => Err(varint(f, 64)),
        },
        Type::Float32 => match read_u32_le(bytes) {
            Ok((v, rest)) => Ok((Val::Float32(v), rest)),
            Err(f) => Err(DecodeFault::Read(f)),
        },
        Type::Float64 => match read_u64_le(bytes) {
            Ok((v, rest)) => Ok((Val::Float64(v), rest)),
            Err(f) => Err(DecodeFault::Read(f)),
        },
        Type::Char => match read_char_utf8(bytes) {
            Ok((v, rest)) => {
                proof {
                    vstd::utf8::char_u32_cast(v, vstd::utf8::decode_first_scalar(bytes@));
                }
                Ok((Val::Char(v), rest))
            },
            Err(f) => if starts_whole(bytes) {
                Err(DecodeFault::NoChar)
            } else {
                Err(DecodeFault::Read(f))
            },
        },
        Type::Str => match read_core_name(bytes) {
            Ok((v, rest)) => Ok((Val::Str(v), rest)),
            Err(f) => Err(refused_name(f, bytes)),
        },
        _ => Err(DecodeFault::Seam),
    }
}

/// Decode one plain (resource-free) value of type `ty` from the front of
/// `bytes`, giving the value and the bytes behind it.
///
/// # Errors
///
/// Returns a fault if the bytes do not start with a value of the type, or the
/// type is one that cannot cross the link seam.
#[verifier::rlimit(40)]
#[verifier::spinoff_prover]
pub fn read_plain_value<'a>(bytes: &'a [u8], ty: &Type) -> (r: Result<
    (Val, &'a [u8]),
    DecodeFault,
>)
    ensures
        outcome(r) == decode(*ty, bytes@),
    decreases ty, 0nat,
{
    match ty {
        Type::Bool | Type::S8 | Type::U8 | Type::S16 | Type::U16 | Type::S32 | Type::U32
        | Type::S64 | Type::U64 | Type::Float32 | Type::Float64 | Type::Char | Type::Str =>
            read_scalar(bytes, ty),
        Type::List(elem) => match read_u32_leb128(bytes) {
            Ok((n, rest)) => match read_list(rest, elem, n) {
                Ok((vals, rest)) => Ok((Val::List(vals), rest)),
                Err(f) => Err(f),
            },
            Err(f) => Err(varint(f, 32)),
        },
        Type::Record(fields) => match read_record(bytes, fields) {
            Ok((vals, rest)) => Ok((Val::Record(vals), rest)),
            Err(f) => Err(f),
        },
        Type::Tuple(types) => match read_tuple(bytes, types) {
            Ok((vals, rest)) => Ok((Val::Tuple(vals), rest)),
            Err(f) => Err(f),
        },
        Type::Variant(cases) => match read_u32_leb128(bytes) {
            Ok((d, rest)) => if (d as usize) < cases.len() {
                let name = cases[d as usize].0.clone();
                match &cases[d as usize].1 {
                    Some(ty) => match read_plain_value(rest, ty) {
                        Ok((val, rest)) => Ok((Val::Variant(name, Some(Box::new(val))), rest)),
                        Err(f) => Err(f),
                    },
                    None => Ok((Val::Variant(name, None), rest)),
                }
            } else {
                Err(DecodeFault::UnknownVariant(d))
            },
            Err(f) => Err(varint(f, 32)),
        },
        Type::Enum(names) => match read_u32_leb128(bytes) {
            Ok((d, rest)) => if (d as usize) < names.len() {
                Ok((Val::Enum(names[d as usize].clone()), rest))
            } else {
                Err(DecodeFault::UnknownEnum(d))
            },
            Err(f) => Err(varint(f, 32)),
        },
        Type::Opt(ty) => match read_option_status(bytes) {
            Ok((there, rest)) => if there {
                match read_plain_value(rest, ty) {
                    Ok((val, rest)) => Ok((Val::Opt(Some(Box::new(val))), rest)),
                    Err(f) => Err(f),
                }
            } else {
                Ok((Val::Opt(None), rest))
            },
            Err(f) => Err(status_byte(f, Status::Opt, bytes)),
        },
        Type::Res(ok, err) => match read_result_status(bytes) {
            Ok((succeeded, rest)) => if succeeded {
                match ok {
                    Some(ty) => match read_plain_value(rest, ty) {
                        Ok((val, rest)) => Ok((Val::Res(Ok(Some(Box::new(val)))), rest)),
                        Err(f) => Err(f),
                    },
                    None => Ok((Val::Res(Ok(None)), rest)),
                }
            } else {
                match err {
                    Some(ty) => match read_plain_value(rest, ty) {
                        Ok((val, rest)) => Ok((Val::Res(Err(Some(Box::new(val)))), rest)),
                        Err(f) => Err(f),
                    },
                    None => Ok((Val::Res(Err(None)), rest)),
                }
            },
            Err(f) => Err(status_byte(f, Status::Res, bytes)),
        },
        Type::Flags(names) => {
            let n: usize = if names.len() <= 8 {
                1
            } else {
                1 + (names.len() - 1) / 8
            };
            match read_exact(bytes, n) {
                Ok((b, rest)) => Ok((Val::Flags(names_set(names, b)), rest)),
                Err(_) => Err(DecodeFault::ShortFlags),
            }
        },
        Type::Own | Type::Borrow | Type::Future | Type::Stream | Type::ErrorContext => Err(
            DecodeFault::Seam,
        ),
        Type::Mapping => Err(DecodeFault::Mapping),
        Type::FixedLengthList => Err(DecodeFault::FixedLengthList),
    }
}

/// No decoded value carries a resource handle.
pub proof fn decoded_values_are_plain(ty: Type, bytes: Seq<u8>)
    ensures
        decode(ty, bytes) matches Ok((val, _)) ==> !crate::value::carries_resource(val),
    decreases ty, 0nat,
{
    match ty {
        Type::List(elem) => {
            if let Ok((n, rest)) = crate::link::wire::uleb(bytes, 32) {
                lemma_plain_list(*elem, n as nat, rest);
                if let Ok((vals, rest)) = decode_list(*elem, n as nat, rest) {
                    lemma_plain_parts(vals);
                }
            }
        },
        Type::Record(fields) => {
            lemma_plain_record(fields@, fields@.len(), bytes);
            if let Ok((vals, rest)) = decode_record(fields@, fields@.len(), bytes) {
                lemma_plain_fields(vals);
            }
        },
        Type::Tuple(types) => {
            lemma_plain_tuple(types@, types@.len(), bytes);
            if let Ok((vals, rest)) = decode_tuple(types@, types@.len(), bytes) {
                lemma_plain_parts(vals);
            }
        },
        Type::Variant(cases) => {
            if let Ok((d, rest)) = crate::link::wire::uleb(bytes, 32) {
                if 0 <= d < cases@.len() {
                    if let Some(ty) = cases@[d].1 {
                        decoded_values_are_plain(ty, rest);
                    }
                }
            }
        },
        Type::Opt(ty) => {
            if let Ok((there, rest)) = crate::link::wire::bit_byte(bytes) {
                decoded_values_are_plain(*ty, rest);
            }
        },
        Type::Res(ok, err) => {
            if let Ok((failed, rest)) = crate::link::wire::bit_byte(bytes) {
                if let Some(ty) = ok {
                    decoded_values_are_plain(*ty, rest);
                }
                if let Some(ty) = err {
                    decoded_values_are_plain(*ty, rest);
                }
            }
        },
        _ => {
            lemma_leaf_plain(ty, bytes);
        },
    }
}

proof fn lemma_leaf_plain(ty: Type, bytes: Seq<u8>)
    requires
        !(ty is List) && !(ty is Record) && !(ty is Tuple) && !(ty is Variant) && !(ty is Opt)
            && !(ty is Res),
    ensures
        decode(ty, bytes) matches Ok((val, _)) ==> !crate::value::carries_resource(val),
{
    match ty {
        Type::Bool => {},
        Type::S8 => {},
        Type::U8 => {},
        Type::S16 => {},
        Type::U16 => {},
        Type::S32 => {},
        Type::U32 => {},
        Type::S64 => {},
        Type::U64 => {},
        Type::Float32 => {},
        Type::Float64 => {},
        Type::Char => {},
        Type::Str => {},
        Type::Enum(_) => {},
        Type::Flags(_) => {},
        _ => {},
    }
}

proof fn lemma_plain_parts(vals: Seq<ValModel>)
    requires
        forall|i: int|
            0 <= i < vals.len() ==> !crate::value::carries_resource(#[trigger] vals[i]),
    ensures
        !crate::value::carries_resource(ValModel::List(vals)),
        !crate::value::carries_resource(ValModel::Tuple(vals)),
{
    assert(ValModel::List(vals)->List_0 == vals);
    assert(ValModel::Tuple(vals)->Tuple_0 == vals);
}

proof fn lemma_plain_fields(vals: Seq<(Seq<char>, ValModel)>)
    requires
        forall|i: int|
            0 <= i < vals.len() ==> !crate::value::carries_resource((#[trigger] vals[i]).1),
    ensures
        !crate::value::carries_resource(ValModel::Record(vals)),
{
    assert(ValModel::Record(vals)->Record_0 == vals);
}

proof fn lemma_plain_list(elem: Type, n: nat, bytes: Seq<u8>)
    ensures
        decode_list(elem, n, bytes) matches Ok((vals, _)) ==> forall|i: int|
            0 <= i < vals.len() ==> !crate::value::carries_resource(#[trigger] vals[i]),
    decreases elem, n + 1,
{
    if n > 0 {
        lemma_plain_list(elem, (n - 1) as nat, bytes);
        if let Ok((vals, rest)) = decode_list(elem, (n - 1) as nat, bytes) {
            decoded_values_are_plain(elem, rest);
        }
    }
}

proof fn lemma_plain_record(fields: Seq<(String, Type)>, n: nat, bytes: Seq<u8>)
    ensures
        decode_record(fields, n, bytes) matches Ok((vals, _)) ==> forall|i: int|
            0 <= i < vals.len() ==> !crate::value::carries_resource((#[trigger] vals[i]).1),
    decreases fields, n + 1,
{
    if 0 < n <= fields.len() {
        lemma_plain_record(fields, (n - 1) as nat, bytes);
        if let Ok((vals, rest)) = decode_record(fields, (n - 1) as nat, bytes) {
            decoded_values_are_plain(fields[n - 1].1, rest);
        }
    }
}

proof fn lemma_plain_tuple(types: Seq<Type>, n: nat, bytes: Seq<u8>)
    ensures
        decode_tuple(types, n, bytes) matches Ok((vals, _)) ==> forall|i: int|
            0 <= i < vals.len() ==> !crate::value::carries_resource(#[trigger] vals[i]),
    decreases types, n + 1,
{
    if 0 < n <= types.len() {
        lemma_plain_tuple(types, (n - 1) as nat, bytes);
        if let Ok((vals, rest)) = decode_tuple(types, (n - 1) as nat, bytes) {
            decoded_values_are_plain(types[n - 1], rest);
        }
    }
}

proof fn lemma_uleb_extends(bytes: Seq<u8>, more: Seq<u8>, bits: nat)
    ensures
        crate::link::wire::uleb(bytes, bits) matches Ok((v, rest)) ==> crate::link::wire::uleb(
            bytes + more,
            bits,
        ) == Ok::<(int, Seq<u8>), ReadFault>((v, rest + more)),
    decreases bits,
{
    if bytes.len() > 0 {
        assert((bytes + more).skip(1) =~= bytes.skip(1) + more);
        if bits >= 7 {
            lemma_uleb_extends(bytes.skip(1), more, (bits - 7) as nat);
        }
    }
}

proof fn lemma_sleb_extends(bytes: Seq<u8>, more: Seq<u8>, bits: nat)
    ensures
        crate::link::wire::sleb(bytes, bits) matches Ok((v, rest)) ==> crate::link::wire::sleb(
            bytes + more,
            bits,
        ) == Ok::<(int, Seq<u8>), ReadFault>((v, rest + more)),
    decreases bits,
{
    if bytes.len() > 0 {
        assert((bytes + more).skip(1) =~= bytes.skip(1) + more);
        if bits >= 7 {
            lemma_sleb_extends(bytes.skip(1), more, (bits - 7) as nat);
        }
    }
}

proof fn lemma_exact_extends(bytes: Seq<u8>, more: Seq<u8>, n: int)
    requires
        0 <= n,
    ensures
        crate::link::wire::exact(bytes, n) matches Ok((head, rest)) ==> crate::link::wire::exact(
            bytes + more,
            n,
        ) == Ok::<(Seq<u8>, Seq<u8>), ReadFault>((head, rest + more)),
{
    if bytes.len() >= n {
        assert((bytes + more).take(n) =~= bytes.take(n));
        assert((bytes + more).skip(n) =~= bytes.skip(n) + more);
    }
}

/// What follows a value does not change how it decodes: where bytes hold a
/// value, the same bytes with more behind them hold the same value, and the
/// rest grows by what was put behind.
pub proof fn decoding_ignores_what_follows(ty: Type, bytes: Seq<u8>, more: Seq<u8>)
    ensures
        decode(ty, bytes) matches Ok((val, rest)) ==> decode(ty, bytes + more) == done(
            val,
            rest + more,
        ),
    decreases ty, 0nat,
{
    lemma_uleb_extends(bytes, more, 16);
    lemma_uleb_extends(bytes, more, 32);
    lemma_uleb_extends(bytes, more, 64);
    lemma_sleb_extends(bytes, more, 16);
    lemma_sleb_extends(bytes, more, 32);
    lemma_sleb_extends(bytes, more, 64);
    lemma_exact_extends(bytes, more, 1);
    lemma_exact_extends(bytes, more, 4);
    lemma_exact_extends(bytes, more, 8);
    if bytes.len() > 0 {
        assert((bytes + more).skip(1) =~= bytes.skip(1) + more);
    }
    match ty {
        Type::Char => {
            if vstd::utf8::valid_first_scalar(bytes) {
                let n = vstd::utf8::length_of_first_scalar(bytes);
                assert((bytes + more).skip(n) =~= bytes.skip(n) + more);
            }
        },
        Type::Str => {
            if let Ok((n, rest)) = crate::link::wire::uleb(bytes, 32) {
                lemma_uleb_bounds(bytes, 32);
                lemma_exact_extends(rest, more, n);
            }
        },
        Type::List(elem) => {
            if let Ok((n, rest)) = crate::link::wire::uleb(bytes, 32) {
                lemma_list_extends(*elem, n as nat, rest, more);
            }
        },
        Type::Record(fields) => {
            lemma_record_extends(fields@, fields@.len(), bytes, more);
        },
        Type::Tuple(types) => {
            lemma_tuple_extends(types@, types@.len(), bytes, more);
        },
        Type::Variant(cases) => {
            if let Ok((d, rest)) = crate::link::wire::uleb(bytes, 32) {
                if 0 <= d < cases@.len() {
                    if let Some(ty) = cases@[d].1 {
                        decoding_ignores_what_follows(ty, rest, more);
                    }
                }
            }
        },
        Type::Opt(ty) => {
            if let Ok((there, rest)) = crate::link::wire::bit_byte(bytes) {
                decoding_ignores_what_follows(*ty, rest, more);
            }
        },
        Type::Res(ok, err) => {
            if let Ok((failed, rest)) = crate::link::wire::bit_byte(bytes) {
                if let Some(ty) = ok {
                    decoding_ignores_what_follows(*ty, rest, more);
                }
                if let Some(ty) = err {
                    decoding_ignores_what_follows(*ty, rest, more);
                }
            }
        },
        Type::Flags(names) => {
            lemma_exact_extends(bytes, more, flag_bytes(names@.len() as int));
        },
        _ => {},
    }
}

proof fn lemma_uleb_bounds(bytes: Seq<u8>, bits: nat)
    ensures
        crate::link::wire::uleb(bytes, bits) matches Ok((v, _)) ==> 0 <= v,
    decreases bits,
{
    if bytes.len() > 0 && bits >= 7 {
        lemma_uleb_bounds(bytes.skip(1), (bits - 7) as nat);
    }
}

proof fn lemma_list_extends(elem: Type, n: nat, bytes: Seq<u8>, more: Seq<u8>)
    ensures
        decode_list(elem, n, bytes) matches Ok((vals, rest)) ==> decode_list(elem, n, bytes + more)
            == Ok::<(Seq<ValModel>, Seq<u8>), DecodeFault>((vals, rest + more)),
    decreases elem, n + 1,
{
    if n > 0 {
        lemma_list_extends(elem, (n - 1) as nat, bytes, more);
        if let Ok((vals, rest)) = decode_list(elem, (n - 1) as nat, bytes) {
            decoding_ignores_what_follows(elem, rest, more);
        }
    }
}

proof fn lemma_record_extends(
    fields: Seq<(String, Type)>,
    n: nat,
    bytes: Seq<u8>,
    more: Seq<u8>,
)
    ensures
        decode_record(fields, n, bytes) matches Ok((vals, rest)) ==> decode_record(
            fields,
            n,
            bytes + more,
        ) == Ok::<(Seq<(Seq<char>, ValModel)>, Seq<u8>), DecodeFault>((vals, rest + more)),
    decreases fields, n + 1,
{
    if 0 < n <= fields.len() {
        lemma_record_extends(fields, (n - 1) as nat, bytes, more);
        if let Ok((vals, rest)) = decode_record(fields, (n - 1) as nat, bytes) {
            decoding_ignores_what_follows(fields[n - 1].1, rest, more);
        }
    }
}

proof fn lemma_tuple_extends(types: Seq<Type>, n: nat, bytes: Seq<u8>, more: Seq<u8>)
    ensures
        decode_tuple(types, n, bytes) matches Ok((vals, rest)) ==> decode_tuple(
            types,
            n,
            bytes + more,
        ) == Ok::<(Seq<ValModel>, Seq<u8>), DecodeFault>((vals, rest + more)),
    decreases types, n + 1,
{
    if 0 < n <= types.len() {
        lemma_tuple_extends(types, (n - 1) as nat, bytes, more);
        if let Ok((vals, rest)) = decode_tuple(types, (n - 1) as nat, bytes) {
            decoding_ignores_what_follows(types[n - 1], rest, more);
        }
    }
}

} // verus!
