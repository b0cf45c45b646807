//! The link's wire format from the writing side: the bytes of a value, and what
//! decoding makes of them.

use crate::link::decode::{DecodeFault, Status};
use crate::link::wire::ReadFault;
use crate::value::{Type, ValModel};
use vstd::prelude::*;

verus! {

/// The names of a variant's cases.
pub open spec fn case_names(cases: Seq<(String, Option<Type>)>) -> Seq<Seq<char>> {
    cases.map_values(|case: (String, Option<Type>)| case.0@)
}

/// Whether the names that a type gives to cases and flags are distinct and can
/// be counted on the wire, in the type itself and wherever it nests one.
pub open spec fn sound(ty: Type) -> bool
    decreases ty,
{
    match ty {
        Type::List(elem) => sound(*elem),
        Type::Record(fields) => forall|i: int|
            0 <= i < fields@.len() ==> sound((#[trigger] fields@[i]).1),
        Type::Tuple(types) => forall|i: int| 0 <= i < types@.len() ==> sound(#[trigger] types@[i]),
        Type::Variant(cases) => {
            &&& case_names(cases@).no_duplicates()
            &&& cases@.len() <= u32::MAX
            &&& forall|i: int|
                0 <= i < cases@.len() ==> ((#[trigger] cases@[i]).1 matches Some(ty) ==> sound(ty))
        },
        Type::Enum(names) => crate::text::views(names@).no_duplicates() && names@.len()
            <= u32::MAX,
        Type::Opt(ty) => sound(*ty),
        Type::Res(ok, err) => {
            &&& (ok matches Some(ty) ==> sound(*ty))
            &&& (err matches Some(ty) ==> sound(*ty))
        },
        Type::Flags(names) => crate::text::views(names@).no_duplicates(),
        _ => true,
    }
}

/// Whether a value is one of a type, and can be written: its lists and texts
/// can be counted. No value is of a type that cannot cross the link seam.
pub open spec fn has_type(ty: Type, val: ValModel) -> bool
    decreases ty,
{
    match ty {
        Type::Bool => val is Bool,
        Type::S8 => val is S8,
        Type::U8 => val is U8,
        Type::S16 => val is S16,
        Type::U16 => val is U16,
        Type::S32 => val is S32,
        Type::U32 => val is U32,
        Type::S64 => val is S64,
        Type::U64 => val is U64,
        Type::Float32 => val is Float32,
        Type::Float64 => val is Float64,
        Type::Char => val is Char,
        Type::Str => val matches ValModel::Str(text) && vstd::utf8::encode_utf8(text).len()
            <= u32::MAX,
        Type::List(elem) => val matches ValModel::List(vals) && vals.len() <= u32::MAX && forall|
            i: int,
        |
            0 <= i < vals.len() ==> has_type(*elem, #[trigger] vals[i]),
        Type::Record(fields) => val matches ValModel::Record(vals) && vals.len() == fields@.len()
            && forall|i: int|
            #![trigger fields@[i]]
            0 <= i < fields@.len() ==> vals[i].0 == fields@[i].0@ && has_type(
                fields@[i].1,
                vals[i].1,
            ),
        Type::Tuple(types) => val matches ValModel::Tuple(vals) && vals.len() == types@.len()
            && forall|i: int|
            #![trigger types@[i]]
            0 <= i < types@.len() ==> has_type(types@[i], vals[i]),
        Type::Variant(cases) => val matches ValModel::Variant(name, payload) && exists|d: int|
            #![trigger cases@[d]]
            0 <= d < cases@.len() && cases@[d].0@ == name && match cases@[d].1 {
                Some(ty) => payload matches Some(held) && has_type(ty, *held),
                None => payload is None,
            },
        Type::Enum(names) => val matches ValModel::Enum(name) && crate::text::views(
            names@,
        ).contains(name),
        Type::Opt(ty) => match val {
            ValModel::Opt(Some(held)) => has_type(*ty, *held),
            ValModel::Opt(None) => true,
            _ => false,
        },
        Type::Res(ok, err) => match val {
            ValModel::Res(Ok(payload)) => match ok {
                Some(ty) => payload matches Some(held) && has_type(*ty, *held),
                None => payload is None,
            },
            ValModel::Res(Err(payload)) => match err {
                Some(ty) => payload matches Some(held) && has_type(*ty, *held),
                None => payload is None,
            },
            _ => false,
        },
        Type::Flags(names) => val matches ValModel::Flags(held) && held == crate::text::views(
            names@,
        ).filter(|name: Seq<char>| held.contains(name)),
        Type::Own | Type::Borrow | Type::Future | Type::Stream | Type::ErrorContext
        | Type::Mapping | Type::FixedLengthList => false,
    }
}

/// A natural number as the shortest unsigned LEB128 integer.
pub open spec fn uleb_of(n: nat) -> Seq<u8>
    decreases n,
{
    if n < 0x80 {
        seq![n as u8]
    } else {
        seq![(0x80 + n % 0x80) as u8] + uleb_of(n / 0x80)
    }
}

/// A number as the shortest signed LEB128 integer.
pub open spec fn sleb_of(n: int) -> Seq<u8>
    decreases
            if n < 0 {
                -n
            } else {
                n
            },
{
    if 0 <= n < 0x40 {
        seq![n as u8]
    } else if -0x40 <= n < 0 {
        seq![(n + 0x80) as u8]
    } else {
        seq![(0x80 + n % 0x80) as u8] + sleb_of(n / 0x80)
    }
}

/// The `size` low bytes of a number, the least significant first.
pub open spec fn le_of(n: nat, size: nat) -> Seq<u8>
    decreases size,
{
    if size == 0 {
        Seq::empty()
    } else {
        seq![(n % 0x100) as u8] + le_of(n / 0x100, (size - 1) as nat)
    }
}

/// A byte of eight bits, the least significant first.
pub open spec fn byte_of(
    b0: bool,
    b1: bool,
    b2: bool,
    b3: bool,
    b4: bool,
    b5: bool,
    b6: bool,
    b7: bool,
) -> u8 {
    (if b0 {
        1u8
    } else {
        0u8
    }) | (if b1 {
        2u8
    } else {
        0u8
    }) | (if b2 {
        4u8
    } else {
        0u8
    }) | (if b3 {
        8u8
    } else {
        0u8
    }) | (if b4 {
        16u8
    } else {
        0u8
    }) | (if b5 {
        32u8
    } else {
        0u8
    }) | (if b6 {
        64u8
    } else {
        0u8
    }) | (if b7 {
        128u8
    } else {
        0u8
    })
}

/// Whether the flag at a place is held.
pub open spec fn flag_held(names: Seq<Seq<char>>, held: Seq<Seq<char>>, i: int) -> bool {
    i < names.len() && held.contains(names[i])
}

/// Flags as bytes: a bit for each name in turn, set where the name is held, the
/// least significant bit of a byte first; one byte where there are no names.
pub open spec fn flags_of(names: Seq<Seq<char>>, held: Seq<Seq<char>>) -> Seq<u8> {
    Seq::new(
        if names.len() == 0 {
            1
        } else {
            (names.len() + 7) as nat / 8
        },
        |k: int|
            byte_of(
                flag_held(names, held, 8 * k),
                flag_held(names, held, 8 * k + 1),
                flag_held(names, held, 8 * k + 2),
                flag_held(names, held, 8 * k + 3),
                flag_held(names, held, 8 * k + 4),
                flag_held(names, held, 8 * k + 5),
                flag_held(names, held, 8 * k + 6),
                flag_held(names, held, 8 * k + 7),
            ),
    )
}

/// The bytes of a value of a type.
pub open spec fn encode(ty: Type, val: ValModel) -> Seq<u8>
    decreases ty, 0nat,
{
    match ty {
        Type::Bool => if val->Bool_0 {
            seq![1u8]
        } else {
            seq![0u8]
        },
        Type::S8 => seq![val->S8_0 as u8],
        Type::U8 => seq![val->U8_0],
        Type::S16 => sleb_of(val->S16_0 as int),
        Type::U16 => uleb_of(val->U16_0 as nat),
        Type::S32 => sleb_of(val->S32_0 as int),
        Type::U32 => uleb_of(val->U32_0 as nat),
        Type::S64 => sleb_of(val->S64_0 as int),
        Type::U64 => uleb_of(val->U64_0 as nat),
        Type::Float32 => le_of(val->Float32_0 as nat, 4),
        Type::Float64 => le_of(val->Float64_0 as nat, 8),
        Type::Char => vstd::utf8::encode_utf8(seq![val->Char_0]),
        Type::Str => uleb_of(vstd::utf8::encode_utf8(val->Str_0).len())
            + vstd::utf8::encode_utf8(val->Str_0),
        Type::List(elem) => uleb_of(val->List_0.len()) + encode_list(
            *elem,
            val->List_0,
            val->List_0.len(),
        ),
        Type::Record(fields) => encode_record(fields@, val->Record_0, fields@.len()),
        Type::Tuple(types) => encode_tuple(types@, val->Tuple_0, types@.len()),
        Type::Variant(cases) => {
            let d = case_names(cases@).index_of(val->Variant_0);
            uleb_of(d as nat) + if 0 <= d < cases@.len() {
                match cases@[d].1 {
                    Some(ty) => encode(ty, *val->Variant_1->0),
                    None => Seq::empty(),
                }
            } else {
                Seq::empty()
            }
        },
        Type::Enum(names) => uleb_of(
            crate::text::views(names@).index_of(val->Enum_0) as nat,
        ),
        Type::Opt(ty) => match val->Opt_0 {
            None => seq![0u8],
            Some(held) => seq![1u8] + encode(*ty, *held),
        },
        Type::Res(ok, err) => match val->Res_0 {
            Ok(payload) => seq![0u8] + match ok {
                Some(ty) => encode(*ty, *payload->0),
                None => Seq::empty(),
            },
            Err(payload) => seq![1u8] + match err {
                Some(ty) => encode(*ty, *payload->0),
                None => Seq::empty(),
            },
        },
        Type::Flags(names) => flags_of(crate::text::views(names@), val->Flags_0),
        _ => Seq::empty(),
    }
}

/// The bytes of the first `n` values of a list.
pub open spec fn encode_list(elem: Type, vals: Seq<ValModel>, n: nat) -> Seq<u8>
    decreases elem, n + 1,
{
    if n == 0 {
        Seq::empty()
    } else {
        encode_list(elem, vals, (n - 1) as nat) + encode(elem, vals[n - 1])
    }
}

/// The bytes of the first `n` values of a record.
pub open spec fn encode_record(
    fields: Seq<(String, Type)>,
    vals: Seq<(Seq<char>, ValModel)>,
    n: nat,
) -> Seq<u8>
    decreases fields, n + 1,
{
    if n == 0 || n > fields.len() {
        Seq::empty()
    } else {
        encode_record(fields, vals, (n - 1) as nat) + encode(fields[n - 1].1, vals[n - 1].1)
    }
}

/// The bytes of the first `n` values of a tuple.
pub open spec fn encode_tuple(types: Seq<Type>, vals: Seq<ValModel>, n: nat) -> Seq<u8>
    decreases types, n + 1,
{
    if n == 0 || n > types.len() {
        Seq::empty()
    } else {
        encode_tuple(types, vals, (n - 1) as nat) + encode(types[n - 1], vals[n - 1])
    }
}

proof fn lemma_uleb_of(n: nat, bits: nat, more: Seq<u8>)
    requires
        n < vstd::arithmetic::power2::pow2(bits),
    ensures
        crate::link::wire::uleb(uleb_of(n) + more, bits) == Ok::<(int, Seq<u8>), ReadFault>((n as int, more)),
    decreases bits,
{
    vstd::arithmetic::power2::lemma2_to64();
    let bytes = uleb_of(n) + more;
    if n < 0x80 {
        assert(bytes.skip(1) =~= more);
    } else {
        if bits <= 7 {
            if bits < 7 {
                vstd::arithmetic::power2::lemma_pow2_strictly_increases(bits, 7);
            }
            assert(false);
        }
        vstd::arithmetic::power2::lemma_pow2_adds(7, (bits - 7) as nat);
        assert(n / 0x80 < vstd::arithmetic::power2::pow2((bits - 7) as nat)) by (nonlinear_arith)
            requires
                n < 128 * vstd::arithmetic::power2::pow2((bits - 7) as nat),
        ;
        lemma_uleb_of(n / 0x80, (bits - 7) as nat, more);
        assert(bytes.skip(1) =~= uleb_of(n / 0x80) + more);
    }
}

proof fn lemma_sleb_of(n: int, bits: nat, more: Seq<u8>)
    requires
        bits >= 1,
        -vstd::arithmetic::power2::pow2((bits - 1) as nat) <= n < vstd::arithmetic::power2::pow2((bits - 1) as nat),
    ensures
        crate::link::wire::sleb(sleb_of(n) + more, bits) == Ok::<(int, Seq<u8>), ReadFault>((n, more)),
    decreases bits,
{
    vstd::arithmetic::power2::lemma2_to64();
    let bytes = sleb_of(n) + more;
    if -0x40 <= n < 0x40 {
        assert(bytes.skip(1) =~= more);
    } else {
        if bits <= 7 {
            if bits < 7 {
                vstd::arithmetic::power2::lemma_pow2_strictly_increases((bits - 1) as nat, 6);
            }
            assert(false);
        }
        vstd::arithmetic::power2::lemma_pow2_adds(7, (bits - 8) as nat);
        assert(-vstd::arithmetic::power2::pow2((bits - 8) as nat) <= n / 0x80 < vstd::arithmetic::power2::pow2((bits - 8) as nat)) by (nonlinear_arith)
            requires
                -128 * vstd::arithmetic::power2::pow2((bits - 8) as nat) <= n < 128 * vstd::arithmetic::power2::pow2((bits - 8) as nat),
        ;
        lemma_sleb_of(n / 0x80, (bits - 7) as nat, more);
        assert(bytes.skip(1) =~= sleb_of(n / 0x80) + more);
    }
}

proof fn lemma_le_of(n: nat, size: nat)
    requires
        n < vstd::arithmetic::power2::pow2(8 * size),
    ensures
        le_of(n, size).len() == size,
        crate::link::wire::le_value(le_of(n, size)) == n,
    decreases size,
{
    vstd::arithmetic::power2::lemma2_to64();
    if size > 0 {
        vstd::arithmetic::power2::lemma_pow2_adds(8, (8 * (size - 1)) as nat);
        let high = vstd::arithmetic::power2::pow2((8 * (size - 1)) as nat);
        assert(n / 0x100 < high) by (nonlinear_arith)
            requires
                n < 256 * high,
        ;
        lemma_le_of(n / 0x100, (size - 1) as nat);
        assert(le_of(n, size).skip(1) =~= le_of(n / 0x100, (size - 1) as nat));
    }
}

proof fn lemma_uleb_room(bytes: Seq<u8>, bits: nat)
    ensures
        crate::link::wire::uleb(bytes, bits) matches Ok((v, _)) ==> 0 <= v < vstd::arithmetic::power2::pow2(bits),
    decreases bits,
{
    vstd::arithmetic::power2::lemma2_to64();
    if bytes.len() > 0 && bits >= 7 {
        vstd::arithmetic::power2::lemma_pow2_adds(7, (bits - 7) as nat);
        vstd::arithmetic::power2::lemma_pow2_pos((bits - 7) as nat);
        lemma_uleb_room(bytes.skip(1), (bits - 7) as nat);
        if let Ok((high, _)) = crate::link::wire::uleb(bytes.skip(1), (bits - 7) as nat) {
            let room = vstd::arithmetic::power2::pow2((bits - 7) as nat);
            assert(128 * high + 128 <= 128 * room) by (nonlinear_arith)
                requires
                    high < room,
            ;
        }
        assert(128 <= 128 * vstd::arithmetic::power2::pow2((bits - 7) as nat)) by (nonlinear_arith)
            requires
                vstd::arithmetic::power2::pow2((bits - 7) as nat) >= 1,
        ;
    }
}

proof fn lemma_byte_of(
    b0: bool,
    b1: bool,
    b2: bool,
    b3: bool,
    b4: bool,
    b5: bool,
    b6: bool,
    b7: bool,
)
    ensures
        ({
            let b = byte_of(b0, b1, b2, b3, b4, b5, b6, b7);
            &&& (b & (1u8 << 0u8) != 0) == b0
            &&& (b & (1u8 << 1u8) != 0) == b1
            &&& (b & (1u8 << 2u8) != 0) == b2
            &&& (b & (1u8 << 3u8) != 0) == b3
            &&& (b & (1u8 << 4u8) != 0) == b4
            &&& (b & (1u8 << 5u8) != 0) == b5
            &&& (b & (1u8 << 6u8) != 0) == b6
            &&& (b & (1u8 << 7u8) != 0) == b7
        }),
{
    assert({
        let b = byte_of(b0, b1, b2, b3, b4, b5, b6, b7);
        &&& (b & (1u8 << 0u8) != 0) == b0
        &&& (b & (1u8 << 1u8) != 0) == b1
        &&& (b & (1u8 << 2u8) != 0) == b2
        &&& (b & (1u8 << 3u8) != 0) == b3
        &&& (b & (1u8 << 4u8) != 0) == b4
        &&& (b & (1u8 << 5u8) != 0) == b5
        &&& (b & (1u8 << 6u8) != 0) == b6
        &&& (b & (1u8 << 7u8) != 0) == b7
    }) by (bit_vector);
}

proof fn lemma_flag_bit(names: Seq<Seq<char>>, held: Seq<Seq<char>>, i: int)
    requires
        0 <= i < names.len(),
    ensures
        crate::link::decode::bit_set(flags_of(names, held), i) == held.contains(names[i]),
{
    let k = i / 8;
    lemma_byte_of(
        flag_held(names, held, 8 * k),
        flag_held(names, held, 8 * k + 1),
        flag_held(names, held, 8 * k + 2),
        flag_held(names, held, 8 * k + 3),
        flag_held(names, held, 8 * k + 4),
        flag_held(names, held, 8 * k + 5),
        flag_held(names, held, 8 * k + 6),
        flag_held(names, held, 8 * k + 7),
    );
    assert(flags_of(names, held)[k] == byte_of(
        flag_held(names, held, 8 * k),
        flag_held(names, held, 8 * k + 1),
        flag_held(names, held, 8 * k + 2),
        flag_held(names, held, 8 * k + 3),
        flag_held(names, held, 8 * k + 4),
        flag_held(names, held, 8 * k + 5),
        flag_held(names, held, 8 * k + 6),
        flag_held(names, held, 8 * k + 7),
    ));
    assert(i == 8 * k + i % 8);
    assert(flag_held(names, held, i) == held.contains(names[i]));
    let j = i % 8;
    assert(j == 0 || j == 1 || j == 2 || j == 3 || j == 4 || j == 5 || j == 6 || j == 7);
}

/// The names whose bit is set are those that a test keeps, where the bits say
/// what the test does.
proof fn lemma_set_names(
    names: Seq<Seq<char>>,
    bytes: Seq<u8>,
    keep: spec_fn(Seq<char>) -> bool,
)
    requires
        forall|i: int|
            0 <= i < names.len() ==> crate::link::decode::bit_set(bytes, i) == keep(
                #[trigger] names[i],
            ),
    ensures
        crate::link::decode::set_names(names, bytes) == names.filter(keep),
    decreases names.len(),
{
    reveal(Seq::filter);
    if names.len() > 0 {
        let before = names.drop_last();
        assert forall|i: int| 0 <= i < before.len() implies crate::link::decode::bit_set(bytes, i)
            == keep(#[trigger] before[i]) by {
            assert(before[i] == names[i]);
        }
        lemma_set_names(before, bytes, keep);
        assert(names[names.len() - 1] == names.last());
    } else {
        assert(names.filter(keep) =~= Seq::empty());
    }
}

/// A name is among those set exactly where its bit is.
proof fn lemma_set_contains(names: Seq<Seq<char>>, bytes: Seq<u8>, i: int)
    requires
        names.no_duplicates(),
        0 <= i < names.len(),
    ensures
        crate::link::decode::set_names(names, bytes).contains(names[i])
            == crate::link::decode::bit_set(bytes, i),
    decreases names.len(),
{
    let before = names.drop_last();
    let set = crate::link::decode::set_names(before, bytes);
    assert(before.no_duplicates());
    if i < names.len() - 1 {
        lemma_set_contains(before, bytes, i);
        assert(before[i] == names[i]);
        assert(names.last() != names[i]);
        if set.contains(names[i]) {
            let k = choose|k: int| 0 <= k < set.len() && set[k] == names[i];
            assert(set.push(names.last())[k] == names[i]);
        }
        if set.push(names.last()).contains(names[i]) {
            let k = choose|k: int|
                0 <= k < set.push(names.last()).len() && set.push(names.last())[k] == names[i];
            assert(set[k] == names[i]);
        }
    } else {
        lemma_set_subset(before, bytes, names.last());
        assert(set.push(names.last())[set.len() as int] == names[i]);
    }
}

/// Only names are among those set.
proof fn lemma_set_subset(names: Seq<Seq<char>>, bytes: Seq<u8>, name: Seq<char>)
    ensures
        crate::link::decode::set_names(names, bytes).contains(name) ==> names.contains(name),
    decreases names.len(),
{
    if names.len() > 0 {
        let before = names.drop_last();
        let set = crate::link::decode::set_names(before, bytes);
        lemma_set_subset(before, bytes, name);
        if before.contains(name) {
            let k = choose|k: int| 0 <= k < before.len() && before[k] == name;
            assert(names[k] == name);
        }
        if set.push(names.last()).contains(name) && name != names.last() {
            let k = choose|k: int|
                0 <= k < set.push(names.last()).len() && set.push(names.last())[k] == name;
            assert(set[k] == name);
        }
        if name == names.last() {
            assert(names[names.len() - 1] == name);
        }
    }
}

/// A decoded value is one of the type that it was decoded at.
pub proof fn decoded_values_have_their_type(ty: Type, bytes: Seq<u8>)
    requires
        sound(ty),
    ensures
        crate::link::decode::decode(ty, bytes) matches Ok((val, _)) ==> has_type(ty, val),
    decreases ty, 0nat,
{
    vstd::arithmetic::power2::lemma2_to64();
    match ty {
        Type::Str => {
            lemma_uleb_room(bytes, 32);
            if let Ok((n, rest)) = crate::link::wire::uleb(bytes, 32) {
                if n <= rest.len() && vstd::utf8::valid_utf8(rest.take(n)) {
                    vstd::utf8::decode_utf8_encode_utf8(rest.take(n));
                }
            }
        },
        Type::List(elem) => {
            lemma_uleb_room(bytes, 32);
            if let Ok((n, rest)) = crate::link::wire::uleb(bytes, 32) {
                lemma_typed_list(*elem, n as nat, rest);
            }
        },
        Type::Record(fields) => {
            lemma_typed_record(fields@, fields@.len(), bytes);
        },
        Type::Tuple(types) => {
            lemma_typed_tuple(types@, types@.len(), bytes);
        },
        Type::Variant(cases) => {
            lemma_uleb_room(bytes, 32);
            if let Ok((d, rest)) = crate::link::wire::uleb(bytes, 32) {
                if 0 <= d < cases@.len() {
                    assert(cases@[d].0@ == cases@[d].0@);
                    if let Some(held) = cases@[d].1 {
                        decoded_values_have_their_type(held, rest);
                    }
                }
            }
        },
        Type::Enum(names) => {
            lemma_uleb_room(bytes, 32);
            if let Ok((d, rest)) = crate::link::wire::uleb(bytes, 32) {
                if 0 <= d < names@.len() {
                    assert(crate::text::views(names@)[d] == names@[d]@);
                }
            }
        },
        Type::Opt(held) => {
            if let Ok((there, rest)) = crate::link::wire::bit_byte(bytes) {
                decoded_values_have_their_type(*held, rest);
            }
        },
        Type::Res(ok, err) => {
            if let Ok((failed, rest)) = crate::link::wire::bit_byte(bytes) {
                if let Some(held) = ok {
                    decoded_values_have_their_type(*held, rest);
                }
                if let Some(held) = err {
                    decoded_values_have_their_type(*held, rest);
                }
            }
        },
        Type::Flags(names) => {
            let all = crate::text::views(names@);
            if let Ok((b, rest)) = crate::link::wire::exact(
                bytes,
                crate::link::decode::flag_bytes(names@.len() as int),
            ) {
                let set = crate::link::decode::set_names(all, b);
                let keep = |name: Seq<char>| set.contains(name);
                assert forall|i: int| 0 <= i < all.len() implies crate::link::decode::bit_set(b, i)
                    == keep(#[trigger] all[i]) by {
                    lemma_set_contains(all, b, i);
                }
                lemma_set_names(all, b, keep);
            }
        },
        _ => {},
    }
}

proof fn lemma_typed_list(elem: Type, n: nat, bytes: Seq<u8>)
    requires
        sound(elem),
    ensures
        crate::link::decode::decode_list(elem, n, bytes) matches Ok((vals, _)) ==> vals.len() == n && forall|i: int|
            0 <= i < vals.len() ==> has_type(elem, #[trigger] vals[i]),
    decreases elem, n + 1,
{
    if n > 0 {
        lemma_typed_list(elem, (n - 1) as nat, bytes);
        if let Ok((vals, rest)) = crate::link::decode::decode_list(elem, (n - 1) as nat, bytes) {
            decoded_values_have_their_type(elem, rest);
        }
    }
}

proof fn lemma_typed_record(fields: Seq<(String, Type)>, n: nat, bytes: Seq<u8>)
    requires
        n <= fields.len(),
        forall|i: int| 0 <= i < fields.len() ==> sound((#[trigger] fields[i]).1),
    ensures
        crate::link::decode::decode_record(fields, n, bytes) matches Ok((vals, _)) ==> vals.len() == n && forall|i: int|
            #![trigger fields[i]]
            0 <= i < n ==> vals[i].0 == fields[i].0@ && has_type(fields[i].1, vals[i].1),
    decreases fields, n + 1,
{
    if n > 0 {
        lemma_typed_record(fields, (n - 1) as nat, bytes);
        if let Ok((vals, rest)) = crate::link::decode::decode_record(fields, (n - 1) as nat, bytes) {
            decoded_values_have_their_type(fields[n - 1].1, rest);
        }
    }
}

proof fn lemma_typed_tuple(types: Seq<Type>, n: nat, bytes: Seq<u8>)
    requires
        n <= types.len(),
        forall|i: int| 0 <= i < types.len() ==> sound(#[trigger] types[i]),
    ensures
        crate::link::decode::decode_tuple(types, n, bytes) matches Ok((vals, _)) ==> vals.len() == n && forall|i: int|
            #![trigger types[i]]
            0 <= i < n ==> has_type(types[i], vals[i]),
    decreases types, n + 1,
{
    if n > 0 {
        lemma_typed_tuple(types, (n - 1) as nat, bytes);
        if let Ok((vals, rest)) = crate::link::decode::decode_tuple(types, (n - 1) as nat, bytes) {
            decoded_values_have_their_type(types[n - 1], rest);
        }
    }
}

/// Reading gives back what was written: the bytes of a value, whatever follows
/// them, decode to that value and leave what follows.
#[verifier::rlimit(40)]
#[verifier::spinoff_prover]
pub proof fn decoding_undoes_encoding(ty: Type, val: ValModel, more: Seq<u8>)
    requires
        sound(ty),
        has_type(ty, val),
    ensures
        crate::link::decode::decode(ty, encode(ty, val) + more) == crate::link::decode::done(val, more),
    decreases ty, 0nat,
{
    let bytes = encode(ty, val) + more;
    vstd::arithmetic::power2::lemma2_to64();
    match ty {
        Type::List(elem) => {
            let vals = val->List_0;
            let rest = encode_list(*elem, vals, vals.len()) + more;
            assert(bytes =~= uleb_of(vals.len()) + rest);
            lemma_uleb_of(vals.len(), 32, rest);
            lemma_list_back(*elem, vals, vals.len(), more);
            assert(vals.take(vals.len() as int) =~= vals);
        },
        Type::Record(fields) => {
            let vals = val->Record_0;
            lemma_record_back(fields@, vals, fields@.len(), more);
            assert(vals.take(vals.len() as int) =~= vals);
        },
        Type::Tuple(types) => {
            let vals = val->Tuple_0;
            tuples_are_read_back(types@, vals, types@.len(), more);
            assert(vals.take(vals.len() as int) =~= vals);
        },
        Type::Variant(cases) => {
            let names = case_names(cases@);
            let name = val->Variant_0;
            let at = choose|d: int|
                #![trigger cases@[d]]
                0 <= d < cases@.len() && cases@[d].0@ == name && match cases@[d].1 {
                    Some(ty) => val->Variant_1 matches Some(held) && has_type(ty, *held),
                    None => val->Variant_1 is None,
                };
            assert(names[at] == name);
            let d = names.index_of(name);
            assert(d == at);
            match cases@[d].1 {
                Some(held) => {
                    let rest = encode(held, *val->Variant_1->0) + more;
                    assert(bytes =~= uleb_of(d as nat) + rest);
                    lemma_uleb_of(d as nat, 32, rest);
                    decoding_undoes_encoding(held, *val->Variant_1->0, more);
                },
                None => {
                    assert(bytes =~= uleb_of(d as nat) + more);
                    lemma_uleb_of(d as nat, 32, more);
                },
            }
        },
        Type::Enum(names) => {
            let all = crate::text::views(names@);
            let d = all.index_of(val->Enum_0);
            assert(0 <= d < all.len() && all[d] == val->Enum_0);
            lemma_uleb_of(d as nat, 32, more);
        },
        Type::Opt(held) => {
            if let Some(inner) = val->Opt_0 {
                assert(bytes.skip(1) =~= encode(*held, *inner) + more);
                decoding_undoes_encoding(*held, *inner, more);
            } else {
                assert(bytes.skip(1) =~= more);
            }
        },
        Type::Res(ok, err) => {
            match val->Res_0 {
                Ok(payload) => {
                    match ok {
                        Some(held) => {
                            assert(bytes.skip(1) =~= encode(*held, *payload->0) + more);
                            decoding_undoes_encoding(*held, *payload->0, more);
                        },
                        None => {
                            assert(bytes.skip(1) =~= more);
                        },
                    }
                },
                Err(payload) => {
                    match err {
                        Some(held) => {
                            assert(bytes.skip(1) =~= encode(*held, *payload->0) + more);
                            decoding_undoes_encoding(*held, *payload->0, more);
                        },
                        None => {
                            assert(bytes.skip(1) =~= more);
                        },
                    }
                },
            }
        },
        Type::Flags(names) => {
            let all = crate::text::views(names@);
            let held = val->Flags_0;
            let keep = |name: Seq<char>| held.contains(name);
            let size = crate::link::decode::flag_bytes(names@.len() as int);
            assert(flags_of(all, held).len() == size);
            assert(bytes.take(size) =~= flags_of(all, held));
            assert(bytes.skip(size) =~= more);
            assert forall|i: int| 0 <= i < all.len() implies crate::link::decode::bit_set(
                flags_of(all, held),
                i,
            ) == keep(#[trigger] all[i]) by {
                lemma_flag_bit(all, held, i);
            }
            lemma_set_names(all, flags_of(all, held), keep);
        },
        _ => {
            lemma_scalar_back(ty, val, more);
        },
    }
}

proof fn lemma_scalar_back(ty: Type, val: ValModel, more: Seq<u8>)
    requires
        crate::link::decode::scalar(ty),
        has_type(ty, val),
    ensures
        crate::link::decode::decode(ty, encode(ty, val) + more) == crate::link::decode::done(val, more),
{
    let bytes = encode(ty, val) + more;
    vstd::arithmetic::power2::lemma2_to64();
    match ty {
        Type::Bool => {
            assert(bytes.skip(1) =~= more);
        },
        Type::S8 => {
            let v = val->S8_0;
            assert((v as u8) as i8 == v) by (bit_vector);
            assert(bytes.skip(1) =~= more);
            assert(bytes.take(1)[0] == v as u8);
        },
        Type::U8 => {
            assert(bytes.skip(1) =~= more);
            assert(bytes.take(1)[0] == val->U8_0);
        },
        Type::S16 => {
            lemma_sleb_of(val->S16_0 as int, 16, more);
        },
        Type::U16 => {
            lemma_uleb_of(val->U16_0 as nat, 16, more);
        },
        Type::S32 => {
            lemma_sleb_of(val->S32_0 as int, 32, more);
        },
        Type::U32 => {
            lemma_uleb_of(val->U32_0 as nat, 32, more);
        },
        Type::S64 => {
            vstd::arithmetic::power2::lemma2_to64_rest();
            lemma_sleb_of(val->S64_0 as int, 64, more);
        },
        Type::U64 => {
            lemma_uleb_of(val->U64_0 as nat, 64, more);
        },
        Type::Float32 => {
            lemma_le_of(val->Float32_0 as nat, 4);
            assert(bytes.take(4) =~= le_of(val->Float32_0 as nat, 4));
            assert(bytes.skip(4) =~= more);
        },
        Type::Float64 => {
            lemma_le_of(val->Float64_0 as nat, 8);
            assert(bytes.take(8) =~= le_of(val->Float64_0 as nat, 8));
            assert(bytes.skip(8) =~= more);
        },
        Type::Char => {
            let c = val->Char_0;
            let alone = vstd::utf8::encode_utf8(seq![c]);
            vstd::utf8::encode_utf8_first_scalar(seq![c]);
            reveal_with_fuel(vstd::utf8::encode_utf8, 2);
            assert(seq![c].drop_first() =~= Seq::empty());
            assert(alone =~= vstd::utf8::encode_scalar(c as u32));
            vstd::utf8::char_u32_cast(c, vstd::utf8::decode_first_scalar(alone));
            assert(bytes.skip(alone.len() as int) =~= more);
        },
        Type::Str => {
            let text = vstd::utf8::encode_utf8(val->Str_0);
            assert(bytes =~= uleb_of(text.len()) + (text + more));
            lemma_uleb_of(text.len(), 32, text + more);
            assert((text + more).take(text.len() as int) =~= text);
            assert((text + more).skip(text.len() as int) =~= more);
            vstd::utf8::encode_utf8_valid_utf8(val->Str_0);
            vstd::utf8::encode_utf8_decode_utf8(val->Str_0);
        },
        _ => {},
    }
}

proof fn lemma_list_back(elem: Type, vals: Seq<ValModel>, n: nat, more: Seq<u8>)
    requires
        n <= vals.len(),
        sound(elem),
        forall|i: int| 0 <= i < vals.len() ==> has_type(elem, #[trigger] vals[i]),
    ensures
        crate::link::decode::decode_list(elem, n, encode_list(elem, vals, n) + more) == Ok::<
            (Seq<ValModel>, Seq<u8>),
            DecodeFault,
        >((vals.take(n as int), more)),
    decreases elem, n + 1,
{
    if n > 0 {
        let p = (n - 1) as nat;
        let last = encode(elem, vals[p as int]) + more;
        assert(encode_list(elem, vals, n) + more =~= encode_list(elem, vals, p) + last);
        lemma_list_back(elem, vals, p, last);
        decoding_undoes_encoding(elem, vals[p as int], more);
        assert(vals.take(n as int) =~= vals.take(p as int).push(vals[p as int]));
    } else {
        assert(encode_list(elem, vals, n) + more =~= more);
        assert(vals.take(0) =~= Seq::empty());
    }
}

proof fn lemma_record_back(
    fields: Seq<(String, Type)>,
    vals: Seq<(Seq<char>, ValModel)>,
    n: nat,
    more: Seq<u8>,
)
    requires
        n <= fields.len() == vals.len(),
        forall|i: int| 0 <= i < fields.len() ==> sound((#[trigger] fields[i]).1),
        forall|i: int|
            #![trigger fields[i]]
            0 <= i < fields.len() ==> vals[i].0 == fields[i].0@ && has_type(
                fields[i].1,
                vals[i].1,
            ),
    ensures
        crate::link::decode::decode_record(fields, n, encode_record(fields, vals, n) + more) == Ok::<
            (Seq<(Seq<char>, ValModel)>, Seq<u8>),
            DecodeFault,
        >((vals.take(n as int), more)),
    decreases fields, n + 1,
{
    if n > 0 {
        let p = (n - 1) as nat;
        let ty = fields[p as int].1;
        let last = encode(ty, vals[p as int].1) + more;
        assert(encode_record(fields, vals, n) + more =~= encode_record(fields, vals, p) + last);
        lemma_record_back(fields, vals, p, last);
        decoding_undoes_encoding(ty, vals[p as int].1, more);
        assert(vals.take(n as int) =~= vals.take(p as int).push(
            (fields[p as int].0@, vals[p as int].1),
        ));
    } else {
        assert(encode_record(fields, vals, n) + more =~= more);
        assert(vals.take(0) =~= Seq::empty());
    }
}

/// The values of a tuple are read back: the bytes of the first `n` of them,
/// whatever follows, decode to those values and leave what follows.
pub proof fn tuples_are_read_back(types: Seq<Type>, vals: Seq<ValModel>, n: nat, more: Seq<u8>)
    requires
        n <= types.len() == vals.len(),
        forall|i: int| 0 <= i < types.len() ==> sound(#[trigger] types[i]),
        forall|i: int|
            #![trigger types[i]]
            0 <= i < types.len() ==> has_type(types[i], vals[i]),
    ensures
        crate::link::decode::decode_tuple(types, n, encode_tuple(types, vals, n) + more) == Ok::<
            (Seq<ValModel>, Seq<u8>),
            DecodeFault,
        >((vals.take(n as int), more)),
    decreases types, n + 1,
{
    if n > 0 {
        let p = (n - 1) as nat;
        let last = encode(types[p as int], vals[p as int]) + more;
        assert(encode_tuple(types, vals, n) + more =~= encode_tuple(types, vals, p) + last);
        tuples_are_read_back(types, vals, p, last);
        decoding_undoes_encoding(types[p as int], vals[p as int], more);
        assert(vals.take(n as int) =~= vals.take(p as int).push(vals[p as int]));
    } else {
        assert(encode_tuple(types, vals, n) + more =~= more);
        assert(vals.take(0) =~= Seq::empty());
    }
}

/// Bytes that stop short of a value hold none: no proper part of a value's
/// bytes decodes at its type.
pub proof fn cut_values_do_not_decode(ty: Type, val: ValModel, n: int)
    requires
        sound(ty),
        has_type(ty, val),
        0 <= n < encode(ty, val).len(),
    ensures
        crate::link::decode::decode(ty, encode(ty, val).take(n)) is Err,
{
    let bytes = encode(ty, val);
    let cut = bytes.take(n);
    let more = bytes.skip(n);
    if let Ok((read, rest)) = crate::link::decode::decode(ty, cut) {
        crate::link::decode::decoding_ignores_what_follows(ty, cut, more);
        assert(cut + more =~= bytes);
        decoding_undoes_encoding(ty, val, Seq::empty());
        assert(bytes + Seq::<u8>::empty() =~= bytes);
        assert((rest + more).len() == 0);
    }
}

/// The first byte of a boolean, an option or a result is 0 or 1: a boolean is
/// true, an option holds a value and a result is a failure exactly where it is
/// 1.
pub proof fn first_bytes_tell(ty: Type, bytes: Seq<u8>)
    requires
        ty is Bool || ty is Opt || ty is Res,
    ensures
        crate::link::decode::decode(ty, bytes) matches Ok((val, _)) ==> {
            &&& bytes.len() > 0
            &&& bytes[0] == 0 || bytes[0] == 1
            &&& ty is Bool ==> val == ValModel::Bool(bytes[0] == 1)
            &&& ty is Opt ==> val is Opt && (val->Opt_0 is Some <==> bytes[0] == 1)
            &&& ty is Res ==> val is Res && (val->Res_0 is Err <==> bytes[0] == 1)
        },
{
}

/// A byte that must be 0 or 1 and is neither faults as itself, under what it
/// stands for.
pub proof fn stray_bytes_are_named(ty: Type, bytes: Seq<u8>)
    requires
        ty is Bool || ty is Opt || ty is Res,
        bytes.len() > 0,
        bytes[0] > 1,
    ensures
        crate::link::decode::decode(ty, bytes) matches Err(DecodeFault::Byte(status, n)) && n
            == bytes[0] && (ty is Bool <==> status is Bool) && (ty is Opt <==> status is Opt) && (
        ty is Res <==> status is Res),
{
}

/// A discriminant that the type has no case for faults as itself, whatever
/// follows it.
pub proof fn strange_discriminants_are_named(ty: Type, d: u32, more: Seq<u8>)
    requires
        match ty {
            Type::Variant(cases) => d >= cases@.len(),
            Type::Enum(names) => d >= names@.len(),
            _ => false,
        },
    ensures
        ty is Variant ==> crate::link::decode::decode(ty, uleb_of(d as nat) + more)
            == crate::link::decode::fault(DecodeFault::UnknownVariant(d)),
        ty is Enum ==> crate::link::decode::decode(ty, uleb_of(d as nat) + more)
            == crate::link::decode::fault(DecodeFault::UnknownEnum(d)),
{
    vstd::arithmetic::power2::lemma2_to64();
    lemma_uleb_of(d as nat, 32, more);
}

proof fn lemma_uleb_wide(n: nat, bits: nat, more: Seq<u8>)
    requires
        bits % 7 != 0,
        n >= vstd::arithmetic::power2::pow2(bits),
    ensures
        crate::link::wire::uleb(uleb_of(n) + more, bits) == Err::<(int, Seq<u8>), ReadFault>(
            ReadFault::InvalidData,
        ),
    decreases bits,
{
    vstd::arithmetic::power2::lemma2_to64();
    let bytes = uleb_of(n) + more;
    if bits < 7 {
        vstd::arithmetic::power2::lemma_pow2_strictly_increases(bits, 7);
    } else {
        vstd::arithmetic::power2::lemma_pow2_adds(7, (bits - 7) as nat);
        let rest = vstd::arithmetic::power2::pow2((bits - 7) as nat);
        vstd::arithmetic::power2::lemma_pow2_pos((bits - 7) as nat);
        assert(n >= 128 * rest && n >= 128 && n / 0x80 >= rest) by (nonlinear_arith)
            requires
                n >= 128 * rest,
                rest >= 1,
        ;
        lemma_uleb_wide(n / 0x80, (bits - 7) as nat, more);
        assert(bytes.skip(1) =~= uleb_of(n / 0x80) + more);
    }
}

proof fn lemma_sleb_wide(n: int, bits: nat, more: Seq<u8>)
    requires
        bits % 7 != 0,
        !(-vstd::arithmetic::power2::pow2((bits - 1) as nat) <= n
            < vstd::arithmetic::power2::pow2((bits - 1) as nat)),
    ensures
        crate::link::wire::sleb(sleb_of(n) + more, bits) == Err::<(int, Seq<u8>), ReadFault>(
            ReadFault::InvalidData,
        ),
    decreases bits,
{
    vstd::arithmetic::power2::lemma2_to64();
    let bytes = sleb_of(n) + more;
    if bits < 7 {
        vstd::arithmetic::power2::lemma_pow2_strictly_increases((bits - 1) as nat, 6);
        if bits < 6 {
            vstd::arithmetic::power2::lemma_pow2_strictly_increases((bits - 1) as nat, 5);
        }
        assert(vstd::arithmetic::power2::pow2((bits - 1) as nat) <= 32);
    } else {
        vstd::arithmetic::power2::lemma_pow2_adds(7, (bits - 8) as nat);
        let rest = vstd::arithmetic::power2::pow2((bits - 8) as nat) as int;
        vstd::arithmetic::power2::lemma_pow2_pos((bits - 8) as nat);
        assert(!(-rest <= n / 0x80 < rest) && !(-128 <= n < 128)) by (nonlinear_arith)
            requires
                !(-128 * rest <= n < 128 * rest),
                rest >= 1,
        ;
        lemma_sleb_wide(n / 0x80, (bits - 7) as nat, more);
        assert(bytes.skip(1) =~= sleb_of(n / 0x80) + more);
    }
}

/// A number that its type has no room for faults with the type's width.
pub proof fn wide_numbers_overflow(n: nat, m: int, more: Seq<u8>)
    ensures
        n > u16::MAX ==> crate::link::decode::decode(Type::U16, uleb_of(n) + more)
            == crate::link::decode::fault(DecodeFault::Overflow(16)),
        n > u32::MAX ==> crate::link::decode::decode(Type::U32, uleb_of(n) + more)
            == crate::link::decode::fault(DecodeFault::Overflow(32)),
        n > u64::MAX ==> crate::link::decode::decode(Type::U64, uleb_of(n) + more)
            == crate::link::decode::fault(DecodeFault::Overflow(64)),
        !(i16::MIN <= m <= i16::MAX) ==> crate::link::decode::decode(Type::S16, sleb_of(m) + more)
            == crate::link::decode::fault(DecodeFault::Overflow(16)),
        !(i32::MIN <= m <= i32::MAX) ==> crate::link::decode::decode(Type::S32, sleb_of(m) + more)
            == crate::link::decode::fault(DecodeFault::Overflow(32)),
        !(i64::MIN <= m <= i64::MAX) ==> crate::link::decode::decode(Type::S64, sleb_of(m) + more)
            == crate::link::decode::fault(DecodeFault::Overflow(64)),
{
    vstd::arithmetic::power2::lemma2_to64();
    vstd::arithmetic::power2::lemma2_to64_rest();
    if n > u16::MAX {
        lemma_uleb_wide(n, 16, more);
    }
    if n > u32::MAX {
        lemma_uleb_wide(n, 32, more);
    }
    if n > u64::MAX {
        lemma_uleb_wide(n, 64, more);
    }
    if !(i16::MIN <= m <= i16::MAX) {
        lemma_sleb_wide(m, 16, more);
    }
    if !(i32::MIN <= m <= i32::MAX) {
        lemma_sleb_wide(m, 32, more);
    }
    if !(i64::MIN <= m <= i64::MAX) {
        lemma_sleb_wide(m, 64, more);
    }
}

/// Whether a value could not be decoded because its bytes end inside it.
pub open spec fn short(read: crate::link::decode::Decoded) -> bool {
    read is Err && read->Err_0.kind_spec() is UnexpectedEof
}

proof fn lemma_uleb_cut(n: nat, bits: nat, k: int)
    requires
        n < vstd::arithmetic::power2::pow2(bits),
        0 <= k < uleb_of(n).len(),
    ensures
        crate::link::wire::uleb(uleb_of(n).take(k), bits) == Err::<(int, Seq<u8>), ReadFault>(
            ReadFault::UnexpectedEof,
        ),
    decreases bits,
{
    vstd::arithmetic::power2::lemma2_to64();
    if k > 0 {
        if bits <= 7 {
            if bits < 7 {
                vstd::arithmetic::power2::lemma_pow2_strictly_increases(bits, 7);
            }
            assert(false);
        }
        vstd::arithmetic::power2::lemma_pow2_adds(7, (bits - 7) as nat);
        assert(n / 0x80 < vstd::arithmetic::power2::pow2((bits - 7) as nat)) by (nonlinear_arith)
            requires
                n < 128 * vstd::arithmetic::power2::pow2((bits - 7) as nat),
        ;
        lemma_uleb_cut(n / 0x80, (bits - 7) as nat, k - 1);
        assert(uleb_of(n).take(k).skip(1) =~= uleb_of(n / 0x80).take(k - 1));
    }
}

proof fn lemma_sleb_cut(n: int, bits: nat, k: int)
    requires
        bits >= 1,
        -vstd::arithmetic::power2::pow2((bits - 1) as nat) <= n < vstd::arithmetic::power2::pow2(
            (bits - 1) as nat,
        ),
        0 <= k < sleb_of(n).len(),
    ensures
        crate::link::wire::sleb(sleb_of(n).take(k), bits) == Err::<(int, Seq<u8>), ReadFault>(
            ReadFault::UnexpectedEof,
        ),
    decreases bits,
{
    vstd::arithmetic::power2::lemma2_to64();
    if k > 0 {
        if bits <= 7 {
            if bits < 7 {
                vstd::arithmetic::power2::lemma_pow2_strictly_increases((bits - 1) as nat, 6);
            }
            assert(false);
        }
        vstd::arithmetic::power2::lemma_pow2_adds(7, (bits - 8) as nat);
        assert(-vstd::arithmetic::power2::pow2((bits - 8) as nat) <= n / 0x80
            < vstd::arithmetic::power2::pow2((bits - 8) as nat)) by (nonlinear_arith)
            requires
                -128 * vstd::arithmetic::power2::pow2((bits - 8) as nat) <= n < 128
                    * vstd::arithmetic::power2::pow2((bits - 8) as nat),
        ;
        lemma_sleb_cut(n / 0x80, (bits - 7) as nat, k - 1);
        assert(sleb_of(n).take(k).skip(1) =~= sleb_of(n / 0x80).take(k - 1));
    }
}

proof fn lemma_leading(a: u8, b: u8, c: u8, d: u8)
    ensures
        0xc0 <= a <= 0xc1 ==> vstd::utf8::codepoint_width_2(a, b) < 0x80,
        a == 0xe0 && 0x80 <= b < 0xa0 ==> vstd::utf8::codepoint_width_3(a, b, c) < 0x800,
        a == 0xf0 && 0x80 <= b < 0x90 ==> vstd::utf8::codepoint_width_4(a, b, c, d) < 0x10000,
{
    assert(0xc0 <= a <= 0xc1 ==> ((((a & 0x1f) as u32) << 6) | ((b & 0x3f) as u32)) < 0x80)
        by (bit_vector);
    assert(a == 0xe0 && 0x80 <= b < 0xa0 ==> ((((a & 0x0f) as u32) << 12) | (((b & 0x3f) as u32)
        << 6) | ((c & 0x3f) as u32)) < 0x800) by (bit_vector);
    assert(a == 0xf0 && 0x80 <= b < 0x90 ==> ((((a & 0x07) as u32) << 18) | (((b & 0x3f) as u32)
        << 12) | (((c & 0x3f) as u32) << 6) | ((d & 0x3f) as u32)) < 0x10000) by (bit_vector);
}

proof fn lemma_trail_cut(bytes: Seq<u8>, k: int, last: int)
    requires
        1 <= k <= bytes.len() <= last,
        forall|j: int| 1 <= j < bytes.len() ==> #[trigger] crate::link::wire::follows(bytes, j),
    ensures
        !crate::link::wire::trail_complete(bytes, k, last),
        crate::link::wire::trail_fault(bytes, k, last) is UnexpectedEof,
    decreases last + 1 - k,
{
    if k < bytes.len() {
        assert(crate::link::wire::follows(bytes, k));
        lemma_trail_cut(bytes, k + 1, last);
    }
}

proof fn lemma_char_cut(c: char, k: int)
    requires
        0 <= k < vstd::utf8::encode_utf8(seq![c]).len(),
    ensures
        short(
            crate::link::decode::decode(Type::Char, vstd::utf8::encode_utf8(seq![c]).take(k)),
        ),
{
    let alone = vstd::utf8::encode_utf8(seq![c]);
    let cut = alone.take(k);
    cut_values_do_not_decode(Type::Char, ValModel::Char(c), k);
    vstd::utf8::encode_utf8_first_scalar(seq![c]);
    reveal_with_fuel(vstd::utf8::encode_utf8, 2);
    assert(seq![c].drop_first() =~= Seq::empty());
    assert(alone =~= vstd::utf8::encode_scalar(c as u32));
    assert(vstd::utf8::length_of_first_scalar(alone) == alone.len());
    if k > 0 {
        lemma_leading(alone[0], alone[1], alone[2], alone[3]);
        assert(forall|j: int| 0 <= j < k ==> cut[j] == alone[j]);
        assert forall|j: int| 1 <= j < cut.len() implies #[trigger] crate::link::wire::follows(
            cut,
            j,
        ) by {
            assert(cut[j] == alone[j]);
        }
        assert(crate::link::wire::trailing(cut[0]) == Some(alone.len() - 1));
        lemma_trail_cut(cut, 1, alone.len() - 1);
    }
}

proof fn lemma_scalar_cut(ty: Type, val: ValModel, k: int)
    requires
        crate::link::decode::scalar(ty),
        has_type(ty, val),
        0 <= k < encode(ty, val).len(),
    ensures
        short(crate::link::decode::decode(ty, encode(ty, val).take(k))),
{
    vstd::arithmetic::power2::lemma2_to64();
    vstd::arithmetic::power2::lemma2_to64_rest();
    let cut = encode(ty, val).take(k);
    match ty {
        Type::S16 => lemma_sleb_cut(val->S16_0 as int, 16, k),
        Type::U16 => lemma_uleb_cut(val->U16_0 as nat, 16, k),
        Type::S32 => lemma_sleb_cut(val->S32_0 as int, 32, k),
        Type::U32 => lemma_uleb_cut(val->U32_0 as nat, 32, k),
        Type::S64 => lemma_sleb_cut(val->S64_0 as int, 64, k),
        Type::U64 => lemma_uleb_cut(val->U64_0 as nat, 64, k),
        Type::Float32 => lemma_le_of(val->Float32_0 as nat, 4),
        Type::Float64 => lemma_le_of(val->Float64_0 as nat, 8),
        Type::Char => lemma_char_cut(val->Char_0, k),
        Type::Str => {
            let text = vstd::utf8::encode_utf8(val->Str_0);
            let head = uleb_of(text.len());
            if k < head.len() {
                assert(cut =~= head.take(k));
                lemma_uleb_cut(text.len(), 32, k);
            } else {
                let rest = text.take(k - head.len());
                assert(cut =~= head + rest);
                lemma_uleb_of(text.len(), 32, rest);
            }
        },
        _ => {},
    }
}

proof fn lemma_list_cut(elem: Type, vals: Seq<ValModel>, n: nat, k: int)
    requires
        n <= vals.len(),
        sound(elem),
        forall|i: int| 0 <= i < vals.len() ==> has_type(elem, #[trigger] vals[i]),
        0 <= k < encode_list(elem, vals, n).len(),
    ensures
        crate::link::decode::decode_list(elem, n, encode_list(elem, vals, n).take(k)) matches Err(
            f,
        ) && f.kind_spec() is UnexpectedEof,
    decreases elem, n + 1,
{
    let p = (n - 1) as nat;
    let before = encode_list(elem, vals, p);
    let last = encode(elem, vals[p as int]);
    let cut = encode_list(elem, vals, n).take(k);
    if k < before.len() {
        lemma_list_cut(elem, vals, p, k);
        assert(cut =~= before.take(k));
    } else {
        let rest = last.take(k - before.len());
        assert(cut =~= before + rest);
        lemma_list_back(elem, vals, p, rest);
        cut_values_end_early(elem, vals[p as int], k - before.len());
    }
}

proof fn lemma_record_cut(
    fields: Seq<(String, Type)>,
    vals: Seq<(Seq<char>, ValModel)>,
    n: nat,
    k: int,
)
    requires
        n <= fields.len() == vals.len(),
        forall|i: int| 0 <= i < fields.len() ==> sound((#[trigger] fields[i]).1),
        forall|i: int|
            #![trigger fields[i]]
            0 <= i < fields.len() ==> vals[i].0 == fields[i].0@ && has_type(
                fields[i].1,
                vals[i].1,
            ),
        0 <= k < encode_record(fields, vals, n).len(),
    ensures
        crate::link::decode::decode_record(
            fields,
            n,
            encode_record(fields, vals, n).take(k),
        ) matches Err(f) && f.kind_spec() is UnexpectedEof,
    decreases fields, n + 1,
{
    let p = (n - 1) as nat;
    let ty = fields[p as int].1;
    let before = encode_record(fields, vals, p);
    let last = encode(ty, vals[p as int].1);
    let cut = encode_record(fields, vals, n).take(k);
    if k < before.len() {
        lemma_record_cut(fields, vals, p, k);
        assert(cut =~= before.take(k));
    } else {
        let rest = last.take(k - before.len());
        assert(cut =~= before + rest);
        lemma_record_back(fields, vals, p, rest);
        cut_values_end_early(ty, vals[p as int].1, k - before.len());
    }
}

proof fn lemma_tuple_cut(types: Seq<Type>, vals: Seq<ValModel>, n: nat, k: int)
    requires
        n <= types.len() == vals.len(),
        forall|i: int| 0 <= i < types.len() ==> sound(#[trigger] types[i]),
        forall|i: int|
            #![trigger types[i]]
            0 <= i < types.len() ==> has_type(types[i], vals[i]),
        0 <= k < encode_tuple(types, vals, n).len(),
    ensures
        crate::link::decode::decode_tuple(
            types,
            n,
            encode_tuple(types, vals, n).take(k),
        ) matches Err(f) && f.kind_spec() is UnexpectedEof,
    decreases types, n + 1,
{
    let p = (n - 1) as nat;
    let before = encode_tuple(types, vals, p);
    let last = encode(types[p as int], vals[p as int]);
    let cut = encode_tuple(types, vals, n).take(k);
    if k < before.len() {
        lemma_tuple_cut(types, vals, p, k);
        assert(cut =~= before.take(k));
    } else {
        let rest = last.take(k - before.len());
        assert(cut =~= before + rest);
        tuples_are_read_back(types, vals, p, rest);
        cut_values_end_early(types[p as int], vals[p as int], k - before.len());
    }
}

/// Bytes that stop short of a value fault as just that: whatever part of a
/// value's bytes is missing at their end, decoding reports that they ended.
#[verifier::rlimit(40)]
#[verifier::spinoff_prover]
pub proof fn cut_values_end_early(ty: Type, val: ValModel, k: int)
    requires
        sound(ty),
        has_type(ty, val),
        0 <= k < encode(ty, val).len(),
    ensures
        short(crate::link::decode::decode(ty, encode(ty, val).take(k))),
    decreases ty, 0nat,
{
    vstd::arithmetic::power2::lemma2_to64();
    let cut = encode(ty, val).take(k);
    match ty {
        Type::List(elem) => {
            let vals = val->List_0;
            let head = uleb_of(vals.len());
            let body = encode_list(*elem, vals, vals.len());
            if k < head.len() {
                assert(cut =~= head.take(k));
                lemma_uleb_cut(vals.len(), 32, k);
            } else {
                let rest = body.take(k - head.len());
                assert(cut =~= head + rest);
                lemma_uleb_of(vals.len(), 32, rest);
                lemma_list_cut(*elem, vals, vals.len(), k - head.len());
            }
        },
        Type::Record(fields) => {
            lemma_record_cut(fields@, val->Record_0, fields@.len(), k);
        },
        Type::Tuple(types) => {
            lemma_tuple_cut(types@, val->Tuple_0, types@.len(), k);
        },
        Type::Variant(cases) => {
            let names = case_names(cases@);
            let name = val->Variant_0;
            let at = choose|d: int|
                #![trigger cases@[d]]
                0 <= d < cases@.len() && cases@[d].0@ == name && match cases@[d].1 {
                    Some(ty) => val->Variant_1 matches Some(held) && has_type(ty, *held),
                    None => val->Variant_1 is None,
                };
            assert(names[at] == name);
            let d = names.index_of(name);
            assert(d == at);
            let head = uleb_of(d as nat);
            if k < head.len() {
                assert(cut =~= head.take(k));
                lemma_uleb_cut(d as nat, 32, k);
            } else {
                let held = cases@[d].1->0;
                let rest = encode(held, *val->Variant_1->0).take(k - head.len());
                assert(cut =~= head + rest);
                lemma_uleb_of(d as nat, 32, rest);
                cut_values_end_early(held, *val->Variant_1->0, k - head.len());
            }
        },
        Type::Enum(names) => {
            let all = crate::text::views(names@);
            let d = all.index_of(val->Enum_0);
            assert(0 <= d < all.len() && all[d] == val->Enum_0);
            lemma_uleb_cut(d as nat, 32, k);
        },
        Type::Opt(held) => {
            if k > 0 {
                let inner = val->Opt_0->0;
                assert(cut.skip(1) =~= encode(*held, *inner).take(k - 1));
                cut_values_end_early(*held, *inner, k - 1);
            }
        },
        Type::Res(ok, err) => {
            if k > 0 {
                match val->Res_0 {
                    Ok(payload) => {
                        let held = ok->0;
                        assert(cut.skip(1) =~= encode(*held, *payload->0).take(k - 1));
                        cut_values_end_early(*held, *payload->0, k - 1);
                    },
                    Err(payload) => {
                        let held = err->0;
                        assert(cut.skip(1) =~= encode(*held, *payload->0).take(k - 1));
                        cut_values_end_early(*held, *payload->0, k - 1);
                    },
                }
            }
        },
        Type::Flags(names) => {
            let all = crate::text::views(names@);
            let size = crate::link::decode::flag_bytes(names@.len() as int);
            assert(flags_of(all, val->Flags_0).len() == size);
        },
        _ => {
            lemma_scalar_cut(ty, val, k);
        },
    }
}

/// A type that cannot cross the link seam is refused as unsupported, whatever
/// the bytes; no value has it.
pub proof fn uncrossable_types_are_refused(ty: Type, val: ValModel, bytes: Seq<u8>)
    requires
        ty is Own || ty is Borrow || ty is Future || ty is Stream || ty is ErrorContext || ty
            is Mapping || ty is FixedLengthList,
    ensures
        crate::link::decode::decode(ty, bytes) is Err,
        crate::link::decode::decode(ty, bytes)->Err_0.kind_spec() is Unsupported,
        !has_type(ty, val),
{
}

/// A fault tells the number it met.
pub proof fn faults_tell_their_number(n: u32, status: Status)
    ensures
        crate::text::holds(
            DecodeFault::UnknownVariant(n).text_spec(),
            crate::text::decimal(n as nat),
        ),
        crate::text::holds(
            DecodeFault::UnknownEnum(n).text_spec(),
            crate::text::decimal(n as nat),
        ),
        n < 256 ==> crate::text::holds(
            DecodeFault::Overflow(n as u8).text_spec(),
            crate::text::decimal(n as nat),
        ),
        n < 256 ==> crate::text::holds(
            DecodeFault::Byte(status, n as u8).text_spec(),
            crate::text::decimal(n as nat),
        ),
{
    crate::text::holding_goes_on(crate::text::decimal(n as nat));
}

/// A text is read exactly where its bytes are UTF-8, whatever follows them, and
/// faults as invalid data otherwise.
pub proof fn texts_are_utf8(body: Seq<u8>, more: Seq<u8>)
    requires
        body.len() <= u32::MAX,
    ensures
        ({
            let read = crate::link::decode::decode(Type::Str, uleb_of(body.len()) + body + more);
            &&& read is Ok <==> vstd::utf8::valid_utf8(body)
            &&& read is Ok ==> read->Ok_0.1 == more
            &&& read is Err ==> read->Err_0.kind_spec() is InvalidData
        }),
{
    vstd::arithmetic::power2::lemma2_to64();
    assert(uleb_of(body.len()) + body + more =~= uleb_of(body.len()) + (body + more));
    lemma_uleb_of(body.len(), 32, body + more);
    assert((body + more).take(body.len() as int) =~= body);
    assert((body + more).skip(body.len() as int) =~= more);
}

} // verus!
