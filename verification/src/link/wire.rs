//! The primitive reads of the link's wire format, each from the front of a
//! byte slice.
//!
//! A read gives the value and the bytes behind it. Bytes that stop short of a
//! whole value give `ReadFault::UnexpectedEof`, so a caller that streams may
//! wait for more and read again.

use futures::FutureExt;
use vstd::prelude::*;
use vstd::slice::slice_subrange;
use wasm_tokio::cm::AsyncReadValue;
use wasm_tokio::{AsyncReadCore, AsyncReadLeb128, AsyncReadUtf8};

verus! {

/// Why a primitive read failed.
#[derive(Clone, Copy, Debug, PartialEq, Eq, Structural)]
pub enum ReadFault {
    /// The bytes end inside the value.
    UnexpectedEof,
    /// The bytes are no encoding of the type.
    InvalidData,
    /// The bytes are no encoding of a character.
    InvalidInput,
}

/// The outcome of a read, as the contracts speak of it.
pub open spec fn read_model<T>(r: Result<(T, &[u8]), ReadFault>) -> Result<
    (T, Seq<u8>),
    ReadFault,
> {
    match r {
        Ok((v, rest)) => Ok((v, rest@)),
        Err(fault) => Err(fault),
    }
}

/// An unsigned LEB128 integer of at most `bits` bits: seven bits a byte, the
/// low ones first, the high bit of a byte saying that another follows. In the
/// last byte that `bits` leaves room for, no bit beyond them may be set.
pub open spec fn uleb(bytes: Seq<u8>, bits: nat) -> Result<(int, Seq<u8>), ReadFault>
    decreases bits,
{
    if bytes.len() == 0 {
        Err(ReadFault::UnexpectedEof)
    } else if bits < 7 && bytes[0] >= vstd::arithmetic::power2::pow2(bits) {
        Err(ReadFault::InvalidData)
    } else if bits < 7 || bytes[0] < 0x80 {
        Ok((bytes[0] as int, bytes.skip(1)))
    } else {
        match uleb(bytes.skip(1), (bits - 7) as nat) {
            Ok((high, rest)) => Ok((bytes[0] - 0x80 + 0x80 * high, rest)),
            Err(fault) => Err(fault),
        }
    }
}

/// A signed LEB128 integer of at most `bits` bits: as the unsigned one, in
/// two's complement, bit six of the closing byte being the sign. The last byte
/// that `bits` leaves room for must close, and repeat the sign in every bit
/// beyond them.
pub open spec fn sleb(bytes: Seq<u8>, bits: nat) -> Result<(int, Seq<u8>), ReadFault>
    decreases bits,
{
    if bytes.len() == 0 {
        Err(ReadFault::UnexpectedEof)
    } else if bits < 7 && (bytes[0] >= 0x80 || vstd::arithmetic::power2::pow2((bits - 1) as nat)
        <= bytes[0] < 0x80 - vstd::arithmetic::power2::pow2((bits - 1) as nat)) {
        Err(ReadFault::InvalidData)
    } else if bytes[0] < 0x80 {
        Ok(
            (
                if bytes[0] < 0x40 {
                    bytes[0] as int
                } else {
                    bytes[0] - 0x80
                },
                bytes.skip(1),
            ),
        )
    } else {
        match sleb(bytes.skip(1), (bits - 7) as nat) {
            Ok((high, rest)) => Ok((bytes[0] - 0x80 + 0x80 * high, rest)),
            Err(fault) => Err(fault),
        }
    }
}

/// A byte that is 0 or 1.
pub open spec fn bit_byte(bytes: Seq<u8>) -> Result<(bool, Seq<u8>), ReadFault> {
    if bytes.len() == 0 {
        Err(ReadFault::UnexpectedEof)
    } else if bytes[0] > 1 {
        Err(ReadFault::InvalidData)
    } else {
        Ok((bytes[0] == 1, bytes.skip(1)))
    }
}

/// The number that bytes hold, the least significant byte first.
pub open spec fn le_value(bytes: Seq<u8>) -> int
    decreases bytes.len(),
{
    if bytes.len() == 0 {
        0
    } else {
        bytes[0] + 0x100 * le_value(bytes.skip(1))
    }
}

/// A core name: the length in bytes as an unsigned LEB128 integer, then that
/// many bytes of UTF-8.
pub open spec fn core_name(bytes: Seq<u8>) -> Result<(Seq<char>, Seq<u8>), ReadFault> {
    match uleb(bytes, 32) {
        Err(fault) => Err(fault),
        Ok((n, rest)) => if rest.len() < n {
            Err(ReadFault::UnexpectedEof)
        } else if !vstd::utf8::valid_utf8(rest.take(n)) {
            Err(ReadFault::InvalidData)
        } else {
            Ok((vstd::utf8::decode_utf8(rest.take(n)), rest.skip(n)))
        },
    }
}

/// How many bytes follow the first byte of a character; `None` where it starts
/// none.
pub open spec fn trailing(first: u8) -> Option<int> {
    if first < 0x80 {
        Some(0)
    } else if 0xc2 <= first <= 0xdf {
        Some(1)
    } else if 0xe0 <= first <= 0xef {
        Some(2)
    } else if 0xf0 <= first <= 0xf7 {
        Some(3)
    } else {
        None
    }
}

/// Whether byte `k` can follow in a character: a continuation byte, and not the
/// second byte of a number that fewer bytes hold.
pub open spec fn follows(bytes: Seq<u8>, k: int) -> bool {
    &&& 0x80 <= bytes[k] <= 0xbf
    &&& k == 1 && bytes[0] == 0xe0 ==> bytes[1] >= 0xa0
    &&& k == 1 && bytes[0] == 0xf0 ==> bytes[1] >= 0x90
}

/// The fault that reading the bytes of a character from `k` to `last` meets:
/// the bytes may run out, or one may not follow; where all do, the number they
/// hold is no character.
pub open spec fn trail_fault(bytes: Seq<u8>, k: int, last: int) -> ReadFault
    decreases last + 1 - k,
{
    if k > last {
        ReadFault::InvalidInput
    } else if k >= bytes.len() {
        ReadFault::UnexpectedEof
    } else if !follows(bytes, k) {
        ReadFault::InvalidInput
    } else {
        trail_fault(bytes, k + 1, last)
    }
}

/// Whether the bytes of a character are all there from `k` to `last`.
pub open spec fn trail_complete(bytes: Seq<u8>, k: int, last: int) -> bool
    decreases last + 1 - k,
{
    k > last || (k < bytes.len() && follows(bytes, k) && trail_complete(bytes, k + 1, last))
}

/// Whether bytes start with a whole number in the manner of UTF-8, be it a
/// character or none.
pub open spec fn char_complete(bytes: Seq<u8>) -> bool {
    bytes.len() > 0 && match trailing(bytes[0]) {
        Some(last) => trail_complete(bytes, 1, last),
        None => false,
    }
}

/// The fault that reading a character from bytes which do not start with one
/// gives.
pub open spec fn char_fault(bytes: Seq<u8>) -> ReadFault {
    if bytes.len() == 0 {
        ReadFault::UnexpectedEof
    } else {
        match trailing(bytes[0]) {
            Some(last) => trail_fault(bytes, 1, last),
            None => ReadFault::InvalidInput,
        }
    }
}

/// `wasm_tokio`'s `read_u16_leb128` on a slice.
#[verifier::external_body]
pub(crate) fn read_u16_leb128(bytes: &[u8]) -> (r: Result<(u16, &[u8]), ReadFault>)
    ensures
        match r {
            Ok((v, rest)) => uleb(bytes@, 16) == Ok::<(int, Seq<u8>), ReadFault>((v as int, rest@)),
            Err(fault) => uleb(bytes@, 16) == Err::<(int, Seq<u8>), ReadFault>(fault),
        },
{
    let mut reader = bytes;
    match reader.read_u16_leb128().now_or_never() {
        Some(Ok(value)) => Ok((value, reader)),
        Some(Err(error)) => match error.kind() {
            std::io::ErrorKind::UnexpectedEof => Err(ReadFault::UnexpectedEof),
            std::io::ErrorKind::InvalidInput => Err(ReadFault::InvalidInput),
            _ => Err(ReadFault::InvalidData),
        },
        None => Err(ReadFault::UnexpectedEof),
    }
}

/// `wasm_tokio`'s `read_u32_leb128` on a slice.
#[verifier::external_body]
pub(crate) fn read_u32_leb128(bytes: &[u8]) -> (r: Result<(u32, &[u8]), ReadFault>)
    ensures
        match r {
            Ok((v, rest)) => uleb(bytes@, 32) == Ok::<(int, Seq<u8>), ReadFault>((v as int, rest@)),
            Err(fault) => uleb(bytes@, 32) == Err::<(int, Seq<u8>), ReadFault>(fault),
        },
{
    let mut reader = bytes;
    match reader.read_u32_leb128().now_or_never() {
        Some(Ok(value)) => Ok((value, reader)),
        Some(Err(error)) => match error.kind() {
            std::io::ErrorKind::UnexpectedEof => Err(ReadFault::UnexpectedEof),
            std::io::ErrorKind::InvalidInput => Err(ReadFault::InvalidInput),
            _ => Err(ReadFault::InvalidData),
        },
        None => Err(ReadFault::UnexpectedEof),
    }
}

/// `wasm_tokio`'s `read_u64_leb128` on a slice.
#[verifier::external_body]
pub(crate) fn read_u64_leb128(bytes: &[u8]) -> (r: Result<(u64, &[u8]), ReadFault>)
    ensures
        match r {
            Ok((v, rest)) => uleb(bytes@, 64) == Ok::<(int, Seq<u8>), ReadFault>((v as int, rest@)),
            Err(fault) => uleb(bytes@, 64) == Err::<(int, Seq<u8>), ReadFault>(fault),
        },
{
    let mut reader = bytes;
    match reader.read_u64_leb128().now_or_never() {
        Some(Ok(value)) => Ok((value, reader)),
        Some(Err(error)) => match error.kind() {
            std::io::ErrorKind::UnexpectedEof => Err(ReadFault::UnexpectedEof),
            std::io::ErrorKind::InvalidInput => Err(ReadFault::InvalidInput),
            _ => Err(ReadFault::InvalidData),
        },
        None => Err(ReadFault::UnexpectedEof),
    }
}

/// `wasm_tokio`'s `read_i16_leb128` on a slice.
#[verifier::external_body]
pub(crate) fn read_i16_leb128(bytes: &[u8]) -> (r: Result<(i16, &[u8]), ReadFault>)
    ensures
        match r {
            Ok((v, rest)) => sleb(bytes@, 16) == Ok::<(int, Seq<u8>), ReadFault>((v as int, rest@)),
            Err(fault) => sleb(bytes@, 16) == Err::<(int, Seq<u8>), ReadFault>(fault),
        },
{
    let mut reader = bytes;
    match reader.read_i16_leb128().now_or_never() {
        Some(Ok(value)) => Ok((value, reader)),
        Some(Err(error)) => match error.kind() {
            std::io::ErrorKind::UnexpectedEof => Err(ReadFault::UnexpectedEof),
            std::io::ErrorKind::InvalidInput => Err(ReadFault::InvalidInput),
            _ => Err(ReadFault::InvalidData),
        },
        None => Err(ReadFault::UnexpectedEof),
    }
}

/// `wasm_tokio`'s `read_i32_leb128` on a slice.
#[verifier::external_body]
pub(crate) fn read_i32_leb128(bytes: &[u8]) -> (r: Result<(i32, &[u8]), ReadFault>)
    ensures
        match r {
            Ok((v, rest)) => sleb(bytes@, 32) == Ok::<(int, Seq<u8>), ReadFault>((v as int, rest@)),
            Err(fault) => sleb(bytes@, 32) == Err::<(int, Seq<u8>), ReadFault>(fault),
        },
{
    let mut reader = bytes;
    match reader.read_i32_leb128().now_or_never() {
        Some(Ok(value)) => Ok((value, reader)),
        Some(Err(error)) => match error.kind() {
            std::io::ErrorKind::UnexpectedEof => Err(ReadFault::UnexpectedEof),
            std::io::ErrorKind::InvalidInput => Err(ReadFault::InvalidInput),
            _ => Err(ReadFault::InvalidData),
        },
        None => Err(ReadFault::UnexpectedEof),
    }
}

/// `wasm_tokio`'s `read_i64_leb128` on a slice.
#[verifier::external_body]
pub(crate) fn read_i64_leb128(bytes: &[u8]) -> (r: Result<(i64, &[u8]), ReadFault>)
    ensures
        match r {
            Ok((v, rest)) => sleb(bytes@, 64) == Ok::<(int, Seq<u8>), ReadFault>((v as int, rest@)),
            Err(fault) => sleb(bytes@, 64) == Err::<(int, Seq<u8>), ReadFault>(fault),
        },
{
    let mut reader = bytes;
    match reader.read_i64_leb128().now_or_never() {
        Some(Ok(value)) => Ok((value, reader)),
        Some(Err(error)) => match error.kind() {
            std::io::ErrorKind::UnexpectedEof => Err(ReadFault::UnexpectedEof),
            std::io::ErrorKind::InvalidInput => Err(ReadFault::InvalidInput),
            _ => Err(ReadFault::InvalidData),
        },
        None => Err(ReadFault::UnexpectedEof),
    }
}

/// `wasm_tokio`'s `read_bool` on a slice: the byte 1 is `true`, 0 is `false`.
#[verifier::external_body]
pub(crate) fn read_bool(bytes: &[u8]) -> (r: Result<(bool, &[u8]), ReadFault>)
    ensures
        read_model(r) == bit_byte(bytes@),
{
    let mut reader = bytes;
    match reader.read_bool().now_or_never() {
        Some(Ok(value)) => Ok((value, reader)),
        Some(Err(error)) => match error.kind() {
            std::io::ErrorKind::UnexpectedEof => Err(ReadFault::UnexpectedEof),
            std::io::ErrorKind::InvalidInput => Err(ReadFault::InvalidInput),
            _ => Err(ReadFault::InvalidData),
        },
        None => Err(ReadFault::UnexpectedEof),
    }
}

/// `wasm_tokio`'s `read_option_status` on a slice: the byte 1 is `true`, for
/// a value that is there, 0 is `false`.
#[verifier::external_body]
pub(crate) fn read_option_status(bytes: &[u8]) -> (r: Result<(bool, &[u8]), ReadFault>)
    ensures
        read_model(r) == bit_byte(bytes@),
{
    let mut reader = bytes;
    match reader.read_option_status().now_or_never() {
        Some(Ok(value)) => Ok((value, reader)),
        Some(Err(error)) => match error.kind() {
            std::io::ErrorKind::UnexpectedEof => Err(ReadFault::UnexpectedEof),
            std::io::ErrorKind::InvalidInput => Err(ReadFault::InvalidInput),
            _ => Err(ReadFault::InvalidData),
        },
        None => Err(ReadFault::UnexpectedEof),
    }
}

/// `wasm_tokio`'s `read_result_status` on a slice: the byte 0 is `true`, for
/// success, 1 is `false`.
#[verifier::external_body]
pub(crate) fn read_result_status(bytes: &[u8]) -> (r: Result<(bool, &[u8]), ReadFault>)
    ensures
        match r {
            Ok((ok, rest)) => bit_byte(bytes@) == Ok::<(bool, Seq<u8>), ReadFault>((!ok, rest@)),
            Err(fault) => bit_byte(bytes@) == Err::<(bool, Seq<u8>), ReadFault>(fault),
        },
{
    let mut reader = bytes;
    match reader.read_result_status().now_or_never() {
        Some(Ok(value)) => Ok((value, reader)),
        Some(Err(error)) => match error.kind() {
            std::io::ErrorKind::UnexpectedEof => Err(ReadFault::UnexpectedEof),
            std::io::ErrorKind::InvalidInput => Err(ReadFault::InvalidInput),
            _ => Err(ReadFault::InvalidData),
        },
        None => Err(ReadFault::UnexpectedEof),
    }
}

/// `wasm_tokio`'s `read_char_utf8` on a slice: the first scalar value of
/// UTF-8 bytes. Bytes that start with none give `UnexpectedEof` where they run
/// out before the reader finds fault with one of them, `InvalidInput`
/// otherwise.
#[verifier::external_body]
pub(crate) fn read_char_utf8(bytes: &[u8]) -> (r: Result<(char, &[u8]), ReadFault>)
    ensures
        match r {
            Ok((c, rest)) => vstd::utf8::valid_first_scalar(bytes@) && c as u32
                == vstd::utf8::decode_first_scalar(bytes@) && rest@ == bytes@.skip(
                vstd::utf8::length_of_first_scalar(bytes@),
            ),
            Err(fault) => !vstd::utf8::valid_first_scalar(bytes@) && fault == char_fault(bytes@),
        },
{
    let mut reader = bytes;
    match reader.read_char_utf8().now_or_never() {
        Some(Ok(value)) => Ok((value, reader)),
        Some(Err(error)) => match error.kind() {
            std::io::ErrorKind::UnexpectedEof => Err(ReadFault::UnexpectedEof),
            std::io::ErrorKind::InvalidInput => Err(ReadFault::InvalidInput),
            _ => Err(ReadFault::InvalidData),
        },
        None => Err(ReadFault::UnexpectedEof),
    }
}

/// Whether bytes start with a whole number in the manner of UTF-8.
pub(crate) fn starts_whole(bytes: &[u8]) -> (r: bool)
    ensures
        r == char_complete(bytes@),
{
    if bytes.len() == 0 {
        return false;
    }
    let first = bytes[0];
    let last: usize = if first < 0x80 {
        0
    } else if 0xc2 <= first && first <= 0xdf {
        1
    } else if 0xe0 <= first && first <= 0xef {
        2
    } else if 0xf0 <= first && first <= 0xf7 {
        3
    } else {
        return false;
    };
    let mut k: usize = 1;
    while k <= last
        invariant
            1 <= k <= last + 1,
            last <= 3,
            bytes@.len() > 0,
            first == bytes@[0],
            trailing(bytes@[0]) == Some(last as int),
            trail_complete(bytes@, 1, last as int) == trail_complete(
                bytes@,
                k as int,
                last as int,
            ),
        decreases last + 1 - k,
    {
        if k >= bytes.len() || bytes[k] < 0x80 || bytes[k] > 0xbf {
            return false;
        }
        if k == 1 && first == 0xe0 && bytes[1] < 0xa0 {
            return false;
        }
        if k == 1 && first == 0xf0 && bytes[1] < 0x90 {
            return false;
        }
        k = k + 1;
    }
    true
}

/// Where bytes that are not UTF-8 stop being it: how many of them are, and how
/// many bytes behind those are at fault; `None` where they end inside a
/// character.
pub uninterp spec fn utf8_stop(bytes: Seq<u8>) -> (nat, Option<nat>);

/// `std::str::from_utf8`: nothing of bytes that are UTF-8, else its error's
/// `valid_up_to` and `error_len`.
#[verifier::external_body]
pub(crate) fn utf8_fault(bytes: &[u8]) -> (r: Option<(usize, Option<usize>)>)
    ensures
        match r {
            None => vstd::utf8::valid_utf8(bytes@),
            Some((at, len)) => !vstd::utf8::valid_utf8(bytes@) && utf8_stop(bytes@) == (
                at as nat,
                match len {
                    Some(n) => Some(n as nat),
                    None => None,
                },
            ),
        },
{
    match std::str::from_utf8(bytes) {
        Ok(_) => None,
        Err(error) => Some((error.valid_up_to(), error.error_len())),
    }
}

/// `wasm_tokio`'s `read_core_name` on a slice, into an empty string.
#[verifier::external_body]
pub(crate) fn read_core_name(bytes: &[u8]) -> (r: Result<(String, &[u8]), ReadFault>)
    ensures
        match r {
            Ok((s, rest)) => core_name(bytes@) == Ok::<(Seq<char>, Seq<u8>), ReadFault>((s@, rest@)),
            Err(fault) => core_name(bytes@) == Err::<(Seq<char>, Seq<u8>), ReadFault>(fault),
        },
{
    let mut reader = bytes;
    let mut name = String::new();
    match reader.read_core_name(&mut name).now_or_never() {
        Some(Ok(())) => Ok((name, reader)),
        Some(Err(error)) => match error.kind() {
            std::io::ErrorKind::UnexpectedEof => Err(ReadFault::UnexpectedEof),
            std::io::ErrorKind::InvalidInput => Err(ReadFault::InvalidInput),
            _ => Err(ReadFault::InvalidData),
        },
        None => Err(ReadFault::UnexpectedEof),
    }
}

/// The first `n` bytes, if there are that many.
pub open spec fn exact(bytes: Seq<u8>, n: int) -> Result<(Seq<u8>, Seq<u8>), ReadFault> {
    if bytes.len() < n {
        Err(ReadFault::UnexpectedEof)
    } else {
        Ok((bytes.take(n), bytes.skip(n)))
    }
}

/// Split the first `n` bytes off.
pub(crate) fn read_exact(bytes: &[u8], n: usize) -> (r: Result<(&[u8], &[u8]), ReadFault>)
    ensures
        match r {
            Ok((head, rest)) => exact(bytes@, n as int) == Ok::<(Seq<u8>, Seq<u8>), ReadFault>(
                (head@, rest@),
            ),
            Err(fault) => exact(bytes@, n as int) == Err::<(Seq<u8>, Seq<u8>), ReadFault>(fault),
        },
{
    if bytes.len() < n {
        return Err(ReadFault::UnexpectedEof);
    }
    let head = slice_subrange(bytes, 0, n);
    let rest = slice_subrange(bytes, n, bytes.len());
    assert(head@ =~= bytes@.take(n as int));
    assert(rest@ =~= bytes@.skip(n as int));
    Ok((head, rest))
}

/// Read a little-endian number of four bytes.
pub(crate) fn read_u32_le(bytes: &[u8]) -> (r: Result<(u32, &[u8]), ReadFault>)
    ensures
        match r {
            Ok((v, rest)) => bytes@.len() >= 4 && v == le_value(bytes@.take(4)) && rest@
                == bytes@.skip(4),
            Err(fault) => bytes@.len() < 4 && fault == ReadFault::UnexpectedEof,
        },
{
    let (head, rest) = match read_exact(bytes, 4) {
        Ok(split) => split,
        Err(fault) => {
            return Err(fault);
        },
    };
    let value: u32 = head[0] as u32 + 0x100 * (head[1] as u32 + 0x100 * (head[2] as u32 + 0x100 * (
    head[3] as u32)));
    proof {
        reveal_with_fuel(le_value, 5);
        assert(head@.skip(1).skip(1) =~= head@.skip(2));
        assert(head@.skip(2).skip(1) =~= head@.skip(3));
        assert(head@.skip(3).skip(1) =~= head@.skip(4));
    }
    Ok((value, rest))
}

/// Read a little-endian number of eight bytes.
pub(crate) fn read_u64_le(bytes: &[u8]) -> (r: Result<(u64, &[u8]), ReadFault>)
    ensures
        match r {
            Ok((v, rest)) => bytes@.len() >= 8 && v == le_value(bytes@.take(8)) && rest@
                == bytes@.skip(8),
            Err(fault) => bytes@.len() < 8 && fault == ReadFault::UnexpectedEof,
        },
{
    let (head, rest) = match read_exact(bytes, 8) {
        Ok(split) => split,
        Err(fault) => {
            return Err(fault);
        },
    };
    let high: u64 = head[4] as u64 + 0x100 * (head[5] as u64 + 0x100 * (head[6] as u64 + 0x100 * (
    head[7] as u64)));
    let value: u64 = head[0] as u64 + 0x100 * (head[1] as u64 + 0x100 * (head[2] as u64 + 0x100 * (
    head[3] as u64 + 0x100 * high)));
    proof {
        reveal_with_fuel(le_value, 9);
        assert(head@.skip(1).skip(1) =~= head@.skip(2));
        assert(head@.skip(2).skip(1) =~= head@.skip(3));
        assert(head@.skip(3).skip(1) =~= head@.skip(4));
        assert(head@.skip(4).skip(1) =~= head@.skip(5));
        assert(head@.skip(5).skip(1) =~= head@.skip(6));
        assert(head@.skip(6).skip(1) =~= head@.skip(7));
        assert(head@.skip(7).skip(1) =~= head@.skip(8));
    }
    Ok((value, rest))
}

} // verus!
