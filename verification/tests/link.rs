//! Linking: selection, decoding, the carrier, polyfills, dispatch.

use std::time::Duration;

use omnia::chain::{ChainCtx, ChainPolicy};
use omnia::dispatch::{begin, choose_interface, find_interface, finish, resolve};
use omnia::link::decode::{read_plain_value, DecodeFault, FaultKind, Status};
use omnia::link::links::{
    assemble_linked, decode_results, prepare_selected, read_reply, time_bound, BootstrapError,
    CallError, GuestImports, InProcessLinks, PrepareError,
};
use omnia::link::polyfill::{
    polyfill_component, Extern, Member, Polyfill, PolyfillError, WiredFunc, WiredLinks,
};
use omnia::link::selector::{FirstArgSelector, Forwarded, GuestSelector, SelectError, Selection};
use omnia::link::serve::{serve_guest, served_funcs, ServeGuestError};
use omnia::link::transport::{ConnectError, InProcess};
use omnia::link::wire::ReadFault;
use omnia::options::RuntimeOptions;
use omnia::registry::{AssembleError, GuestId, LoadedGuest, Registry, Routes};
use omnia::seam::{LinkError, LinkSeam};
use omnia::value::{any_resource, contains_resource, Type, Val};

fn id(name: &str) -> GuestId {
    GuestId::new(name)
}

fn text(value: &str) -> Val {
    Val::Str(value.to_owned())
}

#[test]
fn first_arg() {
    let params = vec![text("responder"), text("hello")];
    let selection =
        FirstArgSelector.select("omnia:link/echo", "echo", &params).expect("should select");

    assert_eq!(selection.id, GuestId::from("responder".to_owned()));
    // The default forwards every parameter (including the identity) through.
    assert_eq!(selection.params, Forwarded::AsGiven);
}

#[test]
fn refusals_show_what_was_found() {
    let reason = |params: Vec<Val>| {
        FirstArgSelector.select("i", "f", &params).expect_err("no identity").reason
    };
    let said = "selector: call to `i/f` must carry a leading string identity argument, found ";
    assert_eq!(reason(vec![]), format!("{said}None"));
    assert_eq!(reason(vec![Val::U32(7)]), format!("{said}Some(U32(7))"));
    assert_eq!(reason(vec![Val::S8(-5)]), format!("{said}Some(S8(-5))"));
    assert_eq!(reason(vec![Val::S64(i64::MIN)]), format!("{said}Some(S64({}))", i64::MIN));
    assert_eq!(reason(vec![Val::U64(u64::MAX)]), format!("{said}Some(U64({}))", u64::MAX));
    assert_eq!(reason(vec![Val::Bool(true)]), format!("{said}Some(Bool(true))"));
    assert_eq!(reason(vec![Val::List(vec![])]), format!("{said}Some(List([]))"));
    assert_eq!(reason(vec![Val::Char('\'')]), format!("{said}Some(Char('\\''))"));
    let nested = |v: &str| format!("{said}Some({v})");
    let boxed = |n| Some(Box::new(Val::U8(n)));
    assert_eq!(
        reason(vec![Val::Tuple(vec![text("a\"b"), Val::Float32(0), Val::Resource])]),
        nested(r#"Tuple([String("a\"b"), Float32(..), Resource(..)])"#)
    );
    assert_eq!(
        reason(vec![Val::Record(vec![
            ("x".to_owned(), Val::Opt(boxed(1))),
            ("y".to_owned(), Val::Opt(None)),
        ])]),
        nested(r#"Record([("x", Option(Some(U8(1)))), ("y", Option(None))])"#)
    );
    assert_eq!(
        reason(vec![Val::Variant("v".to_owned(), boxed(2))]),
        nested(r#"Variant("v", Some(U8(2)))"#)
    );
    assert_eq!(
        reason(vec![Val::Mapping(vec![(Val::U8(1), Val::Res(Ok(boxed(2)))), (Val::U8(3), Val::Res(Err(None)))])]),
        nested("Map([(U8(1), Result(Ok(Some(U8(2))))), (U8(3), Result(Err(None)))])")
    );
    assert_eq!(
        reason(vec![Val::Flags(vec!["a".to_owned(), "b".to_owned()])]),
        nested(r#"Flags(["a", "b"])"#)
    );
    assert_eq!(reason(vec![Val::Enum("e".to_owned())]), nested(r#"Enum("e")"#));
}

#[test]
fn first_arg_invalid() {
    // A non-string leading argument is rejected.
    let error = FirstArgSelector
        .select("omnia:link/echo", "echo", &vec![Val::U32(7)])
        .expect_err("a non-string identity must fail");
    assert!(error.reason.contains("leading string identity"));

    // An empty parameter list is rejected too.
    FirstArgSelector
        .select("omnia:link/echo", "echo", &vec![])
        .expect_err("a missing identity must fail");
}

fn decoded(bytes: &[u8], ty: &Type) -> (Val, usize) {
    match read_plain_value(bytes, ty) {
        Ok((val, rest)) => (val, rest.len()),
        Err(fault) => panic!("{}", fault.text()),
    }
}

#[test]
fn scalars_decode() {
    assert_eq!(decoded(&[1, 9], &Type::Bool), (Val::Bool(true), 1));
    assert_eq!(decoded(&[0xff], &Type::S8), (Val::S8(-1), 0));
    assert_eq!(decoded(&[0xff], &Type::U8), (Val::U8(255), 0));
    assert_eq!(decoded(&[0x7f], &Type::S16), (Val::S16(-1), 0));
    assert_eq!(decoded(&[0x80, 0x01], &Type::U16), (Val::U16(128), 0));
    assert_eq!(decoded(&[0x80, 0x7f], &Type::S32), (Val::S32(-128), 0));
    assert_eq!(decoded(&[0xe5, 0x8e, 0x26], &Type::U32), (Val::U32(624_485), 0));
    assert_eq!(decoded(&[0x40], &Type::S64), (Val::S64(-64), 0));
    assert_eq!(
        decoded(&[0xff, 0xff, 0xff, 0xff, 0xff, 0xff, 0xff, 0xff, 0xff, 0x01], &Type::U64),
        (Val::U64(u64::MAX), 0)
    );
    assert_eq!(
        decoded(&1.5_f32.to_le_bytes(), &Type::Float32),
        (Val::Float32(1.5_f32.to_bits()), 0)
    );
    assert_eq!(
        decoded(&(-2.5_f64).to_le_bytes(), &Type::Float64),
        (Val::Float64((-2.5_f64).to_bits()), 0)
    );
    assert_eq!(decoded("é!".as_bytes(), &Type::Char), (Val::Char('é'), 1));
    assert_eq!(decoded(&[2, b'h', b'i', 0], &Type::Str), (text("hi"), 1));
}

#[test]
fn compounds_decode() {
    assert_eq!(
        decoded(&[2, 5, 6], &Type::List(Box::new(Type::U8))),
        (Val::List(vec![Val::U8(5), Val::U8(6)]), 0)
    );
    let record = Type::Record(vec![("a".to_owned(), Type::U8), ("b".to_owned(), Type::Bool)]);
    assert_eq!(
        decoded(&[7, 0], &record),
        (Val::Record(vec![("a".to_owned(), Val::U8(7)), ("b".to_owned(), Val::Bool(false))]), 0)
    );
    let tuple = Type::Tuple(vec![Type::U8, Type::U8]);
    assert_eq!(decoded(&[1, 2, 3], &tuple), (Val::Tuple(vec![Val::U8(1), Val::U8(2)]), 1));
    let variant =
        Type::Variant(vec![("none".to_owned(), None), ("some".to_owned(), Some(Type::U8))]);
    assert_eq!(decoded(&[0], &variant), (Val::Variant("none".to_owned(), None), 0));
    assert_eq!(
        decoded(&[1, 4], &variant),
        (Val::Variant("some".to_owned(), Some(Box::new(Val::U8(4)))), 0)
    );
    let colour = Type::Enum(vec!["red".to_owned(), "green".to_owned()]);
    assert_eq!(decoded(&[1], &colour), (Val::Enum("green".to_owned()), 0));
    let maybe = Type::Opt(Box::new(Type::U8));
    assert_eq!(decoded(&[0], &maybe), (Val::Opt(None), 0));
    assert_eq!(decoded(&[1, 3], &maybe), (Val::Opt(Some(Box::new(Val::U8(3)))), 0));
    let outcome = Type::Res(Some(Box::new(Type::U8)), None);
    assert_eq!(decoded(&[0, 3], &outcome), (Val::Res(Ok(Some(Box::new(Val::U8(3))))), 0));
    assert_eq!(decoded(&[1], &outcome), (Val::Res(Err(None)), 0));
    let flags = Type::Flags((0..9).map(|i| format!("f{i}")).collect());
    assert_eq!(
        decoded(&[0b0000_0101, 0b0000_0001], &flags),
        (Val::Flags(vec!["f0".to_owned(), "f2".to_owned(), "f8".to_owned()]), 0)
    );
}

fn fault(bytes: &[u8], ty: &Type) -> DecodeFault {
    read_plain_value(bytes, ty).err().expect("does not decode")
}

#[test]
fn malformed_values_are_faults() {
    let eof = fault(&[], &Type::U8);
    assert_eq!(eof, DecodeFault::Read(ReadFault::UnexpectedEof));
    assert_eq!(eof.kind(), FaultKind::UnexpectedEof);
    assert_eq!(eof.text(), "unexpected end of file");
    assert_eq!(fault(&[2], &Type::Bool).kind(), FaultKind::InvalidData);
    assert_eq!(fault(&[0x80; 4], &Type::U16).kind(), FaultKind::InvalidData);
    assert_eq!(fault(&[0x80; 6], &Type::S32).kind(), FaultKind::InvalidData);
    assert_eq!(fault(&[2], &Type::Opt(Box::new(Type::U8))).kind(), FaultKind::InvalidData);
    assert_eq!(fault(&[2], &Type::Res(None, None)).kind(), FaultKind::InvalidData);
    assert_eq!(fault(&[2], &Type::Bool).text(), "invalid bool value byte `2`");
    assert_eq!(fault(&[0x80; 4], &Type::U16).text(), "varint overflows 16-bit integer");
    assert_eq!(
        fault(&[3], &Type::Opt(Box::new(Type::U8))).text(),
        "invalid option status byte value `3`"
    );
    assert_eq!(
        fault(&[4], &Type::Res(None, None)).text(),
        "invalid result status byte value `4`"
    );
    let flags = fault(&[], &Type::Flags(vec!["f".to_owned()]));
    assert_eq!(flags.kind(), FaultKind::UnexpectedEof);
    assert_eq!(flags.text(), "early eof");
    assert!(read_plain_value(&[1, 0xff], &Type::Str).is_err());
    assert!(read_plain_value(&[0xff], &Type::Char).is_err());
    let colour = Type::Enum(vec!["red".to_owned()]);
    assert_eq!(fault(&[4], &colour).text(), "unknown enum discriminant `4`");
    let variant = Type::Variant(vec![("none".to_owned(), None)]);
    assert_eq!(fault(&[1], &variant).text(), "unknown variant discriminant `1`");
    assert_eq!(fault(&[1], &variant).kind(), FaultKind::InvalidInput);
}

const EOF: DecodeFault = DecodeFault::Read(ReadFault::UnexpectedEof);
const INPUT: DecodeFault = DecodeFault::Read(ReadFault::InvalidInput);

#[test]
fn unsigned_integers_fill_their_bits() {
    assert_eq!(decoded(&[0xff, 0xff, 0x03], &Type::U16), (Val::U16(u16::MAX), 0));
    assert_eq!(decoded(&[0x80, 0x80, 0x00, 7], &Type::U16), (Val::U16(0), 1));
    assert_eq!(fault(&[0xff, 0xff, 0x04], &Type::U16), DecodeFault::Overflow(16));
    assert_eq!(fault(&[0x80, 0x80, 0x80, 0x00], &Type::U16), DecodeFault::Overflow(16));
    assert_eq!(fault(&[0x80, 0x80], &Type::U16), EOF);
    assert_eq!(
        decoded(&[0xff, 0xff, 0xff, 0xff, 0x0f], &Type::U32),
        (Val::U32(u32::MAX), 0)
    );
    assert_eq!(fault(&[0xff, 0xff, 0xff, 0xff, 0x10], &Type::U32), DecodeFault::Overflow(32));
    assert_eq!(
        fault(&[0xff, 0xff, 0xff, 0xff, 0xff, 0xff, 0xff, 0xff, 0xff, 0x02], &Type::U64),
        DecodeFault::Overflow(64)
    );
    assert_eq!(fault(&[], &Type::U64), EOF);
}

#[test]
fn signed_integers_repeat_their_sign() {
    assert_eq!(decoded(&[0x80, 0x80, 0x7e], &Type::S16), (Val::S16(i16::MIN), 0));
    assert_eq!(decoded(&[0xff, 0xff, 0x01], &Type::S16), (Val::S16(i16::MAX), 0));
    assert_eq!(fault(&[0x80, 0x80, 0x02], &Type::S16), DecodeFault::Overflow(16));
    assert_eq!(fault(&[0xff, 0xff, 0x7d], &Type::S16), DecodeFault::Overflow(16));
    assert_eq!(fault(&[0x80, 0x80, 0x80, 0x00], &Type::S16), DecodeFault::Overflow(16));
    assert_eq!(
        decoded(&[0x80, 0x80, 0x80, 0x80, 0x78], &Type::S32),
        (Val::S32(i32::MIN), 0)
    );
    assert_eq!(
        decoded(&[0xff, 0xff, 0xff, 0xff, 0x07], &Type::S32),
        (Val::S32(i32::MAX), 0)
    );
    assert_eq!(fault(&[0xff, 0xff, 0xff, 0xff, 0x0f], &Type::S32), DecodeFault::Overflow(32));
    assert_eq!(
        decoded(&[0x80, 0x80, 0x80, 0x80, 0x80, 0x80, 0x80, 0x80, 0x80, 0x7f], &Type::S64),
        (Val::S64(i64::MIN), 0)
    );
    assert_eq!(
        fault(&[0x80, 0x80, 0x80, 0x80, 0x80, 0x80, 0x80, 0x80, 0x80, 0x01], &Type::S64),
        DecodeFault::Overflow(64)
    );
    assert_eq!(fault(&[0x80], &Type::S64), EOF);
}

#[test]
fn names_and_characters_are_utf8() {
    assert_eq!(decoded(&[0], &Type::Str), (text(""), 0));
    assert_eq!(decoded(&[3, 0xe2, 0x82, 0xac], &Type::Str), (text("€"), 0));
    assert_eq!(fault(&[5, b'h'], &Type::Str), EOF);
    assert_eq!(fault(&[5, 0xff], &Type::Str), EOF);
    let invalid = fault(&[3, b'a', 0xff, 0xff], &Type::Str);
    assert_eq!(invalid, DecodeFault::InvalidName(1, 1));
    assert_eq!(invalid.kind(), FaultKind::InvalidData);
    assert_eq!(invalid.text(), "invalid utf-8 sequence of 1 bytes from index 1");
    assert_eq!(
        invalid.text(),
        String::from_utf8(vec![b'a', 0xff, 0xff]).unwrap_err().to_string()
    );
    let incomplete = fault(&[3, b'a', 0xe2, 0x82], &Type::Str);
    assert_eq!(incomplete, DecodeFault::IncompleteName(1));
    assert_eq!(
        incomplete.text(),
        String::from_utf8(vec![b'a', 0xe2, 0x82]).unwrap_err().to_string()
    );
    assert_eq!(
        fault(&[0xff, 0xff, 0xff, 0xff, 0x10], &Type::Str),
        DecodeFault::Overflow(32)
    );
    assert_eq!(fault(&[0x80], &Type::Str), EOF);
    assert_eq!(decoded(&[0x7f, 0xff], &Type::Char), (Val::Char('\u{7f}'), 1));
    assert_eq!(decoded(&[0xf0, 0x9f, 0xa6, 0x80], &Type::Char), (Val::Char('🦀'), 0));
    assert_eq!(fault(&[], &Type::Char), EOF);
    assert_eq!(fault(&[0xf0, 0x9f], &Type::Char), EOF);
    assert_eq!(fault(&[0xf0, 0x8f], &Type::Char), INPUT);
    assert_eq!(fault(&[0xe0, 0x9f], &Type::Char), INPUT);
    assert_eq!(fault(&[0xe2, 0x82], &Type::Char), EOF);
    assert_eq!(fault(&[0xe2, 0x82, b'a'], &Type::Char), INPUT);
    assert_eq!(fault(&[0xc2], &Type::Char), EOF);
    assert_eq!(fault(&[0x80], &Type::Char), INPUT);
    assert_eq!(fault(&[0xed, 0xa0, 0x80], &Type::Char), DecodeFault::NoChar);
    assert_eq!(fault(&[0xc0, 0x80], &Type::Char), INPUT);
    assert_eq!(fault(&[0xf4, 0x90, 0x80, 0x80], &Type::Char), DecodeFault::NoChar);
    assert_eq!(fault(&[0xf7, 0xbf, 0xbf, 0xbf], &Type::Char), DecodeFault::NoChar);
    assert_eq!(fault(&[0xff], &Type::Char), INPUT);
    assert_eq!(DecodeFault::NoChar.kind(), FaultKind::InvalidInput);
    assert_eq!(
        DecodeFault::NoChar.text(),
        char::try_from(0xd800_u32).unwrap_err().to_string()
    );
}

#[test]
fn replies_name_the_result_that_fails() {
    let types = vec![Type::U8, Type::Bool];
    assert_eq!(
        read_reply(&[5, 1], &types, &id("b")),
        Ok(vec![Val::U8(5), Val::Bool(true)])
    );
    let error = read_reply(&[5, 9], &types, &id("b")).unwrap_err();
    assert_eq!(error.text(), "decoding result 1 from `b`: invalid bool value byte `9`");
    let names = || ("i".to_owned(), "f".to_owned());
    let (interface, func) = names();
    assert_eq!(
        CallError::Encode { interface, func, reason: "r".to_owned() }.text(),
        "encoding parameter for `i/f`: r"
    );
    let (interface, func) = names();
    assert_eq!(
        CallError::Deferred { interface, func }.text(),
        "async/stream parameters cannot cross the link seam (`i/f`)"
    );
    let (interface, func) = names();
    assert_eq!(
        CallError::Invoke { target: "b".to_owned(), interface, func, reason: "r".to_owned() }
            .text(),
        "invoking link target `b` for `i/f`: r"
    );
    let (interface, func) = names();
    assert_eq!(
        CallError::Timeout { target: "b".to_owned(), interface, func, after: "30s".to_owned() }
            .text(),
        "link dispatch to `b` for `i/f` timed out after 30s"
    );
}

#[test]
fn handles_never_decode() {
    for ty in [Type::Own, Type::Borrow, Type::Future, Type::Stream, Type::ErrorContext] {
        assert_eq!(fault(&[0], &ty), DecodeFault::Seam);
        assert_eq!(fault(&[0], &ty).kind(), FaultKind::Unsupported);
    }
    assert_eq!(fault(&[0], &Type::Mapping).text(), "`map` type not supported");
    assert_eq!(
        fault(&[0], &Type::FixedLengthList).text(),
        "`fixed-length-list` type not supported"
    );
    assert_eq!(
        fault(&[0], &Type::Own).text(),
        "a resource, stream, or future cannot cross the link seam"
    );
}

#[test]
fn results_decode_in_turn() {
    let types = vec![Type::U8, Type::Bool];
    let (vals, rest) = decode_results(&[5, 1, 9], &types).expect("decodes");
    assert_eq!(vals, vec![Val::U8(5), Val::Bool(true)]);
    assert_eq!(rest, &[9]);
    assert_eq!(
        decode_results(&[5, 7], &types).err(),
        Some((1, DecodeFault::Byte(Status::Bool, 7)))
    );
}

#[test]
fn resources_are_found_at_any_depth() {
    let deep = Val::Opt(Some(Box::new(Val::List(vec![Val::Record(vec![(
        "h".to_owned(),
        Val::Resource,
    )])]))));
    assert!(contains_resource(&deep));
    assert!(any_resource(&vec![Val::U8(1), deep]));
    assert!(!any_resource(&vec![Val::U8(1), Val::Opt(None), Val::Tuple(vec![text("x")])]));
    let failed = Val::Res(Err(Some(Box::new(Val::Resource))));
    assert!(contains_resource(&Val::Variant("v".to_owned(), Some(Box::new(failed)))));
    assert!(!contains_resource(&Val::Future));
}

#[test]
fn endpoints_publish_once() {
    let mut carrier: InProcess<u8> = InProcess::new();
    carrier.park(&id("a"), Some(1)).expect("parks");
    assert_eq!(carrier.park(&id("a"), Some(2)), Err(LinkError::Pending(id("a"))));
    assert_eq!(
        carrier.connect(&id("a"), "i"),
        Err(ConnectError::NotRegistered { target: "a".to_owned() })
    );
    carrier.publish(&id("a")).expect("publishes");
    assert_eq!(carrier.connect(&id("a"), "i"), Ok(&1));
    carrier.park(&id("a"), None).expect("a pending endpoint beside the live one");
    assert_eq!(
        carrier.publish(&id("a")).unwrap_err().text(),
        "guest `a` already has a live endpoint"
    );
    carrier.discard(&id("a"));
    carrier.remove(&id("a"));
    assert!(carrier.connect(&id("a"), "i").is_err());
    assert_eq!(
        LinkError::Pending(id("a")).text(),
        "guest `a` already has a pending endpoint"
    );
}

fn func(name: &str, is_async: bool) -> Member {
    Member { name: name.to_owned(), func: Some(is_async) }
}

fn instance(name: &str, members: Vec<Member>) -> Extern {
    Extern { name: name.to_owned(), interface: Some(members) }
}

fn linked() -> Vec<String> {
    vec!["omnia:link/echo".to_owned()]
}

#[test]
fn polyfills_only_declared_interfaces() {
    let mut wired = WiredLinks::new();
    let ty = Member { name: "t".to_owned(), func: None };
    let imports = vec![
        instance("omnia:link/echo", vec![func("echo", false), ty, func("wait", true)]),
        instance("wasi:http/types", vec![func("get", false)]),
    ];
    let plans = polyfill_component(&id("a"), &imports, &linked(), &mut wired).expect("plans");
    assert_eq!(plans.len(), 1);
    assert_eq!(plans[0].interface, "omnia:link/echo");
    let names: Vec<(&str, bool)> =
        plans[0].funcs.iter().map(|f: &WiredFunc| (f.func.as_str(), f.is_async)).collect();
    assert_eq!(names, [("echo", false), ("wait", true)]);
    assert_eq!(wired.get("omnia:link/echo", "wait"), Some(true));
    assert_eq!(wired.get("omnia:link/echo", "t"), None);

    let again = polyfill_component(&id("b"), &imports, &linked(), &mut wired).expect("agrees");
    assert_eq!(again.len(), 1, "the interface itself is defined again");
    assert!(again[0].funcs.is_empty(), "what is wired is not defined twice");
}

#[test]
fn importers_must_agree() {
    let mut wired = WiredLinks::new();
    let plain = vec![instance("omnia:link/echo", vec![func("echo", false)])];
    let concurrent = vec![instance("omnia:link/echo", vec![func("echo", true)])];
    polyfill_component(&id("a"), &plain, &linked(), &mut wired).expect("first importer");
    let error = polyfill_component(&id("b"), &concurrent, &linked(), &mut wired).unwrap_err();
    assert_eq!(
        error.text(),
        "guest `b` imports `omnia:link/echo/echo` as an async func, but an earlier guest wired it as a plain func; every importer of a host-mediated function must agree on asyncness"
    );
    let item = vec![Extern { name: "omnia:link/echo".to_owned(), interface: None }];
    assert_eq!(
        polyfill_component(&id("c"), &item, &linked(), &mut WiredLinks::new()),
        Err(PolyfillError::NotInterface {
            name: "omnia:link/echo".to_owned(),
            id: "c".to_owned()
        })
    );
}

fn policy(max_depth: usize) -> ChainPolicy {
    ChainPolicy { max_depth, timeout: Duration::from_secs(1) }
}

fn root() -> ChainCtx {
    ChainCtx { depth: 0, uncapped: false }
}

#[test]
fn bootstrap_wires_and_late_guests_do_not() {
    let mut links = InProcessLinks::new(FirstArgSelector, linked(), policy(4));
    assert_eq!(links.interfaces(), &linked());
    assert_eq!(links.policy(), &policy(4));
    let imports = |is_async| vec![instance("omnia:link/echo", vec![func("echo", is_async)])];
    let guests = vec![
        GuestImports { id: id("a"), imports: imports(false) },
        GuestImports { id: id("b"), imports: imports(false) },
    ];
    let plans = links.polyfill(&guests).expect("wires");
    assert_eq!((plans[0][0].funcs.len(), plans[1][0].funcs.len()), (1, 0));
    let late = links.polyfill_late(&id("late"), &imports(false)).expect("agrees");
    assert!(late[0].funcs.is_empty());
    assert!(links.polyfill_late(&id("late"), &imports(true)).is_err());
    let extra = vec![instance("omnia:link/echo", vec![func("more", false)])];
    assert_eq!(links.polyfill_late(&id("late"), &extra).expect("plans")[0].funcs.len(), 1);
    assert_eq!(
        links.polyfill_late(&id("late"), &extra).expect("plans")[0].funcs.len(),
        1,
        "a late guest's wiring does not leak"
    );
}

#[test]
fn no_interfaces_no_polyfills() {
    let mut links = InProcessLinks::new(FirstArgSelector, vec![], policy(4));
    let imports = vec![instance("omnia:link/echo", vec![func("echo", false)])];
    assert!(links.polyfill_late(&id("late"), &imports).expect("no-op").is_empty());
    let guests = vec![GuestImports { id: id("a"), imports }];
    assert!(links.polyfill(&guests).expect("no-op").is_empty());
}

/// Assemble over the links, `defined` being what defining the polyfills came
/// to: a linker that holds how many functions each guest has polyfilled.
fn bootstrap(
    guests: Vec<GuestImports>, targets: &[&str], defined: Result<(), &str>,
) -> Result<Registry<usize, InProcess<u8>>, BootstrapError> {
    let mut links = InProcessLinks::new(FirstArgSelector, linked(), policy(4));
    let routes = Routes { targets: targets.iter().map(|target| id(target)).collect() };
    let options = RuntimeOptions {
        max_dispatch_depth: 4,
        guest_timeout: Duration::from_secs(1),
        max_memory_bytes: 1 << 20,
        max_fuel: 0,
    };
    let count = |plans: &Vec<Vec<Polyfill>>| -> Result<usize, String> {
        defined.map_err(str::to_owned)?;
        Ok(plans.iter().flatten().map(|plan| plan.funcs.len()).sum())
    };
    let load = |linker: &usize, guest: &GuestId| {
        if guest.as_str() == "bad" {
            Err("no such import".to_owned())
        } else {
            Ok(*linker)
        }
    };
    assemble_linked(&mut links, options, &guests, routes, InProcess::new(), false, count, load)
}

fn importing(name: &str, is_async: bool) -> GuestImports {
    let imports = vec![instance("omnia:link/echo", vec![func("echo", is_async)])];
    GuestImports { id: id(name), imports }
}

#[test]
fn linked_deployments_polyfill_then_assemble() {
    let registry = bootstrap(vec![importing("b", false), importing("a", false)], &["a"], Ok(()))
        .ok()
        .expect("assembles");
    assert_eq!(registry.len(), 2);
    assert_eq!(*registry.get(&id("a")).expect("registered").instance_pre(), 1, "wired once");
}

#[test]
fn linked_deployments_refuse_in_order() {
    let refusal = |guests, targets: &[&str], defined| {
        bootstrap(guests, targets, defined).err().expect("refused")
    };
    assert_eq!(
        refusal(vec![], &["z"], Err("linker")),
        BootstrapError::Assemble(AssembleError::NoGuests)
    );
    let disagreeing = vec![importing("a", false), importing("b", true)];
    let error = refusal(disagreeing, &["z"], Err("linker"));
    assert!(matches!(error, BootstrapError::Polyfill(_)));
    assert!(error.text().contains("must agree on asyncness"));
    assert_eq!(
        refusal(vec![importing("bad", false)], &["z"], Err("linker")),
        BootstrapError::Define("linker".to_owned())
    );
    let text = refusal(vec![importing("bad", false)], &["z"], Ok(())).text();
    assert!(text.contains("no such import"), "{text}");
    let text = refusal(vec![importing("a", false), importing("a", false)], &["z"], Ok(())).text();
    assert_eq!(text, "duplicate guest id `a`: guest identities must be unique");
    let text = refusal(vec![importing("a", false)], &["z"], Ok(())).text();
    assert_eq!(text, "route targets guest `z`, which is not registered");
}

fn carrier() -> InProcess<u8> {
    let mut carrier = InProcess::new();
    carrier.park(&id("b"), Some(7)).expect("parks");
    carrier.publish(&id("b")).expect("publishes");
    carrier.park(&id("c"), None).expect("parks");
    carrier.publish(&id("c")).expect("publishes");
    carrier
}

fn refusal(
    max_depth: usize,
    selection: Result<Selection, SelectError>,
    params: Vec<Val>,
    count: usize,
) -> String {
    let carrier = carrier();
    let prepared =
        prepare_selected(&policy(max_depth), &carrier, root(), selection, "i", "f", &params, count);
    match prepared {
        Err(error) => error.text(),
        Ok(_) => panic!("the call is refused"),
    }
}

fn chosen(name: &str) -> Result<Selection, SelectError> {
    Ok(Selection { id: id(name), params: Forwarded::AsGiven })
}

#[test]
fn prepare_refuses_in_order() {
    assert_eq!(
        refusal(0, Err(SelectError { reason: "nobody".to_owned() }), vec![Val::Resource], 0),
        "selecting target for `i/f`: nobody"
    );
    assert_eq!(
        refusal(0, chosen("z"), vec![Val::Resource], 0),
        "a resource handle cannot cross the link seam (call to `i/f`, target `z`)"
    );
    assert!(refusal(0, chosen("z"), vec![], 1).contains("depth"));
    assert_eq!(
        refusal(1, chosen("z"), vec![], 1),
        "selector forwarded 0 arguments but `i/f` expects 1"
    );
    assert_eq!(refusal(1, chosen("z"), vec![], 0), "guest `z` is not registered");
    assert_eq!(
        refusal(1, chosen("c"), vec![], 0),
        "guest `c` is registered but exports no linked interface (`i`); is it meant to be a link target?"
    );
}

#[test]
fn prepare_reaches_the_target() {
    let carrier = carrier();
    let links = InProcessLinks::new(FirstArgSelector, linked(), policy(2));
    let params = vec![text("b"), Val::U8(1)];
    let call = match links.prepare(&carrier, root(), "i", "f", &params, 2) {
        Ok(call) => call,
        Err(error) => panic!("{}", error.text()),
    };
    assert_eq!(call.target, id("b"));
    assert_eq!(*call.server, 7);
    assert_eq!(call.ctx.depth, 1);
    assert_eq!(time_bound(&policy(2), call.ctx), Some(Duration::from_secs(1)));
    assert_eq!(time_bound(&policy(2), ChainCtx { depth: 1, uncapped: true }), None);
    let reshaped = Ok(Selection { id: id("b"), params: Forwarded::Reshaped(vec![Val::U8(1)]) });
    let call = prepare_selected(&policy(2), &carrier, root(), reshaped, "i", "f", &params, 1);
    assert!(matches!(call, Ok(call) if call.forwarded == Forwarded::Reshaped(vec![Val::U8(1)])));
    let missing = links.prepare(&carrier, root(), "i", "f", &vec![], 0);
    assert!(matches!(missing, Err(PrepareError::Select { .. })));
}

#[test]
fn serving_follows_the_exports() {
    let exports = vec![
        instance(
            "omnia:link/echo",
            vec![func("echo", false), Member { name: "t".to_owned(), func: None }],
        ),
        instance("wasi:cli/run", vec![func("run", false)]),
        Extern { name: "omnia:link/echo".to_owned(), interface: None },
    ];
    let funcs = served_funcs(&exports, &linked());
    assert_eq!(funcs.len(), 1);
    assert_eq!((funcs[0].interface.as_str(), funcs[0].func.as_str()), ("omnia:link/echo", "echo"));

    let mut carrier: InProcess<u8> = InProcess::new();
    let failed = serve_guest(
        &mut carrier,
        &linked(),
        &exports,
        &id("a"),
        1,
        Some((0, "stream closed".to_owned())),
    );
    assert_eq!(
        failed.unwrap_err().text(),
        "serving `omnia:link/echo/echo` from guest `a`: stream closed"
    );
    serve_guest(&mut carrier, &linked(), &exports, &id("a"), 1, None).expect("parks");
    carrier.publish(&id("a")).expect("publishes");
    assert_eq!(carrier.connect(&id("a"), "omnia:link/echo"), Ok(&1));
    serve_guest(&mut carrier, &linked(), &vec![], &id("b"), 2, None).expect("parks");
    assert_eq!(
        serve_guest(&mut carrier, &linked(), &vec![], &id("b"), 2, None),
        Err(ServeGuestError::Link(LinkError::Pending(id("b"))))
    );
    carrier.publish(&id("b")).expect("publishes");
    assert!(matches!(carrier.connect(&id("b"), "i"), Err(ConnectError::Unlinked { .. })));
}

fn registry() -> Registry<u8, InProcess<u8>> {
    let options = RuntimeOptions {
        max_dispatch_depth: 1,
        guest_timeout: Duration::from_secs(1),
        max_memory_bytes: 1024,
        max_fuel: 0,
    };
    let guest = LoadedGuest { id: id("b"), target: Ok(9) };
    Registry::assemble(options, vec![guest], Routes { targets: vec![] }, InProcess::new(), false)
        .ok()
        .expect("assembles")
}

#[test]
fn host_dispatch_begins_in_order() {
    let registry = registry();
    let refused = |max, target: &str, args: Vec<Val>| {
        begin(&registry, &policy(max), root(), &id(target), "i", "f", &args)
            .err()
            .expect("refused")
            .text()
    };
    assert_eq!(
        refused(0, "z", vec![Val::Resource]),
        "a resource handle cannot cross the link seam (host→guest `i/f`, target `z`)"
    );
    assert_eq!(
        refused(0, "z", vec![]),
        "dispatching `i/f` to guest `z`: guest is not registered"
    );
    assert!(refused(0, "b", vec![]).contains("depth"));
    let (guest, ctx) =
        begin(&registry, &policy(1), root(), &id("b"), "i", "f", &vec![]).ok().expect("begins");
    assert_eq!((*guest.instance_pre(), ctx.depth), (9, 1));
}

#[test]
fn host_dispatch_resolves_exports() {
    let exports = vec![instance(
        "i",
        vec![func("f", false), Member { name: "t".to_owned(), func: None }],
    )];
    let refused = |interface: &str, name: &str| {
        resolve(&exports, &id("b"), interface, name).err().expect("refused").text()
    };
    assert!(resolve(&exports, &id("b"), "i", "f").is_ok());
    assert_eq!(refused("j", "f"), "guest `b` exports no interface `j`");
    assert_eq!(refused("i", "g"), "interface `i` (guest `b`) exports no `g`");
    assert_eq!(refused("i", "t"), "`i/t` (guest `b`) is not a function");
}

#[test]
fn host_dispatch_checks_results() {
    assert_eq!(finish(vec![Val::U8(1)], &id("b"), "i", "f"), Ok(vec![Val::U8(1)]));
    assert_eq!(
        finish(vec![Val::Resource], &id("b"), "i", "f").unwrap_err().text(),
        "a resource handle cannot cross the link seam (result of `i/f`, target `b`)"
    );
}

#[test]
fn interfaces_are_found_when_unique() {
    let exports = vec![
        instance("i", vec![func("f", false)]),
        instance("j", vec![func("f", true), func("g", false)]),
    ];
    let found = |name: &str| {
        find_interface(Some(&exports), &id("b"), name).map_err(|error| error.text())
    };
    assert_eq!(found("g"), Ok("j".to_owned()));
    assert_eq!(
        found("f"),
        Err("dispatch target `b` exports `f` from several interfaces (i, j); name the interface explicitly".to_owned())
    );
    assert_eq!(
        found("h"),
        Err("dispatch target `b` exports no interface with a `h` function".to_owned())
    );
    assert_eq!(
        choose_interface(Some("k".to_owned()), Some(&exports), &id("b"), "f"),
        Ok("k".to_owned())
    );
    assert_eq!(choose_interface(None, Some(&exports), &id("b"), "g"), Ok("j".to_owned()));
    assert_eq!(
        find_interface(None, &id("b"), "f").unwrap_err().text(),
        "dispatch target `b` is not registered"
    );
}
