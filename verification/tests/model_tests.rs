use sui_fuzzer::abort_location_message;
use sui_fuzzer::bool_str;
use sui_fuzzer::classify_vm_status;
use sui_fuzzer::derive_seed;
use sui_fuzzer::decimal_u128;
use sui_fuzzer::decimal_u64;
use sui_fuzzer::error_eq;
use sui_fuzzer::mutable_inputs;
use sui_fuzzer::runtime_location_message;
use sui_fuzzer::Error;
use sui_fuzzer::Mutator;
use sui_fuzzer::Parameters;
use sui_fuzzer::Rng;
use sui_fuzzer::SuiMutator;
use sui_fuzzer::Type;
use sui_fuzzer::VmStatus;

#[test]
fn decimal_renders_exact_values() {
    assert_eq!(decimal_u64(0).as_str(), "0");
    assert_eq!(decimal_u64(7).as_str(), "7");
    assert_eq!(decimal_u64(10).as_str(), "10");
    assert_eq!(decimal_u64(4284).as_str(), "4284");
    assert_eq!(decimal_u64(u64::MAX).as_str(), "18446744073709551615");
    assert_eq!(decimal_u128(340282366920938463463374607431768211455).as_str(), "340282366920938463463374607431768211455");
}

#[test]
fn bool_renders_exact_values() {
    assert_eq!(bool_str(true), "true");
    assert_eq!(bool_str(false), "false");
}

#[test]
fn primitive_values_display_like_their_debug_form() {
    assert_eq!(Type::U8(5).display_string().as_str(), "U8(5)");
    assert_eq!(Type::U16(300).display_string().as_str(), "U16(300)");
    assert_eq!(Type::U32(70000).display_string().as_str(), "U32(70000)");
    assert_eq!(Type::U64(1).display_string().as_str(), "U64(1)");
    assert_eq!(Type::U128(0).display_string().as_str(), "U128(0)");
    assert_eq!(Type::Bool(true).display_string().as_str(), "Bool(true)");
}

#[test]
fn printable_byte_vectors_display_as_their_raw_string() {
    let v = Type::Vector(
        Box::new(Type::U8(0)),
        vec![Type::U8(b'h'), Type::U8(b'i'), Type::U8(b'!')],
    );
    assert_eq!(v.display_string().as_str(), "Vector(U8, [hi!])");
}

#[test]
fn empty_byte_vectors_display_without_contents() {
    let v = Type::Vector(Box::new(Type::U8(0)), vec![]);
    assert_eq!(v.display_string().as_str(), "Vector(U8)");
}

#[test]
fn non_ascii_bytes_display_as_the_replacement_character() {
    let v = Type::Vector(Box::new(Type::U8(0)), vec![Type::U8(b'a'), Type::U8(0xFF)]);
    assert_eq!(v.display_string().as_str(), "Vector(U8, [a\u{FFFD}])");
}

#[test]
fn structs_and_references_display_recursively() {
    let s = Type::Struct(vec![Type::U8(1), Type::Bool(false)]);
    assert_eq!(s.display_string().as_str(), "Struct([ U8(1), Bool(false) ])");
    assert_eq!(Type::Struct(vec![]).display_string().as_str(), "Struct([])");
    let r = Type::Reference(true, Box::new(Type::U64(9)));
    assert_eq!(r.display_string().as_str(), "Reference(true, U64(9))");
}

#[test]
fn parameters_display_with_brackets() {
    assert_eq!(Parameters(vec![]).display_string().as_str(), "[]");
    let p = Parameters(vec![Type::U64(5), Type::Bool(true)]);
    assert_eq!(p.display_string().as_str(), "[ U64(5), Bool(true) ]");
}

#[test]
fn error_display_includes_message_only_for_some_kinds() {
    let abort = Error::Abort { message: String::from("code 7") };
    assert_eq!(abort.display_string().as_str(), "Abort - code 7");
    let unknown = Error::Unknown { message: String::from("odd") };
    assert_eq!(unknown.display_string().as_str(), "Unknown - odd");
    let runtime = Error::Runtime { message: String::from("deep") };
    assert_eq!(runtime.display_string().as_str(), "Runtime - deep");
    let gas = Error::OutOfGas { message: String::from("hidden") };
    assert_eq!(gas.display_string().as_str(), "OutOfGas");
    let bound = Error::OutOfBound { message: String::from("hidden") };
    assert_eq!(bound.display_string().as_str(), "OutOfBound");
    let arith = Error::ArithmeticError { message: String::from("hidden") };
    assert_eq!(arith.display_string().as_str(), "ArithmeticError");
    let mem = Error::MemoryLimitExceeded { message: String::from("hidden") };
    assert_eq!(mem.display_string().as_str(), "MemoryLimitExceeded");
}

#[test]
fn classification_is_total_and_fixed() {
    let m = || String::from("why");
    assert!(matches!(classify_vm_status(VmStatus::Aborted, m()), Error::Abort { .. }));
    assert!(matches!(
        classify_vm_status(VmStatus::ArithmeticError, m()),
        Error::ArithmeticError { .. }
    ));
    assert!(matches!(
        classify_vm_status(VmStatus::MemoryLimitExceeded, m()),
        Error::MemoryLimitExceeded { .. }
    ));
    assert!(matches!(classify_vm_status(VmStatus::OutOfGas, m()), Error::OutOfGas { .. }));
    assert!(matches!(classify_vm_status(VmStatus::Other, m()), Error::Unknown { .. }));
}

#[test]
fn mapped_statuses_never_classify_as_unknown() {
    for status in [
        VmStatus::Aborted,
        VmStatus::ArithmeticError,
        VmStatus::MemoryLimitExceeded,
        VmStatus::OutOfGas,
    ] {
        let e = classify_vm_status(status, String::from("m"));
        assert!(!matches!(e, Error::Unknown { .. }));
    }
}

#[test]
fn error_equality_is_over_kind_and_message() {
    let a = Error::Abort { message: String::from("x") };
    let b = Error::Abort { message: String::from("x") };
    let c = Error::Abort { message: String::from("y") };
    let d = Error::Runtime { message: String::from("x") };
    assert!(error_eq(&a, &b));
    assert!(!error_eq(&a, &c));
    assert!(!error_eq(&a, &d));
}

#[test]
fn location_messages_default_a_missing_function() {
    assert_eq!(runtime_location_message(Some("f")).as_str(), "in function: f");
    assert_eq!(runtime_location_message(None).as_str(), "in function: Unknown function");
    assert_eq!(
        abort_location_message(Some("g"), 42).as_str(),
        "in function: g with error code: 42"
    );
    assert_eq!(
        abort_location_message(None, 0).as_str(),
        "in function: Unknown function with error code: 0"
    );
}

#[test]
fn mutation_keeps_every_declared_variant() {
    let mut m = SuiMutator::new(99, 12);
    let inputs = vec![
        Type::U8(1),
        Type::U16(2),
        Type::U32(3),
        Type::U64(4),
        Type::U128(5),
        Type::Bool(false),
        Type::Vector(Box::new(Type::U8(0)), vec![Type::U8(7), Type::U8(8)]),
        Type::Struct(vec![Type::U8(1), Type::Bool(true)]),
        Type::Reference(true, Box::new(Type::U64(11))),
    ];
    let out = m.mutate(&inputs, 4);
    assert_eq!(out.len(), inputs.len());
    assert!(matches!(out[0], Type::U8(_)));
    assert!(matches!(out[1], Type::U16(_)));
    assert!(matches!(out[2], Type::U32(_)));
    assert!(matches!(out[3], Type::U64(_)));
    assert!(matches!(out[4], Type::U128(_)));
    assert!(matches!(out[5], Type::Bool(_)));
    match &out[6] {
        Type::Vector(elem, items) => {
            assert!(matches!(**elem, Type::U8(0)));
            assert!(items.len() <= 12);
            for item in items {
                assert!(matches!(item, Type::U8(_)));
            }
        }
        other => panic!("vector became {:?}", other),
    }
    match &out[7] {
        Type::Struct(fields) => {
            assert_eq!(fields.len(), 2);
            assert!(matches!(fields[0], Type::U8(_)));
            assert!(matches!(fields[1], Type::Bool(_)));
        }
        other => panic!("struct became {:?}", other),
    }
    assert_eq!(out[8], Type::Reference(true, Box::new(Type::U64(11))));
}

#[test]
fn mutation_is_reproducible_for_equal_seeds() {
    let inputs = vec![Type::U64(77), Type::Bool(true)];
    let mut m1 = SuiMutator::new(5, 12);
    let mut m2 = SuiMutator::new(5, 12);
    assert_eq!(m1.mutate(&inputs, 4), m2.mutate(&inputs, 4));
    assert_eq!(m1.mutate(&inputs, 4), m2.mutate(&inputs, 4));
    let mut m3 = SuiMutator::new(6, 12);
    let _ = m3.mutate(&inputs, 4);
}

#[test]
fn generated_numbers_stay_in_range_and_reproduce() {
    let m = SuiMutator::new(3, 12);
    let a = m.generate_number(10, 20);
    assert!((10..=20).contains(&a));
    assert_eq!(a, m.generate_number(10, 20));
    assert_eq!(m.generate_number(4, 4), 4);
}

#[test]
fn mutable_inputs_accepts_argument_kinds_and_rejects_descriptors() {
    let good = vec![
        Type::U8(0),
        Type::Vector(Box::new(Type::U8(0)), vec![Type::U8(1)]),
        Type::Struct(vec![Type::U16(2)]),
        Type::Reference(false, Box::new(Type::U8(1))),
    ];
    assert!(mutable_inputs(&good));
    let with_fn = vec![Type::Function(String::from("f"), vec![], None)];
    assert!(!mutable_inputs(&with_fn));
    let mixed_vector = vec![Type::Vector(Box::new(Type::U8(0)), vec![Type::U16(5)])];
    assert!(!mutable_inputs(&mixed_vector));
}

#[test]
fn cloned_values_compare_equal() {
    let v = Type::Struct(vec![
        Type::Vector(Box::new(Type::U8(0)), vec![Type::U8(1)]),
        Type::Function(String::from("f"), vec![Type::U64(0)], None),
    ]);
    assert_eq!(v.clone(), v);
}

#[test]
fn the_generator_reproduces_and_respects_bounds() {
    let mut a = Rng::new(5);
    let mut b = Rng::new(5);
    for _ in 0..16 {
        let x = a.rand(3, 9);
        let y = b.rand(3, 9);
        assert_eq!(x, y);
        assert!((3..=9).contains(&x));
    }
    let mut c = Rng::new(5);
    let idx = c.rand_index(4);
    assert!(idx < 4);
}

#[test]
fn worker_seeds_derive_by_wrapping_addition() {
    assert_eq!(derive_seed(4284, 0), 4284);
    assert_eq!(derive_seed(4284, 3), 4287);
    assert_eq!(derive_seed(u64::MAX, 1), 0);
}
