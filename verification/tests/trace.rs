//! Tests of the trace.

use cuda_oxide::encoding::FNV_OFFSET;
use cuda_oxide::trace::{
    dump_var, trace_finish, trace_reset, trace_write_byte, trace_write_char, trace_write_u128,
    trace_write_u32, trace_write_u64, Trace, TraceDump, TraceValue,
};

/// The fingerprint of a run that dumps one value.
fn fingerprint<T: TraceDump>(value: T) -> u64 {
    let mut trace = Trace::new();
    trace_reset(&mut trace);
    dump_var(&mut trace, value);
    trace_finish(&trace)
}

#[test]
fn test_trace_reset_and_finish() {
    let mut trace = Trace::new();
    trace_reset(&mut trace);
    assert_eq!(trace_finish(&trace), FNV_OFFSET);
}

#[test]
fn test_trace_hashing_scalars() {
    let mut trace = Trace::new();
    trace_reset(&mut trace);
    dump_var(&mut trace, (42_u8,));
    let h1 = trace_finish(&trace);

    trace_reset(&mut trace);
    dump_var(&mut trace, (42_u8,));
    let h2 = trace_finish(&trace);
    assert_eq!(h1, h2);

    trace_reset(&mut trace);
    dump_var(&mut trace, (43_u8,));
    let h3 = trace_finish(&trace);
    assert_ne!(h1, h3);
}

#[test]
fn test_trace_hashing_tuples() {
    let mut trace = Trace::new();
    trace_reset(&mut trace);
    dump_var(&mut trace, (1_u32, 2_u64));
    let h1 = trace_finish(&trace);

    trace_reset(&mut trace);
    dump_var(&mut trace, (1_u32,));
    let h2 = trace_finish(&trace);
    assert_ne!(h1, h2);
}

#[test]
fn trace_starts_at_zero() {
    let mut trace = Trace::new();
    assert_eq!(trace_finish(&trace), 0);
    dump_var(&mut trace, (1_u8,));
    assert_eq!(trace_finish(&trace), 0x100000001b3);
}

#[test]
fn offset_is_the_fnv1a_basis() {
    assert_eq!(FNV_OFFSET, 0xcbf29ce484222325);
}

#[test]
fn unsigned_scalars_are_folded_lowest_byte_first() {
    assert_eq!(fingerprint((42_u8,)), 0xaf63a74c8601927d);
    assert_eq!(fingerprint((43_u8,)), 0xaf63a64c860190ca);
    assert_eq!(fingerprint((0x1234_u16,)), 0x07ee9e07b4b1c883);
    assert_eq!(fingerprint((0x34_u8, 0x12_u8)), 0x07ee9e07b4b1c883);
    assert_eq!(fingerprint((0x12345678_u32,)), 0xcccfd053e47c3365);
    assert_eq!(fingerprint((0x0123456789abcdef_u64,)), 0x37eb3f3347761c55);
    assert_eq!(
        fingerprint((0x0123456789abcdef_fedcba9876543210_u128,)),
        0xa01b488441ed8765
    );
    assert_eq!(fingerprint((7_usize,)), 0x4bd7a317074c5b62);
}

#[test]
fn signed_scalars_are_folded_as_twos_complement() {
    assert_eq!(fingerprint((-2_i8,)), 0xaf64734c8602ed21);
    assert_eq!(fingerprint((-2_i16,)), 0x0a9dc907b6fa303a);
    assert_eq!(fingerprint((-2_i32,)), 0x7053767088d9a6c0);
    assert_eq!(fingerprint((-2_i64,)), 0xfc1a35225397861c);
    assert_eq!(fingerprint((-2_i128,)), 0xf46c7df7b24ba614);
    assert_eq!(fingerprint((-7_isize,)), 0xbfa4a0b237700dfb);
    assert_eq!(fingerprint((i32::MIN,)), fingerprint((0x8000_0000_u32,)));
    assert_eq!(fingerprint((i128::MIN,)), fingerprint((1_u128 << 127,)));
    assert_eq!(fingerprint((5_i16,)), fingerprint((5_u16,)));
}

#[test]
fn bool_and_char_scalars() {
    assert_eq!(fingerprint((true,)), 0xaf63bc4c8601b62c);
    assert_eq!(fingerprint((false,)), 0xaf63bd4c8601b7df);
    assert_eq!(fingerprint(('\u{e9}',)), 0xa9abafefdadc168c);
    assert_eq!(fingerprint(('\u{1f600}',)), 0x24a49e7c20dc233a);
    assert_eq!(fingerprint(('a',)), fingerprint((97_u32,)));
}

#[test]
fn tuples_are_folded_in_order() {
    assert_eq!(fingerprint((1_u32, 2_u64)), 0x9d19bb4bd820c026);
    assert_eq!(fingerprint((-1_i8, 'a', true)), 0x19538737e5161b1a);
    assert_eq!(
        fingerprint((1_u8, 2_u16, 3_u32, 4_u64, true)),
        0x9f51cd5b0e8115d8
    );
    assert_ne!(fingerprint((1_u8, 2_u8)), fingerprint((2_u8, 1_u8)));
}

#[test]
fn tuple_is_its_scalars_one_by_one() {
    let mut trace = Trace::new();
    trace_reset(&mut trace);
    dump_var(&mut trace, (1_u8,));
    dump_var(&mut trace, (2_u16, 3_u32));
    dump_var(&mut trace, (4_u64,));
    assert_eq!(
        trace_finish(&trace),
        fingerprint((1_u8, 2_u16, 3_u32, 4_u64))
    );
    true.trace_write(&mut trace);
    assert_eq!(
        trace_finish(&trace),
        fingerprint((1_u8, 2_u16, 3_u32, 4_u64, true))
    );
}

#[test]
fn unit_dump_changes_nothing() {
    assert_eq!(fingerprint(()), FNV_OFFSET);
}

#[test]
fn pointer_sized_integers_are_traced_as_64_bit() {
    assert_eq!(fingerprint((9_usize,)), fingerprint((9_u64,)));
    assert_eq!(fingerprint((-9_isize,)), fingerprint((-9_i64,)));
}

#[test]
fn divergence_persists() {
    let mut a = Trace::new();
    let mut b = Trace::new();
    trace_reset(&mut a);
    trace_reset(&mut b);
    dump_var(&mut a, (1_u8,));
    dump_var(&mut b, (2_u8,));
    for i in 0..1000_u64 {
        dump_var(&mut a, (i,));
        dump_var(&mut b, (i,));
        assert_ne!(trace_finish(&a), trace_finish(&b));
    }
}

#[test]
fn sixteen_bit_scalars_never_collide() {
    let mut seen: Vec<u64> = (0..=u16::MAX).map(|v| fingerprint((v,))).collect();
    seen.sort();
    seen.dedup();
    assert_eq!(seen.len(), 65536);
}

#[test]
fn single_byte_change_shows() {
    let base = fingerprint((0x11223344_u32, 5_u64));
    for bit in 0..32 {
        assert_ne!(base, fingerprint((0x11223344_u32 ^ (1 << bit), 5_u64)));
    }
}

#[test]
fn reset_forgets_earlier_dumps() {
    let mut trace = Trace::new();
    dump_var(&mut trace, (99_u64, 'x'));
    trace_reset(&mut trace);
    assert_eq!(trace_finish(&trace), FNV_OFFSET);
}

#[test]
fn byte_step_is_fnv1a() {
    let mut trace = Trace::new();
    trace_reset(&mut trace);
    trace_write_byte(&mut trace, 42);
    assert_eq!(trace_finish(&trace), 0xaf63a74c8601927d);
}

#[test]
fn wide_scalars_are_their_halves_and_their_bytes() {
    let val: u128 = 0x0123456789abcdef_fedcba9876543210;
    let mut whole = Trace::new();
    let mut halves = Trace::new();
    let mut bytes = Trace::new();
    trace_write_u128(&mut whole, val);
    trace_write_u64(&mut halves, val as u64);
    trace_write_u64(&mut halves, (val >> 64) as u64);
    for byte in val.to_le_bytes() {
        trace_write_byte(&mut bytes, byte);
    }
    assert_eq!(trace_finish(&whole), trace_finish(&halves));
    assert_eq!(trace_finish(&whole), trace_finish(&bytes));
}

#[test]
fn chars_are_traced_as_code_points() {
    for c in ['a', '\u{e9}', '\u{1f600}', '\0'] {
        let mut a = Trace::new();
        let mut b = Trace::new();
        trace_reset(&mut a);
        trace_reset(&mut b);
        trace_write_char(&mut a, c);
        trace_write_u32(&mut b, c as u32);
        assert_eq!(trace_finish(&a), trace_finish(&b));
    }
}
