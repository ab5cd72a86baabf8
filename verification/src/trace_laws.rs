//! Laws of the trace: what a fingerprint tells of the values behind it.

use crate::encoding;
use crate::encoding::FNV_PRIME;
use crate::trace::{
    dump_var, trace_finish, trace_reset, trace_write_bool, trace_write_byte, trace_write_char,
    trace_write_i128, trace_write_i16, trace_write_i32, trace_write_i64, trace_write_i8,
    trace_write_isize, trace_write_u128, trace_write_u16, trace_write_u32, trace_write_u64,
    trace_write_u8, trace_write_usize, Trace, TraceDump, TraceValue,
};
use vstd::prelude::*;

verus! {

/// Multiplication by the FNV prime modulo 2^64 can be undone: the prime is odd.
proof fn lemma_prime_invertible(x: u64)
    ensures
        (((x * FNV_PRIME) % 0x1_0000_0000_0000_0000) * 0xce965057aff6957b)
            % 0x1_0000_0000_0000_0000 == x,
{
    let m: int = 0x1_0000_0000_0000_0000;
    let inverse: int = 0xce965057aff6957b;
    let product: int = x * FNV_PRIME;
    vstd::arithmetic::div_mod::lemma_mul_mod_noop_left(product, inverse, m);
    assert(product * inverse == m * (x * 887285111055) + x) by (nonlinear_arith)
        requires
            product == x * 0x100000001b3,
            inverse == 0xce965057aff6957b,
            m == 0x1_0000_0000_0000_0000,
    ;
    vstd::arithmetic::div_mod::lemma_mod_multiples_vanish((x * 887285111055) as int, x as int, m);
}

/// A step of the fold loses nothing of what it folds into.
pub proof fn law_fold_byte_injective(s: u64, t: u64, x: u8, y: u8)
    requires
        encoding::fold_byte(s, x) == encoding::fold_byte(t, y),
    ensures
        s ^ (x as u64) == t ^ (y as u64),
{
    lemma_prime_invertible(s ^ (x as u64));
    lemma_prime_invertible(t ^ (y as u64));
}

/// A step of the fold is a bijection of the state for each byte, and tells the
/// bytes apart for each state.
pub proof fn law_byte_step_is_a_bijection(s: u64, t: u64, x: u8, y: u8)
    ensures
        s == t ==> (encoding::fold_byte(s, x) == encoding::fold_byte(t, y) <==> x == y),
        x == y ==> (encoding::fold_byte(s, x) == encoding::fold_byte(t, y) <==> s == t),
        exists|u: u64| #[trigger] encoding::fold_byte(u, x) == t,
{
    if encoding::fold_byte(s, x) == encoding::fold_byte(t, y) {
        law_fold_byte_injective(s, t, x, y);
        assert(s == t ==> x == y) by (bit_vector)
            requires
                s ^ (x as u64) == t ^ (y as u64),
        ;
        assert(x == y ==> s == t) by (bit_vector)
            requires
                s ^ (x as u64) == t ^ (y as u64),
        ;
    }
    let m: int = 0x1_0000_0000_0000_0000;
    let inverse: int = 0xce965057aff6957b;
    let prime = FNV_PRIME as int;
    let v = ((t * inverse) % m) as u64;
    let u = v ^ (x as u64);
    assert(u ^ (x as u64) == v) by (bit_vector)
        requires
            u == v ^ (x as u64),
    ;
    vstd::arithmetic::div_mod::lemma_mul_mod_noop_left(t * inverse, prime, m);
    assert((t * inverse) * prime == m * (t * 887285111055) + t) by (nonlinear_arith)
        requires
            prime == 0x100000001b3,
            inverse == 0xce965057aff6957b,
            m == 0x1_0000_0000_0000_0000,
    ;
    vstd::arithmetic::div_mod::lemma_mod_multiples_vanish((t * 887285111055) as int, t as int, m);
    assert(encoding::fold_byte(u, x) == t);
}

/// Once two traces differ, dumping the same values into both keeps them
/// different: a divergence is never hidden by what follows it.
pub proof fn law_divergence_persists(s: u64, t: u64, bytes: Seq<u8>)
    requires
        s != t,
    ensures
        encoding::fold_bytes(s, bytes) != encoding::fold_bytes(t, bytes),
    decreases bytes.len(),
{
    if bytes.len() > 0 {
        let init = bytes.drop_last();
        law_divergence_persists(s, t, init);
        let a = encoding::fold_bytes(s, init);
        let b = encoding::fold_bytes(t, init);
        let x = bytes.last() as u64;
        if encoding::fold_byte(a, bytes.last()) == encoding::fold_byte(b, bytes.last()) {
            law_fold_byte_injective(a, b, bytes.last(), bytes.last());
            assert(a == b) by (bit_vector)
                requires
                    a ^ x == b ^ x,
            ;
        }
    }
}

/// Changing a single byte anywhere in what was dumped changes the fingerprint.
pub proof fn law_single_byte_change_shows(
    state: u64,
    before: Seq<u8>,
    x: u8,
    y: u8,
    after: Seq<u8>,
)
    requires
        x != y,
    ensures
        encoding::fold_bytes(state, before + seq![x] + after) != encoding::fold_bytes(
            state,
            before + seq![y] + after,
        ),
{
    let s = encoding::fold_bytes(state, before);
    encoding::lemma_fold_concat(state, before, seq![x]);
    encoding::lemma_fold_concat(state, before, seq![y]);
    encoding::lemma_fold_one(s, x);
    encoding::lemma_fold_one(s, y);
    let a = encoding::fold_byte(s, x);
    let b = encoding::fold_byte(s, y);
    if a == b {
        law_fold_byte_injective(s, s, x, y);
        assert(x == y) by (bit_vector)
            requires
                s ^ (x as u64) == s ^ (y as u64),
        ;
    }
    law_divergence_persists(a, b, after);
    encoding::lemma_fold_concat(state, before + seq![x], after);
    encoding::lemma_fold_concat(state, before + seq![y], after);
}

/// Numbers that differ in their lowest byte alone have products with the prime
/// that differ in more than their lowest byte.
proof fn lemma_products_far_apart(t: u64, w: u64)
    requires
        t / 256 == w / 256,
        t != w,
    ensures
        ((t * FNV_PRIME) % 0x1_0000_0000_0000_0000) / 256 != ((w * FNV_PRIME)
            % 0x1_0000_0000_0000_0000) / 256,
{
    let m: int = 0x1_0000_0000_0000_0000;
    let p: int = t * FNV_PRIME;
    let r: int = w * FNV_PRIME;
    vstd::arithmetic::div_mod::lemma_fundamental_div_mod(p, m);
    vstd::arithmetic::div_mod::lemma_fundamental_div_mod(r, m);
    let k: int = p / m - r / m;
    let u: int = p % m;
    let v: int = r % m;
    let d: int = t - w;
    assert(-256 < d < 256 && d != 0);
    // The products differ by at least the prime and by less than the modulus.
    assert(p - r == d * 0x100000001b3);
    assert(p - r == m * k + (u - v));
    if u / 256 == v / 256 {
        assert(-256 < u - v < 256);
        assert(k == 0);
    }
}

/// Two different pairs of bytes never fold to the same state.
proof fn lemma_two_bytes_show(state: u64, a: u8, b: u8, c: u8, d: u8)
    requires
        a != c || b != d,
    ensures
        encoding::fold_byte(encoding::fold_byte(state, a), b) != encoding::fold_byte(
            encoding::fold_byte(state, c),
            d,
        ),
{
    let u = encoding::fold_byte(state, a);
    let v = encoding::fold_byte(state, c);
    if encoding::fold_byte(u, b) == encoding::fold_byte(v, d) {
        law_fold_byte_injective(u, v, b, d);
        assert(u / 256 == v / 256) by (bit_vector)
            requires
                u ^ (b as u64) == v ^ (d as u64),
        ;
        let t = state ^ (a as u64);
        let w = state ^ (c as u64);
        assert(t / 256 == w / 256) by (bit_vector)
            requires
                t == state ^ (a as u64),
                w == state ^ (c as u64),
        ;
        if t != w {
            lemma_products_far_apart(t, w);
        }
        assert(a == c) by (bit_vector)
            requires
                state ^ (a as u64) == state ^ (c as u64),
        ;
        assert(b == d) by (bit_vector)
            requires
                u ^ (b as u64) == u ^ (d as u64),
        ;
    }
}

/// Scalars of one type have different bytes where they have different values.
pub proof fn law_bytes_tell_values_apart(v: nat, w: nat, count: nat)
    requires
        v < encoding::byte_range(count),
        w < encoding::byte_range(count),
        v != w,
    ensures
        encoding::le_bytes(v, count) != encoding::le_bytes(w, count),
    decreases count,
{
    let rest = (count - 1) as nat;
    let a = encoding::le_bytes(v, count);
    let b = encoding::le_bytes(w, count);
    if a == b {
        assert(a[0] == (v % 256) as u8);
        assert(b[0] == (w % 256) as u8);
        assert(a.drop_first() =~= encoding::le_bytes(v / 256, rest));
        assert(b.drop_first() =~= encoding::le_bytes(w / 256, rest));
        law_bytes_tell_values_apart(v / 256, w / 256, rest);
    }
}

/// Two's complement keeps the values of a signed type apart.
pub proof fn law_twos_complement_tells_values_apart(v: int, w: int, count: nat)
    requires
        -encoding::byte_range(count) <= 2 * v < encoding::byte_range(count),
        -encoding::byte_range(count) <= 2 * w < encoding::byte_range(count),
        v != w,
    ensures
        encoding::twos_complement(v, count) != encoding::twos_complement(w, count),
        encoding::twos_complement(v, count) < encoding::byte_range(count),
{
    let range = encoding::byte_range(count) as int;
    assert(v % range == (if v >= 0 { v } else { v + range })) by (nonlinear_arith)
        requires
            -range <= 2 * v < range,
    ;
    assert(w % range == (if w >= 0 { w } else { w + range })) by (nonlinear_arith)
        requires
            -range <= 2 * w < range,
    ;
}

/// Scalars of up to sixteen bits never collide: from the same state, different
/// values lead to different fingerprints.
pub proof fn law_small_scalars_never_collide(state: u64, v: nat, w: nat, count: nat)
    requires
        count <= 2,
        v < encoding::byte_range(count),
        w < encoding::byte_range(count),
        v != w,
    ensures
        encoding::fold_bytes(state, encoding::le_bytes(v, count)) != encoding::fold_bytes(
            state,
            encoding::le_bytes(w, count),
        ),
{
    encoding::lemma_byte_range_values();
    reveal_with_fuel(encoding::byte_range, 2);
    reveal_with_fuel(encoding::le_bytes, 3);
    let a = (v % 256) as u8;
    let b = (v / 256 % 256) as u8;
    let c = (w % 256) as u8;
    let d = (w / 256 % 256) as u8;
    if count == 1 {
        assert(encoding::le_bytes(v, 1) =~= Seq::empty() + seq![a] + Seq::empty());
        assert(encoding::le_bytes(w, 1) =~= Seq::empty() + seq![c] + Seq::empty());
        law_single_byte_change_shows(state, Seq::empty(), a, c, Seq::empty());
    } else {
        assert(encoding::le_bytes(v, 2) =~= seq![a] + seq![b]);
        assert(encoding::le_bytes(w, 2) =~= seq![c] + seq![d]);
        encoding::lemma_fold_concat(state, seq![a], seq![b]);
        encoding::lemma_fold_concat(state, seq![c], seq![d]);
        encoding::lemma_fold_one(state, a);
        encoding::lemma_fold_one(state, c);
        encoding::lemma_fold_one(encoding::fold_byte(state, a), b);
        encoding::lemma_fold_one(encoding::fold_byte(state, c), d);
        lemma_two_bytes_show(state, a, b, c, d);
    }
}

/// Dumping `()` leaves the trace as it was.
pub proof fn law_unit_dump_changes_nothing(state: u64)
    ensures
        encoding::fold_bytes(state, ().dump_bytes()) == state,
{
}

/// Dumping a tuple is dumping its scalars one by one, in order.
pub proof fn law_tuple_is_its_scalars_in_order<
    A: TraceValue,
    B: TraceValue,
    C: TraceValue,
    D: TraceValue,
    E: TraceValue,
>(state: u64, a: A, b: B, c: C, d: D, e: E)
    ensures
        ({
            let s1 = encoding::fold_bytes(state, (a,).dump_bytes());
            let s2 = encoding::fold_bytes(s1, (b,).dump_bytes());
            let s3 = encoding::fold_bytes(s2, (c,).dump_bytes());
            let s4 = encoding::fold_bytes(s3, (d,).dump_bytes());
            let s5 = encoding::fold_bytes(s4, (e,).dump_bytes());
            &&& s2 == encoding::fold_bytes(state, (a, b).dump_bytes())
            &&& s3 == encoding::fold_bytes(state, (a, b, c).dump_bytes())
            &&& s4 == encoding::fold_bytes(state, (a, b, c, d).dump_bytes())
            &&& s5 == encoding::fold_bytes(state, (a, b, c, d, e).dump_bytes())
        }),
{
    encoding::lemma_fold_concat(state, (a,).dump_bytes(), (b,).dump_bytes());
    encoding::lemma_fold_concat(state, (a, b).dump_bytes(), (c,).dump_bytes());
    encoding::lemma_fold_concat(state, (a, b, c).dump_bytes(), (d,).dump_bytes());
    encoding::lemma_fold_concat(state, (a, b, c, d).dump_bytes(), (e,).dump_bytes());
}

/// Pointer-sized integers are traced as 64-bit ones, whatever their width on
/// the machine that runs the program.
pub proof fn law_pointer_sized_traced_as_64_bit(u: usize, i: isize)
    ensures
        u.trace_bytes() == (u as u64).trace_bytes(),
        i.trace_bytes() == (i as i64).trace_bytes(),
        u.trace_bytes().len() == 8,
        i.trace_bytes().len() == 8,
{
    encoding::lemma_le_bytes_len(u as nat, 8);
    encoding::lemma_le_bytes_len(encoding::twos_complement(i as int, 8), 8);
}

/// The bytes of a value come lowest first: the byte at `i` is the value without
/// its `i` lower bytes, modulo 256.
pub proof fn law_bytes_come_lowest_first(value: nat, count: nat, i: nat)
    requires
        i < count,
    ensures
        encoding::le_bytes(value, count).len() == count,
        encoding::le_bytes(value, count)[i as int] == (value / encoding::byte_range(i)) % 256,
{
    encoding::lemma_le_bytes_len(value, count);
    encoding::lemma_le_bytes_split(value, i, (count - i) as nat);
    encoding::lemma_le_bytes_len(value % encoding::byte_range(i), i);
    encoding::lemma_byte_range_positive(i);
    vstd::arithmetic::div_mod::lemma_div_pos_is_pos(value as int, encoding::byte_range(i) as int);
    let high = value / encoding::byte_range(i);
    assert(encoding::le_bytes(high, (count - i) as nat)[0] == (high % 256) as u8);
}

/// Folding a value's bytes is folding them one at a time.
pub proof fn law_bytes_are_folded_one_by_one(state: u64, value: nat, count: nat)
    requires
        count > 0,
    ensures
        encoding::fold_bytes(state, encoding::le_bytes(value, count)) == encoding::fold_bytes(
            encoding::fold_byte(state, (value % 256) as u8),
            encoding::le_bytes(value / 256, (count - 1) as nat),
        ),
{
    let lowest = (value % 256) as u8;
    encoding::lemma_fold_one(state, lowest);
    encoding::lemma_fold_concat(
        state,
        seq![lowest],
        encoding::le_bytes(value / 256, (count - 1) as nat),
    );
}

/// The wide unsigned scalars are traced as their low half and then their high
/// half.
pub proof fn law_wide_scalars_are_their_halves(state: u64, v: u128, w: u64)
    ensures
        encoding::fold_bytes(state, v.trace_bytes()) == encoding::fold_bytes(
            encoding::fold_bytes(state, (v as u64).trace_bytes()),
            ((v >> 64) as u64).trace_bytes(),
        ),
        encoding::fold_bytes(state, w.trace_bytes()) == encoding::fold_bytes(
            encoding::fold_bytes(state, (w as u32).trace_bytes()),
            ((w >> 32) as u32).trace_bytes(),
        ),
{
    encoding::lemma_byte_range_values();
    assert(v as u64 == v % 0x1_0000_0000_0000_0000) by (bit_vector);
    assert((v >> 64) as u64 == v / 0x1_0000_0000_0000_0000) by (bit_vector);
    assert(w as u32 == w % 0x1_0000_0000) by (bit_vector);
    assert((w >> 32) as u32 == w / 0x1_0000_0000) by (bit_vector);
    encoding::lemma_fold_split(state, v as nat, 8, 8);
    encoding::lemma_fold_split(state, w as nat, 4, 4);
}

/// A character is traced as its code point in a `u32`: always four bytes, and
/// never its UTF-8 encoding.
pub proof fn law_char_traced_as_code_point(c: char)
    ensures
        c.trace_bytes() == (c as u32).trace_bytes(),
        c.trace_bytes().len() == 4,
{
    encoding::lemma_le_bytes_len(c as nat, 4);
}

/// A count of bytes holds as many values as 256 has as its power.
proof fn lemma_byte_range_is_a_power(count: nat)
    ensures
        encoding::byte_range(count) == vstd::arithmetic::power::pow(256, count),
    decreases count,
{
    reveal(vstd::arithmetic::power::pow);
    if count > 0 {
        lemma_byte_range_is_a_power((count - 1) as nat);
    }
}

/// The bytes are `count` digits of the value to the base 256, lowest first.
pub open spec fn are_digits(bytes: Seq<u8>, value: int, count: nat) -> bool {
    &&& bytes.len() == count
    &&& forall|i: int|
        0 <= i < count ==> #[trigger] bytes[i] == (value / vstd::arithmetic::power::pow(
            256,
            i as nat,
        )) % 256
}

/// The bytes of a value are its digits.
proof fn lemma_le_bytes_are_digits(value: nat, count: nat)
    ensures
        are_digits(encoding::le_bytes(value, count), value as int, count),
{
    encoding::lemma_le_bytes_len(value, count);
    let bytes = encoding::le_bytes(value, count);
    assert forall|i: int| 0 <= i < count implies #[trigger] bytes[i] == (value as int
        / vstd::arithmetic::power::pow(256, i as nat)) % 256 by {
        law_bytes_come_lowest_first(value, count, i as nat);
        lemma_byte_range_is_a_power(i as nat);
    }
}

/// The bytes of a character are the digits of its code point.
proof fn lemma_char_digits(c: char)
    ensures
        are_digits(c.trace_bytes(), c as int, 4),
{
    lemma_le_bytes_are_digits(c as nat, 4);
}

/// Different characters have different bytes.
proof fn lemma_chars_told_apart(v: char, w: char)
    requires
        v != w,
    ensures
        v.trace_bytes() != w.trace_bytes(),
{
    encoding::lemma_byte_range_values();
    law_bytes_tell_values_apart(v as nat, w as nat, 4);
}

/// The unsigned scalars are traced as the digits of their values, in as many
/// bytes as the type has. A pointer-sized one has eight, a character four, and
/// a truth value one.
pub proof fn law_unsigned_scalars_are_their_digits()
    ensures
        forall|v: u8| are_digits(#[trigger] v.trace_bytes(), v as int, 1),
        forall|v: u16| are_digits(#[trigger] v.trace_bytes(), v as int, 2),
        forall|v: u32| are_digits(#[trigger] v.trace_bytes(), v as int, 4),
        forall|v: u64| are_digits(#[trigger] v.trace_bytes(), v as int, 8),
        forall|v: u128| are_digits(#[trigger] v.trace_bytes(), v as int, 16),
        forall|v: usize| are_digits(#[trigger] v.trace_bytes(), v as int, 8),
        forall|v: char| are_digits(#[trigger] v.trace_bytes(), v as int, 4),
        forall|v: bool| are_digits(#[trigger] v.trace_bytes(), if v { 1 } else { 0 }, 1),
{
    assert forall|v: u8| are_digits(#[trigger] v.trace_bytes(), v as int, 1) by {
        lemma_le_bytes_are_digits(v as nat, 1);
    }
    assert forall|v: u16| are_digits(#[trigger] v.trace_bytes(), v as int, 2) by {
        lemma_le_bytes_are_digits(v as nat, 2);
    }
    assert forall|v: u32| are_digits(#[trigger] v.trace_bytes(), v as int, 4) by {
        lemma_le_bytes_are_digits(v as nat, 4);
    }
    assert forall|v: u64| are_digits(#[trigger] v.trace_bytes(), v as int, 8) by {
        lemma_le_bytes_are_digits(v as nat, 8);
    }
    assert forall|v: u128| are_digits(#[trigger] v.trace_bytes(), v as int, 16) by {
        lemma_le_bytes_are_digits(v as nat, 16);
    }
    assert forall|v: usize| are_digits(#[trigger] v.trace_bytes(), v as int, 8) by {
        lemma_le_bytes_are_digits(v as nat, 8);
    }
    assert forall|v: char| are_digits(#[trigger] v.trace_bytes(), v as int, 4) by {
        lemma_char_digits(v);
    }
    assert forall|v: bool| are_digits(#[trigger] v.trace_bytes(), if v { 1 } else { 0 }, 1) by {
        lemma_le_bytes_are_digits(if v { 1 } else { 0 }, 1);
    }
}

/// Every signed scalar is traced as the unsigned one of the same width that it
/// is cast to.
pub proof fn law_signed_scalars_are_traced_as_unsigned()
    ensures
        forall|v: i8| #[trigger] v.trace_bytes() == (v as u8).trace_bytes(),
        forall|v: i16| #[trigger] v.trace_bytes() == (v as u16).trace_bytes(),
        forall|v: i32| #[trigger] v.trace_bytes() == (v as u32).trace_bytes(),
        forall|v: i64| #[trigger] v.trace_bytes() == (v as u64).trace_bytes(),
        forall|v: i128| #[trigger] v.trace_bytes() == (v as u128).trace_bytes(),
        forall|v: isize| #[trigger] v.trace_bytes() == (v as u64).trace_bytes(),
{
    assert forall|v: i8| #[trigger] v.trace_bytes() == (v as u8).trace_bytes() by {
        encoding::lemma_i8_cast(v);
    }
    assert forall|v: i16| #[trigger] v.trace_bytes() == (v as u16).trace_bytes() by {
        encoding::lemma_i16_cast(v);
    }
    assert forall|v: i32| #[trigger] v.trace_bytes() == (v as u32).trace_bytes() by {
        encoding::lemma_i32_cast(v);
    }
    assert forall|v: i64| #[trigger] v.trace_bytes() == (v as u64).trace_bytes() by {
        encoding::lemma_i64_cast(v);
    }
    assert forall|v: i128| #[trigger] v.trace_bytes() == (v as u128).trace_bytes() by {
        encoding::lemma_i128_cast(v);
    }
    assert forall|v: isize| #[trigger] v.trace_bytes() == (v as u64).trace_bytes() by {
        encoding::lemma_isize_cast(v);
    }
}

/// Different values of one type are traced as different bytes.
pub proof fn law_scalars_are_told_apart()
    ensures
        forall|v: u8, w: u8| #[trigger] v.trace_bytes() == #[trigger] w.trace_bytes() ==> v == w,
        forall|v: u16, w: u16| #[trigger] v.trace_bytes() == #[trigger] w.trace_bytes() ==> v == w,
        forall|v: u32, w: u32| #[trigger] v.trace_bytes() == #[trigger] w.trace_bytes() ==> v == w,
        forall|v: u64, w: u64| #[trigger] v.trace_bytes() == #[trigger] w.trace_bytes() ==> v == w,
        forall|v: u128, w: u128| #[trigger] v.trace_bytes() == #[trigger] w.trace_bytes() ==> v == w,
        forall|v: usize, w: usize| #[trigger] v.trace_bytes() == #[trigger] w.trace_bytes() ==> v == w,
        forall|v: char, w: char| #[trigger] v.trace_bytes() == #[trigger] w.trace_bytes() ==> v == w,
        forall|v: i8, w: i8| #[trigger] v.trace_bytes() == #[trigger] w.trace_bytes() ==> v == w,
        forall|v: i16, w: i16| #[trigger] v.trace_bytes() == #[trigger] w.trace_bytes() ==> v == w,
        forall|v: i32, w: i32| #[trigger] v.trace_bytes() == #[trigger] w.trace_bytes() ==> v == w,
        forall|v: i64, w: i64| #[trigger] v.trace_bytes() == #[trigger] w.trace_bytes() ==> v == w,
        forall|v: i128, w: i128| #[trigger] v.trace_bytes() == #[trigger] w.trace_bytes() ==> v == w,
        forall|v: isize, w: isize| #[trigger] v.trace_bytes() == #[trigger] w.trace_bytes() ==> v == w,
        forall|v: bool, w: bool| #[trigger] v.trace_bytes() == #[trigger] w.trace_bytes() ==> v == w,
{
    encoding::lemma_byte_range_values();
    assert forall|v: u8, w: u8| #[trigger] v.trace_bytes() == #[trigger] w.trace_bytes() implies v
        == w by {
        if v != w {
            law_bytes_tell_values_apart(v as nat, w as nat, 1);
        }
    }
    assert forall|v: u16, w: u16| #[trigger] v.trace_bytes() == #[trigger] w.trace_bytes() implies v
        == w by {
        if v != w {
            law_bytes_tell_values_apart(v as nat, w as nat, 2);
        }
    }
    assert forall|v: u32, w: u32| #[trigger] v.trace_bytes() == #[trigger] w.trace_bytes() implies v
        == w by {
        if v != w {
            law_bytes_tell_values_apart(v as nat, w as nat, 4);
        }
    }
    assert forall|v: u64, w: u64| #[trigger] v.trace_bytes() == #[trigger] w.trace_bytes() implies v
        == w by {
        if v != w {
            law_bytes_tell_values_apart(v as nat, w as nat, 8);
        }
    }
    assert forall|v: u128, w: u128| #[trigger] v.trace_bytes() == #[trigger] w.trace_bytes() implies v
        == w by {
        if v != w {
            law_bytes_tell_values_apart(v as nat, w as nat, 16);
        }
    }
    assert forall|v: usize, w: usize| #[trigger] v.trace_bytes() == #[trigger] w.trace_bytes() implies v
        == w by {
        if v != w {
            law_bytes_tell_values_apart(v as nat, w as nat, 8);
        }
    }
    assert forall|v: char, w: char| #[trigger] v.trace_bytes() == #[trigger] w.trace_bytes() implies v
        == w by {
        if v != w {
            lemma_chars_told_apart(v, w);
        }
    }
    assert forall|v: i8, w: i8| #[trigger] v.trace_bytes() == #[trigger] w.trace_bytes() implies v
        == w by {
        if v != w {
            law_twos_complement_tells_values_apart(v as int, w as int, 1);
            law_twos_complement_tells_values_apart(w as int, v as int, 1);
            law_bytes_tell_values_apart(
                encoding::twos_complement(v as int, 1),
                encoding::twos_complement(w as int, 1),
                1,
            );
        }
    }
    assert forall|v: i16, w: i16| #[trigger] v.trace_bytes() == #[trigger] w.trace_bytes() implies v
        == w by {
        if v != w {
            law_twos_complement_tells_values_apart(v as int, w as int, 2);
            law_twos_complement_tells_values_apart(w as int, v as int, 2);
            law_bytes_tell_values_apart(
                encoding::twos_complement(v as int, 2),
                encoding::twos_complement(w as int, 2),
                2,
            );
        }
    }
    assert forall|v: i32, w: i32| #[trigger] v.trace_bytes() == #[trigger] w.trace_bytes() implies v
        == w by {
        if v != w {
            law_twos_complement_tells_values_apart(v as int, w as int, 4);
            law_twos_complement_tells_values_apart(w as int, v as int, 4);
            law_bytes_tell_values_apart(
                encoding::twos_complement(v as int, 4),
                encoding::twos_complement(w as int, 4),
                4,
            );
        }
    }
    assert forall|v: i64, w: i64| #[trigger] v.trace_bytes() == #[trigger] w.trace_bytes() implies v
        == w by {
        if v != w {
            law_twos_complement_tells_values_apart(v as int, w as int, 8);
            law_twos_complement_tells_values_apart(w as int, v as int, 8);
            law_bytes_tell_values_apart(
                encoding::twos_complement(v as int, 8),
                encoding::twos_complement(w as int, 8),
                8,
            );
        }
    }
    assert forall|v: i128, w: i128| #[trigger] v.trace_bytes() == #[trigger] w.trace_bytes() implies v
        == w by {
        if v != w {
            law_twos_complement_tells_values_apart(v as int, w as int, 16);
            law_twos_complement_tells_values_apart(w as int, v as int, 16);
            law_bytes_tell_values_apart(
                encoding::twos_complement(v as int, 16),
                encoding::twos_complement(w as int, 16),
                16,
            );
        }
    }
    assert forall|v: isize, w: isize| #[trigger] v.trace_bytes() == #[trigger] w.trace_bytes() implies v
        == w by {
        if v != w {
            law_twos_complement_tells_values_apart(v as int, w as int, 8);
            law_twos_complement_tells_values_apart(w as int, v as int, 8);
            law_bytes_tell_values_apart(
                encoding::twos_complement(v as int, 8),
                encoding::twos_complement(w as int, 8),
                8,
            );
        }
    }
    assert forall|v: bool, w: bool| #[trigger] v.trace_bytes() == #[trigger] w.trace_bytes() implies v
        == w by {
        if v != w {
            law_bytes_tell_values_apart(if v { 1 } else { 0 }, if w { 1 } else { 0 }, 1);
        }
    }
}

/// The bytes of a tuple are those of its scalars, in order and nothing else.
pub proof fn law_tuple_bytes_are_those_of_its_scalars<
    A: TraceValue,
    B: TraceValue,
    C: TraceValue,
    D: TraceValue,
    E: TraceValue,
>(a: A, b: B, c: C, d: D, e: E)
    ensures
        ().dump_bytes() == Seq::<u8>::empty(),
        (a,).dump_bytes() == a.trace_bytes(),
        (a, b).dump_bytes() == a.trace_bytes() + b.trace_bytes(),
        (a, b, c).dump_bytes() == a.trace_bytes() + b.trace_bytes() + c.trace_bytes(),
        (a, b, c, d).dump_bytes() == a.trace_bytes() + b.trace_bytes() + c.trace_bytes()
            + d.trace_bytes(),
        (a, b, c, d, e).dump_bytes() == a.trace_bytes() + b.trace_bytes() + c.trace_bytes()
            + d.trace_bytes() + e.trace_bytes(),
{
}

/// A step of the fold can be undone: multiplied by the inverse of the FNV prime,
/// the new state is the old one with the byte xor-ed in.
pub proof fn law_byte_step_can_be_undone(state: u64, byte: u8)
    ensures
        (encoding::fold_byte(state, byte) * 0xce965057aff6957b) % 0x1_0000_0000_0000_0000 == state
            ^ (byte as u64),
        (0x100000001b3 * 0xce965057aff6957b) % 0x1_0000_0000_0000_0000 == 1int,
{
    lemma_prime_invertible(state ^ (byte as u64));
}

/// Folding nothing changes nothing, and folding a sequence starts with its
/// first byte.
pub proof fn law_first_byte_is_folded_first(state: u64, byte: u8, rest: Seq<u8>)
    ensures
        encoding::fold_bytes(state, Seq::empty()) == state,
        encoding::fold_bytes(state, seq![byte] + rest) == encoding::fold_bytes(
            encoding::fold_byte(state, byte),
            rest,
        ),
{
    encoding::lemma_fold_one(state, byte);
    encoding::lemma_fold_concat(state, seq![byte], rest);
}

/// A new trace is zero, and a reset one holds the FNV-1a offset basis, whatever
/// it held before. Reading a trace gives what it holds.
pub proof fn law_every_run_starts_alike(
    fresh: Trace,
    trace: &mut Trace,
    read: &Trace,
    fingerprint: u64,
)
    requires
        call_ensures(Trace::new, (), fresh),
        call_ensures(trace_reset, (trace,), ()),
        call_ensures(trace_finish, (read,), fingerprint),
    ensures
        fresh@ == 0,
        final(trace)@ == 0xcbf29ce484222325,
        fingerprint == read@,
{
}

/// Writing a byte xors it in and multiplies by the FNV prime: multiplied by the
/// inverse of the prime, the trace is the old one with the byte xor-ed in.
pub proof fn law_written_byte_can_be_undone(trace: &mut Trace, byte: u8)
    requires
        call_ensures(trace_write_byte, (trace, byte), ()),
    ensures
        (final(trace)@ * 0xce965057aff6957b) % 0x1_0000_0000_0000_0000 == old(trace)@ ^ (
        byte as u64),
{
    law_byte_step_can_be_undone(old(trace)@, byte);
}

/// Dumping a pair leaves the trace as dumping its scalars one after the other
/// does.
pub proof fn law_dumping_a_pair_is_dumping_twice<A: TraceValue, B: TraceValue>(
    pair: &mut Trace,
    first: &mut Trace,
    second: &mut Trace,
    a: A,
    b: B,
)
    requires
        call_ensures(dump_var::<(A, B)>, (pair, (a, b)), ()),
        call_ensures(dump_var::<(A,)>, (first, (a,)), ()),
        call_ensures(dump_var::<(B,)>, (second, (b,)), ()),
        old(first)@ == old(pair)@,
        old(second)@ == final(first)@,
    ensures
        final(second)@ == final(pair)@,
{
    encoding::lemma_fold_concat(old(pair)@, a.trace_bytes(), b.trace_bytes());
}

/// A run that dumps the same value into different traces keeps them different,
/// and into equal traces keeps them equal.
pub proof fn law_dumping_keeps_runs_apart<T: TraceDump>(one: &mut Trace, other: &mut Trace, value: T)
    requires
        call_ensures(dump_var::<T>, (one, value), ()),
        call_ensures(dump_var::<T>, (other, value), ()),
    ensures
        final(one)@ == final(other)@ <==> old(one)@ == old(other)@,
{
    if old(one)@ != old(other)@ {
        law_divergence_persists(old(one)@, old(other)@, value.dump_bytes());
    }
}

/// Dumping an `i8` leaves the trace as dumping the `u8` does that it is cast
/// to.
pub proof fn law_i8_is_dumped_as_u8(signed: &mut Trace, unsigned: &mut Trace, v: i8)
    requires
        call_ensures(dump_var::<(i8,)>, (signed, (v,)), ()),
        call_ensures(dump_var::<(u8,)>, (unsigned, (v as u8,)), ()),
        old(signed)@ == old(unsigned)@,
    ensures
        final(signed)@ == final(unsigned)@,
{
    law_signed_scalars_are_traced_as_unsigned();
    assert(v.trace_bytes() == (v as u8).trace_bytes());
}

/// Dumping an `i16` leaves the trace as dumping the `u16` does that it is cast
/// to.
pub proof fn law_i16_is_dumped_as_u16(signed: &mut Trace, unsigned: &mut Trace, v: i16)
    requires
        call_ensures(dump_var::<(i16,)>, (signed, (v,)), ()),
        call_ensures(dump_var::<(u16,)>, (unsigned, (v as u16,)), ()),
        old(signed)@ == old(unsigned)@,
    ensures
        final(signed)@ == final(unsigned)@,
{
    law_signed_scalars_are_traced_as_unsigned();
    assert(v.trace_bytes() == (v as u16).trace_bytes());
}

/// Dumping an `i32` leaves the trace as dumping the `u32` does that it is cast
/// to.
pub proof fn law_i32_is_dumped_as_u32(signed: &mut Trace, unsigned: &mut Trace, v: i32)
    requires
        call_ensures(dump_var::<(i32,)>, (signed, (v,)), ()),
        call_ensures(dump_var::<(u32,)>, (unsigned, (v as u32,)), ()),
        old(signed)@ == old(unsigned)@,
    ensures
        final(signed)@ == final(unsigned)@,
{
    law_signed_scalars_are_traced_as_unsigned();
    assert(v.trace_bytes() == (v as u32).trace_bytes());
}

/// Dumping an `i64` leaves the trace as dumping the `u64` does that it is cast
/// to.
pub proof fn law_i64_is_dumped_as_u64(signed: &mut Trace, unsigned: &mut Trace, v: i64)
    requires
        call_ensures(dump_var::<(i64,)>, (signed, (v,)), ()),
        call_ensures(dump_var::<(u64,)>, (unsigned, (v as u64,)), ()),
        old(signed)@ == old(unsigned)@,
    ensures
        final(signed)@ == final(unsigned)@,
{
    law_signed_scalars_are_traced_as_unsigned();
    assert(v.trace_bytes() == (v as u64).trace_bytes());
}

/// Dumping an `i128` leaves the trace as dumping the `u128` does that it is cast
/// to.
pub proof fn law_i128_is_dumped_as_u128(signed: &mut Trace, unsigned: &mut Trace, v: i128)
    requires
        call_ensures(dump_var::<(i128,)>, (signed, (v,)), ()),
        call_ensures(dump_var::<(u128,)>, (unsigned, (v as u128,)), ()),
        old(signed)@ == old(unsigned)@,
    ensures
        final(signed)@ == final(unsigned)@,
{
    law_signed_scalars_are_traced_as_unsigned();
    assert(v.trace_bytes() == (v as u128).trace_bytes());
}

/// Dumping an `isize` leaves the trace as dumping the `u64` does that it is cast
/// to.
pub proof fn law_isize_is_dumped_as_u64(signed: &mut Trace, unsigned: &mut Trace, v: isize)
    requires
        call_ensures(dump_var::<(isize,)>, (signed, (v,)), ()),
        call_ensures(dump_var::<(u64,)>, (unsigned, (v as u64,)), ()),
        old(signed)@ == old(unsigned)@,
    ensures
        final(signed)@ == final(unsigned)@,
{
    law_signed_scalars_are_traced_as_unsigned();
    assert(v.trace_bytes() == (v as u64).trace_bytes());
}

/// Dumping a `u16` is writing its low byte and then its high byte.
pub proof fn law_u16_is_written_low_byte_first(
    whole: &mut Trace,
    low: &mut Trace,
    high: &mut Trace,
    v: u16,
)
    requires
        call_ensures(dump_var::<(u16,)>, (whole, (v,)), ()),
        call_ensures(trace_write_byte, (low, (v % 256) as u8), ()),
        call_ensures(trace_write_byte, (high, (v / 256) as u8), ()),
        old(low)@ == old(whole)@,
        old(high)@ == final(low)@,
    ensures
        final(high)@ == final(whole)@,
{
    law_bytes_are_folded_one_by_one(old(whole)@, v as nat, 2);
    law_bytes_are_folded_one_by_one(final(low)@, v as nat / 256, 1);
}

/// Dumping different values of a type of up to sixteen bits into equal traces
/// leaves different traces.
pub proof fn law_small_values_are_told_apart(state: u64)
    ensures
        forall|v: u8, w: u8|
            v != w ==> #[trigger] encoding::fold_bytes(state, (v,).dump_bytes()) != #[trigger]
            encoding::fold_bytes(state, (w,).dump_bytes()),
        forall|v: u16, w: u16|
            v != w ==> #[trigger] encoding::fold_bytes(state, (v,).dump_bytes()) != #[trigger]
            encoding::fold_bytes(state, (w,).dump_bytes()),
        forall|v: i8, w: i8|
            v != w ==> #[trigger] encoding::fold_bytes(state, (v,).dump_bytes()) != #[trigger]
            encoding::fold_bytes(state, (w,).dump_bytes()),
        forall|v: i16, w: i16|
            v != w ==> #[trigger] encoding::fold_bytes(state, (v,).dump_bytes()) != #[trigger]
            encoding::fold_bytes(state, (w,).dump_bytes()),
{
    encoding::lemma_byte_range_values();
    assert forall|v: u8, w: u8| v != w implies #[trigger] encoding::fold_bytes(
        state,
        (v,).dump_bytes(),
    ) != #[trigger] encoding::fold_bytes(state, (w,).dump_bytes()) by {
        law_small_scalars_never_collide(
            state,
            v as nat,
            w as nat,
            1,
        );
    }
    assert forall|v: u16, w: u16| v != w implies #[trigger] encoding::fold_bytes(
        state,
        (v,).dump_bytes(),
    ) != #[trigger] encoding::fold_bytes(state, (w,).dump_bytes()) by {
        law_small_scalars_never_collide(
            state,
            v as nat,
            w as nat,
            2,
        );
    }
    assert forall|v: i8, w: i8| v != w implies #[trigger] encoding::fold_bytes(
        state,
        (v,).dump_bytes(),
    ) != #[trigger] encoding::fold_bytes(state, (w,).dump_bytes()) by {
        law_twos_complement_tells_values_apart(v as int, w as int, 1);
        law_twos_complement_tells_values_apart(w as int, v as int, 1);
        law_small_scalars_never_collide(
            state,
            encoding::twos_complement(v as int, 1),
            encoding::twos_complement(w as int, 1),
            1,
        );
    }
    assert forall|v: i16, w: i16| v != w implies #[trigger] encoding::fold_bytes(
        state,
        (v,).dump_bytes(),
    ) != #[trigger] encoding::fold_bytes(state, (w,).dump_bytes()) by {
        law_twos_complement_tells_values_apart(v as int, w as int, 2);
        law_twos_complement_tells_values_apart(w as int, v as int, 2);
        law_small_scalars_never_collide(
            state,
            encoding::twos_complement(v as int, 2),
            encoding::twos_complement(w as int, 2),
            2,
        );
    }
}

/// Writing a scalar, dumping it alone, and dumping it through the aggregate all
/// leave the same trace.
pub proof fn law_writing_is_dumping<T: TraceValue>(
    written: &mut Trace,
    dumped: &mut Trace,
    aggregate: &mut Trace,
    v: T,
)
    requires
        call_ensures(T::trace_write, (v, written), ()),
        call_ensures(dump_var::<(T,)>, (dumped, (v,)), ()),
        call_ensures(<(T,) as TraceDump>::trace_dump, ((v,), aggregate), ()),
        old(written)@ == old(dumped)@,
        old(written)@ == old(aggregate)@,
    ensures
        final(written)@ == final(dumped)@,
        final(written)@ == final(aggregate)@,
{
}

/// Each writer leaves the trace with the bytes of its scalar folded in.
pub proof fn law_writers_fold_the_bytes()
    ensures
        forall|t: &mut Trace, v: bool| #[trigger]
            call_ensures(trace_write_bool, (t, v), ()) ==> final(t)@ == encoding::fold_bytes(
                (*t)@,
                v.trace_bytes(),
            ),
        forall|t: &mut Trace, v: char| #[trigger]
            call_ensures(trace_write_char, (t, v), ()) ==> final(t)@ == encoding::fold_bytes(
                (*t)@,
                v.trace_bytes(),
            ),
        forall|t: &mut Trace, v: i8| #[trigger]
            call_ensures(trace_write_i8, (t, v), ()) ==> final(t)@ == encoding::fold_bytes(
                (*t)@,
                v.trace_bytes(),
            ),
        forall|t: &mut Trace, v: i16| #[trigger]
            call_ensures(trace_write_i16, (t, v), ()) ==> final(t)@ == encoding::fold_bytes(
                (*t)@,
                v.trace_bytes(),
            ),
        forall|t: &mut Trace, v: i32| #[trigger]
            call_ensures(trace_write_i32, (t, v), ()) ==> final(t)@ == encoding::fold_bytes(
                (*t)@,
                v.trace_bytes(),
            ),
        forall|t: &mut Trace, v: i64| #[trigger]
            call_ensures(trace_write_i64, (t, v), ()) ==> final(t)@ == encoding::fold_bytes(
                (*t)@,
                v.trace_bytes(),
            ),
        forall|t: &mut Trace, v: i128| #[trigger]
            call_ensures(trace_write_i128, (t, v), ()) ==> final(t)@ == encoding::fold_bytes(
                (*t)@,
                v.trace_bytes(),
            ),
        forall|t: &mut Trace, v: isize| #[trigger]
            call_ensures(trace_write_isize, (t, v), ()) ==> final(t)@ == encoding::fold_bytes(
                (*t)@,
                v.trace_bytes(),
            ),
        forall|t: &mut Trace, v: u8| #[trigger]
            call_ensures(trace_write_u8, (t, v), ()) ==> final(t)@ == encoding::fold_bytes(
                (*t)@,
                v.trace_bytes(),
            ),
        forall|t: &mut Trace, v: u16| #[trigger]
            call_ensures(trace_write_u16, (t, v), ()) ==> final(t)@ == encoding::fold_bytes(
                (*t)@,
                v.trace_bytes(),
            ),
        forall|t: &mut Trace, v: u32| #[trigger]
            call_ensures(trace_write_u32, (t, v), ()) ==> final(t)@ == encoding::fold_bytes(
                (*t)@,
                v.trace_bytes(),
            ),
        forall|t: &mut Trace, v: u64| #[trigger]
            call_ensures(trace_write_u64, (t, v), ()) ==> final(t)@ == encoding::fold_bytes(
                (*t)@,
                v.trace_bytes(),
            ),
        forall|t: &mut Trace, v: u128| #[trigger]
            call_ensures(trace_write_u128, (t, v), ()) ==> final(t)@ == encoding::fold_bytes(
                (*t)@,
                v.trace_bytes(),
            ),
        forall|t: &mut Trace, v: usize| #[trigger]
            call_ensures(trace_write_usize, (t, v), ()) ==> final(t)@ == encoding::fold_bytes(
                (*t)@,
                v.trace_bytes(),
            ),
{
}

} // verus!
