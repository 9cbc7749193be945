//! 160-bit ring identifiers and clockwise arithmetic modulo 2^160.

use vstd::prelude::*;
use vstd::arithmetic::power2::*;
use vstd::string::*;
use crate::error::Error;

verus! {

/// 2^128, the weight of the high word of an identifier.
pub open spec fn low_span() -> nat {
    0x1_0000_0000_0000_0000_0000_0000_0000_0000nat
}

/// 2^160, the number of points on the ring.
pub open spec fn ring_size() -> nat {
    0x1_0000_0000_0000_0000_0000_0000_0000_0000_0000_0000nat
}

/// Clockwise distance from `from` to `to` on the ring: `(to - from) mod 2^160`.
pub open spec fn ring_distance(from: nat, to: nat) -> nat {
    if to >= from {
        (to - from) as nat
    } else {
        (to + ring_size() - from) as nat
    }
}

/// `(base + delta) mod 2^160` for operands that are themselves below 2^160.
pub open spec fn ring_add(base: nat, delta: nat) -> nat {
    if base + delta < ring_size() {
        base + delta
    } else {
        (base + delta - ring_size()) as nat
    }
}

/// `x` lies strictly clockwise-between `a` and `b`: on the open arc `(a, b)`.
pub open spec fn in_open_arc(x: nat, a: nat, b: nat) -> bool {
    0 < ring_distance(a, x) < ring_distance(a, b)
}

/// `x` lies on the arc `(a, b]`, open at `a` and closed at `b`.
pub open spec fn in_half_open_arc(x: nat, a: nat, b: nat) -> bool {
    0 < ring_distance(a, x) <= ring_distance(a, b)
}

/// A point on the identifier ring. The value is `hi * 2^128 + lo`.
#[derive(Clone, Copy, Debug, PartialEq, Eq, Hash, Structural)]
pub struct Did {
    pub hi: u32,
    pub lo: u128,
}

impl View for Did {
    type V = nat;

    open spec fn view(&self) -> nat {
        self.hi as nat * low_span() + self.lo as nat
    }
}

/// Every identifier is a point of the ring.
pub proof fn lemma_did_view_bounds(d: Did)
    ensures
        d@ < ring_size(),
{
}

/// Distinct identifiers are distinct points.
pub proof fn lemma_did_view_injective(a: Did, b: Did)
    requires
        a@ == b@,
    ensures
        a == b,
{
}

impl Did {
    /// The identifier with the given high 32 bits and low 128 bits.
    pub fn new(hi: u32, lo: u128) -> (d: Did)
        ensures
            d.hi == hi,
            d.lo == lo,
    {
        Did { hi, lo }
    }

    /// Identifier zero, a legal point of the ring like any other.
    pub fn zero() -> (d: Did)
        ensures
            d@ == 0,
    {
        Did { hi: 0, lo: 0 }
    }

    /// Numeric order of identifiers.
    pub fn lt(&self, other: &Did) -> (b: bool)
        ensures
            b == (self@ < other@),
    {
        self.hi < other.hi || (self.hi == other.hi && self.lo < other.lo)
    }

    /// Clockwise distance from `self` to `other`.
    pub fn distance_to(&self, other: &Did) -> (d: Did)
        ensures
            d@ == ring_distance(self@, other@),
    {
        let (lo, borrow): (u128, u64) = if other.lo >= self.lo {
            (other.lo - self.lo, 0)
        } else {
            (u128::MAX - self.lo + other.lo + 1, 1)
        };
        let wide: u64 = other.hi as u64 + 0x1_0000_0000u64 - self.hi as u64 - borrow;
        let hi: u32 = if wide >= 0x1_0000_0000u64 {
            (wide - 0x1_0000_0000u64) as u32
        } else {
            wide as u32
        };
        Did { hi, lo }
    }

    /// The point `delta` steps clockwise of `self`.
    pub fn wrapping_add(&self, delta: &Did) -> (d: Did)
        ensures
            d@ == ring_add(self@, delta@),
    {
        let room: u128 = u128::MAX - self.lo;
        let (lo, carry): (u128, u64) = if delta.lo <= room {
            (self.lo + delta.lo, 0)
        } else {
            (delta.lo - room - 1, 1)
        };
        let wide: u64 = self.hi as u64 + delta.hi as u64 + carry;
        let hi: u32 = if wide >= 0x1_0000_0000u64 {
            (wide - 0x1_0000_0000u64) as u32
        } else {
            wide as u32
        };
        Did { hi, lo }
    }

    /// `self` lies strictly clockwise-between `a` and `b`.
    pub fn is_between(&self, a: &Did, b: &Did) -> (r: bool)
        ensures
            r == in_open_arc(self@, a@, b@),
    {
        let dx = a.distance_to(self);
        let db = a.distance_to(b);
        Did::zero().lt(&dx) && dx.lt(&db)
    }

    /// `self` lies on the arc `(a, b]`.
    pub fn is_between_closed(&self, a: &Did, b: &Did) -> (r: bool)
        ensures
            r == in_half_open_arc(self@, a@, b@),
    {
        let dx = a.distance_to(self);
        let db = a.distance_to(b);
        Did::zero().lt(&dx) && !db.lt(&dx)
    }
}


/// The two spans of the ring as powers of two.
pub proof fn lemma_ring_spans()
    ensures
        pow2(32) == 0x1_0000_0000,
        pow2(128) == low_span(),
        pow2(160) == ring_size(),
{
    lemma2_to64();
    lemma_pow2_adds(64, 64);
    lemma_pow2_adds(128, 32);
    let a = pow2(64);
    let b = pow2(32);
    assert(a * a == low_span()) by (nonlinear_arith)
        requires
            a == 0x1_0000_0000_0000_0000,
    ;
    assert(low_span() * b == ring_size()) by (nonlinear_arith)
        requires
            b == 0x1_0000_0000,
    ;
}

/// The clockwise distance is the difference modulo the size of the ring.
pub proof fn lemma_ring_distance_is_mod(from: nat, to: nat)
    requires
        from < ring_size(),
        to < ring_size(),
    ensures
        ring_distance(from, to) == (to - from) % (ring_size() as int),
{
    let r = ring_size() as int;
    if to >= from {
        vstd::arithmetic::div_mod::lemma_small_mod((to - from) as nat, r as nat);
    } else {
        vstd::arithmetic::div_mod::lemma_small_mod((to + r - from) as nat, r as nat);
        vstd::arithmetic::div_mod::lemma_mod_add_multiples_vanish(to - from, r);
    }
}

/// The value of one hexadecimal digit, in either case.
pub open spec fn hex_digit_value(c: char) -> Option<nat> {
    if '0' <= c && c <= '9' {
        Some((c as u32 - '0' as u32) as nat)
    } else if 'a' <= c && c <= 'f' {
        Some((c as u32 - 'a' as u32 + 10) as nat)
    } else if 'A' <= c && c <= 'F' {
        Some((c as u32 - 'A' as u32 + 10) as nat)
    } else {
        None
    }
}

/// The lower-case hexadecimal digit for a value below 16.
pub open spec fn hex_digit_char(d: nat) -> char {
    if d < 10 {
        (d + '0' as u32) as char
    } else {
        (d - 10 + 'a' as u32) as char
    }
}

/// Every character of `s` is a hexadecimal digit.
pub open spec fn all_hex(s: Seq<char>) -> bool {
    forall|i: int| 0 <= i < s.len() ==> (#[trigger] hex_digit_value(s[i])) is Some
}

/// The number that the hexadecimal numeral `s` denotes, most significant
/// digit first.
pub open spec fn hex_value(s: Seq<char>) -> nat
    decreases s.len(),
{
    if s.len() == 0 {
        0
    } else {
        hex_value(s.drop_last()) * 16 + hex_digit_value(s.last()).unwrap()
    }
}

/// The numeral of `n` lower-case digits for `v mod 16^n`.
pub open spec fn hex_digits(v: nat, n: nat) -> Seq<char>
    decreases n,
{
    if n == 0 {
        Seq::empty()
    } else {
        hex_digits(v / 16, (n - 1) as nat).push(hex_digit_char(v % 16))
    }
}

/// The 40 digits of a connection id: the whole string, or what follows a
/// leading `0x`.
pub open spec fn did_numeral(s: Seq<char>) -> Option<Seq<char>> {
    if s.len() == 42 && s[0] == '0' && s[1] == 'x' {
        Some(s.subrange(2, 42))
    } else if s.len() == 40 {
        Some(s)
    } else {
        None
    }
}

/// The identifier that a string denotes: 40 hexadecimal digits with an
/// optional `0x` in front, the first 8 digits being the high word.
pub open spec fn parse_did(s: Seq<char>) -> Option<Did> {
    match did_numeral(s) {
        Some(digits) => if all_hex(digits) {
            Some(
                Did {
                    hi: hex_value(digits.subrange(0, 8)) as u32,
                    lo: hex_value(digits.subrange(8, 40)) as u128,
                },
            )
        } else {
            None
        },
        None => None,
    }
}

/// The string form of an identifier: `0x` and 40 lower-case digits.
pub open spec fn did_string(d: Did) -> Seq<char> {
    seq!['0', 'x'] + hex_digits(d.hi as nat, 8) + hex_digits(d.lo as nat, 32)
}

/// A numeral of `n` digits denotes a number below `16^n`.
pub proof fn lemma_hex_value_bound(s: Seq<char>)
    requires
        all_hex(s),
    ensures
        hex_value(s) < pow2(4 * s.len()),
    decreases s.len(),
{
    lemma2_to64();
    if s.len() == 0 {
    } else {
        let init = s.drop_last();
        assert forall|i: int| 0 <= i < init.len() implies (#[trigger] hex_digit_value(init[i])) is Some by {
            assert(init[i] == s[i]);
        }
        lemma_hex_value_bound(init);
        lemma_pow2_adds(4 * init.len(), 4);
        assert(hex_digit_value(s.last()) is Some);
        assert(hex_digit_value(s.last()).unwrap() < 16);
        assert(4 * init.len() + 4 == 4 * s.len());
        assert(pow2(4 * s.len()) == pow2(4 * init.len()) * 16);
    }
}

/// Reading back the `n`-digit numeral of `v` gives `v`, for `v` below `16^n`.
pub proof fn lemma_hex_digits_round_trip(v: nat, n: nat)
    requires
        v < pow2(4 * n),
    ensures
        hex_digits(v, n).len() == n,
        all_hex(hex_digits(v, n)),
        hex_value(hex_digits(v, n)) == v,
    decreases n,
{
    lemma2_to64();
    if n == 0 {
    } else {
        let m = (n - 1) as nat;
        lemma_pow2_adds(4 * m, 4);
        assert(4 * m + 4 == 4 * n);
        assert(pow2(4 * n) == pow2(4 * m) * 16);
        assert(v / 16 < pow2(4 * m));
        lemma_hex_digits_round_trip(v / 16, m);
        let init = hex_digits(v / 16, m);
        let s = hex_digits(v, n);
        assert(s == init.push(hex_digit_char(v % 16)));
        assert(s.drop_last() =~= init);
        assert(hex_digit_value(hex_digit_char(v % 16)) == Some(v % 16));
        assert forall|i: int| 0 <= i < s.len() implies (#[trigger] hex_digit_value(s[i])) is Some by {
            if i < init.len() {
                assert(s[i] == init[i]);
            }
        }
    }
}

/// The string form of an identifier parses back to the same identifier.
pub proof fn lemma_did_string_round_trip(d: Did)
    ensures
        parse_did(did_string(d)) == Some(d),
{
    lemma_ring_spans();
    lemma_hex_digits_round_trip(d.hi as nat, 8);
    lemma_hex_digits_round_trip(d.lo as nat, 32);
    let s = did_string(d);
    let high = hex_digits(d.hi as nat, 8);
    let low = hex_digits(d.lo as nat, 32);
    assert(s.len() == 42);
    let digits = s.subrange(2, 42);
    assert(digits =~= high + low);
    assert(digits.subrange(0, 8) =~= high);
    assert(digits.subrange(8, 40) =~= low);
    assert forall|i: int| 0 <= i < digits.len() implies (#[trigger] hex_digit_value(digits[i])) is Some by {
        if i < 8 {
            assert(digits[i] == high[i]);
        } else {
            assert(digits[i] == low[i - 8]);
        }
    }
}

fn hex_digit_of(c: char) -> (r: Option<u8>)
    ensures
        r matches Some(d) ==> hex_digit_value(c) == Some(d as nat) && d < 16,
        r is None ==> hex_digit_value(c) is None,
{
    let x: u32 = c as u32;
    if 48 <= x && x <= 57 {
        Some((x - 48) as u8)
    } else if 97 <= x && x <= 102 {
        Some((x - 97 + 10) as u8)
    } else if 65 <= x && x <= 70 {
        Some((x - 65 + 10) as u8)
    } else {
        None
    }
}

/// Reads the digits `s[from..to]` as one number.
fn parse_hex_run(s: &str, from: usize, to: usize) -> (r: Option<u128>)
    requires
        from <= to <= s@.len(),
        to - from <= 32,
    ensures
        r matches Some(v) ==> all_hex(s@.subrange(from as int, to as int)) && v == hex_value(
            s@.subrange(from as int, to as int),
        ),
        r is None ==> !all_hex(s@.subrange(from as int, to as int)),
{
    let mut acc: u128 = 0;
    let mut i: usize = from;
    proof {
        lemma2_to64();
    }
    while i < to
        invariant
            from <= i <= to <= s@.len(),
            to - from <= 32,
            all_hex(s@.subrange(from as int, i as int)),
            acc == hex_value(s@.subrange(from as int, i as int)),
        decreases to - i,
    {
        let c = s.get_char(i);
        let ghost before = s@.subrange(from as int, i as int);
        let ghost after = s@.subrange(from as int, i + 1);
        match hex_digit_of(c) {
            None => {
                proof {
                    let whole = s@.subrange(from as int, to as int);
                    assert(whole[i - from] == c);
                }
                return None;
            },
            Some(d) => {
                proof {
                    assert(after.drop_last() =~= before);
                    assert(after.last() == c);
                    assert forall|j: int| 0 <= j < after.len() implies (#[trigger] hex_digit_value(
                        after[j],
                    )) is Some by {
                        if j < before.len() {
                            assert(after[j] == before[j]);
                        }
                    }
                    lemma_hex_value_bound(after);
                    lemma_ring_spans();
                    if after.len() < 32 {
                        lemma_pow2_strictly_increases(4 * after.len(), 128);
                    }
                    assert(hex_value(after) == acc * 16 + d);
                }
                acc = acc * 16 + d as u128;
            },
        }
        i = i + 1;
    }
    Some(acc)
}


pub(crate) fn hex_digit_str(d: u8) -> (r: &'static str)
    requires
        d < 16,
    ensures
        r@ == seq![hex_digit_char(d as nat)],
{
    proof {
        reveal_strlit("0");
        reveal_strlit("1");
        reveal_strlit("2");
        reveal_strlit("3");
        reveal_strlit("4");
        reveal_strlit("5");
        reveal_strlit("6");
        reveal_strlit("7");
        reveal_strlit("8");
        reveal_strlit("9");
        reveal_strlit("a");
        reveal_strlit("b");
        reveal_strlit("c");
        reveal_strlit("d");
        reveal_strlit("e");
        reveal_strlit("f");
    }
    let r = match d {
        0 => "0",
        1 => "1",
        2 => "2",
        3 => "3",
        4 => "4",
        5 => "5",
        6 => "6",
        7 => "7",
        8 => "8",
        9 => "9",
        10 => "a",
        11 => "b",
        12 => "c",
        13 => "d",
        14 => "e",
        _ => "f",
    };
    assert(r@ =~= seq![hex_digit_char(d as nat)]);
    r
}

/// Appends the `n`-digit numeral of `v` to `out`.
fn push_hex(out: &mut String, v: u128, n: u8)
    ensures
        final(out)@ == old(out)@ + hex_digits(v as nat, n as nat),
    decreases n,
{
    if n > 0 {
        push_hex(out, v / 16, n - 1);
        out.append(hex_digit_str((v % 16) as u8));
        assert(final(out)@ =~= old(out)@ + hex_digits(v as nat, n as nat));
    }
}

impl Did {
    /// Reads an identifier from its string form.
    pub fn from_str(s: &str) -> (r: Result<Did, Error>)
        ensures
            match r {
                Ok(d) => parse_did(s@) == Some(d),
                Err(e) => parse_did(s@) is None && (e matches Error::MalformedCid(t) && t@ == s@),
            },
    {
        let n = s.unicode_len();
        let start: usize = if n == 42 {
            if s.get_char(0) == '0' && s.get_char(1) == 'x' {
                2
            } else {
                return Err(Error::MalformedCid(s.to_owned()));
            }
        } else if n == 40 {
            0
        } else {
            return Err(Error::MalformedCid(s.to_owned()));
        };
        let ghost digits = s@.subrange(start as int, start + 40);
        assert(did_numeral(s@) == Some(digits)) by {
            if n == 40 {
                assert(digits =~= s@);
            }
        }
        assert(digits.subrange(0, 8) =~= s@.subrange(start as int, start + 8));
        assert(digits.subrange(8, 40) =~= s@.subrange(start + 8, start + 40));
        let high = parse_hex_run(s, start, start + 8);
        let low = parse_hex_run(s, start + 8, start + 40);
        match (high, low) {
            (Some(h), Some(l)) => {
                proof {
                    lemma_ring_spans();
                    lemma_hex_value_bound(digits.subrange(0, 8));
                    assert forall|i: int| 0 <= i < digits.len() implies (#[trigger] hex_digit_value(
                        digits[i],
                    )) is Some by {
                        if i < 8 {
                            assert(digits[i] == digits.subrange(0, 8)[i]);
                        } else {
                            assert(digits[i] == digits.subrange(8, 40)[i - 8]);
                        }
                    }
                }
                Ok(Did { hi: h as u32, lo: l })
            },
            _ => {
                proof {
                    if all_hex(digits) {
                        assert forall|i: int| 0 <= i < 8 implies (#[trigger] hex_digit_value(
                            digits.subrange(0, 8)[i],
                        )) is Some by {
                            assert(digits.subrange(0, 8)[i] == digits[i]);
                        }
                        assert forall|i: int| 0 <= i < 32 implies (#[trigger] hex_digit_value(
                            digits.subrange(8, 40)[i],
                        )) is Some by {
                            assert(digits.subrange(8, 40)[i] == digits[i + 8]);
                        }
                    }
                }
                Err(Error::MalformedCid(s.to_owned()))
            },
        }
    }

    /// The string form: `0x` and 40 lower-case hexadecimal digits.
    pub fn to_string(&self) -> (s: String)
        ensures
            s@ == did_string(*self),
    {
        let mut out = String::from_str("0x");
        proof {
            reveal_strlit("0x");
        }
        assert(out@ =~= seq!['0', 'x']);
        push_hex(&mut out, self.hi as u128, 8);
        push_hex(&mut out, self.lo, 32);
        out
    }
}


/// Clockwise distance between two identifiers.
pub open spec fn dist(from: Did, to: Did) -> nat {
    ring_distance(from@, to@)
}

/// The point `2^i` steps clockwise of `base`: where finger `i` starts.
pub open spec fn finger_start(base: Did, i: nat) -> nat {
    ring_add(base@, pow2(i))
}

/// The identifier of a point of the ring.
pub open spec fn did_of(n: nat) -> Did {
    Did { hi: (n / low_span()) as u32, lo: (n % low_span()) as u128 }
}

/// An identifier is the identifier of its point.
pub proof fn lemma_did_of_view(d: Did)
    ensures
        did_of(d@) == d,
{
}

/// Two identifiers at the same distance from a third are the same.
pub proof fn lemma_dist_injective(from: Did, a: Did, b: Did)
    requires
        dist(from, a) == dist(from, b),
    ensures
        a == b,
{
}

/// Two identifiers from which a third is equally far are the same.
pub proof fn lemma_dist_injective_from(a: Did, b: Did, to: Did)
    requires
        dist(a, to) == dist(b, to),
    ensures
        a == b,
{
}

impl Did {
    /// The identifier one step clockwise of zero.
    pub fn one() -> (d: Did)
        ensures
            d@ == 1,
    {
        Did { hi: 0, lo: 1 }
    }

    /// The identifier `2^i`.
    pub fn pow2(i: u8) -> (d: Did)
        requires
            i < 160,
        ensures
            d@ == pow2(i as nat),
    {
        let mut d = Did::one();
        let mut k: u8 = 0;
        proof {
            lemma2_to64();
        }
        while k < i
            invariant
                k <= i < 160,
                d@ == pow2(k as nat),
            decreases i - k,
        {
            proof {
                lemma_ring_spans();
                lemma_pow2_unfold((k + 1) as nat);
                lemma_pow2_strictly_increases((k + 1) as nat, 160);
            }
            d = d.wrapping_add(&d);
            k = k + 1;
        }
        d
    }

    /// Where finger `i` of `self` starts: `self + 2^i`.
    pub fn finger_start(&self, i: u8) -> (d: Did)
        requires
            i < 160,
        ensures
            d@ == finger_start(*self, i as nat),
    {
        let step = Did::pow2(i);
        self.wrapping_add(&step)
    }

    /// The 20 bytes of the identifier on the wire: the 160-bit number in
    /// little-endian order.
    pub fn to_bytes(&self) -> (bytes: Vec<u8>)
        ensures
            bytes@ == did_bytes(*self),
    {
        let mut out = vstd::bytes::u128_to_le_bytes(self.lo);
        let high = vstd::bytes::u32_to_le_bytes(self.hi);
        out.extend_from_slice(high.as_slice());
        out
    }

    /// The identifier that 20 wire bytes hold.
    pub fn from_bytes(bytes: &[u8]) -> (d: Did)
        requires
            bytes@.len() == 20,
        ensures
            d == parse_did_bytes(bytes@),
    {
        Did {
            lo: vstd::bytes::u128_from_le_bytes(vstd::slice::slice_subrange(bytes, 0, 16)),
            hi: vstd::bytes::u32_from_le_bytes(vstd::slice::slice_subrange(bytes, 16, 20)),
        }
    }
}

/// The wire bytes of an identifier.
pub open spec fn did_bytes(d: Did) -> Seq<u8> {
    vstd::bytes::spec_u128_to_le_bytes(d.lo) + vstd::bytes::spec_u32_to_le_bytes(d.hi)
}

/// The identifier that 20 wire bytes hold.
pub open spec fn parse_did_bytes(b: Seq<u8>) -> Did {
    Did {
        lo: vstd::bytes::spec_u128_from_le_bytes(b.subrange(0, 16)),
        hi: vstd::bytes::spec_u32_from_le_bytes(b.subrange(16, 20)),
    }
}

/// The wire bytes of an identifier are 20, and hold that identifier.
pub proof fn lemma_did_bytes_round_trip(d: Did)
    ensures
        did_bytes(d).len() == 20,
        parse_did_bytes(did_bytes(d)) == d,
{
    vstd::bytes::lemma_auto_spec_u32_to_from_le_bytes();
    vstd::bytes::lemma_auto_spec_u128_to_from_le_bytes();
    let b = did_bytes(d);
    assert(b.subrange(0, 16) =~= vstd::bytes::spec_u128_to_le_bytes(d.lo));
    assert(b.subrange(16, 20) =~= vstd::bytes::spec_u32_to_le_bytes(d.hi));
}

/// Any 20 bytes are the wire bytes of the identifier they hold.
pub proof fn lemma_did_bytes_unique(b: Seq<u8>)
    requires
        b.len() == 20,
    ensures
        did_bytes(parse_did_bytes(b)) == b,
{
    vstd::bytes::lemma_auto_spec_u32_to_from_le_bytes();
    vstd::bytes::lemma_auto_spec_u128_to_from_le_bytes();
    assert(did_bytes(parse_did_bytes(b)) =~= b.subrange(0, 16) + b.subrange(16, 20));
    assert(b.subrange(0, 16) + b.subrange(16, 20) =~= b);
}


/// A numeral in two parts denotes the number of its first part, shifted by
/// the digits of the second, plus the number of the second.
pub proof fn lemma_hex_value_concat(a: Seq<char>, b: Seq<char>)
    ensures
        hex_value(a + b) == hex_value(a) * pow2(4 * b.len()) + hex_value(b),
    decreases b.len(),
{
    lemma2_to64();
    if b.len() == 0 {
        assert(a + b =~= a);
        assert(pow2(0) == 1);
        let one = pow2(4 * b.len());
        assert(hex_value(a) * one == hex_value(a)) by (nonlinear_arith)
            requires
                one == 1,
        ;
    } else {
        let init = b.drop_last();
        lemma_hex_value_concat(a, init);
        assert((a + b).drop_last() =~= a + init);
        assert((a + b).last() == b.last());
        lemma_pow2_adds(4 * init.len(), 4);
        assert(4 * init.len() + 4 == 4 * b.len());
        let x = hex_value(a);
        let p = pow2(4 * init.len());
        let q = pow2(4 * b.len());
        let y = hex_value(init);
        let d = hex_digit_value(b.last()).unwrap();
        assert(q == p * 16);
        assert(hex_value(a + b) == hex_value(a + init) * 16 + d);
        assert(hex_value(b) == y * 16 + d);
        assert((x * p + y) * 16 + d == x * q + (y * 16 + d)) by (nonlinear_arith)
            requires
                q == p * 16,
        ;
    }
}

/// The identifier that a string denotes is the number that its 40 digits
/// denote.
pub proof fn lemma_parse_did_value(s: Seq<char>)
    requires
        parse_did(s) is Some,
    ensures
        parse_did(s).unwrap()@ == hex_value(did_numeral(s).unwrap()),
{
    lemma_ring_spans();
    let digits = did_numeral(s).unwrap();
    let high = digits.subrange(0, 8);
    let low = digits.subrange(8, 40);
    assert(digits =~= high + low);
    assert(all_hex(high)) by {
        assert forall|i: int| 0 <= i < 8 implies (#[trigger] hex_digit_value(high[i])) is Some by {
            assert(high[i] == digits[i]);
        }
    }
    assert(all_hex(low)) by {
        assert forall|i: int| 0 <= i < 32 implies (#[trigger] hex_digit_value(low[i])) is Some by {
            assert(low[i] == digits[i + 8]);
        }
    }
    lemma_hex_value_bound(high);
    lemma_hex_value_bound(low);
    lemma_hex_value_concat(high, low);
}

/// The number that bytes denote, most significant byte first.
pub open spec fn be_value(b: Seq<u8>) -> nat
    decreases b.len(),
{
    if b.len() == 0 {
        0
    } else {
        be_value(b.drop_last()) * 256 + b.last() as nat
    }
}

/// `n` bytes denote a number below `256^n`.
pub proof fn lemma_be_value_bound(b: Seq<u8>)
    ensures
        be_value(b) < pow2(8 * b.len()),
    decreases b.len(),
{
    lemma2_to64();
    if b.len() > 0 {
        let init = b.drop_last();
        lemma_be_value_bound(init);
        lemma_pow2_adds(8 * init.len(), 8);
        assert(8 * init.len() + 8 == 8 * b.len());
        assert(pow2(8 * b.len()) == pow2(8 * init.len()) * 256);
    }
}

/// Bytes in two parts denote the number of the first part, shifted by the
/// bytes of the second, plus the number of the second.
pub proof fn lemma_be_value_concat(a: Seq<u8>, b: Seq<u8>)
    ensures
        be_value(a + b) == be_value(a) * pow2(8 * b.len()) + be_value(b),
    decreases b.len(),
{
    lemma2_to64();
    if b.len() == 0 {
        assert(a + b =~= a);
        assert(pow2(0) == 1);
        let one = pow2(8 * b.len());
        assert(be_value(a) * one == be_value(a)) by (nonlinear_arith)
            requires
                one == 1,
        ;
    } else {
        let init = b.drop_last();
        lemma_be_value_concat(a, init);
        assert((a + b).drop_last() =~= a + init);
        assert((a + b).last() == b.last());
        lemma_pow2_adds(8 * init.len(), 8);
        assert(8 * init.len() + 8 == 8 * b.len());
        let x = be_value(a);
        let p = pow2(8 * init.len());
        let q = pow2(8 * b.len());
        let y = be_value(init);
        let d = b.last() as nat;
        assert(q == p * 256);
        assert(be_value(a + b) == be_value(a + init) * 256 + d);
        assert(be_value(b) == y * 256 + d);
        assert((x * p + y) * 256 + d == x * q + (y * 256 + d)) by (nonlinear_arith)
            requires
                q == p * 256,
        ;
    }
}

/// The identifier of a key with the given digest: the low 160 bits of the
/// digest, read as a number with its most significant byte first.
pub open spec fn digest_did(digest: Seq<u8>) -> Did {
    did_of(be_value(digest) % ring_size())
}

/// Reads the bytes `bytes[from..to]` as one number.
fn be_run(bytes: &[u8], from: usize, to: usize) -> (v: u128)
    requires
        from <= to <= bytes@.len(),
        to - from <= 16,
    ensures
        v == be_value(bytes@.subrange(from as int, to as int)),
{
    let mut acc: u128 = 0;
    let mut i: usize = from;
    while i < to
        invariant
            from <= i <= to <= bytes@.len(),
            to - from <= 16,
            acc == be_value(bytes@.subrange(from as int, i as int)),
        decreases to - i,
    {
        let ghost before = bytes@.subrange(from as int, i as int);
        let ghost after = bytes@.subrange(from as int, i + 1);
        proof {
            assert(after.drop_last() =~= before);
            assert(after.last() == bytes@[i as int]);
            lemma_be_value_bound(after);
            lemma_ring_spans();
            if after.len() < 16 {
                lemma_pow2_strictly_increases(8 * after.len(), 128);
            }
        }
        acc = acc * 256 + bytes[i] as u128;
        i = i + 1;
    }
    acc
}

impl Did {
    /// The identifier of the key whose 32-byte digest is given. `None`
    /// for bytes that are no such digest.
    pub fn from_digest(digest: &[u8]) -> (r: Option<Did>)
        ensures
            match r {
                Some(d) => digest@.len() == 32 && d == digest_did(digest@),
                None => digest@.len() != 32,
            },
    {
        if digest.len() != 32 {
            return None;
        }
        let high = be_run(digest, 12, 16);
        let low = be_run(digest, 16, 32);
        proof {
            lemma_ring_spans();
            let head = digest@.subrange(0, 12);
            let mid = digest@.subrange(12, 16);
            let tail = digest@.subrange(16, 32);
            assert(digest@ =~= head + mid + tail);
            lemma_be_value_concat(head + mid, tail);
            lemma_be_value_concat(head, mid);
            lemma_be_value_bound(mid);
            lemma_be_value_bound(tail);
            let x = be_value(head);
            let point = be_value(mid) * low_span() + be_value(tail);
            assert(be_value(digest@) == x * ring_size() + point) by (nonlinear_arith)
                requires
                    be_value(digest@) == (x * pow2(32) + be_value(mid)) * pow2(128) + be_value(
                        tail,
                    ),
                    pow2(32) == 0x1_0000_0000,
                    pow2(128) == low_span(),
                    point == be_value(mid) * low_span() + be_value(tail),
                    ring_size() == 0x1_0000_0000 * low_span(),
            ;
            assert(point < ring_size());
            vstd::arithmetic::div_mod::lemma_mod_multiples_vanish(
                x as int,
                point as int,
                ring_size() as int,
            );
            vstd::arithmetic::div_mod::lemma_small_mod(point, ring_size());
            vstd::arithmetic::div_mod::lemma_fundamental_div_mod_converse(
                point as int,
                low_span() as int,
                be_value(mid) as int,
                be_value(tail) as int,
            );
        }
        Some(Did { hi: high as u32, lo: low })
    }
}

} // verus!
