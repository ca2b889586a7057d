use vstd::prelude::*;

use crate::reading::{DecodeError, FieldsSeen, NumberLit, ReadingV, SensorReading, empty_reading,
    no_fields_seen};
use crate::timestamp::{is_digit, spec_digits_val, spec_scan_digits, lemma_scan_digits_bounds};
use crate::utf8check::check_utf8;

verus! {

use vstd::utf8::{encode_scalar, is_scalar, valid_utf8};

// --- whitespace -----------------------------------------------------------

pub open spec fn is_ws(b: u8) -> bool {
    b == 32 || b == 9 || b == 10 || b == 13
}

/// The first index at or after `i` holding no whitespace.
pub open spec fn spec_skip_ws(s: Seq<u8>, i: int) -> int
    decreases s.len() - i,
{
    if 0 <= i < s.len() && is_ws(s[i]) {
        spec_skip_ws(s, i + 1)
    } else {
        i
    }
}

fn skip_ws(s: &[u8], i: usize) -> (r: usize)
    requires
        i <= s@.len(),
    ensures
        r == spec_skip_ws(s@, i as int),
        i <= r <= s@.len(),
{
    let n = s.len();
    let mut j = i;
    while j < n && (s[j] == 32 || s[j] == 9 || s[j] == 10 || s[j] == 13)
        invariant
            i <= j <= n == s@.len(),
            spec_skip_ws(s@, i as int) == spec_skip_ws(s@, j as int),
        decreases n - j,
    {
        j = j + 1;
    }
    j
}

// --- hex escapes ----------------------------------------------------------

pub open spec fn spec_hexv(b: u8) -> int {
    if 48 <= b <= 57 {
        b - 48
    } else if 97 <= b <= 102 {
        b - 87
    } else if 65 <= b <= 70 {
        b - 55
    } else {
        -1
    }
}

/// The value of the four hex digits at `i`, or -1 when they are not
/// four hex digits.
pub open spec fn spec_hex4(s: Seq<u8>, i: int) -> int {
    if 0 <= i && i + 4 <= s.len() && spec_hexv(s[i]) >= 0 && spec_hexv(s[i + 1]) >= 0
        && spec_hexv(s[i + 2]) >= 0 && spec_hexv(s[i + 3]) >= 0 {
        spec_hexv(s[i]) * 4096 + spec_hexv(s[i + 1]) * 256 + spec_hexv(s[i + 2]) * 16 + spec_hexv(
            s[i + 3],
        )
    } else {
        -1
    }
}

fn hexv(b: u8) -> (r: Option<u32>)
    ensures
        spec_hexv(b) >= 0 ==> r is Some && r->Some_0 == spec_hexv(b),
        spec_hexv(b) < 0 ==> r is None,
{
    if 48 <= b && b <= 57 {
        Some((b - 48) as u32)
    } else if 97 <= b && b <= 102 {
        Some((b - 87) as u32)
    } else if 65 <= b && b <= 70 {
        Some((b - 55) as u32)
    } else {
        None
    }
}

fn hex4(s: &[u8], i: usize) -> (r: Option<u32>)
    requires
        i <= s@.len(),
    ensures
        spec_hex4(s@, i as int) >= 0 ==> r is Some && r->Some_0 == spec_hex4(s@, i as int),
        spec_hex4(s@, i as int) < 0 ==> r is None,
{
    if s.len() - i < 4 {
        return None;
    }
    let h0 = match hexv(s[i]) {
        Some(v) => v,
        None => { return None; },
    };
    let h1 = match hexv(s[i + 1]) {
        Some(v) => v,
        None => { return None; },
    };
    let h2 = match hexv(s[i + 2]) {
        Some(v) => v,
        None => { return None; },
    };
    let h3 = match hexv(s[i + 3]) {
        Some(v) => v,
        None => { return None; },
    };
    Some(h0 * 4096 + h1 * 256 + h2 * 16 + h3)
}

// --- string bodies --------------------------------------------------------

/// The decoded content of a string whose opening quote stands just
/// before `i`, appended to `acc`, and the index just past the closing
/// quote. Escapes cover the simple set and `\u` with surrogate pairs;
/// raw control bytes are refused.
pub open spec fn spec_string_body(s: Seq<u8>, i: int, acc: Seq<u8>) -> Option<(Seq<u8>, int)>
    decreases s.len() - i,
{
    if i < 0 || i >= s.len() {
        Option::None
    } else {
        let b = s[i];
        if b == 34 {
            Option::Some((acc, i + 1))
        } else if b == 92 {
            if i + 1 >= s.len() {
                Option::None
            } else {
                let e = s[i + 1];
                if e == 34 || e == 92 || e == 47 {
                    spec_string_body(s, i + 2, acc.push(e))
                } else if e == 98 {
                    spec_string_body(s, i + 2, acc.push(8))
                } else if e == 102 {
                    spec_string_body(s, i + 2, acc.push(12))
                } else if e == 110 {
                    spec_string_body(s, i + 2, acc.push(10))
                } else if e == 114 {
                    spec_string_body(s, i + 2, acc.push(13))
                } else if e == 116 {
                    spec_string_body(s, i + 2, acc.push(9))
                } else if e == 117 {
                    let hi = spec_hex4(s, i + 2);
                    if hi < 0 {
                        Option::None
                    } else if 0xd800 <= hi <= 0xdbff {
                        if i + 7 < s.len() && s[i + 6] == 92 && s[i + 7] == 117 {
                            let lo = spec_hex4(s, i + 8);
                            if 0xdc00 <= lo <= 0xdfff {
                                spec_string_body(
                                    s,
                                    i + 12,
                                    acc + encode_scalar(
                                        (0x10000 + (hi - 0xd800) * 0x400 + (lo - 0xdc00)) as u32,
                                    ),
                                )
                            } else {
                                Option::None
                            }
                        } else {
                            Option::None
                        }
                    } else if 0xdc00 <= hi <= 0xdfff {
                        Option::None
                    } else {
                        spec_string_body(s, i + 6, acc + encode_scalar(hi as u32))
                    }
                } else {
                    Option::None
                }
            }
        } else if b < 32 {
            Option::None
        } else {
            spec_string_body(s, i + 1, acc.push(b))
        }
    }
}

/// Append the UTF-8 encoding of one scalar.
fn push_scalar(acc: &mut Vec<u8>, cp: u32)
    requires
        is_scalar(cp),
    ensures
        final(acc)@ == old(acc)@ + encode_scalar(cp),
{
    let ghost pre = acc@;
    if cp <= 0x7f {
        acc.push((cp & 0x7f) as u8);
        assert(acc@ =~= pre + encode_scalar(cp));
    } else if cp <= 0x7ff {
        acc.push(0xc0u8 | (((cp >> 6u32) & 0x1f) as u8));
        acc.push(0x80u8 | ((cp & 0x3f) as u8));
        assert(acc@ =~= pre + encode_scalar(cp));
    } else if cp <= 0xffff {
        acc.push(0xe0u8 | (((cp >> 12u32) & 0x0f) as u8));
        acc.push(0x80u8 | (((cp >> 6u32) & 0x3f) as u8));
        acc.push(0x80u8 | ((cp & 0x3f) as u8));
        assert(acc@ =~= pre + encode_scalar(cp));
    } else {
        acc.push(0xf0u8 | (((cp >> 18u32) & 0x7) as u8));
        acc.push(0x80u8 | (((cp >> 12u32) & 0x3f) as u8));
        acc.push(0x80u8 | (((cp >> 6u32) & 0x3f) as u8));
        acc.push(0x80u8 | ((cp & 0x3f) as u8));
        assert(acc@ =~= pre + encode_scalar(cp));
    }
}

fn parse_string_body(s: &[u8], start: usize) -> (r: Option<(Vec<u8>, usize)>)
    requires
        start <= s@.len(),
    ensures
        match spec_string_body(s@, start as int, Seq::<u8>::empty()) {
            Option::None => r is None,
            Option::Some(p) => r is Some && r->Some_0.0@ == p.0 && r->Some_0.1 == p.1
                && start < p.1 <= s@.len(),
        },
{
    let n = s.len();
    let mut i = start;
    let mut acc: Vec<u8> = Vec::new();
    assert(acc@ =~= Seq::<u8>::empty());
    while i < n
        invariant
            start <= i <= n == s@.len(),
            spec_string_body(s@, start as int, Seq::<u8>::empty()) == spec_string_body(
                s@,
                i as int,
                acc@,
            ),
        decreases n - i,
    {
        let b = s[i];
        if b == 34 {
            return Some((acc, i + 1));
        } else if b == 92 {
            if i + 1 >= n {
                return None;
            }
            let e = s[i + 1];
            if e == 34 || e == 92 || e == 47 {
                acc.push(e);
                i = i + 2;
            } else if e == 98 {
                acc.push(8);
                i = i + 2;
            } else if e == 102 {
                acc.push(12);
                i = i + 2;
            } else if e == 110 {
                acc.push(10);
                i = i + 2;
            } else if e == 114 {
                acc.push(13);
                i = i + 2;
            } else if e == 116 {
                acc.push(9);
                i = i + 2;
            } else if e == 117 {
                let hi = match hex4(s, i + 2) {
                    Some(v) => v,
                    None => { return None; },
                };
                if 0xd800 <= hi && hi <= 0xdbff {
                    if !(n - i > 7 && s[i + 6] == 92 && s[i + 7] == 117) {
                        return None;
                    }
                    let lo = match hex4(s, i + 8) {
                        Some(v) => v,
                        None => { return None; },
                    };
                    if !(0xdc00 <= lo && lo <= 0xdfff) {
                        return None;
                    }
                    let cp: u32 = 0x10000 + (hi - 0xd800) * 0x400 + (lo - 0xdc00);
                    push_scalar(&mut acc, cp);
                    i = i + 12;
                } else if 0xdc00 <= hi && hi <= 0xdfff {
                    return None;
                } else {
                    push_scalar(&mut acc, hi);
                    i = i + 6;
                }
            } else {
                return None;
            }
        } else if b < 32 {
            return None;
        } else {
            acc.push(b);
            i = i + 1;
        }
    }
    None
}

// --- numbers --------------------------------------------------------------

/// The index just past the number token beginning at `i`, by the usual
/// decimal grammar: optional minus, an integer part without leading
/// zeroes, an optional fraction, an optional exponent.
pub open spec fn spec_number_end(s: Seq<u8>, i: int) -> Option<int> {
    let j = if 0 <= i < s.len() && s[i] == 45 { i + 1 } else { i };
    if !(0 <= j < s.len() && is_digit(s[j])) {
        Option::None
    } else {
        let k = if s[j] == 48 { j + 1 } else { spec_scan_digits(s, j) };
        if k < s.len() && s[k] == 46 {
            if spec_scan_digits(s, k + 1) == k + 1 {
                Option::None
            } else {
                spec_number_exp(s, spec_scan_digits(s, k + 1))
            }
        } else {
            spec_number_exp(s, k)
        }
    }
}

/// The optional exponent beginning at `k`, and the end of the token.
pub open spec fn spec_number_exp(s: Seq<u8>, k: int) -> Option<int> {
    if k < s.len() && (s[k] == 101 || s[k] == 69) {
        let k3 = if k + 1 < s.len() && (s[k + 1] == 43 || s[k + 1] == 45) { k + 2 } else { k + 1 };
        if spec_scan_digits(s, k3) == k3 {
            Option::None
        } else {
            Option::Some(spec_scan_digits(s, k3))
        }
    } else {
        Option::Some(k)
    }
}

fn scan_digits(s: &[u8], i: usize) -> (r: usize)
    requires
        i <= s@.len(),
    ensures
        r == spec_scan_digits(s@, i as int),
        i <= r <= s@.len(),
{
    let n = s.len();
    let mut j = i;
    while j < n && 48 <= s[j] && s[j] <= 57
        invariant
            i <= j <= n == s@.len(),
            spec_scan_digits(s@, i as int) == spec_scan_digits(s@, j as int),
        decreases n - j,
    {
        j = j + 1;
    }
    j
}

fn number_end(s: &[u8], i: usize) -> (r: Option<usize>)
    requires
        i <= s@.len(),
    ensures
        match spec_number_end(s@, i as int) {
            Option::None => r is None,
            Option::Some(e) => r is Some && r->Some_0 == e && i < e <= s@.len(),
        },
{
    let n = s.len();
    let j = if i < n && s[i] == 45 { i + 1 } else { i };
    if !(j < n && 48 <= s[j] && s[j] <= 57) {
        return None;
    }
    let k: usize;
    if s[j] == 48 {
        k = j + 1;
    } else {
        k = scan_digits(s, j);
        proof {
            lemma_scan_digits_bounds(s@, j as int + 1);
            assert(spec_scan_digits(s@, j as int) == spec_scan_digits(s@, j as int + 1));
        }
    }
    let k2: usize;
    if k < n && s[k] == 46 {
        let e1 = scan_digits(s, k + 1);
        if e1 == k + 1 {
            return None;
        }
        k2 = e1;
    } else {
        k2 = k;
    }
    if k2 < n && (s[k2] == 101 || s[k2] == 69) {
        let k3 = if k2 + 1 < n && (s[k2 + 1] == 43 || s[k2 + 1] == 45) { k2 + 2 } else { k2 + 1 };
        let e2 = scan_digits(s, k3);
        if e2 == k3 {
            return None;
        }
        Some(e2)
    } else {
        Some(k2)
    }
}

pub(crate) fn copy_range(s: &[u8], a: usize, b: usize) -> (v: Vec<u8>)
    requires
        a <= b <= s@.len(),
    ensures
        v@ == s@.subrange(a as int, b as int),
{
    let mut v: Vec<u8> = Vec::new();
    let mut j = a;
    while j < b
        invariant
            a <= j <= b <= s@.len(),
            v@ == s@.subrange(a as int, j as int),
        decreases b - j,
    {
        let ghost pre = v@;
        v.push(s[j]);
        j = j + 1;
        assert(v@ =~= s@.subrange(a as int, j as int));
    }
    assert(v@ =~= s@.subrange(a as int, b as int));
    v
}

// --- machine integers from number tokens ----------------------------------

/// The `i32` a number token names, if it is a plain integer in range:
/// no fraction, no exponent, value between the type's bounds.
pub open spec fn spec_parse_i32_lex(lex: Seq<u8>) -> Option<i32> {
    if exists|k: int| 0 <= k < lex.len() && (lex[k] == 46 || lex[k] == 101 || lex[k] == 69) {
        Option::None
    } else {
        let neg = lex.len() > 0 && lex[0] == 45;
        let start: int = if neg { 1 } else { 0 };
        if lex.len() <= start {
            Option::None
        } else if !(forall|k: int| start <= k < lex.len() ==> is_digit(lex[k])) {
            Option::None
        } else {
            let v = spec_digits_val(lex, start, lex.len() as int);
            let sv = if neg { -v } else { v };
            if -0x8000_0000 <= sv <= 0x7fff_ffff {
                Option::Some(sv as i32)
            } else {
                Option::None
            }
        }
    }
}

proof fn lemma_digits_val_mono(s: Seq<u8>, a: int, i: int, j: int)
    requires
        0 <= a <= i <= j <= s.len(),
        forall|k: int| a <= k < j ==> is_digit(s[k]),
    ensures
        spec_digits_val(s, a, j) >= spec_digits_val(s, a, i),
        spec_digits_val(s, a, i) >= 0,
    decreases j - i,
{
    crate::timestamp::lemma_digits_val_nonneg(s, a, i);
    if i < j {
        lemma_digits_val_mono(s, a, i, j - 1);
        crate::timestamp::lemma_digits_val_nonneg(s, a, j - 1);
    }
}

fn parse_i32_lex(lex: &[u8]) -> (r: Option<i32>)
    ensures
        r == spec_parse_i32_lex(lex@),
{
    let n = lex.len();
    let mut j: usize = 0;
    while j < n
        invariant
            j <= n == lex@.len(),
            forall|k: int| 0 <= k < j ==> !(lex@[k] == 46 || lex@[k] == 101 || lex@[k] == 69),
        decreases n - j,
    {
        if lex[j] == 46 || lex[j] == 101 || lex[j] == 69 {
            return None;
        }
        j = j + 1;
    }
    let neg = n > 0 && lex[0] == 45;
    let start: usize = if neg { 1 } else { 0 };
    if n <= start {
        return None;
    }
    let mut acc: u64 = 0;
    let mut i = start;
    while i < n
        invariant
            start <= i <= n == lex@.len(),
            start <= 1,
            n > start,
            neg == (n > 0 && lex@[0] == 45),
            start == if neg { 1int } else { 0int },
            forall|k: int| 0 <= k < n ==> !(lex@[k] == 46 || lex@[k] == 101 || lex@[k] == 69),
            forall|k: int| start <= k < i ==> is_digit(lex@[k]),
            acc == spec_digits_val(lex@, start as int, i as int),
            acc <= 0x8000_0000,
        decreases n - i,
    {
        if !(48 <= lex[i] && lex[i] <= 57) {
            return None;
        }
        acc = acc * 10 + ((lex[i] - 48) as u64);
        i = i + 1;
        assert(acc == spec_digits_val(lex@, start as int, i as int));
        if acc > 0x8000_0000 {
            proof {
                if forall|k: int| start <= k < n ==> is_digit(lex@[k]) {
                    lemma_digits_val_mono(lex@, start as int, i as int, n as int);
                }
            }
            return None;
        }
    }
    if neg {
        Some((-(acc as i64)) as i32)
    } else {
        if acc > 0x7fff_ffff {
            None
        } else {
            Some(acc as i32)
        }
    }
}

// --- literals -------------------------------------------------------------

pub open spec fn true_at(s: Seq<u8>, i: int) -> bool {
    0 <= i && i + 4 <= s.len() && s[i] == 116 && s[i + 1] == 114 && s[i + 2] == 117 && s[i + 3]
        == 101
}

pub open spec fn false_at(s: Seq<u8>, i: int) -> bool {
    0 <= i && i + 5 <= s.len() && s[i] == 102 && s[i + 1] == 97 && s[i + 2] == 108 && s[i + 3]
        == 115 && s[i + 4] == 101
}

pub open spec fn null_at(s: Seq<u8>, i: int) -> bool {
    0 <= i && i + 4 <= s.len() && s[i] == 110 && s[i + 1] == 117 && s[i + 2] == 108 && s[i + 3]
        == 108
}

fn is_true_at(s: &[u8], i: usize) -> (r: bool)
    requires
        i <= s@.len(),
    ensures
        r == true_at(s@, i as int),
{
    s.len() - i >= 4 && s[i] == 116 && s[i + 1] == 114 && s[i + 2] == 117 && s[i + 3] == 101
}

fn is_false_at(s: &[u8], i: usize) -> (r: bool)
    requires
        i <= s@.len(),
    ensures
        r == false_at(s@, i as int),
{
    s.len() - i >= 5 && s[i] == 102 && s[i + 1] == 97 && s[i + 2] == 108 && s[i + 3] == 115
        && s[i + 4] == 101
}

fn is_null_at(s: &[u8], i: usize) -> (r: bool)
    requires
        i <= s@.len(),
    ensures
        r == null_at(s@, i as int),
{
    s.len() - i >= 4 && s[i] == 110 && s[i + 1] == 117 && s[i + 2] == 108 && s[i + 3] == 108
}

// --- the field names ------------------------------------------------------

pub open spec fn key_battery_low() -> Seq<u8> {
    seq![98u8, 97, 116, 116, 101, 114, 121, 95, 108, 111, 119]
}

pub open spec fn key_battery() -> Seq<u8> {
    seq![98u8, 97, 116, 116, 101, 114, 121]
}

pub open spec fn key_humidity() -> Seq<u8> {
    seq![104u8, 117, 109, 105, 100, 105, 116, 121]
}

pub open spec fn key_illuminance() -> Seq<u8> {
    seq![105u8, 108, 108, 117, 109, 105, 110, 97, 110, 99, 101]
}

pub open spec fn key_last_seen() -> Seq<u8> {
    seq![108u8, 97, 115, 116, 95, 115, 101, 101, 110]
}

pub open spec fn key_occupancy() -> Seq<u8> {
    seq![111u8, 99, 99, 117, 112, 97, 110, 99, 121]
}

pub open spec fn key_pressure() -> Seq<u8> {
    seq![112u8, 114, 101, 115, 115, 117, 114, 101]
}

pub open spec fn key_temperature() -> Seq<u8> {
    seq![116u8, 101, 109, 112, 101, 114, 97, 116, 117, 114, 101]
}

pub open spec fn key_voltage() -> Seq<u8> {
    seq![118u8, 111, 108, 116, 97, 103, 101]
}

pub open spec fn key_water_leak() -> Seq<u8> {
    seq![119u8, 97, 116, 101, 114, 95, 108, 101, 97, 107]
}

/// The schema position a member name selects, or `KUnknown` for any
/// name outside the schema, whose value is skipped.
#[derive(Clone, Copy, Debug, PartialEq, Eq, Structural)]
pub enum FieldKey {
    KBatteryLow,
    KBattery,
    KHumidity,
    KIlluminance,
    KLastSeen,
    KOccupancy,
    KPressure,
    KTemperature,
    KVoltage,
    KWaterLeak,
    KUnknown,
}

pub open spec fn spec_key_code(key: Seq<u8>) -> FieldKey {
    if key == key_battery_low() {
        FieldKey::KBatteryLow
    } else if key == key_battery() {
        FieldKey::KBattery
    } else if key == key_humidity() {
        FieldKey::KHumidity
    } else if key == key_illuminance() {
        FieldKey::KIlluminance
    } else if key == key_last_seen() {
        FieldKey::KLastSeen
    } else if key == key_occupancy() {
        FieldKey::KOccupancy
    } else if key == key_pressure() {
        FieldKey::KPressure
    } else if key == key_temperature() {
        FieldKey::KTemperature
    } else if key == key_voltage() {
        FieldKey::KVoltage
    } else if key == key_water_leak() {
        FieldKey::KWaterLeak
    } else {
        FieldKey::KUnknown
    }
}

pub(crate) fn bytes_eq(a: &[u8], b: &[u8]) -> (r: bool)
    ensures
        r == (a@ == b@),
{
    if a.len() != b.len() {
        return false;
    }
    let n = a.len();
    let mut i: usize = 0;
    while i < n
        invariant
            i <= n == a@.len() && n == b@.len(),
            forall|j: int| 0 <= j < i ==> a@[j] == b@[j],
        decreases n - i,
    {
        if a[i] != b[i] {
            return false;
        }
        i = i + 1;
    }
    proof {
        assert(a@ =~= b@);
    }
    true
}

fn key_code(key: &[u8]) -> (c: FieldKey)
    ensures
        c == spec_key_code(key@),
{
    let mut lit: Vec<u8> = Vec::new();
    lit.push(98); lit.push(97); lit.push(116); lit.push(116); lit.push(101); lit.push(114);
    lit.push(121); lit.push(95); lit.push(108); lit.push(111); lit.push(119);
    assert(lit@ =~= key_battery_low());
    if bytes_eq(key, lit.as_slice()) {
        return FieldKey::KBatteryLow;
    }
    let mut lit: Vec<u8> = Vec::new();
    lit.push(98); lit.push(97); lit.push(116); lit.push(116); lit.push(101); lit.push(114);
    lit.push(121);
    assert(lit@ =~= key_battery());
    if bytes_eq(key, lit.as_slice()) {
        return FieldKey::KBattery;
    }
    let mut lit: Vec<u8> = Vec::new();
    lit.push(104); lit.push(117); lit.push(109); lit.push(105); lit.push(100); lit.push(105);
    lit.push(116); lit.push(121);
    assert(lit@ =~= key_humidity());
    if bytes_eq(key, lit.as_slice()) {
        return FieldKey::KHumidity;
    }
    let mut lit: Vec<u8> = Vec::new();
    lit.push(105); lit.push(108); lit.push(108); lit.push(117); lit.push(109); lit.push(105);
    lit.push(110); lit.push(97); lit.push(110); lit.push(99); lit.push(101);
    assert(lit@ =~= key_illuminance());
    if bytes_eq(key, lit.as_slice()) {
        return FieldKey::KIlluminance;
    }
    let mut lit: Vec<u8> = Vec::new();
    lit.push(108); lit.push(97); lit.push(115); lit.push(116); lit.push(95); lit.push(115);
    lit.push(101); lit.push(101); lit.push(110);
    assert(lit@ =~= key_last_seen());
    if bytes_eq(key, lit.as_slice()) {
        return FieldKey::KLastSeen;
    }
    let mut lit: Vec<u8> = Vec::new();
    lit.push(111); lit.push(99); lit.push(99); lit.push(117); lit.push(112); lit.push(97);
    lit.push(110); lit.push(99); lit.push(121);
    assert(lit@ =~= key_occupancy());
    if bytes_eq(key, lit.as_slice()) {
        return FieldKey::KOccupancy;
    }
    let mut lit: Vec<u8> = Vec::new();
    lit.push(112); lit.push(114); lit.push(101); lit.push(115); lit.push(115); lit.push(117);
    lit.push(114); lit.push(101);
    assert(lit@ =~= key_pressure());
    if bytes_eq(key, lit.as_slice()) {
        return FieldKey::KPressure;
    }
    let mut lit: Vec<u8> = Vec::new();
    lit.push(116); lit.push(101); lit.push(109); lit.push(112); lit.push(101); lit.push(114);
    lit.push(97); lit.push(116); lit.push(117); lit.push(114); lit.push(101);
    assert(lit@ =~= key_temperature());
    if bytes_eq(key, lit.as_slice()) {
        return FieldKey::KTemperature;
    }
    let mut lit: Vec<u8> = Vec::new();
    lit.push(118); lit.push(111); lit.push(108); lit.push(116); lit.push(97); lit.push(103);
    lit.push(101);
    assert(lit@ =~= key_voltage());
    if bytes_eq(key, lit.as_slice()) {
        return FieldKey::KVoltage;
    }
    let mut lit: Vec<u8> = Vec::new();
    lit.push(119); lit.push(97); lit.push(116); lit.push(101); lit.push(114); lit.push(95);
    lit.push(108); lit.push(101); lit.push(97); lit.push(107);
    assert(lit@ =~= key_water_leak());
    if bytes_eq(key, lit.as_slice()) {
        return FieldKey::KWaterLeak;
    }
    FieldKey::KUnknown
}

// --- typed member values --------------------------------------------------

/// A member value for a flag field: `true`, `false`, or `null`.
pub open spec fn spec_parse_opt_bool(s: Seq<u8>, i: int) -> Option<(Option<bool>, int)> {
    if true_at(s, i) {
        Option::Some((Option::Some(true), i + 4))
    } else if false_at(s, i) {
        Option::Some((Option::Some(false), i + 5))
    } else if null_at(s, i) {
        Option::Some((Option::None, i + 4))
    } else {
        Option::None
    }
}

/// A member value for a decimal field: a number token or `null`.
pub open spec fn spec_parse_opt_number(s: Seq<u8>, i: int) -> Option<(Option<Seq<u8>>, int)> {
    if null_at(s, i) {
        Option::Some((Option::None, i + 4))
    } else {
        match spec_number_end(s, i) {
            Option::None => Option::None,
            Option::Some(e) => Option::Some((Option::Some(s.subrange(i, e)), e)),
        }
    }
}

/// A member value for a machine-integer field: a plain in-range
/// integer token or `null`.
pub open spec fn spec_parse_opt_i32(s: Seq<u8>, i: int) -> Option<(Option<i32>, int)> {
    if null_at(s, i) {
        Option::Some((Option::None, i + 4))
    } else {
        match spec_number_end(s, i) {
            Option::None => Option::None,
            Option::Some(e) => match spec_parse_i32_lex(s.subrange(i, e)) {
                Option::None => Option::None,
                Option::Some(v) => Option::Some((Option::Some(v), e)),
            },
        }
    }
}

/// A member value for a text field: a string or `null`.
pub open spec fn spec_parse_opt_string(s: Seq<u8>, i: int) -> Option<(Option<Seq<u8>>, int)> {
    if null_at(s, i) {
        Option::Some((Option::None, i + 4))
    } else if 0 <= i < s.len() && s[i] == 34 {
        match spec_string_body(s, i + 1, Seq::<u8>::empty()) {
            Option::None => Option::None,
            Option::Some(p) => Option::Some((Option::Some(p.0), p.1)),
        }
    } else {
        Option::None
    }
}

fn parse_opt_bool(s: &[u8], i: usize) -> (r: Option<(Option<bool>, usize)>)
    requires
        i <= s@.len(),
    ensures
        match spec_parse_opt_bool(s@, i as int) {
            Option::None => r is None,
            Option::Some(p) => r is Some && r->Some_0.0 == p.0 && r->Some_0.1 == p.1 && i < p.1
                <= s@.len(),
        },
{
    let n = s.len();
    assert(n == s@.len());
    if is_true_at(s, i) {
        Some((Some(true), i + 4))
    } else if is_false_at(s, i) {
        Some((Some(false), i + 5))
    } else if is_null_at(s, i) {
        Some((None, i + 4))
    } else {
        None
    }
}

fn parse_opt_number(s: &[u8], i: usize) -> (r: Option<(Option<Vec<u8>>, usize)>)
    requires
        i <= s@.len(),
    ensures
        match spec_parse_opt_number(s@, i as int) {
            Option::None => r is None,
            Option::Some(p) => r is Some && crate::reading::view_opt_bytes(r->Some_0.0) == p.0
                && r->Some_0.1 == p.1 && i < p.1 <= s@.len(),
        },
{
    let n = s.len();
    assert(n == s@.len());
    if is_null_at(s, i) {
        Some((None, i + 4))
    } else {
        match number_end(s, i) {
            None => None,
            Some(e) => {
                let lex = copy_range(s, i, e);
                Some((Some(lex), e))
            },
        }
    }
}

fn parse_opt_i32(s: &[u8], i: usize) -> (r: Option<(Option<i32>, usize)>)
    requires
        i <= s@.len(),
    ensures
        match spec_parse_opt_i32(s@, i as int) {
            Option::None => r is None,
            Option::Some(p) => r is Some && r->Some_0.0 == p.0 && r->Some_0.1 == p.1 && i < p.1
                <= s@.len(),
        },
{
    let n = s.len();
    assert(n == s@.len());
    if is_null_at(s, i) {
        Some((None, i + 4))
    } else {
        match number_end(s, i) {
            None => None,
            Some(e) => {
                let lex = copy_range(s, i, e);
                match parse_i32_lex(lex.as_slice()) {
                    None => None,
                    Some(v) => Some((Some(v), e)),
                }
            },
        }
    }
}

fn parse_opt_string(s: &[u8], i: usize) -> (r: Option<(Option<Vec<u8>>, usize)>)
    requires
        i <= s@.len(),
    ensures
        match spec_parse_opt_string(s@, i as int) {
            Option::None => r is None,
            Option::Some(p) => r is Some && crate::reading::view_opt_bytes(r->Some_0.0) == p.0
                && r->Some_0.1 == p.1 && i < p.1 <= s@.len(),
        },
{
    let n = s.len();
    assert(n == s@.len());
    if is_null_at(s, i) {
        Some((None, i + 4))
    } else if i < s.len() && s[i] == 34 {
        match parse_string_body(s, i + 1) {
            None => None,
            Some((c, e)) => Some((Some(c), e)),
        }
    } else {
        None
    }
}

// --- applying one member to the reading -----------------------------------

/// The reading and seen-set after the member named `key`, whose value
/// begins at `i`, is applied: nothing when the value has the wrong
/// shape for the field or the field was already seen.
pub open spec fn spec_field_update(
    s: Seq<u8>,
    i: int,
    key: Seq<u8>,
    rv: ReadingV,
    seen: FieldsSeen,
) -> Option<(ReadingV, FieldsSeen, int)> {
    let code = spec_key_code(key);
    if code == FieldKey::KTemperature {
        if seen.temperature {
            Option::None
        } else {
            match spec_parse_opt_number(s, i) {
                Option::None => Option::None,
                Option::Some(p) => Option::Some(
                    (
                        ReadingV { temperature: p.0, ..rv },
                        FieldsSeen { temperature: true, ..seen },
                        p.1,
                    ),
                ),
            }
        }
    } else if code == FieldKey::KHumidity {
        if seen.humidity {
            Option::None
        } else {
            match spec_parse_opt_number(s, i) {
                Option::None => Option::None,
                Option::Some(p) => Option::Some(
                    (ReadingV { humidity: p.0, ..rv }, FieldsSeen { humidity: true, ..seen }, p.1),
                ),
            }
        }
    } else if code == FieldKey::KBattery {
        if seen.battery {
            Option::None
        } else {
            match spec_parse_opt_number(s, i) {
                Option::None => Option::None,
                Option::Some(p) => Option::Some(
                    (ReadingV { battery: p.0, ..rv }, FieldsSeen { battery: true, ..seen }, p.1),
                ),
            }
        }
    } else if code == FieldKey::KPressure {
        if seen.pressure {
            Option::None
        } else {
            match spec_parse_opt_number(s, i) {
                Option::None => Option::None,
                Option::Some(p) => Option::Some(
                    (ReadingV { pressure: p.0, ..rv }, FieldsSeen { pressure: true, ..seen }, p.1),
                ),
            }
        }
    } else if code == FieldKey::KOccupancy {
        if seen.occupancy {
            Option::None
        } else {
            match spec_parse_opt_bool(s, i) {
                Option::None => Option::None,
                Option::Some(p) => Option::Some(
                    (
                        ReadingV { occupancy: p.0, ..rv },
                        FieldsSeen { occupancy: true, ..seen },
                        p.1,
                    ),
                ),
            }
        }
    } else if code == FieldKey::KBatteryLow {
        if seen.battery_low {
            Option::None
        } else {
            match spec_parse_opt_bool(s, i) {
                Option::None => Option::None,
                Option::Some(p) => Option::Some(
                    (
                        ReadingV { battery_low: p.0, ..rv },
                        FieldsSeen { battery_low: true, ..seen },
                        p.1,
                    ),
                ),
            }
        }
    } else if code == FieldKey::KWaterLeak {
        if seen.water_leak {
            Option::None
        } else {
            match spec_parse_opt_bool(s, i) {
                Option::None => Option::None,
                Option::Some(p) => Option::Some(
                    (
                        ReadingV { water_leak: p.0, ..rv },
                        FieldsSeen { water_leak: true, ..seen },
                        p.1,
                    ),
                ),
            }
        }
    } else if code == FieldKey::KIlluminance {
        if seen.illuminance {
            Option::None
        } else {
            match spec_parse_opt_i32(s, i) {
                Option::None => Option::None,
                Option::Some(p) => Option::Some(
                    (
                        ReadingV { illuminance: p.0, ..rv },
                        FieldsSeen { illuminance: true, ..seen },
                        p.1,
                    ),
                ),
            }
        }
    } else if code == FieldKey::KVoltage {
        if seen.voltage {
            Option::None
        } else {
            match spec_parse_opt_i32(s, i) {
                Option::None => Option::None,
                Option::Some(p) => Option::Some(
                    (ReadingV { voltage: p.0, ..rv }, FieldsSeen { voltage: true, ..seen }, p.1),
                ),
            }
        }
    } else if code == FieldKey::KLastSeen {
        if seen.last_seen {
            Option::None
        } else {
            match spec_parse_opt_string(s, i) {
                Option::None => Option::None,
                Option::Some(p) => Option::Some(
                    (
                        ReadingV { last_seen: p.0, ..rv },
                        FieldsSeen { last_seen: true, ..seen },
                        p.1,
                    ),
                ),
            }
        }
    } else {
        Option::None
    }
}

fn apply_field(
    s: &[u8],
    i: usize,
    code: FieldKey,
    key: &[u8],
    rd: SensorReading,
    seen: FieldsSeen,
) -> (r: Option<(SensorReading, FieldsSeen, usize)>)
    requires
        i <= s@.len(),
        code == spec_key_code(key@),
        code != FieldKey::KUnknown,
    ensures
        match spec_field_update(s@, i as int, key@, rd@, seen) {
            Option::None => r is None,
            Option::Some(p) => r is Some && r->Some_0.0@ == p.0 && r->Some_0.1 == p.1
                && r->Some_0.2 == p.2 && i < p.2 <= s@.len(),
        },
{
    match code {
        FieldKey::KTemperature => {
            if seen.temperature {
                return None;
            }
            match parse_opt_number(s, i) {
                None => None,
                Some((v, e)) => {
                    let nv = match v {
                        Some(lex) => Some(NumberLit { text: lex }),
                        None => None,
                    };
                    Some((
                        SensorReading { temperature: nv, ..rd },
                        FieldsSeen { temperature: true, ..seen },
                        e,
                    ))
                },
            }
        },
        FieldKey::KHumidity => {
            if seen.humidity {
                return None;
            }
            match parse_opt_number(s, i) {
                None => None,
                Some((v, e)) => {
                    let nv = match v {
                        Some(lex) => Some(NumberLit { text: lex }),
                        None => None,
                    };
                    Some((
                        SensorReading { humidity: nv, ..rd },
                        FieldsSeen { humidity: true, ..seen },
                        e,
                    ))
                },
            }
        },
        FieldKey::KBattery => {
            if seen.battery {
                return None;
            }
            match parse_opt_number(s, i) {
                None => None,
                Some((v, e)) => {
                    let nv = match v {
                        Some(lex) => Some(NumberLit { text: lex }),
                        None => None,
                    };
                    Some((
                        SensorReading { battery: nv, ..rd },
                        FieldsSeen { battery: true, ..seen },
                        e,
                    ))
                },
            }
        },
        FieldKey::KPressure => {
            if seen.pressure {
                return None;
            }
            match parse_opt_number(s, i) {
                None => None,
                Some((v, e)) => {
                    let nv = match v {
                        Some(lex) => Some(NumberLit { text: lex }),
                        None => None,
                    };
                    Some((
                        SensorReading { pressure: nv, ..rd },
                        FieldsSeen { pressure: true, ..seen },
                        e,
                    ))
                },
            }
        },
        FieldKey::KOccupancy => {
            if seen.occupancy {
                return None;
            }
            match parse_opt_bool(s, i) {
                None => None,
                Some((v, e)) => Some((
                    SensorReading { occupancy: v, ..rd },
                    FieldsSeen { occupancy: true, ..seen },
                    e,
                )),
            }
        },
        FieldKey::KBatteryLow => {
            if seen.battery_low {
                return None;
            }
            match parse_opt_bool(s, i) {
                None => None,
                Some((v, e)) => Some((
                    SensorReading { battery_low: v, ..rd },
                    FieldsSeen { battery_low: true, ..seen },
                    e,
                )),
            }
        },
        FieldKey::KWaterLeak => {
            if seen.water_leak {
                return None;
            }
            match parse_opt_bool(s, i) {
                None => None,
                Some((v, e)) => Some((
                    SensorReading { water_leak: v, ..rd },
                    FieldsSeen { water_leak: true, ..seen },
                    e,
                )),
            }
        },
        FieldKey::KIlluminance => {
            if seen.illuminance {
                return None;
            }
            match parse_opt_i32(s, i) {
                None => None,
                Some((v, e)) => Some((
                    SensorReading { illuminance: v, ..rd },
                    FieldsSeen { illuminance: true, ..seen },
                    e,
                )),
            }
        },
        FieldKey::KVoltage => {
            if seen.voltage {
                return None;
            }
            match parse_opt_i32(s, i) {
                None => None,
                Some((v, e)) => Some((
                    SensorReading { voltage: v, ..rd },
                    FieldsSeen { voltage: true, ..seen },
                    e,
                )),
            }
        },
        FieldKey::KLastSeen => {
            if seen.last_seen {
                return None;
            }
            match parse_opt_string(s, i) {
                None => None,
                Some((v, e)) => Some((
                    SensorReading { last_seen: v, ..rd },
                    FieldsSeen { last_seen: true, ..seen },
                    e,
                )),
            }
        },
        FieldKey::KUnknown => None,
    }
}

// --- skipping unknown values ----------------------------------------------

/// The index just past the value beginning at `i`, whatever its kind.
/// `fuel` falls on every recursive step and `depth` on every nested
/// container; either running out refuses the text.
pub open spec fn spec_skip_value(s: Seq<u8>, i: int, fuel: int, depth: int) -> Option<int>
    decreases fuel,
{
    if fuel <= 0 {
        Option::None
    } else if i < 0 || i >= s.len() {
        Option::None
    } else {
        let b = s[i];
        if b == 34 {
            match spec_string_body(s, i + 1, Seq::<u8>::empty()) {
                Option::None => Option::None,
                Option::Some(p) => Option::Some(p.1),
            }
        } else if b == 45 || is_digit(b) {
            spec_number_end(s, i)
        } else if true_at(s, i) {
            Option::Some(i + 4)
        } else if false_at(s, i) {
            Option::Some(i + 5)
        } else if null_at(s, i) {
            Option::Some(i + 4)
        } else if b == 123 {
            if depth <= 0 {
                Option::None
            } else {
                let k = spec_skip_ws(s, i + 1);
                if k < s.len() && s[k] == 125 {
                    Option::Some(k + 1)
                } else {
                    spec_skip_members(s, i + 1, fuel - 1, depth - 1)
                }
            }
        } else if b == 91 {
            if depth <= 0 {
                Option::None
            } else {
                let k = spec_skip_ws(s, i + 1);
                if k < s.len() && s[k] == 93 {
                    Option::Some(k + 1)
                } else {
                    spec_skip_elements(s, i + 1, fuel - 1, depth - 1)
                }
            }
        } else {
            Option::None
        }
    }
}

/// The index just past the `}` that closes the members beginning at
/// `i`, which stands just after a `{` or a `,`.
pub open spec fn spec_skip_members(s: Seq<u8>, i: int, fuel: int, depth: int) -> Option<int>
    decreases fuel,
{
    if fuel <= 0 {
        Option::None
    } else {
        let k0 = spec_skip_ws(s, i);
        if !(k0 < s.len() && s[k0] == 34) {
            Option::None
        } else {
            match spec_string_body(s, k0 + 1, Seq::<u8>::empty()) {
                Option::None => Option::None,
                Option::Some(key) => {
                    let k2 = spec_skip_ws(s, key.1);
                    if !(k2 < s.len() && s[k2] == 58) {
                        Option::None
                    } else {
                        match spec_skip_value(s, spec_skip_ws(s, k2 + 1), fuel - 1, depth) {
                            Option::None => Option::None,
                            Option::Some(k4) => {
                                let k5 = spec_skip_ws(s, k4);
                                if k5 < s.len() && s[k5] == 44 {
                                    spec_skip_members(s, k5 + 1, fuel - 1, depth)
                                } else if k5 < s.len() && s[k5] == 125 {
                                    Option::Some(k5 + 1)
                                } else {
                                    Option::None
                                }
                            },
                        }
                    }
                },
            }
        }
    }
}

/// The index just past the `]` that closes the elements beginning at
/// `i`, which stands just after a `[` or a `,`.
pub open spec fn spec_skip_elements(s: Seq<u8>, i: int, fuel: int, depth: int) -> Option<int>
    decreases fuel,
{
    if fuel <= 0 {
        Option::None
    } else {
        match spec_skip_value(s, spec_skip_ws(s, i), fuel - 1, depth) {
            Option::None => Option::None,
            Option::Some(k1) => {
                let k2 = spec_skip_ws(s, k1);
                if k2 < s.len() && s[k2] == 44 {
                    spec_skip_elements(s, k2 + 1, fuel - 1, depth)
                } else if k2 < s.len() && s[k2] == 93 {
                    Option::Some(k2 + 1)
                } else {
                    Option::None
                }
            },
        }
    }
}

fn skip_value(s: &[u8], i: usize, fuel: u64, depth: u64) -> (r: Option<usize>)
    requires
        i <= s@.len(),
    ensures
        match spec_skip_value(s@, i as int, fuel as int, depth as int) {
            Option::None => r is None,
            Option::Some(e) => r is Some && r->Some_0 == e && i < e <= s@.len(),
        },
    decreases fuel,
{
    let n = s.len();
    if fuel == 0 {
        return None;
    }
    if i >= n {
        return None;
    }
    let b = s[i];
    if b == 34 {
        match parse_string_body(s, i + 1) {
            None => None,
            Some((_c, e)) => Some(e),
        }
    } else if b == 45 || (48 <= b && b <= 57) {
        number_end(s, i)
    } else if is_true_at(s, i) {
        Some(i + 4)
    } else if is_false_at(s, i) {
        Some(i + 5)
    } else if is_null_at(s, i) {
        Some(i + 4)
    } else if b == 123 {
        if depth == 0 {
            return None;
        }
        let k = skip_ws(s, i + 1);
        if k < n && s[k] == 125 {
            Some(k + 1)
        } else {
            skip_members(s, i + 1, fuel - 1, depth - 1)
        }
    } else if b == 91 {
        if depth == 0 {
            return None;
        }
        let k = skip_ws(s, i + 1);
        if k < n && s[k] == 93 {
            Some(k + 1)
        } else {
            skip_elements(s, i + 1, fuel - 1, depth - 1)
        }
    } else {
        None
    }
}

fn skip_members(s: &[u8], i: usize, fuel: u64, depth: u64) -> (r: Option<usize>)
    requires
        i <= s@.len(),
    ensures
        match spec_skip_members(s@, i as int, fuel as int, depth as int) {
            Option::None => r is None,
            Option::Some(e) => r is Some && r->Some_0 == e && i < e <= s@.len(),
        },
    decreases fuel, 1int,
{
    let n = s.len();
    let mut j = i;
    let mut f = fuel;
    loop
        invariant
            j <= n == s@.len(),
            i <= j,
            f <= fuel,
            spec_skip_members(s@, i as int, fuel as int, depth as int) == spec_skip_members(
                s@,
                j as int,
                f as int,
                depth as int,
            ),
        decreases f,
    {
        if f == 0 {
            return None;
        }
        let k0 = skip_ws(s, j);
        if !(k0 < n && s[k0] == 34) {
            return None;
        }
        let k1 = match parse_string_body(s, k0 + 1) {
            None => { return None; },
            Some((_key, e)) => e,
        };
        let k2 = skip_ws(s, k1);
        if !(k2 < n && s[k2] == 58) {
            return None;
        }
        let k3 = skip_ws(s, k2 + 1);
        let k4 = match skip_value(s, k3, f - 1, depth) {
            None => { return None; },
            Some(e) => e,
        };
        let k5 = skip_ws(s, k4);
        if k5 < n && s[k5] == 44 {
            j = k5 + 1;
            f = f - 1;
        } else if k5 < n && s[k5] == 125 {
            return Some(k5 + 1);
        } else {
            return None;
        }
    }
}

fn skip_elements(s: &[u8], i: usize, fuel: u64, depth: u64) -> (r: Option<usize>)
    requires
        i <= s@.len(),
    ensures
        match spec_skip_elements(s@, i as int, fuel as int, depth as int) {
            Option::None => r is None,
            Option::Some(e) => r is Some && r->Some_0 == e && i < e <= s@.len(),
        },
    decreases fuel, 1int,
{
    let n = s.len();
    let mut j = i;
    let mut f = fuel;
    loop
        invariant
            j <= n == s@.len(),
            i <= j,
            f <= fuel,
            spec_skip_elements(s@, i as int, fuel as int, depth as int) == spec_skip_elements(
                s@,
                j as int,
                f as int,
                depth as int,
            ),
        decreases f,
    {
        if f == 0 {
            return None;
        }
        let k0 = skip_ws(s, j);
        let k1 = match skip_value(s, k0, f - 1, depth) {
            None => { return None; },
            Some(e) => e,
        };
        let k2 = skip_ws(s, k1);
        if k2 < n && s[k2] == 44 {
            j = k2 + 1;
            f = f - 1;
        } else if k2 < n && s[k2] == 93 {
            return Some(k2 + 1);
        } else {
            return None;
        }
    }
}

// --- the object itself ----------------------------------------------------

/// How many nested containers a payload may hold.
pub open spec fn spec_depth_limit() -> int {
    128
}

/// The fuel that suffices for any payload of length `n`: one unit per
/// consumed byte and a margin, capped at the machine word.
pub open spec fn spec_init_fuel(n: int) -> int {
    if n + 2 > 0xffff_ffff_ffff_ffff {
        0xffff_ffff_ffff_ffff
    } else {
        n + 2
    }
}

fn init_fuel(n: usize) -> (r: u64)
    ensures
        r == spec_init_fuel(n as int),
{
    if (n as u64) > 0xffff_ffff_ffff_fffd {
        0xffff_ffff_ffff_ffff
    } else {
        (n as u64) + 2
    }
}

/// The reading named by the members beginning at `i`, which stands
/// just after the object's `{` or a `,`, together with the index just
/// past the closing `}`.
pub open spec fn spec_parse_members(
    s: Seq<u8>,
    i: int,
    fuel: int,
    rv: ReadingV,
    seen: FieldsSeen,
) -> Option<(ReadingV, int)>
    decreases fuel,
{
    if fuel <= 0 {
        Option::None
    } else {
        let k0 = spec_skip_ws(s, i);
        if !(k0 < s.len() && s[k0] == 34) {
            Option::None
        } else {
            match spec_string_body(s, k0 + 1, Seq::<u8>::empty()) {
                Option::None => Option::None,
                Option::Some(key) => {
                    let k2 = spec_skip_ws(s, key.1);
                    if !(k2 < s.len() && s[k2] == 58) {
                        Option::None
                    } else {
                        let k3 = spec_skip_ws(s, k2 + 1);
                        let step = if spec_key_code(key.0) == FieldKey::KUnknown {
                            match spec_skip_value(s, k3, fuel - 1, spec_depth_limit() - 1) {
                                Option::None => Option::None,
                                Option::Some(e) => Option::Some((rv, seen, e)),
                            }
                        } else {
                            spec_field_update(s, k3, key.0, rv, seen)
                        };
                        match step {
                            Option::None => Option::None,
                            Option::Some(st) => {
                                let k5 = spec_skip_ws(s, st.2);
                                if k5 < s.len() && s[k5] == 44 {
                                    spec_parse_members(s, k5 + 1, fuel - 1, st.0, st.1)
                                } else if k5 < s.len() && s[k5] == 125 {
                                    Option::Some((st.0, k5 + 1))
                                } else {
                                    Option::None
                                }
                            },
                        }
                    }
                },
            }
        }
    }
}

/// The reading a payload names, or the classified decode failure:
/// not UTF-8 text, or not one object of the schema's shape, with
/// whitespace only around it.
pub open spec fn spec_decode(s: Seq<u8>) -> Result<ReadingV, DecodeError> {
    if !valid_utf8(s) {
        Result::Err(DecodeError::InvalidEncoding)
    } else {
        let i0 = spec_skip_ws(s, 0);
        if !(i0 < s.len() && s[i0] == 123) {
            Result::Err(DecodeError::MalformedPayload)
        } else {
            let k = spec_skip_ws(s, i0 + 1);
            if k < s.len() && s[k] == 125 {
                if spec_skip_ws(s, k + 1) == s.len() {
                    Result::Ok(empty_reading())
                } else {
                    Result::Err(DecodeError::MalformedPayload)
                }
            } else {
                match spec_parse_members(
                    s,
                    i0 + 1,
                    spec_init_fuel(s.len() as int),
                    empty_reading(),
                    no_fields_seen(),
                ) {
                    Option::None => Result::Err(DecodeError::MalformedPayload),
                    Option::Some(p) => {
                        if spec_skip_ws(s, p.1) == s.len() {
                            Result::Ok(p.0)
                        } else {
                            Result::Err(DecodeError::MalformedPayload)
                        }
                    },
                }
            }
        }
    }
}

/// Decode a payload into a sensor reading, exactly as `spec_decode`
/// says: `InvalidEncoding` for bytes that are not UTF-8,
/// `MalformedPayload` for text that is not an object of the schema's
/// shape, and otherwise the reading with each present field bound.
pub fn decode(payload: &[u8]) -> (r: Result<SensorReading, DecodeError>)
    ensures
        match spec_decode(payload@) {
            Result::Ok(rv) => r is Ok && r->Ok_0@ == rv,
            Result::Err(e) => r is Err && r->Err_0 == e,
        },
{
    if !check_utf8(payload) {
        return Err(DecodeError::InvalidEncoding);
    }
    let n = payload.len();
    let i0 = skip_ws(payload, 0);
    if !(i0 < n && payload[i0] == 123) {
        return Err(DecodeError::MalformedPayload);
    }
    let k = skip_ws(payload, i0 + 1);
    if k < n && payload[k] == 125 {
        if skip_ws(payload, k + 1) == n {
            return Ok(SensorReading::empty());
        } else {
            return Err(DecodeError::MalformedPayload);
        }
    }
    let mut rd = SensorReading::empty();
    let mut seen = FieldsSeen::none();
    let mut i = i0 + 1;
    let mut fuel = init_fuel(n);
    let ghost fuel0 = fuel as int;
    let ghost start = i as int;
    loop
        invariant
            i <= n == payload@.len(),
            fuel <= fuel0,
            fuel0 == spec_init_fuel(n as int),
            start == i0 as int + 1,
            i0 as int == spec_skip_ws(payload@, 0),
            i0 < n && payload@[i0 as int] == 123,
            !(spec_skip_ws(payload@, start) < n && payload@[spec_skip_ws(payload@, start)]
                == 125),
            valid_utf8(payload@),
            spec_parse_members(payload@, start, fuel0, empty_reading(), no_fields_seen())
                == spec_parse_members(payload@, i as int, fuel as int, rd@, seen),
        decreases fuel,
    {
        if fuel == 0 {
            return Err(DecodeError::MalformedPayload);
        }
        let k0 = skip_ws(payload, i);
        if !(k0 < n && payload[k0] == 34) {
            return Err(DecodeError::MalformedPayload);
        }
        let (key, k1) = match parse_string_body(payload, k0 + 1) {
            None => { return Err(DecodeError::MalformedPayload); },
            Some(p) => p,
        };
        let k2 = skip_ws(payload, k1);
        if !(k2 < n && payload[k2] == 58) {
            return Err(DecodeError::MalformedPayload);
        }
        let k3 = skip_ws(payload, k2 + 1);
        let code = key_code(key.as_slice());
        let k4: usize;
        if code == FieldKey::KUnknown {
            match skip_value(payload, k3, fuel - 1, 127) {
                None => { return Err(DecodeError::MalformedPayload); },
                Some(e) => { k4 = e; },
            }
        } else {
            match apply_field(payload, k3, code, key.as_slice(), rd, seen) {
                None => { return Err(DecodeError::MalformedPayload); },
                Some((rd2, seen2, e)) => {
                    rd = rd2;
                    seen = seen2;
                    k4 = e;
                },
            }
        }
        let k5 = skip_ws(payload, k4);
        if k5 < n && payload[k5] == 44 {
            i = k5 + 1;
            fuel = fuel - 1;
        } else if k5 < n && payload[k5] == 125 {
            if skip_ws(payload, k5 + 1) == n {
                return Ok(rd);
            } else {
                return Err(DecodeError::MalformedPayload);
            }
        } else {
            return Err(DecodeError::MalformedPayload);
        }
    }
}

} // verus!
