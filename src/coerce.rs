use vstd::prelude::*;

use crate::value::{Tree, Value};

verus! {

/// 256 to the power `n`.
pub open spec fn pow256(n: nat) -> int
    decreases n,
{
    if n == 0 {
        1
    } else {
        256 * pow256((n - 1) as nat)
    }
}

/// The unsigned integer that `b` encodes, least significant byte first.
pub open spec fn le_value(b: Seq<u8>) -> int
    decreases b.len(),
{
    if b.len() == 0 {
        0
    } else {
        b[0] + 256 * le_value(b.drop_first())
    }
}

/// The value of the digit `c` in `radix` (10 or 16), or -1.
pub open spec fn digit_of(c: u8, radix: int) -> int {
    if 48 <= c <= 57 {
        c - 48
    } else if radix == 16 && 97 <= c <= 102 {
        c - 87
    } else if radix == 16 && 65 <= c <= 70 {
        c - 55
    } else {
        -1
    }
}

pub open spec fn digits_valid(s: Seq<u8>, radix: int) -> bool {
    forall|i: int| 0 <= i < s.len() ==> digit_of(#[trigger] s[i], radix) >= 0
}

/// The number that the digits `s` write in `radix`, most significant first.
pub open spec fn digits_value(s: Seq<u8>, radix: int) -> int
    decreases s.len(),
{
    if s.len() == 0 {
        0
    } else {
        digits_value(s.drop_last(), radix) * radix + digit_of(s.last(), radix)
    }
}

/// The number that the text `s` writes in `radix`: an optional `+` (or `-`
/// where `signed`), then one or more digits. No range is checked.
pub open spec fn parse_int(s: Seq<u8>, radix: int, signed: bool) -> Option<int> {
    if s.len() == 0 {
        None
    } else {
        let neg = signed && s[0] == 45;
        let sign = s[0] == 43 || neg;
        let digits = if sign {
            s.drop_first()
        } else {
            s
        };
        if digits.len() == 0 || !digits_valid(digits, radix) {
            None
        } else if neg {
            Some(-digits_value(digits, radix))
        } else {
            Some(digits_value(digits, radix))
        }
    }
}

/// The `i64` that the text `s` writes in `radix`, if it fits.
pub open spec fn parse_i64(s: Seq<u8>, radix: int) -> Option<int> {
    match parse_int(s, radix, true) {
        Some(v) => if i64::MIN <= v <= i64::MAX {
            Some(v)
        } else {
            None
        },
        None => None,
    }
}

/// The `u64` that the text `s` writes in `radix`, if it fits.
pub open spec fn parse_u64(s: Seq<u8>, radix: int) -> Option<int> {
    match parse_int(s, radix, false) {
        Some(v) => if 0 <= v <= u64::MAX {
            Some(v)
        } else {
            None
        },
        None => None,
    }
}

pub open spec fn ascii_lower(c: u8) -> u8 {
    if 65 <= c <= 90 {
        (c + 32) as u8
    } else {
        c
    }
}

/// Whether the text `s` equals the lower-case ASCII word `w`, ignoring case.
pub open spec fn matches_word(s: Seq<u8>, w: Seq<u8>) -> bool {
    s.len() == w.len() && forall|i: int| 0 <= i < s.len() ==> ascii_lower(#[trigger] s[i]) == w[i]
}

pub open spec fn word_true() -> Seq<u8> {
    seq![116u8, 114u8, 117u8, 101u8]
}

pub open spec fn word_false() -> Seq<u8> {
    seq![102u8, 97u8, 108u8, 115u8, 101u8]
}

/// Whether `i` is an integer that a property list holds: it fits `i64` or
/// `u64`.
pub open spec fn in_plist_range(i: int) -> bool {
    i64::MIN <= i <= u64::MAX
}

/// The boolean that `t` stands for: a boolean; one byte of data (0 is false);
/// an integer (below 1 is false); the text "true" or "false" in any case.
pub open spec fn coerce_bool(t: Tree) -> Option<bool> {
    match t {
        Tree::Boolean(b) => Some(b),
        Tree::Data(d) => if d.len() == 1 {
            Some(d[0] >= 1)
        } else {
            None
        },
        Tree::Integer(i) => if in_plist_range(i) {
            Some(i >= 1)
        } else {
            None
        },
        Tree::String(s) => {
            let b = vstd::utf8::encode_utf8(s);
            if matches_word(b, word_true()) {
                Some(true)
            } else if matches_word(b, word_false()) {
                Some(false)
            } else {
                None
            }
        },
        _ => None,
    }
}

/// The signed integer that `t` stands for: an integer, cut to 64 bits; data
/// of 1 byte (unsigned), or of 2, 4 or 8 bytes (signed, least significant
/// first); text in decimal, else in hexadecimal.
pub open spec fn coerce_i64(t: Tree) -> Option<int> {
    match t {
        Tree::Integer(i) => if in_plist_range(i) {
            Some(i as i64 as int)
        } else {
            None
        },
        Tree::Data(d) => if d.len() == 1 {
            Some(d[0] as int)
        } else if d.len() == 2 {
            Some(le_value(d) as i16 as int)
        } else if d.len() == 4 {
            Some(le_value(d) as i32 as int)
        } else if d.len() == 8 {
            Some(le_value(d) as i64 as int)
        } else {
            None
        },
        Tree::String(s) => {
            let b = vstd::utf8::encode_utf8(s);
            if parse_i64(b, 10) is Some {
                parse_i64(b, 10)
            } else {
                parse_i64(b, 16)
            }
        },
        _ => None,
    }
}

/// The unsigned integer that `t` stands for: an integer, cut to 64 bits;
/// data of 1, 2, 4 or 8 bytes, least significant first; text in decimal,
/// else in hexadecimal.
pub open spec fn coerce_u64(t: Tree) -> Option<int> {
    match t {
        Tree::Integer(i) => if in_plist_range(i) {
            Some(i as u64 as int)
        } else {
            None
        },
        Tree::Data(d) => if d.len() == 1 || d.len() == 2 || d.len() == 4 || d.len() == 8 {
            Some(le_value(d))
        } else {
            None
        },
        Tree::String(s) => {
            let b = vstd::utf8::encode_utf8(s);
            if parse_u64(b, 10) is Some {
                parse_u64(b, 10)
            } else {
                parse_u64(b, 16)
            }
        },
        _ => None,
    }
}

proof fn lemma_le_step(b: Seq<u8>, i: int)
    requires
        0 <= i < b.len(),
    ensures
        le_value(b.subrange(i, b.len() as int)) == b[i] + 256 * le_value(
            b.subrange(i + 1, b.len() as int),
        ),
{
    assert(b.subrange(i, b.len() as int).drop_first() =~= b.subrange(i + 1, b.len() as int));
}

/// The unsigned integer that up to eight bytes encode, least significant
/// first.
pub fn le_bytes(b: &Vec<u8>) -> (r: u64)
    requires
        b.len() <= 8,
    ensures
        r as int == le_value(b@),
{
    let n = b.len();
    let mut acc: u128 = 0;
    let mut i: usize = n;
    assert(b@.subrange(n as int, n as int) =~= Seq::<u8>::empty());
    while i > 0
        invariant
            n == b.len(),
            n <= 8,
            i <= n,
            acc as int == le_value(b@.subrange(i as int, n as int)),
            0 <= acc < pow256((n - i) as nat),
        decreases i,
    {
        i -= 1;
        proof {
            lemma_le_step(b@, i as int);
            let p = pow256((n - i - 1) as nat);
            assert(pow256((n - i) as nat) == 256 * p);
            assert(acc * 256 + b@[i as int] < 256 * p) by (nonlinear_arith)
                requires
                    acc < p,
                    b@[i as int] < 256,
            ;
            lemma_pow256_eight();
            lemma_pow256_mono((n - i - 1) as nat, 8);
        }
        acc = acc * 256 + b[i] as u128;
    }
    assert(b@.subrange(0, n as int) =~= b@);
    proof {
        lemma_pow256_eight();
        lemma_pow256_mono(n as nat, 8);
    }
    acc as u64
}

proof fn lemma_pow256_eight()
    ensures
        pow256(8) == 0x1_0000_0000_0000_0000,
{
    reveal_with_fuel(pow256, 9);
}

proof fn lemma_pow256_mono(a: nat, b: nat)
    requires
        a <= b,
    ensures
        1 <= pow256(a) <= pow256(b),
    decreases b,
{
    if a < b {
        lemma_pow256_mono(a, (b - 1) as nat);
    } else if b > 0 {
        lemma_pow256_mono(0, (b - 1) as nat);
    }
}

proof fn lemma_digits_prefix(s: Seq<u8>, radix: int, i: int)
    requires
        0 <= i < s.len(),
    ensures
        digits_value(s.subrange(0, i + 1), radix) == digits_value(s.subrange(0, i), radix) * radix
            + digit_of(s[i], radix),
{
    assert(s.subrange(0, i + 1).drop_last() =~= s.subrange(0, i));
}

proof fn lemma_digits_grow(s: Seq<u8>, radix: int, i: int)
    requires
        0 <= i <= s.len(),
        radix >= 1,
        digits_valid(s, radix),
    ensures
        0 <= digits_value(s.subrange(0, i), radix) <= digits_value(s, radix),
    decreases s.len() - i,
{
    if i == s.len() {
        assert(s.subrange(0, i) =~= s);
        lemma_digits_nonneg(s, radix);
    } else {
        lemma_digits_grow(s, radix, i + 1);
        lemma_digits_prefix(s, radix, i);
        let v = digits_value(s.subrange(0, i), radix);
        lemma_digits_nonneg(s.subrange(0, i), radix);
        assert(v <= v * radix) by (nonlinear_arith)
            requires
                v >= 0,
                radix >= 1,
        ;
    }
}

proof fn lemma_digits_nonneg(s: Seq<u8>, radix: int)
    requires
        radix >= 1,
        forall|i: int| 0 <= i < s.len() ==> digit_of(#[trigger] s[i], radix) >= 0,
    ensures
        digits_value(s, radix) >= 0,
    decreases s.len(),
{
    if s.len() > 0 {
        lemma_digits_nonneg(s.drop_last(), radix);
        let v = digits_value(s.drop_last(), radix);
        assert(v * radix >= 0) by (nonlinear_arith)
            requires
                v >= 0,
                radix >= 1,
        ;
    }
}

/// The number that the digits `s[start..]` write in `radix`, where it is at
/// most `limit`.
fn parse_digits(s: &[u8], start: usize, radix: u8, limit: u128) -> (r: Option<u128>)
    requires
        start < s@.len(),
        radix == 10 || radix == 16,
        limit <= 0x1_0000_0000_0000_0000,
    ensures
        match r {
            Some(v) => digits_valid(s@.subrange(start as int, s@.len() as int), radix as int)
                && v == digits_value(s@.subrange(start as int, s@.len() as int), radix as int) && v
                <= limit,
            None => !digits_valid(s@.subrange(start as int, s@.len() as int), radix as int)
                || digits_value(s@.subrange(start as int, s@.len() as int), radix as int) > limit,
        },
{
    let ghost d = s@.subrange(start as int, s@.len() as int);
    let mut acc: u128 = 0;
    let mut i: usize = start;
    assert(d.subrange(0, 0) =~= Seq::<u8>::empty());
    while i < s.len()
        invariant
            start <= i <= s@.len(),
            d == s@.subrange(start as int, s@.len() as int),
            radix == 10 || radix == 16,
            limit <= 0x1_0000_0000_0000_0000,
            digits_valid(d.subrange(0, i - start), radix as int),
            acc == digits_value(d.subrange(0, i - start), radix as int),
            acc <= limit,
        decreases s@.len() - i,
    {
        let c = s[i];
        let dv: u128 = if 48 <= c && c <= 57 {
            (c - 48) as u128
        } else if radix == 16 && 97 <= c && c <= 102 {
            (c - 87) as u128
        } else if radix == 16 && 65 <= c && c <= 70 {
            (c - 55) as u128
        } else {
            assert(d[i - start] == c);
            return None;
        };
        proof {
            assert(d[i - start] == c);
            lemma_digits_prefix(d, radix as int, i - start);
        }
        assert(acc * (radix as u128) <= 0x1_0000_0000_0000_0000 * 16) by (nonlinear_arith)
            requires
                acc <= 0x1_0000_0000_0000_0000,
                radix <= 16,
        ;
        acc = acc * (radix as u128) + dv;
        i += 1;
        assert(digits_valid(d.subrange(0, i - start), radix as int)) by {
            assert forall|j: int| 0 <= j < i - start implies digit_of(
                #[trigger] d.subrange(0, i - start)[j],
                radix as int,
            ) >= 0 by {
                if j < i - start - 1 {
                    assert(d.subrange(0, i - start)[j] == d.subrange(0, i - start - 1)[j]);
                }
            }
        }
        if acc > limit {
            proof {
                if digits_valid(d, radix as int) {
                    lemma_digits_grow(d, radix as int, i - start);
                }
            }
            return None;
        }
    }
    assert(d.subrange(0, i - start) =~= d);
    Some(acc)
}

/// The number that the text `s` writes in `radix`: an optional `+` (or `-`
/// where `signed`), then digits; `None` where it is not such a text or its
/// magnitude exceeds `limit`.
fn parse_signed(s: &[u8], radix: u8, signed: bool, limit: u128) -> (r: Option<(bool, u128)>)
    requires
        radix == 10 || radix == 16,
        limit <= 0x1_0000_0000_0000_0000,
    ensures
        match r {
            Some((neg, m)) => parse_int(s@, radix as int, signed) == Some(
                if neg {
                    -(m as int)
                } else {
                    m as int
                },
            ) && m <= limit && (neg ==> signed),
            None => parse_int(s@, radix as int, signed) is None || ({
                let neg = signed && s@[0] == 45;
                let m = if neg {
                    -parse_int(s@, radix as int, signed)->Some_0
                } else {
                    parse_int(s@, radix as int, signed)->Some_0
                };
                m > limit
            }),
        },
{
    if s.len() == 0 {
        return None;
    }
    let neg = signed && s[0] == 45;
    let sign = s[0] == 43 || neg;
    let start: usize = if sign {
        1
    } else {
        0
    };
    if start >= s.len() {
        return None;
    }
    assert(s@.subrange(start as int, s@.len() as int) =~= if sign {
        s@.drop_first()
    } else {
        s@
    });
    match parse_digits(s, start, radix, limit) {
        Some(m) => Some((neg, m)),
        None => None,
    }
}

/// Reads an `i64` from text: decimal, else hexadecimal.
pub fn text_to_i64(s: &String) -> (r: Option<i64>)
    ensures
        r matches Some(v) ==> Some(v as int) == (if parse_i64(vstd::utf8::encode_utf8(s@), 10) is Some {
            parse_i64(vstd::utf8::encode_utf8(s@), 10)
        } else {
            parse_i64(vstd::utf8::encode_utf8(s@), 16)
        }),
        r is None ==> parse_i64(vstd::utf8::encode_utf8(s@), 10) is None && parse_i64(vstd::utf8::encode_utf8(s@), 16) is None,
{
    let b = s.as_str().as_bytes();
    match text_radix_i64(b, 10) {
        Some(v) => Some(v),
        None => text_radix_i64(b, 16),
    }
}

fn text_radix_i64(b: &[u8], radix: u8) -> (r: Option<i64>)
    requires
        radix == 10 || radix == 16,
    ensures
        match r {
            Some(v) => parse_i64(b@, radix as int) == Some(v as int),
            None => parse_i64(b@, radix as int) is None,
        },
{
    match parse_signed(b, radix, true, 0x8000_0000_0000_0000) {
        Some((neg, m)) => {
            if neg {
                if m == 0x8000_0000_0000_0000 {
                    Some(i64::MIN)
                } else {
                    Some(-(m as i64))
                }
            } else if m <= 0x7fff_ffff_ffff_ffff {
                Some(m as i64)
            } else {
                None
            }
        },
        None => None,
    }
}

fn text_radix_u64(b: &[u8], radix: u8) -> (r: Option<u64>)
    requires
        radix == 10 || radix == 16,
    ensures
        match r {
            Some(v) => parse_u64(b@, radix as int) == Some(v as int),
            None => parse_u64(b@, radix as int) is None,
        },
{
    match parse_signed(b, radix, false, 0xffff_ffff_ffff_ffff) {
        Some((_, m)) => Some(m as u64),
        None => None,
    }
}

/// Reads a `u64` from text: decimal, else hexadecimal.
pub fn text_to_u64(s: &String) -> (r: Option<u64>)
    ensures
        r matches Some(v) ==> Some(v as int) == (if parse_u64(vstd::utf8::encode_utf8(s@), 10) is Some {
            parse_u64(vstd::utf8::encode_utf8(s@), 10)
        } else {
            parse_u64(vstd::utf8::encode_utf8(s@), 16)
        }),
        r is None ==> parse_u64(vstd::utf8::encode_utf8(s@), 10) is None && parse_u64(vstd::utf8::encode_utf8(s@), 16) is None,
{
    let b = s.as_str().as_bytes();
    match text_radix_u64(b, 10) {
        Some(v) => Some(v),
        None => text_radix_u64(b, 16),
    }
}

/// Whether the text `b` equals the lower-case ASCII word `w`, ignoring case.
fn bytes_match_word(b: &[u8], w: &Vec<u8>) -> (r: bool)
    ensures
        r == matches_word(b@, w@),
{
    if b.len() != w.len() {
        return false;
    }
    let mut i: usize = 0;
    while i < b.len()
        invariant
            b@.len() == w@.len(),
            i <= b@.len(),
            forall|j: int| 0 <= j < i ==> ascii_lower(#[trigger] b@[j]) == w@[j],
        decreases b@.len() - i,
    {
        let c = b[i];
        let lower = if 65 <= c && c <= 90 {
            c + 32
        } else {
            c
        };
        if lower != w[i] {
            return false;
        }
        i += 1;
    }
    true
}

/// Reads a boolean from text: "true" or "false" in any case.
pub fn text_to_bool(s: &String) -> (r: Option<bool>)
    ensures
        r == (if matches_word(vstd::utf8::encode_utf8(s@), word_true()) {
            Some(true)
        } else if matches_word(vstd::utf8::encode_utf8(s@), word_false()) {
            Some(false)
        } else {
            None
        }),
{
    let b = s.as_str().as_bytes();
    let t: Vec<u8> = vec![116u8, 114u8, 117u8, 101u8];
    let f: Vec<u8> = vec![102u8, 97u8, 108u8, 115u8, 101u8];
    assert(t@ =~= word_true());
    assert(f@ =~= word_false());
    if bytes_match_word(b, &t) {
        Some(true)
    } else if bytes_match_word(b, &f) {
        Some(false)
    } else {
        None
    }
}

/// The boolean that `v` stands for.
pub fn value_to_bool(v: &Value) -> (r: Option<bool>)
    ensures
        r == coerce_bool(v@),
{
    match v {
        Value::Boolean(b) => Some(*b),
        Value::Data(d) => if d.len() == 1 {
            Some(d[0] >= 1)
        } else {
            None
        },
        Value::Integer(i) => if *i >= -0x8000_0000_0000_0000 && *i <= 0xffff_ffff_ffff_ffff {
            Some(*i >= 1)
        } else {
            None
        },
        Value::String(s) => text_to_bool(s),
        _ => None,
    }
}

/// The signed integer that `v` stands for.
pub fn value_to_i64(v: &Value) -> (r: Option<i64>)
    ensures
        match r {
            Some(x) => coerce_i64(v@) == Some(x as int),
            None => coerce_i64(v@) is None,
        },
{
    match v {
        Value::Integer(i) => if *i >= -0x8000_0000_0000_0000 && *i <= 0xffff_ffff_ffff_ffff {
            Some(*i as i64)
        } else {
            None
        },
        Value::Data(d) => {
            let n = d.len();
            if n == 1 {
                Some(d[0] as i64)
            } else if n == 2 {
                Some(le_bytes(d) as i16 as i64)
            } else if n == 4 {
                Some(le_bytes(d) as i32 as i64)
            } else if n == 8 {
                Some(le_bytes(d) as i64)
            } else {
                None
            }
        },
        Value::String(s) => text_to_i64(s),
        _ => None,
    }
}

/// The unsigned integer that `v` stands for.
pub fn value_to_u64(v: &Value) -> (r: Option<u64>)
    ensures
        match r {
            Some(x) => coerce_u64(v@) == Some(x as int),
            None => coerce_u64(v@) is None,
        },
{
    match v {
        Value::Integer(i) => if *i >= -0x8000_0000_0000_0000 && *i <= 0xffff_ffff_ffff_ffff {
            Some(*i as u64)
        } else {
            None
        },
        Value::Data(d) => {
            let n = d.len();
            if n == 1 || n == 2 || n == 4 || n == 8 {
                Some(le_bytes(d))
            } else {
                None
            }
        },
        Value::String(s) => text_to_u64(s),
        _ => None,
    }
}

} // verus!
