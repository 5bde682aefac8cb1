//! Hexadecimal readings used by the proof decoders: a `u64` limb in the form
//! `u64::from_str_radix(_, 16)` accepts, and a big-endian hex field element.
use vstd::prelude::*;
use vstd::arithmetic::power::{pow, lemma_pow_adds, lemma_pow_increases, lemma_pow_multiplies, lemma_pow_positive};
use vstd::arithmetic::div_mod::{lemma_div_basics, lemma_div_denominator, lemma_div_multiples_vanish_fancy, lemma_div_pos_is_pos, lemma_mod_breakdown, lemma_mod_multiples_vanish};

verus! {

/// The value of a hex digit (either case).
pub open spec fn hex_digit(c: u8) -> Option<int> {
    if 48 <= c <= 57 {
        Some(c - 48)
    } else if 97 <= c <= 102 {
        Some(c - 87)
    } else if 65 <= c <= 70 {
        Some(c - 55)
    } else {
        None
    }
}

/// The value of a string of hex digits, most significant first.
pub open spec fn hex_value(d: Seq<u8>) -> Option<int>
    decreases d.len(),
{
    if d.len() == 0 {
        Some(0)
    } else {
        match (hex_value(d.drop_last()), hex_digit(d.last())) {
            (Some(v), Some(x)) => Some(v * 16 + x),
            _ => None,
        }
    }
}

/// What `u64::from_str_radix(s, 16)` reads from the bytes of `s`: an
/// optional `+`, then one or more hex digits whose value fits in a u64.
pub open spec fn hex_u64(b: Seq<u8>) -> Option<u64> {
    let d = if b.len() > 0 && b[0] == 43 {
        b.drop_first()
    } else {
        b
    };
    if d.len() == 0 {
        None
    } else {
        match hex_value(d) {
            Some(v) => if v <= u64::MAX {
                Some(v as u64)
            } else {
                None
            },
            None => None,
        }
    }
}

pub proof fn lemma_hex_value_nonneg(d: Seq<u8>)
    ensures
        hex_value(d) matches Some(v) ==> v >= 0,
    decreases d.len(),
{
    if d.len() > 0 {
        lemma_hex_value_nonneg(d.drop_last());
    }
}

/// Reading more digits never makes the value smaller, and an invalid digit
/// anywhere makes the whole reading invalid.
pub proof fn lemma_hex_value_prefix(d: Seq<u8>, i: int)
    requires
        0 <= i <= d.len(),
    ensures
        hex_value(d.take(i)) is None ==> hex_value(d) is None,
        hex_value(d) matches Some(v) ==> (hex_value(d.take(i)) matches Some(u) && u <= v),
    decreases d.len() - i,
{
    if i < d.len() {
        lemma_hex_value_prefix(d, i + 1);
        assert(d.take(i + 1).drop_last() =~= d.take(i));
        lemma_hex_value_nonneg(d.take(i));
    } else {
        assert(d.take(i) =~= d);
    }
}

/// The digit value of a byte, if it is a hex digit.
pub fn hex_digit_exec(c: u8) -> (r: Option<u8>)
    ensures
        match (r, hex_digit(c)) {
            (Some(x), Some(y)) => x == y,
            (None, None) => true,
            _ => false,
        },
{
    if 48 <= c && c <= 57 {
        Some(c - 48)
    } else if 97 <= c && c <= 102 {
        Some(c - 87)
    } else if 65 <= c && c <= 70 {
        Some(c - 55)
    } else {
        None
    }
}

/// Why a limb did not read as a u64 (the texts of `core::num::ParseIntError`).
#[derive(Copy, Clone, Debug, PartialEq, Eq)]
pub enum HexError {
    Empty,
    InvalidDigit,
    PosOverflow,
}

impl HexError {
    /// The error's text.
    pub fn message(&self) -> (r: String)
        ensures
            *self is Empty ==> r@ == "cannot parse integer from empty string"@,
            *self is InvalidDigit ==> r@ == "invalid digit found in string"@,
            *self is PosOverflow ==> r@ == "number too large to fit in target type"@,
    {
        match self {
            HexError::Empty => "cannot parse integer from empty string".to_owned(),
            HexError::InvalidDigit => "invalid digit found in string".to_owned(),
            HexError::PosOverflow => "number too large to fit in target type".to_owned(),
        }
    }
}

/// Digits read one by one, most significant first: the value so far, or
/// the first reason to stop (a byte that is not a hex digit, or a value past
/// `u64::MAX`).
pub open spec fn hex_scan(d: Seq<u8>) -> Result<int, HexError>
    decreases d.len(),
{
    if d.len() == 0 {
        Ok(0)
    } else {
        match hex_scan(d.drop_last()) {
            Err(e) => Err(e),
            Ok(v) => match hex_digit(d.last()) {
                None => Err(HexError::InvalidDigit),
                Some(x) => if v * 16 + x <= u64::MAX {
                    Ok(v * 16 + x)
                } else {
                    Err(HexError::PosOverflow)
                },
            },
        }
    }
}

/// Why `u64::from_str_radix(_, 16)` refuses the bytes: nothing at all, a
/// lone `+`, or the first reason the digits give.
pub open spec fn hex_u64_error(b: Seq<u8>) -> HexError {
    if b.len() == 0 {
        HexError::Empty
    } else if b.len() == 1 && b[0] == 43 {
        HexError::InvalidDigit
    } else {
        let d = if b[0] == 43 {
            b.drop_first()
        } else {
            b
        };
        match hex_scan(d) {
            Err(e) => e,
            Ok(_) => HexError::PosOverflow,
        }
    }
}

/// Once the scan of a prefix has stopped, the scan of the whole stops for
/// the same reason.
proof fn lemma_hex_scan_prefix(d: Seq<u8>, i: int)
    requires
        0 <= i <= d.len(),
        hex_scan(d.take(i)) is Err,
    ensures
        hex_scan(d) == hex_scan(d.take(i)),
    decreases d.len() - i,
{
    if i < d.len() {
        assert(d.take(i + 1).drop_last() =~= d.take(i));
        lemma_hex_scan_prefix(d, i + 1);
    } else {
        assert(d.take(i) =~= d);
    }
}

/// Read `b` as `u64::from_str_radix(_, 16)` does.
pub fn parse_hex_u64(b: &[u8]) -> (r: Result<u64, HexError>)
    ensures
        match (r, hex_u64(b@)) {
            (Ok(x), Some(y)) => x == y,
            (Err(e), None) => e == hex_u64_error(b@),
            _ => false,
        },
{
    let n = b.len();
    if n == 0 {
        return Err(HexError::Empty);
    }
    let start: usize = if b[0] == 43 {
        1
    } else {
        0
    };
    let ghost d = if b@.len() > 0 && b@[0] == 43 {
        b@.drop_first()
    } else {
        b@
    };
    assert(d =~= b@.skip(start as int));
    if start == n {
        return Err(HexError::InvalidDigit);
    }
    let mut acc: u64 = 0;
    let mut i: usize = start;
    while i < n
        invariant
            n == b@.len(),
            d == (if b@.len() > 0 && b@[0] == 43 {
                b@.drop_first()
            } else {
                b@
            }),
            start <= i <= n,
            d =~= b@.skip(start as int),
            d.len() > 0,
            hex_value(d.take(i - start)) == Some(acc as int),
            hex_scan(d.take(i - start)) == Ok::<int, HexError>(acc as int),
        decreases n - i,
    {
        assert(d.take(i - start + 1).drop_last() =~= d.take(i - start));
        assert(d.take(i - start + 1).last() == b@[i as int]);
        let x = match hex_digit_exec(b[i]) {
            Some(x) => x,
            None => {
                proof {
                    lemma_hex_value_prefix(d, i - start + 1);
                    lemma_hex_scan_prefix(d, i - start + 1);
                }
                return Err(HexError::InvalidDigit);
            },
        };
        let m = match acc.checked_mul(16) {
            Some(m) => m,
            None => {
                proof {
                    lemma_hex_value_prefix(d, i - start + 1);
                    lemma_hex_scan_prefix(d, i - start + 1);
                }
                return Err(HexError::PosOverflow);
            },
        };
        acc = match m.checked_add(x as u64) {
            Some(a) => a,
            None => {
                proof {
                    lemma_hex_value_prefix(d, i - start + 1);
                    lemma_hex_scan_prefix(d, i - start + 1);
                }
                return Err(HexError::PosOverflow);
            },
        };
        i += 1;
    }
    assert(d.take(n - start) =~= d);
    Ok(acc)
}

// ---------------------------------------------------------------------------
// Big-endian hex field elements
// ---------------------------------------------------------------------------

/// The digits of a big-endian hex field element: the text without an
/// optional `0x` / `0X` prefix.
pub open spec fn be_hex_digits(b: Seq<u8>) -> Seq<u8> {
    if b.len() >= 2 && b[0] == 48 && (b[1] == 120 || b[1] == 88) {
        b.skip(2)
    } else {
        b
    }
}

/// The value of the digit at `j`, counting digits before the start as 0.
pub open spec fn nibble_at(d: Seq<u8>, j: int) -> int {
    if 0 <= j < d.len() {
        match hex_digit(d[j]) {
            Some(v) => v,
            None => 0,
        }
    } else {
        0
    }
}

/// Whether every byte of `d` is a hex digit.
pub open spec fn all_hex(d: Seq<u8>) -> bool {
    forall|j: int| 0 <= j < d.len() ==> #[trigger] hex_digit(d[j]) is Some
}

/// A field element written as big-endian hex (at most 64 digits, optional
/// `0x` prefix), as its 32 little-endian bytes: byte `k` is made of the
/// digits at `len - 2 - 2k` (high) and `len - 1 - 2k` (low).
pub open spec fn be_hex_field(b: Seq<u8>) -> Option<Seq<u8>> {
    let d = be_hex_digits(b);
    if d.len() == 0 || d.len() > 64 || !all_hex(d) {
        None
    } else {
        Some(
            Seq::new(
                32,
                |k: int|
                    (16 * nibble_at(d, d.len() - 2 - 2 * k) + nibble_at(d, d.len() - 1 - 2 * k)) as u8,
            ),
        )
    }
}

fn nibble_exec(d: &[u8], j: usize, valid: bool) -> (r: u8)
    requires
        valid ==> j < d@.len(),
        valid ==> hex_digit(d@[j as int]) is Some,
    ensures
        r < 16,
        r == (if valid {
            nibble_at(d@, j as int)
        } else {
            0
        }),
{
    if valid {
        match hex_digit_exec(d[j]) {
            Some(v) => v,
            None => 0,
        }
    } else {
        0
    }
}

/// Read a big-endian hex field element into its 32 little-endian bytes.
pub fn parse_be_hex_field(b: &[u8]) -> (r: Option<Vec<u8>>)
    ensures
        match (r, be_hex_field(b@)) {
            (Some(x), Some(y)) => x@ == y,
            (None, None) => true,
            _ => false,
        },
{
    let n = b.len();
    let start: usize = if n >= 2 && b[0] == 48 && (b[1] == 120 || b[1] == 88) {
        2
    } else {
        0
    };
    let (_prefix, d) = b.split_at(start);
    assert(d@ =~= be_hex_digits(b@));
    let len = d.len();
    if len == 0 || len > 64 {
        return None;
    }
    let mut i: usize = 0;
    while i < len
        invariant
            len == d@.len(),
            d@ == be_hex_digits(b@),
            i <= len,
            forall|j: int| 0 <= j < i ==> #[trigger] hex_digit(d@[j]) is Some,
        decreases len - i,
    {
        if hex_digit_exec(d[i]).is_none() {
            return None;
        }
        i += 1;
    }
    let mut out: Vec<u8> = Vec::new();
    let mut k: usize = 0;
    while k < 32
        invariant
            len == d@.len(),
            0 < len <= 64,
            all_hex(d@),
            k <= 32,
            out@.len() == k,
            forall|m: int|
                0 <= m < k ==> #[trigger] out@[m] == (16 * nibble_at(d@, len - 2 - 2 * m) + nibble_at(
                    d@,
                    len - 1 - 2 * m,
                )) as u8,
        decreases 32 - k,
    {
        let hi_valid = len >= 2 * k + 2;
        let lo_valid = len >= 2 * k + 1;
        let hi = nibble_exec(d, if hi_valid { len - 2 - 2 * k } else { 0 }, hi_valid);
        let lo = nibble_exec(d, if lo_valid { len - 1 - 2 * k } else { 0 }, lo_valid);
        out.push(16 * hi + lo);
        k += 1;
    }
    let ghost expected = be_hex_field(b@).unwrap();
    assert(out@ =~= expected);
    Some(out)
}


/// Digit `j` from the right of a string of hex digits is the `j`-th base-16
/// digit of its value (zero past the string), and the value is below
/// `16^len`.
proof fn lemma_hex_digits_of_value(d: Seq<u8>, j: nat)
    requires
        all_hex(d),
    ensures
        hex_value(d) is Some,
        0 <= hex_value(d).unwrap() < pow(16, d.len()),
        nibble_at(d, d.len() - 1 - j) == (hex_value(d).unwrap() / pow(16, j)) % 16,
    decreases d.len(),
{
    reveal(pow);
    lemma_pow_positive(16, j);
    if d.len() == 0 {
        lemma_div_basics(pow(16, j));
    } else {
        let n = d.len() as int;
        let e = d.drop_last();
        assert(all_hex(e)) by {
            assert forall|i: int| 0 <= i < e.len() implies #[trigger] hex_digit(e[i]) is Some by {
                assert(e[i] == d[i]);
                assert(hex_digit(d[i]) is Some);
            }
        }
        assert(hex_digit(d[n - 1]) is Some);
        assert(d.last() == d[n - 1]);
        let x = hex_digit(d.last()).unwrap();
        assert(0 <= x < 16);
        if j == 0 {
            lemma_hex_digits_of_value(e, 0);
        } else {
            lemma_hex_digits_of_value(e, (j - 1) as nat);
        }
        let w = hex_value(e).unwrap();
        let v = w * 16 + x;
        assert(hex_value(d) == Some(v));
        assert(pow(16, d.len()) == 16 * pow(16, (d.len() - 1) as nat));
        assert(v < pow(16, d.len())) by (nonlinear_arith)
            requires
                v == w * 16 + x,
                w < pow(16, (d.len() - 1) as nat),
                x < 16,
                pow(16, d.len()) == 16 * pow(16, (d.len() - 1) as nat),
        ;
        lemma_div_multiples_vanish_fancy(w, x, 16);
        assert(v / 16 == w) by {
            assert(16 * w + x == v);
        }
        if j == 0 {
            lemma_div_basics(v);
            lemma_mod_multiples_vanish(w, x, 16);
            assert(v % 16 == x) by {
                assert(16 * w + x == v);
            }
            assert(nibble_at(d, n - 1) == x);
        } else {
            let p = pow(16, (j - 1) as nat);
            lemma_pow_positive(16, (j - 1) as nat);
            assert(pow(16, j) == 16 * p);
            lemma_div_denominator(v, 16, p);
            assert(v / pow(16, j) == w / p);
            let t = n - 1 - j;
            if 0 <= t {
                assert(e[t] == d[t]);
            }
            assert(nibble_at(d, t) == nibble_at(e, e.len() - 1 - (j - 1)));
        }
    }
}

/// A big-endian hex field element is read by value: byte `k` of the 32
/// little-endian bytes is the `k`-th base-256 digit of the digits' value,
/// which is below `2^256`.
pub proof fn lemma_be_hex_field_value(b: Seq<u8>)
    ensures
        be_hex_field(b) matches Some(f) ==> (hex_value(be_hex_digits(b)) matches Some(v) && 0 <= v < pow(256, 32)
            && f.len() == 32 && forall|k: int| 0 <= k < 32 ==> #[trigger] f[k] as int == (v / pow(256, k as nat)) % 256),
{
    let d = be_hex_digits(b);
    if let Some(f) = be_hex_field(b) {
        let n = d.len() as int;
        lemma_hex_digits_of_value(d, 0);
        let v = hex_value(d).unwrap();
        lemma_pow_multiplies(16, 2, 32);
        assert(pow(16, 2) == 256) by {
            reveal_with_fuel(pow, 3);
        }
        lemma_pow_increases(16, d.len(), 64);
        assert forall|k: int| 0 <= k < 32 implies #[trigger] f[k] as int == (v / pow(256, k as nat)) % 256 by {
            lemma_hex_digits_of_value(d, (2 * k) as nat);
            lemma_hex_digits_of_value(d, (2 * k + 1) as nat);
            let q = pow(16, (2 * k) as nat);
            lemma_pow_positive(16, (2 * k) as nat);
            lemma_pow_adds(16, (2 * k) as nat, 1);
            assert(pow(16, 1) == 16) by {
                reveal_with_fuel(pow, 2);
            }
            assert(pow(16, (2 * k + 1) as nat) == q * 16);
            lemma_div_denominator(v, q, 16);
            let w = v / q;
            lemma_div_pos_is_pos(v, q);
            lemma_mod_breakdown(w, 16, 16);
            lemma_pow_multiplies(16, 2, k as nat);
            assert(pow(256, k as nat) == q);
            let hi = nibble_at(d, n - 2 - 2 * k);
            let lo = nibble_at(d, n - 1 - 2 * k);
            assert(hi == (w / 16) % 16);
            assert(lo == w % 16);
            assert(0 <= 16 * hi + lo < 256);
            assert(f[k] == (16 * hi + lo) as u8);
        }
    }
}

} // verus!
