//! Location identifiers and their canonical textual form.
//!
//! A location is identified by a 128-bit value. On the wire (URL path
//! segments, JSON bodies) it travels in the canonical hyphenated form:
//! 36 bytes, hyphens at positions 8, 13, 18 and 23, and 32 hexadecimal
//! digits, most significant first. Parsing accepts both digit cases;
//! formatting emits lower case.

use vstd::prelude::*;
use vstd::arithmetic::div_mod::{lemma_basic_div, lemma_div_denominator, lemma_fundamental_div_mod};

verus! {

/// The identity of one location record: the 128-bit value its textual
/// identifier denotes.
#[derive(Clone, Copy, Debug, PartialEq, Eq, Structural, Hash)]
pub struct LocationId {
    pub value: u128,
}

/// The positions of the four hyphens in the canonical 36-byte form.
pub open spec fn is_hyphen_pos(i: int) -> bool {
    i == 8 || i == 13 || i == 18 || i == 23
}

/// Whether a byte is an ASCII hexadecimal digit, either case.
pub open spec fn is_hex_digit(b: u8) -> bool {
    (48 <= b <= 57) || (97 <= b <= 102) || (65 <= b <= 70)
}

/// Whether a byte is a lower-case ASCII hexadecimal digit.
pub open spec fn is_lower_hex_digit(b: u8) -> bool {
    (48 <= b <= 57) || (97 <= b <= 102)
}

/// The value of one hexadecimal digit byte.
pub open spec fn hex_val(b: u8) -> int {
    if 48 <= b <= 57 {
        b - 48
    } else if 97 <= b <= 102 {
        b - 87
    } else if 65 <= b <= 70 {
        b - 55
    } else {
        0
    }
}

/// The byte position of the `j`-th hexadecimal digit (0-based, most
/// significant first) in the canonical form.
pub open spec fn digit_pos(j: int) -> int {
    j + if j < 8 {
        0int
    } else if j < 12 {
        1int
    } else if j < 16 {
        2int
    } else if j < 20 {
        3int
    } else {
        4int
    }
}

/// How many of the first `i` byte positions of the canonical form hold a
/// hexadecimal digit rather than a hyphen.
pub open spec fn digit_count(i: int) -> int {
    i - if i <= 8 {
        0int
    } else if i <= 13 {
        1int
    } else if i <= 18 {
        2int
    } else if i <= 23 {
        3int
    } else {
        4int
    }
}

/// Whether a byte sequence is a canonical hyphenated identifier:
/// 36 bytes, hyphens exactly at positions 8, 13, 18 and 23, hexadecimal
/// digits (either case) everywhere else.
pub open spec fn is_canonical_uuid(s: Seq<u8>) -> bool {
    &&& s.len() == 36
    &&& forall|i: int|
        0 <= i < 36 ==> (if is_hyphen_pos(i) {
            s[i] == 45
        } else {
            is_hex_digit(#[trigger] s[i])
        })
}

/// Whether every digit of a canonical identifier is lower case.
pub open spec fn is_lower_uuid(s: Seq<u8>) -> bool {
    forall|i: int|
        0 <= i < 36 && !is_hyphen_pos(i) ==> is_lower_hex_digit(#[trigger] s[i])
}

/// The value of the first `j` digits of a canonical identifier, read as a
/// base-16 number.
pub open spec fn prefix_val(s: Seq<u8>, j: int) -> int
    decreases j,
{
    if j <= 0 {
        0
    } else {
        prefix_val(s, j - 1) * 16 + hex_val(s[digit_pos(j - 1)])
    }
}

/// The 128-bit value a canonical identifier denotes: its 32 digits read as
/// a base-16 number.
pub open spec fn uuid_value(s: Seq<u8>) -> int {
    prefix_val(s, 32)
}

/// 16 raised to the `j`-th power.
pub open spec fn pow16(j: nat) -> int
    decreases j,
{
    if j == 0 {
        1
    } else {
        16 * pow16((j - 1) as nat)
    }
}

proof fn lemma_pow16_vals()
    ensures
        pow16(31) == 0x10000000000000000000000000000000,
        pow16(32) == 0x100000000000000000000000000000000,
{
    reveal_with_fuel(pow16, 33);
}

proof fn lemma_pow16_le(a: nat, b: nat)
    requires
        a <= b,
    ensures
        1 <= pow16(a) <= pow16(b),
    decreases b,
{
    if b > 0 {
        if a == b {
            lemma_pow16_le((a - 1) as nat, (b - 1) as nat);
        } else {
            lemma_pow16_le(a, (b - 1) as nat);
        }
    }
}

/// The first `j` digits of a sequence are unchanged by appending a byte,
/// since they stand strictly before the appended position.
proof fn lemma_prefix_val_push(s: Seq<u8>, b: u8, j: int)
    requires
        0 <= j,
        j == 0 || digit_pos(j - 1) < s.len(),
    ensures
        prefix_val(s.push(b), j) == prefix_val(s, j),
    decreases j,
{
    if j > 0 {
        assert(forall|m: int, m2: int| m <= m2 ==> digit_pos(m) <= digit_pos(m2));
        lemma_prefix_val_push(s, b, j - 1);
        assert(s.push(b)[digit_pos(j - 1)] == s[digit_pos(j - 1)]);
    }
}

impl LocationId {
    /// Parses the canonical hyphenated form. Returns the denoted identifier
    /// exactly when the input is canonical, and nothing otherwise.
    pub fn parse(s: &[u8]) -> (r: Option<LocationId>)
        ensures
            r is Some <==> is_canonical_uuid(s@),
            r is Some ==> r->0.value == uuid_value(s@),
    {
        if s.len() != 36 {
            return None;
        }
        let mut acc: u128 = 0;
        let mut i: usize = 0;
        let mut j: usize = 0;
        while i < 36
            invariant
                s@.len() == 36,
                0 <= i <= 36,
                j == digit_count(i as int),
                acc == prefix_val(s@, j as int),
                acc < pow16(j as nat),
                forall|k: int|
                    0 <= k < i ==> (if is_hyphen_pos(k) {
                        s@[k] == 45
                    } else {
                        is_hex_digit(#[trigger] s@[k])
                    }),
            decreases 36 - i,
        {
            let b = s[i];
            if i == 8 || i == 13 || i == 18 || i == 23 {
                if b != 45 {
                    assert(!is_canonical_uuid(s@));
                    return None;
                }
            } else {
                match hex_digit_value(b) {
                    None => {
                        assert(!is_canonical_uuid(s@));
                        return None;
                    },
                    Some(d) => {
                        proof {
                            assert(digit_pos(j as int) == i as int);
                            assert(j < 32);
                            lemma_pow16_le((j + 1) as nat, 32);
                            lemma_pow16_vals();
                            assert(pow16((j + 1) as nat) == 16 * pow16(j as nat));
                        }
                        acc = acc * 16 + (d as u128);
                        j += 1;
                    },
                }
            }
            i += 1;
        }
        assert(is_canonical_uuid(s@));
        assert(j == 32);
        Some(LocationId { value: acc })
    }

    /// Formats the identifier in the canonical hyphenated form, with every
    /// digit lower case, denoting exactly this value; parsing the result
    /// therefore yields the identifier back.
    pub fn canonical_bytes(&self) -> (r: Vec<u8>)
        ensures
            is_canonical_uuid(r@),
            is_lower_uuid(r@),
            uuid_value(r@) == self.value,
    {
        let mut out: Vec<u8> = Vec::new();
        let mut i: usize = 0;
        let mut j: usize = 0;
        proof {
            lemma_pow16_vals();
            lemma_basic_div(self.value as int, pow16(32));
        }
        while i < 36
            invariant
                out@.len() == i,
                0 <= i <= 36,
                j == digit_count(i as int),
                prefix_val(out@, j as int) == self.value as int / pow16((32 - j) as nat),
                forall|k: int|
                    0 <= k < i ==> (if is_hyphen_pos(k) {
                        out@[k] == 45
                    } else {
                        is_lower_hex_digit(#[trigger] out@[k]) && is_hex_digit(out@[k])
                    }),
            decreases 36 - i,
        {
            if i == 8 || i == 13 || i == 18 || i == 23 {
                proof {
                    lemma_prefix_val_push(out@, 45, j as int);
                }
                out.push(45);
            } else {
                let p = pow16_exec(31 - j);
                let d = ((self.value / p) % 16) as u8;
                let c = lower_hex_digit(d);
                proof {
                    assert(digit_pos(j as int) == i as int);
                    assert(j < 32);
                    lemma_prefix_val_push(out@, c, j as int);
                    let v = self.value as int;
                    let pj = pow16((31 - j) as nat);
                    assert(pow16((32 - j) as nat) == 16 * pj);
                    lemma_div_denominator(v, pj, 16);
                    lemma_fundamental_div_mod(v / pj, 16);
                    assert(prefix_val(out@.push(c), (j + 1) as int) == prefix_val(out@, j as int)
                        * 16 + hex_val(c));
                    assert(prefix_val(out@, j as int) * 16 + hex_val(c) == v / pj);
                }
                out.push(c);
                j += 1;
            }
            i += 1;
        }
        proof {
            assert(pow16(0) == 1);
            assert(self.value as int / 1 == self.value as int);
        }
        out
    }
}

/// The value of one hexadecimal digit byte, either case; nothing when the
/// byte is no hexadecimal digit.
pub fn hex_digit_value(b: u8) -> (r: Option<u8>)
    ensures
        r is Some <==> is_hex_digit(b),
        r is Some ==> r->0 == hex_val(b) && r->0 < 16,
{
    if 48 <= b && b <= 57 {
        Some(b - 48)
    } else if 97 <= b && b <= 102 {
        Some(b - 87)
    } else if 65 <= b && b <= 70 {
        Some(b - 55)
    } else {
        None
    }
}

/// The lower-case hexadecimal digit byte for a value below 16.
pub fn lower_hex_digit(d: u8) -> (r: u8)
    requires
        d < 16,
    ensures
        is_lower_hex_digit(r),
        is_hex_digit(r),
        hex_val(r) == d,
{
    if d < 10 {
        d + 48
    } else {
        d + 87
    }
}

/// 16 raised to the `k`-th power, for exponents whose power fits in 128
/// bits.
pub fn pow16_exec(k: usize) -> (r: u128)
    requires
        k < 32,
    ensures
        r as int == pow16(k as nat),
        r >= 1,
{
    let mut r: u128 = 1;
    let mut m: usize = 0;
    while m < k
        invariant
            0 <= m <= k < 32,
            r as int == pow16(m as nat),
            r >= 1,
        decreases k - m,
    {
        proof {
            lemma_pow16_le((m + 1) as nat, 31);
            lemma_pow16_vals();
            assert(pow16((m + 1) as nat) == 16 * pow16(m as nat));
        }
        r = r * 16;
        m += 1;
    }
    r
}

} // verus!
