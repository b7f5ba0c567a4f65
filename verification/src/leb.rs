//! LEB128: the variable-length integer encoding of the columns.
//!
//! The encoding is given as two recursive functions on mathematical
//! integers; the byte counts, the decoders and the calls into the `leb128`
//! crate are all stated against them.

use vstd::prelude::*;

verus! {

/// `128^k`.
pub open spec fn pow128(k: nat) -> nat
    decreases k,
{
    if k == 0 {
        1
    } else {
        128 * pow128((k - 1) as nat)
    }
}

/// The unsigned LEB128 encoding of `x`: seven bits to a byte, the least
/// significant group first, the high bit set on every byte but the last.
pub open spec fn uleb_bytes(x: nat) -> Seq<u8>
    decreases x,
{
    if x < 128 {
        seq![x as u8]
    } else {
        seq![(x % 128 + 128) as u8] + uleb_bytes(x / 128)
    }
}

/// The signed LEB128 encoding of `x`: as the unsigned one, but the encoding
/// ends as soon as the remaining value is all sign, so that bit 6 of the
/// last byte carries the sign.
pub open spec fn sleb_bytes(x: int) -> Seq<u8>
    decreases (if x >= 0 { x } else { -x }),
{
    if -64 <= x < 64 {
        seq![(x % 128) as u8]
    } else {
        seq![(x % 128 + 128) as u8] + sleb_bytes(x / 128)
    }
}

/// The values of the powers of 128 that bound a 64-bit integer.
pub proof fn lemma_pow128_values()
    ensures
        pow128(0) == 1,
        pow128(1) == 128,
        pow128(9) == 0x8000_0000_0000_0000,
        pow128(10) == 0x40_0000_0000_0000_0000,
{
    reveal_with_fuel(pow128, 11);
}

/// Number of bytes of the unsigned LEB128 encoding of `val`.
pub fn ulebsize(val: u64) -> (n: u64)
    ensures
        n == uleb_bytes(val as nat).len(),
        1 <= n <= 10,
{
    let mut n: u64 = 1;
    let mut rest: u64 = val;
    proof {
        lemma_pow128_values();
    }
    while rest >= 128
        invariant
            1 <= n <= 10,
            rest < pow128((11 - n) as nat),
            uleb_bytes(val as nat).len() == (n - 1) + uleb_bytes(rest as nat).len(),
        decreases rest,
    {
        proof {
            lemma_pow128_values();
            assert(n <= 9);
            assert(pow128((11 - n) as nat) == 128 * pow128((10 - n) as nat));
        }
        rest = rest / 128;
        n = n + 1;
    }
    n
}

/// Number of bytes of the signed LEB128 encoding of `val`.
pub fn lebsize(val: i64) -> (n: u64)
    ensures
        n == sleb_bytes(val as int).len(),
        1 <= n <= 10,
{
    let mut n: u64 = 1;
    let mut rest: i64 = val;
    proof {
        lemma_pow128_values();
    }
    while rest < -64 || rest >= 64
        invariant
            1 <= n <= 10,
            -pow128((10 - n) as nat) <= rest < pow128((10 - n) as nat),
            sleb_bytes(val as int).len() == (n - 1) + sleb_bytes(rest as int).len(),
        decreases (if rest >= 0 { rest as int } else { -(rest as int) }),
    {
        proof {
            lemma_pow128_values();
            assert(n <= 9);
            assert(pow128((10 - n) as nat) == 128 * pow128((9 - n) as nat));
        }
        rest = floor_div128(rest);
        n = n + 1;
    }
    n
}

/// `x / 128`, rounded towards negative infinity.
pub fn floor_div128(x: i64) -> (q: i64)
    ensures
        q == (x as int) / 128,
{
    if x >= 0 {
        x / 128
    } else {
        -((-(x + 1)) / 128) - 1
    }
}

/// What a reader finds at the front of `s`, when `depth` bytes of the same
/// number came before: the value of the unsigned LEB128 number that starts
/// there and the count of its bytes. There is none where `s` ends before a
/// byte without the high bit, or where the tenth byte of the number holds
/// more than the one bit that a 64-bit value has left.
pub open spec fn uleb_read(s: Seq<u8>, depth: nat) -> Option<(nat, nat)>
    decreases s.len(),
{
    if s.len() == 0 {
        None
    } else if depth == 9 && s[0] > 1 {
        None
    } else if s[0] < 128 {
        Some((s[0] as nat, 1nat))
    } else {
        match uleb_read(s.skip(1), depth + 1) {
            Some((v, n)) => Some(((s[0] - 128 + 128 * v) as nat, n + 1)),
            None => None,
        }
    }
}

/// The signed counterpart of [`uleb_read`]: the last byte is read as a
/// seven-bit two's complement number, and the tenth byte of a number may
/// only be all zeros or all ones.
pub open spec fn sleb_read(s: Seq<u8>, depth: nat) -> Option<(int, nat)>
    decreases s.len(),
{
    if s.len() == 0 {
        None
    } else if depth == 9 && s[0] != 0 && s[0] != 0x7f {
        None
    } else if s[0] < 128 {
        Some((if s[0] < 64 { s[0] as int } else { s[0] - 128 }, 1nat))
    } else {
        match sleb_read(s.skip(1), depth + 1) {
            Some((v, n)) => Some((s[0] - 128 + 128 * v, n + 1)),
            None => None,
        }
    }
}

/// `pow128` grows with its argument.
pub proof fn lemma_pow128_monotone(a: nat, b: nat)
    requires
        a <= b,
    ensures
        0 < pow128(a) <= pow128(b),
    decreases b,
{
    if b == 0 {
    } else if a == b {
        lemma_pow128_monotone((a - 1) as nat, (b - 1) as nat);
    } else {
        lemma_pow128_monotone(a, (b - 1) as nat);
    }
}

/// A number read at depth `depth` is below `2 * 128^(9 - depth)`, hence
/// below `2^64` when read from the start; it takes at least one byte, no
/// more than `s` has, and no more than ten with those that came before.
pub proof fn lemma_uleb_read_bounds(s: Seq<u8>, depth: nat)
    requires
        depth <= 9,
    ensures
        match uleb_read(s, depth) {
            Some((v, n)) => 1 <= n <= s.len() && n + depth <= 10 && v < 2 * pow128(
                (9 - depth) as nat,
            ),
            None => true,
        },
        depth == 0 ==> match uleb_read(s, depth) {
            Some((v, n)) => v <= u64::MAX,
            None => true,
        },
    decreases s.len(),
{
    lemma_pow128_values();
    lemma_pow128_monotone(0, (9 - depth) as nat);
    if s.len() == 0 {
    } else if depth == 9 && s[0] > 1 {
    } else if s[0] < 128 {
        if depth < 9 {
            lemma_pow128_monotone(1, (9 - depth) as nat);
        }
    } else {
        lemma_uleb_read_bounds(s.skip(1), depth + 1);
        assert(pow128((9 - depth) as nat) == 128 * pow128((8 - depth) as nat));
    }
}

/// A signed number read at depth `depth` lies in
/// `[-128^(9 - depth), 128^(9 - depth))`, hence in the range of `i64` when
/// read from the start.
pub proof fn lemma_sleb_read_bounds(s: Seq<u8>, depth: nat)
    requires
        depth <= 9,
    ensures
        match sleb_read(s, depth) {
            Some((v, n)) => 1 <= n <= s.len() && n + depth <= 10 && -pow128((9 - depth) as nat)
                <= v < pow128((9 - depth) as nat),
            None => true,
        },
        depth == 0 ==> match sleb_read(s, depth) {
            Some((v, n)) => i64::MIN <= v <= i64::MAX,
            None => true,
        },
    decreases s.len(),
{
    lemma_pow128_values();
    lemma_pow128_monotone(0, (9 - depth) as nat);
    if s.len() == 0 {
    } else if depth == 9 && s[0] != 0 && s[0] != 0x7f {
    } else if s[0] < 128 {
        if depth < 9 {
            lemma_pow128_monotone(1, (9 - depth) as nat);
        }
    } else {
        lemma_sleb_read_bounds(s.skip(1), depth + 1);
        assert(pow128((9 - depth) as nat) == 128 * pow128((8 - depth) as nat));
    }
}

/// Reading back what was encoded: the encoding of `x`, whatever follows it,
/// reads as `x` and as many bytes as the encoding has.
pub proof fn lemma_uleb_round_trip(x: nat, tail: Seq<u8>, depth: nat)
    requires
        depth <= 9,
        x < 2 * pow128((9 - depth) as nat),
    ensures
        uleb_read(uleb_bytes(x) + tail, depth) == Some((x, uleb_bytes(x).len())),
    decreases x,
{
    lemma_pow128_values();
    let s = uleb_bytes(x) + tail;
    if x < 128 {
        assert(s[0] == x as u8);
    } else {
        assert(s[0] == (x % 128 + 128) as u8);
        if depth == 9 {
            assert(false);
        }
        assert(pow128((9 - depth) as nat) == 128 * pow128((8 - depth) as nat));
        assert(s.skip(1) =~= uleb_bytes(x / 128) + tail);
        lemma_uleb_round_trip(x / 128, tail, depth + 1);
    }
}

/// The signed counterpart of [`lemma_uleb_round_trip`].
pub proof fn lemma_sleb_round_trip(x: int, tail: Seq<u8>, depth: nat)
    requires
        depth <= 9,
        -pow128((9 - depth) as nat) <= x < pow128((9 - depth) as nat),
    ensures
        sleb_read(sleb_bytes(x) + tail, depth) == Some((x, sleb_bytes(x).len())),
    decreases (if x >= 0 { x } else { -x }),
{
    lemma_pow128_values();
    let s = sleb_bytes(x) + tail;
    if -64 <= x < 64 {
        assert(s[0] == (x % 128) as u8);
    } else {
        assert(s[0] == (x % 128 + 128) as u8);
        if depth == 9 {
            assert(false);
        }
        assert(pow128((9 - depth) as nat) == 128 * pow128((8 - depth) as nat));
        assert(s.skip(1) =~= sleb_bytes(x / 128) + tail);
        lemma_sleb_round_trip(x / 128, tail, depth + 1);
    }
}

/// Reads the unsigned LEB128 number at the front of `input`: its value and
/// the count of its bytes, or `None` where [`uleb_read`] finds none.
pub fn decode_uleb(input: &[u8]) -> (r: Option<(u64, usize)>)
    ensures
        match uleb_read(input@, 0) {
            Some((v, n)) => r == Some((v as u64, n as usize)),
            None => r is None,
        },
{
    let mut acc: u64 = 0;
    let mut mult: u64 = 1;
    let mut i: usize = 0;
    proof {
        lemma_pow128_values();
        lemma_uleb_read_bounds(input@, 0);
        assert(input@.skip(0) =~= input@);
    }
    while i < input.len()
        invariant
            i <= input.len(),
            i <= 9,
            mult == pow128(i as nat),
            acc < mult,
            match uleb_read(input@.skip(i as int), i as nat) {
                Some((v, n)) => uleb_read(input@, 0) == Some(((acc + mult * v) as nat, (n + i) as nat)),
                None => uleb_read(input@, 0) is None,
            },
            match uleb_read(input@, 0) {
                Some((v, n)) => v <= u64::MAX && n <= input.len(),
                None => true,
            },
        decreases input.len() - i,
    {
        let b: u8 = input[i];
        proof {
            lemma_pow128_values();
            lemma_pow128_monotone(i as nat, 9);
            assert(input@.skip(i as int)[0] == b);
            assert(input@.skip(i as int).skip(1) =~= input@.skip(i + 1));
        }
        if i == 9 && b > 1 {
            return None;
        }
        if b < 128 {
            proof {
                if i < 9 {
                    lemma_pow128_monotone(i as nat, 8);
                    assert(pow128(9) == 128 * pow128(8));
                }
                assert(mult * b <= mult * 127 || (i == 9 && mult * b <= mult)) by (nonlinear_arith)
                    requires
                        b <= 127,
                        i == 9 ==> b <= 1,
                        mult >= 0,
                ;
            }
            let total: u64 = acc + mult * (b as u64);
            return Some((total, i + 1));
        }
        proof {
            lemma_pow128_monotone((i + 1) as nat, 9);
            assert(pow128((i + 1) as nat) == 128 * pow128(i as nat));
            assert(mult * (b - 128) <= mult * 127) by (nonlinear_arith)
                requires
                    b - 128 <= 127,
                    mult >= 0,
            ;
            match uleb_read(input@.skip(i + 1), (i + 1) as nat) {
                Some((v, n)) => {
                    assert(acc + mult * (b - 128 + 128 * v) == acc + mult * (b - 128) + (mult * 128)
                        * v) by (nonlinear_arith);
                },
                None => {},
            }
        }
        acc = acc + mult * ((b - 128) as u64);
        mult = mult * 128;
        i = i + 1;
    }
    None
}

/// Reads the signed LEB128 number at the front of `input`: its value and the
/// count of its bytes, or `None` where [`sleb_read`] finds none.
pub fn decode_sleb(input: &[u8]) -> (r: Option<(i64, usize)>)
    ensures
        match sleb_read(input@, 0) {
            Some((v, n)) => r == Some((v as i64, n as usize)),
            None => r is None,
        },
{
    let mut acc: u64 = 0;
    let mut mult: u64 = 1;
    let mut i: usize = 0;
    proof {
        lemma_pow128_values();
        lemma_sleb_read_bounds(input@, 0);
        assert(input@.skip(0) =~= input@);
    }
    while i < input.len()
        invariant
            i <= input.len(),
            i <= 9,
            mult == pow128(i as nat),
            acc < mult,
            match sleb_read(input@.skip(i as int), i as nat) {
                Some((v, n)) => sleb_read(input@, 0) == Some((acc + mult * v, (n + i) as nat)),
                None => sleb_read(input@, 0) is None,
            },
            match sleb_read(input@, 0) {
                Some((v, n)) => i64::MIN <= v <= i64::MAX && n <= input.len(),
                None => true,
            },
        decreases input.len() - i,
    {
        let b: u8 = input[i];
        proof {
            lemma_pow128_values();
            lemma_pow128_monotone(i as nat, 9);
            assert(input@.skip(i as int)[0] == b);
            assert(input@.skip(i as int).skip(1) =~= input@.skip(i + 1));
        }
        if i == 9 && b != 0 && b != 0x7f {
            return None;
        }
        if b < 128 {
            proof {
                if i < 9 {
                    lemma_pow128_monotone(i as nat, 8);
                    assert(pow128(9) == 128 * pow128(8));
                }
            }
            if b < 64 {
                proof {
                    assert(mult * b <= mult * 63) by (nonlinear_arith)
                        requires
                            b <= 63,
                            mult >= 0,
                    ;
                }
                let total: u64 = acc + mult * (b as u64);
                return Some((total as i64, i + 1));
            } else {
                let neg: u64 = 128 - (b as u64);
                proof {
                    assert(mult * neg <= mult * 64 && mult * neg >= mult) by (nonlinear_arith)
                        requires
                            1 <= neg <= 64,
                            mult >= 0,
                    ;
                    assert(mult * (b - 128) == -(mult * neg)) by (nonlinear_arith)
                        requires
                            neg == 128 - b,
                    ;
                    if i == 9 {
                        assert(neg == 1);
                        assert(mult * neg == mult) by (nonlinear_arith)
                            requires
                                neg == 1,
                        ;
                    }
                }
                if i == 9 {
                    return Some(((acc as i64) + i64::MIN, i + 1));
                }
                return Some(((acc as i64) - ((mult * neg) as i64), i + 1));
            }
        }
        proof {
            lemma_pow128_monotone((i + 1) as nat, 9);
            assert(pow128((i + 1) as nat) == 128 * pow128(i as nat));
            assert(mult * (b - 128) <= mult * 127) by (nonlinear_arith)
                requires
                    b - 128 <= 127,
                    mult >= 0,
            ;
            match sleb_read(input@.skip(i + 1), (i + 1) as nat) {
                Some((v, n)) => {
                    assert(acc + mult * (b - 128 + 128 * v) == acc + mult * (b - 128) + (mult * 128)
                        * v) by (nonlinear_arith);
                },
                None => {},
            }
        }
        acc = acc + mult * ((b - 128) as u64);
        mult = mult * 128;
        i = i + 1;
    }
    None
}

/// The error of the `leb128` crate's readers.
#[verifier::external_type_specification]
#[verifier::external_body]
pub struct ExLebReadError(leb128::read::Error);

/// `leb128::write::unsigned`, writing to the end of a byte vector: the bytes
/// appended are the unsigned encoding of `val`. Nothing of this is proved;
/// the crate's loop emits the low seven bits of the value, shifts it right
/// by seven, and sets the high bit while anything is left. Writing to a
/// vector does not fail.
#[verifier::external_body]
pub(crate) fn write_unsigned(out: &mut Vec<u8>, val: u64)
    ensures
        final(out)@ == old(out)@ + uleb_bytes(val as nat),
{
    let _ = leb128::write::unsigned(out, val);
}

/// `leb128::write::signed`, writing to the end of a byte vector: the bytes
/// appended are the signed encoding of `val`. Nothing of this is proved; the
/// crate's loop emits the low seven bits, stops once the value shifted
/// right by six is 0 or -1, and otherwise goes on with the value shifted
/// right by seven. Writing to a vector does not fail.
#[verifier::external_body]
pub(crate) fn write_signed(out: &mut Vec<u8>, val: i64)
    ensures
        final(out)@ == old(out)@ + sleb_bytes(val as int),
{
    let _ = leb128::write::signed(out, val);
}

/// `leb128::read::unsigned` on a byte slice: the number at the front of
/// `buf` and the bytes after it, or the crate's error where [`uleb_read`]
/// finds no number. Nothing of this is proved; the crate fails when the
/// slice ends inside a number and when the tenth byte is neither 0 nor 1.
#[verifier::external_body]
pub(crate) fn read_unsigned<'a>(buf: &'a [u8]) -> (r: Result<(u64, &'a [u8]), leb128::read::Error>)
    ensures
        match uleb_read(buf@, 0) {
            Some((v, n)) => r matches Ok((val, rest)) && val == v && rest@ == buf@.skip(n as int),
            None => r is Err,
        },
{
    let mut rest = buf;
    let val = leb128::read::unsigned(&mut rest)?;
    Ok((val, rest))
}

/// `leb128::read::signed` on a byte slice: the number at the front of `buf`
/// and the bytes after it, or the crate's error where [`sleb_read`] finds no
/// number. Nothing of this is proved; the crate fails when the slice ends
/// inside a number and when the tenth byte is neither 0 nor 0x7f, and it
/// extends the sign from bit 6 of the last byte.
#[verifier::external_body]
pub(crate) fn read_signed<'a>(buf: &'a [u8]) -> (r: Result<(i64, &'a [u8]), leb128::read::Error>)
    ensures
        match sleb_read(buf@, 0) {
            Some((v, n)) => r matches Ok((val, rest)) && val == v && rest@ == buf@.skip(n as int),
            None => r is Err,
        },
{
    let mut rest = buf;
    let val = leb128::read::signed(&mut rest)?;
    Ok((val, rest))
}

} // verus!
