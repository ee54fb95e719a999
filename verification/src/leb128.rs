//! Unsigned LEB128 for 32-bit words: seven value bits per byte, least
//! significant group first, the high bit set on every byte but the last.

use vstd::prelude::*;

verus! {

/// The flag that marks a byte as followed by another one.
pub const CONTINUE: u8 = 0x80;

/// The longest encoding of a 32-bit word.
pub const MAX_LEN: usize = 5;

/// Why a byte string does not start with an encoded word.
#[derive(Debug, Clone, Copy, PartialEq, Eq, Structural)]
pub enum DecodeError {
    /// Every byte seen so far carries the continuation flag, and a further
    /// byte may still end the word.
    Incomplete,
    /// The fifth byte carries the continuation flag: no 32-bit word is
    /// encoded this way.
    Malformed,
}

/// The encoding of `n`.
pub open spec fn encode(n: nat) -> Seq<u8>
    decreases n,
{
    if n < 128 {
        seq![n as u8]
    } else {
        seq![(n % 128 + 128) as u8] + encode(n / 128)
    }
}

/// How many bytes at the front of `bytes` carry the continuation flag.
pub open spec fn flagged_prefix(bytes: Seq<u8>) -> nat
    decreases bytes.len(),
{
    if bytes.len() == 0 || bytes[0] < 128 {
        0
    } else {
        1 + flagged_prefix(bytes.skip(1))
    }
}

/// The number whose base-128 digits, least significant first, are the low
/// seven bits of each byte of `bytes`.
pub open spec fn digits_value(bytes: Seq<u8>) -> nat
    decreases bytes.len(),
{
    if bytes.len() == 0 {
        0
    } else {
        (bytes[0] % 128) as nat + 128 * digits_value(bytes.skip(1))
    }
}

/// What decoding the front of `bytes` gives: the word and the number of bytes
/// it took, or the reason why there is none. A word ends at the first byte
/// without the continuation flag; value bits beyond the 32nd are dropped.
pub open spec fn decode(bytes: Seq<u8>) -> Result<(u32, usize), DecodeError> {
    let k = flagged_prefix(bytes);
    if k >= 5 {
        Err(DecodeError::Malformed)
    } else if k == bytes.len() {
        Err(DecodeError::Incomplete)
    } else {
        Ok(((digits_value(bytes.take(k as int + 1)) % 0x1_0000_0000) as u32, (k + 1) as usize))
    }
}

/// Splits the lowest group off `word`: the byte to emit and what is left to
/// encode after it.
pub fn split_low(word: u32) -> (r: (u8, u32))
    ensures
        r.1 == word / 128,
        r.0 == (if word < 128 { word as int } else { word % 128 + 128 }),
{
    let low: u8 = (word & 0x7f) as u8;
    let rest: u32 = word >> 7;
    assert(word & 0x7f == word % 128) by (bit_vector);
    assert(word >> 7 == word / 128) by (bit_vector);
    if rest != 0 {
        assert(low < 128 ==> low | 0x80 == low + 128) by (bit_vector);
        (low | CONTINUE, rest)
    } else {
        (low, rest)
    }
}

/// Encodes `word`.
pub fn encode_u32(word: u32) -> (out: Vec<u8>)
    ensures
        out@ == encode(word as nat),
{
    let mut out: Vec<u8> = Vec::new();
    let mut rest: u32 = word;
    loop
        invariant
            encode(word as nat) == out@ + encode(rest as nat),
        decreases rest,
    {
        let ghost before = out@;
        let (byte, next) = split_low(rest);
        out.push(byte);
        if next == 0 {
            assert(out@ =~= before + encode(rest as nat));
            return out;
        }
        assert(out@ + encode(next as nat) =~= before + encode(rest as nat));
        rest = next;
    }
}

/// The weight of the digit at position `k`: 128 to the `k`.
pub open spec fn weight(k: nat) -> nat
    decreases k,
{
    if k == 0 {
        1
    } else {
        128 * weight((k - 1) as nat)
    }
}

/// Decodes the word at the front of `bytes`.
pub fn decode_u32(bytes: &[u8]) -> (r: Result<(u32, usize), DecodeError>)
    ensures
        r == decode(bytes@),
{
    let mut val: u32 = 0;
    let mut i: usize = 0;
    proof {
        lemma_weights();
    }
    while i < bytes.len() && i < MAX_LEN
        invariant
            i <= 5,
            i <= bytes.len(),
            forall|j: int| 0 <= j < i ==> bytes@[j] >= 128,
            i < 5 ==> val == digits_value(bytes@.take(i as int)) && val < weight(i as nat),
            i == 5 ==> flagged_prefix(bytes@) >= 5,
            weight(0) == 1 && weight(1) == 0x80 && weight(2) == 0x4000 && weight(3) == 0x20_0000
                && weight(4) == 0x1000_0000,
        decreases bytes.len() - i,
    {
        let b: u8 = bytes[i];
        let digit: u32 = (b & 0x7f) as u32;
        let shift: u32 = 7 * (i as u32);
        let sum: u32 = val | (digit << shift);
        proof {
            assert(b & 0x7f == b % 128) by (bit_vector);
            assert((b & 0x80 == 0) <==> b < 128) by (bit_vector);
            lemma_digits_value_push(bytes@.take(i as int), b);
            assert(bytes@.take(i as int).push(b) =~= bytes@.take(i + 1));
            if i == 0 {
                assert(val == 0 && shift == 0 ==> val | (digit << shift) == digit) by (bit_vector);
            } else if i == 1 {
                assert(val < 0x80 && digit < 128 && shift == 7 ==> val | (digit << shift) == val
                    + digit * 0x80) by (bit_vector);
            } else if i == 2 {
                assert(val < 0x4000 && digit < 128 && shift == 14 ==> val | (digit << shift) == val
                    + digit * 0x4000) by (bit_vector);
            } else if i == 3 {
                assert(val < 0x20_0000 && digit < 128 && shift == 21 ==> val | (digit << shift)
                    == val + digit * 0x20_0000) by (bit_vector);
            } else {
                assert(val < 0x1000_0000 && digit < 128 && shift == 28 ==> val | (digit << shift)
                    == (val + digit * 0x1000_0000) % 0x1_0000_0000) by (bit_vector);
            }
        }
        if b & CONTINUE == 0 {
            proof {
                lemma_flagged_prefix_is(bytes@, i as nat);
            }
            return Ok((sum, i + 1));
        }
        if i == 4 {
            proof {
                lemma_flagged_prefix_at_least(bytes@, 5);
            }
        }
        val = sum;
        i += 1;
    }
    if i == MAX_LEN {
        Err(DecodeError::Malformed)
    } else {
        proof {
            lemma_flagged_prefix_is(bytes@, i as nat);
        }
        Err(DecodeError::Incomplete)
    }
}

/// The first five weights, written out.
pub proof fn lemma_weights()
    ensures
        weight(0) == 1,
        weight(1) == 0x80,
        weight(2) == 0x4000,
        weight(3) == 0x20_0000,
        weight(4) == 0x1000_0000,
        weight(5) == 0x8_0000_0000,
{
    reveal_with_fuel(weight, 6);
}

/// A byte string whose first `k` bytes carry the flag, and which ends there
/// or goes on with a byte that does not, has a flagged prefix of exactly `k`.
pub proof fn lemma_flagged_prefix_is(s: Seq<u8>, k: nat)
    requires
        k <= s.len(),
        forall|j: int| 0 <= j < k ==> s[j] >= 128,
        k == s.len() || s[k as int] < 128,
    ensures
        flagged_prefix(s) == k,
    decreases k,
{
    if k > 0 {
        lemma_flagged_prefix_is(s.skip(1), (k - 1) as nat);
    }
}

/// A byte string whose first `k` bytes carry the flag has a flagged prefix of
/// at least `k`.
pub proof fn lemma_flagged_prefix_at_least(s: Seq<u8>, k: nat)
    requires
        k <= s.len(),
        forall|j: int| 0 <= j < k ==> s[j] >= 128,
    ensures
        flagged_prefix(s) >= k,
    decreases k,
{
    if k > 0 {
        lemma_flagged_prefix_at_least(s.skip(1), (k - 1) as nat);
    }
}

/// The flagged prefix lies within the string, each of its bytes carries the
/// flag, and the byte after it, if there is one, does not.
pub proof fn lemma_flagged_prefix_bounds(s: Seq<u8>)
    ensures
        flagged_prefix(s) <= s.len(),
        forall|j: int| 0 <= j < flagged_prefix(s) ==> s[j] >= 128,
        flagged_prefix(s) == s.len() || s[flagged_prefix(s) as int] < 128,
    decreases s.len(),
{
    if s.len() > 0 && s[0] >= 128 {
        let t = s.skip(1);
        lemma_flagged_prefix_bounds(t);
        assert forall|j: int| 0 <= j < flagged_prefix(s) implies s[j] >= 128 by {
            if j > 0 {
                assert(s[j] == t[j - 1]);
            }
        }
        if flagged_prefix(s) != s.len() {
            assert(s[flagged_prefix(s) as int] == t[flagged_prefix(t) as int]);
        }
    }
}

/// Appending a byte adds its digit at the weight of its position.
pub proof fn lemma_digits_value_push(s: Seq<u8>, b: u8)
    ensures
        digits_value(s.push(b)) == digits_value(s) + (b % 128) * weight(s.len()),
        digits_value(s.push(b)) < weight(s.len() + 1),
        digits_value(s) < weight(s.len()),
    decreases s.len(),
{
    let d = (b % 128) as int;
    let n = s.len();
    assert(weight(n + 1) == 128 * weight(n));
    if n == 0 {
        assert(s.push(b).skip(1) =~= Seq::<u8>::empty());
        assert(digits_value(s.push(b).skip(1)) == 0);
        assert(digits_value(s.push(b)) == d);
        assert(d * weight(0) == d);
    } else {
        let t = s.skip(1);
        lemma_digits_value_push(t, b);
        assert(s.push(b).skip(1) =~= t.push(b));
        assert(weight(n) == 128 * weight(t.len()));
        let w = weight(t.len()) as int;
        assert(128 * (d * w) == d * (128 * w)) by (nonlinear_arith);
        assert(digits_value(s.push(b)) == (s[0] % 128) + 128 * digits_value(t.push(b)));
    }
}

/// The shape of an encoding: every byte but the last carries the flag, the
/// digits spell `n`, and a number below the weight of position `k` takes at
/// most `k` bytes.
pub proof fn lemma_encode_shape(n: nat)
    ensures
        encode(n).len() >= 1,
        forall|j: int| 0 <= j < encode(n).len() - 1 ==> encode(n)[j] >= 128,
        encode(n)[encode(n).len() - 1] < 128,
        digits_value(encode(n)) == n,
        forall|k: nat| k >= 1 && n < weight(k) ==> encode(n).len() <= k,
    decreases n,
{
    let e = encode(n);
    if n < 128 {
        assert(e.skip(1) =~= Seq::<u8>::empty());
        assert(digits_value(e.skip(1)) == 0);
        assert(digits_value(e) == n);
    } else {
        let t = encode(n / 128);
        lemma_encode_shape(n / 128);
        assert(e.skip(1) =~= t);
        assert(e[0] == (n % 128 + 128) as u8);
        assert(digits_value(e) == (e[0] % 128) + 128 * digits_value(t));
        assert forall|j: int| 0 <= j < e.len() - 1 implies e[j] >= 128 by {
            if j > 0 {
                assert(e[j] == t[j - 1]);
            }
        }
        assert(e[e.len() - 1] == t[t.len() - 1]);
        assert forall|k: nat| k >= 1 && n < weight(k) implies e.len() <= k by {
            assert(weight(1) == 128) by {
                reveal_with_fuel(weight, 2);
            }
            if k >= 2 {
                assert(weight(k) == 128 * weight((k - 1) as nat));
                assert(n / 128 < weight((k - 1) as nat));
            }
        }
    }
}

/// Decoding an encoded 32-bit word gives the word back, together with the
/// length of its encoding, which is at most five bytes.
pub proof fn law_decode_encode(n: u32)
    ensures
        1 <= encode(n as nat).len() <= 5,
        decode(encode(n as nat)) == Ok::<(u32, usize), DecodeError>(
            (n, encode(n as nat).len() as usize),
        ),
{
    let e = encode(n as nat);
    lemma_encode_shape(n as nat);
    lemma_weights();
    assert(n < weight(5));
    lemma_flagged_prefix_is(e, (e.len() - 1) as nat);
    assert(e.take(e.len() as int) =~= e);
}

/// Bytes that follow a decoded word do not change it, and bytes that follow
/// a malformed start do not mend it; an incomplete start is shorter than
/// five bytes, all of them flagged.
pub proof fn lemma_decode_extend(a: Seq<u8>, b: Seq<u8>)
    ensures
        decode(a) is Ok ==> decode(a + b) == decode(a),
        decode(a) == Err::<(u32, usize), DecodeError>(DecodeError::Malformed) ==> decode(a + b)
            == decode(a),
        decode(a) == Err::<(u32, usize), DecodeError>(DecodeError::Incomplete) ==> a.len() < 5
            && flagged_prefix(a) == a.len(),
        decode(a) is Ok ==> 1 <= decode(a)->Ok_0.1 <= 5 && decode(a)->Ok_0.1 <= a.len(),
{
    let k = flagged_prefix(a);
    lemma_flagged_prefix_bounds(a);
    if k >= 5 {
        lemma_flagged_prefix_at_least(a + b, 5);
    } else if k < a.len() {
        lemma_flagged_prefix_is(a + b, k);
        assert((a + b).take(k as int + 1) =~= a.take(k as int + 1));
    }
}

/// Only the first five bytes matter to the decoder.
pub proof fn lemma_decode_window(s: Seq<u8>)
    requires
        s.len() >= 5,
    ensures
        decode(s) == decode(s.take(5)),
        !(decode(s) == Err::<(u32, usize), DecodeError>(DecodeError::Incomplete)),
{
    lemma_decode_extend(s.take(5), s.skip(5));
    assert(s.take(5) + s.skip(5) =~= s);
}

} // verus!
