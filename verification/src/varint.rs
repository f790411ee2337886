//! Little-endian base-128 integers: seven value bits per byte, the top bit of
//! every byte but the last set as a continuation marker.

use vstd::prelude::*;

verus! {

/// Why a varint could not be read.
#[derive(Debug, Clone, Copy, PartialEq, Eq, Structural)]
pub enum VarintError {
    /// The buffer ended before a byte without the continuation bit.
    UnexpectedEof,
    /// More seven-bit groups than the integer width can take.
    Overflow,
}

/// The byte of one non-final group: the low seven bits of `value` under the
/// continuation bit.
pub open spec fn continuation_byte(value: nat) -> u8 {
    (value % 0x80 + 0x80) as u8
}

/// The encoding of `value`: its seven-bit groups, least significant first,
/// each but the last marked with the continuation bit.
pub open spec fn varint_bytes(value: nat) -> Seq<u8>
    decreases value,
{
    if value < 0x80 {
        seq![value as u8]
    } else {
        seq![continuation_byte(value)] + varint_bytes(value / 0x80)
    }
}

/// How many bytes at the front of `bytes` carry the continuation bit.
pub open spec fn continued_len(bytes: Seq<u8>) -> nat
    decreases bytes.len(),
{
    if bytes.len() == 0 || bytes[0] < 0x80 {
        0
    } else {
        1 + continued_len(bytes.drop_first())
    }
}

/// The weight of the group at index `i`: 128 to the power `i`.
pub open spec fn place(i: nat) -> nat
    decreases i,
{
    if i == 0 {
        1
    } else {
        0x80 * place((i - 1) as nat)
    }
}

/// The number spelled by the low seven bits of each byte of `bytes`, least
/// significant group first.
pub open spec fn group_value(bytes: Seq<u8>) -> nat
    decreases bytes.len(),
{
    if bytes.len() == 0 {
        0
    } else {
        (bytes[0] % 0x80) as nat + 0x80 * group_value(bytes.drop_first())
    }
}

/// What reading one varint from the front of `bytes` gives, for an integer
/// that takes at most `groups` groups and wraps at `modulus`.
///
/// The terminator is the first byte without the continuation bit. A
/// terminator among the first `groups` bytes ends the number, which is the
/// groups up to it, reduced by `modulus`, together with the count of bytes
/// read. Without one, a buffer longer than `groups` bytes is an overflow and a
/// shorter one is incomplete.
pub open spec fn parse_varint(bytes: Seq<u8>, groups: nat, modulus: nat) -> Result<
    (nat, nat),
    VarintError,
> {
    let k = continued_len(bytes);
    if k < bytes.len() && k < groups {
        Ok((group_value(bytes.take((k + 1) as int)) % modulus, k + 1))
    } else if bytes.len() > groups {
        Err(VarintError::Overflow)
    } else {
        Err(VarintError::UnexpectedEof)
    }
}

/// Groups that a 32-bit varint may span.
pub open spec fn groups_u32() -> nat {
    5
}

/// Groups that a 64-bit varint may span.
pub open spec fn groups_u64() -> nat {
    10
}

/// Reading a 32-bit varint from the front of `bytes`.
pub open spec fn parse_u32_varint(bytes: Seq<u8>) -> Result<(u32, usize), VarintError> {
    match parse_varint(bytes, groups_u32(), 0x1_0000_0000) {
        Ok((value, used)) => Ok((value as u32, used as usize)),
        Err(e) => Err(e),
    }
}

/// Reading a 64-bit varint from the front of `bytes`.
pub open spec fn parse_u64_varint(bytes: Seq<u8>) -> Result<(u64, usize), VarintError> {
    match parse_varint(bytes, groups_u64(), 0x1_0000_0000_0000_0000) {
        Ok((value, used)) => Ok((value as u64, used as usize)),
        Err(e) => Err(e),
    }
}

/// Appends the encoding of `value` to `out`.
pub fn encode_u32_varint(value: u32, out: &mut Vec<u8>)
    ensures
        final(out)@ == old(out)@ + varint_bytes(value as nat),
{
    let mut value = value;
    let ghost start = out@;
    let ghost whole = varint_bytes(value as nat);
    while value >= 0x80
        invariant
            out@ + varint_bytes(value as nat) == start + whole,
        decreases value,
    {
        let low: u8 = ((value as u8) & 0x7F) | 0x80;
        proof {
            assert(((value as u8) & 0x7F) | 0x80 == (value % 0x80 + 0x80) as u8) by (bit_vector);
            assert(value >> 7 == value / 0x80) by (bit_vector);
            assert(out@.push(low) + varint_bytes((value / 0x80) as nat) =~= out@ + varint_bytes(
                value as nat,
            ));
        }
        out.push(low);
        value >>= 7;
    }
    out.push(value as u8);
    assert(start + whole =~= old(out)@ + whole);
}

/// Reads one 32-bit varint from the front of `input`: the value and the
/// number of bytes it took.
pub fn decode_u32_varint(input: &[u8]) -> (result: Result<(u32, usize), VarintError>)
    ensures
        result == parse_u32_varint(input@),
{
    let mut result: u32 = 0;
    let mut shift: u32 = 0;
    let mut i: usize = 0;
    while i < input.len()
        invariant
            i <= input.len(),
            i <= 5,
            shift == 7 * i,
            forall|j: int| 0 <= j < i ==> input@[j] >= 0x80,
            i < 5 ==> result == group_value(input@.take(i as int)),
        decreases input.len() - i,
    {
        let byte = input[i];
        let bits = (byte & 0x7F) as u32;
        if shift >= 32 {
            proof {
                lemma_continued_len(input@, 5);
            }
            return Err(VarintError::Overflow);
        }
        let ghost before = result;
        result |= bits << shift;
        proof {
            let prefix = input@.take(i as int);
            assert(byte & 0x7F == byte % 0x80) by (bit_vector);
            assert((byte & 0x80) == 0 <==> byte < 0x80) by (bit_vector);
            lemma_place_shift(i as nat);
            lemma_group_value_bound(prefix);
            lemma_group_value_push(prefix, byte);
            assert(prefix.push(byte) =~= input@.take(i + 1));
            assert((before | (bits << shift)) == (before + bits * (1u32 << shift)) % 0x1_0000_0000)
                by (bit_vector)
                requires
                    shift < 32,
                    before < (1u32 << shift),
                    bits < 128,
            ;
            assert(result == group_value(input@.take(i + 1)) % 0x1_0000_0000);
            if i + 1 < 5 {
                lemma_group_value_bound(input@.take(i + 1));
                reveal_with_fuel(place, 5);
            }
        }
        if (byte & 0x80) == 0 {
            proof {
                lemma_continued_len(input@, i as nat);
            }
            return Ok((result, i + 1));
        }
        shift += 7;
        i += 1;
    }
    proof {
        lemma_continued_len(input@, i as nat);
    }
    Err(VarintError::UnexpectedEof)
}

/// Appends the encoding of `value` to `out`.
pub fn encode_u64_varint(value: u64, out: &mut Vec<u8>)
    ensures
        final(out)@ == old(out)@ + varint_bytes(value as nat),
{
    let mut value = value;
    let ghost start = out@;
    let ghost whole = varint_bytes(value as nat);
    while value >= 0x80
        invariant
            out@ + varint_bytes(value as nat) == start + whole,
        decreases value,
    {
        let low: u8 = ((value as u8) & 0x7F) | 0x80;
        proof {
            assert(((value as u8) & 0x7F) | 0x80 == (value % 0x80 + 0x80) as u8) by (bit_vector);
            assert(value >> 7 == value / 0x80) by (bit_vector);
            assert(out@.push(low) + varint_bytes((value / 0x80) as nat) =~= out@ + varint_bytes(
                value as nat,
            ));
        }
        out.push(low);
        value >>= 7;
    }
    out.push(value as u8);
    assert(start + whole =~= old(out)@ + whole);
}

/// Reads one 64-bit varint from the front of `input`: the value and the
/// number of bytes it took.
pub fn decode_u64_varint(input: &[u8]) -> (result: Result<(u64, usize), VarintError>)
    ensures
        result == parse_u64_varint(input@),
{
    let mut result: u64 = 0;
    let mut shift: u64 = 0;
    let mut i: usize = 0;
    while i < input.len()
        invariant
            i <= input.len(),
            i <= 10,
            shift == 7 * i,
            forall|j: int| 0 <= j < i ==> input@[j] >= 0x80,
            i < 10 ==> result == group_value(input@.take(i as int)),
        decreases input.len() - i,
    {
        let byte = input[i];
        let bits = (byte & 0x7F) as u64;
        if shift >= 64 {
            proof {
                lemma_continued_len(input@, 10);
            }
            return Err(VarintError::Overflow);
        }
        let ghost before = result;
        result |= bits << shift;
        proof {
            let prefix = input@.take(i as int);
            assert(byte & 0x7F == byte % 0x80) by (bit_vector);
            assert((byte & 0x80) == 0 <==> byte < 0x80) by (bit_vector);
            lemma_place_shift(i as nat);
            lemma_group_value_bound(prefix);
            lemma_group_value_push(prefix, byte);
            assert(prefix.push(byte) =~= input@.take(i + 1));
            assert((before | (bits << shift)) == (before + bits * (1u64 << shift))
                % 0x1_0000_0000_0000_0000) by (bit_vector)
                requires
                    shift < 64,
                    before < (1u64 << shift),
                    bits < 128,
            ;
            assert(result == group_value(input@.take(i + 1)) % 0x1_0000_0000_0000_0000);
            if i + 1 < 10 {
                lemma_group_value_bound(input@.take(i + 1));
                reveal_with_fuel(place, 10);
            }
        }
        if (byte & 0x80) == 0 {
            proof {
                lemma_continued_len(input@, i as nat);
            }
            return Ok((result, i + 1));
        }
        shift += 7;
        i += 1;
    }
    proof {
        lemma_continued_len(input@, i as nat);
    }
    Err(VarintError::UnexpectedEof)
}

/// `continued_len` is at least any count of leading continuation bytes, and
/// is that count when the run stops there.
pub proof fn lemma_continued_len(bytes: Seq<u8>, i: nat)
    requires
        i <= bytes.len(),
        forall|j: int| 0 <= j < i ==> bytes[j] >= 0x80,
    ensures
        continued_len(bytes) >= i,
        i == bytes.len() || bytes[i as int] < 0x80 ==> continued_len(bytes) == i,
    decreases i,
{
    if i > 0 {
        let tail = bytes.drop_first();
        assert(bytes[0] >= 0x80);
        assert forall|j: int| 0 <= j < i - 1 implies tail[j] >= 0x80 by {
            assert(tail[j] == bytes[j + 1]);
        }
        lemma_continued_len(tail, (i - 1) as nat);
    }
}

/// A group appended at the end is weighted by its index.
pub proof fn lemma_group_value_push(bytes: Seq<u8>, last: u8)
    ensures
        group_value(bytes.push(last)) == group_value(bytes) + (last % 0x80) * place(bytes.len()),
    decreases bytes.len(),
{
    let whole = bytes.push(last);
    let g = (last % 0x80) as nat;
    if bytes.len() == 0 {
        assert(whole.drop_first() =~= Seq::<u8>::empty());
        assert(group_value(whole) == g + 0x80 * group_value(whole.drop_first()));
        assert(place(0) == 1);
    } else {
        let tail = bytes.drop_first();
        let p = place(tail.len());
        assert(whole.drop_first() =~= tail.push(last));
        lemma_group_value_push(tail, last);
        assert(group_value(whole) == (bytes[0] % 0x80) + 0x80 * group_value(tail.push(last)));
        assert(place(bytes.len()) == 0x80 * p);
        assert(0x80 * (g * p) == g * (0x80 * p)) by (nonlinear_arith);
    }
}

/// `n` groups spell a number below `place(n)`.
pub proof fn lemma_group_value_bound(bytes: Seq<u8>)
    ensures
        group_value(bytes) < place(bytes.len()),
    decreases bytes.len(),
{
    if bytes.len() > 0 {
        lemma_group_value_bound(bytes.drop_first());
    }
}

/// The weight of group `i` is one bit shifted left by `7 * i`.
proof fn lemma_place_shift(i: nat)
    requires
        i < 10,
    ensures
        place(i) == 1u64 << ((7 * i) as u64),
        i < 5 ==> place(i) == 1u32 << ((7 * i) as u32),
    decreases i,
{
    if i == 0 {
        assert(1u64 << 0u64 == 1) by (bit_vector);
        assert(1u32 << 0u32 == 1) by (bit_vector);
    } else {
        lemma_place_shift((i - 1) as nat);
        let s: u64 = (7 * (i - 1)) as u64;
        assert((1u64 << ((s + 7) as u64)) == 0x80 * (1u64 << s)) by (bit_vector)
            requires
                s <= 56,
        ;
        if i < 5 {
            let t: u32 = (7 * (i - 1)) as u32;
            assert((1u32 << ((t + 7) as u32)) == 0x80 * (1u32 << t)) by (bit_vector)
                requires
                    t <= 21,
            ;
        }
    }
}

/// The shape of an encoding: at least one byte, every byte but the last
/// carries the continuation bit, and the groups spell the value.
pub proof fn lemma_varint_bytes_shape(value: nat)
    ensures
        varint_bytes(value).len() >= 1,
        forall|j: int| 0 <= j < varint_bytes(value).len() - 1 ==> varint_bytes(value)[j] >= 0x80,
        varint_bytes(value).last() < 0x80,
        group_value(varint_bytes(value)) == value,
    decreases value,
{
    let enc = varint_bytes(value);
    assert(group_value(enc) == enc[0] % 0x80 + 0x80 * group_value(enc.drop_first()));
    if value < 0x80 {
        assert(enc.drop_first() =~= Seq::<u8>::empty());
        assert(group_value(enc.drop_first()) == 0);
    } else {
        let rest = varint_bytes(value / 0x80);
        lemma_varint_bytes_shape(value / 0x80);
        assert(enc.drop_first() =~= rest);
        assert(enc[0] == continuation_byte(value));
        assert forall|j: int| 0 <= j < enc.len() - 1 implies enc[j] >= 0x80 by {
            if j > 0 {
                assert(enc[j] == rest[j - 1]);
            }
        }
        assert(enc.last() == rest.last());
    }
}

/// A value below `place(groups)` is encoded in at most `groups` bytes.
pub proof fn lemma_varint_bytes_len(value: nat, groups: nat)
    requires
        groups >= 1,
        value < place(groups),
    ensures
        varint_bytes(value).len() <= groups,
    decreases groups,
{
    if value >= 0x80 {
        assert(place(1) == 0x80) by {
            reveal_with_fuel(place, 2);
        }
        lemma_varint_bytes_len(value / 0x80, (groups - 1) as nat);
    }
}

/// Reading back an encoding, whatever follows it in the buffer, gives the
/// value and the length of the encoding.
pub proof fn lemma_parse_varint_bytes(value: nat, rest: Seq<u8>, groups: nat, modulus: nat)
    requires
        groups >= 1,
        value < place(groups),
        value < modulus,
    ensures
        parse_varint(varint_bytes(value) + rest, groups, modulus) == Ok::<(nat, nat), VarintError>(
            (value, varint_bytes(value).len()),
        ),
        1 <= varint_bytes(value).len() <= groups,
{
    let enc = varint_bytes(value);
    let bytes = enc + rest;
    lemma_varint_bytes_shape(value);
    lemma_varint_bytes_len(value, groups);
    let k = (enc.len() - 1) as nat;
    assert(bytes[k as int] == enc.last());
    assert forall|j: int| 0 <= j < k implies bytes[j] >= 0x80 by {
        assert(bytes[j] == enc[j]);
    }
    lemma_continued_len(bytes, k);
    assert(bytes.take((k + 1) as int) =~= enc);
    assert(value % modulus == value) by (nonlinear_arith)
        requires
            value < modulus,
    ;
}

/// A buffer that starts with the encoding of a 32-bit value decodes to that
/// value and the encoding's length, whatever follows.
pub proof fn lemma_u32_varint_prefix(value: u32, rest: Seq<u8>)
    ensures
        parse_u32_varint(varint_bytes(value as nat) + rest) == Ok::<(u32, usize), VarintError>(
            (value, varint_bytes(value as nat).len() as usize),
        ),
        1 <= varint_bytes(value as nat).len() <= 5,
{
    assert(place(5) == 0x8_0000_0000) by {
        reveal_with_fuel(place, 6);
    }
    lemma_parse_varint_bytes(value as nat, rest, groups_u32(), 0x1_0000_0000);
}

/// A buffer that starts with the encoding of a 64-bit value decodes to that
/// value and the encoding's length, whatever follows.
pub proof fn lemma_u64_varint_prefix(value: u64, rest: Seq<u8>)
    ensures
        parse_u64_varint(varint_bytes(value as nat) + rest) == Ok::<(u64, usize), VarintError>(
            (value, varint_bytes(value as nat).len() as usize),
        ),
        1 <= varint_bytes(value as nat).len() <= 10,
{
    assert(place(10) == 0x40_0000_0000_0000_0000) by {
        reveal_with_fuel(place, 11);
    }
    lemma_parse_varint_bytes(value as nat, rest, groups_u64(), 0x1_0000_0000_0000_0000);
}

/// Decoding the encoding of any 32-bit value returns that value and reads the
/// whole encoding, which is one to five bytes long.
pub proof fn lemma_u32_varint_round_trip(value: u32)
    ensures
        parse_u32_varint(varint_bytes(value as nat)) == Ok::<(u32, usize), VarintError>(
            (value, varint_bytes(value as nat).len() as usize),
        ),
        1 <= varint_bytes(value as nat).len() <= 5,
{
    lemma_u32_varint_prefix(value, Seq::empty());
    assert(varint_bytes(value as nat) + Seq::<u8>::empty() =~= varint_bytes(value as nat));
}

/// Decoding the encoding of any 64-bit value returns that value and reads the
/// whole encoding, which is one to ten bytes long.
pub proof fn lemma_u64_varint_round_trip(value: u64)
    ensures
        parse_u64_varint(varint_bytes(value as nat)) == Ok::<(u64, usize), VarintError>(
            (value, varint_bytes(value as nat).len() as usize),
        ),
        1 <= varint_bytes(value as nat).len() <= 10,
{
    lemma_u64_varint_prefix(value, Seq::empty());
    assert(varint_bytes(value as nat) + Seq::<u8>::empty() =~= varint_bytes(value as nat));
}

/// A buffer that stops inside an encoding is incomplete: every strict prefix
/// of the encoding of a 32-bit value asks for more bytes.
pub proof fn lemma_u32_varint_truncated(value: u32, len: nat)
    requires
        len < varint_bytes(value as nat).len(),
    ensures
        parse_u32_varint(varint_bytes(value as nat).take(len as int)) == Err::<
            (u32, usize),
            VarintError,
        >(VarintError::UnexpectedEof),
{
    let enc = varint_bytes(value as nat);
    let cut = enc.take(len as int);
    lemma_u32_varint_round_trip(value);
    lemma_varint_bytes_shape(value as nat);
    assert forall|j: int| 0 <= j < len implies cut[j] >= 0x80 by {
        assert(cut[j] == enc[j]);
    }
    lemma_continued_len(cut, len);
}

/// Every strict prefix of the encoding of a 64-bit value asks for more bytes.
pub proof fn lemma_u64_varint_truncated(value: u64, len: nat)
    requires
        len < varint_bytes(value as nat).len(),
    ensures
        parse_u64_varint(varint_bytes(value as nat).take(len as int)) == Err::<
            (u64, usize),
            VarintError,
        >(VarintError::UnexpectedEof),
{
    let enc = varint_bytes(value as nat);
    let cut = enc.take(len as int);
    lemma_u64_varint_round_trip(value);
    lemma_varint_bytes_shape(value as nat);
    assert forall|j: int| 0 <= j < len implies cut[j] >= 0x80 by {
        assert(cut[j] == enc[j]);
    }
    lemma_continued_len(cut, len);
}

} // verus!
