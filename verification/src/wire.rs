//! The primitives of the wire format: variable-length integers and fields.

use vstd::prelude::*;
use vstd::slice::slice_subrange;

verus! {

/// `prost::DecodeError`, the error of `prost::encoding::decode_varint`: it is
/// carried from the call to the place that maps it, and nothing is read from
/// it.
#[verifier::external_type_specification]
#[verifier::external_body]
pub struct ExProstDecodeError(prost::DecodeError);

/// Why bytes did not decode: they are not a message of the schema.
#[derive(Clone, Copy, Debug, PartialEq, Eq, Structural)]
pub enum DecodingError {
    /// The bytes are cut short or break the wire format.
    Malformed,
}

/// The little-endian base-128 form of `v`: seven bits to a byte, lowest
/// first, the top bit set on every byte but the last.
pub open spec fn varint(v: nat) -> Seq<u8>
    decreases v,
{
    if v < 128 {
        seq![v as u8]
    } else {
        seq![((v % 128) + 128) as u8] + varint(v / 128)
    }
}

/// Reads a base-128 integer from `s`, whose byte at `count` is the digit of
/// that rank: the value of the digits from there on, and the index behind the
/// last of them. `None` where `s` ends before the last digit, where there are
/// more than ten digits, or where the tenth does not fit into 64 bits.
pub open spec fn varint_from(s: Seq<u8>, count: nat) -> Option<(nat, nat)>
    decreases 10 - count,
{
    if count >= 10 || count >= s.len() {
        None
    } else if s[count as int] < 0x80 {
        if count == 9 && s[count as int] >= 2 {
            None
        } else {
            Some((s[count as int] as nat, count + 1))
        }
    } else {
        match varint_from(s, count + 1) {
            Some((v, n)) => Some((((s[count as int] - 0x80) + 128 * v) as nat, n)),
            None => None,
        }
    }
}

/// The base-128 integer at the head of `s` and the number of bytes it takes.
pub open spec fn varint_prefix(s: Seq<u8>) -> Option<(nat, nat)> {
    varint_from(s, 0)
}

/// The number of bits that the digits from rank `count` up to the last digit,
/// which stands before index `n`, can fill.
pub open spec fn varint_bits(count: nat, n: nat) -> nat {
    if n == 10 {
        (64 - 7 * count) as nat
    } else {
        (7 * (n - count)) as nat
    }
}

/// A base-128 integer that is read takes at least one byte, lies within the
/// bytes, and fits into 64 bits.
pub proof fn lemma_varint_from_bounds(s: Seq<u8>, count: nat)
    ensures
        varint_from(s, count) matches Some((v, n)) ==> count < n <= s.len() && n <= 10 && v
            < vstd::arithmetic::power2::pow2(varint_bits(count, n)) && (count == 0 ==> v
            <= u64::MAX),
    decreases 10 - count,
{
    vstd::arithmetic::power2::lemma2_to64();
    if count >= 10 || count >= s.len() {
    } else if s[count as int] < 0x80 {
    } else {
        lemma_varint_from_bounds(s, count + 1);
        match varint_from(s, count + 1) {
            Some((v, n)) => {
                let e = varint_bits(count + 1, n);
                vstd::arithmetic::power2::lemma_pow2_adds(7, e);
                assert(varint_bits(count, n) == 7 + e);
                assert(128 * v + 127 < 128 * vstd::arithmetic::power2::pow2(e))
                    by (nonlinear_arith)
                    requires
                        v < vstd::arithmetic::power2::pow2(e),
                ;
            },
            None => {},
        }
    }
    if count == 0 {
        match varint_from(s, count) {
            Some((v, n)) => {
                if n < 10 {
                    vstd::arithmetic::power2::lemma_pow2_strictly_increases(
                        varint_bits(count, n),
                        64,
                    );
                }
            },
            None => {},
        }
    }
}

/// Appends the base-128 form of `value` to `buf`, by
/// `prost::encoding::encode_varint`: the bytes that were there stay, and
/// the bytes that follow them are `varint(value)`.
#[verifier::external_body]
pub(crate) fn put_varint(value: u64, buf: &mut Vec<u8>)
    ensures
        final(buf)@ == old(buf)@ + varint(value as nat),
{
    prost::encoding::encode_varint(value, buf)
}

/// Reads a base-128 integer from the head of `buf`, by
/// `prost::encoding::decode_varint`: where `varint_prefix` finds one, its
/// value and the bytes behind it; an error otherwise.
#[verifier::external_body]
pub(crate) fn take_varint<'a>(buf: &'a [u8]) -> (r: Result<(u64, &'a [u8]), prost::DecodeError>)
    ensures
        match varint_prefix(buf@) {
            Some((v, n)) => r.is_ok() && r.unwrap().0 == v && r.unwrap().1@ == buf@.skip(n as int),
            None => r.is_err(),
        },
{
    let mut rest = buf;
    let value = prost::encoding::decode_varint(&mut rest)?;
    Ok((value, rest))
}

/// One field of a message as it stands on the wire.
pub ghost struct FieldView {
    /// The number of the field in its message.
    pub tag: nat,
    /// How the value is laid out: 0 for a base-128 integer, 1 for eight
    /// bytes, 2 for a length and that many bytes, 5 for four bytes.
    pub wire: nat,
    /// The value of a base-128 integer; zero for the other layouts.
    pub scalar: nat,
    /// The bytes of the value for the other layouts; empty for an integer.
    pub payload: Seq<u8>,
    /// The number of bytes that key and value take together.
    pub consumed: nat,
}

/// The bytes of a value laid out as `wire` at the head of `s`, with the
/// number of bytes that the layout takes in all.
pub open spec fn value_prefix(s: Seq<u8>, wire: nat) -> Option<(nat, Seq<u8>, nat)> {
    if wire == 0 {
        match varint_prefix(s) {
            Some((v, n)) => Some((v, Seq::<u8>::empty(), n)),
            None => None,
        }
    } else if wire == 1 {
        if s.len() < 8 {
            None
        } else {
            Some((0, s.subrange(0, 8), 8))
        }
    } else if wire == 5 {
        if s.len() < 4 {
            None
        } else {
            Some((0, s.subrange(0, 4), 4))
        }
    } else if wire == 2 {
        match varint_prefix(s) {
            Some((len, n)) => if len > s.len() - n {
                None
            } else {
                Some((0, s.subrange(n as int, (n + len) as int), n + len))
            },
            None => None,
        }
    } else {
        None
    }
}

/// The key at the head of `s`: a base-128 integer below 2^32 whose low three
/// bits give a layout from 0 to 5 and whose other bits give a field number
/// above zero. Gives the field number, the layout and the length of the key.
pub open spec fn key_prefix(s: Seq<u8>) -> Option<(nat, nat, nat)> {
    match varint_prefix(s) {
        None => None,
        Some((key, n)) => if key > u32::MAX || key % 8 > 5 || key / 8 == 0 {
            None
        } else {
            Some((key / 8, key % 8, n))
        },
    }
}

/// The number of bytes that a value of field `tag` laid out as `wire` takes
/// at the head of `s` when it is passed over without being read. A group
/// (layout 3) is passed over field by field up to the key that ends it; a
/// key that ends a group (layout 4) stands for no value. `budget` is the
/// depth of nesting that is left: nothing is passed over with none left.
pub open spec fn skipped_value(s: Seq<u8>, tag: nat, wire: nat, budget: nat) -> Option<nat>
    decreases s.len(), 1nat,
{
    if budget == 0 {
        None
    } else if wire == 3 {
        group_body(s, tag, budget)
    } else {
        match value_prefix(s, wire) {
            Some((_, _, n)) => Some(n),
            None => None,
        }
    }
}

/// The number of bytes that the rest of the group of field `tag` takes at
/// the head of `s`, up to and with the key that ends it, which must bear the
/// same field number. The fields in the group have one level of nesting less
/// to spend.
pub open spec fn group_body(s: Seq<u8>, tag: nat, budget: nat) -> Option<nat>
    decreases s.len(), 0nat,
{
    match key_prefix(s) {
        None => None,
        Some((inner_tag, inner_wire, n)) => if n == 0 || n > s.len() || budget == 0 {
            None
        } else if inner_wire == 4 {
            if inner_tag == tag {
                Some(n)
            } else {
                None
            }
        } else {
            match skipped_value(s.skip(n as int), inner_tag, inner_wire, (budget - 1) as nat) {
                None => None,
                Some(m) => if m > s.len() - n {
                    None
                } else {
                    match group_body(s.skip((n + m) as int), tag, budget) {
                        Some(k) => Some(n + m + k),
                        None => None,
                    }
                },
            }
        },
    }
}

/// The field at the head of `s`: a key and then the value. The bytes of a
/// group are not given out, only counted. `budget` is the depth of nesting
/// that groups may still take.
pub open spec fn field_prefix(s: Seq<u8>, budget: nat) -> Option<FieldView> {
    match key_prefix(s) {
        None => None,
        Some((tag, wire, n)) => if wire == 3 {
            match group_body(s.skip(n as int), tag, budget) {
                Some(k) => Some(
                    FieldView { tag, wire, scalar: 0, payload: Seq::<u8>::empty(), consumed: n + k },
                ),
                None => None,
            }
        } else {
            match value_prefix(s.skip(n as int), wire) {
                Some((scalar, payload, m)) => Some(
                    FieldView { tag, wire, scalar, payload, consumed: n + m },
                ),
                None => None,
            }
        },
    }
}

/// A value that is read lies within the bytes, and an integer fits 64 bits.
pub proof fn lemma_value_prefix_bounds(s: Seq<u8>, wire: nat)
    ensures
        value_prefix(s, wire) matches Some((scalar, payload, n)) ==> n <= s.len() && scalar
            <= u64::MAX,
{
    lemma_varint_from_bounds(s, 0);
}

/// A group that is passed over lies within the bytes.
pub proof fn lemma_group_body_bounds(s: Seq<u8>, tag: nat, budget: nat)
    ensures
        group_body(s, tag, budget) matches Some(k) ==> 0 < k <= s.len(),
    decreases s.len(),
{
    match key_prefix(s) {
        None => {},
        Some((inner_tag, inner_wire, n)) => {
            if n == 0 || n > s.len() || budget == 0 {
            } else if inner_wire == 4 {
            } else {
                match skipped_value(s.skip(n as int), inner_tag, inner_wire, (budget - 1) as nat) {
                    None => {},
                    Some(m) => {
                        if m <= s.len() - n {
                            lemma_group_body_bounds(s.skip((n + m) as int), tag, budget);
                        }
                    },
                }
            }
        },
    }
}

/// A field that is read takes at least one byte and lies within the bytes.
pub proof fn lemma_field_prefix_bounds(s: Seq<u8>, budget: nat)
    ensures
        field_prefix(s, budget) matches Some(f) ==> 0 < f.consumed <= s.len() && f.tag > 0
            && f.tag < 0x2000_0000 && f.scalar <= u64::MAX && f.wire <= 5,
{
    lemma_varint_from_bounds(s, 0);
    match key_prefix(s) {
        None => {},
        Some((tag, wire, n)) => {
            lemma_value_prefix_bounds(s.skip(n as int), wire);
            lemma_group_body_bounds(s.skip(n as int), tag, budget);
        },
    }
}

/// A field as `read_field` hands it out.
#[derive(Clone, Copy, Debug)]
pub struct Field<'a> {
    /// The number of the field in its message.
    pub tag: u32,
    /// The layout of the value.
    pub wire: u8,
    /// The value of a base-128 integer.
    pub scalar: u64,
    /// The bytes of a value of another layout; empty for a group.
    pub payload: &'a [u8],
}

impl<'a> View for Field<'a> {
    type V = FieldView;

    open spec fn view(&self) -> FieldView {
        FieldView {
            tag: self.tag as nat,
            wire: self.wire as nat,
            scalar: self.scalar as nat,
            payload: self.payload@,
            consumed: 0,
        }
    }
}

/// Reads the key at the head of `buf` and gives the field number and the
/// layout with the bytes behind the key.
pub fn read_key<'a>(buf: &'a [u8]) -> (r: Result<(u32, u8, &'a [u8]), DecodingError>)
    ensures
        match key_prefix(buf@) {
            Some((tag, wire, n)) => r.is_ok() && r.unwrap().0 == tag && r.unwrap().1 == wire
                && r.unwrap().2@ == buf@.skip(n as int) && 0 < n <= buf@.len() && tag > 0
                && wire <= 5,
            None => r == Err::<(u32, u8, &'a [u8]), DecodingError>(DecodingError::Malformed),
        },
{
    proof {
        lemma_varint_from_bounds(buf@, 0);
    }
    match take_varint(buf) {
        Ok((key, rest)) => {
            if key > 0xffff_ffff || key % 8 > 5 || key / 8 == 0 {
                Err(DecodingError::Malformed)
            } else {
                Ok(((key / 8) as u32, (key % 8) as u8, rest))
            }
        },
        Err(_) => Err(DecodingError::Malformed),
    }
}

/// Reads a value laid out as `wire`, which is no group, from the head of
/// `buf`: the integer, the bytes, and the bytes behind the value.
pub fn read_value<'a>(buf: &'a [u8], wire: u8) -> (r: Result<
    (u64, &'a [u8], &'a [u8]),
    DecodingError,
>)
    ensures
        match value_prefix(buf@, wire as nat) {
            Some((scalar, payload, n)) => r.is_ok() && r.unwrap().0 == scalar && r.unwrap().1@
                == payload && r.unwrap().2@ == buf@.skip(n as int) && n <= buf@.len(),
            None => r == Err::<(u64, &'a [u8], &'a [u8]), DecodingError>(
                DecodingError::Malformed,
            ),
        },
{
    proof {
        lemma_varint_from_bounds(buf@, 0);
    }
    if wire == 0 {
        match take_varint(buf) {
            Ok((scalar, next)) => {
                let empty = slice_subrange(next, 0, 0);
                proof {
                    assert(empty@ == Seq::<u8>::empty());
                }
                Ok((scalar, empty, next))
            },
            Err(_) => Err(DecodingError::Malformed),
        }
    } else if wire == 1 || wire == 5 {
        let width: usize = if wire == 1 {
            8
        } else {
            4
        };
        if buf.len() < width {
            return Err(DecodingError::Malformed);
        }
        let payload = slice_subrange(buf, 0, width);
        let next = slice_subrange(buf, width, buf.len());
        Ok((0, payload, next))
    } else if wire == 2 {
        match take_varint(buf) {
            Ok((len, body)) => {
                if len > body.len() as u64 {
                    return Err(DecodingError::Malformed);
                }
                let len: usize = len as usize;
                let payload = slice_subrange(body, 0, len);
                let next = slice_subrange(body, len, body.len());
                proof {
                    let m = varint_prefix(buf@).unwrap().1;
                    assert(payload@ == buf@.subrange(m as int, m + len));
                    assert(next@ == buf@.skip((m + len) as int));
                }
                Ok((0, payload, next))
            },
            Err(_) => Err(DecodingError::Malformed),
        }
    } else {
        Err(DecodingError::Malformed)
    }
}

/// Passes over a value of field `tag` laid out as `wire` at the head of
/// `buf` and gives the bytes behind it.
pub fn skip_value<'a>(buf: &'a [u8], tag: u32, wire: u8, budget: u32) -> (r: Result<
    &'a [u8],
    DecodingError,
>)
    ensures
        match skipped_value(buf@, tag as nat, wire as nat, budget as nat) {
            Some(n) => r.is_ok() && n <= buf@.len() && r.unwrap()@ == buf@.skip(n as int),
            None => r == Err::<&'a [u8], DecodingError>(DecodingError::Malformed),
        },
    decreases budget, 1nat,
{
    if budget == 0 {
        Err(DecodingError::Malformed)
    } else if wire == 3 {
        skip_group(buf, tag, budget)
    } else {
        match read_value(buf, wire) {
            Ok((_, _, next)) => Ok(next),
            Err(e) => Err(e),
        }
    }
}

/// Passes over the rest of the group of field `tag` at the head of `buf`,
/// with the key that ends it, and gives the bytes behind it.
pub fn skip_group<'a>(buf: &'a [u8], tag: u32, budget: u32) -> (r: Result<
    &'a [u8],
    DecodingError,
>)
    ensures
        match group_body(buf@, tag as nat, budget as nat) {
            Some(k) => r.is_ok() && 0 < k <= buf@.len() && r.unwrap()@ == buf@.skip(k as int),
            None => r == Err::<&'a [u8], DecodingError>(DecodingError::Malformed),
        },
    decreases budget, 0nat,
{
    if budget == 0 {
        return Err(DecodingError::Malformed);
    }
    let mut rest = buf;
    let ghost mut consumed: nat = 0;
    proof {
        assert(buf@.skip(0) == buf@);
    }
    loop
        invariant
            budget > 0,
            consumed <= buf@.len(),
            rest@ == buf@.skip(consumed as int),
            match group_body(rest@, tag as nat, budget as nat) {
                Some(k) => group_body(buf@, tag as nat, budget as nat) == Some(consumed + k),
                None => group_body(buf@, tag as nat, budget as nat).is_none(),
            },
        decreases rest@.len(),
    {
        proof {
            lemma_group_body_bounds(rest@, tag as nat, budget as nat);
        }
        let (inner_tag, inner_wire, behind_key) = match read_key(rest) {
            Ok(key) => key,
            Err(e) => {
                return Err(e);
            },
        };
        let ghost n = key_prefix(rest@).unwrap().2;
        proof {
            assert(behind_key@ == buf@.skip((consumed + n) as int));
        }
        if inner_wire == 4 {
            if inner_tag == tag {
                return Ok(behind_key);
            } else {
                return Err(DecodingError::Malformed);
            }
        }
        let after = match skip_value(behind_key, inner_tag, inner_wire, budget - 1) {
            Ok(after) => after,
            Err(e) => {
                return Err(e);
            },
        };
        proof {
            let m = skipped_value(
                behind_key@,
                inner_tag as nat,
                inner_wire as nat,
                (budget - 1) as nat,
            ).unwrap();
            assert(after@ == rest@.skip((n + m) as int));
            assert(after@ == buf@.skip((consumed + n + m) as int));
            consumed = consumed + n + m;
        }
        rest = after;
    }
}

/// Reads the field at the head of `buf` and gives it with the bytes behind
/// it, or fails where `field_prefix` finds no field.
pub fn read_field<'a>(buf: &'a [u8], budget: u32) -> (r: Result<
    (Field<'a>, &'a [u8]),
    DecodingError,
>)
    ensures
        match field_prefix(buf@, budget as nat) {
            Some(f) => r.is_ok() && r.unwrap().0@ == (FieldView { consumed: 0, ..f })
                && r.unwrap().1@ == buf@.skip(f.consumed as int) && 0 < f.consumed <= buf@.len(),
            None => r == Err::<(Field<'a>, &'a [u8]), DecodingError>(DecodingError::Malformed),
        },
{
    proof {
        lemma_field_prefix_bounds(buf@, budget as nat);
    }
    let (tag, wire, rest) = match read_key(buf) {
        Ok(key) => key,
        Err(e) => {
            return Err(e);
        },
    };
    let ghost n = key_prefix(buf@).unwrap().2;
    if wire == 3 {
        match skip_group(rest, tag, budget) {
            Ok(next) => {
                let empty = slice_subrange(next, 0, 0);
                proof {
                    let k = group_body(rest@, tag as nat, budget as nat).unwrap();
                    assert(next@ == buf@.skip((n + k) as int));
                    assert(empty@ == Seq::<u8>::empty());
                }
                Ok((Field { tag, wire, scalar: 0, payload: empty }, next))
            },
            Err(e) => Err(e),
        }
    } else {
        match read_value(rest, wire) {
            Ok((scalar, payload, next)) => {
                proof {
                    let m = value_prefix(rest@, wire as nat).unwrap().2;
                    assert(next@ == buf@.skip((n + m) as int));
                }
                Ok((Field { tag, wire, scalar, payload }, next))
            },
            Err(e) => Err(e),
        }
    }
}

/// The bound below which an integer whose lowest digit has rank `count` fits
/// into 64 bits: 2 to the power of 64 less seven for each rank.
pub open spec fn varint_room(count: nat) -> nat
    decreases 10 - count,
{
    if count >= 9 {
        2
    } else {
        128 * varint_room(count + 1)
    }
}

/// Reading gives back what was written, digit by digit: behind `pre`, the
/// digits of `x` are read as `x`, whatever follows them.
pub proof fn lemma_varint_from_written(pre: Seq<u8>, x: nat, tail: Seq<u8>)
    requires
        pre.len() <= 9,
        x < varint_room(pre.len()),
    ensures
        varint_from(pre + varint(x) + tail, pre.len()) == Some(
            (x, pre.len() + varint(x).len()),
        ),
    decreases x,
{
    let count = pre.len();
    let s = pre + varint(x) + tail;
    assert(s[count as int] == varint(x)[0]);
    if x < 128 {
    } else {
        let first = ((x % 128) + 128) as u8;
        let next = pre.push(first);
        assert(count < 9);
        assert(x / 128 < varint_room(count + 1));
        lemma_varint_from_written(next, x / 128, tail);
        assert(next + varint(x / 128) + tail =~= s);
        assert(varint(x).len() == 1 + varint(x / 128).len());
    }
}

/// A written integer is read back with its length, whatever follows it.
pub proof fn lemma_varint_round_trip(x: nat, tail: Seq<u8>)
    requires
        x <= u64::MAX,
    ensures
        varint_prefix(varint(x) + tail) == Some((x, varint(x).len())),
{
    reveal_with_fuel(varint_room, 11);
    assert(varint_room(0) == 0x1_0000_0000_0000_0000);
    lemma_varint_from_written(Seq::<u8>::empty(), x, tail);
    assert(Seq::<u8>::empty() + varint(x) + tail =~= varint(x) + tail);
}

/// A written field of bytes under a one-byte key is read back as that field,
/// whatever follows it.
pub proof fn lemma_bytes_field_round_trip(key: u8, data: Seq<u8>, tail: Seq<u8>, budget: nat)
    requires
        8 <= key < 0x80,
        key % 8 == 2,
        data.len() <= u64::MAX,
    ensures
        field_prefix(bytes_field(key, data) + tail, budget) == Some(
            FieldView {
                tag: (key / 8) as nat,
                wire: 2,
                scalar: 0,
                payload: data,
                consumed: bytes_field(key, data).len(),
            },
        ),
        (bytes_field(key, data) + tail).skip(bytes_field(key, data).len() as int) == tail,
{
    let s = bytes_field(key, data) + tail;
    assert(s[0] == key);
    assert(varint_prefix(s) == Some((key as nat, 1nat)));
    assert(key_prefix(s) == Some(((key / 8) as nat, 2nat, 1nat)));
    let rest = s.skip(1);
    assert(rest =~= varint(data.len()) + (data + tail));
    lemma_varint_round_trip(data.len(), data + tail);
    let n = varint(data.len()).len();
    assert(rest.subrange(n as int, (n + data.len()) as int) =~= data);
    assert(s.skip(bytes_field(key, data).len() as int) =~= tail);
}

/// The two bytes that set a flag in field 3 are read back as that field.
pub proof fn lemma_flag_round_trip(budget: nat)
    ensures
        field_prefix(seq![0x18u8, 0x01u8], budget) == Some(
            FieldView { tag: 3, wire: 0, scalar: 1, payload: Seq::<u8>::empty(), consumed: 2 },
        ),
        seq![0x18u8, 0x01u8].skip(2).len() == 0,
{
    let mark = seq![0x18u8, 0x01u8];
    reveal_with_fuel(varint_from, 2);
    assert(mark[0] == 0x18u8 && mark[1] == 0x01u8);
    assert(varint_prefix(mark) == Some((0x18nat, 1nat)));
    assert(mark.skip(1)[0] == 0x01u8);
    assert(varint_prefix(mark.skip(1)) == Some((1nat, 1nat)));
    assert(key_prefix(mark) == Some((3nat, 0nat, 1nat)));
}

/// Appends `data` to `buf`.
pub fn put_bytes(buf: &mut Vec<u8>, data: &[u8])
    ensures
        final(buf)@ == old(buf)@ + data@,
{
    let mut i: usize = 0;
    while i < data.len()
        invariant
            i <= data.len(),
            buf@ == old(buf)@ + data@.take(i as int),
        decreases data.len() - i,
    {
        buf.push(data[i]);
        proof {
            assert(data@.take(i + 1) == data@.take(i as int).push(data@[i as int]));
        }
        i += 1;
    }
    proof {
        assert(data@.take(i as int) == data@);
    }
}

/// A field of bytes on the wire: the key, the length, the bytes.
pub open spec fn bytes_field(key: u8, data: Seq<u8>) -> Seq<u8> {
    seq![key] + varint(data.len()) + data
}

/// Appends a field of bytes with the one-byte key `key` to `buf`.
pub fn put_bytes_field(buf: &mut Vec<u8>, key: u8, data: &[u8])
    ensures
        final(buf)@ == old(buf)@ + bytes_field(key, data@),
{
    buf.push(key);
    put_varint(data.len() as u64, buf);
    put_bytes(buf, data);
    proof {
        assert(buf@ == old(buf)@ + bytes_field(key, data@));
    }
}

} // verus!
