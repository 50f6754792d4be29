//! The handshake/status half of the game's wire format: varints, big-endian
//! shorts, length-prefixed strings and the packet envelope.

use vstd::prelude::*;
use vstd::slice::slice_subrange;
use vstd::string::StringSliceAdditionalSpecFns;
use vstd::utf8::valid_utf8;

verus! {

/// Protocol version announced in the handshake.
pub const PROTOCOL_VERSION: i32 = 764;

/// Handshake `next_state` that asks for the status exchange.
pub const NEXT_STATE_STATUS: i32 = 1;

/// Bound on the byte length of the host name in the handshake.
pub const MAX_HOST_LEN: u16 = 32767;

/// Packet id of the handshake, the status request and the status response.
pub const STATUS_PACKET_ID: i32 = 0;

/// Number of bytes that the varint of `v` occupies, by value range.
/// Negative values are encoded through their unsigned 32-bit reinterpretation
/// and so always take five bytes.
pub open spec fn varint_len_spec(v: i32) -> nat {
    if v < 0 {
        5
    } else if v <= 127 {
        1
    } else if v <= 16383 {
        2
    } else if v <= 2097151 {
        3
    } else if v <= 268435455 {
        4
    } else {
        5
    }
}

/// Encoded size of the varint of `v`.
pub fn varint_len(v: i32) -> (r: usize)
    ensures
        r == varint_len_spec(v),
{
    if v < 0 {
        5
    } else if v <= 127 {
        1
    } else if v <= 16383 {
        2
    } else if v <= 2097151 {
        3
    } else if v <= 268435455 {
        4
    } else {
        5
    }
}

/// Outcome of a failed decode.
#[derive(Debug, Clone, Copy, PartialEq, Eq, Structural)]
pub enum ParseError {
    /// The input ends before the item does: more bytes may complete it.
    Incomplete,
    /// The input can never decode, whatever follows.
    Malformed,
}

/// The unsigned 32-bit reinterpretation of `v`.
pub open spec fn u32_of(v: i32) -> nat {
    if v >= 0 {
        v as nat
    } else {
        (v + 0x1_0000_0000) as nat
    }
}

/// The signed 32-bit reinterpretation of `u < 2^32`.
pub open spec fn i32_of(u: nat) -> i32 {
    if u < 0x8000_0000 {
        u as i32
    } else {
        (u - 0x1_0000_0000) as i32
    }
}

/// Base-128 little-endian groups of `u`, the high bit of each byte but the
/// last one set.
pub open spec fn varint_bytes(u: nat) -> Seq<u8>
    decreases u,
{
    if u < 128 {
        seq![u as u8]
    } else {
        seq![(u % 128 + 128) as u8] + varint_bytes(u / 128)
    }
}

/// The varint encoding of `v`.
pub open spec fn varint_of(v: i32) -> Seq<u8> {
    varint_bytes(u32_of(v))
}

/// Number of leading bytes of `s` that carry the continuation bit.
pub open spec fn cont_run(s: Seq<u8>) -> nat
    decreases s.len(),
{
    if s.len() == 0 || s[0] < 128 {
        0
    } else {
        1 + cont_run(s.drop_first())
    }
}

/// Value of the 7-bit groups of `s`, least significant first.
pub open spec fn varint_sum(s: Seq<u8>) -> nat
    decreases s.len(),
{
    if s.len() == 0 {
        0
    } else {
        (s[0] % 128) as nat + 128 * varint_sum(s.drop_first())
    }
}

/// `128^n`: the weight of the `n`-th 7-bit group.
pub open spec fn pow128(n: nat) -> nat
    decreases n,
{
    if n == 0 {
        1
    } else {
        128 * pow128((n - 1) as nat)
    }
}

/// Decoding a varint at the start of `s`: the bytes consumed and the value.
/// Five leading continuation bytes make a varint that is too long.
pub open spec fn read_varint_spec(s: Seq<u8>) -> Result<(nat, i32), ParseError> {
    let k = cont_run(s);
    if k >= 5 {
        Err(ParseError::Malformed)
    } else if k >= s.len() {
        Err(ParseError::Incomplete)
    } else {
        Ok(((k + 1) as nat, i32_of(varint_sum(s.take((k + 1) as int)) % 0x1_0000_0000)))
    }
}

/// An executable decode result agrees with a spec one.
pub open spec fn same_outcome<T>(
    r: Result<(usize, T), ParseError>,
    s: Result<(nat, T), ParseError>,
) -> bool {
    match r {
        Ok((n, x)) => s == Ok::<(nat, T), ParseError>((n as nat, x)),
        Err(e) => s == Err::<(nat, T), ParseError>(e),
    }
}

proof fn lemma_pow128_small(n: nat)
    requires
        n <= 4,
    ensures
        pow128(n) <= 0x1000_0000,
{
    reveal_with_fuel(pow128, 5);
}

proof fn lemma_varint_sum_push(s: Seq<u8>, b: u8)
    ensures
        varint_sum(s.push(b)) == varint_sum(s) + (b % 128) as nat * pow128(s.len()),
    decreases s.len(),
{
    if s.len() == 0 {
        assert(s.push(b).drop_first() =~= Seq::<u8>::empty());
        assert(varint_sum(Seq::<u8>::empty()) == 0);
        assert(s.push(b)[0] == b);
        assert(varint_sum(s.push(b)) == (b % 128) as nat);
        assert(pow128(0) == 1);
    } else {
        assert(s.push(b).drop_first() =~= s.drop_first().push(b));
        lemma_varint_sum_push(s.drop_first(), b);
        let x = (b % 128) as nat;
        let p = pow128((s.len() - 1) as nat);
        assert(128 * (varint_sum(s.drop_first()) + x * p) == 128 * varint_sum(s.drop_first())
            + x * (128 * p)) by (nonlinear_arith);
        assert(s.push(b)[0] == s[0]);
        assert(pow128(s.len()) == 128 * p);
        assert(varint_sum(s.push(b)) == (s[0] % 128) as nat + 128 * varint_sum(
            s.drop_first().push(b),
        ));
        assert(varint_sum(s) == (s[0] % 128) as nat + 128 * varint_sum(s.drop_first()));
    }
}

proof fn lemma_cont_run(s: Seq<u8>, i: nat)
    requires
        i <= s.len(),
        forall|j: int| 0 <= j < i ==> s[j] >= 128,
    ensures
        cont_run(s) >= i,
        cont_run(s) <= s.len(),
        (i == s.len() || s[i as int] < 128) ==> cont_run(s) == i,
    decreases i,
{
    if i == 0 {
        lemma_cont_run_le(s);
    } else {
        assert forall|j: int| 0 <= j < i - 1 implies s.drop_first()[j] >= 128 by {
            assert(s.drop_first()[j] == s[j + 1]);
        }
        lemma_cont_run(s.drop_first(), (i - 1) as nat);
        if i < s.len() {
            assert(s.drop_first()[i - 1] == s[i as int]);
        }
    }
}

proof fn lemma_cont_run_le(s: Seq<u8>)
    ensures
        cont_run(s) <= s.len(),
    decreases s.len(),
{
    if s.len() > 0 {
        lemma_cont_run_le(s.drop_first());
    }
}

proof fn lemma_varint_bytes_len(u: nat)
    ensures
        u < 0x80 ==> varint_bytes(u).len() == 1,
        0x80 <= u < 0x4000 ==> varint_bytes(u).len() == 2,
        0x4000 <= u < 0x20_0000 ==> varint_bytes(u).len() == 3,
        0x20_0000 <= u < 0x1000_0000 ==> varint_bytes(u).len() == 4,
        0x1000_0000 <= u < 0x8_0000_0000 ==> varint_bytes(u).len() == 5,
    decreases u,
{
    if u >= 128 {
        lemma_varint_bytes_len(u / 128);
    }
}

/// The encoding of `v` is `varint_len(v)` bytes long.
pub proof fn lemma_varint_len(v: i32)
    ensures
        varint_of(v).len() == varint_len_spec(v),
{
    lemma_varint_bytes_len(u32_of(v));
}

proof fn lemma_varint_decode(u: nat, rest: Seq<u8>)
    ensures
        cont_run(varint_bytes(u) + rest) == varint_bytes(u).len() - 1,
        varint_sum(varint_bytes(u)) == u,
    decreases u,
{
    if u < 128 {
        assert((varint_bytes(u) + rest)[0] == u as u8);
        assert(varint_bytes(u).drop_first() =~= Seq::<u8>::empty());
        assert(varint_sum(Seq::<u8>::empty()) == 0);
    } else {
        let t = varint_bytes(u / 128);
        lemma_varint_decode(u / 128, rest);
        assert((varint_bytes(u) + rest).drop_first() =~= t + rest);
        assert(varint_bytes(u).drop_first() =~= t);
        assert((varint_bytes(u) + rest)[0] >= 128);
    }
}

/// A varint followed by any bytes decodes to its value and takes exactly its
/// own bytes.
pub proof fn lemma_read_varint_of(v: i32, rest: Seq<u8>)
    ensures
        read_varint_spec(varint_of(v) + rest) == Ok::<(nat, i32), ParseError>(
            (varint_len_spec(v), v),
        ),
{
    let u = u32_of(v);
    let e = varint_bytes(u);
    lemma_varint_len(v);
    lemma_varint_decode(u, rest);
    assert((e + rest).take(e.len() as int) =~= e);
}

/// Round trip: reading back the encoding of any `v` gives `v` and consumes
/// exactly `varint_len(v)` bytes.
pub proof fn lemma_varint_round_trip(v: i32)
    ensures
        read_varint_spec(varint_of(v)) == Ok::<(nat, i32), ParseError>((varint_len_spec(v), v)),
{
    lemma_read_varint_of(v, Seq::empty());
    assert(varint_of(v) + Seq::<u8>::empty() =~= varint_of(v));
}

/// Appends the varint encoding of `v`.
pub fn write_varint(output: &mut Vec<u8>, v: i32)
    ensures
        final(output)@ == old(output)@ + varint_of(v),
{
    let mut bits: u32 = if v >= 0 {
        v as u32
    } else {
        (v as i64 + 0x1_0000_0000i64) as u32
    };
    while bits >= 128
        invariant
            output@ + varint_bytes(bits as nat) == old(output)@ + varint_of(v),
        decreases bits,
    {
        let ghost before = output@;
        output.push((bits % 128 + 128) as u8);
        assert(output@ + varint_bytes((bits / 128) as nat) =~= before + varint_bytes(bits as nat));
        bits = bits / 128;
    }
    output.push(bits as u8);
}

/// Decodes the varint at the start of `input`: the bytes it took and its
/// value.
pub fn read_varint(input: &[u8]) -> (r: Result<(usize, i32), ParseError>)
    ensures
        same_outcome(r, read_varint_spec(input@)),
{
    let mut i: usize = 0;
    let mut acc: u64 = 0;
    let mut scale: u64 = 1;
    while i < input.len() && i < 5
        invariant
            i <= 5,
            i <= input@.len(),
            forall|j: int| 0 <= j < i ==> input@[j] >= 128,
            acc == varint_sum(input@.take(i as int)),
            scale == pow128(i as nat),
            acc < scale,
        decreases 5 - i,
    {
        let b = input[i];
        proof {
            lemma_pow128_small(i as nat);
            assert(input@.take(i + 1) =~= input@.take(i as int).push(b));
            lemma_varint_sum_push(input@.take(i as int), b);
            assert((b % 128) as nat * scale <= 127 * scale) by (nonlinear_arith)
                requires
                    b % 128 <= 127,
            ;
        }
        acc = acc + ((b % 128) as u64) * scale;
        if b < 128 {
            proof {
                lemma_cont_run(input@, i as nat);
            }
            let low: u64 = acc % 0x1_0000_0000;
            let v: i32 = if low < 0x8000_0000 {
                low as i32
            } else {
                (low as i64 - 0x1_0000_0000i64) as i32
            };
            return Ok((i + 1, v));
        }
        scale = scale * 128;
        i = i + 1;
    }
    proof {
        lemma_cont_run(input@, i as nat);
    }
    if i == 5 {
        Err(ParseError::Malformed)
    } else {
        Err(ParseError::Incomplete)
    }
}

/// Appends `data`.
fn append_bytes(output: &mut Vec<u8>, data: &[u8])
    ensures
        final(output)@ == old(output)@ + data@,
{
    let mut i: usize = 0;
    while i < data.len()
        invariant
            i <= data@.len(),
            output@ == old(output)@ + data@.take(i as int),
        decreases data@.len() - i,
    {
        output.push(data[i]);
        assert(data@.take(i + 1) =~= data@.take(i as int).push(data@[i as int]));
        i = i + 1;
    }
    assert(data@.take(i as int) =~= data@);
}

/// Two bytes, most significant first.
pub open spec fn short_bytes(v: u16) -> Seq<u8> {
    seq![(v / 256) as u8, (v % 256) as u8]
}

/// Appends `v` as two big-endian bytes.
pub fn write_short(output: &mut Vec<u8>, v: u16)
    ensures
        final(output)@ == old(output)@ + short_bytes(v),
{
    output.push((v / 256) as u8);
    output.push((v % 256) as u8);
    assert(output@ =~= old(output)@ + short_bytes(v));
}

pub open spec fn read_short_spec(s: Seq<u8>) -> Result<(nat, u16), ParseError> {
    if s.len() < 2 {
        Err(ParseError::Incomplete)
    } else {
        Ok((2, (s[0] * 256 + s[1]) as u16))
    }
}

/// Decodes a big-endian `u16` at the start of `input`.
pub fn read_short(input: &[u8]) -> (r: Result<(usize, u16), ParseError>)
    ensures
        same_outcome(r, read_short_spec(input@)),
{
    if input.len() < 2 {
        Err(ParseError::Incomplete)
    } else {
        Ok((2, input[0] as u16 * 256 + input[1] as u16))
    }
}

/// A length-prefixed string: the varint of its byte length, then its bytes.
pub open spec fn string_bytes(b: Seq<u8>) -> Seq<u8> {
    varint_bytes(b.len()) + b
}

/// Refusal to write a string whose length reaches the bound of its field.
#[derive(Debug, Clone, Copy, PartialEq, Eq, Structural)]
pub struct StringTooLong;

proof fn lemma_u32_of_nonneg(n: nat)
    requires
        n <= 0x7fff_ffff,
    ensures
        u32_of(n as i32) == n,
        varint_of(n as i32) == varint_bytes(n),
{
}

/// Appends `v` as a length-prefixed string, provided its byte length is
/// below `max_len`; otherwise leaves `output` as it was.
pub fn write_string(output: &mut Vec<u8>, v: &str, max_len: u16) -> (r: Result<(), StringTooLong>)
    ensures
        r is Ok <==> v.spec_bytes().len() < max_len,
        r is Ok ==> final(output)@ == old(output)@ + string_bytes(v.spec_bytes()),
        r is Err ==> final(output)@ == old(output)@,
{
    let bytes = v.as_bytes();
    let len = bytes.len();
    if len >= max_len as usize {
        return Err(StringTooLong);
    }
    proof {
        lemma_u32_of_nonneg(len as nat);
    }
    write_varint(output, len as i32);
    append_bytes(output, bytes);
    assert(output@ =~= old(output)@ + string_bytes(v.spec_bytes()));
    Ok(())
}

/// Encoded size of `v` as a length-prefixed string.
pub fn str_len(v: &str) -> (r: usize)
    requires
        v.spec_bytes().len() <= i32::MAX,
    ensures
        r == string_bytes(v.spec_bytes()).len(),
{
    let len = v.as_bytes().len();
    proof {
        lemma_u32_of_nonneg(len as nat);
        lemma_varint_len(len as i32);
    }
    len + varint_len(len as i32)
}

/// Decoding a length-prefixed string at the start of `s`: the bytes consumed
/// and the string's bytes. The length must be positive and the bytes UTF-8.
pub open spec fn read_string_spec(s: Seq<u8>) -> Result<(nat, Seq<u8>), ParseError> {
    match read_varint_spec(s) {
        Err(e) => Err(e),
        Ok((n, len)) => {
            if len <= 0 {
                Err(ParseError::Malformed)
            } else if s.len() < n + len {
                Err(ParseError::Incomplete)
            } else if !valid_utf8(s.subrange(n as int, n + len)) {
                Err(ParseError::Malformed)
            } else {
                Ok(((n + len) as nat, s.subrange(n as int, n + len)))
            }
        },
    }
}

/// Relies on `std::str::from_utf8`: it accepts exactly the well-formed UTF-8
/// byte sequences, and the text it returns is made of those same bytes.
#[verifier::external_body]
fn utf8_text(bytes: &[u8]) -> (r: Option<&str>)
    ensures
        r is Some <==> valid_utf8(bytes@),
        r matches Some(t) ==> t.spec_bytes() == bytes@,
{
    std::str::from_utf8(bytes).ok()
}

/// Decodes a length-prefixed UTF-8 string at the start of `input`.
pub fn read_string(input: &[u8]) -> (r: Result<(usize, &str), ParseError>)
    ensures
        match r {
            Ok((n, t)) => read_string_spec(input@) == Ok::<(nat, Seq<u8>), ParseError>(
                (n as nat, t.spec_bytes()),
            ),
            Err(e) => read_string_spec(input@) == Err::<(nat, Seq<u8>), ParseError>(e),
        },
{
    let (n, len) = match read_varint(input) {
        Ok(x) => x,
        Err(e) => return Err(e),
    };
    if len <= 0 {
        return Err(ParseError::Malformed);
    }
    let len = len as usize;
    if input.len() - n < len {
        return Err(ParseError::Incomplete);
    }
    let data = slice_subrange(input, n, n + len);
    match utf8_text(data) {
        Some(t) => Ok((n + len, t)),
        None => Err(ParseError::Malformed),
    }
}

/// The packet envelope: the varint length of what follows, the varint id,
/// the payload.
pub open spec fn frame(id: i32, data: Seq<u8>) -> Seq<u8> {
    varint_bytes((varint_of(id) + data).len()) + (varint_of(id) + data)
}

/// Builds the packet envelope around `id` and `data`.
pub fn write_packet(id: i32, data: &[u8]) -> (r: Vec<u8>)
    requires
        varint_len_spec(id) + data@.len() <= i32::MAX,
    ensures
        r@ == frame(id, data@),
{
    let packet_length = varint_len(id) + data.len();
    proof {
        lemma_varint_len(id);
        lemma_u32_of_nonneg(packet_length as nat);
    }
    let mut output: Vec<u8> = Vec::new();
    write_varint(&mut output, packet_length as i32);
    write_varint(&mut output, id);
    append_bytes(&mut output, data);
    assert(output@ =~= frame(id, data@));
    output
}

/// Decoding a packet at the start of `s`: the bytes consumed, the id and the
/// payload, which is the declared length less the id's own encoded size.
pub open spec fn read_packet_spec(s: Seq<u8>) -> Result<(nat, (i32, Seq<u8>)), ParseError> {
    match read_varint_spec(s) {
        Err(e) => Err(e),
        Ok((n1, len)) => {
            if len <= 0 {
                Err(ParseError::Malformed)
            } else {
                match read_varint_spec(s.skip(n1 as int)) {
                    Err(e) => Err(e),
                    Ok((n2, id)) => {
                        let start = n1 + n2;
                        let end = start + len - varint_len_spec(id);
                        if len < varint_len_spec(id) {
                            Err(ParseError::Malformed)
                        } else if s.len() < end {
                            Err(ParseError::Incomplete)
                        } else {
                            Ok((end as nat, (id, s.subrange(start as int, end))))
                        }
                    },
                }
            }
        },
    }
}

/// Decodes the packet at the start of `input`: the bytes it took, its id and
/// its payload.
pub fn read_packet(input: &[u8]) -> (r: Result<(usize, (i32, &[u8])), ParseError>)
    ensures
        match r {
            Ok((n, (id, d))) => read_packet_spec(input@) == Ok::<
                (nat, (i32, Seq<u8>)),
                ParseError,
            >((n as nat, (id, d@))),
            Err(e) => read_packet_spec(input@) == Err::<(nat, (i32, Seq<u8>)), ParseError>(e),
        },
{
    let (n1, len) = match read_varint(input) {
        Ok(x) => x,
        Err(e) => return Err(e),
    };
    if len <= 0 {
        return Err(ParseError::Malformed);
    }
    let rest = slice_subrange(input, n1, input.len());
    assert(rest@ =~= input@.skip(n1 as int));
    let (n2, id) = match read_varint(rest) {
        Ok(x) => x,
        Err(e) => return Err(e),
    };
    let id_len = varint_len(id);
    let len = len as usize;
    if len < id_len {
        return Err(ParseError::Malformed);
    }
    let start = n1 + n2;
    let data_len = len - id_len;
    if input.len() - start < data_len {
        return Err(ParseError::Incomplete);
    }
    let data = slice_subrange(input, start, start + data_len);
    Ok((start + data_len, (id, data)))
}

/// Round trip: a packet with a non-negative id and a payload under 2^21
/// bytes reads back as that id and payload, consuming the whole packet.
pub proof fn lemma_packet_round_trip(id: i32, data: Seq<u8>)
    requires
        0 <= id,
        data.len() < 0x20_0000,
    ensures
        read_packet_spec(frame(id, data)) == Ok::<(nat, (i32, Seq<u8>)), ParseError>(
            (frame(id, data).len(), (id, data)),
        ),
{
    lemma_read_packet_of(id, data, Seq::empty());
    assert(frame(id, data) + Seq::<u8>::empty() =~= frame(id, data));
}

/// A packet followed by any bytes reads back as its id and payload.
proof fn lemma_read_packet_of(id: i32, data: Seq<u8>, rest: Seq<u8>)
    requires
        data.len() < 0x7fff_fff0,
    ensures
        read_packet_spec(frame(id, data) + rest) == Ok::<(nat, (i32, Seq<u8>)), ParseError>(
            (frame(id, data).len(), (id, data)),
        ),
{
    let body = varint_of(id) + data;
    let s = frame(id, data) + rest;
    lemma_varint_len(id);
    let l = body.len();
    lemma_u32_of_nonneg(l);
    lemma_varint_len(l as i32);
    lemma_read_varint_of(l as i32, body + rest);
    assert(s =~= varint_of(l as i32) + (body + rest));
    let n1 = varint_of(l as i32).len();
    assert(s.skip(n1 as int) =~= varint_of(id) + (data + rest));
    lemma_read_varint_of(id, data + rest);
    let start = n1 + varint_len_spec(id);
    assert(s.subrange(start as int, start + data.len() as int) =~= data);
}

proof fn lemma_cont_run_extend(s: Seq<u8>, t: Seq<u8>)
    ensures
        cont_run(s + t) >= cont_run(s),
        cont_run(s) < s.len() ==> cont_run(s + t) == cont_run(s),
    decreases s.len(),
{
    if s.len() > 0 {
        assert((s + t)[0] == s[0]);
        if s[0] >= 128 {
            assert((s + t).drop_first() =~= s.drop_first() + t);
            lemma_cont_run_extend(s.drop_first(), t);
        }
    }
}

/// Once a varint decode is decided, more input does not change it.
pub proof fn lemma_read_varint_extend(s: Seq<u8>, t: Seq<u8>)
    requires
        read_varint_spec(s) != Err::<(nat, i32), ParseError>(ParseError::Incomplete),
    ensures
        read_varint_spec(s + t) == read_varint_spec(s),
{
    lemma_cont_run_extend(s, t);
    lemma_cont_run_le(s);
    let k = cont_run(s);
    if k < 5 {
        assert((s + t).take((k + 1) as int) =~= s.take((k + 1) as int));
    }
}

/// Once a packet decode is decided, more input does not change it.
pub proof fn lemma_read_packet_extend(s: Seq<u8>, t: Seq<u8>)
    requires
        read_packet_spec(s) != Err::<(nat, (i32, Seq<u8>)), ParseError>(ParseError::Incomplete),
    ensures
        read_packet_spec(s + t) == read_packet_spec(s),
{
    lemma_read_varint_extend(s, t);
    if let Ok((n1, len)) = read_varint_spec(s) {
        if len > 0 {
            assert((s + t).skip(n1 as int) =~= s.skip(n1 as int) + t);
            lemma_read_varint_extend(s.skip(n1 as int), t);
            if let Ok((n2, id)) = read_varint_spec(s.skip(n1 as int)) {
                let start = n1 + n2;
                let end = start + len - varint_len_spec(id);
                if len >= varint_len_spec(id) && s.len() >= end {
                    assert((s + t).subrange(start as int, end) =~= s.subrange(start as int, end));
                }
            }
        }
    }
}

/// The handshake payload that opens a status exchange with `host:port`.
pub open spec fn handshake_body(host: Seq<u8>, port: u16) -> Seq<u8> {
    varint_of(PROTOCOL_VERSION) + string_bytes(host) + short_bytes(port) + varint_of(
        NEXT_STATE_STATUS,
    )
}

/// The handshake packet that switches the connection to the status state.
pub fn server_list_ping(server_host: &str, server_port: u16) -> (r: Vec<u8>)
    requires
        server_host.spec_bytes().len() < MAX_HOST_LEN,
    ensures
        r@ == frame(STATUS_PACKET_ID, handshake_body(server_host.spec_bytes(), server_port)),
{
    let mut data: Vec<u8> = Vec::new();
    write_varint(&mut data, PROTOCOL_VERSION);
    let written = write_string(&mut data, server_host, MAX_HOST_LEN);
    assert(written is Ok);
    write_short(&mut data, server_port);
    write_varint(&mut data, NEXT_STATE_STATUS);
    proof {
        lemma_varint_len(PROTOCOL_VERSION);
        lemma_varint_len(NEXT_STATE_STATUS);
        lemma_varint_bytes_len(server_host.spec_bytes().len());
    }
    assert(data@ =~= handshake_body(server_host.spec_bytes(), server_port));
    write_packet(STATUS_PACKET_ID, data.as_slice())
}

/// The status request: an empty packet with id 0.
pub fn status_request() -> (r: Vec<u8>)
    ensures
        r@ == frame(STATUS_PACKET_ID, Seq::empty()),
{
    let empty: Vec<u8> = Vec::new();
    write_packet(STATUS_PACKET_ID, empty.as_slice())
}

/// The ping packet as this proxy sends it: an empty packet with id 0.
pub fn ping_request() -> (r: Vec<u8>)
    ensures
        r@ == frame(STATUS_PACKET_ID, Seq::empty()),
{
    let empty: Vec<u8> = Vec::new();
    write_packet(STATUS_PACKET_ID, empty.as_slice())
}

} // verus!
