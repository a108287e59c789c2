//! The frame codec: text frames out, masked client frames in.

use crate::text::{copy_range, decode_lossy, lossy_text};
use vstd::prelude::*;
use vstd::slice::slice_subrange;
use vstd::utf8::*;

verus! {

pub const OPCODE_CONTINUATION: u8 = 0;

pub const OPCODE_TEXT: u8 = 1;

pub const OPCODE_CLOSE: u8 = 8;

pub const OPCODE_PING: u8 = 9;

pub const OPCODE_PONG: u8 = 10;

/// First byte of an unfragmented text frame: FIN set, no reserved bit, opcode text.
pub const TEXT_FRAME_HEAD: u8 = 0x81;

/// The number denoted by `bytes`, most significant byte first.
pub open spec fn be_value(bytes: Seq<u8>) -> nat
    decreases bytes.len(),
{
    if bytes.len() == 0 {
        0
    } else {
        be_value(bytes.drop_last()) * 256 + bytes.last() as nat
    }
}

/// The low `width` bytes of `v`, most significant byte first.
pub open spec fn be_bytes(v: nat, width: nat) -> Seq<u8>
    decreases width,
{
    if width == 0 {
        Seq::empty()
    } else {
        be_bytes(v / 256, (width - 1) as nat).push((v % 256) as u8)
    }
}

/// How many values `width` bytes can tell apart: 256 to the power `width`.
pub open spec fn capacity(width: nat) -> nat
    decreases width,
{
    if width == 0 {
        1
    } else {
        256 * capacity((width - 1) as nat)
    }
}

/// The length field of a frame: the second byte, with `mask_bit` as its top bit,
/// and the extended length in the shortest of the three forms.
pub open spec fn length_field(len: nat, mask_bit: u8) -> Seq<u8> {
    if len <= 125 {
        seq![mask_bit | (len as u8)]
    } else if len <= 65535 {
        seq![mask_bit | 126u8] + be_bytes(len, 2)
    } else {
        seq![mask_bit | 127u8] + be_bytes(len, 8)
    }
}

/// The unmasked text frame that carries `payload` to a client.
pub open spec fn text_frame(payload: Seq<u8>) -> Seq<u8> {
    seq![TEXT_FRAME_HEAD] + length_field(payload.len(), 0) + payload
}

/// `data` with byte `i` XOR-ed with `key[i % 4]`. Masking and unmasking are the
/// same operation.
pub open spec fn apply_mask(data: Seq<u8>, key: Seq<u8>) -> Seq<u8>
    recommends
        key.len() == 4,
{
    Seq::new(data.len(), |i: int| data[i] ^ key[i % 4])
}

/// The text frame that a client sends for `payload`, masked with `key`.
pub open spec fn masked_text_frame(payload: Seq<u8>, key: Seq<u8>) -> Seq<u8>
    recommends
        key.len() == 4,
{
    seq![TEXT_FRAME_HEAD] + length_field(payload.len(), 0x80) + key + apply_mask(payload, key)
}

/// Number of extended length bytes that the second byte of a frame announces.
pub open spec fn length_width(second: u8) -> int {
    if second & 127 == 127 {
        8
    } else if second & 127 == 126 {
        2
    } else {
        0
    }
}

/// The payload length that a frame declares.
pub open spec fn declared_length(buf: Seq<u8>) -> int
    recommends
        buf.len() >= 2 + length_width(buf[1]),
{
    let w = length_width(buf[1]);
    if w == 0 {
        (buf[1] & 127) as int
    } else {
        be_value(buf.subrange(2, 2 + w)) as int
    }
}

/// Offset of the payload in a masked frame: after two bytes, the extended
/// length and the four key bytes.
pub open spec fn payload_offset(buf: Seq<u8>) -> int
    recommends
        buf.len() >= 2,
{
    6 + length_width(buf[1])
}

/// Whether `buf` holds the whole of a masked frame: length field, key and payload.
pub open spec fn holds_masked_frame(buf: Seq<u8>) -> bool {
    &&& buf.len() >= 2
    &&& buf[1] & 0x80 != 0
    &&& buf.len() >= payload_offset(buf)
    &&& buf.len() >= payload_offset(buf) + declared_length(buf)
}

/// The unmasked payload of the masked frame in `buf`.
pub open spec fn unmasked_payload(buf: Seq<u8>) -> Seq<u8>
    recommends
        holds_masked_frame(buf),
{
    let at = payload_offset(buf);
    apply_mask(buf.subrange(at, at + declared_length(buf)), buf.subrange(at - 4, at))
}

/// What a read buffer decodes to: the opcode, and for a text frame its
/// unmasked payload. No opcode means that the frame is refused: empty buffer,
/// FIN clear, a reserved bit set, or a text frame that is unmasked or cut short.
pub open spec fn decode_frame(buf: Seq<u8>) -> (Option<u8>, Option<Seq<u8>>) {
    if buf.len() == 0 || buf[0] & 0x80 == 0 || buf[0] & 0x70 != 0 {
        (None, None)
    } else if buf[0] & 0x0f != OPCODE_TEXT {
        (Some(buf[0] & 0x0f), None)
    } else if !holds_masked_frame(buf) {
        (None, None)
    } else {
        (Some(OPCODE_TEXT), Some(unmasked_payload(buf)))
    }
}

/// The buffer after decoding: a text payload is unmasked in place, the rest
/// is as it was.
pub open spec fn buffer_after(buf: Seq<u8>) -> Seq<u8> {
    match decode_frame(buf).1 {
        Some(payload) => buf.subrange(0, payload_offset(buf)) + payload + buf.subrange(
            payload_offset(buf) + payload.len(),
            buf.len() as int,
        ),
        None => buf,
    }
}

/// Appends the low `width` bytes of `v`, most significant first.
fn push_be(out: &mut Vec<u8>, v: u64, width: usize)
    ensures
        final(out)@ == old(out)@ + be_bytes(v as nat, width as nat),
    decreases width,
{
    if width > 0 {
        push_be(out, v / 256, width - 1);
        out.push((v % 256) as u8);
    }
    assert(final(out)@ =~= old(out)@ + be_bytes(v as nat, width as nat));
}

/// Reads `width` bytes at `from` as a number, most significant byte first.
fn read_be(buf: &[u8], from: usize, width: usize) -> (v: u64)
    requires
        width <= 8,
        from + width <= buf@.len(),
    ensures
        v == be_value(buf@.subrange(from as int, from + width)),
{
    let n: usize = buf.len();
    let mut v: u64 = 0;
    let mut i: usize = 0;
    while i < width
        invariant
            width <= 8,
            i <= width,
            n == buf@.len(),
            from + width <= n,
            v == be_value(buf@.subrange(from as int, from + i)),
            v < capacity(i as nat),
        decreases width - i,
    {
        proof {
            reveal_with_fuel(capacity, 10);
            let next = buf@.subrange(from as int, from + i + 1);
            assert(next.drop_last() =~= buf@.subrange(from as int, from + i));
        }
        v = v * 256 + buf[from + i] as u64;
        i += 1;
    }
    v
}

/// Encodes `payload` as one unfragmented, unmasked text frame.
pub fn pack_frame(payload: &[u8]) -> (frame: Vec<u8>)
    ensures
        frame@ == text_frame(payload@),
{
    let mut frame: Vec<u8> = Vec::new();
    frame.push(TEXT_FRAME_HEAD);
    let len: u64 = payload.len() as u64;
    assert(0u8 | (len as u8) == len as u8) by (bit_vector);
    assert(0u8 | 126u8 == 126u8) by (bit_vector);
    assert(0u8 | 127u8 == 127u8) by (bit_vector);
    if len > 65535 {
        frame.push(127);
        push_be(&mut frame, len, 8);
    } else if len > 125 {
        frame.push(126);
        push_be(&mut frame, len, 2);
    } else {
        frame.push(len as u8);
    }
    frame.extend_from_slice(payload);
    assert(frame@ =~= text_frame(payload@));
    frame
}

/// Encodes a text payload as one unfragmented, unmasked text frame.
pub fn pack_message_frame(payload: String) -> (frame: Vec<u8>)
    ensures
        frame@ == text_frame(encode_utf8(payload@)),
{
    pack_frame(payload.as_str().as_bytes())
}

/// The one-byte control frame for `opcode`: FIN set, no payload.
pub fn control_frame(opcode: u8) -> (frame: Vec<u8>)
    requires
        opcode <= 15,
    ensures
        frame@ == seq![(0x80 + opcode) as u8],
{
    let mut frame: Vec<u8> = Vec::new();
    frame.push(0x80 + opcode);
    assert(frame@ =~= seq![(0x80 + opcode) as u8]);
    frame
}

/// Decodes the client frame at the start of `buf`, unmasking a text payload
/// in place. The text is the payload decoded as UTF-8, invalid sequences
/// replaced.
pub fn unpack_client_frame(buf: &mut Vec<u8>) -> (r: (Option<u8>, Option<String>))
    ensures
        r.0 == decode_frame(old(buf)@).0,
        match decode_frame(old(buf)@).1 {
            Some(payload) => {
                &&& r.1 is Some
                &&& r.1->0@ == lossy_text(payload)
                &&& valid_utf8(payload) ==> r.1->0@ == decode_utf8(payload)
            },
            None => r.1 is None,
        },
        final(buf)@ == buffer_after(old(buf)@),
{
    let n: usize = buf.len();
    if n == 0 {
        return (None, None);
    }
    let first: u8 = buf[0];
    if first & 0x80 == 0 || first & 0x70 != 0 {
        return (None, None);
    }
    let opcode: u8 = first & 0x0f;
    if opcode != OPCODE_TEXT {
        return (Some(opcode), None);
    }
    if n < 2 {
        return (None, None);
    }
    let second: u8 = buf[1];
    if second & 0x80 == 0 {
        return (None, None);
    }
    let short: u8 = second & 127;
    assert(second & 127 <= 127) by (bit_vector);
    let width: usize = if short == 127 {
        8
    } else if short == 126 {
        2
    } else {
        0
    };
    if n < 6 + width {
        return (None, None);
    }
    let declared: u64 = if width == 0 {
        short as u64
    } else {
        read_be(buf.as_slice(), 2, width)
    };
    let start: usize = 6 + width;
    if declared > (n - start) as u64 {
        return (None, None);
    }
    let len: usize = declared as usize;
    let key: Vec<u8> = copy_range(buf.as_slice(), start - 4, start);
    let mut i: usize = 0;
    while i < len
        invariant
            i <= len,
            start + len <= n,
            n == buf@.len(),
            n == old(buf)@.len(),
            key@.len() == 4,
            forall|j: int| 0 <= j < start ==> buf@[j] == old(buf)@[j],
            forall|j: int| start + i <= j < n ==> buf@[j] == old(buf)@[j],
            forall|j: int|
                start <= j < start + i ==> buf@[j] == old(buf)@[j] ^ key@[(j - start) % 4],
        decreases len - i,
    {
        let b: u8 = buf[start + i] ^ key[i % 4];
        buf.set(start + i, b);
        i += 1;
    }
    let text = decode_lossy(slice_subrange(buf.as_slice(), start, start + len));
    proof {
        let before = old(buf)@;
        assert(holds_masked_frame(before));
        let payload = unmasked_payload(before);
        assert(buf@.subrange(start as int, start + len) =~= payload);
        assert(buf@ =~= before.subrange(0, start as int) + payload + before.subrange(
            start + len,
            n as int,
        ));
    }
    (Some(opcode), Some(text))
}

/// Masking is its own inverse: applying one key twice gives the data back,
/// whatever the key and however long the data.
pub proof fn lemma_mask_twice(data: Seq<u8>, key: Seq<u8>)
    requires
        key.len() == 4,
    ensures
        apply_mask(apply_mask(data, key), key) == data,
{
    assert forall|i: int| 0 <= i < data.len() implies (data[i] ^ key[i % 4]) ^ key[i % 4]
        == data[i] by {
        let d = data[i];
        let k = key[i % 4];
        assert((d ^ k) ^ k == d) by (bit_vector);
    }
    assert(apply_mask(apply_mask(data, key), key) =~= data);
}

/// A number that fits in `width` bytes is read back from its big-endian bytes.
pub proof fn lemma_be_round_trip(v: nat, width: nat)
    requires
        v < capacity(width),
    ensures
        be_bytes(v, width).len() == width,
        be_value(be_bytes(v, width)) == v,
    decreases width,
{
    if width > 0 {
        lemma_be_round_trip(v / 256, (width - 1) as nat);
        assert(be_bytes(v, width).drop_last() =~= be_bytes(v / 256, (width - 1) as nat));
    }
}

/// Round trip: the masked text frame of a payload decodes to a text frame
/// with that payload, in each of the three length forms.
pub proof fn lemma_round_trip(payload: Seq<u8>, key: Seq<u8>)
    requires
        key.len() == 4,
        payload.len() < capacity(8),
    ensures
        decode_frame(masked_text_frame(payload, key)) == (Some(OPCODE_TEXT), Some(payload)),
{
    let buf = masked_text_frame(payload, key);
    let len: int = payload.len() as int;
    let masked = apply_mask(payload, key);
    reveal_with_fuel(capacity, 10);
    assert(0x81u8 & 0x80 != 0 && 0x81u8 & 0x70 == 0 && 0x81u8 & 0x0f == 1) by (bit_vector);
    assert(buf[0] == 0x81u8);
    if len <= 125 {
        let l = len as u8;
        assert(l <= 125 ==> (0x80u8 | l) & 0x80 != 0 && (0x80u8 | l) & 127 == l) by (bit_vector);
        assert(buf[1] == 0x80u8 | l);
        assert(buf.subrange(2, 6) =~= key);
        assert(buf.subrange(6, 6 + len) =~= masked);
    } else if len <= 65535 {
        assert((0x80u8 | 126u8) & 0x80 != 0 && (0x80u8 | 126u8) & 127 == 126) by (bit_vector);
        lemma_be_round_trip(len as nat, 2);
        assert(buf[1] == 0x80u8 | 126u8);
        assert(buf.subrange(2, 4) =~= be_bytes(len as nat, 2));
        assert(buf.subrange(4, 8) =~= key);
        assert(buf.subrange(8, 8 + len) =~= masked);
    } else {
        assert((0x80u8 | 127u8) & 0x80 != 0 && (0x80u8 | 127u8) & 127 == 127) by (bit_vector);
        lemma_be_round_trip(len as nat, 8);
        assert(buf[1] == 0x80u8 | 127u8);
        assert(buf.subrange(2, 10) =~= be_bytes(len as nat, 8));
        assert(buf.subrange(10, 14) =~= key);
        assert(buf.subrange(14, 14 + len) =~= masked);
    }
    lemma_mask_twice(payload, key);
}

/// The server's own frames are unmasked, and the decoder refuses them.
pub proof fn lemma_unmasked_frame_refused(payload: Seq<u8>)
    ensures
        text_frame(payload)[1] & 0x80 == 0,
        decode_frame(text_frame(payload)) == (None::<u8>, None::<Seq<u8>>),
{
    let buf = text_frame(payload);
    let l = payload.len() as u8;
    assert(0x81u8 & 0x80 != 0 && 0x81u8 & 0x70 == 0 && 0x81u8 & 0x0f == 1) by (bit_vector);
    assert(l <= 125 ==> (0u8 | l) & 0x80 == 0) by (bit_vector);
    assert((0u8 | 126u8) & 0x80 == 0 && (0u8 | 127u8) & 0x80 == 0) by (bit_vector);
    assert(buf[0] == 0x81u8);
    if payload.len() <= 125 {
        assert(buf[1] == 0u8 | l);
    } else if payload.len() <= 65535 {
        assert(buf[1] == 0u8 | 126u8);
    } else {
        assert(buf[1] == 0u8 | 127u8);
    }
}

/// Round trip for text: the masked frame of a text's UTF-8 bytes decodes to
/// a text frame whose payload is valid UTF-8 and reads as that text again.
pub proof fn lemma_text_round_trip(text: Seq<char>, key: Seq<u8>)
    requires
        key.len() == 4,
        encode_utf8(text).len() < capacity(8),
    ensures
        decode_frame(masked_text_frame(encode_utf8(text), key)) == (
            Some(OPCODE_TEXT),
            Some(encode_utf8(text)),
        ),
        valid_utf8(encode_utf8(text)),
        decode_utf8(encode_utf8(text)) == text,
{
    lemma_round_trip(encode_utf8(text), key);
    encode_utf8_valid_utf8(text);
    encode_utf8_decode_utf8(text);
}

} // verus!
