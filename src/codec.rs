//! Framing of protocol messages: two big-endian 32-bit lengths, a JSON header
//! and an opaque binary payload.

use vstd::prelude::*;

use crate::error::FraktError;

verus! {

/// The big-endian value of four bytes.
pub open spec fn be_u32(b0: u8, b1: u8, b2: u8, b3: u8) -> nat {
    b0 as nat * 0x1000000 + b1 as nat * 0x10000 + b2 as nat * 0x100 + b3 as nat
}

/// The four big-endian bytes of a 32-bit value.
pub open spec fn be_bytes(v: u32) -> Seq<u8> {
    seq![(v / 0x1000000) as u8, ((v / 0x10000) % 0x100) as u8, ((v / 0x100) % 0x100) as u8, (v % 0x100) as u8]
}

/// The big-endian value of the four bytes of `s` starting at `at`.
pub open spec fn be_at(s: Seq<u8>, at: int) -> nat {
    be_u32(s[at], s[at + 1], s[at + 2], s[at + 3])
}

pub proof fn lemma_be_bytes_inverse(v: u32)
    ensures
        be_bytes(v).len() == 4,
        be_at(be_bytes(v), 0) == v as nat,
{
    let b = be_bytes(v);
    assert(b[0] as nat == v as nat / 0x1000000);
    assert(b[1] as nat == (v as nat / 0x10000) % 0x100);
    assert(b[2] as nat == (v as nat / 0x100) % 0x100);
    assert(b[3] as nat == v as nat % 0x100);
    assert(be_at(b, 0) == v as nat) by (nonlinear_arith)
        requires
            b[0] as nat == v as nat / 0x1000000,
            b[1] as nat == (v as nat / 0x10000) % 0x100,
            b[2] as nat == (v as nat / 0x100) % 0x100,
            b[3] as nat == v as nat % 0x100,
            be_at(b, 0) == b[0] as nat * 0x1000000 + b[1] as nat * 0x10000 + b[2] as nat * 0x100 + b[3] as nat,
            v as nat <= 0xffff_ffff,
    ;
}

/// Appends the four big-endian bytes of `v` to `out`.
pub fn push_be_u32(out: &mut Vec<u8>, v: u32)
    ensures
        final(out)@ == old(out)@ + be_bytes(v),
{
    out.push((v / 0x1000000) as u8);
    out.push(((v / 0x10000) % 0x100) as u8);
    out.push(((v / 0x100) % 0x100) as u8);
    out.push((v % 0x100) as u8);
    assert(out@ =~= old(out)@ + be_bytes(v));
}


/// Reads the big-endian value of the four bytes of `b` starting at `at`.
pub fn read_be_u32(b: &[u8], at: usize) -> (r: u32)
    requires
        at + 4 <= b@.len(),
    ensures
        r as nat == be_at(b@, at as int),
{
    let v: u32 = (b[at] as u32) * 0x1000000 + (b[at + 1] as u32) * 0x10000 + (b[at + 2] as u32)
        * 0x100 + (b[at + 3] as u32);
    v
}

/// The two lengths that open every frame.
#[derive(Debug, Clone, Copy, PartialEq, Eq)]
pub struct FrameHeader {
    /// Length of the JSON header and the binary payload together.
    pub message_length: u32,
    /// Length of the JSON header.
    pub json_length: u32,
}

/// A frame as read off the wire.
#[derive(Debug, Clone)]
pub struct RawMessage {
    pub message_length: u32,
    pub json_length: u32,
    /// The JSON header, as the bytes that were sent.
    pub json_message: Vec<u8>,
    pub data: Vec<u8>,
}

/// The bytes of the frame that carries `json` and `data`.
pub open spec fn frame_of(json: Seq<u8>, data: Seq<u8>) -> Seq<u8> {
    be_bytes((json.len() + data.len()) as u32) + be_bytes(json.len() as u32) + json + data
}

/// The payload that an optional slice stands for.
pub open spec fn payload_of(data: Option<&[u8]>) -> Seq<u8> {
    match data {
        Some(d) => d@,
        None => Seq::empty(),
    }
}

/// What reading one frame from the start of `s` gives: the two lengths, the
/// JSON header and the payload; a transport error where `s` ends too early, a
/// protocol error where the JSON length exceeds the total length.
pub open spec fn decoded(s: Seq<u8>) -> Result<(nat, nat, Seq<u8>, Seq<u8>), FraktError> {
    if s.len() < 8 {
        Err(FraktError::Transport)
    } else if be_at(s, 4) > be_at(s, 0) {
        Err(FraktError::Protocol)
    } else if s.len() < 8 + be_at(s, 0) {
        Err(FraktError::Transport)
    } else {
        let total = be_at(s, 0) as int;
        let jl = be_at(s, 4) as int;
        Ok((total as nat, jl as nat, s.subrange(8, 8 + jl), s.subrange(8 + jl, 8 + total)))
    }
}

/// Builds the frame that carries `json_message` and the optional `data`.
pub fn frame_message(json_message: &[u8], data: Option<&[u8]>) -> (r: Vec<u8>)
    requires
        json_message@.len() + payload_of(data).len() <= u32::MAX,
    ensures
        r@ == frame_of(json_message@, payload_of(data)),
{
    let json_size = json_message.len() as u32;
    let data_size: u32 = match data {
        Some(d) => d.len() as u32,
        None => 0,
    };
    let mut buffer: Vec<u8> = Vec::new();
    push_be_u32(&mut buffer, json_size + data_size);
    push_be_u32(&mut buffer, json_size);
    let mut i: usize = 0;
    while i < json_message.len()
        invariant
            i <= json_message@.len(),
            buffer@ == be_bytes((json_message@.len() + payload_of(data).len()) as u32) + be_bytes(
                json_message@.len() as u32,
            ) + json_message@.subrange(0, i as int),
        decreases json_message@.len() - i,
    {
        buffer.push(json_message[i]);
        i = i + 1;
        assert(json_message@.subrange(0, i as int) =~= json_message@.subrange(0, i - 1 as int)
            + seq![json_message@[i - 1]]);
    }
    assert(json_message@.subrange(0, i as int) =~= json_message@);
    match data {
        Some(d) => {
            let mut j: usize = 0;
            while j < d.len()
                invariant
                    j <= d@.len(),
                    data == Some(d),
                    buffer@ == be_bytes((json_message@.len() + d@.len()) as u32) + be_bytes(
                        json_message@.len() as u32,
                    ) + json_message@ + d@.subrange(0, j as int),
                decreases d@.len() - j,
            {
                buffer.push(d[j]);
                j = j + 1;
                assert(d@.subrange(0, j as int) =~= d@.subrange(0, j - 1 as int) + seq![d@[j - 1]]);
            }
            assert(d@.subrange(0, j as int) =~= d@);
        },
        None => {
            assert(buffer@ =~= frame_of(json_message@, payload_of(data)));
        },
    }
    buffer
}

/// The zeroed signature that travels with every task.
pub open spec fn zero_signature() -> Seq<u8> {
    Seq::new(16, |i: int| 0u8)
}

/// Builds the frame of a task: its JSON header, then the zeroed 16-byte
/// signature as payload.
pub fn frame_with_signature(json_message: &[u8]) -> (r: Vec<u8>)
    requires
        json_message@.len() + 16 <= u32::MAX,
    ensures
        r@ == frame_of(json_message@, zero_signature()),
{
    let signature: [u8; 16] = [0u8; 16];
    assert(signature@ =~= zero_signature());
    frame_message(json_message, Some(signature.as_slice()))
}

/// Reads the two lengths at the start of a frame; a transport error where
/// fewer than eight bytes are given, a protocol error where the JSON length
/// exceeds the total length.
pub fn parse_frame_header(bytes: &[u8]) -> (r: Result<FrameHeader, FraktError>)
    ensures
        bytes@.len() < 8 ==> r == Err::<FrameHeader, FraktError>(FraktError::Transport),
        bytes@.len() >= 8 && be_at(bytes@, 4) > be_at(bytes@, 0) ==> r == Err::<
            FrameHeader,
            FraktError,
        >(FraktError::Protocol),
        bytes@.len() >= 8 && be_at(bytes@, 4) <= be_at(bytes@, 0) ==> r == Ok::<
            FrameHeader,
            FraktError,
        >(
            (FrameHeader {
                message_length: be_at(bytes@, 0) as u32,
                json_length: be_at(bytes@, 4) as u32,
            }),
        ),
{
    if bytes.len() < 8 {
        return Err(FraktError::Transport);
    }
    let message_length = read_be_u32(bytes, 0);
    let json_length = read_be_u32(bytes, 4);
    if json_length > message_length {
        Err(FraktError::Protocol)
    } else {
        Ok(FrameHeader { message_length, json_length })
    }
}

/// Copies `b[from..to]` into a new vector.
fn copy_range(b: &[u8], from: usize, to: usize) -> (r: Vec<u8>)
    requires
        from <= to <= b@.len(),
    ensures
        r@ == b@.subrange(from as int, to as int),
{
    let mut out: Vec<u8> = Vec::new();
    let mut i: usize = from;
    while i < to
        invariant
            from <= i <= to <= b@.len(),
            out@ == b@.subrange(from as int, i as int),
        decreases to - i,
    {
        out.push(b[i]);
        i = i + 1;
        assert(out@ =~= b@.subrange(from as int, i as int));
    }
    out
}

/// Reads one frame from the start of `bytes`: both lengths, exactly
/// `json_length` header bytes, then the rest of `message_length` as payload.
pub fn read_message_raw(bytes: &[u8]) -> (r: Result<RawMessage, FraktError>)
    ensures
        match (r, decoded(bytes@)) {
            (Ok(m), Ok((total, jl, json, data))) => m.message_length == total
                && m.json_length == jl && m.json_message@ == json && m.data@ == data,
            (Err(e), Err(f)) => e == f,
            _ => false,
        },
{
    let header = match parse_frame_header(bytes) {
        Ok(h) => h,
        Err(e) => {
            return Err(e);
        },
    };
    let total = header.message_length as usize;
    let jl = header.json_length as usize;
    if bytes.len() - 8 < total {
        return Err(FraktError::Transport);
    }
    let json_message = copy_range(bytes, 8, 8 + jl);
    let data = copy_range(bytes, 8 + jl, 8 + total);
    Ok(RawMessage { message_length: header.message_length, json_length: header.json_length, json_message, data })
}

/// A frame read back yields the lengths, the header and the payload that were
/// framed, byte for byte.
pub proof fn lemma_frame_round_trip(json: Seq<u8>, data: Seq<u8>)
    requires
        json.len() + data.len() <= u32::MAX,
    ensures
        decoded(frame_of(json, data)) == Ok::<(nat, nat, Seq<u8>, Seq<u8>), FraktError>(
            (json.len() + data.len(), json.len(), json, data),
        ),
{
    let total = (json.len() + data.len()) as u32;
    let jl = json.len() as u32;
    let s = frame_of(json, data);
    lemma_be_bytes_inverse(total);
    lemma_be_bytes_inverse(jl);
    assert(be_at(s, 0) == be_at(be_bytes(total), 0));
    assert(be_at(s, 4) == be_at(be_bytes(jl), 0));
    let jn = json.len() as int;
    assert(s.subrange(8, 8 + jn) =~= json);
    assert(s.subrange(8 + jn, 8 + jn + data.len()) =~= data);
}

} // verus!
