//! The binary frame codec: decoding a byte buffer into a structured frame,
//! encoding a frame back to wire bytes, and the payload-masking rules.

use vstd::prelude::*;
use vstd::slice::slice_to_vec;
use vstd::string::StringSliceAdditionalSpecFns;
use vstd::string::StrSliceExecFns;

verus! {

/// The 4-bit tag identifying a frame's purpose.
#[derive(Clone, Copy, PartialEq, Eq, Structural, Debug)]
pub enum OpCode {
    Continuation,
    Text,
    Binary,
    Close,
    Ping,
    Pong,
}

/// The wire value of an opcode.
pub open spec fn opcode_value(op: OpCode) -> u8 {
    match op {
        OpCode::Continuation => 0,
        OpCode::Text => 1,
        OpCode::Binary => 2,
        OpCode::Close => 8,
        OpCode::Ping => 9,
        OpCode::Pong => 10,
    }
}

/// The opcode denoted by a 4-bit wire value, if any.
pub open spec fn opcode_from(n: u8) -> Option<OpCode> {
    if n == 0 {
        Some(OpCode::Continuation)
    } else if n == 1 {
        Some(OpCode::Text)
    } else if n == 2 {
        Some(OpCode::Binary)
    } else if n == 8 {
        Some(OpCode::Close)
    } else if n == 9 {
        Some(OpCode::Ping)
    } else if n == 10 {
        Some(OpCode::Pong)
    } else {
        None
    }
}

/// Close, Ping and Pong are control frames: size-limited, used for
/// connection-lifecycle signaling.
pub open spec fn is_control(op: OpCode) -> bool {
    op == OpCode::Close || op == OpCode::Ping || op == OpCode::Pong
}

/// Executable mirror of [`is_control`].
pub fn opcode_is_control(op: OpCode) -> (r: bool)
    ensures
        r == is_control(op),
{
    op == OpCode::Close || op == OpCode::Ping || op == OpCode::Pong
}

/// Executable mirror of [`opcode_from`].
pub fn opcode_of_value(n: u8) -> (r: Option<OpCode>)
    ensures
        r == opcode_from(n),
{
    if n == 0 {
        Some(OpCode::Continuation)
    } else if n == 1 {
        Some(OpCode::Text)
    } else if n == 2 {
        Some(OpCode::Binary)
    } else if n == 8 {
        Some(OpCode::Close)
    } else if n == 9 {
        Some(OpCode::Ping)
    } else if n == 10 {
        Some(OpCode::Pong)
    } else {
        None
    }
}

/// Mathematical model of one frame.
pub ghost struct FrameModel {
    pub fin: bool,
    pub opcode: OpCode,
    pub masked: bool,
    pub mask_key: Seq<u8>,
    pub payload: Seq<u8>,
}

/// One discrete protocol message unit. `masked` and `mask_key` are set only on
/// frames decoded from the client direction; frames the server builds and
/// sends are never masked.
pub struct Frame {
    pub fin: bool,
    pub opcode: OpCode,
    pub masked: bool,
    pub mask_key: [u8; 4],
    pub payload: Vec<u8>,
}

impl View for Frame {
    type V = FrameModel;

    open spec fn view(&self) -> FrameModel {
        FrameModel {
            fin: self.fin,
            opcode: self.opcode,
            masked: self.masked,
            mask_key: self.mask_key@,
            payload: self.payload@,
        }
    }
}

/// A frame the codec can put on the wire: a control frame carries at most 125
/// payload bytes, the mask key has exactly four bytes, and the payload length
/// fits the 64-bit extended length field.
pub open spec fn wf_frame(f: FrameModel) -> bool {
    &&& f.mask_key.len() == 4
    &&& (is_control(f.opcode) ==> f.payload.len() <= 125)
    &&& f.payload.len() < 0x1_0000_0000_0000_0000
}

/// 256 to the power of `k`.
pub open spec fn pow256(k: nat) -> nat
    decreases k,
{
    if k == 0 {
        1
    } else {
        256 * pow256((k - 1) as nat)
    }
}

/// The value of a big-endian byte string.
pub open spec fn be_val(s: Seq<u8>) -> nat
    decreases s.len(),
{
    if s.len() == 0 {
        0
    } else {
        be_val(s.drop_last()) * 256 + s.last() as nat
    }
}

/// The `k`-byte big-endian representation of `n`.
pub open spec fn be_bytes(n: nat, k: nat) -> Seq<u8>
    decreases k,
{
    if k == 0 {
        Seq::empty()
    } else {
        be_bytes(n / 256, (k - 1) as nat) + seq![(n % 256) as u8]
    }
}

/// The `k`-byte representation is `k` bytes long.
pub proof fn lemma_be_bytes_len(n: nat, k: nat)
    ensures
        be_bytes(n, k).len() == k,
    decreases k,
{
    if k > 0 {
        lemma_be_bytes_len(n / 256, (k - 1) as nat);
    }
}

/// Reading back the big-endian representation of `n` yields `n`.
pub proof fn lemma_be_round_trip(n: nat, k: nat)
    requires
        n < pow256(k),
    ensures
        be_val(be_bytes(n, k)) == n,
    decreases k,
{
    if k == 0 {
    } else {
        let rest = be_bytes(n / 256, (k - 1) as nat);
        lemma_be_bytes_len(n / 256, (k - 1) as nat);
        let whole = rest + seq![(n % 256) as u8];
        assert(whole.drop_last() =~= rest);
        assert(whole.last() == (n % 256) as u8);
        assert(n / 256 < pow256((k - 1) as nat)) by (nonlinear_arith)
            requires
                n < pow256(k),
                pow256(k) == 256 * pow256((k - 1) as nat),
        {}
        lemma_be_round_trip(n / 256, (k - 1) as nat);
        assert((n / 256) * 256 + n % 256 == n) by (nonlinear_arith) {}
    }
}

/// XOR-masking of client payload bytes: byte `i` is XORed with key byte
/// `i mod 4`.
pub open spec fn mask_with(data: Seq<u8>, key: Seq<u8>) -> Seq<u8> {
    Seq::new(data.len(), |i: int| data[i] ^ key[i % 4])
}

/// Masking a payload and masking it again with the same 4-byte key reproduces
/// the original payload, whatever its length.
pub proof fn lemma_mask_involution(data: Seq<u8>, key: Seq<u8>)
    requires
        key.len() == 4,
    ensures
        mask_with(mask_with(data, key), key) == data,
{
    let once = mask_with(data, key);
    let twice = mask_with(once, key);
    assert forall|i: int| 0 <= i < data.len() implies twice[i] == data[i] by {
        let x = data[i];
        let y = key[i % 4];
        assert((x ^ y) ^ y == x) by (bit_vector);
    }
    assert(twice =~= data);
}

/// The model of a frame the server itself builds: final, unmasked, with a
/// zeroed (unused) key slot.
pub open spec fn built_frame(op: OpCode, payload: Seq<u8>) -> FrameModel {
    FrameModel {
        fin: true,
        opcode: op,
        masked: false,
        mask_key: seq![0u8, 0u8, 0u8, 0u8],
        payload: payload,
    }
}

impl Frame {
    /// Builds a Text frame carrying the UTF-8 bytes of `s`.
    pub fn text(s: &str) -> (f: Frame)
        ensures
            f@ == built_frame(OpCode::Text, s.spec_bytes()),
            wf_frame(f@),
    {
        let f = Frame {
            fin: true,
            opcode: OpCode::Text,
            masked: false,
            mask_key: [0, 0, 0, 0],
            payload: s.as_bytes_vec(),
        };
        proof {
            assert(f.mask_key@ =~= seq![0u8, 0u8, 0u8, 0u8]);
            assert(f.payload.len() == f.payload@.len());
        }
        f
    }

    /// Builds a Pong frame echoing the Ping's payload. A control frame may
    /// carry at most 125 payload bytes, so a longer request is rejected.
    pub fn pong(req: &Frame) -> (r: Option<Frame>)
        ensures
            r is Some <==> req@.payload.len() <= 125,
            r is Some ==> r.unwrap()@ == built_frame(OpCode::Pong, req@.payload) && wf_frame(
                r.unwrap()@,
            ),
    {
        Self::echo(OpCode::Pong, req)
    }

    /// Builds the Close frame the server answers a peer's Close with: its
    /// payload (status code and optional reason) echoes the peer's. A control
    /// frame may carry at most 125 payload bytes, so a longer request is
    /// rejected.
    pub fn close_echo(req: &Frame) -> (r: Option<Frame>)
        ensures
            r is Some <==> req@.payload.len() <= 125,
            r is Some ==> r.unwrap()@ == built_frame(OpCode::Close, req@.payload) && wf_frame(
                r.unwrap()@,
            ),
    {
        Self::echo(OpCode::Close, req)
    }

    /// Builds a final unmasked frame of opcode `op` whose payload copies the
    /// payload of `req`, provided it fits a control frame.
    fn echo(op: OpCode, req: &Frame) -> (r: Option<Frame>)
        requires
            is_control(op),
        ensures
            r is Some <==> req@.payload.len() <= 125,
            r is Some ==> r.unwrap()@ == built_frame(op, req@.payload) && wf_frame(r.unwrap()@),
    {
        if req.payload.len() <= 125 {
            let f = Frame {
                fin: true,
                opcode: op,
                masked: false,
                mask_key: [0, 0, 0, 0],
                payload: slice_to_vec(req.payload.as_slice()),
            };
            proof {
                assert(f.mask_key@ =~= seq![0u8, 0u8, 0u8, 0u8]);
            }
            Some(f)
        } else {
            None
        }
    }

    /// True iff this frame is a Close frame; after flushing such a frame the
    /// connection transitions toward teardown.
    pub fn is_close(&self) -> (r: bool)
        ensures
            r == (self@.opcode == OpCode::Close),
    {
        self.opcode == OpCode::Close
    }
}

/// Why a byte buffer was rejected as a frame.
#[derive(Clone, Copy, PartialEq, Eq, Structural, Debug)]
pub enum DecodeError {
    /// One of the three reserved bits of the first byte was set.
    ReservedBits,
    /// The 4-bit opcode is not one this codec knows.
    UnknownOpcode,
    /// The mask bit was clear on a frame arriving from a client.
    Unmasked,
    /// A Close, Ping or Pong frame announced a payload over 125 bytes.
    ControlTooLong,
}

/// Mathematical model of a decode outcome.
pub ghost enum DecodedModel {
    /// A complete frame, and how many buffer bytes it consumed.
    Complete { frame: FrameModel, used: nat },
    /// The buffer ends before the frame does; wait for more bytes.
    NeedMoreData,
    /// The buffer violates the wire format.
    Invalid { err: DecodeError },
}

/// Outcome of decoding a byte buffer.
pub enum Decoded {
    /// A complete frame, and how many buffer bytes it consumed.
    Complete(Frame, usize),
    /// The buffer ends before the frame does; wait for more bytes.
    NeedMoreData,
    /// The buffer violates the wire format.
    Invalid(DecodeError),
}

impl View for Decoded {
    type V = DecodedModel;

    open spec fn view(&self) -> DecodedModel {
        match self {
            Decoded::Complete(f, n) => DecodedModel::Complete { frame: f@, used: *n as nat },
            Decoded::NeedMoreData => DecodedModel::NeedMoreData,
            Decoded::Invalid(e) => DecodedModel::Invalid { err: *e },
        }
    }
}

/// The tail of a decode once the first byte was accepted and the payload
/// length is known: `off` is where the mask key starts.
pub open spec fn decode_body(b: Seq<u8>, fin: bool, op: OpCode, off: nat, len: nat) -> DecodedModel {
    if is_control(op) && len > 125 {
        DecodedModel::Invalid { err: DecodeError::ControlTooLong }
    } else if b.len() < off + 4 + len {
        DecodedModel::NeedMoreData
    } else {
        let key = b.subrange(off as int, off as int + 4);
        let raw = b.subrange(off as int + 4, (off + 4 + len) as int);
        DecodedModel::Complete {
            frame: FrameModel {
                fin: fin,
                opcode: op,
                masked: true,
                mask_key: key,
                payload: mask_with(raw, key),
            },
            used: off + 4 + len,
        }
    }
}

/// What decoding a byte buffer as one client-to-server frame yields: the wire
/// layout of RFC 6455-style framing, checked in order — reserved bits,
/// opcode, mask bit, then the 7-bit, 16-bit or 64-bit length form.
pub open spec fn decode_bytes(b: Seq<u8>) -> DecodedModel {
    if b.len() < 2 {
        DecodedModel::NeedMoreData
    } else {
        let b0 = b[0];
        let b1 = b[1];
        if b0 & 0x70 != 0 {
            DecodedModel::Invalid { err: DecodeError::ReservedBits }
        } else if opcode_from(b0 & 0x0f) is None {
            DecodedModel::Invalid { err: DecodeError::UnknownOpcode }
        } else if b1 & 0x80 == 0 {
            DecodedModel::Invalid { err: DecodeError::Unmasked }
        } else {
            let fin = b0 & 0x80 != 0;
            let op = opcode_from(b0 & 0x0f).unwrap();
            let len7 = b1 & 0x7f;
            if len7 == 126 {
                if b.len() < 4 {
                    DecodedModel::NeedMoreData
                } else {
                    decode_body(b, fin, op, 4, be_val(b.subrange(2, 4)))
                }
            } else if len7 == 127 {
                if b.len() < 10 {
                    DecodedModel::NeedMoreData
                } else {
                    decode_body(b, fin, op, 10, be_val(b.subrange(2, 10)))
                }
            } else {
                decode_body(b, fin, op, 2, len7 as nat)
            }
        }
    }
}

impl Frame {
    /// Decodes the start of `buf` as one client-to-server frame. The payload
    /// of a complete frame comes back unmasked; reading past the end of
    /// `buf` is never a hard failure, only `NeedMoreData`.
    pub fn decode(buf: &Vec<u8>) -> (r: Decoded)
        ensures
            r@ == decode_bytes(buf@),
    {
        if buf.len() < 2 {
            return Decoded::NeedMoreData;
        }
        let b0 = buf[0];
        let b1 = buf[1];
        if b0 & 0x70 != 0 {
            return Decoded::Invalid(DecodeError::ReservedBits);
        }
        let op = match opcode_of_value(b0 & 0x0f) {
            Option::None => {
                return Decoded::Invalid(DecodeError::UnknownOpcode);
            },
            Option::Some(op) => op,
        };
        if b1 & 0x80 == 0 {
            return Decoded::Invalid(DecodeError::Unmasked);
        }
        let fin = b0 & 0x80 != 0;
        let len7 = b1 & 0x7f;
        let off: usize;
        let len: u64;
        if len7 == 126 {
            if buf.len() < 4 {
                return Decoded::NeedMoreData;
            }
            off = 4;
            len = buf[2] as u64 * 256 + buf[3] as u64;
            proof {
                reveal_with_fuel(be_val, 4);
                let s = buf@.subrange(2, 4);
                assert(s.drop_last() =~= seq![buf@[2]]);
                assert(seq![buf@[2]].drop_last() =~= Seq::<u8>::empty());
                assert(be_val(s) == len as nat);
            }
        } else if len7 == 127 {
            if buf.len() < 10 {
                return Decoded::NeedMoreData;
            }
            off = 10;
            let mut val: u64 = 0;
            let mut j: usize = 2;
            proof {
                assert(buf@.subrange(2, 2) =~= Seq::<u8>::empty());
                reveal_with_fuel(pow256, 9);
            }
            while j < 10
                invariant
                    2 <= j <= 10,
                    buf@.len() >= 10,
                    val as nat == be_val(buf@.subrange(2, j as int)),
                    (val as nat) < pow256((j - 2) as nat),
                    pow256(8) == 0x1_0000_0000_0000_0000,
                decreases 10 - j,
            {
                proof {
                    let s = buf@.subrange(2, j + 1);
                    assert(s.drop_last() =~= buf@.subrange(2, j as int));
                    assert(pow256((j - 1) as nat) == 256 * pow256((j - 2) as nat));
                    assert(pow256((j - 1) as nat) <= pow256(8)) by {
                        reveal_with_fuel(pow256, 9);
                    }
                }
                val = val * 256 + buf[j] as u64;
                j += 1;
            }
            len = val;
            proof {
                assert(buf@.subrange(2, 10) == buf@.subrange(2, 10 as int));
            }
        } else {
            off = 2;
            len = len7 as u64;
        }
        if opcode_is_control(op) && len > 125 {
            return Decoded::Invalid(DecodeError::ControlTooLong);
        }
        if buf.len() < off + 4 {
            return Decoded::NeedMoreData;
        }
        if len > (buf.len() - (off + 4)) as u64 {
            return Decoded::NeedMoreData;
        }
        let plen: usize = len as usize;
        let key: [u8; 4] = [buf[off], buf[off + 1], buf[off + 2], buf[off + 3]];
        let ghost key_spec = buf@.subrange(off as int, off as int + 4);
        proof {
            assert(key@ =~= key_spec);
        }
        let ghost raw = buf@.subrange(off as int + 4, off as int + 4 + plen as int);
        let mut payload: Vec<u8> = Vec::new();
        let mut i: usize = 0;
        assert(buf@.len() <= usize::MAX);
        while i < plen
            invariant
                i <= plen,
                off + 4 + plen <= buf@.len(),
                buf@.len() <= usize::MAX,
                key@.len() == 4,
                key@ == key_spec,
                raw == buf@.subrange(off as int + 4, off as int + 4 + plen as int),
                payload@ =~= mask_with(raw.take(i as int), key@),
            decreases plen - i,
        {
            payload.push(buf[off + 4 + i] ^ key[i % 4]);
            i += 1;
            proof {
                assert(raw[i - 1] == buf@[off + 4 + i - 1]);
                assert(mask_with(raw.take(i as int), key@) =~= mask_with(raw.take(i - 1), key@)
                    + seq![raw[i - 1] ^ key@[(i - 1) % 4]]);
            }
        }
        proof {
            assert(raw.take(plen as int) =~= raw);
        }
        let frame = Frame { fin, opcode: op, masked: true, mask_key: key, payload };
        let r = Decoded::Complete(frame, off + 4 + plen);
        proof {
            assert(r@ == decode_body(buf@, fin, op, off as nat, len as nat));
        }
        r
    }
}

/// The first wire byte: fin flag in the top bit, opcode in the low nibble,
/// reserved bits clear.
pub open spec fn first_byte(fin: bool, op: OpCode) -> u8 {
    if fin {
        opcode_value(op) | 0x80
    } else {
        opcode_value(op)
    }
}

/// The leading length byte, with the mask flag in the top bit when the frame
/// travels client to server.
pub open spec fn len_head(x: u8, mask_bit: bool) -> u8 {
    if mask_bit {
        x | 0x80
    } else {
        x
    }
}

/// The length field in its shortest valid representation: 7-bit up to 125,
/// then 16-bit extended, then 64-bit extended.
pub open spec fn len_bytes(n: nat, mask_bit: bool) -> Seq<u8> {
    if n <= 125 {
        seq![len_head(n as u8, mask_bit)]
    } else if n < 65536 {
        seq![len_head(126, mask_bit)] + be_bytes(n, 2)
    } else {
        seq![len_head(127, mask_bit)] + be_bytes(n, 8)
    }
}

/// The wire bytes of a server-to-client frame: mask bit clear, no mask key,
/// payload sent in the clear.
pub open spec fn encode_bytes(f: FrameModel) -> Seq<u8> {
    seq![first_byte(f.fin, f.opcode)] + len_bytes(f.payload.len(), false) + f.payload
}

/// The wire bytes of a client-to-server frame: mask bit set, 4-byte key,
/// payload XOR-masked with the key.
pub open spec fn client_bytes(f: FrameModel) -> Seq<u8> {
    seq![first_byte(f.fin, f.opcode)] + len_bytes(f.payload.len(), true) + f.mask_key
        + mask_with(f.payload, f.mask_key)
}

impl Frame {
    /// Executable mirror of [`first_byte`].
    fn head_byte(&self) -> (r: u8)
        ensures
            r == first_byte(self.fin, self.opcode),
    {
        let v: u8 = match self.opcode {
            OpCode::Continuation => 0,
            OpCode::Text => 1,
            OpCode::Binary => 2,
            OpCode::Close => 8,
            OpCode::Ping => 9,
            OpCode::Pong => 10,
        };
        if self.fin {
            v | 0x80
        } else {
            v
        }
    }

    /// Appends the length field for payload length `n` to `out`.
    #[verifier::rlimit(60)]
    fn push_len_bytes(out: &mut Vec<u8>, n: usize, mask_bit: bool)
        ensures
            final(out)@ == old(out)@ + len_bytes(n as nat, mask_bit),
    {
        let flag: u8 = if mask_bit {
            0x80
        } else {
            0
        };
        proof {
            assert(forall|x: u8| #![auto] x <= 127 ==> x | 0x80 == x + 0x80) by (bit_vector);
            assert(forall|x: u8| #![auto] x | 0 == x) by (bit_vector);
        }
        if n <= 125 {
            out.push(n as u8 | flag);
            assert(out@ =~= old(out)@ + len_bytes(n as nat, mask_bit));
        } else if n < 65536 {
            out.push(126 | flag);
            out.push((n / 256) as u8);
            out.push((n % 256) as u8);
            proof {
                let m = n as nat;
                reveal_with_fuel(be_bytes, 3);
                assert(be_bytes(m / 256, 1) =~= seq![(m / 256 % 256) as u8]);
                assert(be_bytes(m, 2) =~= seq![(m / 256 % 256) as u8, (m % 256) as u8]);
                assert(m / 256 < 256);
                assert(out@ =~= old(out)@ + len_bytes(n as nat, mask_bit));
            }
        } else {
            out.push(127 | flag);
            let w: u64 = n as u64;
            out.push((w / 0x100000000000000) as u8);
            out.push((w / 0x1000000000000 % 256) as u8);
            out.push((w / 0x10000000000 % 256) as u8);
            out.push((w / 0x100000000 % 256) as u8);
            out.push((w / 0x1000000 % 256) as u8);
            out.push((w / 0x10000 % 256) as u8);
            out.push((w / 0x100 % 256) as u8);
            out.push((w % 256) as u8);
            proof {
                let m = n as nat;
                reveal_with_fuel(be_bytes, 9);
                assert(m == w as nat);
                assert(be_bytes(m, 8) =~= seq![
                    (m / 0x100000000000000 % 256) as u8,
                    (m / 0x1000000000000 % 256) as u8,
                    (m / 0x10000000000 % 256) as u8,
                    (m / 0x100000000 % 256) as u8,
                    (m / 0x1000000 % 256) as u8,
                    (m / 0x10000 % 256) as u8,
                    (m / 0x100 % 256) as u8,
                    (m % 256) as u8,
                ]) by {
                    assert(m / 256 / 256 == m / 0x10000);
                    assert(m / 0x10000 / 256 == m / 0x1000000);
                    assert(m / 0x1000000 / 256 == m / 0x100000000);
                    assert(m / 0x100000000 / 256 == m / 0x10000000000);
                    assert(m / 0x10000000000 / 256 == m / 0x1000000000000);
                    assert(m / 0x1000000000000 / 256 == m / 0x100000000000000);
                    assert(m / 0x100000000000000 / 256 == 0);
                }
                assert((w / 0x100000000000000) as u8 == (m / 0x100000000000000 % 256) as u8);
                assert(out@ =~= old(out)@ + len_bytes(n as nat, mask_bit));
            }
        }
    }

    /// Encodes this frame for the server-to-client direction: mask bit clear,
    /// no mask key emitted.
    pub fn encode(&self) -> (r: Vec<u8>)
        requires
            wf_frame(self@),
        ensures
            r@ == encode_bytes(self@),
    {
        let mut out: Vec<u8> = Vec::new();
        out.push(self.head_byte());
        Self::push_len_bytes(&mut out, self.payload.len(), false);
        let mut i: usize = 0;
        while i < self.payload.len()
            invariant
                i <= self.payload.len(),
                out@ =~= seq![first_byte(self.fin, self.opcode)] + len_bytes(
                    self.payload@.len(),
                    false,
                ) + self.payload@.take(i as int),
            decreases self.payload.len() - i,
        {
            out.push(self.payload[i]);
            i += 1;
        }
        proof {
            assert(self.payload@.take(self.payload@.len() as int) =~= self.payload@);
            assert(out@ =~= encode_bytes(self@));
        }
        out
    }

    /// Encodes this frame for the client-to-server direction: mask bit set,
    /// the frame's own 4-byte key emitted, payload XOR-masked with that key.
    pub fn encode_client(&self) -> (r: Vec<u8>)
        requires
            wf_frame(self@),
        ensures
            r@ == client_bytes(self@),
    {
        let mut out: Vec<u8> = Vec::new();
        out.push(self.head_byte());
        Self::push_len_bytes(&mut out, self.payload.len(), true);
        out.push(self.mask_key[0]);
        out.push(self.mask_key[1]);
        out.push(self.mask_key[2]);
        out.push(self.mask_key[3]);
        let ghost prefix = seq![first_byte(self.fin, self.opcode)] + len_bytes(
            self.payload@.len(),
            true,
        ) + self.mask_key@;
        assert(out@ =~= prefix);
        let mut i: usize = 0;
        while i < self.payload.len()
            invariant
                i <= self.payload.len(),
                self.mask_key@.len() == 4,
                out@ =~= prefix + mask_with(self.payload@.take(i as int), self.mask_key@),
            decreases self.payload.len() - i,
        {
            out.push(self.payload[i] ^ self.mask_key[i % 4]);
            i += 1;
            proof {
                assert(mask_with(self.payload@.take(i as int), self.mask_key@) =~= mask_with(
                    self.payload@.take(i - 1),
                    self.mask_key@,
                ) + seq![self.payload@[i - 1] ^ self.mask_key@[(i - 1) % 4]]);
            }
        }
        proof {
            assert(self.payload@.take(self.payload@.len() as int) =~= self.payload@);
            assert(out@ =~= client_bytes(self@));
        }
        out
    }
}

/// A complete decode never hands out a control frame over the 125-byte
/// limit: an oversized control payload is a decode error, not silently
/// truncated.
pub proof fn lemma_decode_control_limit(b: Seq<u8>)
    ensures
        match decode_bytes(b) {
            DecodedModel::Complete { frame, used } => is_control(frame.opcode)
                ==> frame.payload.len() <= 125,
            _ => true,
        },
{
}

/// Round trip: masking any well-formed frame into its client-direction wire
/// bytes and decoding those bytes yields the frame back, the whole buffer
/// consumed; only the mask fields differ (decoding records the mask that the
/// wire carried).
pub proof fn lemma_client_round_trip(f: FrameModel)
    requires
        wf_frame(f),
    ensures
        decode_bytes(client_bytes(f)) == (DecodedModel::Complete {
            frame: FrameModel {
                fin: f.fin,
                opcode: f.opcode,
                masked: true,
                mask_key: f.mask_key,
                payload: f.payload,
            },
            used: client_bytes(f).len(),
        }),
{
    let n = f.payload.len();
    let o = opcode_value(f.opcode);
    let fb = first_byte(f.fin, f.opcode);
    let lb = len_bytes(n, true);
    let mp = mask_with(f.payload, f.mask_key);
    let b = client_bytes(f);
    assert(o <= 15);
    assert(fb == o || fb == (o | 0x80));
    assert(fb & 0x70 == 0 && fb & 0x0f == o) by (bit_vector)
        requires
            o <= 15,
            fb == o || fb == (o | 0x80),
    {}
    assert((fb & 0x80 != 0) == f.fin) by {
        if f.fin {
            assert(fb == (o | 0x80));
            assert((o | 0x80) & 0x80 != 0) by (bit_vector);
        } else {
            assert(fb == o);
            assert(o <= 15 ==> o & 0x80 == 0) by (bit_vector);
        }
    }
    assert(opcode_from(o) == Some(f.opcode));
    // the leading length byte
    let x: u8 = if n <= 125 {
        n as u8
    } else if n < 65536 {
        126
    } else {
        127
    };
    assert(lb[0] == (x | 0x80));
    assert((x | 0x80) & 0x80 != 0) by (bit_vector);
    assert(x <= 127 ==> (x | 0x80) & 0x7f == x) by (bit_vector);
    let len7 = lb[0] & 0x7f;
    assert(len7 == x);
    // where the mask key starts, and the length the wire announces
    if n <= 125 {
        assert(lb =~= seq![(n as u8) | 0x80]);
        assert(b.len() == 1 + 1 + 4 + n);
        assert(b[0] == fb && b[1] == lb[0]);
        assert(len7 != 126 && len7 != 127);
        assert(len7 as nat == n);
        check_body(f, b, 2, n);
    } else if n < 65536 {
        assert(lb =~= seq![126u8 | 0x80] + be_bytes(n, 2));
        lemma_be_bytes_len(n, 2);
        assert(b.len() == 1 + 3 + 4 + n);
        assert(b[0] == fb && b[1] == lb[0]);
        assert(len7 == 126);
        assert(b.subrange(2, 4) =~= be_bytes(n, 2));
        assert(pow256(2) == 65536) by {
            reveal_with_fuel(pow256, 3);
        }
        lemma_be_round_trip(n, 2);
        check_body(f, b, 4, n);
    } else {
        assert(lb =~= seq![127u8 | 0x80] + be_bytes(n, 8));
        lemma_be_bytes_len(n, 8);
        assert(b.len() == 1 + 9 + 4 + n);
        assert(b[0] == fb && b[1] == lb[0]);
        assert(len7 == 127);
        assert(b.subrange(2, 10) =~= be_bytes(n, 8));
        assert(pow256(8) == 0x1_0000_0000_0000_0000) by {
            reveal_with_fuel(pow256, 9);
        }
        lemma_be_round_trip(n, 8);
        check_body(f, b, 10, n);
    }
}

/// The tail of the round-trip proof: once the header names payload length
/// `n` with the mask key at `off`, the decoded body is the masked payload
/// unmasked again, that is, the original.
proof fn check_body(f: FrameModel, b: Seq<u8>, off: nat, n: nat)
    requires
        wf_frame(f),
        n == f.payload.len(),
        b == client_bytes(f),
        b.len() == off + 4 + n,
        b.subrange(off as int, off as int + 4) =~= f.mask_key,
        b.subrange(off as int + 4, (off + 4 + n) as int) =~= mask_with(f.payload, f.mask_key),
    ensures
        decode_body(b, f.fin, f.opcode, off, n) == (DecodedModel::Complete {
            frame: FrameModel {
                fin: f.fin,
                opcode: f.opcode,
                masked: true,
                mask_key: f.mask_key,
                payload: f.payload,
            },
            used: b.len() as nat,
        }),
{
    assert(!(is_control(f.opcode) && n > 125));
    lemma_mask_involution(f.payload, f.mask_key);
}

} // verus!
