//! Modbus-TCP protocol engine: byte helpers, coil-bit unpacking, the
//! capability trait consumed by the dispatcher, request handling, and the
//! per-connection reassembly buffer.

use vstd::prelude::*;

verus! {

pub const READ_DISCRETE_INPUTS: u8 = 2;

pub const READ_COILS: u8 = 1;

pub const WRITE_SINGLE_COIL: u8 = 5;

pub const WRITE_MULTIPLE_COILS: u8 = 15;

pub const ILLEGAL_FUNCTION: u8 = 1;

pub const ILLEGAL_DATA_ADDRESS: u8 = 2;

pub const ILLEGAL_DATA_VALUE: u8 = 3;

pub const SERVER_DEVICE_FAILURE: u8 = 4;

pub const ACKNOWLEDGE: u8 = 5;

pub const SERVER_DEVICE_BUSY: u8 = 6;

pub const MEMORY_PARITY_ERROR: u8 = 8;

pub const GATEWAY_PATH_UNAVAILABLE: u8 = 0xa;

pub const GATEWAY_TARGET_DEVICE_FAILED_TO_RESPOND: u8 = 0xb;

/// The big-endian 16-bit value held by a high and a low byte.
pub open spec fn be16(hi: u8, lo: u8) -> u16 {
    (hi as u16 * 256 + lo as u16) as u16
}

/// Decodes the first two bytes of `bytes` as a big-endian 16-bit integer.
pub fn be16_to_u16(bytes: &[u8]) -> (v: u16)
    requires
        bytes@.len() >= 2,
    ensures
        v == be16(bytes@[0], bytes@[1]),
{
    let b0: u8 = bytes[0];
    let b1: u8 = bytes[1];
    let v: u16 = ((b0 as u16) << 8) | (b1 as u16);
    assert(v == b0 as u16 * 256 + b1 as u16) by (bit_vector)
        requires
            v == ((b0 as u16) << 8) | (b1 as u16),
    ;
    v
}

/// Writes `v` big-endian into the first two bytes of `bytes`.
pub fn u16_to_be16(v: u16, bytes: &mut [u8])
    requires
        old(bytes)@.len() >= 2,
    ensures
        final(bytes)@ == old(bytes)@.update(0, (v / 256) as u8).update(1, (v % 256) as u8),
{
    let hi: u8 = (v >> 8) as u8;
    let lo: u8 = v as u8;
    assert(hi == v / 256 && lo == v % 256) by (bit_vector)
        requires
            hi == (v >> 8) as u8 && lo == v as u8,
    ;
    bytes[0] = hi;
    bytes[1] = lo;
}

/// The next coil address after `addr`, wrapping around the 16-bit space.
pub open spec fn next_addr(addr: u16) -> u16 {
    if addr == 0xffff {
        0u16
    } else {
        (addr + 1) as u16
    }
}

/// Bit `i` of a low-bit-first packed coil bitmap: bit `i % 8` of byte `i / 8`.
pub open spec fn coil_bit(bytes: Seq<u8>, i: int) -> bool {
    (bytes[i / 8] >> ((i % 8) as u8)) & 1 == 1
}

/// The coil values packed into `bytes`, low bit first, eight per byte,
/// truncated to at most `quantity` values.
pub open spec fn unpacked_bits(bytes: Seq<u8>, quantity: nat) -> Seq<bool> {
    let n = if quantity <= 8 * bytes.len() {
        quantity
    } else {
        8 * bytes.len()
    };
    Seq::new(n, |i: int| coil_bit(bytes, i))
}

/// Unpacks a coil bitmap into individual values, low bit of each byte first,
/// truncated to `quantity` values.
pub fn unpack_coil_bits(bytes: &[u8], quantity: u16) -> (bits: Vec<bool>)
    ensures
        bits@ == unpacked_bits(bytes@, quantity as nat),
{
    let mut bits: Vec<bool> = Vec::new();
    let mut bi: usize = 0;
    while bi < bytes.len()
        invariant
            bi <= bytes@.len(),
            bits@ =~= Seq::new(8 * bi as nat, |i: int| coil_bit(bytes@, i)),
        decreases bytes@.len() - bi,
    {
        let byte: u8 = bytes[bi];
        let mut k: u8 = 0;
        while k < 8
            invariant
                k <= 8,
                bi < bytes@.len(),
                byte == bytes@[bi as int],
                bits@ =~= Seq::new(8 * bi as nat + k as nat, |i: int| coil_bit(bytes@, i)),
            decreases 8 - k,
        {
            let bit: bool = (byte >> k) & 1 != 0;
            proof {
                let i = 8 * bi as int + k as int;
                assert(i / 8 == bi as int && i % 8 == k as int) by (nonlinear_arith)
                    requires
                        0 <= k < 8,
                        0 <= bi,
                        i == 8 * bi as int + k as int,
                ;
                let kk = (i % 8) as u8;
                assert(((byte >> kk) & 1 != 0) == ((byte >> kk) & 1 == 1)) by (bit_vector);
                assert(bit == coil_bit(bytes@, i));
            }
            bits.push(bit);
            k = k + 1;
        }
        bi = bi + 1;
    }
    if quantity as usize <= bits.len() {
        bits.truncate(quantity as usize);
    }
    assert(bits@ =~= unpacked_bits(bytes@, quantity as nat));
    bits
}

/// The capability surface the protocol engine dispatches against: reading
/// discrete inputs, reading coils, and writing coils.  Each implementation
/// fixes its behaviour through three specification functions over its model
/// state (its [`View`]), and the executable methods are bound to them, so
/// that callers generic over the trait still get exact contracts.
pub trait Ops: Sized + View {
    /// The reply of `get_input` on the model state `m`.
    spec fn spec_get_input(m: Self::V, addr: u16) -> Result<bool, u8>;

    /// The reply of `get_coil` on the model state `m`.
    spec fn spec_get_coil(m: Self::V, addr: u16) -> Result<bool, u8>;

    /// The model state after `set_coil` on `m`, and its reply.
    spec fn spec_set_coil(m: Self::V, addr: u16, v: bool) -> (Self::V, Result<bool, u8>);

    fn get_input(&self, addr: u16) -> (r: Result<bool, u8>)
        ensures
            r == Self::spec_get_input(self@, addr),
    ;

    fn get_coil(&self, addr: u16) -> (r: Result<bool, u8>)
        ensures
            r == Self::spec_get_coil(self@, addr),
    ;

    fn set_coil(&mut self, addr: u16, v: bool) -> (r: Result<bool, u8>)
        ensures
            (final(self)@, r) == Self::spec_set_coil(old(self)@, addr, v),
    ;
}

/// Reads `len` discrete inputs one address at a time, starting at `addr`
/// and wrapping around the address space, stopping at the first error.
pub fn get_inputs<O: Ops>(ops: &O, addr: u16, len: u16) -> (r: Result<(), u8>)
    ensures
        r == spec_get_inputs::<O>(ops@, addr, len as nat),
{
    let mut k: u16 = 0;
    let mut a: u16 = addr;
    while k < len
        invariant
            k <= len,
            spec_get_inputs::<O>(ops@, addr, len as nat) == spec_get_inputs::<O>(
                ops@,
                a,
                (len - k) as nat,
            ),
        decreases len - k,
    {
        if let Err(err) = ops.get_input(a) {
            return Err(err);
        }
        a = if a == 0xffff {
            0
        } else {
            a + 1
        };
        k = k + 1;
    }
    Ok(())
}

/// Reads one coil for each element of `v`, starting at `addr` and
/// wrapping around the address space, stopping at the first error.
pub fn get_coils<O: Ops>(ops: &O, addr: u16, v: &[bool]) -> (r: Result<(), u8>)
    ensures
        r == spec_get_coils::<O>(ops@, addr, (v@.len() % 0x10000) as nat),
{
    let n: usize = v.len();
    let len: u16 = #[verifier::truncate] (n as u16);
    assert(len == n % 0x10000) by (bit_vector)
        requires
            len == n as u16,
    ;
    let mut k: u16 = 0;
    let mut a: u16 = addr;
    while k < len
        invariant
            k <= len,
            len == v@.len() % 0x10000,
            spec_get_coils::<O>(ops@, addr, len as nat) == spec_get_coils::<O>(
                ops@,
                a,
                (len - k) as nat,
            ),
        decreases len - k,
    {
        if let Err(err) = ops.get_coil(a) {
            return Err(err);
        }
        a = if a == 0xffff {
            0
        } else {
            a + 1
        };
        k = k + 1;
    }
    Ok(())
}

/// Writes the coils `v` one address at a time, starting at `addr` and
/// wrapping around the address space, stopping at the first error.
pub fn set_coils<O: Ops>(ops: &mut O, addr: u16, v: &[bool]) -> (r: Result<(), u8>)
    ensures
        (final(ops)@, r) == spec_set_coils::<O>(old(ops)@, addr, v@),
{
    let mut k: usize = 0;
    let mut a: u16 = addr;
    assert(v@.skip(0) =~= v@);
    while k < v.len()
        invariant
            k <= v@.len(),
            spec_set_coils::<O>(old(ops)@, addr, v@) == spec_set_coils::<O>(
                ops@,
                a,
                v@.skip(k as int),
            ),
        decreases v@.len() - k,
    {
        if let Err(err) = ops.set_coil(a, v[k]) {
            return Err(err);
        }
        proof {
            assert(v@.skip(k as int)[0] == v@[k as int]);
            assert(v@.skip(k as int).skip(1) =~= v@.skip(k as int + 1));
        }
        a = if a == 0xffff {
            0
        } else {
            a + 1
        };
        k = k + 1;
    }
    assert(v@.skip(k as int).len() == 0);
    Ok(())
}

/// The reply of `Ops::get_inputs`: the first error among the inputs at the
/// `len` addresses from `addr` on, or success if there is none.
pub open spec fn spec_get_inputs<O: Ops>(m: O::V, addr: u16, len: nat) -> Result<(), u8>
    decreases len,
{
    if len == 0 {
        Ok(())
    } else {
        match O::spec_get_input(m, addr) {
            Ok(_) => spec_get_inputs::<O>(m, next_addr(addr), (len - 1) as nat),
            Err(e) => Err(e),
        }
    }
}

/// The reply of `Ops::get_coils`: the first error among the coils at the
/// `len` addresses from `addr` on, or success if there is none.
pub open spec fn spec_get_coils<O: Ops>(m: O::V, addr: u16, len: nat) -> Result<(), u8>
    decreases len,
{
    if len == 0 {
        Ok(())
    } else {
        match O::spec_get_coil(m, addr) {
            Ok(_) => spec_get_coils::<O>(m, next_addr(addr), (len - 1) as nat),
            Err(e) => Err(e),
        }
    }
}

/// The state after `Ops::set_coils` and its reply: the coils `v` written one
/// by one from `addr` on, stopping at the first error.
pub open spec fn spec_set_coils<O: Ops>(m: O::V, addr: u16, v: Seq<bool>) -> (O::V, Result<
    (),
    u8,
>)
    decreases v.len(),
{
    if v.len() == 0 {
        (m, Ok(()))
    } else {
        let (m2, r) = O::spec_set_coil(m, addr, v[0]);
        match r {
            Ok(_) => spec_set_coils::<O>(m2, next_addr(addr), v.skip(1)),
            Err(e) => (m2, Err(e)),
        }
    }
}

/// The state after a request PDU is dispatched and the response body that is
/// sent back.  `req` is the function code followed by its payload.
///
/// A write-single-coil request must carry exactly five bytes, a
/// write-multiple-coils request at least six with a bitmap of the declared
/// byte count; a wrong size earns an `ILLEGAL_DATA_VALUE` exception and any
/// other function code an `ILLEGAL_FUNCTION` exception, each encoded as the
/// function code with its high bit set followed by the exception code.
pub open spec fn spec_handle_request<O: Ops>(req: Seq<u8>, m: O::V) -> (O::V, Seq<u8>)
    recommends
        req.len() >= 1,
{
    if req[0] == WRITE_SINGLE_COIL {
        if req.len() != 5 {
            (m, seq![(WRITE_SINGLE_COIL | 0x80) as u8, ILLEGAL_DATA_VALUE])
        } else {
            let addr = be16(req[1], req[2]);
            let (m2, r) = O::spec_set_coil(m, addr, req[3] != 0);
            match r {
                Ok(v) => (
                    m2,
                    seq![
                        WRITE_SINGLE_COIL,
                        if v {
                            0xffu8
                        } else {
                            0x00u8
                        },
                        0x00u8,
                    ],
                ),
                Err(code) => (m2, seq![(WRITE_SINGLE_COIL | 0x80) as u8, code]),
            }
        }
    } else if req[0] == WRITE_MULTIPLE_COILS {
        if req.len() < 6 {
            (m, seq![(WRITE_MULTIPLE_COILS | 0x80) as u8, ILLEGAL_DATA_VALUE])
        } else {
            let addr = be16(req[1], req[2]);
            let quantity = be16(req[3], req[4]);
            let n_bytes = req[5];
            if n_bytes as int + 6 != req.len() {
                (m, seq![(WRITE_MULTIPLE_COILS | 0x80) as u8, ILLEGAL_DATA_VALUE])
            } else {
                let bits = unpacked_bits(req.skip(6), quantity as nat);
                let (m2, r) = spec_set_coils::<O>(m, addr, bits);
                match r {
                    Ok(_) => (m2, req.take(5)),
                    Err(code) => (m2, seq![(WRITE_MULTIPLE_COILS | 0x80) as u8, code]),
                }
            }
        }
    } else {
        (m, seq![(req[0] | 0x80) as u8, ILLEGAL_FUNCTION])
    }
}

/// Dispatches one request PDU against `ops` and returns the response body:
/// the function code followed by its payload, or, on failure, the function
/// code with its high bit set followed by the exception code.
pub fn handle_request<O: Ops>(req: &[u8], ops: &mut O) -> (resp: Vec<u8>)
    requires
        req@.len() >= 1,
    ensures
        (final(ops)@, resp@) == spec_handle_request::<O>(req@, old(ops)@),
{
    let code: u8 = req[0];
    if code == WRITE_SINGLE_COIL {
        if req.len() != 5 {
            let mut resp: Vec<u8> = Vec::new();
            resp.push(WRITE_SINGLE_COIL | 0x80);
            resp.push(ILLEGAL_DATA_VALUE);
            assert(resp@ =~= seq![(WRITE_SINGLE_COIL | 0x80) as u8, ILLEGAL_DATA_VALUE]);
            return resp;
        }
        let addr = be16_to_u16(&req[1..3]);
        let mut resp: Vec<u8> = Vec::new();
        match ops.set_coil(addr, req[3] != 0x00) {
            Ok(v) => {
                resp.push(WRITE_SINGLE_COIL);
                resp.push(
                    if v {
                        0xff
                    } else {
                        0x00
                    },
                );
                resp.push(0x00);
                assert(resp@ =~= seq![
                    WRITE_SINGLE_COIL,
                    if v {
                        0xffu8
                    } else {
                        0x00u8
                    },
                    0x00u8,
                ]);
            },
            Err(code) => {
                resp.push(WRITE_SINGLE_COIL | 0x80);
                resp.push(code);
                assert(resp@ =~= seq![(WRITE_SINGLE_COIL | 0x80) as u8, code]);
            },
        }
        resp
    } else if code == WRITE_MULTIPLE_COILS {
        if req.len() < 6 {
            let mut resp: Vec<u8> = Vec::new();
            resp.push(WRITE_MULTIPLE_COILS | 0x80);
            resp.push(ILLEGAL_DATA_VALUE);
            assert(resp@ =~= seq![(WRITE_MULTIPLE_COILS | 0x80) as u8, ILLEGAL_DATA_VALUE]);
            return resp;
        }
        let addr = be16_to_u16(&req[1..3]);
        let quantity = be16_to_u16(&req[3..5]);
        let n_bytes: u8 = req[5];
        if n_bytes as usize + 6 != req.len() {
            let mut resp: Vec<u8> = Vec::new();
            resp.push(WRITE_MULTIPLE_COILS | 0x80);
            resp.push(ILLEGAL_DATA_VALUE);
            assert(resp@ =~= seq![(WRITE_MULTIPLE_COILS | 0x80) as u8, ILLEGAL_DATA_VALUE]);
            return resp;
        }
        let bits = unpack_coil_bits(&req[6..req.len()], quantity);
        let mut resp: Vec<u8> = Vec::new();
        match set_coils(ops, addr, bits.as_slice()) {
            Ok(_) => {
                let mut i: usize = 0;
                while i < 5
                    invariant
                        i <= 5,
                        req@.len() >= 6,
                        resp@ =~= req@.take(i as int),
                    decreases 5 - i,
                {
                    resp.push(req[i]);
                    i = i + 1;
                }
                assert(resp@ =~= req@.take(5));
            },
            Err(code) => {
                resp.push(WRITE_MULTIPLE_COILS | 0x80);
                resp.push(code);
                assert(resp@ =~= seq![(WRITE_MULTIPLE_COILS | 0x80) as u8, code]);
            },
        }
        resp
    } else {
        let mut resp: Vec<u8> = Vec::new();
        resp.push(code | 0x80);
        resp.push(ILLEGAL_FUNCTION);
        assert(resp@ =~= seq![(req@[0] | 0x80) as u8, ILLEGAL_FUNCTION]);
        resp
    }
}

/// The full response frame for an extracted request frame: the first four
/// header bytes of the request (transaction and protocol id), a rewritten
/// length field counting the unit id and the response body, the request's
/// unit id, and the body.
pub open spec fn spec_frame_response(frame: Seq<u8>, body: Seq<u8>) -> Seq<u8>
    recommends
        frame.len() >= 7,
{
    let l = (body.len() + 1) as u16;
    frame.take(4) + seq![(l / 256) as u8, (l % 256) as u8, frame[6]] + body
}

/// One pass of the per-connection engine over its buffer `buf` and the
/// operations state `s`: the buffer afterwards, the state afterwards, and
/// the response frame to send, if any.
///
/// Nothing happens below eight buffered bytes.  A nonzero protocol id
/// discards the whole buffer without a response.  Otherwise, once the
/// declared frame is fully buffered, exactly that frame is taken off the
/// front; a frame too short to carry a function code is dropped without a
/// response, and any other frame is dispatched and answered.
pub open spec fn spec_step<O: Ops>(buf: Seq<u8>, m: O::V) -> (Seq<u8>, O::V, Option<Seq<u8>>) {
    if buf.len() < 8 {
        (buf, m, None)
    } else if be16(buf[2], buf[3]) != 0 {
        (Seq::<u8>::empty(), m, None)
    } else {
        let msg_len = be16(buf[4], buf[5]) as int;
        if buf.len() < msg_len + 6 {
            (buf, m, None)
        } else {
            let frame = buf.take(msg_len + 6);
            let rest = buf.skip(msg_len + 6);
            if msg_len < 2 {
                (rest, m, None)
            } else {
                let (m2, body) = spec_handle_request::<O>(frame.skip(7), m);
                (rest, m2, Some(spec_frame_response(frame, body)))
            }
        }
    }
}

/// A response body is never longer than five bytes.
pub proof fn lemma_response_len<O: Ops>(req: Seq<u8>, m: O::V)
    requires
        req.len() >= 1,
    ensures
        spec_handle_request::<O>(req, m).1.len() <= 5,
{
}

/// The reassembly buffer of one connection.  Bytes read from the peer are
/// appended with [`Engine::feed`]; [`Engine::step`] extracts and answers at
/// most one complete frame; [`Engine::reset`] discards a stalled partial
/// frame, as on a read timeout.
pub struct Engine {
    buf: Vec<u8>,
}

impl View for Engine {
    type V = Seq<u8>;

    closed spec fn view(&self) -> Seq<u8> {
        self.buf@
    }
}

impl Engine {
    /// An engine with an empty buffer.
    pub fn new() -> (e: Engine)
        ensures
            e@ == Seq::<u8>::empty(),
    {
        Engine { buf: Vec::new() }
    }

    /// Appends newly read bytes to the buffer.
    pub fn feed(&mut self, bytes: &[u8])
        ensures
            final(self)@ == old(self)@ + bytes@,
    {
        let mut i: usize = 0;
        while i < bytes.len()
            invariant
                i <= bytes@.len(),
                self.buf@ =~= old(self)@ + bytes@.take(i as int),
            decreases bytes@.len() - i,
        {
            self.buf.push(bytes[i]);
            i = i + 1;
        }
        assert(self.buf@ =~= old(self)@ + bytes@);
    }

    /// Discards everything buffered so far.
    pub fn reset(&mut self)
        ensures
            final(self)@ == Seq::<u8>::empty(),
    {
        self.buf.clear();
    }

    /// Performs one pass over the buffer, as [`spec_step`] describes:
    /// extracts at most one complete frame, dispatches it against `ops`,
    /// and returns the response frame to send, if any.
    pub fn step<O: Ops>(&mut self, ops: &mut O) -> (resp: Option<Vec<u8>>)
        ensures
            ({
                let (buf2, m2, r) = spec_step::<O>(old(self)@, old(ops)@);
                &&& final(self)@ == buf2
                &&& final(ops)@ == m2
                &&& match (resp, r) {
                    (Some(v), Some(q)) => v@ == q,
                    (None, None) => true,
                    _ => false,
                }
            }),
    {
        if self.buf.len() < 8 {
            return None;
        }
        let proto = be16_to_u16(&self.buf[2..4]);
        if proto != 0 {
            self.buf.clear();
            return None;
        }
        let msg_len = be16_to_u16(&self.buf[4..6]) as usize;
        let total = msg_len + 6;
        if self.buf.len() < total {
            return None;
        }
        let mut frame: Vec<u8> = Vec::new();
        let mut i: usize = 0;
        while i < total
            invariant
                i <= total,
                total <= self.buf@.len(),
                self == old(self),
                frame@ =~= old(self)@.take(i as int),
            decreases total - i,
        {
            frame.push(self.buf[i]);
            i = i + 1;
        }
        let mut rest: Vec<u8> = Vec::new();
        let mut j: usize = total;
        while j < self.buf.len()
            invariant
                total <= j <= self.buf@.len(),
                self == old(self),
                rest@ =~= old(self)@.subrange(total as int, j as int),
            decreases self.buf@.len() - j,
        {
            rest.push(self.buf[j]);
            j = j + 1;
        }
        assert(rest@ =~= old(self)@.skip(total as int));
        self.buf = rest;
        if msg_len < 2 {
            return None;
        }
        assert(frame@.skip(7) =~= old(self)@.take(total as int).skip(7));
        let body = handle_request(&frame[7..frame.len()], ops);
        proof {
            lemma_response_len::<O>(frame@.skip(7), old(ops)@);
        }
        let l: u16 = (body.len() + 1) as u16;
        let mut resp: Vec<u8> = Vec::new();
        resp.push(frame[0]);
        resp.push(frame[1]);
        resp.push(frame[2]);
        resp.push(frame[3]);
        resp.push((l / 256) as u8);
        resp.push((l % 256) as u8);
        resp.push(frame[6]);
        let mut b: usize = 0;
        while b < body.len()
            invariant
                b <= body@.len(),
                frame@.len() >= 7,
                resp@ =~= frame@.take(4) + seq![
                    ((body@.len() + 1) as u16 / 256) as u8,
                    ((body@.len() + 1) as u16 % 256) as u8,
                    frame@[6],
                ] + body@.take(b as int),
            decreases body@.len() - b,
        {
            resp.push(body[b]);
            b = b + 1;
        }
        assert(resp@ =~= spec_frame_response(frame@, body@));
        Some(resp)
    }
}

/// The engine's buffer after a sequence of chunks is fed into it.
pub open spec fn feed_all(buf: Seq<u8>, chunks: Seq<Seq<u8>>) -> Seq<u8>
    decreases chunks.len(),
{
    if chunks.len() == 0 {
        buf
    } else {
        feed_all(buf + chunks[0], chunks.skip(1))
    }
}

/// Feeding a byte stream chunk by chunk leaves the same buffer as feeding
/// it whole.
pub proof fn lemma_feed_all_flatten(buf: Seq<u8>, chunks: Seq<Seq<u8>>)
    ensures
        feed_all(buf, chunks) == buf + chunks.flatten(),
    decreases chunks.len(),
{
    if chunks.len() == 0 {
        assert(buf + chunks.flatten() =~= buf);
    } else {
        lemma_feed_all_flatten(buf + chunks[0], chunks.skip(1));
        assert(chunks.skip(1) =~= chunks.drop_first());
        assert((buf + chunks[0]) + chunks.skip(1).flatten() =~= buf + chunks.flatten());
    }
}

/// However a request is split into chunks delivered across successive
/// reads, the engine ends with the same buffer as when the whole request
/// arrives at once, and so extracts the same frame, decodes the same
/// request, and produces the same response and state.
pub proof fn lemma_chunked_delivery<O: Ops>(chunks: Seq<Seq<u8>>, m: O::V)
    ensures
        spec_step::<O>(feed_all(Seq::<u8>::empty(), chunks), m) == spec_step::<O>(
            chunks.flatten(),
            m,
        ),
{
    lemma_feed_all_flatten(Seq::<u8>::empty(), chunks);
    assert(Seq::<u8>::empty() + chunks.flatten() =~= chunks.flatten());
}

/// A single well-formed request frame: a full header, protocol id zero, and
/// a declared length that matches the frame and leaves room for a function
/// code.
pub open spec fn valid_request_frame(msg: Seq<u8>) -> bool {
    &&& msg.len() >= 8
    &&& be16(msg[2], msg[3]) == 0
    &&& 2 <= be16(msg[4], msg[5]) as int
    &&& be16(msg[4], msg[5]) as int + 6 == msg.len()
}

/// Stepping the engine on an incomplete prefix of a valid request changes
/// nothing and answers nothing: the engine waits for the rest.
pub proof fn lemma_step_prefix_no_op<O: Ops>(msg: Seq<u8>, k: int, m: O::V)
    requires
        valid_request_frame(msg),
        0 <= k < msg.len(),
    ensures
        spec_step::<O>(msg.take(k), m) == (msg.take(k), m, None::<Seq<u8>>),
{
    let buf = msg.take(k);
    if k >= 8 {
        assert(buf[2] == msg[2] && buf[3] == msg[3] && buf[4] == msg[4] && buf[5] == msg[5]);
    }
}

/// A chunked delivery: each chunk is appended to the buffer and the engine
/// stepped once, collecting the responses produced along the way.  The
/// result is the final buffer, the final operations state, and the
/// responses in order.
pub open spec fn spec_deliver<O: Ops>(buf: Seq<u8>, m: O::V, chunks: Seq<Seq<u8>>) -> (
    Seq<u8>,
    O::V,
    Seq<Seq<u8>>,
)
    decreases chunks.len(),
{
    if chunks.len() == 0 {
        (buf, m, Seq::<Seq<u8>>::empty())
    } else {
        let (b2, m2, r) = spec_step::<O>(buf + chunks[0], m);
        let (b3, m3, rs) = spec_deliver::<O>(b2, m2, chunks.skip(1));
        let first = match r {
            Some(x) => seq![x],
            None => Seq::<Seq<u8>>::empty(),
        };
        (b3, m3, first + rs)
    }
}

/// Delivering nothing, chunk by empty chunk, does nothing.
proof fn lemma_deliver_nothing<O: Ops>(m: O::V, chunks: Seq<Seq<u8>>)
    requires
        chunks.flatten().len() == 0,
    ensures
        spec_deliver::<O>(Seq::<u8>::empty(), m, chunks) == (
            Seq::<u8>::empty(),
            m,
            Seq::<Seq<u8>>::empty(),
        ),
    decreases chunks.len(),
{
    if chunks.len() > 0 {
        assert(chunks.first() == chunks[0] && chunks.drop_first() =~= chunks.skip(1));
        assert(chunks.flatten() == chunks[0] + chunks.skip(1).flatten());
        assert(chunks[0].len() == 0 && chunks.skip(1).flatten().len() == 0);
        assert(Seq::<u8>::empty() + chunks[0] =~= Seq::<u8>::empty());
        lemma_deliver_nothing::<O>(m, chunks.skip(1));
        assert(Seq::<Seq<u8>>::empty() + Seq::<Seq<u8>>::empty() =~= Seq::<Seq<u8>>::empty());
    }
}

/// Chunked delivery of a valid request already partly buffered: once the
/// rest arrives, chunk by chunk, exactly the response of the whole request
/// is emitted, and buffer and state end as a whole-message delivery leaves
/// them.
proof fn lemma_deliver_rest<O: Ops>(msg: Seq<u8>, k: int, chunks: Seq<Seq<u8>>, m: O::V)
    requires
        valid_request_frame(msg),
        0 <= k < msg.len(),
        chunks.len() >= 1,
        msg.take(k) + chunks.flatten() == msg,
    ensures
        ({
            let (b3, m3, rs) = spec_deliver::<O>(msg.take(k), m, chunks);
            let (rest, m2, r) = spec_step::<O>(msg, m);
            &&& b3 == Seq::<u8>::empty()
            &&& m3 == m2
            &&& match r {
                Some(x) => rs == seq![x],
                None => false,
            }
        }),
    decreases chunks.len(),
{
    let c0 = chunks[0];
    assert(chunks.first() == chunks[0] && chunks.drop_first() =~= chunks.skip(1));
    assert(chunks.flatten() == c0 + chunks.skip(1).flatten());
    let k2 = k + c0.len();
    assert(k2 <= msg.len()) by {
        assert(msg.len() == k + chunks.flatten().len());
        assert(chunks.flatten().len() == c0.len() + chunks.skip(1).flatten().len());
    }
    assert(msg.take(k) + c0 =~= msg.take(k2));
    let msg_len = be16(msg[4], msg[5]) as int;
    if k2 < msg.len() {
        lemma_step_prefix_no_op::<O>(msg, k2, m);
        assert(chunks.skip(1).len() >= 1) by {
            assert(chunks.skip(1).flatten().len() > 0);
        }
        assert(msg.take(k2) + chunks.skip(1).flatten() =~= msg);
        lemma_deliver_rest::<O>(msg, k2, chunks.skip(1), m);
        let (b3, m3, rs) = spec_deliver::<O>(msg.take(k2), m, chunks.skip(1));
        assert(Seq::<Seq<u8>>::empty() + rs =~= rs);
    } else {
        assert(msg.take(k2) =~= msg);
        let (b2, m2, r) = spec_step::<O>(msg, m);
        assert(r is Some && b2 =~= Seq::<u8>::empty()) by {
            assert(msg.take(msg_len + 6) =~= msg);
            assert(msg.skip(msg_len + 6) =~= Seq::<u8>::empty());
        }
        assert(chunks.skip(1).flatten().len() == 0);
        lemma_deliver_nothing::<O>(m2, chunks.skip(1));
        let x = match r {
            Some(x) => x,
            None => Seq::<u8>::empty(),
        };
        assert(seq![x] + Seq::<Seq<u8>>::empty() =~= seq![x]);
    }
}

/// However a valid request is split into chunks delivered across successive
/// reads — the engine stepped after each read — exactly one response comes
/// out: the one the whole request delivered at once produces, with the same
/// final state and an empty buffer.
pub proof fn lemma_chunked_request_delivery<O: Ops>(msg: Seq<u8>, chunks: Seq<Seq<u8>>, m: O::V)
    requires
        valid_request_frame(msg),
        chunks.len() >= 1,
        chunks.flatten() == msg,
    ensures
        ({
            let (b3, m3, rs) = spec_deliver::<O>(Seq::<u8>::empty(), m, chunks);
            let (rest, m2, r) = spec_step::<O>(msg, m);
            &&& b3 == Seq::<u8>::empty()
            &&& m3 == m2
            &&& match r {
                Some(x) => rs == seq![x],
                None => false,
            }
        }),
{
    assert(msg.take(0) =~= Seq::<u8>::empty());
    assert(msg.take(0) + chunks.flatten() =~= msg);
    lemma_deliver_rest::<O>(msg, 0, chunks, m);
}

/// Once eight bytes are buffered, a nonzero protocol id discards the whole
/// buffer, leaves the operations state untouched, and produces no response.
pub proof fn lemma_nonzero_protocol_discards<O: Ops>(buf: Seq<u8>, m: O::V)
    requires
        buf.len() >= 8,
        be16(buf[2], buf[3]) != 0,
    ensures
        spec_step::<O>(buf, m) == (Seq::<u8>::empty(), m, None::<Seq<u8>>),
{
}

} // verus!
