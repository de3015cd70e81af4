//! Wire codec for the lighting-control protocol: the bidirectional transform
//! between raw UDP datagrams and the three typed commands the service speaks
//! (Poll, PollReply, Output).
//!
//! A datagram starts with the fixed eight-byte protocol header, then a
//! little-endian opcode, then the command's fields. A PollReply datagram is
//! 239 bytes; the fields this service does not read are transmitted as zero
//! and ignored on receipt. An Output datagram carries a big-endian payload
//! length followed by the payload itself.
use vstd::prelude::*;

verus! {

use vstd::slice::slice_index_get;

/// Opcode of a Poll command, little-endian on the wire.
pub const OP_POLL: u16 = 0x2000;

/// Opcode of a PollReply command.
pub const OP_POLL_REPLY: u16 = 0x2100;

/// Opcode of an Output command.
pub const OP_OUTPUT: u16 = 0x5000;

/// Smallest datagram the decoder accepts: header, opcode, and the four
/// Poll payload bytes.
pub const MIN_DATAGRAM_LEN: usize = 14;

/// Exact length of a PollReply datagram.
pub const POLL_REPLY_LEN: usize = 239;

/// Length of an Output datagram up to and including the payload length
/// field; the payload follows.
pub const OUTPUT_PREFIX_LEN: usize = 18;

/// The fixed eight bytes that open every datagram of the protocol.
pub open spec fn wire_header() -> Seq<u8> {
    seq![0x41u8, 0x72u8, 0x74u8, 0x2du8, 0x4eu8, 0x65u8, 0x74u8, 0x00u8]
}

/// Low byte of a 16-bit word.
pub open spec fn lo(x: u16) -> u8 {
    (x % 256) as u8
}

/// High byte of a 16-bit word.
pub open spec fn hi(x: u16) -> u8 {
    (x / 256) as u8
}

/// The 16-bit word with the given low and high bytes.
pub open spec fn word_of(lo: u8, hi: u8) -> u16 {
    (lo + hi * 256) as u16
}

/// Discovery request, broadcast to find nodes.
#[derive(Debug, Clone, PartialEq)]
pub struct Poll {
    /// Protocol version, two raw bytes.
    pub version: [u8; 2],
    /// Flags that tell nodes how to respond.
    pub talk_to_me: u8,
    /// Priority of the diagnostics nodes should send.
    pub diagnostics_priority: u8,
}

/// A node's answer to a Poll: its identity. Only the fields the service
/// reads are kept; the rest of the 239-byte wire form is zero.
#[derive(Debug, Clone, PartialEq)]
pub struct PollReply {
    /// The node's IP address octets.
    pub address: [u8; 4],
    /// The node's UDP port, little-endian on the wire.
    pub port: u16,
    /// Null-terminated short name within a fixed 18-byte field.
    pub short_name: [u8; 18],
    /// Null-terminated long name within a fixed 64-byte field.
    pub long_name: [u8; 64],
}

/// One frame's worth of pixel data for a node.
#[derive(Debug, Clone, PartialEq)]
pub struct Output {
    /// Protocol version, two raw bytes.
    pub version: [u8; 2],
    /// Resequencing counter; zero disables the feature.
    pub sequence: u8,
    /// Physical input port, informational.
    pub physical: u8,
    /// Destination port-address, little-endian on the wire.
    pub port_address: u16,
    /// Declared payload byte count, big-endian on the wire.
    pub length: u16,
    /// The payload bytes.
    pub data: Vec<u8>,
}

/// A decoded wire command.
#[derive(Debug, Clone, PartialEq)]
pub enum Command {
    Poll(Poll),
    PollReply(PollReply),
    Output(Output),
}

/// The Poll the discovery driver broadcasts: current protocol version,
/// no reply flags, default diagnostics priority.
pub open spec fn default_poll_v() -> PollV {
    PollV { version: seq![0u8, 14u8], talk_to_me: 0, diagnostics_priority: 0x80 }
}

impl Default for Poll {
    fn default() -> (r: Poll)
        ensures
            r@ == default_poll_v(),
    {
        let p = Poll { version: [0u8, 14u8], talk_to_me: 0, diagnostics_priority: 0x80 };
        proof {
            assert(p.version@ =~= seq![0u8, 14u8]);
        }
        p
    }
}

/// Mathematical image of a Poll.
pub ghost struct PollV {
    pub version: Seq<u8>,
    pub talk_to_me: u8,
    pub diagnostics_priority: u8,
}

/// Mathematical image of a PollReply.
pub ghost struct PollReplyV {
    pub address: Seq<u8>,
    pub port: u16,
    pub short_name: Seq<u8>,
    pub long_name: Seq<u8>,
}

/// Mathematical image of an Output.
pub ghost struct OutputV {
    pub version: Seq<u8>,
    pub sequence: u8,
    pub physical: u8,
    pub port_address: u16,
    pub length: u16,
    pub data: Seq<u8>,
}

/// Mathematical image of a command; contracts and the round-trip law are
/// stated over this type.
pub ghost enum CommandV {
    Poll(PollV),
    PollReply(PollReplyV),
    Output(OutputV),
}

impl View for Poll {
    type V = PollV;

    open spec fn view(&self) -> PollV {
        PollV {
            version: self.version@,
            talk_to_me: self.talk_to_me,
            diagnostics_priority: self.diagnostics_priority,
        }
    }
}

impl View for PollReply {
    type V = PollReplyV;

    open spec fn view(&self) -> PollReplyV {
        PollReplyV {
            address: self.address@,
            port: self.port,
            short_name: self.short_name@,
            long_name: self.long_name@,
        }
    }
}

impl View for Output {
    type V = OutputV;

    open spec fn view(&self) -> OutputV {
        OutputV {
            version: self.version@,
            sequence: self.sequence,
            physical: self.physical,
            port_address: self.port_address,
            length: self.length,
            data: self.data@,
        }
    }
}

impl View for Command {
    type V = CommandV;

    open spec fn view(&self) -> CommandV {
        match self {
            Command::Poll(p) => CommandV::Poll(p@),
            Command::PollReply(r) => CommandV::PollReply(r@),
            Command::Output(o) => CommandV::Output(o@),
        }
    }
}

impl CommandV {
    /// The fixed-size fields have their wire sizes. Every value built by
    /// viewing an exec `Command` satisfies this.
    pub open spec fn wf(self) -> bool {
        match self {
            CommandV::Poll(p) => p.version.len() == 2,
            CommandV::PollReply(r) => r.address.len() == 4 && r.short_name.len() == 18
                && r.long_name.len() == 64,
            CommandV::Output(o) => o.version.len() == 2,
        }
    }
}

/// What the encoder emits for a Poll.
pub open spec fn encode_poll_spec(p: PollV) -> Seq<u8> {
    wire_header() + seq![lo(OP_POLL), hi(OP_POLL)] + p.version
        + seq![p.talk_to_me, p.diagnostics_priority]
}

/// What the encoder emits for a PollReply: the modelled fields at their wire
/// offsets, zero everywhere else.
pub open spec fn encode_poll_reply_spec(r: PollReplyV) -> Seq<u8> {
    wire_header() + seq![lo(OP_POLL_REPLY), hi(OP_POLL_REPLY)] + r.address
        + seq![lo(r.port), hi(r.port)] + Seq::new(10, |i: int| 0u8) + r.short_name + r.long_name
        + Seq::new(131, |i: int| 0u8)
}

/// What the encoder emits for an Output. The length field is big-endian;
/// everything else multi-byte is little-endian.
pub open spec fn encode_output_spec(o: OutputV) -> Seq<u8> {
    wire_header() + seq![lo(OP_OUTPUT), hi(OP_OUTPUT)] + o.version
        + seq![o.sequence, o.physical, lo(o.port_address), hi(o.port_address)]
        + seq![hi(o.length), lo(o.length)] + o.data
}

/// What the encoder emits for any command.
pub open spec fn encode_spec(c: CommandV) -> Seq<u8> {
    match c {
        CommandV::Poll(p) => encode_poll_spec(p),
        CommandV::PollReply(r) => encode_poll_reply_spec(r),
        CommandV::Output(o) => encode_output_spec(o),
    }
}

/// What the decoder makes of a datagram: a command, or nothing when the
/// datagram is malformed or carries a command this service does not speak.
pub open spec fn decode_spec(b: Seq<u8>) -> Option<CommandV> {
    if b.len() < MIN_DATAGRAM_LEN {
        None
    } else if b.subrange(0, 8) != wire_header() {
        None
    } else {
        let op = word_of(b[8], b[9]);
        if op == OP_POLL {
            Some(
                CommandV::Poll(
                    PollV {
                        version: b.subrange(10, 12),
                        talk_to_me: b[12],
                        diagnostics_priority: b[13],
                    },
                ),
            )
        } else if op == OP_POLL_REPLY {
            if b.len() < POLL_REPLY_LEN {
                None
            } else {
                Some(
                    CommandV::PollReply(
                        PollReplyV {
                            address: b.subrange(10, 14),
                            port: word_of(b[14], b[15]),
                            short_name: b.subrange(26, 44),
                            long_name: b.subrange(44, 108),
                        },
                    ),
                )
            }
        } else if op == OP_OUTPUT {
            if b.len() < OUTPUT_PREFIX_LEN {
                None
            } else {
                Some(
                    CommandV::Output(
                        OutputV {
                            version: b.subrange(10, 12),
                            sequence: b[12],
                            physical: b[13],
                            port_address: word_of(b[14], b[15]),
                            length: word_of(b[17], b[16]),
                            data: b.subrange(18, b.len() as int),
                        },
                    ),
                )
            }
        } else {
            None
        }
    }
}

/// Why the decoder rejected a datagram.
#[derive(Debug, Clone, Copy, PartialEq, Eq, Structural)]
pub enum DecodeError {
    /// Shorter than the smallest datagram of the protocol.
    TooShort,
    /// The fixed eight-byte header is not there.
    BadHeader,
    /// An opcode this service does not speak.
    UnknownOpcode,
    /// A known opcode whose payload is cut off.
    TruncatedPayload,
}

/// Why the encoder refused a command. Both causes mean the rest of the
/// system produced a payload it never should have.
#[derive(Debug, Clone, Copy, PartialEq, Eq, Structural)]
pub enum EncodeError {
    /// The declared length field does not equal the payload byte count.
    LengthMismatch,
    /// The payload is empty, longer than 512 bytes, or of odd length.
    SizeInvalid,
}

/// A command the encoder accepts: an Output's declared length equals its
/// payload byte count, and the payload is an even count of 2 to 512 bytes.
pub open spec fn encodable(c: CommandV) -> bool {
    match c {
        CommandV::Output(o) => o.length == o.data.len() && 2 <= o.data.len() <= 512 && o.data.len()
            % 2 == 0,
        _ => true,
    }
}

/// The error the encoder reports for a command it refuses.
pub open spec fn encode_err_spec(c: CommandV) -> EncodeError {
    match c {
        CommandV::Output(o) => if o.length != o.data.len() {
            EncodeError::LengthMismatch
        } else {
            EncodeError::SizeInvalid
        },
        _ => EncodeError::SizeInvalid,
    }
}

/// The error the decoder reports for a datagram it rejects.
pub open spec fn decode_err_spec(b: Seq<u8>) -> DecodeError {
    if b.len() < MIN_DATAGRAM_LEN {
        DecodeError::TooShort
    } else if b.subrange(0, 8) != wire_header() {
        DecodeError::BadHeader
    } else {
        let op = word_of(b[8], b[9]);
        if op == OP_POLL_REPLY || op == OP_OUTPUT {
            DecodeError::TruncatedPayload
        } else {
            DecodeError::UnknownOpcode
        }
    }
}

/// A word survives being split into its two bytes.
pub proof fn lemma_word_bytes(x: u16)
    ensures
        word_of(lo(x), hi(x)) == x,
{
    vstd::arithmetic::div_mod::lemma_fundamental_div_mod(x as int, 256);
}

/// Round trip: decoding what the encoder emitted gives the command back,
/// for every command whose fixed-size fields have their wire sizes.
pub proof fn lemma_round_trip(c: CommandV)
    requires
        c.wf(),
    ensures
        decode_spec(encode_spec(c)) == Some(c),
{
    match c {
        CommandV::Poll(p) => {
            let b = encode_poll_spec(p);
            assert(b.len() == 14);
            assert(b.subrange(0, 8) =~= wire_header());
            assert(word_of(b[8], b[9]) == OP_POLL) by {
                lemma_word_bytes(OP_POLL);
            }
            assert(b.subrange(10, 12) =~= p.version);
            assert(decode_spec(b) == Some(c));
        },
        CommandV::PollReply(r) => {
            let b = encode_poll_reply_spec(r);
            assert(b.len() == 239);
            assert(b.subrange(0, 8) =~= wire_header());
            assert(word_of(b[8], b[9]) == OP_POLL_REPLY) by {
                lemma_word_bytes(OP_POLL_REPLY);
            }
            assert(word_of(b[14], b[15]) == r.port) by {
                lemma_word_bytes(r.port);
            }
            assert(b.subrange(10, 14) =~= r.address);
            assert(b.subrange(26, 44) =~= r.short_name);
            assert(b.subrange(44, 108) =~= r.long_name);
            assert(decode_spec(b) == Some(c));
        },
        CommandV::Output(o) => {
            let b = encode_output_spec(o);
            assert(b.len() == 18 + o.data.len());
            assert(b.subrange(0, 8) =~= wire_header());
            assert(word_of(b[8], b[9]) == OP_OUTPUT) by {
                lemma_word_bytes(OP_OUTPUT);
            }
            assert(word_of(b[14], b[15]) == o.port_address) by {
                lemma_word_bytes(o.port_address);
            }
            assert(word_of(b[17], b[16]) == o.length) by {
                lemma_word_bytes(o.length);
            }
            assert(b.subrange(10, 12) =~= o.version);
            assert(b.subrange(18, b.len() as int) =~= o.data);
            assert(decode_spec(b) == Some(c));
        },
    }
}

/// Append a byte slice to a growing datagram.
fn push_byte_slice(out: &mut Vec<u8>, s: &[u8])
    requires
        old(out)@.len() + s@.len() <= usize::MAX,
    ensures
        final(out)@ == old(out)@ + s@,
{
    out.extend_from_slice(s);
    assert(out@ =~= old(out)@ + s@);
}

/// Append a 16-bit word, low byte first.
fn push_word_le(out: &mut Vec<u8>, x: u16)
    requires
        old(out)@.len() + 2 <= usize::MAX,
    ensures
        final(out)@ == old(out)@ + seq![lo(x), hi(x)],
{
    out.push((x % 256) as u8);
    out.push((x / 256) as u8);
    assert(out@ =~= old(out)@ + seq![lo(x), hi(x)]);
}

/// Append the fixed eight-byte protocol header.
fn push_wire_header(out: &mut Vec<u8>)
    requires
        old(out)@.len() + 8 <= usize::MAX,
    ensures
        final(out)@ == old(out)@ + wire_header(),
{
    out.push(0x41);
    out.push(0x72);
    out.push(0x74);
    out.push(0x2d);
    out.push(0x4e);
    out.push(0x65);
    out.push(0x74);
    out.push(0x00);
    assert(out@ =~= old(out)@ + wire_header());
}

/// Append `n` zero bytes.
fn push_zeros(out: &mut Vec<u8>, n: usize)
    requires
        old(out)@.len() + n <= usize::MAX,
    ensures
        final(out)@ == old(out)@ + Seq::new(n as nat, |i: int| 0u8),
{
    let mut k: usize = 0;
    while k < n
        invariant
            k <= n,
            out@.len() == old(out)@.len() + k,
            out@ == old(out)@ + Seq::new(k as nat, |i: int| 0u8),
        decreases n - k,
    {
        out.push(0);
        k = k + 1;
        assert(out@ =~= old(out)@ + Seq::new(k as nat, |i: int| 0u8));
    }
}

/// The stateless codec between datagrams and commands.
#[derive(Debug)]
pub struct Codec {}

impl Default for Codec {
    fn default() -> (r: Codec)
        ensures
            r == (Codec {  }),
    {
        Codec {  }
    }
}

impl Codec {
    /// Encode a command into the datagram the wire format prescribes.
    /// Refused exactly when an Output's declared length disagrees with its
    /// payload, or the payload size is not an even count of 2 to 512 bytes:
    /// such a command means corrupted internal state, and the caller must
    /// treat the failure as fatal rather than drop it silently.
    pub fn encode(c: &Command) -> (r: Result<Vec<u8>, EncodeError>)
        ensures
            r matches Ok(b) ==> b@ == encode_spec(c@),
            r is Ok <==> encodable(c@),
            r matches Err(e) ==> e == encode_err_spec(c@),
    {
        match c {
            Command::Poll(p) => {
                let mut out: Vec<u8> = Vec::new();
                push_wire_header(&mut out);
                push_word_le(&mut out, OP_POLL);
                push_byte_slice(&mut out, p.version.as_slice());
                out.push(p.talk_to_me);
                out.push(p.diagnostics_priority);
                assert(out@ =~= encode_poll_spec(p@));
                Ok(out)
            },
            Command::PollReply(rep) => {
                let mut out: Vec<u8> = Vec::new();
                push_wire_header(&mut out);
                push_word_le(&mut out, OP_POLL_REPLY);
                push_byte_slice(&mut out, rep.address.as_slice());
                push_word_le(&mut out, rep.port);
                push_zeros(&mut out, 10);
                push_byte_slice(&mut out, rep.short_name.as_slice());
                push_byte_slice(&mut out, rep.long_name.as_slice());
                push_zeros(&mut out, 131);
                assert(out@ =~= encode_poll_reply_spec(rep@));
                Ok(out)
            },
            Command::Output(o) => {
                if o.data.len() != o.length as usize {
                    return Err(EncodeError::LengthMismatch);
                }
                if o.data.len() < 2 || o.data.len() > 512 || o.data.len() % 2 != 0 {
                    return Err(EncodeError::SizeInvalid);
                }
                let mut out: Vec<u8> = Vec::new();
                push_wire_header(&mut out);
                push_word_le(&mut out, OP_OUTPUT);
                push_byte_slice(&mut out, o.version.as_slice());
                out.push(o.sequence);
                out.push(o.physical);
                push_word_le(&mut out, o.port_address);
                out.push((o.length / 256) as u8);
                out.push((o.length % 256) as u8);
                push_byte_slice(&mut out, o.data.as_slice());
                assert(out@ =~= encode_output_spec(o@));
                Ok(out)
            },
        }
    }

    /// Decode a datagram. A malformed or foreign datagram is rejected with
    /// the reason; the caller discards it and carries on, since the
    /// transport is connectionless.
    pub fn decode(bytes: &Vec<u8>) -> (r: Result<Command, DecodeError>)
        ensures
            r matches Ok(c) ==> decode_spec(bytes@) == Some(c@),
            r is Ok <==> decode_spec(bytes@) is Some,
            r matches Err(e) ==> e == decode_err_spec(bytes@),
    {
        if bytes.len() < MIN_DATAGRAM_LEN {
            return Err(DecodeError::TooShort);
        }
        if !(*slice_index_get(bytes.as_slice(), 0) == 0x41 && *slice_index_get(bytes.as_slice(), 1)
            == 0x72 && *slice_index_get(bytes.as_slice(), 2) == 0x74 && *slice_index_get(
            bytes.as_slice(),
            3,
        ) == 0x2d && *slice_index_get(bytes.as_slice(), 4) == 0x4e && *slice_index_get(
            bytes.as_slice(),
            5,
        ) == 0x65 && *slice_index_get(bytes.as_slice(), 6) == 0x74 && *slice_index_get(
            bytes.as_slice(),
            7,
        ) == 0x00) {
            assert(bytes@.subrange(0, 8) != wire_header());
            return Err(DecodeError::BadHeader);
        }
        assert(bytes@.subrange(0, 8) =~= wire_header());
        let op = read_word_le(bytes, 8);
        if op == OP_POLL {
            let version: [u8; 2] = [
                *slice_index_get(bytes.as_slice(), 10),
                *slice_index_get(bytes.as_slice(), 11),
            ];
            assert(version@ =~= bytes@.subrange(10, 12));
            Ok(
                Command::Poll(
                    Poll {
                        version,
                        talk_to_me: *slice_index_get(bytes.as_slice(), 12),
                        diagnostics_priority: *slice_index_get(bytes.as_slice(), 13),
                    },
                ),
            )
        } else if op == OP_POLL_REPLY {
            if bytes.len() < POLL_REPLY_LEN {
                return Err(DecodeError::TruncatedPayload);
            }
            let mut address: [u8; 4] = [0; 4];
            copy_into(bytes, 10, &mut address);
            let port = read_word_le(bytes, 14);
            let mut short_name: [u8; 18] = [0; 18];
            copy_into(bytes, 26, &mut short_name);
            let mut long_name: [u8; 64] = [0; 64];
            copy_into(bytes, 44, &mut long_name);
            Ok(Command::PollReply(PollReply { address, port, short_name, long_name }))
        } else if op == OP_OUTPUT {
            if bytes.len() < OUTPUT_PREFIX_LEN {
                return Err(DecodeError::TruncatedPayload);
            }
            let version: [u8; 2] = [
                *slice_index_get(bytes.as_slice(), 10),
                *slice_index_get(bytes.as_slice(), 11),
            ];
            assert(version@ =~= bytes@.subrange(10, 12));
            let length = read_word_be(bytes, 16);
            let mut data: Vec<u8> = Vec::new();
            let mut k: usize = OUTPUT_PREFIX_LEN;
            while k < bytes.len()
                invariant
                    OUTPUT_PREFIX_LEN <= k <= bytes@.len(),
                    data@ == bytes@.subrange(OUTPUT_PREFIX_LEN as int, k as int),
                decreases bytes@.len() - k,
            {
                data.push(*slice_index_get(bytes.as_slice(), k));
                k = k + 1;
                assert(data@ =~= bytes@.subrange(OUTPUT_PREFIX_LEN as int, k as int));
            }
            Ok(
                Command::Output(
                    Output {
                        version,
                        sequence: *slice_index_get(bytes.as_slice(), 12),
                        physical: *slice_index_get(bytes.as_slice(), 13),
                        port_address: read_word_le(bytes, 14),
                        length,
                        data,
                    },
                ),
            )
        } else {
            Err(DecodeError::UnknownOpcode)
        }
    }
}

/// Read the little-endian 16-bit word at `at`.
fn read_word_le(bytes: &Vec<u8>, at: usize) -> (r: u16)
    requires
        at + 2 <= bytes@.len(),
    ensures
        r == word_of(bytes@[at as int], bytes@[at as int + 1]),
{
    let n = bytes.len();
    let l = *slice_index_get(bytes.as_slice(), at);
    let h = *slice_index_get(bytes.as_slice(), at + 1);
    l as u16 + h as u16 * 256
}

/// Read the big-endian 16-bit word at `at`.
fn read_word_be(bytes: &Vec<u8>, at: usize) -> (r: u16)
    requires
        at + 2 <= bytes@.len(),
    ensures
        r == word_of(bytes@[at as int + 1], bytes@[at as int]),
{
    let n = bytes.len();
    let h = *slice_index_get(bytes.as_slice(), at);
    let l = *slice_index_get(bytes.as_slice(), at + 1);
    l as u16 + h as u16 * 256
}

/// Copy `N` bytes starting at `at` into a fixed-size field.
fn copy_into<const N: usize>(bytes: &Vec<u8>, at: usize, out: &mut [u8; N])
    requires
        at + N <= bytes@.len(),
    ensures
        final(out)@ == bytes@.subrange(at as int, at as int + N),
{
    let n = bytes.len();
    let mut k: usize = 0;
    while k < N
        invariant
            k <= N,
            at + N <= n == bytes@.len(),
            out@.len() == N,
            out@.subrange(0, k as int) == bytes@.subrange(at as int, at as int + k),
        decreases N - k,
    {
        out[k] = *slice_index_get(bytes.as_slice(), at + k);
        k = k + 1;
        assert(out@.subrange(0, k as int) =~= bytes@.subrange(at as int, at as int + k));
    }
    assert(out@ =~= bytes@.subrange(at as int, at as int + N));
}

} // verus!
