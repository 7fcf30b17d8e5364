//! CTAPHID framing: commands, their packets, and reassembly of replies.
//!
//! A request becomes one initiation packet and as many continuation packets as
//! its payload needs; a reply is read back packet by packet through a
//! [`Receiver`], whose single step is exactly specified. Reading packets until
//! the receiver is done is left to the caller that owns the HID handle.
use vstd::prelude::*;

use crate::error::{Error as LibError, ProtocolError};

verus! {

/// Payload bytes carried by an initiation packet.
pub const INIT_PAYLOAD: usize = 57;

/// Payload bytes carried by a continuation packet.
pub const CONT_PAYLOAD: usize = 59;

/// Size of every packet.
pub const PACKET_SIZE: usize = 64;

/// Largest payload: one initiation packet and 128 continuation packets.
pub const MAX_PAYLOAD: usize = 7609;

/// Command byte of `Ping`.
pub const PING_BYTE: u8 = 0x01;
/// Command byte of `Init`.
pub const INIT_BYTE: u8 = 0x06;
/// Command byte of `Wink`.
pub const WINK_BYTE: u8 = 0x08;
/// Command byte of keepalive packets.
pub const KEEPALIVE_BYTE: u8 = 0x3B;
/// Command byte of error packets.
pub const ERROR_BYTE: u8 = 0x3F;

/// A vendor command code, in 0x40..=0x7F.
#[derive(Clone, Copy, Debug, PartialEq, Eq)]
pub struct VendorCode(u8);

impl VendorCode {
    pub closed spec fn byte_spec(self) -> u8 {
        self.0
    }

    pub closed spec fn wf(self) -> bool {
        0x40 <= self.0 <= 0x7F
    }

    /// The vendor code with a byte.
    pub closed spec fn spec_new(vendor_code: u8) -> VendorCode {
        VendorCode(vendor_code)
    }

    /// A vendor code; the byte must lie in 0x40..=0x7F.
    pub fn new(vendor_code: u8) -> (r: VendorCode)
        requires
            0x40 <= vendor_code <= 0x7F,
        ensures
            r == VendorCode::spec_new(vendor_code),
            r.byte_spec() == vendor_code,
            r.wf(),
    {
        VendorCode(vendor_code)
    }
}

/// CTAPHID commands.
#[derive(Clone, Copy, Debug, PartialEq, Eq)]
pub enum Code {
    Ping,
    Init,
    Wink,
    Error,
    Keepalive,
    Vendor(VendorCode),
}

/// The byte of a command code (without the initiation bit).
pub open spec fn code_byte(code: Code) -> u8 {
    match code {
        Code::Ping => PING_BYTE,
        Code::Init => INIT_BYTE,
        Code::Wink => WINK_BYTE,
        Code::Error => ERROR_BYTE,
        Code::Keepalive => KEEPALIVE_BYTE,
        Code::Vendor(v) => v.byte_spec(),
    }
}

/// Whether a byte names a command code.
pub open spec fn is_code_byte(b: u8) -> bool {
    b == PING_BYTE || b == INIT_BYTE || b == WINK_BYTE || b == ERROR_BYTE || b
        == KEEPALIVE_BYTE || (0x40 <= b <= 0x7F)
}

impl Code {
    pub open spec fn wf(self) -> bool {
        match self {
            Code::Vendor(v) => v.wf(),
            _ => true,
        }
    }

    /// The command byte.
    pub fn to_byte(&self) -> (r: u8)
        ensures
            r == code_byte(*self),
    {
        match self {
            Code::Ping => PING_BYTE,
            Code::Init => INIT_BYTE,
            Code::Wink => WINK_BYTE,
            Code::Error => ERROR_BYTE,
            Code::Keepalive => KEEPALIVE_BYTE,
            Code::Vendor(v) => v.0,
        }
    }

    /// The code named by a byte, if any.
    pub fn from_byte(b: u8) -> (r: Option<Code>)
        ensures
            r matches Some(c) <==> is_code_byte(b),
            r matches Some(c) ==> code_byte(c) == b && c.wf(),
            r matches Some(Code::Vendor(v)) ==> v == VendorCode::spec_new(b),
            0x40 <= b <= 0x7F ==> r == Some(
                Code::Vendor(VendorCode::spec_new(b)),
            ),
    {
        if b == PING_BYTE {
            Some(Code::Ping)
        } else if b == INIT_BYTE {
            Some(Code::Init)
        } else if b == WINK_BYTE {
            Some(Code::Wink)
        } else if b == ERROR_BYTE {
            Some(Code::Error)
        } else if b == KEEPALIVE_BYTE {
            Some(Code::Keepalive)
        } else if 0x40 <= b && b <= 0x7F {
            Some(Code::Vendor(VendorCode::new(b)))
        } else {
            None
        }
    }
}

/// Status conferred by a keepalive packet.
#[derive(Clone, Copy, Debug, PartialEq, Eq)]
pub enum Status {
    Processing,
    UserPresenceNeeded,
    Other(u8),
}

/// The status named by a keepalive's status byte.
pub open spec fn status_of(b: u8) -> Status {
    if b == 1 {
        Status::Processing
    } else if b == 2 {
        Status::UserPresenceNeeded
    } else {
        Status::Other(b)
    }
}

/// The byte of a keepalive status.
pub open spec fn status_byte(s: Status) -> u8 {
    match s {
        Status::Processing => 1,
        Status::UserPresenceNeeded => 2,
        Status::Other(b) => b,
    }
}

impl Status {
    /// The status named by a keepalive's status byte.
    pub fn from_byte(b: u8) -> (r: Status)
        ensures
            r == status_of(b),
    {
        if b == 1 {
            Status::Processing
        } else if b == 2 {
            Status::UserPresenceNeeded
        } else {
            Status::Other(b)
        }
    }

    /// The status byte.
    pub fn to_byte(&self) -> (r: u8)
        ensures
            r == status_byte(*self),
    {
        match self {
            Status::Processing => 1,
            Status::UserPresenceNeeded => 2,
            Status::Other(b) => *b,
        }
    }
}

/// Error codes of a CTAPHID error packet.
#[derive(Clone, Copy, Debug, PartialEq, Eq)]
pub enum Error {
    InvalidCommand,
    InvalidParameter,
    InvalidLength,
    InvalidSequenceNumber,
    MessageTimeout,
    ChannelBusy,
    ChannelLockRequired,
    ChannelIdInvalid,
    UnspecifiedError,
}

/// The error named by an error packet's code byte.
pub open spec fn error_of(b: u8) -> Error {
    if b == 1 {
        Error::InvalidCommand
    } else if b == 2 {
        Error::InvalidParameter
    } else if b == 3 {
        Error::InvalidLength
    } else if b == 4 {
        Error::InvalidSequenceNumber
    } else if b == 5 {
        Error::MessageTimeout
    } else if b == 6 {
        Error::ChannelBusy
    } else if b == 0xA {
        Error::ChannelLockRequired
    } else if b == 0xB {
        Error::ChannelIdInvalid
    } else {
        Error::UnspecifiedError
    }
}

impl Error {
    /// The error named by an error packet's code byte; unknown codes are unspecified errors.
    pub fn from_byte(b: u8) -> (r: Error)
        ensures
            r == error_of(b),
    {
        if b == 1 {
            Error::InvalidCommand
        } else if b == 2 {
            Error::InvalidParameter
        } else if b == 3 {
            Error::InvalidLength
        } else if b == 4 {
            Error::InvalidSequenceNumber
        } else if b == 5 {
            Error::MessageTimeout
        } else if b == 6 {
            Error::ChannelBusy
        } else if b == 0xA {
            Error::ChannelLockRequired
        } else if b == 0xB {
            Error::ChannelIdInvalid
        } else {
            Error::UnspecifiedError
        }
    }
}

/// A CTAPHID channel identifier.
#[derive(Clone, Copy, Debug, PartialEq, Eq)]
pub struct Channel(pub u32);

/// The identifier of the reserved channel of the initialization handshake.
pub const BROADCAST_ID: u32 = 0xffff_ffff;

impl Channel {
    /// The reserved channel of the initialization handshake.
    pub fn broadcast() -> (r: Channel)
        ensures
            r.0 == BROADCAST_ID,
    {
        Channel(BROADCAST_ID)
    }
}

/// The four big-endian bytes of a channel identifier.
pub open spec fn channel_bytes(ch: u32) -> Seq<u8> {
    seq![
        (ch / 0x100_0000) as u8,
        ((ch / 0x1_0000) % 0x100) as u8,
        ((ch / 0x100) % 0x100) as u8,
        (ch % 0x100) as u8,
    ]
}

/// The smaller of two numbers.
pub open spec fn min_nat(a: nat, b: nat) -> nat {
    if a <= b {
        a
    } else {
        b
    }
}

/// `n` zero bytes.
pub open spec fn zeros(n: nat) -> Seq<u8> {
    Seq::new(n, |i: int| 0u8)
}

/// Number of packets for a payload of `l` bytes: `1 + ceil(max(0, l - 57) / 59)`.
pub open spec fn packet_count(l: nat) -> nat {
    if l <= 57 {
        1
    } else {
        1 + ((l - 57) + 58) as nat / 59
    }
}

/// Where continuation packet `i` starts in the payload.
pub open spec fn cont_start(i: nat) -> nat {
    57 + 59 * i
}

/// The initiation packet of a command.
pub open spec fn init_packet(ch: u32, code: u8, data: Seq<u8>) -> Seq<u8> {
    let k = min_nat(data.len(), 57);
    channel_bytes(ch) + seq![code | 0x80u8, (data.len() / 256) as u8, (data.len() % 256) as u8]
        + data.take(k as int) + zeros((57 - k) as nat)
}

/// Continuation packet `i` of a command.
pub open spec fn cont_packet(ch: u32, i: nat, data: Seq<u8>) -> Seq<u8> {
    let start = cont_start(i);
    let end = min_nat(data.len(), start + 59);
    channel_bytes(ch) + seq![i as u8] + data.subrange(start as int, end as int) + zeros(
        (59 - (end - start)) as nat,
    )
}

/// All packets of a command, in order.
pub open spec fn packets_of(ch: u32, code: u8, data: Seq<u8>) -> Seq<Seq<u8>> {
    Seq::new(
        packet_count(data.len()),
        |j: int|
            if j == 0 {
                init_packet(ch, code, data)
            } else {
                cont_packet(ch, (j - 1) as nat, data)
            },
    )
}

/// A command with its payload.
pub struct Command {
    code: Code,
    data: Vec<u8>,
}

impl Command {
    pub closed spec fn code_spec(&self) -> Code {
        self.code
    }

    pub closed spec fn data_spec(&self) -> Seq<u8> {
        self.data@
    }

    pub closed spec fn wf(&self) -> bool {
        self.code.wf() && self.data@.len() <= MAX_PAYLOAD
    }

    /// A command without payload.
    pub fn new(code: Code) -> (r: Command)
        ensures
            r.code_spec() == code,
            r.data_spec() == Seq::<u8>::empty(),
    {
        Command { code, data: Vec::new() }
    }

    /// The same command carrying `data`, which must fit in 7609 bytes.
    pub fn with_data(self, data: &[u8]) -> (r: Command)
        requires
            data@.len() <= MAX_PAYLOAD,
        ensures
            r.code_spec() == self.code_spec(),
            r.data_spec() == data@,
    {
        let mut v: Vec<u8> = Vec::new();
        v.extend_from_slice(data);
        Command { code: self.code, data: v }
    }

    /// The command code.
    pub fn code(&self) -> (r: Code)
        ensures
            r == self.code_spec(),
    {
        self.code
    }

    /// The payload.
    pub fn data(&self) -> (r: &Vec<u8>)
        ensures
            r@ == self.data_spec(),
    {
        &self.data
    }

    /// The packets that carry this command on `channel`: each 64 bytes, an
    /// initiation packet and then continuation packets numbered from 0.
    pub fn packets(&self, channel: Channel) -> (r: Vec<Vec<u8>>)
        requires
            self.data_spec().len() <= MAX_PAYLOAD,
        ensures
            r@.len() == packet_count(self.data_spec().len()),
            forall|j: int|
                0 <= j < r@.len() ==> #[trigger] r@[j]@ == packets_of(
                    channel.0,
                    code_byte(self.code_spec()),
                    self.data_spec(),
                )[j],
    {
        let data = &self.data;
        let l = data.len();
        let ghost d = data@;
        let code = self.code.to_byte() | 0x80;
        let ghost spec_packets = packets_of(channel.0, code_byte(self.code), d);
        let k: usize = if l <= INIT_PAYLOAD {
            l
        } else {
            INIT_PAYLOAD
        };
        let mut first: Vec<u8> = Vec::new();
        push_channel(&mut first, channel);
        first.push(code);
        first.push((l / 256) as u8);
        first.push((l % 256) as u8);
        append_range(&mut first, data, 0, k);
        append_zeros(&mut first, INIT_PAYLOAD - k);
        assert(first@ =~= init_packet(channel.0, code_byte(self.code), d));
        let mut out: Vec<Vec<u8>> = Vec::new();
        out.push(first);
        let mut i: usize = 0;
        let mut start: usize = INIT_PAYLOAD;
        while start < l
            invariant
                d == data@,
                l == d.len(),
                l <= MAX_PAYLOAD,
                start == cont_start(i as nat),
                i <= 128,
                i > 0 ==> cont_start((i - 1) as nat) < l,
                start <= l + 59,
                spec_packets == packets_of(channel.0, code_byte(self.code), d),
                out@.len() == i + 1,
                forall|j: int| 0 <= j < out@.len() ==> #[trigger] out@[j]@ == spec_packets[j],
            decreases l + 59 - start,
        {
            let end: usize = if l - start <= CONT_PAYLOAD {
                l
            } else {
                start + CONT_PAYLOAD
            };
            let mut p: Vec<u8> = Vec::new();
            push_channel(&mut p, channel);
            p.push(i as u8);
            append_range(&mut p, data, start, end);
            append_zeros(&mut p, CONT_PAYLOAD - (end - start));
            assert(i + 1 < packet_count(l as nat)) by (nonlinear_arith)
                requires
                    start == 57 + 59 * i,
                    start < l,
                    l > 57,
                    packet_count(l as nat) == 1 + ((l - 57) + 58) as nat / 59,
            ;
            assert(p@ =~= cont_packet(channel.0, i as nat, d));
            out.push(p);
            i = i + 1;
            start = start + CONT_PAYLOAD;
            assert(i <= 128) by (nonlinear_arith)
                requires
                    start == 57 + 59 * i,
                    start - 59 < l,
                    l <= 7609,
            ;
        }
        assert(out@.len() == packet_count(l as nat)) by {
            if l > 57 {
                assert(i + 1 == 1 + ((l - 57) + 58) as nat / 59) by (nonlinear_arith)
                    requires
                        start == 57 + 59 * i,
                        start >= l,
                        i >= 1,
                        57 + 59 * (i - 1) < l,
                        l > 57,
                ;
            } else {
                assert(i == 0);
            }
        }
        out
    }
}

/// What a receiver has gathered so far: whether the initiation packet came,
/// the payload bytes received, the announced total and the next sequence number.
pub struct RxModel {
    pub started: bool,
    pub data: Seq<u8>,
    pub total: nat,
    pub next_seq: nat,
}

/// The outcome of one packet fed to a receiver.
pub enum StepModel {
    Ignored,
    Keepalive(Status),
    Pending,
    Complete(Seq<u8>),
    Failed(LibError),
}

/// A receiver before any packet.
pub open spec fn rx_initial() -> RxModel {
    RxModel { started: false, data: Seq::empty(), total: 0, next_seq: 0 }
}

/// One receive step on channel `ch` for a request with command byte `code`.
pub open spec fn rx_step(ch: u32, code: u8, m: RxModel, p: Seq<u8>) -> (RxModel, StepModel) {
    if p.len() != 64 {
        (m, StepModel::Failed(LibError::Protocol(ProtocolError::UnexpectedLength)))
    } else if p.take(4) != channel_bytes(ch) {
        (m, StepModel::Ignored)
    } else if !m.started {
        if p[4] == KEEPALIVE_BYTE | 0x80u8 {
            (m, StepModel::Keepalive(status_of(p[7])))
        } else if p[4] == ERROR_BYTE | 0x80u8 {
            (m, StepModel::Failed(LibError::Ctaphid(error_of(p[7]))))
        } else if p[4] != code | 0x80u8 {
            (m, StepModel::Failed(LibError::Protocol(ProtocolError::UnexpectedCommand)))
        } else {
            let total = p[5] as nat * 256 + p[6] as nat;
            if total > 7609 {
                (m, StepModel::Failed(LibError::Protocol(ProtocolError::UnexpectedLength)))
            } else {
                let d = p.subrange(7, 7 + min_nat(total, 57) as int);
                let m2 = RxModel { started: true, data: d, total: total, next_seq: 0 };
                if d.len() == total {
                    (m2, StepModel::Complete(d))
                } else {
                    (m2, StepModel::Pending)
                }
            }
        }
    } else if m.data.len() == m.total {
        (m, StepModel::Complete(m.data))
    } else if p[4] as nat != m.next_seq {
        (m, StepModel::Failed(LibError::Protocol(ProtocolError::UnexpectedSequence)))
    } else {
        let k = min_nat((m.total - m.data.len()) as nat, 59);
        let d = m.data + p.subrange(5, 5 + k as int);
        let m2 = RxModel { started: true, data: d, total: m.total, next_seq: m.next_seq + 1 };
        if d.len() == m.total {
            (m2, StepModel::Complete(d))
        } else {
            (m2, StepModel::Pending)
        }
    }
}

/// Feeds packets in order until one completes or fails the reply; `None` if they run out first.
pub open spec fn rx_run(ch: u32, code: u8, m: RxModel, ps: Seq<Seq<u8>>) -> Option<
    Result<Seq<u8>, LibError>,
>
    decreases ps.len(),
{
    if ps.len() == 0 {
        None
    } else {
        let (m2, s) = rx_step(ch, code, m, ps[0]);
        match s {
            StepModel::Complete(d) => Some(Ok(d)),
            StepModel::Failed(e) => Some(Err(e)),
            _ => rx_run(ch, code, m2, ps.drop_first()),
        }
    }
}

/// The outcome of one packet fed to a [`Receiver`].
#[derive(Debug)]
pub enum Step {
    /// Traffic for another channel; discarded.
    Ignored,
    /// The device is still processing; keep reading.
    Keepalive(Status),
    /// More continuation packets are due.
    Pending,
    /// The whole reply payload.
    Complete(Vec<u8>),
    /// The exchange failed.
    Failed(LibError),
}

impl View for Step {
    type V = StepModel;

    open spec fn view(&self) -> StepModel {
        match self {
            Step::Ignored => StepModel::Ignored,
            Step::Keepalive(s) => StepModel::Keepalive(*s),
            Step::Pending => StepModel::Pending,
            Step::Complete(d) => StepModel::Complete(d@),
            Step::Failed(e) => StepModel::Failed(*e),
        }
    }
}

/// Reassembles the reply to one request, one packet at a time.
pub struct Receiver {
    channel: Channel,
    code: u8,
    started: bool,
    data: Vec<u8>,
    total: usize,
    next_seq: u8,
}

impl View for Receiver {
    type V = RxModel;

    closed spec fn view(&self) -> RxModel {
        RxModel {
            started: self.started,
            data: self.data@,
            total: self.total as nat,
            next_seq: self.next_seq as nat,
        }
    }
}

impl Receiver {
    /// The channel listened on.
    pub closed spec fn channel_spec(&self) -> u32 {
        self.channel.0
    }

    pub closed spec fn code_spec(&self) -> u8 {
        self.code
    }

    /// The receiver's invariant.
    pub open spec fn wf(&self) -> bool {
        &&& self@.data.len() <= self@.total <= MAX_PAYLOAD
        &&& self@.next_seq <= 128
        &&& !self@.started ==> self@ == rx_initial()
        &&& self@.started && self@.data.len() < self@.total ==> self@.data.len() == 57 + 59
            * self@.next_seq
    }

    /// A receiver for the reply to a request with `code` on `channel`.
    pub fn new(channel: Channel, code: Code) -> (r: Receiver)
        ensures
            r@ == rx_initial(),
            r.channel_spec() == channel.0,
            r.code_spec() == code_byte(code),
            r.wf(),
    {
        let r = Receiver {
            channel,
            code: code.to_byte(),
            started: false,
            data: Vec::new(),
            total: 0,
            next_seq: 0,
        };
        assert(r@.data =~= Seq::<u8>::empty());
        r
    }

    /// Feeds one packet as read from the device.
    pub fn feed(&mut self, packet: &[u8]) -> (r: Step)
        requires
            old(self).wf(),
        ensures
            final(self).wf(),
            final(self).channel_spec() == old(self).channel_spec(),
            final(self).code_spec() == old(self).code_spec(),
            (final(self)@, r@) == rx_step(
                old(self).channel_spec(),
                old(self).code_spec(),
                old(self)@,
                packet@,
            ),
    {
        let ghost p = packet@;
        if packet.len() != PACKET_SIZE {
            return Step::Failed(LibError::Protocol(ProtocolError::UnexpectedLength));
        }
        let c = self.channel.0;
        if packet[0] != (c / 0x100_0000) as u8 || packet[1] != ((c / 0x1_0000) % 0x100) as u8
            || packet[2] != ((c / 0x100) % 0x100) as u8 || packet[3] != (c % 0x100) as u8 {
            assert(p.take(4) != channel_bytes(c)) by {
                if p.take(4) == channel_bytes(c) {
                    assert(p.take(4)[0] == p[0]);
                    assert(p.take(4)[1] == p[1]);
                    assert(p.take(4)[2] == p[2]);
                    assert(p.take(4)[3] == p[3]);
                }
            }
            return Step::Ignored;
        }
        assert(p.take(4) =~= channel_bytes(c));
        if !self.started {
            if packet[4] == KEEPALIVE_BYTE | 0x80 {
                return Step::Keepalive(Status::from_byte(packet[7]));
            }
            if packet[4] == ERROR_BYTE | 0x80 {
                return Step::Failed(LibError::Ctaphid(Error::from_byte(packet[7])));
            }
            if packet[4] != self.code | 0x80 {
                return Step::Failed(LibError::Protocol(ProtocolError::UnexpectedCommand));
            }
            let total: usize = packet[5] as usize * 256 + packet[6] as usize;
            if total > MAX_PAYLOAD {
                return Step::Failed(LibError::Protocol(ProtocolError::UnexpectedLength));
            }
            let k: usize = if total <= INIT_PAYLOAD {
                total
            } else {
                INIT_PAYLOAD
            };
            let mut d: Vec<u8> = Vec::new();
            append_slice_range(&mut d, packet, 7, 7 + k);
            assert(d@ =~= p.subrange(7, 7 + k as int));
            self.started = true;
            self.total = total;
            self.next_seq = 0;
            if k == total {
                self.data = d.clone();
                assert(self.data@ == d@);
                Step::Complete(d)
            } else {
                self.data = d;
                Step::Pending
            }
        } else {
            if self.data.len() == self.total {
                return Step::Complete(self.data.clone());
            }
            if packet[4] != self.next_seq {
                return Step::Failed(LibError::Protocol(ProtocolError::UnexpectedSequence));
            }
            let need = self.total - self.data.len();
            let k: usize = if need <= CONT_PAYLOAD {
                need
            } else {
                CONT_PAYLOAD
            };
            let old_len = self.data.len();
            append_slice_range(&mut self.data, packet, 5, 5 + k);
            assert(self.next_seq < 128) by (nonlinear_arith)
                requires
                    old_len == 57 + 59 * self.next_seq,
                    old_len < self.total,
                    self.total <= 7609,
            ;
            self.next_seq = self.next_seq + 1;
            if self.data.len() == self.total {
                Step::Complete(self.data.clone())
            } else {
                assert(k == 59);
                Step::Pending
            }
        }
    }

    /// Whether the reply is complete.
    pub fn is_complete(&self) -> (r: bool)
        ensures
            r == (self@.started && self@.data.len() == self@.total),
    {
        self.started && self.data.len() == self.total
    }
}

/// Reassembles a reply from the packets that carry it, in order.
/// Fails as the first failing packet does, or with an unexpected length if
/// the packets run out before the reply is complete.
pub fn reassemble(channel: Channel, code: Code, packets: &Vec<Vec<u8>>) -> (r: Result<
    Vec<u8>,
    LibError,
>)
    ensures
        match rx_run(channel.0, code_byte(code), rx_initial(), packets@.map_values(|p: Vec<u8>| p@)) {
            Some(Ok(d)) => r matches Ok(v) && v@ == d,
            Some(Err(e)) => r == Err::<Vec<u8>, LibError>(e),
            None => r == Err::<Vec<u8>, LibError>(LibError::Protocol(ProtocolError::UnexpectedLength)),
        },
{
    let ghost ps = packets@.map_values(|p: Vec<u8>| p@);
    let mut rx = Receiver::new(channel, code);
    let mut i: usize = 0;
    assert(ps.skip(0) =~= ps);
    while i < packets.len()
        invariant
            rx.wf(),
            rx.channel_spec() == channel.0,
            rx.code_spec() == code_byte(code),
            i <= packets@.len(),
            ps == packets@.map_values(|p: Vec<u8>| p@),
            rx_run(channel.0, code_byte(code), rx_initial(), ps) == rx_run(
                channel.0,
                code_byte(code),
                rx@,
                ps.skip(i as int),
            ),
        decreases packets@.len() - i,
    {
        let ghost before = rx@;
        let step = rx.feed(packets[i].as_slice());
        assert(ps.skip(i as int)[0] == packets@[i as int]@);
        assert(ps.skip(i as int).drop_first() =~= ps.skip(i + 1));
        match step {
            Step::Complete(d) => {
                return Ok(d);
            },
            Step::Failed(e) => {
                return Err(e);
            },
            _ => {},
        }
        i = i + 1;
    }
    assert(ps.skip(i as int) =~= Seq::<Seq<u8>>::empty());
    Err(LibError::Protocol(ProtocolError::UnexpectedLength))
}

/// Every packet of a command is 64 bytes, the first carries the command byte
/// with its high bit set, and continuation packet `i` carries sequence number `i`.
pub proof fn lemma_packet_shape(ch: u32, code: u8, data: Seq<u8>)
    requires
        data.len() <= MAX_PAYLOAD,
    ensures
        packets_of(ch, code, data).len() == packet_count(data.len()),
        forall|j: int|
            0 <= j < packets_of(ch, code, data).len() ==> (#[trigger] packets_of(ch, code, data)[j]).len()
                == 64 && packets_of(ch, code, data)[j].take(4) == channel_bytes(ch),
        packets_of(ch, code, data)[0][4] == code | 0x80u8,
        forall|j: int|
            1 <= j < packets_of(ch, code, data).len() ==> (#[trigger] packets_of(ch, code, data)[j])[4]
                == (j - 1) as u8 && (j - 1) < 128,
{
    let ps = packets_of(ch, code, data);
    let l = data.len();
    assert forall|j: int| 0 <= j < ps.len() implies (#[trigger] ps[j]).len() == 64 && ps[j].take(4)
        == channel_bytes(ch) by {
        if j == 0 {
            assert(ps[j].take(4) =~= channel_bytes(ch));
        } else {
            lemma_cont_in_range(l, (j - 1) as nat);
            assert(ps[j].take(4) =~= channel_bytes(ch));
        }
    }
    assert forall|j: int| 1 <= j < ps.len() implies (#[trigger] ps[j])[4] == (j - 1) as u8 && (j
        - 1) < 128 by {
        lemma_cont_in_range(l, (j - 1) as nat);
    }
}

/// Continuation packet `i` of a payload of `l` bytes starts inside the payload.
proof fn lemma_cont_in_range(l: nat, i: nat)
    requires
        l <= MAX_PAYLOAD,
        i + 1 < packet_count(l),
    ensures
        cont_start(i) < l,
        i < 128,
{
    assert(cont_start(i) < l && i < 128) by (nonlinear_arith)
        requires
            l <= 7609,
            i + 1 < packet_count(l),
            l <= 57 ==> packet_count(l) == 1,
            l > 57 ==> packet_count(l) == 1 + ((l - 57) + 58) as nat / 59,
            cont_start(i) == 57 + 59 * i,
    ;
}

/// No two command bytes below 0x80 agree once their high bit is set.
proof fn lemma_high_bit_injective(a: u8, b: u8)
    requires
        a < 0x80,
        b < 0x80,
        a != b,
    ensures
        a | 0x80u8 != b | 0x80u8,
{
    assert(a | 0x80u8 != b | 0x80u8) by (bit_vector)
        requires
            a < 0x80u8,
            b < 0x80u8,
            a != b,
    ;
}

/// The receiver state after the initiation packet and `j` continuation packets.
pub open spec fn rx_after(data: Seq<u8>, j: nat) -> RxModel {
    RxModel {
        started: true,
        data: data.take(cont_start(j) as int),
        total: data.len(),
        next_seq: j,
    }
}

/// From the state after `j` continuation packets, the remaining packets complete the payload.
proof fn lemma_run_continuations(ch: u32, code: u8, data: Seq<u8>, j: nat)
    requires
        data.len() <= MAX_PAYLOAD,
        j + 1 < packet_count(data.len()),
    ensures
        rx_run(ch, code, rx_after(data, j), packets_of(ch, code, data).skip((j + 1) as int)) == Some(
            Ok::<Seq<u8>, LibError>(data),
        ),
    decreases packet_count(data.len()) - j,
{
    let l = data.len();
    let ps = packets_of(ch, code, data);
    let rest = ps.skip((j + 1) as int);
    lemma_cont_in_range(l, j);
    let p = rest[0];
    assert(p == cont_packet(ch, j, data));
    let start = cont_start(j);
    let end = min_nat(l, start + 59);
    assert(p.len() == 64);
    assert(p.take(4) =~= channel_bytes(ch));
    assert(p[4] == j as u8);
    let m = rx_after(data, j);
    assert(m.data.len() == start);
    let k = min_nat((m.total - m.data.len()) as nat, 59);
    assert(k == end - start);
    assert(p.subrange(5, 5 + k as int) =~= data.subrange(start as int, end as int));
    let d = m.data + p.subrange(5, 5 + k as int);
    assert(d =~= data.take(end as int));
    assert(rest.drop_first() =~= ps.skip((j + 2) as int));
    if end == l {
        assert(d =~= data);
    } else {
        assert(end == cont_start(j + 1));
        assert(j + 2 < packet_count(l)) by (nonlinear_arith)
            requires
                57 + 59 * (j + 1) < l,
                l > 57,
                packet_count(l) == 1 + ((l - 57) + 58) as nat / 59,
        ;
        lemma_run_continuations(ch, code, data, j + 1);
    }
}

/// Reassembly is the exact inverse of packetization: whatever vectors hold the
/// packets of a command with a payload of at most 7609 bytes (as
/// [`Command::packets`] returns them), [`reassemble`] on the same channel and
/// code yields exactly that payload. (Keepalive and error codes are excluded:
/// a reply with those command bytes is never a payload.)
pub proof fn lemma_reassemble_packets(ch: u32, code: Code, data: Seq<u8>, sent: Seq<Vec<u8>>)
    requires
        data.len() <= MAX_PAYLOAD,
        code.wf(),
        code != Code::Keepalive,
        code != Code::Error,
        sent.len() == packet_count(data.len()),
        forall|j: int| 0 <= j < sent.len() ==> #[trigger] sent[j]@ == packets_of(ch, code_byte(code), data)[j],
    ensures
        rx_run(ch, code_byte(code), rx_initial(), sent.map_values(|p: Vec<u8>| p@)) == Some(
            Ok::<Seq<u8>, LibError>(data),
        ),
{
    assert(sent.map_values(|p: Vec<u8>| p@) =~= packets_of(ch, code_byte(code), data));
    lemma_reassemble_spec(ch, code, data);
}

proof fn lemma_reassemble_spec(ch: u32, code: Code, data: Seq<u8>)
    requires
        data.len() <= MAX_PAYLOAD,
        code.wf(),
        code != Code::Keepalive,
        code != Code::Error,
    ensures
        rx_run(ch, code_byte(code), rx_initial(), packets_of(ch, code_byte(code), data)) == Some(
            Ok::<Seq<u8>, LibError>(data),
        ),
{
    let cb = code_byte(code);
    let l = data.len();
    let ps = packets_of(ch, cb, data);
    assert(cb < 0x80) by {
        if let Code::Vendor(v) = code {
            lemma_vendor_byte(v);
        }
    }
    lemma_high_bit_injective(cb, KEEPALIVE_BYTE);
    lemma_high_bit_injective(cb, ERROR_BYTE);
    let p = ps[0];
    assert(p.len() == 64);
    assert(p.take(4) =~= channel_bytes(ch));
    assert(p[4] == cb | 0x80u8);
    assert(p[5] as nat * 256 + p[6] as nat == l);
    let k = min_nat(l, 57);
    assert(p.subrange(7, 7 + k as int) =~= data.take(k as int));
    assert(ps.drop_first() =~= ps.skip(1));
    if l <= 57 {
        assert(data.take(k as int) =~= data);
    } else {
        assert(rx_after(data, 0).data =~= data.take(57));
        assert(1 < packet_count(l));
        lemma_run_continuations(ch, cb, data, 0);
    }
}

/// A well-formed vendor code is below 0x80.
proof fn lemma_vendor_byte(v: VendorCode)
    requires
        v.wf(),
    ensures
        v.byte_spec() <= 0x7F,
{
}

/// The payload bytes that packets carry for a payload of `l` bytes: the
/// first `min(l, 57)` bytes after the initiation header, then, after each
/// continuation header, as many of the remaining bytes as fit (at most 59).
pub open spec fn carried(ps: Seq<Seq<u8>>, l: nat) -> Seq<u8>
    decreases ps.len(),
{
    if ps.len() == 0 {
        Seq::empty()
    } else if ps.len() == 1 {
        ps[0].subrange(7, 7 + min_nat(l, 57) as int)
    } else {
        let start = cont_start((ps.len() - 2) as nat);
        carried(ps.drop_last(), l) + ps.last().subrange(5, 5 + min_nat((l - start) as nat, 59) as int)
    }
}

proof fn lemma_carried_prefix(ch: u32, code: u8, data: Seq<u8>, m: nat)
    requires
        data.len() <= MAX_PAYLOAD,
        1 <= m <= packet_count(data.len()),
    ensures
        carried(packets_of(ch, code, data).take(m as int), data.len()) == data.take(
            min_nat(data.len(), cont_start((m - 1) as nat)) as int,
        ),
    decreases m,
{
    let ps = packets_of(ch, code, data);
    let l = data.len();
    if m == 1 {
        assert(ps.take(1)[0] == init_packet(ch, code, data));
        assert(init_packet(ch, code, data).subrange(7, 7 + min_nat(l, 57) as int) =~= data.take(
            min_nat(l, 57) as int,
        ));
    } else {
        lemma_carried_prefix(ch, code, data, (m - 1) as nat);
        lemma_cont_in_range(l, (m - 2) as nat);
        let t = ps.take(m as int);
        assert(t.drop_last() =~= ps.take(m - 1));
        assert(t.last() == cont_packet(ch, (m - 2) as nat, data));
        let start = cont_start((m - 2) as nat);
        let end = min_nat(l, start + 59);
        assert(min_nat((l - start) as nat, 59) == end - start);
        assert(cont_packet(ch, (m - 2) as nat, data).subrange(5, 5 + (end - start)) =~= data.subrange(
            start as int,
            end as int,
        ));
        assert(min_nat(l, start) == start);
        assert(data.take(start as int) + data.subrange(start as int, end as int) =~= data.take(end as int));
        assert(end == min_nat(l, cont_start((m - 1) as nat)));
    }
}

/// The payload is split in order, with nothing lost, altered or reordered:
/// the bytes that the packets of a command carry, read off in order, are
/// exactly its payload.
pub proof fn lemma_packets_carry_payload(ch: u32, code: u8, data: Seq<u8>)
    requires
        data.len() <= MAX_PAYLOAD,
    ensures
        carried(packets_of(ch, code, data), data.len()) == data,
{
    let ps = packets_of(ch, code, data);
    let n = packet_count(data.len());
    lemma_carried_prefix(ch, code, data, n);
    assert(ps.take(n as int) =~= ps);
    let l = data.len();
    assert(cont_start((n - 1) as nat) >= l) by (nonlinear_arith)
        requires
            l <= 57 ==> n == 1,
            l > 57 ==> n == 1 + ((l - 57) + 58) as nat / 59,
            cont_start((n - 1) as nat) == 57 + 59 * (n - 1),
            n >= 1,
    ;
    assert(data.take(l as int) =~= data);
}

/// Appends `data[start..end]` of a slice.
fn append_slice_range(buf: &mut Vec<u8>, data: &[u8], start: usize, end: usize)
    requires
        start <= end <= data@.len(),
    ensures
        final(buf)@ == old(buf)@ + data@.subrange(start as int, end as int),
{
    let ghost init = buf@;
    let mut i = start;
    while i < end
        invariant
            start <= i <= end,
            end <= data@.len(),
            buf@ == init + data@.subrange(start as int, i as int),
        decreases end - i,
    {
        buf.push(data[i]);
        i = i + 1;
        assert(buf@ =~= init + data@.subrange(start as int, i as int));
    }
}

/// The result of the initialization handshake.
#[derive(Clone, Copy, Debug, PartialEq, Eq)]
pub struct Init {
    pub channel: Channel,
    pub major: u8,
    pub minor: u8,
    pub build: u8,
    pub can_wink: bool,
    pub can_cbor: bool,
    pub can_msg: bool,
}

/// The CTAPHID protocol version this library speaks.
pub const PROTOCOL_VERSION: u8 = 2;

/// What an `Init` reply means for the nonce that was sent: 17 bytes, the echoed
/// nonce, the new channel (big endian), protocol version 2, three version bytes
/// and the capability flags (bit 0 wink, bit 2 CBOR, bit 3 set: no classic messages).
pub open spec fn init_meaning(nonce: Seq<u8>, resp: Seq<u8>, r: Result<Init, LibError>) -> bool {
    if resp.len() != 17 {
        r == Err::<Init, LibError>(LibError::Protocol(ProtocolError::UnexpectedLength))
    } else if resp.take(8) != nonce {
        r == Err::<Init, LibError>(LibError::Protocol(ProtocolError::NonceMismatch))
    } else if resp[12] != PROTOCOL_VERSION {
        r == Err::<Init, LibError>(LibError::Protocol(ProtocolError::UnsupportedVersion))
    } else {
        r == Ok::<Init, LibError>(
            Init {
                channel: Channel(
                    (resp[8] as int * 0x100_0000 + resp[9] as int * 0x1_0000 + resp[10] as int
                        * 0x100 + resp[11] as int) as u32,
                ),
                major: resp[13],
                minor: resp[14],
                build: resp[15],
                can_wink: resp[16] & 1u8 != 0,
                can_cbor: resp[16] & 4u8 != 0,
                can_msg: resp[16] & 8u8 == 0,
            },
        )
    }
}

/// Relies on `getrandom::getrandom` to fill eight bytes from the system's
/// random source, or to fail; nothing is known of the values.
#[verifier::external_body]
fn random_nonce() -> (r: Option<[u8; 8]>)
    ensures
        r matches Some(n) ==> n@.len() == 8,
{
    let mut nonce = [0u8; 8];
    match getrandom::getrandom(&mut nonce) {
        Ok(()) => Some(nonce),
        Err(_) => None,
    }
}

/// Starts the handshake: a fresh random nonce and the `Init` command that carries it,
/// to be sent on the broadcast channel. Fails only if no random bytes can be had.
pub fn init_request() -> (r: Result<([u8; 8], Command), LibError>)
    ensures
        r matches Ok(x) ==> x.1.code_spec() == Code::Init && x.1.data_spec() == x.0@
            && x.0@.len() == 8,
        r matches Err(e) ==> e == LibError::Io,
{
    match random_nonce() {
        Some(nonce) => {
            let command = Command::new(Code::Init).with_data(&nonce);
            Ok((nonce, command))
        },
        None => Err(LibError::Io),
    }
}

/// Checks and decodes the reply to an `Init` command that carried `nonce`.
pub fn parse_init(nonce: &[u8], response: &[u8]) -> (r: Result<Init, LibError>)
    ensures
        init_meaning(nonce@, response@, r),
{
    if response.len() != 17 {
        return Err(LibError::Protocol(ProtocolError::UnexpectedLength));
    }
    if nonce.len() != 8 {
        assert(response@.take(8).len() != nonce@.len());
        return Err(LibError::Protocol(ProtocolError::NonceMismatch));
    }
    let mut i: usize = 0;
    while i < 8
        invariant
            i <= 8,
            nonce@.len() == 8,
            response@.len() == 17,
            forall|j: int| 0 <= j < i ==> nonce@[j] == response@[j],
        decreases 8 - i,
    {
        if nonce[i] != response[i] {
            assert(response@.take(8)[i as int] != nonce@[i as int]);
            return Err(LibError::Protocol(ProtocolError::NonceMismatch));
        }
        i = i + 1;
    }
    assert(response@.take(8) =~= nonce@);
    if response[12] != PROTOCOL_VERSION {
        return Err(LibError::Protocol(ProtocolError::UnsupportedVersion));
    }
    let id: u32 = response[8] as u32 * 0x100_0000 + response[9] as u32 * 0x1_0000
        + response[10] as u32 * 0x100 + response[11] as u32;
    let capabilities = response[16];
    Ok(
        Init {
            channel: Channel(id),
            major: response[13],
            minor: response[14],
            build: response[15],
            can_wink: capabilities & 1 != 0,
            can_cbor: capabilities & 4 != 0,
            can_msg: capabilities & 8 == 0,
        },
    )
}

/// Pushes the four big-endian bytes of a channel identifier.
fn push_channel(buf: &mut Vec<u8>, channel: Channel)
    ensures
        final(buf)@ == old(buf)@ + channel_bytes(channel.0),
{
    let c = channel.0;
    buf.push((c / 0x100_0000) as u8);
    buf.push(((c / 0x1_0000) % 0x100) as u8);
    buf.push(((c / 0x100) % 0x100) as u8);
    buf.push((c % 0x100) as u8);
    assert(final(buf)@ =~= old(buf)@ + channel_bytes(channel.0));
}

/// Appends `data[start..end]`.
fn append_range(buf: &mut Vec<u8>, data: &Vec<u8>, start: usize, end: usize)
    requires
        start <= end <= data@.len(),
    ensures
        final(buf)@ == old(buf)@ + data@.subrange(start as int, end as int),
{
    let ghost init = buf@;
    let mut i = start;
    while i < end
        invariant
            start <= i <= end,
            end <= data@.len(),
            buf@ == init + data@.subrange(start as int, i as int),
        decreases end - i,
    {
        buf.push(data[i]);
        i = i + 1;
        assert(buf@ =~= init + data@.subrange(start as int, i as int));
    }
}

/// Appends `n` zero bytes.
fn append_zeros(buf: &mut Vec<u8>, n: usize)
    ensures
        final(buf)@ == old(buf)@ + zeros(n as nat),
{
    let ghost init = buf@;
    let mut i: usize = 0;
    while i < n
        invariant
            i <= n,
            buf@ == init + zeros(i as nat),
        decreases n - i,
    {
        buf.push(0);
        i = i + 1;
        assert(buf@ =~= init + zeros(i as nat));
    }
}

} // verus!
