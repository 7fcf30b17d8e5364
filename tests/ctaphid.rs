use solo2::error::{Error, ProtocolError};
use solo2::transport::ctap::{
    parse_init, reassemble, Channel, Code, Command, Error as CtaphidError, Receiver, Status, Step,
    VendorCode,
};

fn payload(len: usize) -> Vec<u8> {
    (0..len).map(|i| (i * 7 + 3) as u8).collect()
}

#[test]
fn packet_counts_sizes_and_sequence() {
    for &len in &[0usize, 57, 58, 116, 7609] {
        let command = Command::new(Code::Ping).with_data(&payload(len));
        let packets = command.packets(Channel(0x01020304));
        let expected = 1 + (len.saturating_sub(57) + 58) / 59;
        assert_eq!(packets.len(), expected, "length {}", len);
        for packet in &packets {
            assert_eq!(packet.len(), 64);
            assert_eq!(&packet[..4], &[1, 2, 3, 4]);
        }
        assert_eq!(packets[0][4], 0x81);
        assert_eq!(((packets[0][5] as usize) << 8) | packets[0][6] as usize, len);
        for (i, packet) in packets.iter().enumerate().skip(1) {
            assert_eq!(packet[4] as usize, i - 1);
        }
    }
}

#[test]
fn reassembly_inverts_packetization() {
    for len in (0..=7609).step_by(97).chain([57, 58, 116, 117, 7608, 7609]) {
        let data = payload(len);
        let code = Code::Vendor(VendorCode::new(0x51));
        let command = Command::new(code).with_data(&data);
        let channel = Channel(0xCAFE_F00D);
        let packets = command.packets(channel);
        assert_eq!(reassemble(channel, code, &packets), Ok(data), "length {}", len);
    }
}

#[test]
fn receiver_skips_other_channels_and_keepalives() {
    let channel = Channel(7);
    let mut rx = Receiver::new(channel, Code::Wink);
    let other = Command::new(Code::Wink).packets(Channel(8));
    assert!(matches!(rx.feed(&other[0]), Step::Ignored));
    let mut keepalive = vec![0u8; 64];
    keepalive[..4].copy_from_slice(&7u32.to_be_bytes());
    keepalive[4] = 0x3B | 0x80;
    keepalive[7] = 2;
    assert!(matches!(rx.feed(&keepalive), Step::Keepalive(Status::UserPresenceNeeded)));
    let reply = Command::new(Code::Wink).with_data(&[9, 9]).packets(channel);
    match rx.feed(&reply[0]) {
        Step::Complete(data) => assert_eq!(data, vec![9, 9]),
        other => panic!("unexpected {:?}", other),
    }
}

#[test]
fn receiver_reports_device_errors() {
    let channel = Channel(7);
    let mut rx = Receiver::new(channel, Code::Ping);
    let mut error = vec![0u8; 64];
    error[..4].copy_from_slice(&7u32.to_be_bytes());
    error[4] = 0x3F | 0x80;
    error[7] = 6;
    match rx.feed(&error) {
        Step::Failed(e) => assert_eq!(e, Error::Ctaphid(CtaphidError::ChannelBusy)),
        other => panic!("unexpected {:?}", other),
    }
}

#[test]
fn receiver_rejects_wrong_command_and_sequence() {
    let channel = Channel(7);
    let mut rx = Receiver::new(channel, Code::Ping);
    let wink = Command::new(Code::Wink).packets(channel);
    assert!(matches!(rx.feed(&wink[0]), Step::Failed(Error::Protocol(ProtocolError::UnexpectedCommand))));

    let packets = Command::new(Code::Ping).with_data(&payload(200)).packets(channel);
    let mut rx = Receiver::new(channel, Code::Ping);
    assert!(matches!(rx.feed(&packets[0]), Step::Pending));
    assert!(matches!(
        rx.feed(&packets[2]),
        Step::Failed(Error::Protocol(ProtocolError::UnexpectedSequence))
    ));
}

#[test]
fn truncated_reply_is_an_error() {
    let channel = Channel(7);
    let packets = Command::new(Code::Ping).with_data(&payload(100)).packets(channel);
    assert_eq!(
        reassemble(channel, Code::Ping, &packets[..1].to_vec()),
        Err(Error::Protocol(ProtocolError::UnexpectedLength))
    );
}

/// A HID device that answers an `Init` on the broadcast channel by echoing the nonce.
struct MockHid {
    channel: u32,
    capabilities: u8,
    outbox: Vec<Vec<u8>>,
}

impl MockHid {
    fn write(&mut self, packet: &[u8]) {
        assert_eq!(packet.len(), 64);
        assert_eq!(packet[4], 0x86);
        let nonce = &packet[7..15];
        let mut reply = nonce.to_vec();
        reply.extend_from_slice(&self.channel.to_be_bytes());
        reply.extend_from_slice(&[2, 1, 2, 3, self.capabilities]);
        // traffic for someone else first, then a keepalive, then the answer
        self.outbox.extend(Command::new(Code::Init).with_data(&reply).packets(Channel(5)));
        let mut keepalive = vec![0xFF, 0xFF, 0xFF, 0xFF, 0xBB, 0, 1, 1];
        keepalive.resize(64, 0);
        self.outbox.push(keepalive);
        self.outbox.extend(Command::new(Code::Init).with_data(&reply).packets(Channel(0xFFFF_FFFF)));
    }

    fn read(&mut self) -> Vec<u8> {
        self.outbox.remove(0)
    }
}

#[test]
fn init_handshake_against_mock_device() {
    let mut hid = MockHid { channel: 0x1122_3344, capabilities: 0x01, outbox: vec![] };
    let (nonce, command) = solo2::transport::ctap::init_request().unwrap();
    for packet in command.packets(Channel::broadcast()) {
        hid.write(&packet);
    }
    let mut rx = Receiver::new(Channel::broadcast(), Code::Init);
    let response = loop {
        match rx.feed(&hid.read()) {
            Step::Complete(data) => break data,
            Step::Failed(e) => panic!("{:?}", e),
            _ => continue,
        }
    };
    let init = parse_init(&nonce, &response).unwrap();
    assert_eq!(init.channel, Channel(0x1122_3344));
    assert!(init.can_wink);
    assert!(!init.can_cbor);
    assert!(init.can_msg);
    assert_eq!((init.major, init.minor, init.build), (1, 2, 3));
}

#[test]
fn init_reply_checks() {
    let nonce = [1u8, 2, 3, 4, 5, 6, 7, 8];
    let mut reply = nonce.to_vec();
    reply.extend_from_slice(&[0, 0, 0, 9, 2, 0, 0, 0, 0x0C]);
    let init = parse_init(&nonce, &reply).unwrap();
    assert_eq!(init.channel, Channel(9));
    assert!(!init.can_wink && init.can_cbor && !init.can_msg);

    let mut wrong_nonce = reply.clone();
    wrong_nonce[0] = 0xFF;
    assert_eq!(parse_init(&nonce, &wrong_nonce), Err(Error::Protocol(ProtocolError::NonceMismatch)));
    let mut wrong_version = reply.clone();
    wrong_version[12] = 1;
    assert_eq!(
        parse_init(&nonce, &wrong_version),
        Err(Error::Protocol(ProtocolError::UnsupportedVersion))
    );
    assert_eq!(
        parse_init(&nonce, &reply[..16]),
        Err(Error::Protocol(ProtocolError::UnexpectedLength))
    );
}

#[test]
fn code_bytes() {
    assert_eq!(Code::Keepalive.to_byte(), 0x3B);
    assert_eq!(Code::from_byte(0x45), Some(Code::Vendor(VendorCode::new(0x45))));
    assert_eq!(Code::from_byte(0x30), None);
    assert_eq!(CtaphidError::from_byte(0x0B), CtaphidError::ChannelIdInvalid);
    assert_eq!(CtaphidError::from_byte(0x42), CtaphidError::UnspecifiedError);
    assert_eq!(Status::from_byte(1), Status::Processing);
}
