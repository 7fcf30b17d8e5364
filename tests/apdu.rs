use solo2::apdu::{decode_response, encode_command, select_command, StatusWord};
use solo2::error::{Error, ProtocolError};

#[test]
fn empty_data_uses_short_form() {
    assert_eq!(encode_command(0x00, 0xA4, 0x04, 0x00, &[]), vec![0x00, 0xA4, 0x04, 0x00, 0x00]);
}

#[test]
fn short_and_extended_forms_by_length() {
    for &len in &[1usize, 255, 256, 65535] {
        let data = vec![0x5Au8; len];
        let bytes = encode_command(0x80, 0x01, 0x02, 0x03, &data);
        assert_eq!(&bytes[..4], &[0x80, 0x01, 0x02, 0x03]);
        if len <= 255 {
            assert_eq!(bytes.len(), 4 + 1 + len + 1);
            assert_eq!(bytes[4] as usize, len);
            assert_eq!(&bytes[5..5 + len], &data[..]);
            assert_eq!(bytes[5 + len], 0);
        } else {
            assert_eq!(bytes.len(), 4 + 3 + len + 2);
            assert_eq!(bytes[4], 0);
            assert_eq!(((bytes[5] as usize) << 8) | bytes[6] as usize, len);
            assert_eq!(&bytes[7..7 + len], &data[..]);
            assert_eq!(&bytes[7 + len..], &[0, 0]);
        }
    }
}

#[test]
fn success_yields_payload() {
    assert_eq!(decode_response(vec![0x01, 0x02, 0x90, 0x00]), Ok(vec![0x01, 0x02]));
    assert_eq!(decode_response(vec![0x90, 0x00]), Ok(vec![]));
}

#[test]
fn failure_status_is_device_error_with_data() {
    assert_eq!(
        decode_response(vec![0x6A, 0x82]),
        Err(Error::Device { sw1: 0x6A, sw2: 0x82, data: vec![] })
    );
    assert_eq!(
        decode_response(vec![0xEE, 0x63, 0xC2]),
        Err(Error::Device { sw1: 0x63, sw2: 0xC2, data: vec![0xEE] })
    );
}

#[test]
fn short_response_is_protocol_error() {
    let expected = Err(Error::Protocol(ProtocolError::MissingStatusWord));
    assert_eq!(decode_response(vec![]), expected);
    assert_eq!(decode_response(vec![0x90]), expected);
}

#[test]
fn status_word_classification() {
    assert_eq!(StatusWord::from_pair(0x90, 0x00), StatusWord::Success);
    assert_eq!(StatusWord::from_pair(0x69, 0x82), StatusWord::Failure(0x69, 0x82));
}

/// A card that answers every command with a fixed response.
struct MockCard {
    reply: Vec<u8>,
    received: Vec<Vec<u8>>,
}

impl MockCard {
    fn transmit(&mut self, command: &[u8]) -> Vec<u8> {
        self.received.push(command.to_vec());
        self.reply.clone()
    }
}

#[test]
fn call_against_mock_card() {
    let mut card = MockCard { reply: vec![0xAB, 0xCD, 0x90, 0x00], received: vec![] };
    let command = encode_command(0x00, 0xA2, 0x00, 0x01, &[0x01, 0x02]);
    let raw = card.transmit(&command);
    assert_eq!(card.received[0], vec![0x00, 0xA2, 0x00, 0x01, 0x02, 0x01, 0x02, 0x00]);
    assert_eq!(decode_response(raw), Ok(vec![0xAB, 0xCD]));
}

#[test]
fn select_by_application_id() {
    let aid = [0xA0, 0x00, 0x00, 0x08, 0x47, 0x00, 0x00, 0x00, 0x01];
    let mut expected = vec![0x00, 0xA4, 0x04, 0x00, 0x09];
    expected.extend_from_slice(&aid);
    expected.push(0x00);
    assert_eq!(select_command(&aid), expected);
}
