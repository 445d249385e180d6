use beefy_relay::error::Error;
use beefy_relay::event::BurnedEvent;
use beefy_relay::message::{decode_messages, Message};
use beefy_relay::transfer::XTransferPayload;
use parity_scale_codec::{Decode, Encode};

fn msg_batch(messages: &[(u64, Vec<u8>)]) -> Vec<u8> {
    messages.to_vec().encode()
}

fn msg_expected(messages: &[(u64, Vec<u8>)]) -> Vec<Message> {
    messages.iter().map(|(nonce, payload)| Message { nonce: *nonce, payload: payload.clone() }).collect()
}

fn msg_transfer(token_id: &[u8], sender: &[u8], receiver_id: &[u8], amount: u128) -> Vec<u8> {
    borsh::to_vec(&(token_id.to_vec(), sender.to_vec(), receiver_id.to_vec(), amount)).unwrap()
}

#[test]
fn batch_is_count_then_nonce_and_payload_of_each_message() {
    let bytes = vec![
        0x08, 10, 0, 0, 0, 0, 0, 0, 0, 0x0c, b'a', b'b', b'c', 11, 0, 0, 0, 0, 0, 0, 0, 0x00,
    ];
    assert_eq!(
        decode_messages(&bytes),
        Ok(vec![
            Message { nonce: 10, payload: b"abc".to_vec() },
            Message { nonce: 11, payload: vec![] },
        ])
    );
    assert_eq!(bytes, msg_batch(&[(10, b"abc".to_vec()), (11, vec![])]));
}

#[test]
fn batch_written_by_the_scale_codec_decodes() {
    let messages = vec![
        (0u64, vec![]),
        (1, vec![0xff]),
        (u64::MAX, b"payload".to_vec()),
        (0x0102_0304_0506_0708, vec![9; 300]),
    ];
    assert_eq!(decode_messages(&msg_batch(&messages)), Ok(msg_expected(&messages)));
}

#[test]
fn payload_lengths_around_the_compact_forms_decode() {
    for length in [0usize, 1, 63, 64, 65, 16383, 16384, 16385, 70000] {
        let messages = vec![(5u64, vec![0xa5; length]), (6, vec![1, 2, 3])];
        assert_eq!(decode_messages(&msg_batch(&messages)), Ok(msg_expected(&messages)));
    }
}

#[test]
fn message_counts_around_the_compact_forms_decode() {
    for count in [0u64, 1, 63, 64, 65, 300] {
        let messages: Vec<(u64, Vec<u8>)> = (0..count).map(|nonce| (nonce, vec![nonce as u8])).collect();
        assert_eq!(decode_messages(&msg_batch(&messages)), Ok(msg_expected(&messages)));
    }
}

#[test]
fn empty_batch_decodes_to_no_messages() {
    assert_eq!(decode_messages(&[0x00]), Ok(vec![]));
}

#[test]
fn empty_input_is_a_decode_error() {
    assert_eq!(decode_messages(&[]), Err(Error::DecodeError));
}

#[test]
fn truncated_batch_is_a_decode_error() {
    let bytes = msg_batch(&[(10, b"abc".to_vec()), (11, vec![7; 70])]);
    for cut in 0..bytes.len() {
        assert_eq!(decode_messages(&bytes[..cut]), Err(Error::DecodeError));
    }
    assert!(decode_messages(&bytes).is_ok());
}

#[test]
fn bytes_after_the_batch_are_not_looked_at() {
    let messages = vec![(10u64, b"abc".to_vec())];
    let mut bytes = msg_batch(&messages);
    bytes.extend_from_slice(&[0xde, 0xad]);
    assert_eq!(decode_messages(&bytes), Ok(msg_expected(&messages)));
}

#[test]
fn length_in_a_longer_form_than_needed_is_rejected() {
    let two_byte_zero = [0x01, 0x00];
    let four_byte_one = [0x06, 0x00, 0x00, 0x00, 1, 0, 0, 0, 0, 0, 0, 0, 0x00];
    let five_byte_one = [0x03, 0x01, 0x00, 0x00, 0x00, 1, 0, 0, 0, 0, 0, 0, 0, 0x00];
    let wide_prefix = [0x07, 0x00, 0x00, 0x00, 0x40, 0x00];
    for bytes in [&two_byte_zero[..], &four_byte_one[..], &five_byte_one[..], &wide_prefix[..]] {
        assert_eq!(decode_messages(bytes), Err(Error::DecodeError));
        assert!(Vec::<(u64, Vec<u8>)>::decode(&mut &bytes[..]).is_err());
    }
}

#[test]
fn count_larger_than_the_input_is_a_decode_error() {
    let four_byte_count = [0xfe, 0xff, 0xff, 0xff, 1, 0, 0, 0, 0, 0, 0, 0, 0x00];
    assert_eq!(decode_messages(&four_byte_count), Err(Error::DecodeError));
    let five_byte_count = [0x03, 0xff, 0xff, 0xff, 0xff, 1, 0, 0, 0, 0, 0, 0, 0, 0x00];
    assert_eq!(decode_messages(&five_byte_count), Err(Error::DecodeError));
    let long_payload = [0x04, 1, 0, 0, 0, 0, 0, 0, 0, 0x03, 0x00, 0x00, 0x00, 0x40, 1, 2, 3];
    assert_eq!(decode_messages(&long_payload), Err(Error::DecodeError));
}

#[test]
fn transfer_is_three_byte_strings_and_an_amount() {
    let bytes = vec![
        2, 0, 0, 0, b't', b'k', 1, 0, 0, 0, b's', 0, 0, 0, 0, 0x39, 0x30, 0, 0, 0, 0, 0, 0, 0, 0, 0, 0,
        0, 0, 0, 0,
    ];
    assert_eq!(
        XTransferPayload::try_from_slice(&bytes),
        Ok(XTransferPayload {
            token_id: b"tk".to_vec(),
            sender: b"s".to_vec(),
            receiver_id: vec![],
            amount: 12345,
        })
    );
    assert_eq!(bytes, msg_transfer(b"tk", b"s", b"", 12345));
}

#[test]
fn transfer_written_by_borsh_decodes() {
    let bytes = msg_transfer(b"usdc.testnet", &[7; 32], b"alice.near", u128::MAX);
    assert_eq!(
        XTransferPayload::try_from_slice(&bytes),
        Ok(XTransferPayload {
            token_id: b"usdc.testnet".to_vec(),
            sender: vec![7; 32],
            receiver_id: b"alice.near".to_vec(),
            amount: u128::MAX,
        })
    );
    let bytes = msg_transfer(&[1; 300], b"", &[2; 70000], 0x0102_0304_0506_0708_090a_0b0c_0d0e_0f10);
    let decoded = XTransferPayload::try_from_slice(&bytes).unwrap();
    assert_eq!(decoded.token_id, vec![1; 300]);
    assert_eq!(decoded.sender, Vec::<u8>::new());
    assert_eq!(decoded.receiver_id, vec![2; 70000]);
    assert_eq!(decoded.amount, 0x0102_0304_0506_0708_090a_0b0c_0d0e_0f10);
}

#[test]
fn truncated_transfer_is_a_decode_error() {
    let bytes = msg_transfer(b"token", b"sender", b"receiver", 77);
    for cut in 0..bytes.len() {
        assert_eq!(XTransferPayload::try_from_slice(&bytes[..cut]), Err(Error::DecodeError));
    }
}

#[test]
fn transfer_with_bytes_after_the_amount_is_a_decode_error() {
    let mut bytes = msg_transfer(b"token", b"sender", b"receiver", 77);
    bytes.push(0);
    assert_eq!(XTransferPayload::try_from_slice(&bytes), Err(Error::DecodeError));
    assert!(borsh::from_slice::<(Vec<u8>, Vec<u8>, Vec<u8>, u128)>(&bytes).is_err());
}

#[test]
fn burned_event_written_by_the_scale_codec_decodes() {
    let bytes = (7u32, [9u8; 32], b"bob.near".to_vec(), 1_000_000u64).encode();
    assert_eq!(
        BurnedEvent::decode(&bytes),
        Ok(BurnedEvent {
            asset_id: 7,
            sender: vec![9; 32],
            receiver_id: b"bob.near".to_vec(),
            amount: 1_000_000,
        })
    );
    let mut longer = bytes.clone();
    longer.extend_from_slice(&[1, 2, 3]);
    assert_eq!(BurnedEvent::decode(&longer), BurnedEvent::decode(&bytes));
}

#[test]
fn burned_event_is_asset_sender_receiver_amount() {
    let mut bytes = vec![0x04, 0x03, 0x02, 0x01];
    bytes.extend_from_slice(&[0xaa; 32]);
    bytes.extend_from_slice(&[0x08, b'x', b'y']);
    bytes.extend_from_slice(&[0x08, 0x07, 0x06, 0x05, 0x04, 0x03, 0x02, 0x01]);
    assert_eq!(
        BurnedEvent::decode(&bytes),
        Ok(BurnedEvent {
            asset_id: 0x0102_0304,
            sender: vec![0xaa; 32],
            receiver_id: b"xy".to_vec(),
            amount: 0x0102_0304_0506_0708,
        })
    );
}

#[test]
fn truncated_burned_event_is_a_decode_error() {
    let bytes = (7u32, [9u8; 32], b"bob.near".to_vec(), 1_000_000u64).encode();
    for cut in 0..bytes.len() {
        assert_eq!(BurnedEvent::decode(&bytes[..cut]), Err(Error::DecodeError));
    }
}
