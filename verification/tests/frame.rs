use sync_server::server::frame::{
    classify_frame, encode_frame, fits_in_frame, FrameKind, FRAME_BYTE_SIZE, QFLEX_END_OF_BUDGET_MESSAGE,
    QFLEX_MESSAGE_SIZE,
};
use sync_server::server::message::SyncMessageType;

fn padded(prefix: &[u8]) -> Vec<u8> {
    let mut frame = prefix.to_vec();
    frame.resize(FRAME_BYTE_SIZE, 0);
    frame
}

#[test]
fn constants_of_the_protocol() {
    assert_eq!(FRAME_BYTE_SIZE, 256);
    assert_eq!(QFLEX_MESSAGE_SIZE, 8);
    assert_eq!(QFLEX_END_OF_BUDGET_MESSAGE, "DONE");
}

#[test]
fn frames_of_messages_without_field() {
    assert_eq!(encode_frame(&SyncMessageType::Null), padded(&[0, 0, 0, 0]));
    assert_eq!(encode_frame(&SyncMessageType::Stop), padded(&[1, 0, 0, 0]));
    assert_eq!(encode_frame(&SyncMessageType::Start), padded(&[2, 0, 0, 0]));
    assert_eq!(encode_frame(&SyncMessageType::NoFence), padded(&[4, 0, 0, 0]));
    assert_eq!(encode_frame(&SyncMessageType::Terminate), padded(&[6, 0, 0, 0]));
}

#[test]
fn frame_of_a_fence() {
    assert_eq!(
        encode_frame(&SyncMessageType::Fence(0x0102_0304)),
        padded(&[5, 0, 0, 0, 4, 3, 2, 1])
    );
    assert_eq!(encode_frame(&SyncMessageType::Fence(10000)), padded(&[5, 0, 0, 0, 0x10, 0x27, 0, 0]));
}

#[test]
fn frame_of_a_snapshot() {
    assert_eq!(
        encode_frame(&SyncMessageType::Snap(String::from("ab"))),
        padded(&[3, 0, 0, 0, 2, 0, 0, 0, 0, 0, 0, 0, b'a', b'b'])
    );
    // two bytes of UTF-8 for one character
    assert_eq!(
        encode_frame(&SyncMessageType::Snap(String::from("é"))),
        padded(&[3, 0, 0, 0, 2, 0, 0, 0, 0, 0, 0, 0, 0xc3, 0xa9])
    );
}

#[test]
fn longest_snapshot_name_fits() {
    let longest = SyncMessageType::Snap("x".repeat(244));
    assert!(fits_in_frame(&longest));
    let frame = encode_frame(&longest);
    assert_eq!(frame.len(), 256);
    assert_eq!(frame[4], 244);
    assert_eq!(frame[255], b'x');
    assert!(!fits_in_frame(&SyncMessageType::Snap("x".repeat(245))));
    assert!(fits_in_frame(&SyncMessageType::Fence(u32::MAX)));
}

#[test]
fn distinct_messages_distinct_frames() {
    assert_ne!(encode_frame(&SyncMessageType::Stop), encode_frame(&SyncMessageType::Start));
    assert_ne!(
        encode_frame(&SyncMessageType::Snap(String::from("a"))),
        encode_frame(&SyncMessageType::Snap(String::from("b")))
    );
}

#[test]
fn classify_guest_frames() {
    assert_eq!(classify_frame(&[0, b'D', b'O', b'N', b'E', 0, 0, 0]), FrameKind::Empty);
    assert_eq!(classify_frame(b"DONE\0\0\0\0"), FrameKind::EndOfBudget);
    assert_eq!(classify_frame(b"xxxxDONE"), FrameKind::EndOfBudget);
    assert_eq!(classify_frame(b"xxxxDON\0"), FrameKind::Other);
    assert_eq!(classify_frame(b"hello\0\0\0"), FrameKind::Other);
    assert_eq!(classify_frame(&[b'D', 0xff, 0, 0, 0, 0, 0, 0]), FrameKind::Malformed);
}
