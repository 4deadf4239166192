use sync_server::server::circular_buffer::CircularBuffer;
use sync_server::server::message::{ChannelMessage, ServerAction, SyncMessageType};

#[test]
fn stop_and_start_toggle_the_guests() {
    assert_eq!(ChannelMessage::Stop.into_action(), ServerAction::Pause);
    assert_eq!(ChannelMessage::Start.into_action(), ServerAction::Resume);
}

#[test]
fn other_requests_are_broadcast() {
    assert_eq!(
        ChannelMessage::Snap(String::from("dir")).into_action(),
        ServerAction::Broadcast(SyncMessageType::Snap(String::from("dir")))
    );
    assert_eq!(ChannelMessage::Fence(42).into_action(), ServerAction::Broadcast(SyncMessageType::Fence(42)));
    assert_eq!(ChannelMessage::NoFence.into_action(), ServerAction::Broadcast(SyncMessageType::NoFence));
    assert_eq!(ChannelMessage::Terminate.into_action(), ServerAction::Broadcast(SyncMessageType::Terminate));
}

#[test]
fn requests_of_messages() {
    assert!(ChannelMessage::from_request(SyncMessageType::Null).is_none());
    for message in [
        SyncMessageType::Snap(String::from("d")),
        SyncMessageType::Fence(3),
        SyncMessageType::NoFence,
        SyncMessageType::Terminate,
    ] {
        let request = ChannelMessage::from_request(message.clone()).unwrap();
        assert_eq!(request.into_action(), ServerAction::Broadcast(message));
    }
    assert_eq!(ChannelMessage::from_request(SyncMessageType::Stop).unwrap().into_action(), ServerAction::Pause);
    assert_eq!(ChannelMessage::from_request(SyncMessageType::Start).unwrap().into_action(), ServerAction::Resume);
}

#[test]
fn only_stop_and_start_touch_the_flag() {
    assert_eq!(ServerAction::Pause.stop_flag(), Some(true));
    assert_eq!(ServerAction::Resume.stop_flag(), Some(false));
    assert_eq!(ServerAction::Broadcast(SyncMessageType::NoFence).stop_flag(), None);
}

#[test]
fn requests_queue_their_messages_in_order() {
    let requests = vec![
        ChannelMessage::Stop,
        ChannelMessage::Fence(5),
        ChannelMessage::Start,
        ChannelMessage::Snap(String::from("s")),
        ChannelMessage::Terminate,
    ];
    let mut stopped = false;
    let mut ring: CircularBuffer<SyncMessageType> = CircularBuffer::new(256, 1);
    for request in requests {
        let action = request.into_action();
        match action.stop_flag() {
            Some(flag) => stopped = flag,
            None => {
                if let ServerAction::Broadcast(m) = action {
                    assert!(ring.push(m).is_ok());
                }
            }
        }
    }
    assert!(!stopped);
    let mut reader: usize = 0;
    assert_eq!(ring.read(&mut reader), Ok(&SyncMessageType::Fence(5)));
    assert_eq!(ring.read(&mut reader), Ok(&SyncMessageType::Snap(String::from("s"))));
    assert_eq!(ring.read(&mut reader), Ok(&SyncMessageType::Terminate));
    assert_eq!(ring.read(&mut reader), Err("Nothing to read"));
}
