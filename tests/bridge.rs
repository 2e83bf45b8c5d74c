use map_bridge::communication_bridge::{Channel, ChannelError, CommunicationBridge, CHANNEL_CAPACITY};
use map_bridge::interop::{display_map, send_map_information};
use map_bridge::messages::Message;

#[test]
fn receive_on_new_bridge_is_empty() {
    let mut bridge: CommunicationBridge<u32> = CommunicationBridge::new();
    assert_eq!(bridge.receive(), Err(ChannelError::ReceiveError));
}

#[test]
fn messages_come_out_in_send_order() {
    let mut bridge: CommunicationBridge<usize> = CommunicationBridge::new();
    for i in 0..CHANNEL_CAPACITY {
        assert_eq!(bridge.send(i * 7), Ok(()));
    }
    for i in 0..CHANNEL_CAPACITY {
        assert_eq!(bridge.receive(), Ok(i * 7));
    }
    assert_eq!(bridge.receive(), Err(ChannelError::ReceiveError));
}

#[test]
fn interleaved_sends_and_receives_keep_order() {
    let mut bridge: CommunicationBridge<&str> = CommunicationBridge::new();
    assert_eq!(bridge.send("a"), Ok(()));
    assert_eq!(bridge.send("b"), Ok(()));
    assert_eq!(bridge.receive(), Ok("a"));
    assert_eq!(bridge.send("c"), Ok(()));
    assert_eq!(bridge.receive(), Ok("b"));
    assert_eq!(bridge.receive(), Ok("c"));
    assert_eq!(bridge.receive(), Err(ChannelError::ReceiveError));
}

#[test]
fn capacity_is_one_hundred() {
    assert_eq!(CHANNEL_CAPACITY, 100);
}

#[test]
fn send_beyond_capacity_fails_and_keeps_accepted_messages() {
    let mut bridge: CommunicationBridge<usize> = CommunicationBridge::new();
    for i in 0..100 {
        assert_eq!(bridge.send(i), Ok(()));
    }
    assert_eq!(bridge.send(100), Err(ChannelError::SendError));
    assert_eq!(bridge.send(101), Err(ChannelError::SendError));
    assert_eq!(bridge.receive(), Ok(0));
    assert_eq!(bridge.send(102), Ok(()));
    assert_eq!(bridge.send(103), Err(ChannelError::SendError));
    for i in 1..100 {
        assert_eq!(bridge.receive(), Ok(i));
    }
    assert_eq!(bridge.receive(), Ok(102));
    assert_eq!(bridge.receive(), Err(ChannelError::ReceiveError));
}

#[test]
fn channel_error_descriptions() {
    assert_eq!(ChannelError::ReceiveError.description(), "Error while receiving message");
    assert_eq!(ChannelError::SendError.description(), "Error while sending message");
}

#[test]
fn send_map_information_queues_upload_without_overwrite() {
    let mut bridge: CommunicationBridge<Message> = CommunicationBridge::new();
    assert_eq!(send_map_information(&mut bridge, "u1".to_string(), "m1".to_string()), Ok(()));
    match bridge.receive() {
        Ok(Message::UploadMapInformation { id, url, overwrite }) => {
            assert_eq!(id, "m1");
            assert_eq!(url, "u1");
            assert!(!overwrite);
        }
        _ => panic!("expected an upload message"),
    }
    assert!(bridge.receive().is_err());
}

#[test]
fn display_map_queues_display_request() {
    let mut bridge: CommunicationBridge<Message> = CommunicationBridge::new();
    assert_eq!(display_map(&mut bridge, "m2".to_string()), Ok(()));
    match bridge.receive() {
        Ok(Message::DisplayMap { id }) => assert_eq!(id, "m2"),
        _ => panic!("expected a display message"),
    }
}

#[test]
fn entry_points_report_full_bridge() {
    let mut bridge: CommunicationBridge<Message> = CommunicationBridge::new();
    for i in 0..100 {
        assert_eq!(display_map(&mut bridge, format!("m{}", i)), Ok(()));
    }
    assert_eq!(display_map(&mut bridge, "late".to_string()), Err(ChannelError::SendError));
    assert_eq!(
        send_map_information(&mut bridge, "u".to_string(), "late".to_string()),
        Err(ChannelError::SendError)
    );
    match bridge.receive() {
        Ok(Message::DisplayMap { id }) => assert_eq!(id, "m0"),
        _ => panic!("expected the oldest message"),
    }
}
