use three_ds_http::websocket::{next_item, stream_item, Message, ReadError, TungsteniteError};

#[test]
fn next_item_passes_messages_and_ends_on_close() {
    let read: Result<u32, ReadError<&str>> = Ok(7);
    assert_eq!(next_item(read), Some(Ok(7)));
    let read: Result<u32, ReadError<&str>> = Err(ReadError::ConnectionClosed);
    assert_eq!(next_item(read), None);
    let read: Result<u32, ReadError<&str>> = Err(ReadError::Other("boom"));
    assert_eq!(next_item(read), Some(Err("boom")));
}

#[test]
fn stream_item_on_tungstenite_results() {
    match stream_item(Ok(Message::text("hi"))) {
        Some(Ok(m)) => assert_eq!(m, Message::text("hi")),
        _ => panic!("expected the message"),
    }
    assert!(stream_item(Err(ReadError::ConnectionClosed)).is_none());
    match stream_item(Err(ReadError::Other(TungsteniteError::AlreadyClosed))) {
        Some(Err(TungsteniteError::AlreadyClosed)) => {}
        _ => panic!("expected the error"),
    }
}
