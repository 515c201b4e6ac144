//! What a read from a WebSocket means for the stream of its messages.

use vstd::prelude::*;

pub use tungstenite::error::Error as TungsteniteError;
pub use tungstenite::Message;

verus! {

#[verifier::external_type_specification]
#[verifier::external_body]
pub struct ExMessage(Message);

#[verifier::external_type_specification]
#[verifier::external_body]
pub struct ExTungsteniteError(TungsteniteError);

/// Why a read gave no message: the connection was closed normally, or
/// something else went wrong.
pub enum ReadError<E> {
    ConnectionClosed,
    Other(E),
}

/// The next item of the stream of messages after a read: a message is
/// passed on, a normal close ends the stream, any other error is passed on.
pub fn next_item<M, E>(read: Result<M, ReadError<E>>) -> (item: Option<Result<M, E>>)
    ensures
        read matches Ok(m) ==> item == Some(Ok::<M, E>(m)),
        read matches Err(ReadError::ConnectionClosed) ==> item is None,
        read matches Err(ReadError::Other(e)) ==> item == Some(Err::<M, E>(e)),
{
    match read {
        Ok(m) => Some(Ok(m)),
        Err(ReadError::ConnectionClosed) => None,
        Err(ReadError::Other(e)) => Some(Err(e)),
    }
}

/// The next item of a WebSocket's stream after `WebSocket::read`, with the
/// read's error told apart as a normal close or another error: the message is
/// passed on, a normal close ends the stream, and any other error is passed
/// on.
pub fn stream_item(read: Result<Message, ReadError<TungsteniteError>>) -> (item: Option<
    Result<Message, TungsteniteError>,
>)
    ensures
        read matches Ok(m) ==> item == Some(Ok::<Message, TungsteniteError>(m)),
        read matches Err(ReadError::ConnectionClosed) ==> item is None,
        read matches Err(ReadError::Other(e)) ==> item == Some(
            Err::<Message, TungsteniteError>(e),
        ),
{
    next_item(read)
}

} // verus!
