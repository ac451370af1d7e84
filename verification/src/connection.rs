//! One connection: the framing of its messages, and what to do next on it.
//!
//! Every message, in either direction, is a signed 32-bit length and then
//! that many bytes. A connection is served one request at a time: the size
//! is read, then the body, then the response is written, and so on until the
//! peer closes or something fails. The reading and the writing are for the
//! caller to do; `step` says what is to be read or written next.

use vstd::prelude::*;
use crate::errors::{Decoded, KafkaErrors};
use crate::incoming::{correlation_bytes, dispatch, lemma_correlation_id_preserved, reply};
use crate::metadata::{Metadata, MetadataView};
use crate::parser::{KafkaRead, Reader, read_bytes, read_int, reads_as};
use crate::roundtrip::lemma_i32_round_trip;
use crate::writer::{KafkaWrite, write_bytes, write_raw};

verus! {

/// How many bytes the size of a message takes.
pub const SIZE_FIELD: usize = 4;

/// The message at the front of a stream: its declared length, which must
/// not be negative, and then that many bytes.
pub open spec fn decode_frame(s: Seq<u8>) -> Decoded<Seq<u8>> {
    match i32::decode(s) {
        Err(e) => Err(e),
        Ok((size, rest)) => if size < 0 {
            Err(KafkaErrors::MalformedFrame)
        } else if rest.len() < size {
            Err(KafkaErrors::UnexpectedEndOfInput)
        } else {
            Ok((rest.take(size as int), rest.skip(size as int)))
        },
    }
}

/// A message as it is sent: its length and then its bytes. A message longer
/// than the length field can say cannot be sent.
pub open spec fn encode_frame(payload: Seq<u8>) -> Option<Seq<u8>> {
    if payload.len() > i32::MAX {
        None
    } else {
        Some(i32::encode(payload.len() as i32) + payload)
    }
}

/// A message that is sent is the message that is read, and the reader stops
/// right behind it: of a message that declares the length L, exactly L bytes
/// are taken before the next message begins.
pub proof fn lemma_frame_round_trip(payload: Seq<u8>, rest: Seq<u8>)
    requires
        payload.len() <= i32::MAX,
    ensures
        decode_frame(encode_frame(payload)->Some_0 + rest) == Ok::<(Seq<u8>, Seq<u8>), KafkaErrors>(
            (payload, rest),
        ),
{
    let size = payload.len() as i32;
    lemma_i32_round_trip(size, payload + rest);
    assert(encode_frame(payload)->Some_0 + rest =~= i32::encode(size) + (payload + rest));
    assert((payload + rest).take(size as int) =~= payload);
    assert((payload + rest).skip(size as int) =~= rest);
}

/// Reads one message from a stream.
pub fn read_frame(stream: &mut Reader) -> (res: Result<Vec<u8>, KafkaErrors>)
    ensures
        reads_as(res, old(stream)@, final(stream)@, decode_frame(old(stream)@)),
{
    let mut cur = *stream;
    let size = read_int(&mut cur)?;
    if size < 0 {
        return Err(KafkaErrors::MalformedFrame);
    }
    let payload = read_bytes(&mut cur, size as usize)?;
    *stream = cur;
    Ok(payload)
}

/// Writes one message, or nothing where it is too long to be sent.
pub fn write_frame(out: &mut Vec<u8>, payload: &[u8]) -> (res: Result<(), KafkaErrors>)
    ensures
        match encode_frame(payload@) {
            Some(bytes) => res is Ok && final(out)@ == old(out)@ + bytes,
            None => res == Err::<(), KafkaErrors>(KafkaErrors::InvalidWriterArg) && final(out)@
                == old(out)@,
        },
{
    if payload.len() > i32::MAX as usize {
        return Err(KafkaErrors::InvalidWriterArg);
    }
    write_bytes(out, &(payload.len() as i32))?;
    write_raw(out, payload);
    assert(out@ =~= old(out)@ + encode_frame(payload@)->Some_0);
    Ok(())
}

/// Where a connection stands.
#[derive(Debug, Clone, Copy, PartialEq, Eq, Structural)]
pub enum ConnectionState {
    /// Nothing has been asked for yet.
    Idle,
    /// The four bytes of a size have been asked for.
    ReadingSize,
    /// The body of a request of this many bytes has been asked for.
    ReadingBody(usize),
    /// A response has been handed out to be written.
    Writing,
    /// The connection is over.
    Closed,
}

/// What happened on a connection.
#[derive(Debug, Clone)]
pub enum ConnectionEvent {
    /// The connection is there, or what was to be written has been written.
    Ready,
    /// Bytes have been read.
    Data(Vec<u8>),
    /// The peer has closed the connection, or the stream ended within a
    /// message.
    EndOfStream,
    /// Reading or writing failed.
    Failed,
}

/// What a `ConnectionEvent` stands for: the same variants, with sequences in place of
/// vectors.
pub enum ConnectionEventView {
    Ready,
    Data(Seq<u8>),
    EndOfStream,
    Failed,
}

impl View for ConnectionEvent {
    type V = ConnectionEventView;

    open spec fn view(&self) -> ConnectionEventView {
        match self {
            ConnectionEvent::Ready => ConnectionEventView::Ready,
            ConnectionEvent::Data(d) => ConnectionEventView::Data(d@),
            ConnectionEvent::EndOfStream => ConnectionEventView::EndOfStream,
            ConnectionEvent::Failed => ConnectionEventView::Failed,
        }
    }
}

/// What is to be done next on a connection.
#[derive(Debug, Clone)]
pub enum ConnectionAction {
    /// Read exactly this many bytes.
    Read(usize),
    /// Write these bytes: a response with its length in front. With them
    /// comes the error that cut the request short, if there was one. What
    /// comes of the writing is the next event, also where the state is
    /// `Closed` by now.
    Write(Vec<u8>, Option<KafkaErrors>),
    /// Close the connection.
    Close,
}

/// What a `ConnectionAction` stands for: the same variants, with sequences in place of
/// vectors.
pub enum ConnectionActionView {
    Read(usize),
    Write(Seq<u8>, Option<KafkaErrors>),
    Close,
}

impl View for ConnectionAction {
    type V = ConnectionActionView;

    open spec fn view(&self) -> ConnectionActionView {
        match self {
            ConnectionAction::Read(n) => ConnectionActionView::Read(*n),
            ConnectionAction::Write(bytes, error) => ConnectionActionView::Write(bytes@, *error),
            ConnectionAction::Close => ConnectionActionView::Close,
        }
    }
}

/// The end of a connection.
pub open spec fn close() -> (ConnectionState, ConnectionActionView) {
    (ConnectionState::Closed, ConnectionActionView::Close)
}

/// What the four bytes of a size lead to: the body of that size is read
/// next, unless the size is negative.
pub open spec fn after_size(data: Seq<u8>) -> (ConnectionState, ConnectionActionView) {
    match i32::decode(data) {
        Ok((size, _)) => if data.len() == SIZE_FIELD && size >= 0 {
            (ConnectionState::ReadingBody(size as usize), ConnectionActionView::Read(size as usize))
        } else {
            close()
        },
        Err(_) => close(),
    }
}

/// Whether a connection goes on behind a request that ended with `error`.
/// It goes on behind a request that was answered in full, and behind one
/// for an API of the reserved range that has no handler. Any other error
/// says that the bytes of the request were not what they should be, and
/// ends the connection.
pub open spec fn goes_on(error: Option<KafkaErrors>) -> bool {
    match error {
        None => true,
        Some(KafkaErrors::Unimplemented(_)) => true,
        Some(_) => false,
    }
}

/// What the body of a request leads to: its response is written next, with
/// its length in front, unless there is no response or it cannot be sent.
/// Behind a request that ends the connection the response is still written,
/// but the connection is closed by then: nothing is read after it.
pub open spec fn after_body(data: Seq<u8>, md: MetadataView) -> (
    ConnectionState,
    ConnectionActionView,
) {
    match reply(data, md) {
        None => close(),
        Some(r) => match encode_frame(r.response) {
            None => close(),
            Some(bytes) => (
                if goes_on(r.error) {
                    ConnectionState::Writing
                } else {
                    ConnectionState::Closed
                },
                ConnectionActionView::Write(bytes, r.error),
            ),
        },
    }
}

/// The next state of a connection and what is to be done next, from its
/// state and what happened. A connection that is there, or that has written
/// its response, reads a size; a size that has been read is followed by the
/// body of that size, a body by its response. The end of the stream, a
/// failure, bytes that are not as many as were asked for, a request whose
/// bytes do not parse, or anything that the state does not wait for close
/// the connection.
pub open spec fn next(state: ConnectionState, event: ConnectionEventView, md: MetadataView) -> (
    ConnectionState,
    ConnectionActionView,
) {
    match (state, event) {
        (ConnectionState::Idle, ConnectionEventView::Ready) => (
            ConnectionState::ReadingSize,
            ConnectionActionView::Read(SIZE_FIELD),
        ),
        (ConnectionState::Writing, ConnectionEventView::Ready) => (
            ConnectionState::ReadingSize,
            ConnectionActionView::Read(SIZE_FIELD),
        ),
        (ConnectionState::ReadingSize, ConnectionEventView::Data(data)) => after_size(data),
        (ConnectionState::ReadingBody(size), ConnectionEventView::Data(data)) => if data.len()
            == size {
            after_body(data, md)
        } else {
            close()
        },
        _ => close(),
    }
}

/// What a connection writes is one whole message, and the message is a
/// response that begins with the correlation id of the request just read.
pub proof fn lemma_written_message(size: usize, data: Seq<u8>, md: MetadataView, rest: Seq<u8>)
    ensures
        ({
            let body_read = ConnectionEventView::Data(data);
            let action = next(ConnectionState::ReadingBody(size), body_read, md).1;
            action matches ConnectionActionView::Write(bytes, _) ==> decode_frame(bytes + rest)
                matches Ok((response, behind)) && behind == rest && response.len() >= 4
                && response.take(4) == correlation_bytes(data)
        }),
{
    if data.len() == size {
        match reply(data, md) {
            None => {},
            Some(r) => {
                lemma_correlation_id_preserved(data, md);
                if r.response.len() <= i32::MAX {
                    lemma_frame_round_trip(r.response, rest);
                }
            },
        }
    }
}

/// A request whose bytes do not parse ends the connection: its response is
/// handed out to be written, and nothing is read after it.
pub proof fn lemma_parse_error_closes(size: usize, data: Seq<u8>, md: MetadataView)
    requires
        reply(data, md) matches Some(r) && !goes_on(r.error),
    ensures
        next(ConnectionState::ReadingBody(size), ConnectionEventView::Data(data), md).0
            == ConnectionState::Closed,
{
}

/// A connection that is closed stays closed.
pub proof fn lemma_closed_for_good(event: ConnectionEventView, md: MetadataView)
    ensures
        next(ConnectionState::Closed, event, md) == close(),
{
}

/// Says what is to be done next on a connection.
pub fn step(state: ConnectionState, event: ConnectionEvent, metadata: &Metadata) -> (res: (
    ConnectionState,
    ConnectionAction,
))
    ensures
        (res.0, res.1@) == next(state, event@, metadata@),
{
    match (state, event) {
        (ConnectionState::Idle, ConnectionEvent::Ready) => (
            ConnectionState::ReadingSize,
            ConnectionAction::Read(SIZE_FIELD),
        ),
        (ConnectionState::Writing, ConnectionEvent::Ready) => (
            ConnectionState::ReadingSize,
            ConnectionAction::Read(SIZE_FIELD),
        ),
        (ConnectionState::ReadingSize, ConnectionEvent::Data(data)) => {
            if data.len() != SIZE_FIELD {
                return (ConnectionState::Closed, ConnectionAction::Close);
            }
            let mut reader = Reader::new(data.as_slice());
            match read_int(&mut reader) {
                Ok(size) => {
                    if size < 0 {
                        (ConnectionState::Closed, ConnectionAction::Close)
                    } else {
                        (
                            ConnectionState::ReadingBody(size as usize),
                            ConnectionAction::Read(size as usize),
                        )
                    }
                },
                Err(_) => (ConnectionState::Closed, ConnectionAction::Close),
            }
        },
        (ConnectionState::ReadingBody(size), ConnectionEvent::Data(data)) => {
            if data.len() != size {
                return (ConnectionState::Closed, ConnectionAction::Close);
            }
            match dispatch(data.as_slice(), metadata) {
                None => (ConnectionState::Closed, ConnectionAction::Close),
                Some(r) => {
                    let mut framed: Vec<u8> = Vec::new();
                    match write_frame(&mut framed, r.response.as_slice()) {
                        Err(_) => (ConnectionState::Closed, ConnectionAction::Close),
                        Ok(()) => {
                            assert(framed@ =~= encode_frame(r.response@)->Some_0);
                            let state = match r.error {
                                None => ConnectionState::Writing,
                                Some(KafkaErrors::Unimplemented(_)) => ConnectionState::Writing,
                                Some(_) => ConnectionState::Closed,
                            };
                            (state, ConnectionAction::Write(framed, r.error))
                        },
                    }
                },
            }
        },
        _ => (ConnectionState::Closed, ConnectionAction::Close),
    }
}

} // verus!
