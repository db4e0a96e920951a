//! Requests and responses as they travel on the control channel: a frame
//! that holds the message as JSON text, its kind or status under its name.

use vstd::prelude::*;
use crate::codec::{decode_frame, encode_frame, framed, unframed};
use crate::json::{
    json_of_request, json_of_response, request_from_json, request_of_json, request_to_json,
    response_from_json, response_of_json, response_to_json,
};
use crate::protocol::{Request, RequestTypes, RequestView, Response, ResponseCodes, ResponseView};

verus! {

/// Why a message could not be written or read.
#[derive(Clone, Copy, Debug, PartialEq, Eq, Structural)]
pub enum MessageError {
    /// The message could not be written as JSON text.
    Unwritable,
    /// The text is longer than a length of four bytes can say.
    TooLong,
    /// The bytes end before the message does.
    Short,
    /// The frame holds no message of the kind that was expected.
    Malformed,
    /// The message names a kind of request, or a status, that there is
    /// not.
    UnknownName,
}

/// What is sent for a message whose JSON text is `text`, if it could be
/// written: the text in a frame.
pub open spec fn sent(text: Option<Seq<u8>>) -> Result<Seq<u8>, MessageError> {
    match text {
        None => Err(MessageError::Unwritable),
        Some(payload) => if payload.len() > u32::MAX {
            Err(MessageError::TooLong)
        } else {
            Ok(framed(payload))
        },
    }
}

/// The bytes of `out` as a value.
pub open spec fn sent_view(out: Result<Vec<u8>, MessageError>) -> Result<Seq<u8>, MessageError> {
    match out {
        Ok(bytes) => Ok(bytes@),
        Err(e) => Err(e),
    }
}

/// Frames the JSON text of a message, if it could be written.
pub fn frame_text(text: Option<Vec<u8>>) -> (out: Result<Vec<u8>, MessageError>)
    ensures
        sent_view(out) == sent(
            match text {
                Some(payload) => Some(payload@),
                None => None,
            },
        ),
{
    match text {
        None => Err(MessageError::Unwritable),
        Some(payload) => match encode_frame(payload.as_slice()) {
            Ok(bytes) => Ok(bytes),
            Err(_) => Err(MessageError::TooLong),
        },
    }
}

/// The first frame on `bytes`: its payload and the number of bytes it
/// takes up.
pub open spec fn received(bytes: Seq<u8>) -> Result<(Seq<u8>, int), MessageError> {
    match unframed(bytes) {
        Some(frame) => Ok(frame),
        None => Err(MessageError::Short),
    }
}

/// The request that a payload holds, given what its JSON text holds under
/// `request_type` and `body`, if it is an object that holds both.
pub open spec fn request_of(parsed: Option<(Seq<char>, Seq<u8>)>) -> Result<RequestView, MessageError> {
    match parsed {
        None => Err(MessageError::Malformed),
        Some((tag, body)) => match RequestTypes::named(tag) {
            Some(kind) => Ok(RequestView { request_type: kind, body }),
            None => Err(MessageError::UnknownName),
        },
    }
}

/// The response that a payload holds, given what its JSON text holds
/// under `status_code`, `status_message` and `body`, if it is an object
/// that holds the three.
pub open spec fn response_of(parsed: Option<(Seq<char>, Seq<char>, Seq<u8>)>) -> Result<
    ResponseView,
    MessageError,
> {
    match parsed {
        None => Err(MessageError::Malformed),
        Some((tag, message, body)) => match ResponseCodes::named(tag) {
            Some(code) => Ok(ResponseView { status_code: code, status_message: message, body }),
            None => Err(MessageError::UnknownName),
        },
    }
}

/// The JSON text of a request: an object with the name of its kind under
/// `request_type` and its body, as an array of numbers, under `body`.
pub open spec fn request_text(request: RequestView) -> Seq<u8> {
    json_of_request("request_type"@, request.request_type.name_text(), "body"@, request.body)
}

/// The JSON text of a response: an object with the name of its status
/// under `status_code`, its message under `status_message` and its body,
/// as an array of numbers, under `body`.
pub open spec fn response_text(response: ResponseView) -> Seq<u8> {
    json_of_response(
        "status_code"@,
        response.status_code.name_text(),
        "status_message"@,
        response.status_message,
        "body"@,
        response.body,
    )
}

/// What the JSON text `text` holds of a request: the text under
/// `request_type` and the bytes under `body`.
pub open spec fn request_members(text: Seq<u8>) -> Option<(Seq<char>, Seq<u8>)> {
    request_of_json(text, "request_type"@, "body"@)
}

/// What the JSON text `text` holds of a response: the texts under
/// `status_code` and `status_message` and the bytes under `body`.
pub open spec fn response_members(text: Seq<u8>) -> Option<(Seq<char>, Seq<char>, Seq<u8>)> {
    response_of_json(text, "status_code"@, "status_message"@, "body"@)
}

/// The first request on `bytes`, and the number of bytes it takes up.
pub open spec fn first_request(bytes: Seq<u8>) -> Result<(RequestView, int), MessageError> {
    match received(bytes) {
        Err(e) => Err(e),
        Ok((payload, used)) => match request_of(request_members(payload)) {
            Ok(request) => Ok((request, used)),
            Err(e) => Err(e),
        },
    }
}

/// The first response on `bytes`, and the number of bytes it takes up.
pub open spec fn first_response(bytes: Seq<u8>) -> Result<(ResponseView, int), MessageError> {
    match received(bytes) {
        Err(e) => Err(e),
        Ok((payload, used)) => match response_of(response_members(payload)) {
            Ok(response) => Ok((response, used)),
            Err(e) => Err(e),
        },
    }
}

/// The bytes to send for `request`: its JSON text in a frame, that is
/// behind its length in four bytes. Fails only where the text is too long
/// for its length to be written.
pub fn send_request(request: &Request) -> (out: Result<Vec<u8>, MessageError>)
    ensures
        sent_view(out) == sent(Some(request_text(request@))),
{
    frame_text(
        request_to_json(
            "request_type",
            request.request_type.name(),
            "body",
            request.body.as_slice(),
        ),
    )
}

/// The bytes to send for `response`: its JSON text in a frame, that is
/// behind its length in four bytes. Fails only where the text is too long
/// for its length to be written.
pub fn send_response(response: &Response) -> (out: Result<Vec<u8>, MessageError>)
    ensures
        sent_view(out) == sent(Some(response_text(response@))),
{
    frame_text(
        response_to_json(
            "status_code",
            response.status_code.name(),
            "status_message",
            response.status_message.as_str(),
            "body",
            response.body.as_slice(),
        ),
    )
}

/// The request made of what a JSON text holds.
pub fn request_from(parsed: Option<(String, Vec<u8>)>) -> (out: Result<Request, MessageError>)
    ensures
        match out {
            Ok(request) => Ok(request@),
            Err(e) => Err(e),
        } == request_of(
            match parsed {
                Some((tag, body)) => Some((tag@, body@)),
                None => None,
            },
        ),
{
    match parsed {
        None => Err(MessageError::Malformed),
        Some((tag, body)) => match RequestTypes::from_name(tag.as_str()) {
            Some(kind) => Ok(Request { request_type: kind, body }),
            None => Err(MessageError::UnknownName),
        },
    }
}

/// The response made of what a JSON text holds.
pub fn response_from(parsed: Option<(String, String, Vec<u8>)>) -> (out: Result<Response, MessageError>)
    ensures
        match out {
            Ok(response) => Ok(response@),
            Err(e) => Err(e),
        } == response_of(
            match parsed {
                Some((tag, message, body)) => Some((tag@, message@, body@)),
                None => None,
            },
        ),
{
    match parsed {
        None => Err(MessageError::Malformed),
        Some((tag, message, body)) => match ResponseCodes::from_name(tag.as_str()) {
            Some(code) => Ok(Response { status_code: code, status_message: message, body }),
            None => Err(MessageError::UnknownName),
        },
    }
}

/// Reads the first request on `bytes`, and says how many bytes it took
/// up. A read that ends before the message does is `Short`.
pub fn read_request(bytes: &[u8]) -> (out: Result<(Request, usize), MessageError>)
    ensures
        match out {
            Ok((request, used)) => Ok((request@, used as int)),
            Err(e) => Err(e),
        } == first_request(bytes@),
{
    let (payload, used) = match decode_frame(bytes) {
        Ok(frame) => frame,
        Err(_) => {
            return Err(MessageError::Short);
        },
    };
    match request_from(request_from_json(payload.as_slice(), "request_type", "body")) {
        Ok(request) => Ok((request, used)),
        Err(e) => Err(e),
    }
}

/// Reads the first response on `bytes`, and says how many bytes it took
/// up. A read that ends before the message does is `Short`.
pub fn read_response(bytes: &[u8]) -> (out: Result<(Response, usize), MessageError>)
    ensures
        match out {
            Ok((response, used)) => Ok((response@, used as int)),
            Err(e) => Err(e),
        } == first_response(bytes@),
{
    let (payload, used) = match decode_frame(bytes) {
        Ok(frame) => frame,
        Err(_) => {
            return Err(MessageError::Short);
        },
    };
    match response_from(
        response_from_json(payload.as_slice(), "status_code", "status_message", "body"),
    ) {
        Ok(response) => Ok((response, used)),
        Err(e) => Err(e),
    }
}

/// A request reads back from its frame, whatever follows it on the
/// stream: where the JSON text `text` reads as the name of the kind of
/// `request` and as its body, the frame of `text` reads as `request`.
pub proof fn law_request_round_trip(request: RequestView, text: Seq<u8>, rest: Seq<u8>)
    requires
        text.len() <= u32::MAX,
        request_members(text) == Some((request.request_type.name_text(), request.body)),
    ensures
        sent(Some(text)) == Ok::<Seq<u8>, MessageError>(framed(text)),
        first_request(framed(text) + rest) == Ok::<(RequestView, int), MessageError>(
            (request, 4 + text.len() as int),
        ),
{
    crate::codec::law_frame_round_trip(text, rest);
    crate::protocol::law_request_name_round_trip(request.request_type);
}

/// A response reads back from its frame, whatever follows it on the
/// stream: where the JSON text `text` reads as the name of the status of
/// `response`, as its message and as its body, the frame of `text` reads
/// as `response`.
pub proof fn law_response_round_trip(response: ResponseView, text: Seq<u8>, rest: Seq<u8>)
    requires
        text.len() <= u32::MAX,
        response_members(text) == Some(
            (response.status_code.name_text(), response.status_message, response.body),
        ),
    ensures
        sent(Some(text)) == Ok::<Seq<u8>, MessageError>(framed(text)),
        first_response(framed(text) + rest) == Ok::<(ResponseView, int), MessageError>(
            (response, 4 + text.len() as int),
        ),
{
    crate::codec::law_frame_round_trip(text, rest);
    crate::protocol::law_status_name_round_trip(response.status_code);
}

} // verus!
