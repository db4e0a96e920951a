use photo_backup::message::{
    frame_text, read_request, read_response, request_from, response_from, send_request,
    send_response, MessageError,
};
use photo_backup::protocol::{Request, RequestTypes, Response, ResponseCodes};

const KINDS: [RequestTypes; 7] = [
    RequestTypes::GetRepos,
    RequestTypes::CreateRepo,
    RequestTypes::RemoveRepository,
    RequestTypes::SetStoragePath,
    RequestTypes::StartBatchProcessor,
    RequestTypes::EndBatchProcessor,
    RequestTypes::GetRepoTree,
];

const CODES: [ResponseCodes; 6] = [
    ResponseCodes::OK,
    ResponseCodes::NotFound,
    ResponseCodes::Empty,
    ResponseCodes::NotConnected,
    ResponseCodes::InternalError,
    ResponseCodes::Duplicate,
];

fn framed(text: &str) -> Vec<u8> {
    let mut bytes = (text.len() as u32).to_be_bytes().to_vec();
    bytes.extend_from_slice(text.as_bytes());
    bytes
}

#[test]
fn a_request_travels_as_json_in_a_frame() {
    let request = Request { request_type: RequestTypes::CreateRepo, body: b"ab".to_vec() };
    let bytes = send_request(&request).expect("writable");
    assert_eq!(bytes, framed("{\"body\":[97,98],\"request_type\":\"CreateRepo\"}"));
}

#[test]
fn a_response_travels_as_json_in_a_frame() {
    let response = Response::with_text(ResponseCodes::NotFound, "Invalid path", "no");
    let bytes = send_response(&response).expect("writable");
    assert_eq!(
        bytes,
        framed("{\"body\":[110,111],\"status_code\":\"NotFound\",\"status_message\":\"Invalid path\"}")
    );
}

#[test]
fn requests_round_trip() {
    let bodies: [Vec<u8>; 4] = [Vec::new(), vec![0, 0], b"alpha".to_vec(), (0..=255).collect()];
    for kind in KINDS {
        for body in &bodies {
            let request = Request { request_type: kind, body: body.clone() };
            let bytes = send_request(&request).expect("writable");
            let (back, used) = read_request(&bytes).expect("readable");
            assert_eq!(used, bytes.len());
            assert_eq!(back.request_type, kind);
            assert_eq!(&back.body, body);
        }
    }
}

#[test]
fn responses_round_trip() {
    let messages = ["", "OK", "Initiated file stream @ 0.0.0.0:4000", "quote \" and \\ and \u{e9}\n"];
    let bodies: [Vec<u8>; 3] = [Vec::new(), b"text".to_vec(), (0..=255).rev().collect()];
    for code in CODES {
        for message in messages {
            for body in &bodies {
                let response = Response {
                    status_code: code,
                    status_message: message.to_string(),
                    body: body.clone(),
                };
                let bytes = send_response(&response).expect("writable");
                let (back, used) = read_response(&bytes).expect("readable");
                assert_eq!(used, bytes.len());
                assert_eq!(back.status_code, code);
                assert_eq!(back.status_message, message);
                assert_eq!(&back.body, body);
            }
        }
    }
}

#[test]
fn messages_are_read_one_after_the_other() {
    let first = Request { request_type: RequestTypes::GetRepos, body: Vec::new() };
    let second = Request { request_type: RequestTypes::CreateRepo, body: b"alpha".to_vec() };
    let mut stream = send_request(&first).expect("writable");
    stream.extend_from_slice(&send_request(&second).expect("writable"));
    let (one, used) = read_request(&stream).expect("readable");
    assert_eq!(one.request_type, RequestTypes::GetRepos);
    let (two, rest) = read_request(&stream[used..]).expect("readable");
    assert_eq!(two.request_type, RequestTypes::CreateRepo);
    assert_eq!(two.body, b"alpha".to_vec());
    assert_eq!(used + rest, stream.len());
}

#[test]
fn members_may_come_in_any_order() {
    let bytes = framed(" { \"request_type\" : \"GetRepoTree\", \"body\" : [ 1, 2 ] } ");
    let (request, _) = read_request(&bytes).expect("readable");
    assert_eq!(request.request_type, RequestTypes::GetRepoTree);
    assert_eq!(request.body, vec![1, 2]);
    let bytes = framed("{\"status_message\":\"m\",\"status_code\":\"Empty\",\"body\":[]}");
    let (response, _) = read_response(&bytes).expect("readable");
    assert_eq!(response.status_code, ResponseCodes::Empty);
    assert_eq!(response.status_message, "m");
    assert!(response.body.is_empty());
}

#[test]
fn a_short_read_is_an_error() {
    let request = Request { request_type: RequestTypes::GetRepos, body: vec![1, 2, 3] };
    let bytes = send_request(&request).expect("writable");
    for cut in 0..bytes.len() {
        assert_eq!(read_request(&bytes[..cut]).err(), Some(MessageError::Short));
        assert_eq!(read_response(&bytes[..cut]).err(), Some(MessageError::Short));
    }
}

#[test]
fn what_is_no_message_is_refused() {
    for text in [
        "",
        "not json",
        "[1,2]",
        "{}",
        "{\"request_type\":\"GetRepos\"}",
        "{\"body\":[]}",
        "{\"request_type\":7,\"body\":[]}",
        "{\"request_type\":\"GetRepos\",\"body\":\"text\"}",
        "{\"request_type\":\"GetRepos\",\"body\":[256]}",
        "{\"request_type\":\"GetRepos\",\"body\":[-1]}",
    ] {
        assert_eq!(read_request(&framed(text)).err(), Some(MessageError::Malformed), "{}", text);
    }
    for text in [
        "{}",
        "{\"status_code\":\"OK\",\"body\":[]}",
        "{\"status_code\":\"OK\",\"status_message\":\"m\"}",
        "{\"status_code\":\"OK\",\"status_message\":1,\"body\":[]}",
        "{\"request_type\":\"GetRepos\",\"body\":[]}",
    ] {
        assert_eq!(read_response(&framed(text)).err(), Some(MessageError::Malformed), "{}", text);
    }
}

#[test]
fn unknown_names_are_refused() {
    let bytes = framed("{\"request_type\":\"StartStream\",\"body\":[]}");
    assert_eq!(read_request(&bytes).err(), Some(MessageError::UnknownName));
    let bytes = framed("{\"request_type\":\"getrepos\",\"body\":[]}");
    assert_eq!(read_request(&bytes).err(), Some(MessageError::UnknownName));
    let bytes = framed("{\"status_code\":\"Not Found\",\"status_message\":\"\",\"body\":[]}");
    assert_eq!(read_response(&bytes).err(), Some(MessageError::UnknownName));
}

#[test]
fn texts_are_framed_or_refused() {
    assert_eq!(frame_text(None).err(), Some(MessageError::Unwritable));
    assert_eq!(frame_text(Some(vec![1, 2])), Ok(vec![0, 0, 0, 2, 1, 2]));
    assert_eq!(frame_text(Some(Vec::new())), Ok(vec![0, 0, 0, 0]));
}

#[test]
fn messages_are_made_of_what_a_text_holds() {
    assert_eq!(request_from(None).err(), Some(MessageError::Malformed));
    assert_eq!(
        request_from(Some(("Nothing".to_string(), Vec::new()))).err(),
        Some(MessageError::UnknownName)
    );
    let request = request_from(Some(("SetStoragePath".to_string(), vec![47]))).expect("known");
    assert_eq!(request.request_type, RequestTypes::SetStoragePath);
    assert_eq!(request.body, vec![47]);
    assert_eq!(response_from(None).err(), Some(MessageError::Malformed));
    assert_eq!(
        response_from(Some(("ok".to_string(), String::new(), Vec::new()))).err(),
        Some(MessageError::UnknownName)
    );
    let response =
        response_from(Some(("Duplicate".to_string(), "Err".to_string(), vec![1]))).expect("known");
    assert_eq!(response.status_code, ResponseCodes::Duplicate);
    assert_eq!(response.status_message, "Err");
    assert_eq!(response.body, vec![1]);
}
