//! The messages of the control channel: requests, responses, and the names
//! under which their kinds travel.

use vstd::prelude::*;
use crate::text::same_text;

verus! {

/// How a request ended.
#[derive(Clone, Copy, Debug, PartialEq, Eq, Structural)]
pub enum ResponseCodes {
    OK,
    NotFound,
    Empty,
    NotConnected,
    InternalError,
    Duplicate,
}

/// What a request asks for.
#[derive(Clone, Copy, Debug, PartialEq, Eq, Structural)]
pub enum RequestTypes {
    GetRepos,
    CreateRepo,
    RemoveRepository,
    SetStoragePath,
    StartBatchProcessor,
    EndBatchProcessor,
    GetRepoTree,
}

impl ResponseCodes {
    /// The name under which the code travels.
    pub open spec fn name_text(self) -> Seq<char> {
        match self {
            ResponseCodes::OK => "OK"@,
            ResponseCodes::NotFound => "NotFound"@,
            ResponseCodes::Empty => "Empty"@,
            ResponseCodes::NotConnected => "NotConnected"@,
            ResponseCodes::InternalError => "InternalError"@,
            ResponseCodes::Duplicate => "Duplicate"@,
        }
    }

    /// The code that travels under `name`, if there is one.
    pub open spec fn named(name: Seq<char>) -> Option<ResponseCodes> {
        if name == "OK"@ {
            Some(ResponseCodes::OK)
        } else if name == "NotFound"@ {
            Some(ResponseCodes::NotFound)
        } else if name == "Empty"@ {
            Some(ResponseCodes::Empty)
        } else if name == "NotConnected"@ {
            Some(ResponseCodes::NotConnected)
        } else if name == "InternalError"@ {
            Some(ResponseCodes::InternalError)
        } else if name == "Duplicate"@ {
            Some(ResponseCodes::Duplicate)
        } else {
            None
        }
    }

    /// The code as a reader is shown it.
    pub open spec fn label_text(self) -> Seq<char> {
        match self {
            ResponseCodes::OK => "OK"@,
            ResponseCodes::NotFound => "Not Found"@,
            ResponseCodes::Empty => "Empty"@,
            ResponseCodes::NotConnected => "Not Connected"@,
            ResponseCodes::InternalError => "Internal Server Error"@,
            ResponseCodes::Duplicate => "Duplicate"@,
        }
    }

    /// The name under which the code travels.
    pub fn name(&self) -> (name: &'static str)
        ensures
            name@ == self.name_text(),
    {
        match self {
            ResponseCodes::OK => "OK",
            ResponseCodes::NotFound => "NotFound",
            ResponseCodes::Empty => "Empty",
            ResponseCodes::NotConnected => "NotConnected",
            ResponseCodes::InternalError => "InternalError",
            ResponseCodes::Duplicate => "Duplicate",
        }
    }

    /// The code that travels under `name`, if there is one.
    pub fn from_name(name: &str) -> (code: Option<ResponseCodes>)
        ensures
            code == Self::named(name@),
    {
        if same_text(name, "OK") {
            Some(ResponseCodes::OK)
        } else if same_text(name, "NotFound") {
            Some(ResponseCodes::NotFound)
        } else if same_text(name, "Empty") {
            Some(ResponseCodes::Empty)
        } else if same_text(name, "NotConnected") {
            Some(ResponseCodes::NotConnected)
        } else if same_text(name, "InternalError") {
            Some(ResponseCodes::InternalError)
        } else if same_text(name, "Duplicate") {
            Some(ResponseCodes::Duplicate)
        } else {
            None
        }
    }

    /// The code as a reader is shown it.
    pub fn label(&self) -> (label: &'static str)
        ensures
            label@ == self.label_text(),
    {
        match self {
            ResponseCodes::OK => "OK",
            ResponseCodes::NotFound => "Not Found",
            ResponseCodes::Empty => "Empty",
            ResponseCodes::NotConnected => "Not Connected",
            ResponseCodes::InternalError => "Internal Server Error",
            ResponseCodes::Duplicate => "Duplicate",
        }
    }
}

impl RequestTypes {
    /// The name under which the kind travels.
    pub open spec fn name_text(self) -> Seq<char> {
        match self {
            RequestTypes::GetRepos => "GetRepos"@,
            RequestTypes::CreateRepo => "CreateRepo"@,
            RequestTypes::RemoveRepository => "RemoveRepository"@,
            RequestTypes::SetStoragePath => "SetStoragePath"@,
            RequestTypes::StartBatchProcessor => "StartBatchProcessor"@,
            RequestTypes::EndBatchProcessor => "EndBatchProcessor"@,
            RequestTypes::GetRepoTree => "GetRepoTree"@,
        }
    }

    /// The kind that travels under `name`, if there is one.
    pub open spec fn named(name: Seq<char>) -> Option<RequestTypes> {
        if name == "GetRepos"@ {
            Some(RequestTypes::GetRepos)
        } else if name == "CreateRepo"@ {
            Some(RequestTypes::CreateRepo)
        } else if name == "RemoveRepository"@ {
            Some(RequestTypes::RemoveRepository)
        } else if name == "SetStoragePath"@ {
            Some(RequestTypes::SetStoragePath)
        } else if name == "StartBatchProcessor"@ {
            Some(RequestTypes::StartBatchProcessor)
        } else if name == "EndBatchProcessor"@ {
            Some(RequestTypes::EndBatchProcessor)
        } else if name == "GetRepoTree"@ {
            Some(RequestTypes::GetRepoTree)
        } else {
            None
        }
    }

    /// The name under which the kind travels.
    pub fn name(&self) -> (name: &'static str)
        ensures
            name@ == self.name_text(),
    {
        match self {
            RequestTypes::GetRepos => "GetRepos",
            RequestTypes::CreateRepo => "CreateRepo",
            RequestTypes::RemoveRepository => "RemoveRepository",
            RequestTypes::SetStoragePath => "SetStoragePath",
            RequestTypes::StartBatchProcessor => "StartBatchProcessor",
            RequestTypes::EndBatchProcessor => "EndBatchProcessor",
            RequestTypes::GetRepoTree => "GetRepoTree",
        }
    }

    /// The kind that travels under `name`, if there is one.
    pub fn from_name(name: &str) -> (kind: Option<RequestTypes>)
        ensures
            kind == Self::named(name@),
    {
        if same_text(name, "GetRepos") {
            Some(RequestTypes::GetRepos)
        } else if same_text(name, "CreateRepo") {
            Some(RequestTypes::CreateRepo)
        } else if same_text(name, "RemoveRepository") {
            Some(RequestTypes::RemoveRepository)
        } else if same_text(name, "SetStoragePath") {
            Some(RequestTypes::SetStoragePath)
        } else if same_text(name, "StartBatchProcessor") {
            Some(RequestTypes::StartBatchProcessor)
        } else if same_text(name, "EndBatchProcessor") {
            Some(RequestTypes::EndBatchProcessor)
        } else if same_text(name, "GetRepoTree") {
            Some(RequestTypes::GetRepoTree)
        } else {
            None
        }
    }
}

/// A status code read back from its name is the code.
pub proof fn law_status_name_round_trip(code: ResponseCodes)
    ensures
        ResponseCodes::named(code.name_text()) == Some(code),
{
    reveal_strlit("OK");
    reveal_strlit("NotFound");
    reveal_strlit("Empty");
    reveal_strlit("NotConnected");
    reveal_strlit("InternalError");
    reveal_strlit("Duplicate");
    assert("OK"@.len() == 2 && "NotFound"@.len() == 8 && "Empty"@.len() == 5);
    assert("NotConnected"@.len() == 12 && "InternalError"@.len() == 13 && "Duplicate"@.len() == 9);
}

/// A request kind read back from its name is the kind.
pub proof fn law_request_name_round_trip(kind: RequestTypes)
    ensures
        RequestTypes::named(kind.name_text()) == Some(kind),
{
    reveal_strlit("GetRepos");
    reveal_strlit("CreateRepo");
    reveal_strlit("RemoveRepository");
    reveal_strlit("SetStoragePath");
    reveal_strlit("StartBatchProcessor");
    reveal_strlit("EndBatchProcessor");
    reveal_strlit("GetRepoTree");
    assert("GetRepos"@.len() == 8 && "CreateRepo"@.len() == 10 && "RemoveRepository"@.len() == 16);
    assert("SetStoragePath"@.len() == 14 && "StartBatchProcessor"@.len() == 19);
    assert("EndBatchProcessor"@.len() == 17 && "GetRepoTree"@.len() == 11);
}

/// One request on the control channel.
pub struct Request {
    pub request_type: RequestTypes,
    pub body: Vec<u8>,
}

/// One response on the control channel.
pub struct Response {
    pub status_code: ResponseCodes,
    pub status_message: String,
    pub body: Vec<u8>,
}

/// A request as a value.
pub struct RequestView {
    pub request_type: RequestTypes,
    pub body: Seq<u8>,
}

/// A response as a value.
pub struct ResponseView {
    pub status_code: ResponseCodes,
    pub status_message: Seq<char>,
    pub body: Seq<u8>,
}

impl View for Request {
    type V = RequestView;

    open spec fn view(&self) -> RequestView {
        RequestView { request_type: self.request_type, body: self.body@ }
    }
}

impl View for Response {
    type V = ResponseView;

    open spec fn view(&self) -> ResponseView {
        ResponseView {
            status_code: self.status_code,
            status_message: self.status_message@,
            body: self.body@,
        }
    }
}

/// A response with a text as its body.
pub open spec fn text_response(code: ResponseCodes, message: Seq<char>, body: Seq<char>) -> ResponseView {
    ResponseView { status_code: code, status_message: message, body: vstd::utf8::encode_utf8(body) }
}

impl Response {
    /// The response with `body` as its text.
    pub fn with_text(code: ResponseCodes, message: &str, body: &str) -> (response: Response)
        ensures
            response@ == text_response(code, message@, body@),
    {
        Response {
            status_code: code,
            status_message: message.to_owned(),
            body: body.as_bytes_vec(),
        }
    }
}

} // verus!
