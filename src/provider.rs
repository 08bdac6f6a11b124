//! The provider kinds: the request each one is sent, and how each one's
//! answer or failure becomes fragments or an error.

use vstd::prelude::*;
use crate::json::{array_at, array_in, is_json, json_document, string_at, string_in};
use crate::stream::{non_empty, texts};
use crate::text::{chars_of, concat, decimal, decimal_exec, extend, string_of};

verus! {

/// The providers that a request can go to.
#[derive(Clone, Copy, Debug, PartialEq, Eq, Structural)]
pub enum ProviderKind {
    /// An OpenAI-compatible endpoint, answering with a stream of events.
    OpenAI,
    /// An Anthropic messages endpoint, answering with one JSON document.
    Claude,
    /// The Zhipu endpoint, answering with a stream of events.
    Zhipu,
}

/// What a request needs of a provider's settings, sampling values aside.
#[derive(Clone, Debug)]
pub struct ProviderSettings {
    pub base_url: String,
    pub default_model: String,
    pub token: String,
    pub max_tokens: u32,
}

/// What is sent to a provider: where, with which headers, and what the JSON
/// body holds. The sampling values themselves come from the caller's settings.
#[derive(Clone, Debug)]
pub struct RequestPlan {
    pub url: String,
    pub headers: Vec<(String, String)>,
    pub model: String,
    /// The turns of the conversation, as (role, content).
    pub messages: Vec<(String, String)>,
    pub max_tokens: u32,
    /// The body asks for a stream of events.
    pub stream: bool,
    /// The body holds the temperature.
    pub sends_temperature: bool,
    /// The body holds the nucleus-sampling value.
    pub sends_top_p: bool,
}

/// Why a request failed.
#[derive(Clone, Debug, PartialEq, Eq)]
pub enum AdapterError {
    /// The request could not be sent, or its answer not read.
    Transport { message: String },
    /// The provider answered with a status outside 200 to 299; `detail` is
    /// the provider's own account of it, where its convention is known.
    Status { status: u16, detail: Option<String> },
    /// The provider answered with an error document.
    Api { message: String },
    /// The provider's answer is not a JSON document.
    MalformedBody,
}

impl AdapterError {
    /// A line that tells what went wrong.
    pub fn describe(&self) -> (r: String)
        ensures
            self matches AdapterError::Transport { message } ==> r@ == "Transport error: "@
                + message@,
            self matches AdapterError::Status { status, detail: Some(m) } ==> r@
                == "Received error response: "@ + decimal(status as nat) + ": "@ + m@,
            self matches AdapterError::Status { status, detail: None } ==> r@
                == "Received error response: "@ + decimal(status as nat),
            self matches AdapterError::Api { message } ==> r@ == "API error: "@ + message@,
            self matches AdapterError::MalformedBody ==> r@ == "Malformed response body"@,
    {
        match self {
            AdapterError::Transport { message } => concat("Transport error: ", message.as_str()),
            AdapterError::Status { status, detail } => {
                let mut line = chars_of("Received error response: ");
                let number = decimal_exec(*status);
                extend(&mut line, &number);
                if let Some(m) = detail {
                    extend(&mut line, &chars_of(": "));
                    extend(&mut line, &chars_of(m.as_str()));
                }
                string_of(&line)
            },
            AdapterError::Api { message } => concat("API error: ", message.as_str()),
            AdapterError::MalformedBody => String::from_str("Malformed response body"),
        }
    }
}

/// The views of a sequence of string pairs.
pub open spec fn pair_texts(v: Seq<(String, String)>) -> Seq<(Seq<char>, Seq<char>)> {
    v.map_values(|h: (String, String)| (h.0@, h.1@))
}

pub open spec fn plan_url(kind: ProviderKind, base_url: Seq<char>) -> Seq<char> {
    match kind {
        ProviderKind::OpenAI => base_url + "/chat/completions"@,
        ProviderKind::Claude => base_url + "/messages"@,
        ProviderKind::Zhipu => "https://open.bigmodel.cn/api/paas/v4/chat/completions"@,
    }
}

pub open spec fn plan_headers(kind: ProviderKind, token: Seq<char>) -> Seq<(Seq<char>, Seq<char>)> {
    match kind {
        ProviderKind::Claude => seq![
            ("Content-Type"@, "application/json"@),
            ("x-api-key"@, token),
            ("anthropic-version"@, "2023-06-01"@),
        ],
        _ => seq![("Content-Type"@, "application/json"@), ("Authorization"@, "Bearer "@ + token)],
    }
}

pub open spec fn plan_messages(kind: ProviderKind, prompt: Seq<char>) -> Seq<(Seq<char>, Seq<char>)> {
    match kind {
        ProviderKind::OpenAI => seq![
            ("system"@, "You are a helpful assistant."@),
            ("user"@, prompt),
        ],
        _ => seq![("user"@, prompt)],
    }
}

/// Whether a provider answers with a stream of events.
pub open spec fn streams(kind: ProviderKind) -> bool {
    kind != ProviderKind::Claude
}

/// The request that a prompt is sent as to a provider of the given kind.
pub fn request_plan(kind: ProviderKind, settings: &ProviderSettings, prompt: &str) -> (r:
    RequestPlan)
    ensures
        r.url@ == plan_url(kind, settings.base_url@),
        pair_texts(r.headers@) == plan_headers(kind, settings.token@),
        r.model@ == settings.default_model@,
        pair_texts(r.messages@) == plan_messages(kind, prompt@),
        r.max_tokens == settings.max_tokens,
        r.stream == streams(kind),
        r.sends_temperature == streams(kind),
        r.sends_top_p == (kind == ProviderKind::OpenAI),
{
    let url = match kind {
        ProviderKind::OpenAI => concat(settings.base_url.as_str(), "/chat/completions"),
        ProviderKind::Claude => concat(settings.base_url.as_str(), "/messages"),
        ProviderKind::Zhipu => String::from_str(
            "https://open.bigmodel.cn/api/paas/v4/chat/completions",
        ),
    };
    let mut headers: Vec<(String, String)> = Vec::new();
    headers.push((String::from_str("Content-Type"), String::from_str("application/json")));
    match kind {
        ProviderKind::Claude => {
            headers.push((String::from_str("x-api-key"), settings.token.clone()));
            headers.push(
                (String::from_str("anthropic-version"), String::from_str("2023-06-01")),
            );
        },
        _ => {
            headers.push(
                (String::from_str("Authorization"), concat("Bearer ", settings.token.as_str())),
            );
        },
    }
    let mut messages: Vec<(String, String)> = Vec::new();
    if kind == ProviderKind::OpenAI {
        messages.push(
            (String::from_str("system"), String::from_str("You are a helpful assistant.")),
        );
    }
    messages.push((String::from_str("user"), String::from_str(prompt)));
    assert(pair_texts(headers@) =~= plan_headers(kind, settings.token@));
    assert(pair_texts(messages@) =~= plan_messages(kind, prompt@));
    RequestPlan {
        url,
        headers,
        model: settings.default_model.clone(),
        messages,
        max_tokens: settings.max_tokens,
        stream: kind != ProviderKind::Claude,
        sends_temperature: kind != ProviderKind::Claude,
        sends_top_p: kind == ProviderKind::OpenAI,
    }
}

/// `o`'s text, or `d` where there is none.
pub open spec fn text_or(o: Option<Seq<char>>, d: Seq<char>) -> Seq<char> {
    match o {
        Some(t) => t,
        None => d,
    }
}

/// The view of an optional string.
pub open spec fn viewed(o: Option<String>) -> Option<Seq<char>> {
    match o {
        Some(t) => Some(t@),
        None => None,
    }
}

/// A status from 200 to 299, as `StatusCode::is_success` has it.
pub open spec fn success(status: u16) -> bool {
    200 <= status <= 299
}

/// The account of a failure that an OpenAI-compatible error document gives:
/// its `error.message`, where that is a string, else a line that says the
/// document is not JSON or not in the expected shape.
pub open spec fn openai_error_text(body: Seq<char>) -> Seq<char> {
    match json_document(body) {
        None => "Received an error, but failed to parse the response."@,
        Some(_) => match string_at(body, "/error/message"@) {
            Some(m) => "Error: "@ + m,
            None => "Received an error, but the response format is unexpected."@,
        },
    }
}

/// The text of a messages-endpoint answer: `content[0].text` where the
/// content is an array and a string stands there, else empty.
pub open spec fn reply_text(body: Seq<char>) -> Seq<char> {
    if array_at(body, "/content"@) {
        text_or(string_at(body, "/content/0/text"@), Seq::empty())
    } else {
        Seq::empty()
    }
}

/// Whether the status tells of success.
pub fn is_success(status: u16) -> (r: bool)
    ensures
        r == success(status),
{
    200 <= status && status <= 299
}

/// The account of a failure, from the string that an error document holds
/// under `/error/message`, if any.
pub fn error_report(message: Option<String>) -> (r: String)
    ensures
        message matches Some(m) ==> r@ == "Error: "@ + m@,
        message is None ==> r@ == "Received an error, but the response format is unexpected."@,
{
    match message {
        Some(m) => concat("Error: ", m.as_str()),
        None => String::from_str("Received an error, but the response format is unexpected."),
    }
}

/// The account of a failure that an OpenAI-compatible error document gives:
/// its `error.message`, or a line that says the document lacks it.
pub fn process_openai_error_response(error_response: String) -> (r: String)
    ensures
        r@ == openai_error_text(error_response@),
{
    let body = error_response.as_str();
    if !is_json(body) {
        return String::from_str("Received an error, but failed to parse the response.");
    }
    error_report(string_in(body, "/error/message"))
}

/// The error that a provider's answer with the given status stands for:
/// none for a success, else the status with, for an OpenAI-compatible
/// provider, the account that its error document gives.
pub fn status_failure(kind: ProviderKind, status: u16, body: &str) -> (r: Option<AdapterError>)
    ensures
        success(status) ==> r is None,
        !success(status) && kind == ProviderKind::OpenAI ==> (r matches Some(
            AdapterError::Status { status: s, detail: Some(m) },
        ) && s == status && m@ == openai_error_text(body@)),
        !success(status) && kind != ProviderKind::OpenAI ==> r == Some(
            AdapterError::Status { status, detail: None },
        ),
{
    if is_success(status) {
        None
    } else if kind == ProviderKind::OpenAI {
        let message = process_openai_error_response(String::from_str(body));
        Some(AdapterError::Status { status, detail: Some(message) })
    } else {
        Some(AdapterError::Status { status, detail: None })
    }
}

/// A messages-endpoint answer, from what its document holds under `/type`,
/// `/error/message` and `/content/0/text` (each where a string stands
/// there): an error where the type is `error`, else the text as the one
/// fragment, or no fragment where it is missing or empty.
pub fn claude_outcome(kind: Option<String>, message: Option<String>, text: Option<String>) -> (r:
    Result<Vec<String>, AdapterError>)
    ensures
        (kind matches Some(k) && k@ == "error"@) ==> (r matches Err(AdapterError::Api { message: m })
            && m@ == text_or(viewed(message), "Unknown error"@)),
        !(kind matches Some(k) && k@ == "error"@) ==> (r matches Ok(v) && texts(v@) == non_empty(
            seq![text_or(viewed(text), Seq::empty())],
        )),
{
    let is_error = match &kind {
        Some(k) => {
            let e = String::from_str("error");
            k.eq(&e)
        },
        None => false,
    };
    if is_error {
        let m = match message {
            Some(m) => m,
            None => String::from_str("Unknown error"),
        };
        Err(AdapterError::Api { message: m })
    } else {
        let t = match text {
            Some(t) => t,
            None => String::new(),
        };
        let ghost single = seq![text_or(viewed(text), Seq::empty())];
        let mut v: Vec<String> = Vec::new();
        assert(single.drop_last() =~= Seq::<Seq<char>>::empty());
        assert(non_empty(Seq::<Seq<char>>::empty()) == Seq::<Seq<char>>::empty());
        if !t.as_str().is_empty() {
            v.push(t);
            assert(texts(v@) =~= non_empty(single));
        } else {
            assert(texts(v@) =~= non_empty(single));
        }
        Ok(v)
    }
}

/// The fragments of a messages-endpoint answer: an error for a status outside
/// 200 to 299, for a body that is not JSON, or for an error document; else
/// `content[0].text` as the one fragment, or no fragment where it is
/// missing or empty.
pub fn claude_reply(status: u16, body: &str) -> (r: Result<Vec<String>, AdapterError>)
    ensures
        !success(status) ==> r == Err::<Vec<String>, AdapterError>(
            AdapterError::Status { status, detail: None },
        ),
        success(status) && json_document(body@) is None ==> r == Err::<Vec<String>, AdapterError>(
            AdapterError::MalformedBody,
        ),
        success(status) && json_document(body@) is Some && string_at(body@, "/type"@) == Some(
            "error"@,
        ) ==> (r matches Err(AdapterError::Api { message: m }) && m@ == text_or(
            string_at(body@, "/error/message"@),
            "Unknown error"@,
        )),
        success(status) && json_document(body@) is Some && string_at(body@, "/type"@) != Some(
            "error"@,
        ) ==> (r matches Ok(v) && texts(v@) == non_empty(seq![reply_text(body@)])),
{
    if !is_success(status) {
        return Err(AdapterError::Status { status, detail: None });
    }
    if !is_json(body) {
        return Err(AdapterError::MalformedBody);
    }
    let text = if array_in(body, "/content") {
        string_in(body, "/content/0/text")
    } else {
        None
    };
    claude_outcome(string_in(body, "/type"), string_in(body, "/error/message"), text)
}

} // verus!
