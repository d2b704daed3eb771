//! Model-facing data: chat messages, provider selection, and the provider-neutral
//! parts of the OpenAI and Ollama clients (endpoint text, headers, message lists).
use vstd::prelude::*;

use crate::text::{
    ascii_lower, ascii_upper, lemma_lower_ignores_case, chars_eq, chars_of, concat2, concat3, concat4, copy_str, string_of, string_of_range,
    strip_all_suffix_char, to_ascii_lowercase,
};
use crate::types::HatchError;

verus! {

/// Role of a chat message.
#[derive(Debug, Clone, Copy, PartialEq, Eq, Structural)]
pub enum MessageRole {
    /// System instruction.
    System,
    /// User message.
    User,
    /// Assistant reply.
    Assistant,
}

/// A single chat turn for completion APIs.
#[derive(Debug, Clone)]
pub struct Message {
    /// Role of this message.
    pub role: MessageRole,
    /// Message body.
    pub content: String,
}

/// Response from a non-streaming completion.
#[derive(Debug, Clone)]
pub struct CompletionResponse {
    /// Aggregated text content.
    pub content: String,
    /// Model that served the request, if returned by the provider.
    pub model: Option<String>,
}

/// Which backend to construct from environment defaults.
#[derive(Debug, Clone, Copy, PartialEq, Eq, Structural)]
pub enum LlmProviderKind {
    /// OpenAI HTTPS API (`api.openai.com`).
    Openai,
    /// Local Ollama HTTP API (default `http://127.0.0.1:11434`).
    Ollama,
}

/// The error text for a provider name that is neither `openai` nor `ollama`.
pub open spec fn unknown_provider_text(lowered: Seq<char>) -> Seq<char> {
    "unknown LLM provider '"@ + lowered + "', expected openai|ollama"@
}

/// What `LlmProviderKind::parse` returns for `s`.
pub open spec fn parsed_provider(s: Seq<char>) -> Result<LlmProviderKind, Seq<char>> {
    if ascii_lower(s) == "openai"@ {
        Ok(LlmProviderKind::Openai)
    } else if ascii_lower(s) == "ollama"@ {
        Ok(LlmProviderKind::Ollama)
    } else {
        Err(unknown_provider_text(ascii_lower(s)))
    }
}

impl LlmProviderKind {
    /// Parses `openai` or `ollama` (case-insensitive).
    pub fn parse(s: &str) -> (r: Result<Self, HatchError>)
        ensures
            match parsed_provider(s@) {
                Ok(k) => r == Ok::<Self, HatchError>(k),
                Err(m) => r matches Err(HatchError::Config(e)) && e@ == m,
            },
    {
        let lowered = to_ascii_lowercase(s);
        let openai = chars_of("openai");
        let ollama = chars_of("ollama");
        if chars_eq(&lowered, &openai) {
            Ok(LlmProviderKind::Openai)
        } else if chars_eq(&lowered, &ollama) {
            Ok(LlmProviderKind::Ollama)
        } else {
            let other = string_of(&lowered);
            Err(
                HatchError::Config(
                    concat3(
                        "unknown LLM provider '",
                        other.as_str(),
                        "', expected openai|ollama",
                    ),
                ),
            )
        }
    }
}

/// Law: ASCII case never changes what a provider name parses to: the name, its
/// uppercase and its lowercase give the same backend, or the same error; and only
/// a six-letter name parses.
pub proof fn law_provider_parse_ignores_case(s: Seq<char>)
    ensures
        parsed_provider(ascii_upper(s)) == parsed_provider(s),
        parsed_provider(ascii_lower(s)) == parsed_provider(s),
        parsed_provider(s) is Ok ==> s.len() == 6,
{
    lemma_lower_ignores_case(s);
    lemma_lower_ignores_case(ascii_upper(s));
    reveal_strlit("openai");
    reveal_strlit("ollama");
}

/// Name of a role in provider wire formats.
pub open spec fn role_text(role: MessageRole) -> Seq<char> {
    match role {
        MessageRole::System => "system"@,
        MessageRole::User => "user"@,
        MessageRole::Assistant => "assistant"@,
    }
}

/// Name of a role in provider wire formats (`system`, `user`, `assistant`).
pub fn role_name(role: MessageRole) -> (r: &'static str)
    ensures
        r@ == role_text(role),
{
    match role {
        MessageRole::System => "system",
        MessageRole::User => "user",
        MessageRole::Assistant => "assistant",
    }
}

/// The `(role, content)` pairs sent to a provider: the optional system text first,
/// then every conversation message in order.
pub open spec fn wire_messages(system: Option<Seq<char>>, messages: Seq<Message>) -> Seq<
    (Seq<char>, Seq<char>),
> {
    let head: Seq<(Seq<char>, Seq<char>)> = match system {
        Some(s) => seq![("system"@, s)],
        None => Seq::empty(),
    };
    head + messages.map_values(|m: Message| (role_text(m.role), m.content@))
}

/// Builds the message list of a chat request as `(role, content)` pairs.
pub fn build_messages(system: Option<&str>, messages: &[Message]) -> (r: Vec<(String, String)>)
    ensures
        r@.map_values(|p: (String, String)| (p.0@, p.1@)) == wire_messages(
            match system {
                Some(s) => Some(s@),
                None => None,
            },
            messages@,
        ),
{
    let mut out: Vec<(String, String)> = Vec::new();
    let ghost head: Seq<(Seq<char>, Seq<char>)> = match system {
        Some(s) => seq![("system"@, s@)],
        None => Seq::empty(),
    };
    match system {
        Some(s) => {
            out.push((copy_str("system"), copy_str(s)));
        },
        None => {},
    }
    assert(out@.map_values(|p: (String, String)| (p.0@, p.1@)) =~= head);
    let mut i: usize = 0;
    while i < messages.len()
        invariant
            i <= messages.len(),
            out@.map_values(|p: (String, String)| (p.0@, p.1@)) == head + messages@.take(
                i as int,
            ).map_values(|m: Message| (role_text(m.role), m.content@)),
        decreases messages.len() - i,
    {
        let m = &messages[i];
        let ghost before = out@;
        let pair = (copy_str(role_name(m.role)), copy_str(m.content.as_str()));
        out.push(pair);
        proof {
            let f = |p: (String, String)| (p.0@, p.1@);
            let g = |m: Message| (role_text(m.role), m.content@);
            assert(out@.map_values(f) =~= before.map_values(f).push(f(pair)));
            assert(messages@.take(i + 1).map_values(g) =~= messages@.take(i as int).map_values(
                g,
            ).push(g(messages@[i as int])));
        }
        i = i + 1;
    }
    assert(messages@.take(messages.len() as int) =~= messages@);
    out
}

/// Default Ollama API base URL.
pub const DEFAULT_OLLAMA_BASE: &'static str = "http://127.0.0.1:11434";

/// OpenAI chat completions endpoint.
pub const OPENAI_URL: &'static str = "https://api.openai.com/v1/chat/completions";

/// The base URL an Ollama client keeps: the given one without trailing slashes.
pub fn ollama_base_url(base: &str) -> (r: String)
    ensures
        r@ == strip_all_suffix_char(base@, '/'),
{
    let v = chars_of(base);
    let mut end = v.len();
    assert(v@.take(end as int) =~= v@);
    while end > 0 && v[end - 1] == '/'
        invariant
            end <= v.len(),
            strip_all_suffix_char(v@.take(end as int), '/') == strip_all_suffix_char(v@, '/'),
        decreases end,
    {
        assert(v@.take(end as int).drop_last() =~= v@.take(end - 1));
        end = end - 1;
    }
    assert(v@.take(v.len() as int) =~= v@);
    assert(v@.take(end as int) =~= v@.subrange(0, end as int));
    string_of_range(&v, 0, end)
}

/// The chat endpoint of an Ollama server with the given base URL.
pub fn ollama_chat_url(base_url: &str) -> (r: String)
    ensures
        r@ == base_url@ + "/api/chat"@,
{
    concat2(base_url, "/api/chat")
}

/// The `Authorization` header value for an OpenAI API key.
pub fn bearer_value(api_key: &str) -> (r: String)
    ensures
        r@ == "Bearer "@ + api_key@,
{
    concat2("Bearer ", api_key)
}

/// The backend named by the `HATCH_DEFAULT_PROVIDER` setting, `openai` when unset.
pub fn provider_setting(value: Option<&str>) -> (r: Result<LlmProviderKind, HatchError>)
    ensures
        match parsed_provider(
            match value {
                Some(v) => v@,
                None => "openai"@,
            },
        ) {
            Ok(k) => r == Ok::<LlmProviderKind, HatchError>(k),
            Err(m) => r matches Err(HatchError::Config(e)) && e@ == m,
        },
{
    match value {
        Some(v) => LlmProviderKind::parse(v),
        None => LlmProviderKind::parse("openai"),
    }
}

/// The backend to use: the one asked for on the command line, else the setting's.
pub fn choose_provider(asked: Option<LlmProviderKind>, setting: Option<&str>) -> (r: Result<
    LlmProviderKind,
    HatchError,
>)
    ensures
        asked is Some ==> r == Ok::<LlmProviderKind, HatchError>(asked->0),
        asked is None ==> match parsed_provider(
            match setting {
                Some(v) => v@,
                None => "openai"@,
            },
        ) {
            Ok(k) => r == Ok::<LlmProviderKind, HatchError>(k),
            Err(m) => r matches Err(HatchError::Config(e)) && e@ == m,
        },
{
    match asked {
        Some(k) => Ok(k),
        None => provider_setting(setting),
    }
}

/// The error when the OpenAI key is not configured.
pub fn missing_api_key() -> (r: HatchError)
    ensures
        r matches HatchError::Config(m) && m@ == "OPENAI_API_KEY is not set"@,
{
    HatchError::Config(copy_str("OPENAI_API_KEY is not set"))
}

/// The error for a reply with a failing HTTP status: `<provider> HTTP <status>: <body>`.
pub fn http_status_error(provider: &str, status: &str, body: &str) -> (r: HatchError)
    ensures
        r matches HatchError::Llm(m) && m@ == provider@ + " HTTP "@ + status@ + ": "@ + body@,
{
    let mut m = concat4(provider, " HTTP ", status, ": ");
    m.append(body);
    HatchError::Llm(m)
}

/// An OpenAI completion from the reply's `choices[0].message.content` and `model`
/// strings; a reply without the content is an error.
pub fn openai_reply(content: Option<String>, model: Option<String>) -> (r: Result<CompletionResponse, HatchError>)
    ensures
        match content {
            Some(c) => r matches Ok(resp) && resp.content@ == c@ && resp.model == model,
            None => r matches Err(HatchError::Llm(m)) && m@
                == "OpenAI missing choices[0].message.content"@,
        },
{
    match content {
        Some(c) => Ok(CompletionResponse { content: c, model }),
        None => Err(HatchError::Llm(copy_str("OpenAI missing choices[0].message.content"))),
    }
}

/// An Ollama completion: the reply's message content, under the model asked for.
pub fn ollama_reply(content: String, model: String) -> (r: CompletionResponse)
    ensures
        r.content == content,
        r.model == Some(model),
{
    CompletionResponse { content, model: Some(model) }
}

} // verus!
