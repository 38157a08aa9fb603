//! From an editor's request to the model and back.
use crate::clean::{
    boundaries, clean_completion, cleaned, default_stops, law_cleaned_completion_is_clean,
    stop_texts, StopSequences,
};
use crate::config::Config;
use crate::json::{
    as_number, as_string, error_message, from_text, json_at, json_from_text, json_member,
    json_string, json_text, member, value_at,
};
use crate::number::{decimal, law_parse_inverts_decimal, unsigned};
use crate::fim::unmarked;
use crate::prompt::{
    build_minuet_style_user_prompt, build_system_prompt, cursor_context, language_of,
    law_marked_texts_are_shown, law_unmarked_prompt_is_shown, lowercase, prompt_text,
    SYSTEM_PROMPT,
};
use crate::text::occurs;
use crate::upstream::{is_success, success, UpstreamResponse, JSON_CONTENT_TYPE};
use vstd::prelude::*;
use vstd::string::{StrSliceExecFns, StringSliceAdditionalSpecFns};
use vstd::utf8::encode_utf8;

verus! {

/// What an editor asks for. `N` is the type of the sampling numbers.
#[derive(Debug)]
pub struct CompletionRequest<N> {
    pub model: Option<String>,
    pub prompt: Option<String>,
    pub max_tokens: Option<u64>,
    pub max_output_tokens: Option<u64>,
    pub temperature: Option<N>,
    pub top_p: Option<N>,
    pub top_k: Option<u32>,
    pub stop: Option<StopSequences>,
}

/// A request with everything that it left open filled in.
#[derive(Debug)]
pub struct ResolvedRequest<N> {
    pub model: String,
    pub prompt: String,
    pub max_tokens: u64,
    pub temperature: N,
    pub top_p: N,
    pub top_k: u32,
    pub stop: Option<StopSequences>,
}

/// The text that was given, or else `default`.
pub open spec fn text_or(given: Option<String>, default: Seq<char>) -> Seq<char> {
    match given {
        Some(text) => text@,
        None => default,
    }
}

/// The value that was given, or else `default`.
pub open spec fn value_or<T>(given: Option<T>, default: T) -> T {
    match given {
        Some(value) => value,
        None => default,
    }
}

/// Fills in what a request leaves open: an empty prompt, and for the rest
/// what the configuration says. Of the two limits on the output the first counts.
pub fn resolve_request<N: Copy>(
    request: CompletionRequest<N>,
    config: &Config<N>,
) -> (resolved: ResolvedRequest<N>)
    ensures
        resolved.prompt@ == text_or(request.prompt, Seq::empty()),
        resolved.model@ == text_or(request.model, config.default_model@),
        resolved.max_tokens == value_or(
            request.max_tokens,
            value_or(request.max_output_tokens, config.default_max_tokens),
        ),
        resolved.temperature == value_or(request.temperature, config.default_temperature),
        resolved.top_p == value_or(request.top_p, config.default_top_p),
        resolved.top_k == value_or(request.top_k, config.default_top_k),
        resolved.stop == request.stop,
        request.model matches Some(model) ==> resolved.model@ == model@,
        request.model is None ==> resolved.model@ == config.default_model@,
        request.prompt matches Some(prompt) ==> resolved.prompt@ == prompt@,
        request.prompt is None ==> resolved.prompt@.len() == 0,
        request.max_tokens matches Some(n) ==> resolved.max_tokens == n,
        request.max_tokens is None ==> (request.max_output_tokens matches Some(n)
            ==> resolved.max_tokens == n),
        request.max_tokens is None && request.max_output_tokens is None ==> resolved.max_tokens
            == config.default_max_tokens,
        request.temperature matches Some(n) ==> resolved.temperature == n,
        request.temperature is None ==> resolved.temperature == config.default_temperature,
        request.top_p matches Some(n) ==> resolved.top_p == n,
        request.top_p is None ==> resolved.top_p == config.default_top_p,
        request.top_k matches Some(n) ==> resolved.top_k == n,
        request.top_k is None ==> resolved.top_k == config.default_top_k,
{
    ResolvedRequest {
        model: match request.model {
            Some(model) => model,
            None => config.default_model.clone(),
        },
        prompt: match request.prompt {
            Some(prompt) => prompt,
            None => String::new(),
        },
        max_tokens: match request.max_tokens {
            Some(n) => n,
            None => match request.max_output_tokens {
                Some(n) => n,
                None => config.default_max_tokens,
            },
        },
        temperature: match request.temperature {
            Some(n) => n,
            None => config.default_temperature,
        },
        top_p: match request.top_p {
            Some(n) => n,
            None => config.default_top_p,
        },
        top_k: match request.top_k {
            Some(n) => n,
            None => config.default_top_k,
        },
        stop: request.stop,
    }
}

/// Who says a message.
#[derive(Debug, Clone, Copy, PartialEq, Eq, Structural)]
pub enum Role {
    System,
    User,
}

/// A message to the model.
#[derive(Debug)]
pub struct Message {
    pub role: Role,
    pub content: String,
}

/// What the model is asked.
#[derive(Debug)]
pub struct UpstreamPayload<N> {
    pub model: String,
    pub stream: bool,
    pub messages: Vec<Message>,
    pub max_tokens: u64,
    pub temperature: N,
    pub top_p: N,
    pub top_k: u32,
    /// Reasoning before the answer costs seconds and output that an inline
    /// completion cannot afford.
    pub thinking: bool,
}

/// The message that the model is sent for a prompt.
pub open spec fn user_message<N>(prompt: Seq<char>, config: &Config<N>) -> Seq<char> {
    let max_prefix = (config.max_input_chars / 2) as nat;
    let max_suffix = (config.max_input_chars - config.max_input_chars / 2) as nat;
    let (before, after) = cursor_context(prompt, max_prefix, max_suffix);
    prompt_text(language_of(lowercase(before)), before, after)
}

/// Puts a request to the model: in one piece, without reasoning, with the
/// system message and the rewritten prompt.
pub fn build_upstream_payload<N: Copy>(
    request: &ResolvedRequest<N>,
    config: &Config<N>,
) -> (payload: UpstreamPayload<N>)
    ensures
        payload.model@ == request.model@,
        payload.stream == false,
        payload.thinking == false,
        payload.max_tokens == request.max_tokens,
        payload.temperature == request.temperature,
        payload.top_p == request.top_p,
        payload.top_k == request.top_k,
        payload.messages@.len() == 2,
        payload.messages@[0].role == Role::System,
        payload.messages@[0].content@ == SYSTEM_PROMPT@,
        payload.messages@[1].role == Role::User,
        payload.messages@[1].content@ == user_message(request.prompt@, config),
{
    let (max_prefix_chars, max_suffix_chars) = config.input_limits();
    let user_prompt = build_minuet_style_user_prompt(
        request.prompt.as_str(),
        max_prefix_chars,
        max_suffix_chars,
    );
    let mut messages: Vec<Message> = Vec::new();
    messages.push(Message { role: Role::System, content: build_system_prompt() });
    messages.push(Message { role: Role::User, content: user_prompt });
    UpstreamPayload {
        model: request.model.clone(),
        stream: false,
        messages,
        max_tokens: request.max_tokens,
        temperature: request.temperature,
        top_p: request.top_p,
        top_k: request.top_k,
        thinking: false,
    }
}

/// The tokens that an answer cost.
#[derive(Debug, Clone, Copy, PartialEq, Eq, Structural)]
pub struct Usage {
    pub prompt_tokens: u64,
    pub completion_tokens: u64,
    pub total_tokens: u64,
}

/// What the proxy reads of the model's answer.
#[derive(Debug)]
pub struct UpstreamReply {
    pub content: String,
    pub usage: Usage,
}

/// The completion in an answer; nothing where there is no string in its place.
pub open spec fn content_in(document: Seq<char>) -> Seq<char> {
    match json_at(document, "/choices/0/message/content"@) {
        Some(value) => match json_string(value) {
            Some(content) => content,
            None => Seq::empty(),
        },
        None => Seq::empty(),
    }
}

/// A number of tokens in an answer; zero where there is no unsigned number in its place.
pub open spec fn tokens_in(document: Seq<char>, key: Seq<char>) -> int {
    match json_member(document, "usage"@) {
        Some(usage) => match json_member(usage, key) {
            Some(value) => match unsigned(value, u64::MAX as int) {
                Some(n) => n,
                None => 0,
            },
            None => 0,
        },
        None => 0,
    }
}

/// `usage` is what the document says of the tokens.
pub open spec fn usage_is(document: Seq<char>, usage: Usage) -> bool {
    &&& usage.prompt_tokens == tokens_in(document, "prompt_tokens"@)
    &&& usage.completion_tokens == tokens_in(document, "completion_tokens"@)
    &&& usage.total_tokens == tokens_in(document, "total_tokens"@)
}

/// The document writes `n` as its number of tokens under a name.
pub open spec fn tells_tokens(document: Seq<char>, name: Seq<char>, n: nat) -> bool {
    &&& json_member(document, "usage"@) matches Some(usage)
    &&& json_member(usage, name) == Some(decimal(n))
    &&& n <= u64::MAX
}

proof fn lemma_told_tokens_are_read(document: Seq<char>)
    ensures
        forall|name: Seq<char>, n: nat| #[trigger]
            tells_tokens(document, name, n) ==> tokens_in(document, name) == n,
{
    assert forall|name: Seq<char>, n: nat| #[trigger]
        tells_tokens(document, name, n) implies tokens_in(document, name) == n by {
        law_parse_inverts_decimal(n, u64::MAX as int);
    }
}

fn read_tokens(document: &serde_json::Value, key: &str) -> (tokens: u64)
    ensures
        tokens == tokens_in(json_text(*document), key@),
{
    match member(document, "usage") {
        Some(usage) => match member(usage, key) {
            Some(value) => match as_number(value) {
                Some(n) => n,
                None => 0,
            },
            None => 0,
        },
        None => 0,
    }
}

/// Reads what the proxy needs of the model's answer.
pub fn read_upstream_reply(text: &str) -> (reply: Result<UpstreamReply, String>)
    ensures
        match reply {
            Ok(reply) => json_from_text(text@) matches Ok(document) && reply.content@
                == content_in(document) && usage_is(document, reply.usage),
            Err(message) => json_from_text(text@) == Err::<Seq<char>, Seq<char>>(message@),
        },
        json_from_text(text@) is Ok <==> reply is Ok,
        json_from_text(text@) matches Ok(document) ==> {
            let usage = reply->Ok_0.usage;
            &&& forall|n: nat| #[trigger]
                tells_tokens(document, "prompt_tokens"@, n) ==> usage.prompt_tokens == n
            &&& forall|n: nat| #[trigger]
                tells_tokens(document, "completion_tokens"@, n) ==> usage.completion_tokens == n
            &&& forall|n: nat| #[trigger]
                tells_tokens(document, "total_tokens"@, n) ==> usage.total_tokens == n
        },
{
    let document = match from_text(text) {
        Ok(document) => document,
        Err(error) => return Err(error_message(&error)),
    };
    let content = match value_at(&document, "/choices/0/message/content") {
        Some(value) => match as_string(value) {
            Some(content) => content.to_owned(),
            None => String::new(),
        },
        None => String::new(),
    };
    proof {
        lemma_told_tokens_are_read(json_text(document));
    }
    let usage = Usage {
        prompt_tokens: read_tokens(&document, "prompt_tokens"),
        completion_tokens: read_tokens(&document, "completion_tokens"),
        total_tokens: read_tokens(&document, "total_tokens"),
    };
    Ok(UpstreamReply { content, usage })
}

/// The completion that an editor is sent.
#[derive(Debug)]
pub struct CompletionBody {
    pub id: String,
    pub object: String,
    pub created: u64,
    pub model: String,
    pub text: String,
    pub index: u64,
    pub finish_reason: String,
    pub usage: Usage,
}

/// What the body of a reply holds.
#[derive(Debug)]
pub enum ReplyBody {
    /// A text that is passed on as it is.
    Raw(String),
    /// A completion.
    Completion(CompletionBody),
    /// An error of the proxy, with its message and its type.
    Failure { message: String, kind: String },
    /// A bare error message.
    Refusal(String),
}

/// A reply to an editor.
#[derive(Debug)]
pub struct HttpReply {
    pub status: u16,
    pub content_type: Vec<u8>,
    pub body: ReplyBody,
}

/// A reply whose body is a JSON document.
pub fn json_response(body: ReplyBody, status: u16) -> (reply: HttpReply)
    ensures
        reply.status == status,
        reply.content_type@ == JSON_CONTENT_TYPE.spec_bytes(),
        reply.body == body,
{
    HttpReply { status, content_type: JSON_CONTENT_TYPE.as_bytes_vec(), body }
}

/// The stop sequences that a request names.
pub open spec fn stops_of(stop: Option<StopSequences>) -> Seq<Seq<char>> {
    match stop {
        Some(stop) => stop_texts(Some(&stop)),
        None => stop_texts(None),
    }
}

/// `body` answers a request with the cleaned form of what the model returned.
pub open spec fn completion_is<N>(
    body: CompletionBody,
    content: Seq<char>,
    request: &ResolvedRequest<N>,
    created: u64,
) -> bool {
    &&& body.id@ == "cmpl-minimax-proxy"@
    &&& body.object@ == "text_completion"@
    &&& body.created == created
    &&& body.model@ == request.model@
    &&& body.text@ == cleaned(content, request.prompt@, stops_of(request.stop))
    &&& body.index == 0
    &&& body.finish_reason@ == "stop"@
}

/// Turns what was read of the model's answer into the completion that an
/// editor is sent.
pub fn build_completion<N>(
    reply: UpstreamReply,
    request: &ResolvedRequest<N>,
    created: u64,
) -> (body: CompletionBody)
    ensures
        completion_is(body, reply.content@, request, created),
        body.usage == reply.usage,
{
    let text = clean_completion(
        reply.content.as_str(),
        request.prompt.as_str(),
        request.stop.as_ref(),
    );
    CompletionBody {
        id: "cmpl-minimax-proxy".to_owned(),
        object: "text_completion".to_owned(),
        created,
        model: request.model.clone(),
        text,
        index: 0,
        finish_reason: "stop".to_owned(),
        usage: reply.usage,
    }
}

/// `reply` is what an editor is sent for what the model answered: an answer
/// that reports no success as it is, and of any other the completion.
pub open spec fn answers<N>(
    upstream: UpstreamResponse,
    request: &ResolvedRequest<N>,
    created: u64,
    reply: Result<HttpReply, String>,
) -> bool {
    if !success(upstream.status) {
        &&& reply matches Ok(reply)
        &&& reply.status == upstream.status
        &&& reply.content_type == upstream.content_type
        &&& reply.body == ReplyBody::Raw(upstream.text)
    } else {
        match json_from_text(upstream.text@) {
            Ok(document) => {
                &&& reply matches Ok(reply)
                &&& reply.status == 200
                &&& reply.content_type@ == JSON_CONTENT_TYPE.spec_bytes()
                &&& reply.body matches ReplyBody::Completion(body)
                &&& usage_is(document, body.usage)
                &&& completion_is(body, content_in(document), request, created)
            },
            Err(message) => reply matches Err(error) && error@ == message,
        }
    }
}

/// Turns the model's answer into the reply to an editor.
pub fn answer_completion<N>(
    upstream: UpstreamResponse,
    request: &ResolvedRequest<N>,
    created: u64,
) -> (reply: Result<HttpReply, String>)
    ensures
        answers(upstream, request, created, reply),
{
    if !is_success(upstream.status) {
        return Ok(
            HttpReply {
                status: upstream.status,
                content_type: upstream.content_type,
                body: ReplyBody::Raw(upstream.text),
            },
        );
    }
    match read_upstream_reply(upstream.text.as_str()) {
        Ok(reply) => {
            let body = build_completion(reply, request, created);
            Ok(json_response(ReplyBody::Completion(body), 200))
        },
        Err(message) => Err(message),
    }
}

/// `reply` tells an editor of an error of the proxy.
pub open spec fn reports_failure(reply: HttpReply, message: Seq<char>) -> bool {
    &&& reply.status == 500
    &&& reply.content_type@ == JSON_CONTENT_TYPE.spec_bytes()
    &&& reply.body matches ReplyBody::Failure { message: text, kind }
    &&& text@ == message
    &&& kind@ == "proxy_error"@
}

/// The reply to an editor: what was worked out, or else a report of the error.
pub fn reply_or_failure(result: Result<HttpReply, String>) -> (reply: HttpReply)
    ensures
        match result {
            Ok(worked_out) => reply == worked_out,
            Err(message) => reports_failure(reply, message@),
        },
{
    match result {
        Ok(reply) => reply,
        Err(message) => json_response(
            ReplyBody::Failure { message, kind: "proxy_error".to_owned() },
            500,
        ),
    }
}

/// The reply to a request for anything but completions.
pub fn not_found() -> (reply: HttpReply)
    ensures
        reply.status == 404,
        reply.content_type@ == JSON_CONTENT_TYPE.spec_bytes(),
        reply.body matches ReplyBody::Refusal(message) && message@ == "Not found"@,
{
    json_response(ReplyBody::Refusal("Not found".to_owned()), 404)
}

/// Calls `SystemTime::elapsed` on `UNIX_EPOCH`: the whole seconds since then,
/// or nothing where the clock stands before it. The contract claims nothing:
/// the result depends on the time.
#[verifier::external_body]
fn seconds_since_epoch() -> (seconds: Option<u64>) {
    match std::time::UNIX_EPOCH.elapsed() {
        Ok(elapsed) => Some(elapsed.as_secs()),
        Err(_) => None,
    }
}

/// The time stamp for a reading of the clock: zero for a clock that stands
/// before the epoch.
pub fn timestamp_of(reading: Option<u64>) -> (seconds: u64)
    ensures
        seconds == value_or(reading, 0),
        reading matches Some(n) ==> seconds == n,
        reading is None ==> seconds == 0,
{
    match reading {
        Some(seconds) => seconds,
        None => 0,
    }
}

/// The seconds since the start of 1970, or zero for a clock that stands before
/// it. They depend on the time.
pub fn unix_timestamp_seconds() -> u64 {
    timestamp_of(seconds_since_epoch())
}

/// No completion that an editor is sent holds one of the request's own stop
/// sequences, one of the default ones, or a text behind which nothing belongs
/// to a completion, whatever the model answered.
pub proof fn law_editor_sees_clean_text<N>(
    upstream: UpstreamResponse,
    request: &ResolvedRequest<N>,
    created: u64,
    reply: HttpReply,
    body: CompletionBody,
)
    requires
        answers(upstream, request, created, Ok(reply)),
        reply.body == ReplyBody::Completion(body),
    ensures
        forall|k: int|
            0 <= k < stops_of(request.stop).len() && stops_of(request.stop)[k].len() > 0
                ==> !occurs(body.text@, #[trigger] stops_of(request.stop)[k]),
        forall|k: int|
            0 <= k < default_stops().len() ==> !occurs(
                body.text@,
                #[trigger] default_stops()[k],
            ),
        forall|k: int|
            0 <= k < boundaries().len() ==> !occurs(body.text@, #[trigger] boundaries()[k]),
{
    let document = json_from_text(upstream.text@)->Ok_0;
    law_cleaned_completion_is_clean(
        content_in(document),
        request.prompt@,
        stops_of(request.stop),
    );
}

/// Each count of tokens is the number under its own name in the document,
/// whatever stands under the other names; where there is no such number the
/// count is zero.
pub proof fn law_each_count_is_read_under_its_own_name(
    document: Seq<char>,
    counts: Usage,
    usage: Seq<char>,
    n: nat,
)
    requires
        usage_is(document, counts),
    ensures
        json_member(document, "usage"@) == Some(usage) && n <= u64::MAX ==> {
            &&& json_member(usage, "prompt_tokens"@) == Some(decimal(n)) ==> counts.prompt_tokens
                == n
            &&& json_member(usage, "completion_tokens"@) == Some(decimal(n))
                ==> counts.completion_tokens == n
            &&& json_member(usage, "total_tokens"@) == Some(decimal(n)) ==> counts.total_tokens
                == n
        },
        json_member(document, "usage"@) == Some(usage) ==> {
            &&& json_member(usage, "prompt_tokens"@) is None ==> counts.prompt_tokens == 0
            &&& json_member(usage, "completion_tokens"@) is None ==> counts.completion_tokens == 0
            &&& json_member(usage, "total_tokens"@) is None ==> counts.total_tokens == 0
            &&& json_member(usage, "prompt_tokens"@) matches Some(text) ==> unsigned(
                text,
                u64::MAX as int,
            ) is None ==> counts.prompt_tokens == 0
            &&& json_member(usage, "completion_tokens"@) matches Some(text) ==> unsigned(
                text,
                u64::MAX as int,
            ) is None ==> counts.completion_tokens == 0
            &&& json_member(usage, "total_tokens"@) matches Some(text) ==> unsigned(
                text,
                u64::MAX as int,
            ) is None ==> counts.total_tokens == 0
        },
        json_member(document, "usage"@) is None ==> counts.prompt_tokens == 0
            && counts.completion_tokens == 0 && counts.total_tokens == 0,
{
    if n <= u64::MAX {
        law_parse_inverts_decimal(n, u64::MAX as int);
    }
}

/// The completion is the string that stands as the content of the first
/// choice's message; an answer without such a string completes with nothing.
pub proof fn law_completion_is_the_first_choice(document: Seq<char>)
    ensures
        match json_at(document, "/choices/0/message/content"@) {
            Some(value) => match json_string(value) {
                Some(content) => content_in(document) == content,
                None => content_in(document).len() == 0,
            },
            None => content_in(document).len() == 0,
        },
{
}

/// The text of a completion is what the model returned, cleaned for the prompt
/// and the stop sequences of its own request: it holds none of the stop
/// sequences that the request names, and what is cut off is cut off for no
/// other ones. A request that names none is cut at the default ones alone.
pub proof fn law_text_holds_no_stop_that_its_request_names<N>(
    body: CompletionBody,
    content: Seq<char>,
    request: &ResolvedRequest<N>,
    created: u64,
)
    requires
        completion_is(body, content, request, created),
    ensures
        match request.stop {
            Some(StopSequences::One(stop)) => {
                &&& stop@.len() > 0 ==> !occurs(body.text@, stop@)
                &&& body.text@ == cleaned(content, request.prompt@, seq![stop@])
            },
            Some(StopSequences::Many(stops)) => {
                &&& forall|k: int|
                    0 <= k < stops@.len() && stops@[k]@.len() > 0 ==> !occurs(
                        body.text@,
                        #[trigger] stops@[k]@,
                    )
                &&& body.text@ == cleaned(
                    content,
                    request.prompt@,
                    Seq::new(stops@.len(), |k: int| stops@[k]@),
                )
            },
            None => body.text@ == cleaned(content, request.prompt@, Seq::empty()),
        },
{
    let named = stops_of(request.stop);
    law_cleaned_completion_is_clean(content, request.prompt@, named);
    match request.stop {
        Some(StopSequences::One(stop)) => {
            assert(named =~= seq![stop@]);
            assert(named[0] == stop@);
        },
        Some(StopSequences::Many(stops)) => {
            assert(named =~= Seq::new(stops@.len(), |k: int| stops@[k]@));
            assert forall|k: int|
                0 <= k < stops@.len() && stops@[k]@.len() > 0 implies !occurs(
                body.text@,
                #[trigger] stops@[k]@,
            ) by {
                assert(named[k] == stops@[k]@);
            }
        },
        None => {
            assert(named =~= Seq::<Seq<char>>::empty());
        },
    }
}

/// An error of the model is passed on as it is: its status, its type and its
/// text. A success that is no JSON document is an error of the proxy. Any
/// other success is answered with a text completion of the request's model,
/// whose text is the cleaned first choice and whose counts are the model's.
pub proof fn law_model_is_passed_on_or_completed<N>(
    upstream: UpstreamResponse,
    request: &ResolvedRequest<N>,
    created: u64,
    reply: Result<HttpReply, String>,
)
    requires
        answers(upstream, request, created, reply),
    ensures
        upstream.status < 200 || upstream.status > 299 ==> {
            &&& reply matches Ok(passed)
            &&& passed.status == upstream.status
            &&& passed.content_type == upstream.content_type
            &&& passed.body == ReplyBody::Raw(upstream.text)
        },
        200 <= upstream.status <= 299 ==> (json_from_text(upstream.text@) matches Err(message)
            ==> reply matches Err(error) && error@ == message),
        200 <= upstream.status <= 299 ==> (json_from_text(upstream.text@) matches Ok(document)
            ==> {
            &&& reply matches Ok(answer)
            &&& answer.status == 200
            &&& answer.content_type@ == encode_utf8("application/json"@)
            &&& answer.body matches ReplyBody::Completion(body)
            &&& body.id@ == "cmpl-minimax-proxy"@
            &&& body.object@ == "text_completion"@
            &&& body.finish_reason@ == "stop"@
            &&& body.index == 0
            &&& body.created == created
            &&& body.model@ == request.model@
            &&& body.text@ == cleaned(
                content_in(document),
                request.prompt@,
                stops_of(request.stop),
            )
            &&& forall|n: nat| #[trigger]
                tells_tokens(document, "prompt_tokens"@, n) ==> body.usage.prompt_tokens == n
            &&& forall|n: nat| #[trigger]
                tells_tokens(document, "completion_tokens"@, n) ==> body.usage.completion_tokens
                    == n
            &&& forall|n: nat| #[trigger]
                tells_tokens(document, "total_tokens"@, n) ==> body.usage.total_tokens == n
        }),
{
    if json_from_text(upstream.text@) is Ok {
        lemma_told_tokens_are_read(json_from_text(upstream.text@)->Ok_0);
    }
}

/// No completion that an editor is sent holds a stop sequence that its request
/// names, whatever the model answered.
pub proof fn law_editor_sees_no_stop_that_it_named<N>(
    upstream: UpstreamResponse,
    request: &ResolvedRequest<N>,
    created: u64,
    reply: HttpReply,
    body: CompletionBody,
)
    requires
        answers(upstream, request, created, Ok(reply)),
        reply.body == ReplyBody::Completion(body),
    ensures
        request.stop matches Some(StopSequences::One(stop)) ==> stop@.len() > 0 ==> !occurs(
            body.text@,
            stop@,
        ),
        request.stop matches Some(StopSequences::Many(stops)) ==> forall|k: int|
            0 <= k < stops@.len() && stops@[k]@.len() > 0 ==> !occurs(
                body.text@,
                #[trigger] stops@[k]@,
            ),
{
    let document = json_from_text(upstream.text@)->Ok_0;
    law_text_holds_no_stop_that_its_request_names(body, content_in(document), request, created);
}

/// A failure of the proxy is reported as a server error with its own words.
pub proof fn law_failure_is_told(reply: HttpReply, message: Seq<char>)
    requires
        reports_failure(reply, message),
    ensures
        reply.status == 500,
        reply.content_type@ == encode_utf8("application/json"@),
        reply.body matches ReplyBody::Failure { message: text, kind } && text@ == message && kind@
            == "proxy_error"@,
{
}

/// The model is shown what the editor marked: the end of the text before the
/// cursor, up to half of the limit on the input, then the cursor, then the
/// front of the text after it, up to the other half; both whole where they fit.
pub proof fn law_model_is_shown_what_is_marked<N>(
    lead: Seq<char>,
    before: Seq<char>,
    after: Seq<char>,
    rest: Seq<char>,
    config: &Config<N>,
)
    requires
        unmarked(lead),
        !occurs(before, "<|fim_suffix|>"@),
        !occurs(before, "<|fim_middle|>"@),
        !occurs(after, "<|fim_middle|>"@),
    ensures
        ({
            let prompt = lead + "<|fim_prefix|>"@ + before + "<|fim_suffix|>"@ + after
                + "<|fim_middle|>"@ + rest;
            let half = config.max_input_chars as int / 2;
            let other_half = config.max_input_chars - half;
            let near_before = if before.len() <= half {
                before
            } else {
                before.subrange(before.len() - half, before.len() as int)
            };
            let near_after = if after.len() <= other_half {
                after
            } else {
                after.subrange(0, other_half)
            };
            let message = user_message(prompt, config);
            let behind = "<cursorPosition>\n<contextAfterCursor>\n"@ + near_after;
            let front = "\n<contextBeforeCursor>\n"@ + near_before;
            let language = language_of(lowercase(near_before));
            message == "# language: "@ + language + front + behind
        }),
{
    let prompt = lead + "<|fim_prefix|>"@ + before + "<|fim_suffix|>"@ + after
        + "<|fim_middle|>"@ + rest;
    let half = (config.max_input_chars / 2) as nat;
    let other_half = (config.max_input_chars - config.max_input_chars / 2) as nat;
    law_marked_texts_are_shown(lead, before, after, rest, half, other_half);
    let (near_before, near_after) = cursor_context(prompt, half, other_half);
    lemma_message_in_pieces(language_of(lowercase(near_before)), near_before, near_after);
}

/// A prompt in which a marker is missing is shown as the text before the
/// cursor, its end up to half of the limit on the input, with nothing after it.
pub proof fn law_model_is_shown_an_unmarked_prompt<N>(prompt: Seq<char>, config: &Config<N>)
    requires
        !occurs(prompt, "<|fim_prefix|>"@) || !occurs(prompt, "<|fim_suffix|>"@) || !occurs(
            prompt,
            "<|fim_middle|>"@,
        ),
    ensures
        ({
            let half = config.max_input_chars as int / 2;
            let near = if prompt.len() <= half {
                prompt
            } else {
                prompt.subrange(prompt.len() - half, prompt.len() as int)
            };
            user_message(prompt, config) == "# language: "@ + language_of(lowercase(near))
                + ("\n<contextBeforeCursor>\n"@ + near)
                + "<cursorPosition>\n<contextAfterCursor>\n"@
        }),
{
    let half = (config.max_input_chars / 2) as nat;
    let other_half = (config.max_input_chars - config.max_input_chars / 2) as nat;
    law_unmarked_prompt_is_shown(prompt, half, other_half);
    let (near, nothing) = cursor_context(prompt, half, other_half);
    lemma_message_in_pieces(language_of(lowercase(near)), near, nothing);
    assert("<cursorPosition>\n<contextAfterCursor>\n"@ + nothing
        =~= "<cursorPosition>\n<contextAfterCursor>\n"@);
}

proof fn lemma_message_in_pieces(language: Seq<char>, before: Seq<char>, after: Seq<char>)
    ensures
        prompt_text(language, before, after) == "# language: "@ + language + (
        "\n<contextBeforeCursor>\n"@ + before) + ("<cursorPosition>\n<contextAfterCursor>\n"@
            + after),
{
    assert(prompt_text(language, before, after) =~= "# language: "@ + language + (
    "\n<contextBeforeCursor>\n"@ + before) + ("<cursorPosition>\n<contextAfterCursor>\n"@
        + after));
}

} // verus!
