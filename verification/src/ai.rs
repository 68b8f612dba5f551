//! The assistant's protocol around an OpenAI-compatible chat endpoint: chat
//! messages, the two-stage JSON enforcement (instruction in the prompt, one
//! silent retry with a reminder), reading replies, the generation counter
//! that lets the newest request win, and the canned answers of the offline
//! mock. Transport and threads live with the caller.

use vstd::prelude::*;
use crate::text::{
    append_chars, back_ws, chars_eq_str, chars_of, lemma_back_ws_bounds, slice_range, spec_trim,
    string_of, trim,
};
use crate::task::{concat, non_empty, spec_non_empty};

verus! {

/// The JSON instruction put into the system message of every JSON request.
pub const JSON_INSTRUCTION: &'static str = "Antworte ausschließlich mit einem einzigen gültigen JSON-Objekt. Kein Markdown, keine Code-Zäune, kein Text vor oder nach dem JSON.";

/// The reminder sent with the silent retry after an unreadable answer.
pub const JSON_RETRY_REMINDER: &'static str = "Deine letzte Antwort war kein gültiges JSON-Objekt. Antworte jetzt ausschließlich mit dem angeforderten JSON-Objekt — ohne Markdown, ohne Erklärungen, ohne weiteren Text.";

// ─── Errors ─────────────────────────────────────────────────────────────────

/// Error kinds of the assistant; they let messages name the likely cause.
#[derive(Debug, Clone, PartialEq, Eq)]
pub enum AiError {
    /// Transport: connection, DNS, timeout.
    Network(String),
    /// The endpoint answered with an error status or error object.
    Api(String),
    /// No valid JSON object, even after the retry.
    InvalidJson(String),
    /// Local configuration or secret service.
    Config(String),
}

/// The text of an error.
pub open spec fn spec_ai_error_message(e: AiError) -> Seq<char> {
    match e {
        AiError::Network(m) => "Netzwerkfehler: "@ + m@,
        AiError::Api(m) => "KI-Endpunkt: "@ + m@,
        AiError::InvalidJson(m) => "Keine gültige JSON-Antwort: "@ + m@,
        AiError::Config(m) => "KI-Konfiguration: "@ + m@,
    }
}

impl AiError {
    /// The error's text, e.g. `Netzwerkfehler: connection refused`.
    pub fn message(&self) -> (r: String)
        ensures
            r@ == spec_ai_error_message(*self),
    {
        match self {
            AiError::Network(m) => concat("Netzwerkfehler: ", m.as_str()),
            AiError::Api(m) => concat("KI-Endpunkt: ", m.as_str()),
            AiError::InvalidJson(m) => concat("Keine gültige JSON-Antwort: ", m.as_str()),
            AiError::Config(m) => concat("KI-Konfiguration: ", m.as_str()),
        }
    }
}

// ─── Messages ───────────────────────────────────────────────────────────────

/// A chat message in the OpenAI wire format (`role`, `content`).
#[derive(Debug, Clone, PartialEq, Eq)]
pub struct ChatMessage {
    pub role: String,
    pub content: String,
}

impl View for ChatMessage {
    type V = (Seq<char>, Seq<char>);

    open spec fn view(&self) -> (Seq<char>, Seq<char>) {
        (self.role@, self.content@)
    }
}

/// Role and content of each message.
pub open spec fn msgs(s: Seq<ChatMessage>) -> Seq<(Seq<char>, Seq<char>)> {
    Seq::new(s.len(), |i: int| s[i]@)
}

impl ChatMessage {
    /// A system message.
    pub fn system(content: &str) -> (r: Self)
        ensures
            r@ == ("system"@, content@),
    {
        ChatMessage { role: String::from_str("system"), content: content.to_owned() }
    }

    /// A user message.
    pub fn user(content: &str) -> (r: Self)
        ensures
            r@ == ("user"@, content@),
    {
        ChatMessage { role: String::from_str("user"), content: content.to_owned() }
    }

    /// An assistant message.
    pub fn assistant(content: &str) -> (r: Self)
        ensures
            r@ == ("assistant"@, content@),
    {
        ChatMessage { role: String::from_str("assistant"), content: content.to_owned() }
    }

    /// A copy of the message.
    pub fn copy(&self) -> (r: Self)
        ensures
            r@ == self@,
    {
        ChatMessage { role: self.role.clone(), content: self.content.clone() }
    }
}

/// The messages of a JSON request: the instruction is appended to a leading
/// system message after a blank line, or put in front as a system message of
/// its own.
pub open spec fn spec_with_json_instruction(ms: Seq<(Seq<char>, Seq<char>)>) -> Seq<
    (Seq<char>, Seq<char>),
> {
    if ms.len() > 0 && ms[0].0 == "system"@ {
        ms.update(0, (ms[0].0, ms[0].1 + "\n\n"@ + JSON_INSTRUCTION@))
    } else {
        seq![("system"@, JSON_INSTRUCTION@)] + ms
    }
}

fn copy_all(messages: &[ChatMessage]) -> (r: Vec<ChatMessage>)
    ensures
        msgs(r@) == msgs(messages@),
{
    let mut out: Vec<ChatMessage> = Vec::new();
    let mut i: usize = 0;
    while i < messages.len()
        invariant
            i <= messages.len(),
            msgs(out@) =~= msgs(messages@).take(i as int),
        decreases messages.len() - i,
    {
        out.push(messages[i].copy());
        assert(msgs(messages@).take(i + 1) =~= msgs(messages@).take(i as int).push(
            messages@[i as int]@,
        ));
        i = i + 1;
    }
    assert(msgs(messages@).take(messages.len() as int) =~= msgs(messages@));
    out
}

/// Adds the JSON instruction to the system message (see
/// [`spec_with_json_instruction`]).
pub fn with_json_instruction(messages: &[ChatMessage]) -> (r: Vec<ChatMessage>)
    ensures
        msgs(r@) == spec_with_json_instruction(msgs(messages@)),
{
    let mut out = copy_all(messages);
    let ghost before = msgs(out@);
    if out.len() > 0 && chars_eq_str(&chars_of(out[0].role.as_str()), "system") {
        let mut c = chars_of(out[0].content.as_str());
        let sep = chars_of("\n\n");
        append_chars(&mut c, &sep);
        let ins = chars_of(JSON_INSTRUCTION);
        append_chars(&mut c, &ins);
        let first = ChatMessage { role: out[0].role.clone(), content: string_of(c.as_slice()) };
        out.set(0, first);
        assert(msgs(out@) =~= before.update(0, (before[0].0, before[0].1 + "\n\n"@ + JSON_INSTRUCTION@)));
    } else {
        out.insert(0, ChatMessage::system(JSON_INSTRUCTION));
        assert(msgs(out@) =~= seq![("system"@, JSON_INSTRUCTION@)] + before);
    }
    out
}

/// The messages of the silent retry: the request, the unreadable answer as
/// an assistant message, and the format reminder as a user message.
pub fn retry_messages(effective: &[ChatMessage], first_answer: &str) -> (r: Vec<ChatMessage>)
    ensures
        msgs(r@) == msgs(effective@) + seq![
            ("assistant"@, first_answer@),
            ("user"@, JSON_RETRY_REMINDER@),
        ],
{
    let mut out = copy_all(effective);
    let ghost before = msgs(out@);
    out.push(ChatMessage::assistant(first_answer));
    out.push(ChatMessage::user(JSON_RETRY_REMINDER));
    assert(msgs(out@) =~= before + seq![
        ("assistant"@, first_answer@),
        ("user"@, JSON_RETRY_REMINDER@),
    ]);
    out
}

// ─── Replies ────────────────────────────────────────────────────────────────

/// A text shortened for error messages: trimmed, and cut after 200
/// characters with `…` appended.
pub open spec fn spec_excerpt(text: Seq<char>) -> Seq<char> {
    let t = spec_trim(text);
    if t.len() <= 200 {
        t
    } else {
        t.subrange(0, 200) + "…"@
    }
}

/// Shortens a text for error messages, by characters so that no character
/// is cut apart.
pub fn excerpt(text: &str) -> (r: String)
    ensures
        r@ == spec_excerpt(text@),
{
    let v = chars_of(text);
    let t = trim(&v);
    if t.len() <= 200 {
        string_of(t.as_slice())
    } else {
        let mut k = slice_range(&t, 0, 200);
        let dots = chars_of("…");
        append_chars(&mut k, &dots);
        string_of(k.as_slice())
    }
}

/// `s` without trailing whitespace.
pub open spec fn spec_trim_end(s: Seq<char>) -> Seq<char> {
    s.subrange(0, back_ws(s, s.len() as int))
}

fn trim_end(v: &Vec<char>) -> (r: Vec<char>)
    ensures
        r@ == spec_trim_end(v@),
{
    let mut b: usize = v.len();
    while b > 0 && crate::text::is_whitespace(v[b - 1])
        invariant
            b <= v.len(),
            back_ws(v@, v.len() as int) == back_ws(v@, b as int),
        decreases b,
    {
        b = b - 1;
    }
    proof {
        lemma_back_ws_bounds(v@, b as int);
    }
    slice_range(v, 0, b)
}

/// Position of the first line feed in `s` at or after `i`, or the length.
pub open spec fn newline_from(s: Seq<char>, i: int) -> int
    decreases s.len() - i,
{
    if i < 0 || i >= s.len() {
        s.len() as int
    } else if s[i] == '\n' {
        i
    } else {
        newline_from(s, i + 1)
    }
}

/// A text without an enclosing Markdown code fence (```` ```json … ``` ````):
/// the trimmed text, or, where it starts with three backticks and has a line
/// feed, what follows the first line, without a closing fence, trimmed.
pub open spec fn spec_strip_code_fences(text: Seq<char>) -> Seq<char> {
    let t = spec_trim(text);
    if t.len() < 3 || t.subrange(0, 3) != "```"@ {
        t
    } else {
        let rest = t.subrange(3, t.len() as int);
        let nl = newline_from(rest, 0);
        if nl >= rest.len() {
            t
        } else {
            let body = spec_trim_end(rest.subrange(nl + 1, rest.len() as int));
            if body.len() >= 3 && body.subrange(body.len() - 3, body.len() as int) == "```"@ {
                spec_trim(body.subrange(0, body.len() - 3))
            } else {
                spec_trim(body)
            }
        }
    }
}

proof fn lemma_newline_from(s: Seq<char>, i: int)
    requires
        0 <= i <= s.len(),
    ensures
        i <= newline_from(s, i) <= s.len(),
    decreases s.len() - i,
{
    if i < s.len() && s[i] != '\n' {
        lemma_newline_from(s, i + 1);
    }
}

/// Removes an enclosing Markdown code fence (see [`spec_strip_code_fences`]).
pub fn strip_code_fences(text: &str) -> (r: String)
    ensures
        r@ == spec_strip_code_fences(text@),
{
    let v = chars_of(text);
    let t = trim(&v);
    proof {
        reveal_strlit("```");
    }
    if t.len() < 3 || t[0] != '`' || t[1] != '`' || t[2] != '`' {
        proof {
            if t.len() >= 3 {
                if t[0] != '`' {
                    assert(t@.subrange(0, 3)[0] != "```"@[0]);
                } else if t[1] != '`' {
                    assert(t@.subrange(0, 3)[1] != "```"@[1]);
                } else {
                    assert(t@.subrange(0, 3)[2] != "```"@[2]);
                }
            }
        }
        return string_of(t.as_slice());
    }
    assert(t@.subrange(0, 3) =~= "```"@);
    let rest = slice_range(&t, 3, t.len());
    let mut nl: usize = 0;
    while nl < rest.len() && rest[nl] != '\n'
        invariant
            nl <= rest.len(),
            newline_from(rest@, 0) == newline_from(rest@, nl as int),
        decreases rest.len() - nl,
    {
        nl = nl + 1;
    }
    proof {
        lemma_newline_from(rest@, nl as int);
    }
    if nl >= rest.len() {
        return string_of(t.as_slice());
    }
    let after = slice_range(&rest, nl + 1, rest.len());
    let body = trim_end(&after);
    let n = body.len();
    if n >= 3 && body[n - 3] == '`' && body[n - 2] == '`' && body[n - 1] == '`' {
        assert(body@.subrange(n - 3, n as int) =~= "```"@);
        let inner = slice_range(&body, 0, n - 3);
        let r = trim(&inner);
        string_of(r.as_slice())
    } else {
        proof {
            if n >= 3 {
                let tail = body@.subrange(n - 3, n as int);
                if body[n - 3] != '`' {
                    assert(tail[0] != "```"@[0]);
                } else if body[n - 2] != '`' {
                    assert(tail[1] != "```"@[1]);
                } else {
                    assert(tail[2] != "```"@[2]);
                }
            }
        }
        let r = trim(&body);
        string_of(r.as_slice())
    }
}

#[verifier::external_type_specification]
#[verifier::external_body]
pub struct ExJsonValue(serde_json::Value);

/// What `serde_json::from_str::<Value>(s)` gives for a text, kept where it
/// is an object: the parsed object, or `None`.
pub uninterp spec fn spec_json_object(s: Seq<char>) -> Option<serde_json::Value>;

/// Whether a text is valid JSON whose value is an object.
pub open spec fn spec_is_json_object(s: Seq<char>) -> bool {
    spec_json_object(s) is Some
}

/// `serde_json::from_str::<Value>(s)`, kept where it gives an object.
#[verifier::external_body]
fn parse_json_object(s: &str) -> (r: Option<serde_json::Value>)
    ensures
        r == spec_json_object(s@),
{
    match serde_json::from_str::<serde_json::Value>(s) {
        Ok(serde_json::Value::Object(map)) => Some(serde_json::Value::Object(map)),
        Ok(_) => None,
        Err(_) => None,
    }
}

/// Reads a model answer as one JSON object, after removing a Markdown code
/// fence; anything else is `InvalidJson` with an excerpt of the answer.
pub fn extract_json_object(text: &str) -> (r: Result<serde_json::Value, AiError>)
    ensures
        r is Ok <==> spec_is_json_object(spec_strip_code_fences(text@)),
        r matches Ok(v) ==> spec_json_object(spec_strip_code_fences(text@)) == Some(v),
        r matches Err(e) ==> (e matches AiError::InvalidJson(m) && m@ == spec_excerpt(text@)),
{
    let cleaned = strip_code_fences(text);
    match parse_json_object(cleaned.as_str()) {
        Some(v) => Ok(v),
        None => Err(AiError::InvalidJson(excerpt(text))),
    }
}

/// A JSON request over a chat function: the JSON instruction goes into the
/// system message; an answer that is no JSON object gets one silent retry
/// with the answer and a format reminder appended; a second unreadable
/// answer is `InvalidJson`. Transport errors are not retried — the retry is
/// for the output format only.
pub fn complete_json_mit<C>(chat: &C, messages: &[ChatMessage]) -> (r: Result<
    serde_json::Value,
    AiError,
>) where C: Fn(&[ChatMessage]) -> Result<String, AiError>
    requires
        forall|m: &[ChatMessage]| chat.requires((m,)),
    ensures
        exists|m1: &[ChatMessage], a1: Result<String, AiError>|
            msgs(m1@) == spec_with_json_instruction(msgs(messages@)) && #[trigger] chat.ensures(
                (m1,),
                a1,
            ) && match a1 {
                Err(e) => r == Err::<serde_json::Value, AiError>(e),
                Ok(t1) => if spec_is_json_object(spec_strip_code_fences(t1@)) {
                    r is Ok && (r matches Ok(v) ==> spec_json_object(spec_strip_code_fences(t1@))
                        == Some(v))
                } else {
                    exists|m2: &[ChatMessage], a2: Result<String, AiError>|
                        msgs(m2@) == msgs(m1@) + seq![
                            ("assistant"@, t1@),
                            ("user"@, JSON_RETRY_REMINDER@),
                        ] && #[trigger] chat.ensures((m2,), a2) && match a2 {
                            Err(e) => r == Err::<serde_json::Value, AiError>(e),
                            Ok(t2) => (r is Ok <==> spec_is_json_object(spec_strip_code_fences(t2@)))
                                && (r matches Ok(v) ==> spec_json_object(
                                spec_strip_code_fences(t2@),
                            ) == Some(v)) && (r matches Err(e) ==> (e matches AiError::InvalidJson(
                                m,
                            ) && m@ == spec_excerpt(t2@))),
                        }
                },
            },
{
    let effective = with_json_instruction(messages);
    let m1: &[ChatMessage] = effective.as_slice();
    let first = chat(m1);
    match first {
        Err(e) => Err(e),
        Ok(t1) => match extract_json_object(t1.as_str()) {
            Ok(v) => Ok(v),
            Err(_) => {
                let retry = retry_messages(m1, t1.as_str());
                let m2: &[ChatMessage] = retry.as_slice();
                let second = chat(m2);
                match second {
                    Err(e) => Err(e),
                    Ok(t2) => extract_json_object(t2.as_str()),
                }
            },
        },
    }
}

/// The answer text of a chat reply whose body was read: an error object is
/// an `Api` error with its message; otherwise the first choice's content,
/// unless it is missing or empty.
pub fn reply_content(error: Option<String>, first_content: Option<String>) -> (r: Result<
    String,
    AiError,
>)
    ensures
        match error {
            Some(m) => r == Err::<String, AiError>(AiError::Api(m)),
            None => match spec_non_empty(first_content.deep_view()) {
                Some(c) => r matches Ok(s) && s@ == c,
                None => r matches Err(AiError::Api(m)) && m@ == "Antwort ohne Inhalt"@,
            },
        },
{
    if let Some(m) = error {
        return Err(AiError::Api(m));
    }
    match non_empty(first_content) {
        Some(c) => Ok(c),
        None => Err(AiError::Api(String::from_str("Antwort ohne Inhalt"))),
    }
}

/// The model names of a model-list reply whose body was read: an error
/// object is an `Api` error with its message.
pub fn models_reply(error: Option<String>, ids: Vec<String>) -> (r: Result<Vec<String>, AiError>)
    ensures
        match error {
            Some(m) => r == Err::<Vec<String>, AiError>(AiError::Api(m)),
            None => r == Ok::<Vec<String>, AiError>(ids),
        },
{
    match error {
        Some(m) => Err(AiError::Api(m)),
        None => Ok(ids),
    }
}

/// The error for a reply body of unexpected shape.
pub fn unexpected_shape(body: &str) -> (r: AiError)
    ensures
        r matches AiError::Api(m) && m@ == "Unerwartete Antwortform: "@ + spec_excerpt(body@),
{
    let e = excerpt(body);
    AiError::Api(concat("Unerwartete Antwortform: ", e.as_str()))
}

/// The error for an error status: `HTTP <status>: <excerpt of the body>`.
pub fn status_error(status: &str, body: &str) -> (r: AiError)
    ensures
        r matches AiError::Api(m) && m@ == "HTTP "@ + status@ + ": "@ + spec_excerpt(body@),
{
    let e = excerpt(body);
    let head = concat("HTTP ", status);
    let head2 = concat(head.as_str(), ": ");
    AiError::Api(concat(head2.as_str(), e.as_str()))
}

/// A base URL without trailing slashes (`trim_end_matches('/')`).
pub open spec fn spec_trim_slashes(s: Seq<char>) -> Seq<char>
    decreases s.len(),
{
    if s.len() > 0 && s.last() == '/' {
        spec_trim_slashes(s.drop_last())
    } else {
        s
    }
}

/// The URL of an endpoint: the base URL (its trailing slashes removed
/// before, see [`trim_slashes`]) followed by the path.
pub fn endpoint(base_url: &str, path: &str) -> (r: String)
    ensures
        r@ == base_url@ + path@,
{
    crate::task::concat(base_url, path)
}

/// Removes trailing slashes from a base URL, so that paths can be appended.
pub fn trim_slashes(url: &str) -> (r: String)
    ensures
        r@ == spec_trim_slashes(url@),
{
    let v = chars_of(url);
    let mut b: usize = v.len();
    assert(v@.subrange(0, v.len() as int) =~= v@);
    while b > 0 && v[b - 1] == '/'
        invariant
            b <= v.len(),
            spec_trim_slashes(v@) == spec_trim_slashes(v@.subrange(0, b as int)),
        decreases b,
    {
        assert(v@.subrange(0, b as int).drop_last() =~= v@.subrange(0, b - 1));
        b = b - 1;
    }
    string_of(slice_range(&v, 0, b).as_slice())
}

/// The API key to send: none for a missing or empty key, so that no empty
/// bearer header goes out.
pub fn effective_api_key(key: Option<String>) -> (r: Option<String>)
    ensures
        r.deep_view() == spec_non_empty(key.deep_view()),
{
    non_empty(key)
}

// ─── Generations ────────────────────────────────────────────────────────────

/// Generation counter for dropping stale requests: each request keeps its
/// generation; cancelling and every newer request move the counter on, and
/// results of older generations are dropped. The newest request wins.
pub struct Generationen {
    zaehler: u64,
}

impl View for Generationen {
    type V = u64;

    closed spec fn view(&self) -> u64 {
        self.zaehler
    }
}

impl Default for Generationen {
    fn default() -> (r: Self)
        ensures
            r@ == 0,
    {
        Generationen { zaehler: 0 }
    }
}

impl Generationen {
    /// Starts a new generation, making every running one stale, and returns
    /// its number.
    pub fn naechste(&mut self) -> (g: u64)
        ensures
            g == old(self)@.wrapping_add(1),
            final(self)@ == g,
    {
        self.zaehler = self.zaehler.wrapping_add(1);
        self.zaehler
    }

    /// Whether `generation` is still the newest.
    pub fn ist_aktuell(&self, generation: u64) -> (r: bool)
        ensures
            r == (self@ == generation),
    {
        self.zaehler == generation
    }

    /// Cancels: makes the running request stale without starting a new one.
    pub fn verwerfen(&mut self)
        ensures
            final(self)@ == old(self)@.wrapping_add(1),
    {
        self.zaehler = self.zaehler.wrapping_add(1);
    }
}

/// The newest request wins: a request's generation is current right after
/// it started, and stops being current as soon as a newer request starts
/// or the running one is cancelled.
pub proof fn lemma_juengste_gewinnt(vorher: u64, erste: u64, danach: u64)
    requires
        erste == vorher.wrapping_add(1),
        danach == erste.wrapping_add(1),
    ensures
        erste != vorher,
        danach != erste,
{
}

// ─── Canned answers ─────────────────────────────────────────────────────────

/// Canned answers of the offline mock: served in call order; after the last
/// one the last repeats, so a run never runs dry.
pub struct CannedLlm {
    antworten: Vec<(String, Option<u64>)>,
    position: usize,
    basis_verzoegerung_ms: u64,
}

impl CannedLlm {
    /// The answers (text and optional delay in milliseconds).
    pub closed spec fn answers(&self) -> Seq<(Seq<char>, Option<u64>)> {
        Seq::new(self.antworten@.len(), |i: int| (self.antworten@[i].0@, self.antworten@[i].1))
    }

    /// How many answers were served.
    pub closed spec fn served(&self) -> nat {
        self.position as nat
    }

    /// The base delay in milliseconds.
    pub closed spec fn base_delay(&self) -> u64 {
        self.basis_verzoegerung_ms
    }

    /// A mock over the given answers; at least one is needed.
    pub fn new(antworten: Vec<(String, Option<u64>)>, basis_verzoegerung_ms: u64) -> (r: Result<
        Self,
        AiError,
    >)
        ensures
            antworten@.len() == 0 <==> r is Err,
            r matches Ok(m) ==> m.answers() == Seq::new(
                antworten@.len(),
                |i: int| (antworten@[i].0@, antworten@[i].1),
            ) && m.served() == 0 && m.base_delay() == basis_verzoegerung_ms,
            r matches Err(e) ==> e is Config,
    {
        if antworten.len() == 0 {
            return Err(
                AiError::Config(
                    String::from_str("Mock-Konserven: leeres Array — mindestens eine Antwort nötig"),
                ),
            );
        }
        Ok(CannedLlm { antworten, position: 0, basis_verzoegerung_ms })
    }

    /// The next answer and the delay to wait before giving it: answer number
    /// `served` (the last one once all were served), with its own delay or
    /// else the base delay.
    pub fn serve(&mut self) -> (r: (String, u64))
        requires
            old(self).answers().len() > 0,
        ensures
            ({
                let k = if old(self).served() < old(self).answers().len() {
                    old(self).served() as int
                } else {
                    old(self).answers().len() - 1
                };
                &&& r.0@ == old(self).answers()[k].0
                &&& r.1 == match old(self).answers()[k].1 {
                    Some(d) => d,
                    None => old(self).base_delay(),
                }
            }),
            final(self).answers() == old(self).answers(),
            final(self).base_delay() == old(self).base_delay(),
            final(self).served() == if old(self).served() < usize::MAX {
                (old(self).served() + 1) as nat
            } else {
                old(self).served()
            },
    {
        let last = self.antworten.len() - 1;
        let index = if self.position < last {
            self.position
        } else {
            last
        };
        self.position = self.position.saturating_add(1);
        let text = self.antworten[index].0.clone();
        let delay = match self.antworten[index].1 {
            Some(d) => d,
            None => self.basis_verzoegerung_ms,
        };
        (text, delay)
    }

    /// The model list of the mock.
    pub fn list_models(&self) -> (r: Vec<String>)
        ensures
            r.deep_view() == seq!["vmn-mock"@],
    {
        let mut v: Vec<String> = Vec::new();
        v.push(String::from_str("vmn-mock"));
        assert(v.deep_view() =~= seq!["vmn-mock"@]);
        v
    }
}

} // verus!
