//! The OpenAI-compatible request and response shapes, and the conversion
//! between chat text and the engine's tokens.
//!
//! Tokens are characters: a prompt token is the code of a character, and a
//! generated token decodes to the character with that code, or `?` where
//! the code names none.

use vstd::prelude::*;
use vstd::string::StrSliceExecFns;
use crate::text::{utf8, decimal, lemma_decimal_ascii, push_decimal, all_ascii, string_from_ascii, push_char, char_from_u32, is_scalar, str_eq};

verus! {

/// One message of a chat.
#[derive(Debug, Clone)]
pub struct ChatMessage {
    pub role: String,
    pub content: Option<String>,
    pub name: Option<String>,
    pub tool_calls: Option<Vec<ToolCall>>,
    pub tool_call_id: Option<String>,
}

/// A call of a tool that the assistant asks for.
#[derive(Debug, Clone)]
pub struct ToolCall {
    pub id: String,
    /// The `type` field.
    pub call_type: String,
    pub function: FunctionCall,
}

#[derive(Debug, Clone)]
pub struct FunctionCall {
    pub name: String,
    pub arguments: String,
}

/// Whether and which tool the model may call: `"none"`, `"auto"`, or one
/// named function.
#[derive(Debug, Clone)]
pub enum ToolChoice {
    Off(String),
    Auto(String),
    Function { choice_type: String, function: FunctionName },
}

#[derive(Debug, Clone)]
pub struct FunctionName {
    pub name: String,
}

/// The increment of a streamed chat message.
#[derive(Debug, Clone)]
pub struct ChatDelta {
    pub role: Option<String>,
    pub content: Option<String>,
    pub tool_calls: Option<Vec<ToolCall>>,
}

impl Default for ChatDelta {
    fn default() -> (r: Self)
        ensures
            r.role is None,
            r.content is None,
            r.tool_calls is None,
    {
        ChatDelta { role: None, content: None, tool_calls: None }
    }
}

/// The prompt of a legacy completion request.
#[derive(Debug, Clone)]
pub enum CompletionPrompt {
    Text(String),
    Texts(Vec<String>),
    Tokens(Vec<i32>),
    TokensArray(Vec<Vec<i32>>),
}

#[derive(Debug, Clone)]
pub struct EmbeddingRequest {
    pub model: String,
    pub input: EmbeddingInput,
    pub encoding_format: Option<String>,
    pub user: Option<String>,
}

/// The input of an embedding request.
#[derive(Debug, Clone)]
pub enum EmbeddingInput {
    Text(String),
    Texts(Vec<String>),
    Tokens(Vec<i32>),
    TokensArray(Vec<Vec<i32>>),
}

/// Token accounting of a response.
#[derive(Debug, Clone, Copy, PartialEq, Eq, Structural)]
pub struct Usage {
    pub prompt_tokens: usize,
    pub completion_tokens: usize,
    pub total_tokens: usize,
}

/// The token of a character: its code.
pub open spec fn token_of(c: char) -> i32 {
    c as i32
}

/// The tokens of a text.
pub open spec fn tokens_of(s: Seq<char>) -> Seq<i32> {
    s.map_values(|c: char| token_of(c))
}

/// The character a generated token stands for.
pub open spec fn char_of_token(t: i32) -> char {
    if is_scalar(t as u32) {
        (t as u32) as char
    } else {
        '?'
    }
}

/// Tokens of a text: one per character.
pub fn tokenize(text: &str) -> (r: Vec<i32>)
    ensures
        r@ == tokens_of(text@),
{
    let n = text.unicode_len();
    let mut out: Vec<i32> = Vec::new();
    let mut i: usize = 0;
    while i < n
        invariant
            n == text@.len(),
            i <= n,
            out@ == tokens_of(text@.subrange(0, i as int)),
        decreases n - i,
    {
        let c = text.get_char(i);
        out.push(c as i32);
        assert(out@ =~= tokens_of(text@.subrange(0, i + 1)));
        i = i + 1;
    }
    assert(text@.subrange(0, n as int) =~= text@);
    out
}

/// The texts one after the other.
pub open spec fn concat_texts(ts: Seq<String>, k: nat) -> Seq<char>
    decreases k,
{
    if k == 0 || k > ts.len() {
        Seq::empty()
    } else {
        concat_texts(ts, (k - 1) as nat) + ts[k - 1]@
    }
}

proof fn lemma_tokens_concat(a: Seq<char>, b: Seq<char>)
    ensures
        tokens_of(a + b) == tokens_of(a) + tokens_of(b),
{
    assert(tokens_of(a + b) =~= tokens_of(a) + tokens_of(b));
}

/// Decoding undoes tokenizing: the text of the tokens of `s` is `s`.
pub proof fn lemma_detokenize_tokenize(s: Seq<char>)
    ensures
        tokens_of(s).map_values(|t: i32| char_of_token(t)) == s,
{
    assert forall|i: int| 0 <= i < s.len() implies char_of_token(#[trigger] tokens_of(s)[i]) == s[i] by {
        let c = s[i];
        let v = c as u32;
        vstd::utf8::char_is_scalar(c);
        vstd::utf8::char_u32_cast(c, v);
        assert(v <= 0x10ffff);
        assert((c as i32) as u32 == v);
        assert(is_scalar(v));
    }
    assert(tokens_of(s).map_values(|t: i32| char_of_token(t)) =~= s);
}

/// Tokens of several texts, one after the other.
pub fn tokenize_many(texts: &Vec<String>) -> (r: Vec<i32>)
    ensures
        r@ == tokens_of(concat_texts(texts@, texts@.len())),
{
    let mut out: Vec<i32> = Vec::new();
    let mut i: usize = 0;
    while i < texts.len()
        invariant
            i <= texts@.len(),
            out@ == tokens_of(concat_texts(texts@, i as nat)),
        decreases texts@.len() - i,
    {
        let mut part = tokenize(texts[i].as_str());
        proof {
            lemma_tokens_concat(concat_texts(texts@, i as nat), texts@[i as int]@);
        }
        out.append(&mut part);
        i = i + 1;
    }
    out
}

/// The text of tokens: each token's character.
pub fn detokenize(tokens: &Vec<i32>) -> (r: String)
    ensures
        r@ == tokens@.map_values(|t: i32| char_of_token(t)),
{
    let mut out = String::new();
    let mut i: usize = 0;
    while i < tokens.len()
        invariant
            i <= tokens@.len(),
            out@ == tokens@.subrange(0, i as int).map_values(|t: i32| char_of_token(t)),
        decreases tokens@.len() - i,
    {
        let c = match char_from_u32(tokens[i] as u32) {
            Some(c) => c,
            None => '?',
        };
        out = push_char(out, c);
        assert(out@ =~= tokens@.subrange(0, i + 1).map_values(|t: i32| char_of_token(t)));
        i = i + 1;
    }
    assert(tokens@.subrange(0, tokens@.len() as int) =~= tokens@);
    out
}

/// The text of one generated token, as a stream chunk carries it.
pub fn token_text(token: i32) -> (r: String)
    ensures
        r@ == seq![char_of_token(token)],
{
    let c = match char_from_u32(token as u32) {
        Some(c) => c,
        None => '?',
    };
    let r = push_char(String::new(), c);
    assert(r@ =~= seq![char_of_token(token)]);
    r
}

/// The prefix that a chat role gets in the prompt.
pub open spec fn role_prefix(role: Seq<char>) -> Seq<char> {
    if role == "system"@ {
        "System: "@
    } else if role == "user"@ {
        "User: "@
    } else if role == "assistant"@ {
        "Assistant: "@
    } else {
        Seq::empty()
    }
}

fn role_prefix_of(role: &str) -> (r: &'static str)
    ensures
        r@ == role_prefix(role@),
{
    if str_eq(role, "system") {
        "System: "
    } else if str_eq(role, "user") {
        "User: "
    } else if str_eq(role, "assistant") {
        "Assistant: "
    } else {
        proof {
            reveal_strlit("");
        }
        ""
    }
}

/// The lines of the first `k` messages: each message with content becomes
/// its role prefix, its content and a newline.
pub open spec fn chat_lines(ms: Seq<ChatMessage>, k: nat) -> Seq<char>
    decreases k,
{
    if k == 0 || k > ms.len() {
        Seq::empty()
    } else {
        let m = ms[k - 1];
        chat_lines(ms, (k - 1) as nat) + match m.content {
            Some(c) => role_prefix(m.role@) + c@ + seq!['\n'],
            None => Seq::empty(),
        }
    }
}

/// The prompt of a chat: its lines, then the cue for the assistant.
pub open spec fn chat_prompt(ms: Seq<ChatMessage>) -> Seq<char> {
    chat_lines(ms, ms.len()) + "Assistant: "@
}

/// The lines of the first `k` messages do not depend on later messages.
proof fn lemma_chat_lines_prefix(ms: Seq<ChatMessage>, m: ChatMessage, k: nat)
    requires
        k <= ms.len(),
    ensures
        chat_lines(ms.push(m), k) == chat_lines(ms, k),
    decreases k,
{
    if k > 0 {
        lemma_chat_lines_prefix(ms, m, (k - 1) as nat);
        assert(ms.push(m)[k - 1] == ms[k - 1]);
    }
}

/// Appending a message with content `c` appends one prompt line, labelled
/// by its role: `System: `, `User: ` or `Assistant: ` (three different
/// labels), followed by `c` and a newline; the prompt still ends with the
/// cue `Assistant: `.
pub proof fn lemma_chat_prompt_push(ms: Seq<ChatMessage>, m: ChatMessage, c: String)
    requires
        m.content == Some(c),
    ensures
        m.role@ == "system"@ ==> chat_prompt(ms.push(m)) == chat_lines(ms, ms.len()) + "System: "@ + c@
            + seq!['\n'] + "Assistant: "@,
        m.role@ == "user"@ ==> chat_prompt(ms.push(m)) == chat_lines(ms, ms.len()) + "User: "@ + c@
            + seq!['\n'] + "Assistant: "@,
        m.role@ == "assistant"@ ==> chat_prompt(ms.push(m)) == chat_lines(ms, ms.len()) + "Assistant: "@
            + c@ + seq!['\n'] + "Assistant: "@,
        "System: "@ != "User: "@,
        "User: "@ != "Assistant: "@,
        "System: "@ != "Assistant: "@,
{
    lemma_chat_lines_prefix(ms, m, ms.len());
    let n = ms.push(m);
    assert(n[ms.len() as int] == m);
    reveal_strlit("System: ");
    reveal_strlit("User: ");
    reveal_strlit("Assistant: ");
    reveal_strlit("system");
    reveal_strlit("user");
    reveal_strlit("assistant");
    assert("System: "@[0] != "User: "@[0]);
    assert("User: "@[0] != "Assistant: "@[0]);
    assert("System: "@[0] != "Assistant: "@[0]);
    assert("system"@ != "user"@) by {
        assert("system"@.len() != "user"@.len());
    }
    assert("system"@ != "assistant"@) by {
        assert("system"@.len() != "assistant"@.len());
    }
    assert("user"@ != "assistant"@) by {
        assert("user"@.len() != "assistant"@.len());
    }
}

/// The prompt tokens of a chat.
pub fn messages_to_prompt(messages: &Vec<ChatMessage>) -> (r: Vec<i32>)
    ensures
        r@ == tokens_of(chat_prompt(messages@)),
{
    let mut out: Vec<i32> = Vec::new();
    let mut i: usize = 0;
    while i < messages.len()
        invariant
            i <= messages@.len(),
            out@ == tokens_of(chat_lines(messages@, i as nat)),
        decreases messages@.len() - i,
    {
        let m = &messages[i];
        let ghost before = chat_lines(messages@, i as nat);
        match &m.content {
            Some(c) => {
                let mut p = tokenize(role_prefix_of(m.role.as_str()));
                let mut t = tokenize(c.as_str());
                out.append(&mut p);
                out.append(&mut t);
                out.push(10i32);
                proof {
                    let line = role_prefix(m.role@) + c@ + seq!['\n'];
                    assert(chat_lines(messages@, (i + 1) as nat) == before + line);
                    assert(tokens_of(before + line) =~= tokens_of(before) + tokens_of(
                        role_prefix(m.role@),
                    ) + tokens_of(c@) + seq![10i32]);
                }
            },
            None => {
                assert(chat_lines(messages@, (i + 1) as nat) =~= before);
            },
        }
        i = i + 1;
    }
    let mut cue = tokenize("Assistant: ");
    out.append(&mut cue);
    proof {
        lemma_tokens_concat(chat_lines(messages@, messages@.len()), "Assistant: "@);
    }
    out
}

/// All tokens of a list of token lists, one list after the other.
pub open spec fn flatten_tokens(xs: Seq<Vec<i32>>, k: nat) -> Seq<i32>
    decreases k,
{
    if k == 0 || k > xs.len() {
        Seq::empty()
    } else {
        flatten_tokens(xs, (k - 1) as nat) + xs[k - 1]@
    }
}

fn flatten(xs: Vec<Vec<i32>>) -> (r: Vec<i32>)
    ensures
        r@ == flatten_tokens(xs@, xs@.len()),
{
    let mut out: Vec<i32> = Vec::new();
    let mut i: usize = 0;
    while i < xs.len()
        invariant
            i <= xs@.len(),
            out@ == flatten_tokens(xs@, i as nat),
        decreases xs@.len() - i,
    {
        let mut part = xs[i].clone();
        assert(part@ == xs@[i as int]@);
        out.append(&mut part);
        i = i + 1;
    }
    out
}

/// The prompt tokens of a completion request.
pub open spec fn completion_tokens(p: CompletionPrompt) -> Seq<i32> {
    match p {
        CompletionPrompt::Text(s) => tokens_of(s@),
        CompletionPrompt::Texts(ts) => tokens_of(concat_texts(ts@, ts@.len())),
        CompletionPrompt::Tokens(ts) => ts@,
        CompletionPrompt::TokensArray(xs) => flatten_tokens(xs@, xs@.len()),
    }
}

/// The prompt tokens of a completion request: texts are tokenized, token
/// lists are taken as they are.
pub fn prompt_tokens(prompt: CompletionPrompt) -> (r: Vec<i32>)
    ensures
        r@ == completion_tokens(prompt),
{
    match prompt {
        CompletionPrompt::Text(s) => tokenize(s.as_str()),
        CompletionPrompt::Texts(ts) => tokenize_many(&ts),
        CompletionPrompt::Tokens(ts) => ts,
        CompletionPrompt::TokensArray(xs) => flatten(xs),
    }
}

/// Decimal text of a token, with a leading `-` when negative.
pub open spec fn int_text(t: i32) -> Seq<u8> {
    if t < 0 {
        seq![45u8] + decimal((-t) as nat)
    } else {
        decimal(t as nat)
    }
}

/// `i32::to_string`.
fn int_to_string(t: i32) -> (r: String)
    ensures
        utf8(r@) == int_text(t),
{
    let mut v: Vec<u8> = Vec::new();
    let mag: u64;
    if t < 0 {
        v.push(45u8);
        mag = (0i64 - t as i64) as u64;
    } else {
        mag = t as u64;
    }
    push_decimal(&mut v, mag);
    proof {
        lemma_decimal_ascii(mag as nat);
        assert(v@ =~= int_text(t));
    }
    string_from_ascii(v)
}

/// The texts that an embedding request embeds, in order.
pub open spec fn embedding_texts_ok(input: EmbeddingInput, r: Seq<String>) -> bool {
    match input {
        EmbeddingInput::Text(s) => r.len() == 1 && r[0]@ == s@,
        EmbeddingInput::Texts(ts) => r.len() == ts@.len() && forall|i: int|
            0 <= i < r.len() ==> #[trigger] r[i]@ == ts@[i]@,
        EmbeddingInput::Tokens(ts) => r.len() == ts@.len() && forall|i: int|
            0 <= i < r.len() ==> utf8(#[trigger] r[i]@) == int_text(ts@[i]),
        EmbeddingInput::TokensArray(xs) => {
            let f = flatten_tokens(xs@, xs@.len());
            r.len() == f.len() && forall|i: int|
                0 <= i < r.len() ==> utf8(#[trigger] r[i]@) == int_text(f[i])
        },
    }
}

fn token_strings(ts: &Vec<i32>) -> (r: Vec<String>)
    ensures
        r@.len() == ts@.len(),
        forall|i: int| 0 <= i < r@.len() ==> utf8(#[trigger] r@[i]@) == int_text(ts@[i]),
{
    let mut out: Vec<String> = Vec::new();
    let mut i: usize = 0;
    while i < ts.len()
        invariant
            i <= ts@.len(),
            out@.len() == i,
            forall|k: int| 0 <= k < i ==> utf8(#[trigger] out@[k]@) == int_text(ts@[k]),
        decreases ts@.len() - i,
    {
        out.push(int_to_string(ts[i]));
        i = i + 1;
    }
    out
}

/// The texts an embedding request embeds: texts as they are, tokens as
/// their decimal text.
pub fn embedding_inputs(input: EmbeddingInput) -> (r: Vec<String>)
    ensures
        embedding_texts_ok(input, r@),
{
    match input {
        EmbeddingInput::Text(s) => {
            let mut out: Vec<String> = Vec::new();
            out.push(s);
            out
        },
        EmbeddingInput::Texts(ts) => ts,
        EmbeddingInput::Tokens(ts) => token_strings(&ts),
        EmbeddingInput::TokensArray(xs) => {
            let f = flatten(xs);
            token_strings(&f)
        },
    }
}

/// Total byte length of the first `k` texts.
pub open spec fn bytes_total(ts: Seq<String>, k: nat) -> int
    decreases k,
{
    if k == 0 || k > ts.len() {
        0
    } else {
        bytes_total(ts, (k - 1) as nat) + utf8(ts[k - 1]@).len()
    }
}

proof fn lemma_bytes_total_mono(ts: Seq<String>, i: nat, j: nat)
    requires
        i <= j <= ts.len(),
    ensures
        bytes_total(ts, i) <= bytes_total(ts, j),
    decreases j - i,
{
    if i < j {
        lemma_bytes_total_mono(ts, i, (j - 1) as nat);
    }
}

/// Usage of an embedding request: the inputs' byte lengths count as prompt
/// tokens, and nothing is generated.
pub fn embedding_usage(inputs: &Vec<String>) -> (r: Usage)
    requires
        bytes_total(inputs@, inputs@.len()) <= usize::MAX,
    ensures
        r.prompt_tokens == bytes_total(inputs@, inputs@.len()),
        r.completion_tokens == 0,
        r.total_tokens == r.prompt_tokens,
{
    let mut total: usize = 0;
    let mut i: usize = 0;
    while i < inputs.len()
        invariant
            i <= inputs@.len(),
            total == bytes_total(inputs@, i as nat),
            bytes_total(inputs@, inputs@.len()) <= usize::MAX,
        decreases inputs@.len() - i,
    {
        proof {
            lemma_bytes_total_mono(inputs@, (i + 1) as nat, inputs@.len());
        }
        total = total + inputs[i].as_str().as_bytes().len();
        i = i + 1;
    }
    Usage { prompt_tokens: total, completion_tokens: total - total, total_tokens: total }
}

/// Usage of a generation of `n` tokens: the generated tokens are counted
/// both as prompt and as completion tokens.
pub fn generation_usage(n: usize) -> (r: Usage)
    requires
        2 * n <= usize::MAX,
    ensures
        r.prompt_tokens == n,
        r.completion_tokens == n,
        r.total_tokens == 2 * n,
{
    Usage { prompt_tokens: n, completion_tokens: n, total_tokens: n + n }
}

/// The finish reason a stream chunk reports: none while the engine says
/// `stop`, the engine's reason otherwise.
pub fn chunk_finish_reason(reason: String) -> (r: Option<String>)
    ensures
        reason@ == "stop"@ ==> r is None,
        reason@ != "stop"@ ==> (r matches Some(s) && s@ == reason@),
{
    if str_eq(reason.as_str(), "stop") {
        None
    } else {
        Some(reason)
    }
}

} // verus!
