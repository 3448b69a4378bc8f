//! Requests to the local language model and the reading of its replies.

use crate::text::{
    ends_with, has_prefix, has_suffix, lemma_trim_idempotent, lemma_trim_unchanged, starts_with, trim,
    trim_spec,
};
use vstd::prelude::*;

verus! {

/// A generated answer, as the model is told to reply.
#[derive(Debug)]
pub struct SlmRes {
    pub res: String,
}

/// A verifier's score, as the model is told to reply.
#[derive(Debug)]
pub struct SlmVer {
    pub score: String,
}

/// The client of a model server at `url`, with the system prompt that
/// precedes every prompt it generates for.
#[derive(Debug)]
pub struct SlmClient {
    pub url: String,
    pub sys_prompt: String,
}

/// One request to the model server: where to post it, which model, and the
/// full prompt. Streaming is off and the temperature is zero.
#[derive(Debug)]
pub struct GenerateRequest {
    pub url: String,
    pub model: String,
    pub prompt: String,
}

/// The system prompt for generating answers.
pub open spec fn generation_system_prompt() -> Seq<char> {
    r#"You are a high-precision inference engine operating in a strict P2P network.
Your output will be evaluated by a ruthless cryptographic validator node that scores responses from 0.00 to 0.99. 

To maximize your score, you MUST adhere to these rules:
1. Zero Fluff: Never use conversational filler (e.g., "Here is the answer", "Sure!").
2. High Density: Answer the prompt accurately and comprehensively, but with maximum conciseness.
3. No Hallucinations: Stick strictly to known facts. If a prompt is nonsensical, state that directly.

We will converse in a strict JSON format. 
You will receive the prompt as: {"prompt": "user_input"}
You MUST respond exactly as: {"res": "your_dense_accurate_response"}

Do not include markdown blocks, code wrappers, or any trailing text outside the raw JSON."#@
}

/// The system prompt for scoring answers.
pub open spec fn verification_system_prompt() -> Seq<char> {
    "You are a highly critical evaluator of AI outputs. 
            Your sole objective is to score the provided 'Response' based on how accurately, concisely, and completely it answers the 'Prompt'.
            Scale: 0.00 to 0.99. 
            Rules:
            1. NEVER award a 1.0 or 1.
            2. Deduct points for hallucination. 
            3. If the response is mediocre, score it below 0.5.

            You must output EXACTLY and ONLY valid JSON matching this schema:
            {\"score\": \"0.XX\"}
            Do not include markdown blocks, text wrappers, explanations, or any trailing characters outside the raw JSON structure."@
}

/// The model that every request names.
pub open spec fn model_name() -> Seq<char> {
    "qwen2.5:1.5b"@
}

/// The endpoint of the model server at `url`.
pub open spec fn generate_endpoint(url: Seq<char>) -> Seq<char> {
    url + "/api/generate"@
}

/// The full prompt for generating an answer to `prompt`.
pub open spec fn generation_prompt(sys: Seq<char>, prompt: Seq<char>) -> Seq<char> {
    sys + "\n\nprompt: "@ + prompt + "\n\nJSON Output:"@
}

/// The full prompt for scoring the answer `res` to `prompt`.
pub open spec fn verification_prompt(prompt: Seq<char>, res: Seq<char>) -> Seq<char> {
    verification_system_prompt() + "\n\nPrompt: "@ + prompt + "\n\nResponse to evaluate: "@ + res
        + "\n\nJSON Output:"@
}

impl SlmClient {
    /// A client of the model server at `url`, with the generation system
    /// prompt.
    pub fn new(url: String) -> (r: SlmClient)
        ensures
            r.url == url,
            r.sys_prompt@ == generation_system_prompt(),
    {
        let sys_prompt = String::from_str(
            r#"You are a high-precision inference engine operating in a strict P2P network.
Your output will be evaluated by a ruthless cryptographic validator node that scores responses from 0.00 to 0.99. 

To maximize your score, you MUST adhere to these rules:
1. Zero Fluff: Never use conversational filler (e.g., "Here is the answer", "Sure!").
2. High Density: Answer the prompt accurately and comprehensively, but with maximum conciseness.
3. No Hallucinations: Stick strictly to known facts. If a prompt is nonsensical, state that directly.

We will converse in a strict JSON format. 
You will receive the prompt as: {"prompt": "user_input"}
You MUST respond exactly as: {"res": "your_dense_accurate_response"}

Do not include markdown blocks, code wrappers, or any trailing text outside the raw JSON."#,
        );
        SlmClient { url, sys_prompt }
    }

    fn endpoint(&self) -> (r: String)
        ensures
            r@ == generate_endpoint(self.url@),
    {
        let mut u = self.url.clone();
        u.append("/api/generate");
        u
    }

    fn model() -> (r: String)
        ensures
            r@ == model_name(),
    {
        String::from_str("qwen2.5:1.5b")
    }

    /// The request that asks the model to answer `prompt`.
    pub fn converse_request(&self, prompt: &str) -> (r: GenerateRequest)
        ensures
            r.url@ == generate_endpoint(self.url@),
            r.model@ == model_name(),
            r.prompt@ == generation_prompt(self.sys_prompt@, prompt@),
    {
        let mut p = self.sys_prompt.clone();
        p.append("\n\nprompt: ");
        p.append(prompt);
        p.append("\n\nJSON Output:");
        GenerateRequest { url: self.endpoint(), model: Self::model(), prompt: p }
    }

    /// The request that asks the model to score the answer `res` to `prompt`.
    pub fn verify_request(&self, prompt: &str, res: &str) -> (r: GenerateRequest)
        ensures
            r.url@ == generate_endpoint(self.url@),
            r.model@ == model_name(),
            r.prompt@ == verification_prompt(prompt@, res@),
    {
        let mut p = String::from_str(
            "You are a highly critical evaluator of AI outputs. 
            Your sole objective is to score the provided 'Response' based on how accurately, concisely, and completely it answers the 'Prompt'.
            Scale: 0.00 to 0.99. 
            Rules:
            1. NEVER award a 1.0 or 1.
            2. Deduct points for hallucination. 
            3. If the response is mediocre, score it below 0.5.

            You must output EXACTLY and ONLY valid JSON matching this schema:
            {\"score\": \"0.XX\"}
            Do not include markdown blocks, text wrappers, explanations, or any trailing characters outside the raw JSON structure.",
        );
        p.append("\n\nPrompt: ");
        p.append(prompt);
        p.append("\n\nResponse to evaluate: ");
        p.append(res);
        p.append("\n\nJSON Output:");
        GenerateRequest { url: self.endpoint(), model: Self::model(), prompt: p }
    }
}

/// The text of a model reply once stripped for parsing: the reply trimmed;
/// a leading "```json" dropped where there is one; then a trailing "```"
/// dropped where there is one; trimmed again.
pub open spec fn cleaned_reply(reply: Option<Seq<char>>) -> Seq<char> {
    let raw = trim_spec(
        match reply {
            Some(r) => r,
            None => seq![],
        },
    );
    let open = "```json"@;
    let close = "```"@;
    let after_open = if starts_with(raw, open) {
        raw.skip(open.len() as int)
    } else {
        raw
    };
    let after_close = if ends_with(after_open, close) {
        after_open.take(after_open.len() - close.len())
    } else {
        after_open
    };
    trim_spec(after_close)
}

/// Strips a model reply (the `response` field of the server's answer, if
/// it holds a string) down to the JSON it should contain.
pub fn clean_reply(reply: Option<&str>) -> (r: String)
    ensures
        r@ == cleaned_reply(
            match reply {
                Some(s) => Some(s@),
                None => None,
            },
        ),
{
    let raw = match reply {
        Some(s) => trim(s),
        None => trim(""),
    };
    proof {
        if reply is None {
            assert(""@.len() == 0) by {
                reveal_strlit("");
            }
            assert(""@ =~= Seq::<char>::empty());
        }
    }
    let n = raw.as_str().unicode_len();
    let after_open: &str = if has_prefix(raw.as_str(), "```json") {
        let k = "```json".unicode_len();
        proof {
            assert(raw@.subrange(k as int, n as int) =~= raw@.skip(k as int));
        }
        raw.as_str().substring_char(k, n)
    } else {
        proof {
            assert(raw@.subrange(0, n as int) =~= raw@);
        }
        raw.as_str().substring_char(0, n)
    };
    let after_close: &str = if has_suffix(after_open, "```") {
        let m = after_open.unicode_len();
        let k = "```".unicode_len();
        proof {
            assert(after_open@.subrange(0, m - k) =~= after_open@.take(m - k));
        }
        after_open.substring_char(0, m - k)
    } else {
        after_open
    };
    trim(after_close)
}

/// The answer to hand on: the parsed reply's text, or a fixed notice when
/// the reply was not the JSON asked for.
pub fn converse_reply(parsed: Option<SlmRes>) -> (r: String)
    ensures
        r@ == (match parsed {
            Some(p) => p.res@,
            None => "Invalid response for SLM"@,
        }),
{
    match parsed {
        Some(p) => p.res,
        None => String::from_str("Invalid response for SLM"),
    }
}

/// The score to hand on: the parsed reply's score, or a failing "0.00"
/// when the reply was not the JSON asked for.
pub fn verify_reply(parsed: Option<SlmVer>) -> (r: String)
    ensures
        r@ == (match parsed {
            Some(p) => p.score@,
            None => "0.00"@,
        }),
{
    match parsed {
        Some(p) => p.score,
        None => String::from_str("0.00"),
    }
}

/// White space around a reply makes no difference to how it is cleaned:
/// cleaning a reply gives what cleaning its trimmed form gives, so fences
/// followed or preceded by white space are removed as at the very ends.
pub proof fn lemma_clean_ignores_surrounding_space(reply: Seq<char>)
    ensures
        cleaned_reply(Some(reply)) == cleaned_reply(Some(trim_spec(reply))),
{
    lemma_trim_idempotent(reply);
}

/// A reply made of an opening "```json", a text `x` and a closing "```"
/// cleans to `x` trimmed: both fences go.
pub proof fn lemma_clean_strips_both_fences(x: Seq<char>)
    ensures
        cleaned_reply(Some("```json"@ + x + "```"@)) == trim_spec(x),
{
    reveal_strlit("```json");
    reveal_strlit("```");
    let open = "```json"@;
    let close = "```"@;
    let w = open + x + close;
    assert(w[0] == '`');
    assert(w.last() == '`');
    lemma_trim_unchanged(w);
    assert(w.take(open.len() as int) =~= open);
    let after_open = w.skip(open.len() as int);
    assert(after_open =~= x + close);
    assert(after_open.skip(after_open.len() - close.len()) =~= close);
    assert(after_open.take(after_open.len() - close.len()) =~= x);
}

/// A reply with an opening "```json" and no closing fence loses the
/// opening fence all the same: what follows it is kept, trimmed.
pub proof fn lemma_clean_strips_an_unclosed_fence(t: Seq<char>)
    requires
        trim_spec(t) == t,
        !ends_with(t, "```"@),
    ensures
        cleaned_reply(Some("```json"@ + t)) == t,
{
    reveal_strlit("```json");
    let open = "```json"@;
    let w = open + t;
    lemma_trim_idempotent(t);
    assert(w[0] == '`');
    if t.len() > 0 {
        assert(w.last() == t.last());
    } else {
        assert(w.last() == 'n');
    }
    lemma_trim_unchanged(w);
    assert(w.take(open.len() as int) =~= open);
    assert(w.skip(open.len() as int) =~= t);
}

/// A reply without fences and without white space at its ends is kept as
/// it is, and no reply at all cleans to the empty text.
pub proof fn lemma_clean_keeps_plain_replies(r: Seq<char>)
    requires
        trim_spec(r) == r,
        !starts_with(r, "```json"@),
        !ends_with(r, "```"@),
    ensures
        cleaned_reply(Some(r)) == r,
        cleaned_reply(None) == Seq::<char>::empty(),
{
    reveal_strlit("```json");
    reveal_strlit("```");
    lemma_trim_unchanged(Seq::<char>::empty());
}

} // verus!

