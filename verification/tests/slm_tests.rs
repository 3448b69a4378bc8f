use inode::slm::{clean_reply, converse_reply, verify_reply, SlmClient, SlmRes, SlmVer};

#[test]
fn client_carries_url_and_system_prompt() {
    let c = SlmClient::new("http://localhost:11434".to_string());
    assert_eq!(c.url, "http://localhost:11434");
    assert!(c.sys_prompt.starts_with("You are a high-precision inference engine"));
    assert!(c.sys_prompt.ends_with("outside the raw JSON."));
    assert!(c.sys_prompt.contains("You MUST respond exactly as: {\"res\": \"your_dense_accurate_response\"}"));
}

#[test]
fn converse_request_layout() {
    let c = SlmClient::new("http://h:1".to_string());
    let r = c.converse_request("hi there");
    assert_eq!(r.url, "http://h:1/api/generate");
    assert_eq!(r.model, "qwen2.5:1.5b");
    assert_eq!(r.prompt, format!("{}\n\nprompt: hi there\n\nJSON Output:", c.sys_prompt));
}

#[test]
fn verify_request_layout() {
    let c = SlmClient::new("http://h:1".to_string());
    let r = c.verify_request("Q", "A");
    assert_eq!(r.url, "http://h:1/api/generate");
    assert_eq!(r.model, "qwen2.5:1.5b");
    assert!(r.prompt.starts_with("You are a highly critical evaluator of AI outputs."));
    assert!(r.prompt.contains("{\"score\": \"0.XX\"}"));
    assert!(r.prompt.ends_with("\n\nPrompt: Q\n\nResponse to evaluate: A\n\nJSON Output:"));
}

#[test]
fn clean_reply_strips_fences() {
    assert_eq!(clean_reply(Some("```json\n{\"res\": \"x\"}\n```")), "{\"res\": \"x\"}");
    assert_eq!(clean_reply(Some("  {\"score\": \"0.5\"}  ")), "{\"score\": \"0.5\"}");
    assert_eq!(clean_reply(Some("{\"res\": \"x\"}```")), "{\"res\": \"x\"}");
    assert_eq!(clean_reply(None), "");
    assert_eq!(clean_reply(Some("   ")), "");
}

#[test]
fn clean_reply_drops_an_unclosed_fence() {
    // The opening fence goes whether or not a closing fence follows.
    assert_eq!(clean_reply(Some(" ```json{\"res\": \"x\"} ")), "{\"res\": \"x\"}");
    assert_eq!(clean_reply(Some("```json{\"score\": \"0.7\"}")), "{\"score\": \"0.7\"}");
}

#[test]
fn replies_fall_back() {
    assert_eq!(converse_reply(Some(SlmRes { res: "42".to_string() })), "42");
    assert_eq!(converse_reply(None), "Invalid response for SLM");
    assert_eq!(verify_reply(Some(SlmVer { score: "0.83".to_string() })), "0.83");
    assert_eq!(verify_reply(None), "0.00");
}
