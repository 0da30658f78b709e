use ai_proxy::orchestrator::{
    build_system_prompt, build_user_message, final_text, needs_tool_round, tool_call_action,
    tool_result_content, LlmReply, ToolAction, ToolCall,
};

#[test]
fn system_prompt_embeds_the_previous_summary() {
    let prompt = build_system_prompt(&b"Earlier findings.".to_vec());
    let text = String::from_utf8(prompt).unwrap();
    assert!(text.starts_with("You are an intelligent browsing behavior analyst."));
    assert!(text.contains("**Current Analysis:**\nEarlier findings.\n"));
    assert!(text.ends_with("Provide your analysis:"));
    assert!(!text.contains("None - this is the first analysis."));
}

#[test]
fn system_prompt_marks_a_first_analysis() {
    let prompt = build_system_prompt(&Vec::new());
    let text = String::from_utf8(prompt).unwrap();
    assert!(text.contains("**Current Analysis:**\nNone - this is the first analysis.\n"));
}

#[test]
fn user_message_lists_urls_one_per_line() {
    let urls = vec![b"http://a".to_vec(), b"http://b".to_vec(), b"http://c".to_vec()];
    let msg = build_user_message(&urls);
    assert_eq!(msg, b"**New Activity:**\nhttp://a\nhttp://b\nhttp://c".to_vec());
    assert_eq!(build_user_message(&Vec::new()), b"**New Activity:**\n".to_vec());
}

#[test]
fn tool_call_with_url_is_fetched() {
    let call = ToolCall {
        id: b"call-1".to_vec(),
        name: b"fetch_page_content".to_vec(),
        arguments: b"{\"url\": \"http://example.com/\"}".to_vec(),
    };
    match tool_call_action(&call) {
        ToolAction::Fetch(url) => assert_eq!(url, b"http://example.com/".to_vec()),
        _ => panic!("expected a fetch"),
    }
}

#[test]
fn unknown_tool_is_skipped() {
    let call = ToolCall {
        id: b"call-2".to_vec(),
        name: b"delete_everything".to_vec(),
        arguments: b"{\"url\": \"http://example.com/\"}".to_vec(),
    };
    assert!(matches!(tool_call_action(&call), ToolAction::Skip));
}

#[test]
fn json_without_a_url_string_is_skipped() {
    let call = ToolCall {
        id: b"call-3".to_vec(),
        name: b"fetch_page_content".to_vec(),
        arguments: b"{\"page\": 3}".to_vec(),
    };
    assert!(matches!(tool_call_action(&call), ToolAction::Skip));
    let call = ToolCall {
        id: b"call-4".to_vec(),
        name: b"fetch_page_content".to_vec(),
        arguments: b"{\"url\": 17}".to_vec(),
    };
    assert!(matches!(tool_call_action(&call), ToolAction::Skip));
}

#[test]
fn malformed_arguments_fail_the_summarization() {
    let call = ToolCall {
        id: b"call-5".to_vec(),
        name: b"fetch_page_content".to_vec(),
        arguments: b"not json at all".to_vec(),
    };
    assert!(matches!(tool_call_action(&call), ToolAction::Fail));
}

#[test]
fn page_text_is_the_paragraphs_joined_by_newlines() {
    let html = b"<html><body><h1>Title</h1><p>Hello</p><div><p>World</p></div></body></html>"
        .to_vec();
    assert_eq!(tool_result_content(&html), b"Hello\nWorld".to_vec());
}

#[test]
fn any_tool_call_list_triggers_the_follow_up_round() {
    let with_empty_list = LlmReply {
        content: Some(b"text".to_vec()),
        tool_calls: Some(Vec::new()),
    };
    assert!(needs_tool_round(&with_empty_list));
    let without = LlmReply {
        content: Some(b"text".to_vec()),
        tool_calls: None,
    };
    assert!(!needs_tool_round(&without));
}

#[test]
fn final_text_prefers_the_follow_up_then_the_first_reply() {
    let first = Some(b"first".to_vec());
    assert_eq!(
        final_text(&first, &Some(Some(b"follow-up".to_vec()))),
        b"follow-up".to_vec()
    );
    assert_eq!(final_text(&first, &Some(None)), b"first".to_vec());
    assert_eq!(final_text(&first, &None), b"first".to_vec());
    assert_eq!(final_text(&None, &Some(None)), Vec::<u8>::new());
    assert_eq!(final_text(&None, &None), Vec::<u8>::new());
}
