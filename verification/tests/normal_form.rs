//! The normal form of messages.

use prompt_encoding::conversation::{ImageSource, InputMessage, ReasoningEffort, ToolCall};
use prompt_encoding::v4::normalize::normalize_messages;
use prompt_encoding::v4::tool_order::sort_tool_results_by_call_order;
use prompt_encoding::v4::version::VersionEncoding;
use tokenizers::Tokenizer;

type EffortPrompt = fn(usize, bool, Option<ReasoningEffort>) -> String;

fn no_effort(_index: usize, _thinking_mode: bool, _effort: Option<ReasoningEffort>) -> String {
    String::new()
}

fn encoding(mid_conversation_system: bool) -> VersionEncoding<Tokenizer, EffortPrompt> {
    VersionEncoding::new(
        mid_conversation_system,
        "",
        "tool_calls",
        "invoke",
        "parameter",
        no_effort as EffortPrompt,
    )
}

fn system(content: &str) -> InputMessage {
    InputMessage::System { content: content.to_string() }
}

fn user(content: &str, locations: &[&str]) -> InputMessage {
    InputMessage::User {
        content: content.to_string(),
        image_sources: locations
            .iter()
            .map(|location| ImageSource { location: location.to_string() })
            .collect(),
    }
}

fn tool(id: &str, content: &str) -> InputMessage {
    InputMessage::Tool {
        tool_call_id: id.to_string(),
        content: content.to_string(),
        image_sources: Vec::new(),
    }
}

fn calls(ids: &[&str]) -> InputMessage {
    InputMessage::Assistant {
        content: String::new(),
        reasoning_content: None,
        tool_calls: Some(
            ids.iter()
                .map(|id| ToolCall {
                    id: id.to_string(),
                    name: "f".to_string(),
                    arguments: "{}".to_string(),
                })
                .collect(),
        ),
    }
}

fn reply(content: &str) -> InputMessage {
    InputMessage::Assistant {
        content: content.to_string(),
        reasoning_content: None,
        tool_calls: None,
    }
}

/// A short name for each message.
fn outline(messages: &[InputMessage]) -> Vec<String> {
    messages
        .iter()
        .map(|message| match message {
            InputMessage::System { content } => format!("system:{content}"),
            InputMessage::User { content, image_sources } => {
                let locations: Vec<&str> = image_sources
                    .iter()
                    .map(|source| source.location.as_str())
                    .collect();
                format!("user:{content}{}", locations.join(","))
            }
            InputMessage::LatestReminder { content } => format!("reminder:{content}"),
            InputMessage::Tool { tool_call_id, content, .. } => {
                format!("tool:{tool_call_id}:{content}")
            }
            InputMessage::Assistant { content, tool_calls, .. } => {
                let count = tool_calls.as_ref().map_or(0, |calls| calls.len());
                format!("assistant:{content}{count}")
            }
        })
        .collect()
}

fn normalized(mid_conversation_system: bool, messages: &[InputMessage]) -> Vec<String> {
    outline(&normalize_messages(&encoding(mid_conversation_system), messages))
}

fn sorted(mut messages: Vec<InputMessage>) -> Vec<String> {
    sort_tool_results_by_call_order(&mut messages);
    outline(&messages)
}

#[test]
fn leading_system_messages_become_one() {
    let messages = [system("a"), system(""), system("b"), user("c", &[])];
    assert_eq!(normalized(false, &messages), ["system:a\n\nb", "user:c"]);
    assert_eq!(
        normalized(true, &messages),
        ["system:a", "system:", "system:b", "user:c"]
    );
    assert_eq!(normalized(false, &[system(""), system("b")]), ["system:b"]);
    assert_eq!(normalized(false, &[system("a"), system("")]), ["system:a"]);
    assert_eq!(normalized(false, &[system("")]), ["system:"]);
}

#[test]
fn late_system_messages_become_user_messages() {
    let messages = [user("a", &[]), system("b"), system(""), reply("c"), system("d")];
    assert_eq!(
        normalized(false, &messages),
        ["user:a", "user:b", "assistant:c0", "user:d"]
    );
    assert_eq!(
        normalized(true, &messages),
        ["user:a", "system:b", "system:", "assistant:c0", "system:d"]
    );
}

#[test]
fn user_message_goes_on_from_a_late_system_message() {
    let messages = [user("a", &["1"]), system("b"), user("c", &["2"])];
    assert_eq!(normalized(false, &messages), ["user:a1", "user:b\n\nc2"]);
}

#[test]
fn user_messages_in_a_row_become_one() {
    let messages = [
        user("a", &["1"]),
        user("", &[]),
        user("b", &["2", "3"]),
        reply("c"),
        user("d", &[]),
    ];
    assert_eq!(
        normalized(true, &messages),
        ["user:a\n\n\n\nb1,2,3", "assistant:c0", "user:d"]
    );
}

#[test]
fn reminder_ends_the_front() {
    let messages = [
        InputMessage::LatestReminder { content: "r".to_string() },
        system("a"),
    ];
    assert_eq!(normalized(false, &messages), ["reminder:r", "user:a"]);
}

#[test]
fn normal_form_is_fixed() {
    let messages = [
        system("a"),
        system("b"),
        user("c", &[]),
        user("d", &[]),
        calls(&["1", "2"]),
        tool("2", "y"),
        user("e", &[]),
        tool("1", "x"),
    ];
    for mid_conversation_system in [false, true] {
        let encoding = encoding(mid_conversation_system);
        let once = normalize_messages(&encoding, &messages);
        let twice = normalize_messages(&encoding, &once);
        assert_eq!(outline(&once), outline(&twice));
    }
    // A late system message makes the difference.
    let late = [user("a", &[]), system("b")];
    let once = normalize_messages(&encoding(false), &late);
    let twice = normalize_messages(&encoding(false), &once);
    assert_eq!(outline(&once), ["user:a", "user:b"]);
    assert_eq!(outline(&twice), ["user:a\n\nb"]);
}

#[test]
fn results_follow_the_order_of_the_calls() {
    assert_eq!(
        sorted(vec![
            calls(&["1", "2", "3"]),
            tool("3", "z"),
            user("u", &[]),
            tool("1", "x"),
            tool("2", "y"),
        ]),
        ["assistant:3", "tool:1:x", "user:u", "tool:2:y", "tool:3:z"]
    );
}

#[test]
fn results_of_one_place_keep_their_order() {
    assert_eq!(
        sorted(vec![
            calls(&["1", "2", "1"]),
            tool("2", "a"),
            tool("?", "b"),
            tool("1", "c"),
            tool("2", "d"),
            tool("!", "e"),
        ]),
        ["assistant:3", "tool:?:b", "tool:1:c", "tool:!:e", "tool:2:a", "tool:2:d"]
    );
}

#[test]
fn results_without_calls_stay() {
    assert_eq!(
        sorted(vec![tool("2", "y"), tool("1", "x"), reply("c"), tool("4", "b"), tool("3", "a")]),
        ["tool:2:y", "tool:1:x", "assistant:c0", "tool:4:b", "tool:3:a"]
    );
    assert_eq!(sorted(vec![calls(&[]), tool("2", "y"), tool("1", "x")]), ["assistant:0", "tool:2:y", "tool:1:x"]);
    assert_eq!(sorted(Vec::new()), Vec::<String>::new());
}

#[test]
fn calls_hold_until_others_are_made() {
    assert_eq!(
        sorted(vec![
            calls(&["1", "2"]),
            tool("2", "y"),
            tool("1", "x"),
            reply("c"),
            tool("2", "b"),
            tool("1", "a"),
            calls(&["2", "1"]),
            tool("1", "n"),
            tool("2", "m"),
        ]),
        [
            "assistant:2",
            "tool:1:x",
            "tool:2:y",
            "assistant:c0",
            "tool:1:a",
            "tool:2:b",
            "assistant:2",
            "tool:2:m",
            "tool:1:n"
        ]
    );
}

#[test]
fn runs_are_sorted_apart() {
    assert_eq!(
        sorted(vec![
            calls(&["1", "2"]),
            tool("2", "y"),
            InputMessage::LatestReminder { content: "r".to_string() },
            tool("1", "x"),
        ]),
        ["assistant:2", "tool:2:y", "reminder:r", "tool:1:x"]
    );
}

#[test]
fn sorting_again_changes_nothing() {
    let mut messages = vec![
        calls(&["1", "2", "3"]),
        tool("3", "z"),
        tool("2", "y"),
        user("u", &[]),
        tool("1", "x"),
    ];
    sort_tool_results_by_call_order(&mut messages);
    let once = outline(&messages);
    sort_tool_results_by_call_order(&mut messages);
    assert_eq!(outline(&messages), once);
}
