//! Prompts as texts and as segments.

use prompt_encoding::conversation::{
    Conversation, ImageSource, InputMessage, ReasoningEffort, ResponseFormat, ToolCall, ToolChoice,
    ToolDefinition,
};
use prompt_encoding::v4::render::{render_message_segments, render_parts};
use prompt_encoding::v4::tool_segments::{render_argument_segments, render_tool_call_segments};
use prompt_encoding::v4::tools::{
    has_argument_object, parameter_template, render_argument_object, render_tool_arguments,
    render_tool_calls, render_tool_prompt, response_schema, tool_call_template,
    tool_calls_template,
    tool_prompt_template, tool_schema,
};
use prompt_encoding::v4::version::VersionEncoding;
use prompt_encoding::v4::{EncodingV4, SYSTEM_SP_TOKEN};
use prompt_encoding::PromptEncoding;
use serde_json::Value;
use tokenizers::Tokenizer;

type EffortPrompt = fn(usize, bool, Option<ReasoningEffort>) -> String;

type Encoding = VersionEncoding<Tokenizer, EffortPrompt>;

/// Asks for an effort before the first message, in thinking mode only.
fn effort_prompt(index: usize, thinking_mode: bool, effort: Option<ReasoningEffort>) -> String {
    match effort {
        Some(effort) if index == 0 && thinking_mode => format!("Effort: {}.", effort.level),
        _ => String::new(),
    }
}

fn v4() -> Encoding {
    VersionEncoding::new(
        false,
        "",
        "tool_calls",
        "invoke",
        "parameter",
        effort_prompt as EffortPrompt,
    )
}

fn v41() -> Encoding {
    VersionEncoding::new(
        true,
        SYSTEM_SP_TOKEN,
        " calls",
        " call",
        " parameter",
        effort_prompt as EffortPrompt,
    )
}

/// JSON with a space behind each comma and colon.
fn spaced(value: &Value) -> String {
    match value {
        Value::Array(items) => {
            let items: Vec<String> = items.iter().map(spaced).collect();
            format!("[{}]", items.join(", "))
        }
        Value::Object(entries) => {
            let entries: Vec<String> = entries
                .iter()
                .map(|(key, value)| format!("{}: {}", Value::from(key.as_str()), spaced(value)))
                .collect();
            format!("{{{}}}", entries.join(", "))
        }
        other => other.to_string(),
    }
}

fn parse(text: &str) -> Value {
    serde_json::from_str(text).unwrap()
}

fn conversation(messages: Vec<InputMessage>) -> Conversation {
    Conversation {
        messages,
        tools: Vec::new(),
        tool_choice: ToolChoice::Auto,
        response_format: ResponseFormat::Text,
        thinking_mode: false,
        reasoning_effort: None,
    }
}

fn system(content: &str) -> InputMessage {
    InputMessage::System { content: content.to_string() }
}

fn user(content: &str) -> InputMessage {
    InputMessage::User { content: content.to_string(), image_sources: Vec::new() }
}

fn user_with(content: &str, locations: &[&str]) -> InputMessage {
    InputMessage::User { content: content.to_string(), image_sources: images(locations) }
}

fn tool_with(id: &str, content: &str, locations: &[&str]) -> InputMessage {
    InputMessage::Tool {
        tool_call_id: id.to_string(),
        content: content.to_string(),
        image_sources: images(locations),
    }
}

fn tool(id: &str, content: &str) -> InputMessage {
    tool_with(id, content, &[])
}

fn images(locations: &[&str]) -> Vec<ImageSource> {
    locations
        .iter()
        .map(|location| ImageSource { location: location.to_string() })
        .collect()
}

fn call(id: &str, name: &str, arguments: &str) -> ToolCall {
    ToolCall { id: id.to_string(), name: name.to_string(), arguments: arguments.to_string() }
}

fn assistant(content: &str, reasoning: Option<&str>, calls: Option<Vec<ToolCall>>) -> InputMessage {
    InputMessage::Assistant {
        content: content.to_string(),
        reasoning_content: reasoning.map(|text| text.to_string()),
        tool_calls: calls,
    }
}

fn weather() -> ToolDefinition {
    ToolDefinition {
        name: "weather".to_string(),
        description: Some("Tells the weather".to_string()),
        parameters: parse(r#"{"type": "object", "properties": {"city": {"type": "string"}}}"#),
    }
}

fn prompt<E: EncodingV4>(encoding: &E, conversation: &Conversation) -> String {
    encoding.render_conversation(conversation, &spaced).prompt
}

#[test]
fn parameter_element() {
    assert_eq!(
        parameter_template("｜DSML｜", "parameter", "city", "true", "Paris"),
        "<｜DSML｜parameter name=\"city\" string=\"true\">Paris</｜DSML｜parameter>"
    );
}

#[test]
fn arguments_of_a_tool_call() {
    let arguments = render_tool_arguments(
        &call("1", "weather", r#"{"city": "Paris", "days": 3, "flags": [true, null], "at": {"a":1}}"#),
        "parameter",
        &spaced,
    );
    assert_eq!(
        arguments,
        "<｜DSML｜parameter name=\"city\" string=\"true\">Paris</｜DSML｜parameter>\n\
         <｜DSML｜parameter name=\"days\" string=\"false\">3</｜DSML｜parameter>\n\
         <｜DSML｜parameter name=\"flags\" string=\"false\">[true, null]</｜DSML｜parameter>\n\
         <｜DSML｜parameter name=\"at\" string=\"false\">{\"a\": 1}</｜DSML｜parameter>"
    );
}

#[test]
fn arguments_keep_their_order_and_escapes_are_read() {
    let arguments = render_tool_arguments(
        &call("1", "f", r#"{"z": "a\nb", "a": "é"}"#),
        "p",
        &spaced,
    );
    assert_eq!(
        arguments,
        "<｜DSML｜p name=\"z\" string=\"true\">a\nb</｜DSML｜p>\n\
         <｜DSML｜p name=\"a\" string=\"true\">é</｜DSML｜p>"
    );
}

#[test]
fn arguments_that_are_no_object_are_one_argument() {
    for text in ["not json", "[1, 2]", "\"text\"", "", "{\"open\": "] {
        assert_eq!(
            render_tool_arguments(&call("1", "f", text), "parameter", &spaced),
            format!("<｜DSML｜parameter name=\"arguments\" string=\"true\">{text}</｜DSML｜parameter>")
        );
    }
}

#[test]
fn no_arguments() {
    assert_eq!(render_tool_arguments(&call("1", "f", "{}"), "parameter", &spaced), "");
}

#[test]
fn entries_of_an_argument_object() {
    let mut object = serde_json::Map::new();
    object.insert("b".to_string(), Value::from("x"));
    object.insert("a".to_string(), Value::from(false));
    assert_eq!(
        render_argument_object(&object, "p", &spaced),
        "<｜DSML｜p name=\"b\" string=\"true\">x</｜DSML｜p>\n\
         <｜DSML｜p name=\"a\" string=\"false\">false</｜DSML｜p>"
    );
}

#[test]
fn tool_call_elements() {
    assert_eq!(
        tool_call_template(&v4(), "weather", "ARGS"),
        "<｜DSML｜invoke name=\"weather\">\nARGS\n</｜DSML｜invoke>"
    );
    assert_eq!(
        tool_calls_template(&v4(), "CALLS"),
        "<｜DSML｜tool_calls>\nCALLS\n</｜DSML｜tool_calls>"
    );
    assert_eq!(tool_calls_template(&v41(), "CALLS"), "<｜DSML｜ calls>\nCALLS\n</｜DSML｜ calls>");
    assert_eq!(
        render_tool_calls(
            &v4(),
            &vec![call("1", "f", r#"{"a": "b"}"#), call("2", "g", "{}")],
            &spaced
        ),
        "<｜DSML｜invoke name=\"f\">\n\
         <｜DSML｜parameter name=\"a\" string=\"true\">b</｜DSML｜parameter>\n\
         </｜DSML｜invoke>\n\
         <｜DSML｜invoke name=\"g\">\n\n</｜DSML｜invoke>"
    );
    assert_eq!(render_tool_calls(&v4(), &Vec::new(), &spaced), "");
}

#[test]
fn schemas() {
    assert_eq!(
        spaced(&tool_schema(&weather())),
        "{\"name\": \"weather\", \"description\": \"Tells the weather\", \"parameters\": \
         {\"type\": \"object\", \"properties\": {\"city\": {\"type\": \"string\"}}}}"
    );
    let bare = ToolDefinition {
        name: "f".to_string(),
        description: None,
        parameters: Value::Null,
    };
    assert_eq!(
        spaced(&tool_schema(&bare)),
        "{\"name\": \"f\", \"description\": \"\", \"parameters\": null}"
    );
    assert_eq!(spaced(&response_schema()), "{\"type\": \"json_object\"}");
}

const TOOL_PROMPT: &str = r#"## Tools

You have access to a set of tools to help answer the user's question. You can invoke tools by writing a "<｜DSML｜tool_calls>" block like the following:

<｜DSML｜tool_calls>
<｜DSML｜invoke name="$TOOL_NAME">
<｜DSML｜parameter name="$PARAMETER_NAME" string="true|false">$PARAMETER_VALUE</｜DSML｜parameter>
...
</｜DSML｜invoke>
<｜DSML｜invoke name="$TOOL_NAME2">
...
</｜DSML｜invoke>
</｜DSML｜tool_calls>

String parameters should be specified as is and set `string="true"`. For all other types (numbers, booleans, arrays, objects), pass the value in JSON format and set `string="false"`.

If thinking_mode is enabled (triggered by <think>), you MUST output your complete reasoning inside <think>...</think> BEFORE any tool calls or final response.

Otherwise, output directly after </think> with tool calls or final response.

### Available Tool Schemas

SCHEMAS

You MUST strictly follow the above defined tool name and parameter schemas to invoke tool calls.
"#;

#[test]
fn prompt_that_presents_tools() {
    assert_eq!(tool_prompt_template(&v4(), "SCHEMAS"), TOOL_PROMPT);
    let other = ToolDefinition {
        name: "f".to_string(),
        description: None,
        parameters: Value::Bool(true),
    };
    let schemas = "{\"name\": \"weather\", \"description\": \"Tells the weather\", \"parameters\": \
         {\"type\": \"object\", \"properties\": {\"city\": {\"type\": \"string\"}}}}\n\
         {\"name\": \"f\", \"description\": \"\", \"parameters\": true}";
    assert_eq!(
        render_tool_prompt(&v4(), &vec![weather(), other], &spaced),
        TOOL_PROMPT.replace("SCHEMAS", schemas)
    );
}

#[test]
fn empty_conversation() {
    assert_eq!(
        prompt(&v4(), &conversation(Vec::new())),
        "<｜begin▁of▁sentence｜><｜Assistant｜></think>"
    );
    let mut thinking = conversation(Vec::new());
    thinking.thinking_mode = true;
    assert_eq!(
        prompt(&v4(), &thinking),
        "<｜begin▁of▁sentence｜><｜Assistant｜><think>"
    );
}

#[test]
fn messages_of_all_kinds() {
    let messages = vec![
        system("Be kind."),
        user("Hi"),
        assistant("Hello", Some("greet"), None),
        InputMessage::LatestReminder { content: "Mind.".to_string() },
        user("Weather?"),
        assistant("", None, Some(vec![call("1", "weather", r#"{"city": "Paris"}"#)])),
        tool("1", "Sunny"),
        user("Thanks"),
    ];
    let quiet = conversation(messages.clone());
    assert_eq!(
        prompt(&v4(), &quiet),
        "<｜begin▁of▁sentence｜>Be kind.<｜User｜>Hi\
         <｜Assistant｜></think>Hello<｜end▁of▁sentence｜>\
         <｜latest_reminder｜>Mind.<｜User｜>Weather?\
         <｜Assistant｜></think>\n\n<｜DSML｜tool_calls>\n<｜DSML｜invoke name=\"weather\">\n\
         <｜DSML｜parameter name=\"city\" string=\"true\">Paris</｜DSML｜parameter>\n\
         </｜DSML｜invoke>\n</｜DSML｜tool_calls><｜end▁of▁sentence｜>\
         <｜User｜><tool_result>Sunny</tool_result>\n\nThanks<｜Assistant｜></think>"
    );
    let mut thinking = conversation(messages);
    thinking.thinking_mode = true;
    assert_eq!(
        prompt(&v41(), &thinking),
        "<｜begin▁of▁sentence｜><｜System｜>Be kind.<｜User｜>Hi\
         <｜Assistant｜><think>greet</think>Hello<｜end▁of▁sentence｜>\
         <｜latest_reminder｜>Mind.<｜User｜>Weather?\
         <｜Assistant｜><think></think>\n\n<｜DSML｜ calls>\n<｜DSML｜ call name=\"weather\">\n\
         <｜DSML｜ parameter name=\"city\" string=\"true\">Paris</｜DSML｜ parameter>\n\
         </｜DSML｜ call>\n</｜DSML｜ calls><｜end▁of▁sentence｜>\
         <｜User｜><tool_result>Sunny</tool_result>\n\nThanks<｜Assistant｜><think>"
    );
}

#[test]
fn first_assistant_message_shows_no_reasoning() {
    let mut first = conversation(vec![assistant("Hello", Some("greet"), Some(Vec::new()))]);
    first.thinking_mode = true;
    assert_eq!(
        prompt(&v4(), &first),
        "<｜begin▁of▁sentence｜><｜Assistant｜></think>Hello<｜end▁of▁sentence｜><｜Assistant｜><think>"
    );
}

#[test]
fn effort_comes_first() {
    let mut with_effort = conversation(vec![user("Hi")]);
    with_effort.thinking_mode = true;
    with_effort.reasoning_effort = Some(ReasoningEffort { level: 2 });
    assert_eq!(
        prompt(&v41(), &with_effort),
        "<｜begin▁of▁sentence｜><｜System｜>Effort: 2.<｜User｜>Hi<｜Assistant｜><think>"
    );
    // Without a system token, the prompt for the effort stands alone.
    assert_eq!(
        prompt(&v4(), &with_effort),
        "<｜begin▁of▁sentence｜>Effort: 2.<｜User｜>Hi<｜Assistant｜><think>"
    );
    with_effort.messages = vec![system("Be kind."), user("Hi")];
    assert_eq!(
        prompt(&v41(), &with_effort),
        "<｜begin▁of▁sentence｜><｜System｜>Effort: 2.Be kind.<｜User｜>Hi<｜Assistant｜><think>"
    );
    with_effort.thinking_mode = false;
    assert_eq!(
        prompt(&v41(), &with_effort),
        "<｜begin▁of▁sentence｜><｜System｜>Be kind.<｜User｜>Hi<｜Assistant｜></think>"
    );
}

#[test]
fn system_messages_in_mid_conversation() {
    let messages = vec![system("a"), user("b"), system("c"), user("d")];
    assert_eq!(
        prompt(&v41(), &conversation(messages.clone())),
        "<｜begin▁of▁sentence｜><｜System｜>a<｜User｜>b<｜System｜>c<｜User｜>d<｜Assistant｜></think>"
    );
    assert_eq!(
        prompt(&v4(), &conversation(messages)),
        "<｜begin▁of▁sentence｜>a<｜User｜>b\n\nc\n\nd<｜Assistant｜></think>"
    );
}

#[test]
fn tools_and_format_go_into_the_system_message() {
    let schemas = spaced(&tool_schema(&weather()));
    let tools = TOOL_PROMPT.replace("SCHEMAS", &schemas);
    let format = "\n\n## Response Format:\n\nYou MUST strictly adhere to the following schema to reply:\n\
                  {\"type\": \"json_object\"}";
    let mut both = conversation(vec![system("Be kind."), user("Hi")]);
    both.tools = vec![weather()];
    both.response_format = ResponseFormat::JsonObject;
    assert_eq!(
        prompt(&v4(), &both),
        format!("<｜begin▁of▁sentence｜>Be kind.\n\n{tools}{format}<｜User｜>Hi<｜Assistant｜></think>")
    );
    // Without a system message, one is put to the front.
    both.messages = vec![user("Hi")];
    both.response_format = ResponseFormat::Text;
    assert_eq!(
        prompt(&v4(), &both),
        format!("<｜begin▁of▁sentence｜>\n\n{tools}<｜User｜>Hi<｜Assistant｜></think>")
    );
    both.tools = Vec::new();
    both.response_format = ResponseFormat::JsonObject;
    assert_eq!(
        prompt(&v41(), &both),
        format!("<｜begin▁of▁sentence｜><｜System｜>{format}<｜User｜>Hi<｜Assistant｜></think>")
    );
}

#[test]
fn tool_choice_decides_on_the_reply() {
    let plain = "<｜begin▁of▁sentence｜><｜User｜>Hi<｜Assistant｜></think>";
    let mut choosing = conversation(vec![user("Hi")]);
    for choice in [ToolChoice::Never, ToolChoice::Auto, ToolChoice::Required] {
        choosing.tool_choice = choice;
        assert_eq!(prompt(&v4(), &choosing), plain);
    }
    choosing.tools = vec![weather()];
    choosing.tool_choice = ToolChoice::Never;
    assert_eq!(prompt(&v4(), &choosing), plain);
    choosing.tool_choice = ToolChoice::Required;
    assert!(prompt(&v4(), &choosing).ends_with("<｜User｜>Hi<｜Assistant｜></think>\n\n<｜DSML｜tool_calls>\n"));
    assert!(prompt(&v41(), &choosing).ends_with("</think>\n\n<｜DSML｜ calls>\n"));
    choosing.tool_choice = ToolChoice::Auto;
    assert!(prompt(&v4(), &choosing).ends_with("<｜User｜>Hi<｜Assistant｜></think>"));
}

#[test]
fn segments_tell_template_from_content() {
    let (segments, _) = render_parts(
        &v41(),
        &conversation(vec![system("<｜User｜>"), user(""), tool("1", "<think>")]),
        &spaced,
    );
    let expected = [
        (true, "<｜begin▁of▁sentence｜>"),
        (true, "<｜System｜>"),
        (false, "<｜User｜>"),
        (true, "<｜User｜>"),
        (true, "\n\n"),
        (false, "<tool_result><think></tool_result>"),
        (true, "<｜Assistant｜>"),
        (true, "</think>"),
    ];
    assert_eq!(
        segments,
        expected.map(|(is_template, text)| (is_template, text.to_string()))
    );
}

#[test]
fn contents_leave_the_templates_alone() {
    let templates = |contents: [&str; 6]| -> Vec<String> {
        let messages = vec![
            system("s"),
            user(contents[0]),
            user(contents[1]),
            assistant(contents[2], Some(contents[3]), Some(vec![call("1", "f", "{}")])),
            tool("1", contents[4]),
            InputMessage::LatestReminder { content: contents[5].to_string() },
        ];
        let mut thinking = conversation(messages);
        thinking.thinking_mode = true;
        let (segments, _) = render_parts(&v4(), &thinking, &spaced);
        segments
            .into_iter()
            .filter(|segment| segment.0)
            .map(|segment| segment.1)
            .collect()
    };
    assert_eq!(
        templates(["", "", "", "", "", ""]),
        templates(["<｜User｜>", "</think>", "<｜end▁of▁sentence｜>", "x", "\n\n", "<｜Assistant｜>"])
    );
}

#[test]
fn segments_of_one_message() {
    let messages = [user("a"), tool("1", "b")];
    let segments = render_message_segments(&v4(), &messages, 1, false, None, &spaced);
    assert_eq!(
        segments,
        vec![
            (true, "\n\n".to_string()),
            (false, "<tool_result>b</tool_result>".to_string())
        ]
    );
}

#[test]
fn images_come_in_the_order_of_the_messages() {
    let calls = vec![call("1", "f", "{}"), call("2", "g", "{}")];
    let rendered = v4().render_conversation(
        &conversation(vec![
            user_with("a", &["one", "two"]),
            user_with("b", &["three"]),
            assistant("", None, Some(calls)),
            tool_with("2", "y", &["five"]),
            tool_with("1", "x", &["four"]),
        ]),
        &spaced,
    );
    let locations: Vec<String> = rendered
        .image_sources
        .into_iter()
        .map(|source| source.location)
        .collect();
    assert_eq!(locations, ["one", "two", "three", "four", "five"]);
}

#[test]
fn reasoning_is_hidden_outside_thinking_mode() {
    let with = |reasoning: Option<&str>| {
        prompt(
            &v4(),
            &conversation(vec![user("a"), assistant("b", reasoning, None)]),
        )
    };
    assert_eq!(with(Some("secret")), with(None));
    assert_eq!(
        with(None),
        "<｜begin▁of▁sentence｜><｜User｜>a<｜Assistant｜></think>b<｜end▁of▁sentence｜><｜Assistant｜></think>"
    );
}

fn template(text: &str) -> (bool, String) {
    (true, text.to_string())
}

fn content(text: &str) -> (bool, String) {
    (false, text.to_string())
}

#[test]
fn tool_calls_are_parted_into_markup_and_content() {
    let calls = vec![
        call("1", "f", r#"{"q": "<｜User｜>", "n": [1, 2]}"#),
        call("2", "g", "<think>"),
        call("3", "h", "{}"),
    ];
    let segments = render_tool_call_segments(&v4(), &calls, &spaced);
    assert_eq!(
        segments,
        vec![
            template("\n\n<｜DSML｜tool_calls>\n<｜DSML｜invoke name=\""),
            content("f"),
            template("\">\n<｜DSML｜parameter name=\""),
            content("q"),
            template("\" string=\"true\">"),
            content("<｜User｜>"),
            template("</｜DSML｜parameter>\n<｜DSML｜parameter name=\""),
            content("n"),
            template("\" string=\"false\">"),
            content("[1, 2]"),
            template("</｜DSML｜parameter>\n</｜DSML｜invoke>\n<｜DSML｜invoke name=\""),
            content("g"),
            template("\">\n<｜DSML｜parameter name=\""),
            content("arguments"),
            template("\" string=\"true\">"),
            content("<think>"),
            template("</｜DSML｜parameter>\n</｜DSML｜invoke>\n<｜DSML｜invoke name=\""),
            content("h"),
            template("\">\n\n</｜DSML｜invoke>\n</｜DSML｜tool_calls>"),
        ]
    );
    // Put together, they are the text of the calls.
    let text: String = segments.iter().map(|(_, text)| text.as_str()).collect();
    let block = tool_calls_template(&v4(), &render_tool_calls(&v4(), &calls, &spaced));
    assert_eq!(text, format!("\n\n{block}"));
    assert_eq!(render_tool_call_segments(&v4(), &Vec::new(), &spaced), Vec::new());
}

#[test]
fn control_tokens_in_arguments_stay_content() {
    let messages = vec![
        user("q"),
        assistant("", None, Some(vec![call("1", "f", r#"{"q":"<｜User｜>"}"#)])),
    ];
    let segments = render_message_segments(&v41(), &messages, 1, false, None, &spaced);
    assert_eq!(
        segments,
        vec![
            template("<｜Assistant｜>"),
            template("</think>"),
            template("\n\n<｜DSML｜ calls>\n<｜DSML｜ call name=\""),
            content("f"),
            template("\">\n<｜DSML｜ parameter name=\""),
            content("q"),
            template("\" string=\"true\">"),
            content("<｜User｜>"),
            template("</｜DSML｜ parameter>\n</｜DSML｜ call>\n</｜DSML｜ calls>"),
            template("<｜end▁of▁sentence｜>"),
        ]
    );
}

#[test]
fn segments_of_an_argument_object() {
    let object = parse(r#"{"a": "x", "b": null}"#);
    let object = object.as_object().expect("an object");
    assert_eq!(
        render_argument_segments(object, "parameter", &spaced),
        vec![
            template("<｜DSML｜parameter name=\""),
            content("a"),
            template("\" string=\"true\">"),
            content("x"),
            template("</｜DSML｜parameter>\n<｜DSML｜parameter name=\""),
            content("b"),
            template("\" string=\"false\">"),
            content("null"),
            template("</｜DSML｜parameter>"),
        ]
    );
}

#[test]
fn names_and_arguments_leave_the_templates_alone() {
    let templates = |name: &str, arguments: &str| {
        let messages = vec![user("q"), assistant("", None, Some(vec![call("1", name, arguments)]))];
        let (segments, _) = render_parts(&v4(), &conversation(messages), &spaced);
        let templates: Vec<String> = segments
            .into_iter()
            .filter(|(is_template, _)| *is_template)
            .map(|(_, text)| text)
            .collect();
        templates
    };
    let plain = templates("f", r#"{"a": "b"}"#);
    assert_eq!(templates("<｜User｜>", r#"{"</think>": "<｜end▁of▁sentence｜>"}"#), plain);
    assert_eq!(templates("", r#"{"": ""}"#), plain);
    assert_eq!(templates("f", "<｜User｜>"), plain);
    // Whether an argument is a string shows in the markup.
    assert_ne!(templates("f", r#"{"a": 1}"#), plain);
}

#[test]
fn arguments_are_an_object_or_not() {
    assert!(has_argument_object(&call("1", "f", r#"{"a": 1}"#)));
    assert!(has_argument_object(&call("1", "f", "{}")));
    for text in ["", "x", "[1]", "\"{}\"", "{} x"] {
        assert!(!has_argument_object(&call("1", "f", text)));
    }
}
