//! Conversations as segments of a prompt.

use crate::conversation;
use crate::conversation::{
    Conversation, ConversationModel, ImageSource, InputMessage, MessageModel, ReasoningEffort,
    ResponseFormat, ToolChoice,
};
use crate::json;
use crate::text::concat;
use crate::text;
use crate::v4::normalize;
use crate::v4::normalize::normalize_messages;
use crate::v4::tool_order;
use crate::v4::tool_segments;
use crate::v4::tool_segments::render_tool_call_segments;
use crate::v4::tools;
use crate::v4::tools::{render_tool_prompt, response_schema};
use crate::v4::{
    EncodingV4, Markup, ASSISTANT_SP_TOKEN, BOS_TOKEN, DSML_SP_TOKEN, EOS_TOKEN,
    LATEST_REMINDER_SP_TOKEN, THINKING_END_TOKEN, THINKING_START_TOKEN, USER_SP_TOKEN,
};
use serde_json::Value;
use vstd::prelude::*;

verus! {

/// A rendered prompt fragment: `true` marks template control tokens (encoded
/// with added-token recognition), `false` marks message content (encoded as
/// plain BPE so user-supplied control-token literals are not smuggled in as
/// single control tokens).
pub type PromptSegment = (bool, String);

/// Model of a [`PromptSegment`].
pub type SegmentModel = (bool, Seq<char>);

/// The models of a list of segments.
pub open spec fn segment_views(segments: Seq<PromptSegment>) -> Seq<SegmentModel> {
    segments.map_values(|segment: PromptSegment| (segment.0, segment.1@))
}

/// Has some text.
pub open spec fn is_filled() -> spec_fn(SegmentModel) -> bool {
    |part: SegmentModel| part.1.len() > 0
}

/// What is left of `parts` without those that have no text.
pub open spec fn filled(parts: Seq<SegmentModel>) -> Seq<SegmentModel> {
    parts.filter(is_filled())
}

/// What stands before a message of the user's side: the token that starts a
/// user message, or an empty line where the user's side goes on.
pub open spec fn user_side_opening(messages: Seq<MessageModel>, index: int) -> Seq<char> {
    if index > 0 && tool_order::is_user_side(messages[index - 1]) {
        "\n\n"@
    } else {
        USER_SP_TOKEN@
    }
}

/// The text of the tool calls of an assistant message, set off by an empty line.
pub open spec fn tool_calls_suffix(
    markup: Markup,
    tool_calls: Option<Seq<conversation::ToolCallModel>>,
    json: spec_fn(Value) -> Seq<char>,
) -> Seq<char> {
    match tool_calls {
        Some(calls) => if calls.len() > 0 {
            seq![
                "\n\n"@,
                tools::tool_calls_block(markup, tools::tool_calls_text(markup, calls, json)),
            ].flatten()
        } else {
            Seq::empty()
        },
        None => Seq::empty(),
    }
}

/// The reasoning of an assistant message. Outside thinking mode, and in a
/// message at the very start, only the end of the reasoning is marked.
pub open spec fn reasoning_parts(
    reasoning_content: Option<Seq<char>>,
    shown: bool,
) -> Seq<SegmentModel> {
    if shown {
        seq![(true, THINKING_START_TOKEN@)] + (match reasoning_content {
            Some(reasoning) => seq![(false, reasoning)],
            None => seq![],
        }) + seq![(true, THINKING_END_TOKEN@)]
    } else {
        seq![(true, THINKING_END_TOKEN@)]
    }
}

/// What a message consists of, the prompt for a reasoning effort apart.
pub open spec fn body_parts(
    markup: Markup,
    messages: Seq<MessageModel>,
    index: int,
    thinking_mode: bool,
    json: spec_fn(Value) -> Seq<char>,
) -> Seq<SegmentModel> {
    match messages[index] {
        MessageModel::System { content } => if index > 0 && markup.mid_conversation_system {
            seq![(true, markup.system_token), (false, content)]
        } else {
            seq![(false, content)]
        },
        MessageModel::User { content, .. } => seq![
            (true, user_side_opening(messages, index)),
            (false, content),
        ],
        MessageModel::LatestReminder { content } => seq![
            (true, LATEST_REMINDER_SP_TOKEN@),
            (false, content),
        ],
        MessageModel::Tool { content, .. } => seq![
            (true, user_side_opening(messages, index)),
            (false, seq!["<tool_result>"@, content, "</tool_result>"@].flatten()),
        ],
        MessageModel::Assistant { content, reasoning_content, tool_calls } => seq![
            (true, ASSISTANT_SP_TOKEN@),
        ] + reasoning_parts(reasoning_content, thinking_mode && index > 0) + seq![(false, content)]
            + tool_segments::tool_calls_parts(markup, tool_calls, json) + seq![(true, EOS_TOKEN@)],
    }
}

/// What comes before the body of a message: the prompt for a reasoning effort.
/// The first message opens as a system message where there is such a prompt.
pub open spec fn effort_parts(
    markup: Markup,
    messages: Seq<MessageModel>,
    index: int,
    effort_prompt: Seq<char>,
) -> Seq<SegmentModel> {
    if index == 0 && (effort_prompt.len() > 0 || messages[index] is System) {
        seq![(true, markup.system_token), (false, effort_prompt)]
    } else {
        seq![(false, effort_prompt)]
    }
}

/// The segments of the message at `index`.
pub open spec fn message_segments(
    markup: Markup,
    messages: Seq<MessageModel>,
    index: int,
    thinking_mode: bool,
    reasoning_effort: Option<ReasoningEffort>,
    json: spec_fn(Value) -> Seq<char>,
) -> Seq<SegmentModel> {
    filled(
        effort_parts(
            markup,
            messages,
            index,
            (markup.reasoning_prompt)(index, thinking_mode, reasoning_effort),
        ) + body_parts(markup, messages, index, thinking_mode, json),
    )
}

/// `stringify` has a text for each JSON value that the message needs written.
pub open spec fn message_written<S: Fn(&Value) -> String>(
    stringify: S,
    message: MessageModel,
) -> bool {
    message matches MessageModel::Assistant { tool_calls: Some(calls), .. }
        ==> tools::calls_written(stringify, calls)
}

/// Segments under construction, with the parts that they are made of.
struct SegmentList {
    segments: Vec<PromptSegment>,
    parts: Ghost<Seq<SegmentModel>>,
}

impl SegmentList {
    spec fn wf(self) -> bool {
        segment_views(self.segments@) == filled(self.parts@)
    }

    fn new() -> (list: Self)
        ensures
            list.wf(),
            list.parts@ == Seq::<SegmentModel>::empty(),
    {
        let segments: Vec<PromptSegment> = Vec::new();
        let ghost parts = Seq::<SegmentModel>::empty();
        assert(segment_views(segments@) =~= filled(parts));
        SegmentList { segments, parts: Ghost(parts) }
    }

    /// Adds a part; one without text leaves no segment.
    fn push(&mut self, is_template: bool, text: &str)
        requires
            old(self).wf(),
        ensures
            final(self).wf(),
            final(self).parts@ == old(self).parts@.push((is_template, text@)),
    {
        let ghost part = (is_template, text@);
        let ghost segments_before = self.segments@;
        proof {
            self.parts@.lemma_filter_push(part, is_filled());
        }
        if !text.is_empty() {
            self.segments.push((is_template, text.to_owned()));
            assert(segment_views(self.segments@) =~= segment_views(segments_before).push(part));
        }
        self.parts = Ghost(self.parts@.push(part));
    }

    /// Adds parts, one by one.
    fn extend(&mut self, more: &Vec<PromptSegment>)
        requires
            old(self).wf(),
        ensures
            final(self).wf(),
            final(self).parts@ == old(self).parts@ + segment_views(more@),
    {
        let ghost start = self.parts@;
        let ghost views = segment_views(more@);
        let mut done: usize = 0;
        while done < more.len()
            invariant
                self.wf(),
                done <= more.len(),
                views == segment_views(more@),
                self.parts@ =~= start + views.take(done as int),
            decreases more.len() - done,
        {
            self.push(more[done].0, more[done].1.as_str());
            assert(views.take(done + 1) =~= views.take(done as int).push(views[done as int]));
            done += 1;
        }
        assert(views.take(done as int) =~= views);
    }
}

/// Renders the message at `index` into segments.
pub fn render_message_segments<E: EncodingV4, S: Fn(&Value) -> String>(
    encoding: &E,
    messages: &[InputMessage],
    index: usize,
    thinking_mode: bool,
    reasoning_effort: Option<ReasoningEffort>,
    stringify: &S,
) -> (segments: Vec<PromptSegment>)
    requires
        index < messages.len(),
        json::is_stringifier(*stringify),
    ensures
        segment_views(segments@) == message_segments(
            encoding.markup(),
            conversation::message_views(messages@),
            index as int,
            thinking_mode,
            reasoning_effort,
            json::json_text(*stringify),
        ),
        message_written(*stringify, messages@[index as int]@),
{
    let ghost markup = encoding.markup();
    let ghost models = conversation::message_views(messages@);
    let ghost json = json::json_text(*stringify);
    let message = &messages[index];
    assert(models[index as int] == message@);
    let follows_user_side = if index > 0 {
        assert(models[index - 1] == messages@[index - 1]@);
        matches!(messages[index - 1], InputMessage::User { .. } | InputMessage::Tool { .. })
    } else {
        false
    };
    let opening = if follows_user_side {
        "\n\n"
    } else {
        USER_SP_TOKEN
    };
    let effort_prompt = encoding.render_reasoning_effort(index, thinking_mode, reasoning_effort);
    let mut list = SegmentList::new();
    if index == 0 && (!effort_prompt.as_str().is_empty() || matches!(
        message,
        InputMessage::System { .. }
    )) {
        list.push(true, encoding.system_token());
    }
    list.push(false, effort_prompt.as_str());
    assert(list.parts@ =~= effort_parts(markup, models, index as int, effort_prompt@));
    match message {
        InputMessage::System { content } => {
            if index > 0 && encoding.supports_mid_conversation_system() {
                list.push(true, encoding.system_token());
            }
            list.push(false, content.as_str());
        },
        InputMessage::User { content, .. } => {
            list.push(true, opening);
            list.push(false, content.as_str());
        },
        InputMessage::LatestReminder { content } => {
            list.push(true, LATEST_REMINDER_SP_TOKEN);
            list.push(false, content.as_str());
        },
        InputMessage::Tool { content, .. } => {
            list.push(true, opening);
            let pieces = ["<tool_result>", content.as_str(), "</tool_result>"];
            assert(text::str_views(pieces@) =~= seq![
                "<tool_result>"@,
                content@,
                "</tool_result>"@,
            ]);
            let result = concat(&pieces);
            list.push(false, result.as_str());
        },
        InputMessage::Assistant { content, reasoning_content, tool_calls } => {
            list.push(true, ASSISTANT_SP_TOKEN);
            if thinking_mode && index > 0 {
                list.push(true, THINKING_START_TOKEN);
                if let Some(reasoning) = reasoning_content {
                    list.push(false, reasoning.as_str());
                }
                list.push(true, THINKING_END_TOKEN);
            } else {
                list.push(true, THINKING_END_TOKEN);
            }
            list.push(false, content.as_str());
            if let Some(calls) = tool_calls {
                let segments = render_tool_call_segments(encoding, calls, stringify);
                list.extend(&segments);
            }
            list.push(true, EOS_TOKEN);
        },
    }
    assert(list.parts@ =~= effort_parts(markup, models, index as int, effort_prompt@) + body_parts(
        markup,
        models,
        index as int,
        thinking_mode,
        json,
    ));
    list.segments
}

/// Introduces the JSON object that stands for the format of the reply.
pub const RESPONSE_FORMAT_HEADING: &'static str =
    "\n\n## Response Format:\n\nYou MUST strictly adhere to the following schema to reply:\n";

/// The tools are presented to the assistant.
pub open spec fn presents_tools(conversation: ConversationModel) -> bool {
    conversation.tool_choice != ToolChoice::Never && conversation.tools.len() > 0
}

/// What the system message says beyond its own content: the prompt that
/// presents the tools, and the format of the reply.
pub open spec fn instructions(
    markup: Markup,
    conversation: ConversationModel,
    json: spec_fn(Value) -> Seq<char>,
) -> Seq<char> {
    (if presents_tools(conversation) {
        "\n\n"@ + tools::tool_prompt_text(
            markup,
            tools::tool_schemas_text(conversation.tools, json),
        )
    } else {
        Seq::empty()
    }) + (match conversation.response_format {
        ResponseFormat::Text => Seq::empty(),
        ResponseFormat::JsonObject => RESPONSE_FORMAT_HEADING@ + json(
            tools::response_schema_value(),
        ),
    })
}

/// `stringify` has a text for each JSON value that the instructions need
/// written.
pub open spec fn instructions_written<S: Fn(&Value) -> String>(
    stringify: S,
    conversation: ConversationModel,
) -> bool {
    &&& presents_tools(conversation) ==> tools::schemas_written(stringify, conversation.tools)
    &&& conversation.response_format is JsonObject ==> json::is_written(
        stringify,
        tools::response_schema_value(),
    )
}

/// `messages` with `instructions` at the end of the system message at the
/// front. Where there is none, one is put there.
pub open spec fn with_instructions(
    messages: Seq<MessageModel>,
    instructions: Seq<char>,
) -> Seq<MessageModel> {
    if messages.len() > 0 && messages[0] is System {
        messages.update(
            0,
            MessageModel::System { content: messages[0]->System_content + instructions },
        )
    } else {
        seq![MessageModel::System { content: instructions }] + messages
    }
}

/// The messages as they are rendered: in normal form, with the instructions if
/// there are any to give.
pub open spec fn rendered_messages(
    markup: Markup,
    conversation: ConversationModel,
    json: spec_fn(Value) -> Seq<char>,
) -> Seq<MessageModel> {
    let messages = normalize::normalized_messages(
        conversation.messages,
        markup.mid_conversation_system,
    );
    if presents_tools(conversation) || conversation.response_format is JsonObject {
        with_instructions(messages, instructions(markup, conversation, json))
    } else {
        messages
    }
}

/// `stringify` has a text for each JSON value that the prompt needs written.
pub open spec fn prompt_written<S: Fn(&Value) -> String>(
    stringify: S,
    markup: Markup,
    conversation: ConversationModel,
) -> bool {
    let messages = rendered_messages(markup, conversation, json::json_text(stringify));
    &&& instructions_written(stringify, conversation)
    &&& forall|i: int|
        0 <= i < messages.len() ==> message_written(stringify, #[trigger] messages[i])
}

/// The segments of each of the first `count` messages.
pub open spec fn segments_by_message(
    markup: Markup,
    messages: Seq<MessageModel>,
    count: int,
    thinking_mode: bool,
    reasoning_effort: Option<ReasoningEffort>,
    json: spec_fn(Value) -> Seq<char>,
) -> Seq<Seq<SegmentModel>> {
    Seq::new(
        count as nat,
        |index: int|
            message_segments(markup, messages, index, thinking_mode, reasoning_effort, json),
    )
}

/// The token that the reply of the assistant starts with.
pub open spec fn thinking_token(thinking_mode: bool) -> Seq<char> {
    if thinking_mode {
        THINKING_START_TOKEN@
    } else {
        THINKING_END_TOKEN@
    }
}

/// The start of a block of tool calls.
pub open spec fn tool_calls_opening(markup: Markup) -> Seq<char> {
    seq!["\n\n<"@, DSML_SP_TOKEN@, markup.tool_calls_block_name, ">\n"@].flatten()
}

/// What the prompt ends with: the start of the assistant's reply. Where a tool
/// call is required, the reply has to start with one.
pub open spec fn reply_segments(markup: Markup, conversation: ConversationModel) -> Seq<
    SegmentModel,
> {
    seq![
        (true, ASSISTANT_SP_TOKEN@),
        (true, thinking_token(conversation.thinking_mode)),
    ] + (if conversation.tool_choice == ToolChoice::Required && conversation.tools.len() > 0 {
        seq![(true, tool_calls_opening(markup))]
    } else {
        seq![]
    })
}

/// The segments of the prompt for a conversation.
pub open spec fn prompt_segments(
    markup: Markup,
    conversation: ConversationModel,
    json: spec_fn(Value) -> Seq<char>,
) -> Seq<SegmentModel> {
    let messages = rendered_messages(markup, conversation, json);
    seq![(true, BOS_TOKEN@)] + segments_by_message(
        markup,
        messages,
        messages.len() as int,
        conversation.thinking_mode,
        conversation.reasoning_effort,
        json,
    ).flatten() + reply_segments(markup, conversation)
}

/// The images of a message.
pub open spec fn message_images(message: MessageModel) -> Seq<Seq<char>> {
    match message {
        MessageModel::User { image_sources, .. } => image_sources,
        MessageModel::Tool { image_sources, .. } => image_sources,
        _ => Seq::empty(),
    }
}

/// The images of all messages, in the order of the messages.
pub open spec fn all_images(messages: Seq<MessageModel>) -> Seq<Seq<char>> {
    messages.map_values(|message: MessageModel| message_images(message)).flatten()
}

/// Adds instructions to the system message at the front.
fn add_instructions(messages: &mut Vec<InputMessage>, instructions: &str)
    ensures
        conversation::message_views(final(messages)@) == with_instructions(
            conversation::message_views(old(messages)@),
            instructions@,
        ),
{
    let ghost before = conversation::message_views(messages@);
    let has_system = if messages.len() > 0 {
        assert(before[0] == messages@[0]@);
        matches!(messages[0], InputMessage::System { .. })
    } else {
        false
    };
    if has_system {
        if let InputMessage::System { content } = &mut messages[0] {
            content.append(instructions);
        }
    } else {
        messages.insert(0, InputMessage::System { content: instructions.to_owned() });
    }
    assert(conversation::message_views(messages@) =~= with_instructions(before, instructions@));
}

/// Writes what the system message says beyond its own content.
fn render_instructions<E: EncodingV4, S: Fn(&Value) -> String>(
    encoding: &E,
    conversation: &Conversation,
    stringify: &S,
) -> (text: String)
    requires
        json::is_stringifier(*stringify),
    ensures
        text@ == instructions(encoding.markup(), conversation@, json::json_text(*stringify)),
        instructions_written(*stringify, conversation@),
{
    let mut text = String::new();
    if conversation.tool_choice != ToolChoice::Never && conversation.tools.len() > 0 {
        text.append("\n\n");
        text.append(render_tool_prompt(encoding, &conversation.tools, stringify).as_str());
    }
    match conversation.response_format {
        ResponseFormat::Text => {},
        ResponseFormat::JsonObject => {
            text.append(RESPONSE_FORMAT_HEADING);
            text.append(stringify(&response_schema()).as_str());
        },
    }
    assert(text@ =~= instructions(
        encoding.markup(),
        conversation@,
        json::json_text(*stringify),
    ));
    text
}

/// Brings the messages of a conversation into the form in which they are
/// rendered.
fn prepare_messages<E: EncodingV4, S: Fn(&Value) -> String>(
    encoding: &E,
    conversation: &Conversation,
    stringify: &S,
) -> (messages: Vec<InputMessage>)
    requires
        json::is_stringifier(*stringify),
    ensures
        conversation::message_views(messages@) == rendered_messages(
            encoding.markup(),
            conversation@,
            json::json_text(*stringify),
        ),
        instructions_written(*stringify, conversation@),
{
    let mut messages = normalize_messages(encoding, conversation.messages.as_slice());
    let has_tools = conversation.tool_choice != ToolChoice::Never && conversation.tools.len() > 0;
    if has_tools || matches!(conversation.response_format, ResponseFormat::JsonObject) {
        let text = render_instructions(encoding, conversation, stringify);
        add_instructions(&mut messages, text.as_str());
    }
    messages
}

/// Gathers the images of messages, in the order of the messages.
fn collect_images(messages: &Vec<InputMessage>) -> (sources: Vec<ImageSource>)
    ensures
        conversation::image_views(sources@) == all_images(conversation::message_views(messages@)),
{
    let ghost models = conversation::message_views(messages@);
    let ghost images = models.map_values(|message: MessageModel| message_images(message));
    let mut sources: Vec<ImageSource> = Vec::new();
    let mut done: usize = 0;
    assert(conversation::image_views(sources@) =~= images.take(0).flatten());
    while done < messages.len()
        invariant
            done <= messages.len(),
            models == conversation::message_views(messages@),
            images == models.map_values(|message: MessageModel| message_images(message)),
            conversation::image_views(sources@) == images.take(done as int).flatten(),
        decreases messages.len() - done,
    {
        let ghost before = conversation::image_views(sources@);
        proof {
            assert(images.take(done + 1) =~= images.take(done as int).push(images[done as int]));
            images.take(done as int).lemma_flatten_push(images[done as int]);
            assert(models[done as int] == messages@[done as int]@);
        }
        match &messages[done] {
            InputMessage::User { image_sources, .. }
            | InputMessage::Tool { image_sources, .. } => {
                let mut copies = image_sources.clone();
                assert(conversation::image_views(copies@) =~= conversation::image_views(
                    image_sources@,
                ));
                sources.append(&mut copies);
            },
            _ => {},
        }
        assert(conversation::image_views(sources@) =~= before + images[done as int]);
        done += 1;
    }
    assert(images.take(done as int) =~= images);
    sources
}

/// Renders the conversation into `(is_template, text)` segments plus the
/// ordered image sources. Template segments are encoded with added-token
/// recognition; content segments are encoded as plain BPE.
pub fn render_parts<E: EncodingV4, S: Fn(&Value) -> String>(
    encoding: &E,
    conversation: &Conversation,
    stringify: &S,
) -> (parts: (Vec<PromptSegment>, Vec<ImageSource>))
    requires
        json::is_stringifier(*stringify),
    ensures
        segment_views(parts.0@) == prompt_segments(
            encoding.markup(),
            conversation@,
            json::json_text(*stringify),
        ),
        conversation::image_views(parts.1@) == all_images(
            rendered_messages(encoding.markup(), conversation@, json::json_text(*stringify)),
        ),
        prompt_written(*stringify, encoding.markup(), conversation@),
{
    let ghost markup = encoding.markup();
    let ghost json = json::json_text(*stringify);
    let messages = prepare_messages(encoding, conversation, stringify);
    let ghost models = conversation::message_views(messages@);
    let ghost thinking_mode = conversation.thinking_mode;
    let ghost effort = conversation.reasoning_effort;
    let ghost by_message = segments_by_message(
        markup,
        models,
        models.len() as int,
        thinking_mode,
        effort,
        json,
    );
    let mut segments: Vec<PromptSegment> = Vec::new();
    segments.push((true, BOS_TOKEN.to_owned()));
    let mut index: usize = 0;
    assert(segment_views(segments@) =~= seq![(true, BOS_TOKEN@)] + by_message.take(0).flatten());
    while index < messages.len()
        invariant
            index <= messages.len(),
            json::is_stringifier(*stringify),
            markup == encoding.markup(),
            json == json::json_text(*stringify),
            models == conversation::message_views(messages@),
            thinking_mode == conversation.thinking_mode,
            effort == conversation.reasoning_effort,
            by_message == segments_by_message(
                markup,
                models,
                models.len() as int,
                thinking_mode,
                effort,
                json,
            ),
            segment_views(segments@) == seq![(true, BOS_TOKEN@)] + by_message.take(
                index as int,
            ).flatten(),
            forall|i: int| 0 <= i < index ==> message_written(*stringify, #[trigger] models[i]),
        decreases messages.len() - index,
    {
        let ghost before = segments@;
        let mut more = render_message_segments(
            encoding,
            messages.as_slice(),
            index,
            conversation.thinking_mode,
            conversation.reasoning_effort,
            stringify,
        );
        let ghost added = more@;
        segments.append(&mut more);
        proof {
            let upto = by_message.take(index as int);
            assert(by_message.take(index + 1) =~= upto.push(by_message[index as int]));
            upto.lemma_flatten_push(by_message[index as int]);
            assert(segment_views(segments@) =~= segment_views(before) + segment_views(added));
            assert(segment_views(segments@) =~= seq![(true, BOS_TOKEN@)] + by_message.take(
                index + 1,
            ).flatten());
        }
        index += 1;
    }
    assert(by_message.take(index as int) =~= by_message);
    let ghost before_reply = segments@;
    segments.push((true, ASSISTANT_SP_TOKEN.to_owned()));
    segments.push(
        (
            true,
            if conversation.thinking_mode {
                THINKING_START_TOKEN.to_owned()
            } else {
                THINKING_END_TOKEN.to_owned()
            },
        ),
    );
    if conversation.tool_choice == ToolChoice::Required && conversation.tools.len() > 0 {
        let name = encoding.tool_calls_block_name();
        let pieces = ["\n\n<", DSML_SP_TOKEN, name, ">\n"];
        assert(text::str_views(pieces@) =~= seq!["\n\n<"@, DSML_SP_TOKEN@, name@, ">\n"@]);
        segments.push((true, concat(&pieces)));
    }
    assert(segment_views(segments@) =~= segment_views(before_reply) + reply_segments(
        markup,
        conversation@,
    ));
    let image_sources = collect_images(&messages);
    (segments, image_sources)
}

} // verus!
