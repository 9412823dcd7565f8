//! What each kind of message looks like in a prompt.

use crate::conversation::{MessageModel, ReasoningEffort};
use crate::v4::render;
use crate::v4::render::{PromptSegment, SegmentModel};
use crate::v4::tool_laws;
use crate::v4::tool_segments;
use crate::v4::{
    Markup, ASSISTANT_SP_TOKEN, EOS_TOKEN, LATEST_REMINDER_SP_TOKEN, THINKING_END_TOKEN,
    THINKING_START_TOKEN, USER_SP_TOKEN,
};
use serde_json::Value;
use vstd::prelude::*;

verus! {

/// The segment of a text; none if the text is empty.
pub open spec fn segment_of(is_template: bool, text: Seq<char>) -> Seq<SegmentModel> {
    if text.len() > 0 {
        seq![(is_template, text)]
    } else {
        Seq::empty()
    }
}

/// The parts that have a text.
pub open spec fn with_text(parts: Seq<SegmentModel>) -> Seq<SegmentModel>
    decreases parts.len(),
{
    if parts.len() == 0 {
        Seq::empty()
    } else {
        with_text(parts.drop_last()) + segment_of(parts.last().0, parts.last().1)
    }
}

/// What stands before the message at `index`: the text that asks for an effort.
/// At the very front the token of a system message comes first, where there is
/// such a text or a system message.
pub open spec fn opening(
    markup: Markup,
    messages: Seq<MessageModel>,
    index: int,
    thinking_mode: bool,
    reasoning_effort: Option<ReasoningEffort>,
) -> Seq<SegmentModel> {
    let effort = (markup.reasoning_prompt)(index, thinking_mode, reasoning_effort);
    (if index == 0 && (effort.len() > 0 || messages[0] is System) {
        segment_of(true, markup.system_token)
    } else {
        Seq::empty()
    }) + segment_of(false, effort)
}

/// What a message of the user's side starts with: an empty line behind a user
/// message or a tool result, else the token of a user message.
pub open spec fn user_mark(messages: Seq<MessageModel>, index: int) -> Seq<char> {
    if index > 0 && (messages[index - 1] is User || messages[index - 1] is Tool) {
        "\n\n"@
    } else {
        USER_SP_TOKEN@
    }
}

/// A system message is its content, behind the token of a system message if it
/// is the first one, or if system messages keep their place.
pub proof fn law_system_message(
    markup: Markup,
    messages: Seq<MessageModel>,
    index: int,
    content: Seq<char>,
    thinking_mode: bool,
    reasoning_effort: Option<ReasoningEffort>,
    json: spec_fn(Value) -> Seq<char>,
)
    requires
        0 <= index < messages.len(),
        messages[index] == (MessageModel::System { content }),
    ensures
        render::message_segments(markup, messages, index, thinking_mode, reasoning_effort, json)
            == opening(markup, messages, index, thinking_mode, reasoning_effort) + (if index > 0
            && markup.mid_conversation_system {
            segment_of(true, markup.system_token)
        } else {
            Seq::empty()
        }) + segment_of(false, content),
{
    let body = render::body_parts(markup, messages, index, thinking_mode, json);
    lemma_opening(markup, messages, index, thinking_mode, reasoning_effort, json);
    if body.len() == 1 {
        lemma_with_text_one(body);
    } else {
        lemma_with_text_two(body);
    }
    assert(render::message_segments(markup, messages, index, thinking_mode, reasoning_effort, json)
        =~= opening(markup, messages, index, thinking_mode, reasoning_effort) + (if index > 0
        && markup.mid_conversation_system {
        segment_of(true, markup.system_token)
    } else {
        Seq::empty()
    }) + segment_of(false, content));
}

/// A user message is its content behind the mark of the user's side.
pub proof fn law_user_message(
    markup: Markup,
    messages: Seq<MessageModel>,
    index: int,
    content: Seq<char>,
    image_sources: Seq<Seq<char>>,
    thinking_mode: bool,
    reasoning_effort: Option<ReasoningEffort>,
    json: spec_fn(Value) -> Seq<char>,
)
    requires
        0 <= index < messages.len(),
        messages[index] == (MessageModel::User { content, image_sources }),
    ensures
        render::message_segments(markup, messages, index, thinking_mode, reasoning_effort, json)
            == opening(markup, messages, index, thinking_mode, reasoning_effort) + seq![
            (true, user_mark(messages, index)),
        ] + segment_of(false, content),
{
    let body = render::body_parts(markup, messages, index, thinking_mode, json);
    lemma_opening(markup, messages, index, thinking_mode, reasoning_effort, json);
    lemma_with_text_two(body);
    lemma_tokens();
    assert(render::message_segments(markup, messages, index, thinking_mode, reasoning_effort, json)
        =~= opening(markup, messages, index, thinking_mode, reasoning_effort) + seq![
        (true, user_mark(messages, index)),
    ] + segment_of(false, content));
}

/// A reminder is its content behind the token of a reminder.
pub proof fn law_reminder_message(
    markup: Markup,
    messages: Seq<MessageModel>,
    index: int,
    content: Seq<char>,
    thinking_mode: bool,
    reasoning_effort: Option<ReasoningEffort>,
    json: spec_fn(Value) -> Seq<char>,
)
    requires
        0 <= index < messages.len(),
        messages[index] == (MessageModel::LatestReminder { content }),
    ensures
        render::message_segments(markup, messages, index, thinking_mode, reasoning_effort, json)
            == opening(markup, messages, index, thinking_mode, reasoning_effort) + seq![
            (true, LATEST_REMINDER_SP_TOKEN@),
        ] + segment_of(false, content),
{
    let body = render::body_parts(markup, messages, index, thinking_mode, json);
    lemma_opening(markup, messages, index, thinking_mode, reasoning_effort, json);
    lemma_with_text_two(body);
    lemma_tokens();
    assert(render::message_segments(markup, messages, index, thinking_mode, reasoning_effort, json)
        =~= opening(markup, messages, index, thinking_mode, reasoning_effort) + seq![
        (true, LATEST_REMINDER_SP_TOKEN@),
    ] + segment_of(false, content));
}

/// A tool result is its content in tags that mark a result, behind the mark of
/// the user's side.
pub proof fn law_result_message(
    markup: Markup,
    messages: Seq<MessageModel>,
    index: int,
    tool_call_id: Seq<char>,
    content: Seq<char>,
    image_sources: Seq<Seq<char>>,
    thinking_mode: bool,
    reasoning_effort: Option<ReasoningEffort>,
    json: spec_fn(Value) -> Seq<char>,
)
    requires
        0 <= index < messages.len(),
        messages[index] == (MessageModel::Tool { tool_call_id, content, image_sources }),
    ensures
        render::message_segments(markup, messages, index, thinking_mode, reasoning_effort, json)
            == opening(markup, messages, index, thinking_mode, reasoning_effort) + seq![
            (true, user_mark(messages, index)),
            (false, "<tool_result>"@ + content + "</tool_result>"@),
        ],
{
    let body = render::body_parts(markup, messages, index, thinking_mode, json);
    lemma_opening(markup, messages, index, thinking_mode, reasoning_effort, json);
    lemma_with_text_two(body);
    lemma_tokens();
    lemma_result_text(content);
    reveal_strlit("<tool_result>");
    assert(render::message_segments(markup, messages, index, thinking_mode, reasoning_effort, json)
        =~= opening(markup, messages, index, thinking_mode, reasoning_effort) + seq![
        (true, user_mark(messages, index)),
        (false, "<tool_result>"@ + content + "</tool_result>"@),
    ]);
}

/// An assistant message starts with its token. In thinking mode, unless it is
/// the very first message, the start of the reasoning and the reasoning follow.
/// The end of the reasoning is always there, and right behind it the content,
/// whatever calls are made; then come the tool calls and the token that ends the
/// message.
pub proof fn law_assistant_message(
    markup: Markup,
    messages: Seq<MessageModel>,
    index: int,
    content: Seq<char>,
    thinking_mode: bool,
    reasoning_effort: Option<ReasoningEffort>,
    json: spec_fn(Value) -> Seq<char>,
)
    requires
        0 <= index < messages.len(),
        messages[index] is Assistant,
        messages[index]->Assistant_content == content,
    ensures
        ({
            let reasoning = messages[index]->reasoning_content;
            render::message_segments(markup, messages, index, thinking_mode, reasoning_effort, json)
                == opening(markup, messages, index, thinking_mode, reasoning_effort) + seq![
                (true, ASSISTANT_SP_TOKEN@),
            ] + (if thinking_mode && index > 0 {
                seq![(true, THINKING_START_TOKEN@)] + (if reasoning is Some {
                    segment_of(false, reasoning->0)
                } else {
                    Seq::empty()
                })
            } else {
                Seq::empty()
            }) + seq![(true, THINKING_END_TOKEN@)] + segment_of(false, content) + with_text(
                tool_segments::tool_calls_parts(markup, messages[index]->tool_calls, json),
            ) + seq![(true, EOS_TOKEN@)]
        }),
{
    let reasoning = messages[index]->reasoning_content;
    let calls = tool_segments::tool_calls_parts(markup, messages[index]->tool_calls, json);
    let head: Seq<SegmentModel> = seq![(true, ASSISTANT_SP_TOKEN@)];
    let shown = render::reasoning_parts(reasoning, thinking_mode && index > 0);
    let said: Seq<SegmentModel> = seq![(false, content)];
    let end: Seq<SegmentModel> = seq![(true, EOS_TOKEN@)];
    lemma_opening(markup, messages, index, thinking_mode, reasoning_effort, json);
    lemma_tokens();
    lemma_with_text_add(head + shown + said + calls, end);
    lemma_with_text_add(head + shown + said, calls);
    lemma_with_text_add(head + shown, said);
    lemma_with_text_add(head, shown);
    lemma_with_text_one(head);
    lemma_with_text_one(said);
    lemma_with_text_one(end);
    lemma_reasoning(reasoning, thinking_mode && index > 0);
    lemma_put_together(
        opening(markup, messages, index, thinking_mode, reasoning_effort),
        head,
        if thinking_mode && index > 0 {
            seq![(true, THINKING_START_TOKEN@)] + (if reasoning is Some {
                segment_of(false, reasoning->0)
            } else {
                Seq::empty()
            })
        } else {
            Seq::empty()
        },
        seq![(true, THINKING_END_TOKEN@)],
        segment_of(false, content),
        with_text(calls),
        end,
    );
}

/// The content of an assistant message is the text that asks for an effort, the
/// reasoning where it is shown, what the message says, and the names and
/// arguments of its calls.
pub proof fn law_assistant_contents(
    markup: Markup,
    messages: Seq<MessageModel>,
    index: int,
    thinking_mode: bool,
    reasoning_effort: Option<ReasoningEffort>,
    json: spec_fn(Value) -> Seq<char>,
)
    requires
        0 <= index < messages.len(),
        messages[index] is Assistant,
    ensures
        ({
            let reasoning = messages[index]->reasoning_content;
            let tool_calls = messages[index]->tool_calls;
            tool_laws::contents(
                render::message_segments(
                    markup,
                    messages,
                    index,
                    thinking_mode,
                    reasoning_effort,
                    json,
                ),
            ) == segment_of(
                false,
                (markup.reasoning_prompt)(index, thinking_mode, reasoning_effort),
            ) + (if thinking_mode && index > 0 && reasoning is Some {
                segment_of(false, reasoning->0)
            } else {
                Seq::empty()
            }) + segment_of(false, messages[index]->Assistant_content) + (if tool_calls is Some {
                with_text(tool_laws::all_call_contents(tool_calls->0, json))
            } else {
                Seq::empty()
            })
        }),
{
    let content = messages[index]->Assistant_content;
    let reasoning = messages[index]->reasoning_content;
    let tool_calls = messages[index]->tool_calls;
    let calls = tool_segments::tool_calls_parts(markup, tool_calls, json);
    let none = Seq::<SegmentModel>::empty();
    let front = opening(markup, messages, index, thinking_mode, reasoning_effort);
    let effort = (markup.reasoning_prompt)(index, thinking_mode, reasoning_effort);
    let head: Seq<SegmentModel> = seq![(true, ASSISTANT_SP_TOKEN@)];
    let start: Seq<SegmentModel> = seq![(true, THINKING_START_TOKEN@)];
    let thought: Seq<SegmentModel> = if reasoning is Some {
        segment_of(false, reasoning->0)
    } else {
        none
    };
    let shown = if thinking_mode && index > 0 {
        start + thought
    } else {
        none
    };
    let stop: Seq<SegmentModel> = seq![(true, THINKING_END_TOKEN@)];
    let said = segment_of(false, content);
    let end: Seq<SegmentModel> = seq![(true, EOS_TOKEN@)];
    law_assistant_message(
        markup,
        messages,
        index,
        content,
        thinking_mode,
        reasoning_effort,
        json,
    );
    lemma_contents_of(true, markup.system_token);
    lemma_contents_of(false, effort);
    lemma_contents_of(false, content);
    lemma_contents_of_token(ASSISTANT_SP_TOKEN@);
    lemma_contents_of_token(THINKING_START_TOKEN@);
    lemma_contents_of_token(THINKING_END_TOKEN@);
    lemma_contents_of_token(EOS_TOKEN@);
    tool_laws::lemma_no_contents(none);
    let system = if index == 0 && (effort.len() > 0 || messages[0] is System) {
        segment_of(true, markup.system_token)
    } else {
        none
    };
    tool_laws::lemma_contents_add(system, segment_of(false, effort));
    assert(none + segment_of(false, effort) =~= segment_of(false, effort));
    assert(tool_laws::contents(front) == segment_of(false, effort));
    if reasoning is Some {
        lemma_contents_of(false, reasoning->0);
    }
    tool_laws::lemma_contents_add(start, thought);
    assert(none + thought =~= thought);
    lemma_contents_with_text(calls);
    if let Some(list) = tool_calls {
        tool_laws::law_call_contents(markup, list, json);
    } else {
        assert(with_text(none) =~= none);
    }
    let a = front + head;
    let b = a + shown;
    let c = b + stop;
    let d = c + said;
    let e = d + with_text(calls);
    tool_laws::lemma_contents_add(front, head);
    tool_laws::lemma_contents_add(a, shown);
    tool_laws::lemma_contents_add(b, stop);
    tool_laws::lemma_contents_add(c, said);
    tool_laws::lemma_contents_add(d, with_text(calls));
    tool_laws::lemma_contents_add(e, end);
    let shown_contents = tool_laws::contents(shown);
    let call_contents = tool_laws::contents(with_text(calls));
    assert(tool_laws::contents(e + end) =~= segment_of(false, effort) + shown_contents + said
        + call_contents);
}

/// No segment of a message is empty.
pub proof fn law_message_segments_filled(
    markup: Markup,
    messages: Seq<MessageModel>,
    index: int,
    thinking_mode: bool,
    reasoning_effort: Option<ReasoningEffort>,
    json: spec_fn(Value) -> Seq<char>,
)
    ensures
        forall|i: int|
            0 <= i < render::message_segments(
                markup,
                messages,
                index,
                thinking_mode,
                reasoning_effort,
                json,
            ).len() ==> (#[trigger] render::message_segments(
                markup,
                messages,
                index,
                thinking_mode,
                reasoning_effort,
                json,
            )[i]).1.len() > 0,
{
    let parts = render::effort_parts(
        markup,
        messages,
        index,
        (markup.reasoning_prompt)(index, thinking_mode, reasoning_effort),
    ) + render::body_parts(markup, messages, index, thinking_mode, json);
    let segments = render::filled(parts);
    assert forall|i: int| 0 <= i < segments.len() implies (#[trigger] segments[i]).1.len() > 0 by {
        parts.lemma_filter_pred(render::is_filled(), i);
    }
}

/// It makes no difference in which order the pieces are put together.
proof fn lemma_put_together(
    a: Seq<SegmentModel>,
    b: Seq<SegmentModel>,
    c: Seq<SegmentModel>,
    d: Seq<SegmentModel>,
    e: Seq<SegmentModel>,
    f: Seq<SegmentModel>,
    g: Seq<SegmentModel>,
)
    ensures
        a + (b + (c + d) + e + f + g) == a + b + c + d + e + f + g,
{
    assert(a + (b + (c + d) + e + f + g) =~= a + b + c + d + e + f + g);
}

/// The tokens have a text.
proof fn lemma_tokens()
    ensures
        "\n\n"@.len() > 0,
        USER_SP_TOKEN@.len() > 0,
        LATEST_REMINDER_SP_TOKEN@.len() > 0,
        ASSISTANT_SP_TOKEN@.len() > 0,
        THINKING_START_TOKEN@.len() > 0,
        THINKING_END_TOKEN@.len() > 0,
        EOS_TOKEN@.len() > 0,
{
    reveal_strlit("\n\n");
    reveal_strlit("<｜User｜>");
    reveal_strlit("<｜latest_reminder｜>");
    reveal_strlit("<｜Assistant｜>");
    reveal_strlit("<think>");
    reveal_strlit("</think>");
    reveal_strlit("<｜end▁of▁sentence｜>");
}

proof fn lemma_result_text(content: Seq<char>)
    ensures
        seq!["<tool_result>"@, content, "</tool_result>"@].flatten() == "<tool_result>"@ + content
            + "</tool_result>"@,
{
    let first = seq!["<tool_result>"@];
    first.lemma_flatten_one_element();
    first.lemma_flatten_push(content);
    first.push(content).lemma_flatten_push("</tool_result>"@);
    assert(first.push(content).push("</tool_result>"@) =~= seq![
        "<tool_result>"@,
        content,
        "</tool_result>"@,
    ]);
}

proof fn lemma_with_text_filled(parts: Seq<SegmentModel>)
    ensures
        render::filled(parts) == with_text(parts),
    decreases parts.len(),
{
    reveal(Seq::filter);
    if parts.len() > 0 {
        let front = parts.drop_last();
        lemma_with_text_filled(front);
        assert(front.push(parts.last()) =~= parts);
        front.lemma_filter_push(parts.last(), render::is_filled());
        assert(render::filled(parts) =~= with_text(parts));
    } else {
        assert(render::filled(parts) =~= with_text(parts));
    }
}

proof fn lemma_with_text_add(parts: Seq<SegmentModel>, others: Seq<SegmentModel>)
    ensures
        with_text(parts + others) == with_text(parts) + with_text(others),
{
    lemma_with_text_filled(parts);
    lemma_with_text_filled(others);
    lemma_with_text_filled(parts + others);
    Seq::filter_distributes_over_add(parts, others, render::is_filled());
}

proof fn lemma_with_text_one(parts: Seq<SegmentModel>)
    requires
        parts.len() == 1,
    ensures
        with_text(parts) == segment_of(parts[0].0, parts[0].1),
{
    assert(with_text(parts.drop_last()) =~= Seq::empty());
    assert(with_text(parts) =~= segment_of(parts[0].0, parts[0].1));
}

proof fn lemma_with_text_two(parts: Seq<SegmentModel>)
    requires
        parts.len() == 2,
    ensures
        with_text(parts) == segment_of(parts[0].0, parts[0].1) + segment_of(parts[1].0, parts[1].1),
{
    lemma_with_text_one(parts.drop_last());
}

/// The segments of a message are its opening and the parts of its body that have
/// a text.
proof fn lemma_opening(
    markup: Markup,
    messages: Seq<MessageModel>,
    index: int,
    thinking_mode: bool,
    reasoning_effort: Option<ReasoningEffort>,
    json: spec_fn(Value) -> Seq<char>,
)
    ensures
        render::message_segments(markup, messages, index, thinking_mode, reasoning_effort, json)
            == opening(markup, messages, index, thinking_mode, reasoning_effort) + with_text(
            render::body_parts(markup, messages, index, thinking_mode, json),
        ),
{
    let effort = (markup.reasoning_prompt)(index, thinking_mode, reasoning_effort);
    let parts = render::effort_parts(markup, messages, index, effort);
    let body = render::body_parts(markup, messages, index, thinking_mode, json);
    lemma_with_text_filled(parts + body);
    lemma_with_text_add(parts, body);
    if parts.len() == 1 {
        lemma_with_text_one(parts);
    } else {
        lemma_with_text_two(parts);
    }
    assert(with_text(parts) =~= opening(
        markup,
        messages,
        index,
        thinking_mode,
        reasoning_effort,
    ));
}

proof fn lemma_reasoning(reasoning: Option<Seq<char>>, shown: bool)
    ensures
        with_text(render::reasoning_parts(reasoning, shown)) == (if shown {
            seq![(true, THINKING_START_TOKEN@)] + (if reasoning is Some {
                segment_of(false, reasoning->0)
            } else {
                Seq::empty()
            })
        } else {
            Seq::empty()
        }) + seq![(true, THINKING_END_TOKEN@)],
{
    let start: Seq<SegmentModel> = seq![(true, THINKING_START_TOKEN@)];
    let end: Seq<SegmentModel> = seq![(true, THINKING_END_TOKEN@)];
    let thought: Seq<SegmentModel> = match reasoning {
        Some(text) => seq![(false, text)],
        None => seq![],
    };
    lemma_tokens();
    lemma_with_text_one(start);
    lemma_with_text_one(end);
    if thought.len() == 1 {
        lemma_with_text_one(thought);
    }
    if shown {
        lemma_with_text_add(start + thought, end);
        lemma_with_text_add(start, thought);
    } else {
        assert(Seq::empty() + end =~= end);
    }
}

proof fn lemma_contents_of(is_template: bool, text: Seq<char>)
    ensures
        tool_laws::contents(segment_of(is_template, text)) == (if is_template {
            Seq::empty()
        } else {
            segment_of(is_template, text)
        }),
{
    let none = Seq::<SegmentModel>::empty();
    tool_laws::lemma_no_contents(none);
    tool_laws::lemma_contents_push(none, (is_template, text));
    assert(none.push((is_template, text)) =~= seq![(is_template, text)]);
}

proof fn lemma_contents_of_token(token: Seq<char>)
    ensures
        tool_laws::contents(seq![(true, token)]) == Seq::<SegmentModel>::empty(),
{
    tool_laws::lemma_no_contents(seq![(true, token)]);
}

/// Parts without text can be dropped before or after content is picked.
proof fn lemma_contents_with_text(parts: Seq<SegmentModel>)
    ensures
        tool_laws::contents(with_text(parts)) == with_text(tool_laws::contents(parts)),
    decreases parts.len(),
{
    let none = Seq::<SegmentModel>::empty();
    if parts.len() > 0 {
        let front = parts.drop_last();
        lemma_contents_with_text(front);
        assert(front.push(parts.last()) =~= parts);
        lemma_contents_with_text_push(front, parts.last());
    } else {
        assert(parts =~= none);
        tool_laws::lemma_no_contents(none);
    }
}

proof fn lemma_contents_with_text_push(parts: Seq<SegmentModel>, part: SegmentModel)
    requires
        tool_laws::contents(with_text(parts)) == with_text(tool_laws::contents(parts)),
    ensures
        tool_laws::contents(with_text(parts.push(part))) == with_text(
            tool_laws::contents(parts.push(part)),
        ),
{
    let none = Seq::<SegmentModel>::empty();
    let one = segment_of(part.0, part.1);
    let picked = tool_laws::contents(parts);
    assert(parts.push(part).drop_last() =~= parts);
    tool_laws::lemma_contents_push(parts, part);
    lemma_contents_of(part.0, part.1);
    tool_laws::lemma_contents_add(with_text(parts), one);
    if part.0 {
        assert(with_text(picked) + none =~= with_text(picked));
    } else {
        assert(picked.push(part).drop_last() =~= picked);
    }
}

/// The models of segments are their kinds and texts, one by one.
pub proof fn law_segment_models(segments: Seq<PromptSegment>)
    ensures
        render::segment_views(segments).len() == segments.len(),
        forall|i: int|
            0 <= i < segments.len() ==> #[trigger] render::segment_views(segments)[i] == (
                segments[i].0,
                segments[i].1@,
            ),
{
}

} // verus!
