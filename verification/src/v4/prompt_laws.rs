//! What holds of every prompt, and of its encoding into token ids.

use crate::conversation::{
    ConversationModel, MessageModel, ReasoningEffort, ResponseFormat, ToolChoice,
};
use crate::json;
use crate::parts;
use crate::parts::TokenModel;
use crate::prompt::EncodingError;
use crate::tokenizer;
use crate::tokenizer::TokenizerEncoder;
use crate::v4::encode;
use crate::v4::message_laws;
use crate::v4::normal_laws;
use crate::v4::normalize;
use crate::v4::render;
use crate::v4::render::SegmentModel;
use crate::v4::tool_laws;
use crate::v4::tool_order;
use crate::v4::tool_segments;
use crate::v4::tools;
use crate::v4::{
    Markup, ASSISTANT_SP_TOKEN, BOS_TOKEN, DSML_SP_TOKEN, EOS_TOKEN, LATEST_REMINDER_SP_TOKEN,
    THINKING_END_TOKEN, THINKING_START_TOKEN, USER_SP_TOKEN,
};
use serde_json::Value;
use std::sync::Arc;
use tokenizers::{AddedVocabulary, Tokenizer};
use vstd::prelude::*;

verus! {

/// A prompt starts with the token for the start of a sentence and ends with the
/// start of the assistant's reply: the token for an assistant message, the
/// token that starts or ends the reasoning, and the start of a block of tool
/// calls where one is required.
pub proof fn law_prompt_frame(
    markup: Markup,
    conversation: ConversationModel,
    json: spec_fn(Value) -> Seq<char>,
)
    ensures
        ({
            let segments = render::prompt_segments(markup, conversation, json);
            let reply = render::reply_segments(markup, conversation);
            &&& segments.len() >= 3
            &&& segments[0] == (true, BOS_TOKEN@)
            &&& segments.skip(segments.len() - reply.len()) == reply
            &&& reply[0] == (true, ASSISTANT_SP_TOKEN@)
            &&& reply[1] == (true, render::thinking_token(conversation.thinking_mode))
            &&& reply.len() == 3 <==> conversation.tool_choice == ToolChoice::Required
                && conversation.tools.len() > 0
            &&& reply.len() == 3 ==> reply[2] == (true, render::tool_calls_opening(markup))
            &&& reply.len() <= 3
        }),
{
    let segments = render::prompt_segments(markup, conversation, json);
    let reply = render::reply_segments(markup, conversation);
    assert(segments.skip(segments.len() - reply.len()) =~= reply);
}

/// No segment of a prompt is empty.
pub proof fn law_no_empty_segment(
    markup: Markup,
    conversation: ConversationModel,
    json: spec_fn(Value) -> Seq<char>,
)
    ensures
        forall|i: int|
            0 <= i < render::prompt_segments(markup, conversation, json).len() ==> (
            #[trigger] render::prompt_segments(markup, conversation, json)[i]).1.len() > 0,
{
    let segments = render::prompt_segments(markup, conversation, json);
    let messages = render::rendered_messages(markup, conversation, json);
    let by_message = render::segments_by_message(
        markup,
        messages,
        messages.len() as int,
        conversation.thinking_mode,
        conversation.reasoning_effort,
        json,
    );
    let reply = render::reply_segments(markup, conversation);
    assert forall|i: int| 0 <= i < by_message.len() implies all_filled(
        #[trigger] by_message[i],
    ) by {
        let index = i;
        let parts = render::effort_parts(
            markup,
            messages,
            index,
            (markup.reasoning_prompt)(
                index,
                conversation.thinking_mode,
                conversation.reasoning_effort,
            ),
        ) + render::body_parts(markup, messages, index, conversation.thinking_mode, json);
        assert(by_message[i] == render::filled(parts));
        assert forall|k: int| 0 <= k < by_message[i].len() implies (
        #[trigger] by_message[i][k]).1.len() > 0 by {
            parts.lemma_filter_pred(render::is_filled(), k);
        }
    }
    lemma_flatten_filled(by_message);
    reveal_strlit("<｜begin▁of▁sentence｜>");
    reveal_strlit("<｜Assistant｜>");
    reveal_strlit("<think>");
    reveal_strlit("</think>");
    reveal_strlit("\n\n<");
    let opening = seq![
        "\n\n<"@,
        crate::v4::DSML_SP_TOKEN@,
        markup.tool_calls_block_name,
        ">\n"@,
    ];
    assert(opening.flatten() == opening.first() + opening.drop_first().flatten());
    assert(all_filled(reply));
    let middle = by_message.flatten();
    assert forall|i: int| 0 <= i < segments.len() implies (#[trigger] segments[i]).1.len() > 0 by {
        if 0 < i < 1 + middle.len() {
            assert(segments[i] == middle[i - 1]);
        } else if i > 0 {
            assert(segments[i] == reply[i - 1 - middle.len()]);
        }
    }
}

/// Where there are instructions to give, the first message is a system message
/// that ends with them, and the others are those of the normal form.
pub proof fn law_instructions_in_first_message(
    markup: Markup,
    conversation: ConversationModel,
    json: spec_fn(Value) -> Seq<char>,
)
    requires
        render::presents_tools(conversation) || conversation.response_format is JsonObject,
    ensures
        ({
            let normal = normalize::normalized_messages(
                conversation.messages,
                markup.mid_conversation_system,
            );
            let rendered = render::rendered_messages(markup, conversation, json);
            let instructions = render::instructions(markup, conversation, json);
            let has_system = normal.len() > 0 && normal[0] is System;
            &&& rendered.len() > 0
            &&& rendered[0] matches MessageModel::System { content }
            &&& content == (if has_system {
                normal[0]->System_content
            } else {
                Seq::empty()
            }) + instructions
            &&& rendered.skip(1) == (if has_system {
                normal.skip(1)
            } else {
                normal
            })
        }),
{
    let normal = normalize::normalized_messages(
        conversation.messages,
        markup.mid_conversation_system,
    );
    let rendered = render::rendered_messages(markup, conversation, json);
    let instructions = render::instructions(markup, conversation, json);
    if normal.len() > 0 && normal[0] is System {
        assert(rendered.skip(1) =~= normal.skip(1));
    } else {
        assert(rendered.skip(1) =~= normal);
        assert(Seq::empty() + instructions =~= instructions);
    }
}

/// Tools that the assistant must not call do not show in the prompt.
pub proof fn law_refused_tools_hidden(
    markup: Markup,
    conversation: ConversationModel,
    json: spec_fn(Value) -> Seq<char>,
)
    requires
        conversation.tool_choice == ToolChoice::Never,
    ensures
        render::prompt_segments(markup, conversation, json) == render::prompt_segments(
            markup,
            ConversationModel { tools: Seq::empty(), ..conversation },
            json,
        ),
{
    let without = ConversationModel { tools: Seq::empty(), ..conversation };
    assert(render::instructions(markup, conversation, json) == render::instructions(
        markup,
        without,
        json,
    ));
    assert(render::rendered_messages(markup, conversation, json) == render::rendered_messages(
        markup,
        without,
        json,
    ));
}

/// Without tools, it makes no difference whether calls are allowed, required or
/// refused.
pub proof fn law_choice_without_tools(
    markup: Markup,
    conversation: ConversationModel,
    tool_choice: ToolChoice,
    json: spec_fn(Value) -> Seq<char>,
)
    requires
        conversation.tools.len() == 0,
    ensures
        render::prompt_segments(markup, conversation, json) == render::prompt_segments(
            markup,
            ConversationModel { tool_choice, ..conversation },
            json,
        ),
{
    let other = ConversationModel { tool_choice, ..conversation };
    assert(render::instructions(markup, conversation, json) == render::instructions(
        markup,
        other,
        json,
    ));
    assert(render::rendered_messages(markup, conversation, json) == render::rendered_messages(
        markup,
        other,
        json,
    ));
}

/// A single user message without further instructions stands between the
/// tokens of the template, as one segment of content if it is not empty.
pub proof fn law_single_user_message(
    markup: Markup,
    conversation: ConversationModel,
    content: Seq<char>,
    image_sources: Seq<Seq<char>>,
    json: spec_fn(Value) -> Seq<char>,
)
    requires
        conversation.messages == seq![MessageModel::User { content, image_sources }],
        conversation.tools.len() == 0,
        conversation.response_format is Text,
        (markup.reasoning_prompt)(
            0,
            conversation.thinking_mode,
            conversation.reasoning_effort,
        ).len() == 0,
    ensures
        render::prompt_segments(markup, conversation, json) == seq![
            (true, BOS_TOKEN@),
            (true, USER_SP_TOKEN@),
        ] + (if content.len() > 0 {
            seq![(false, content)]
        } else {
            seq![]
        }) + seq![
            (true, ASSISTANT_SP_TOKEN@),
            (true, render::thinking_token(conversation.thinking_mode)),
        ],
{
    let messages = conversation.messages;
    let mid_system = markup.mid_conversation_system;
    assert(messages.drop_last() =~= Seq::empty());
    assert(normalize::merged_messages(messages.drop_last(), mid_system) =~= Seq::empty());
    assert(normalize::merged_messages(messages, mid_system) =~= messages);
    assert(tool_order::results_in_call_order(messages) =~= messages);
    let by_message = render::segments_by_message(
        markup,
        messages,
        1,
        conversation.thinking_mode,
        conversation.reasoning_effort,
        json,
    );
    let prompt = (markup.reasoning_prompt)(
        0,
        conversation.thinking_mode,
        conversation.reasoning_effort,
    );
    let parts = seq![(false, prompt), (true, USER_SP_TOKEN@), (false, content)];
    assert(render::effort_parts(markup, messages, 0, prompt) + render::body_parts(
        markup,
        messages,
        0,
        conversation.thinking_mode,
        json,
    ) =~= parts);
    reveal_strlit("<｜User｜>");
    let none = Seq::<SegmentModel>::empty();
    let one = none.push((false, prompt));
    let two = one.push((true, USER_SP_TOKEN@));
    none.lemma_filter_push((false, prompt), render::is_filled());
    one.lemma_filter_push((true, USER_SP_TOKEN@), render::is_filled());
    two.lemma_filter_push((false, content), render::is_filled());
    assert(two.push((false, content)) =~= parts);
    reveal(Seq::filter);
    assert(none.filter(render::is_filled()) =~= none);
    by_message.lemma_flatten_one_element();
    assert(render::rendered_messages(markup, conversation, json) == messages);
    assert(render::prompt_segments(markup, conversation, json) =~= seq![
        (true, BOS_TOKEN@),
        (true, USER_SP_TOKEN@),
    ] + (if content.len() > 0 {
        seq![(false, content)]
    } else {
        seq![]
    }) + seq![
        (true, ASSISTANT_SP_TOKEN@),
        (true, render::thinking_token(conversation.thinking_mode)),
    ]);
}

/// The text of a prompt starts with the token for the start of a sentence; the
/// texts of the messages and the start of the reply follow.
pub proof fn law_prompt_text(
    markup: Markup,
    conversation: ConversationModel,
    json: spec_fn(Value) -> Seq<char>,
)
    ensures
        ({
            let messages = render::rendered_messages(markup, conversation, json);
            encode::prompt_text(render::prompt_segments(markup, conversation, json)) == BOS_TOKEN@
                + encode::prompt_text(
                render::segments_by_message(
                    markup,
                    messages,
                    messages.len() as int,
                    conversation.thinking_mode,
                    conversation.reasoning_effort,
                    json,
                ).flatten(),
            ) + encode::prompt_text(render::reply_segments(markup, conversation))
        }),
{
    let messages = render::rendered_messages(markup, conversation, json);
    let middle = render::segments_by_message(
        markup,
        messages,
        messages.len() as int,
        conversation.thinking_mode,
        conversation.reasoning_effort,
        json,
    ).flatten();
    let start = seq![(true, BOS_TOKEN@)];
    law_prompt_text_adds(start + middle, render::reply_segments(markup, conversation));
    law_prompt_text_adds(start, middle);
    let texts = start.map_values(|segment: SegmentModel| segment.1);
    assert(texts =~= seq![BOS_TOKEN@]);
    texts.lemma_flatten_one_element();
}

/// The text of segments put together is their texts put together.
pub proof fn law_prompt_text_adds(segments: Seq<SegmentModel>, others: Seq<SegmentModel>)
    ensures
        encode::prompt_text(segments + others) == encode::prompt_text(segments)
            + encode::prompt_text(others),
{
    let texts = segments.map_values(|segment: SegmentModel| segment.1);
    let other_texts = others.map_values(|segment: SegmentModel| segment.1);
    assert((segments + others).map_values(|segment: SegmentModel| segment.1) =~= texts
        + other_texts);
    vstd::seq_lib::lemma_flatten_concat(texts, other_texts);
}

/// The ids of segments put together are their ids put together: segments before
/// and behind others are encoded as they are without them.
pub proof fn law_encoding_adds<K: TokenizerEncoder + ?Sized>(
    tokenizer: &K,
    segments: Seq<SegmentModel>,
    others: Seq<SegmentModel>,
    ids: Seq<u32>,
)
    ensures
        encode::is_encoding(tokenizer, segments + others, Ok(ids)) <==> exists|
            first: Seq<u32>,
            second: Seq<u32>,
        | #[trigger]
            (first + second) == ids && encode::is_encoding(tokenizer, segments, Ok(first))
                && encode::is_encoding(tokenizer, others, Ok(second)),
{
    let all = segments + others;
    if encode::is_encoding(tokenizer, all, Ok(ids)) {
        let results = choose|results: Seq<Result<Vec<u32>, String>>| #[trigger]
            encode::are_segment_encodings(tokenizer, all, results) && encode::collected(results)
                == Ok::<Seq<u32>, Seq<char>>(ids);
        lemma_collected_ok(results);
        assert(results.len() == all.len());
        let before = results.take(segments.len() as int);
        let behind = results.skip(segments.len() as int);
        assert(before + behind =~= results);
        lemma_collected_add(before, behind);
        assert forall|i: int| 0 <= i < before.len() implies encode::is_segment_encoding(
            tokenizer,
            segments[i],
            #[trigger] before[i],
        ) by {
            assert(results[i] == before[i]);
            assert(all[i] == segments[i]);
        }
        assert forall|i: int| 0 <= i < behind.len() implies encode::is_segment_encoding(
            tokenizer,
            others[i],
            #[trigger] behind[i],
        ) by {
            assert(results[segments.len() + i] == behind[i]);
            assert(all[segments.len() + i] == others[i]);
        }
        assert forall|i: int| 0 <= i < behind.len() - 1 implies #[trigger] behind[i] is Ok by {
            assert(results[segments.len() + i] == behind[i]);
        }
        assert(encode::are_segment_encodings(tokenizer, segments, before));
        assert(encode::are_segment_encodings(tokenizer, others, behind));
        let first = encode::collected(before)->Ok_0;
        let second = encode::collected(behind)->Ok_0;
        assert(first + second == ids);
    }
    if exists|first: Seq<u32>, second: Seq<u32>| #[trigger]
        (first + second) == ids && encode::is_encoding(tokenizer, segments, Ok(first))
            && encode::is_encoding(tokenizer, others, Ok(second)) {
        let (first, second) = choose|first: Seq<u32>, second: Seq<u32>| #[trigger]
            (first + second) == ids && encode::is_encoding(tokenizer, segments, Ok(first))
                && encode::is_encoding(tokenizer, others, Ok(second));
        let before = choose|results: Seq<Result<Vec<u32>, String>>| #[trigger]
            encode::are_segment_encodings(tokenizer, segments, results) && encode::collected(
                results,
            ) == Ok::<Seq<u32>, Seq<char>>(first);
        let behind = choose|results: Seq<Result<Vec<u32>, String>>| #[trigger]
            encode::are_segment_encodings(tokenizer, others, results) && encode::collected(
                results,
            ) == Ok::<Seq<u32>, Seq<char>>(second);
        lemma_collected_ok(before);
        lemma_collected_ok(behind);
        lemma_collected_add(before, behind);
        let results = before + behind;
        assert forall|i: int| 0 <= i < results.len() implies encode::is_segment_encoding(
            tokenizer,
            all[i],
            #[trigger] results[i],
        ) by {
            if i < before.len() {
                assert(results[i] == before[i]);
            } else {
                assert(results[i] == behind[i - before.len()]);
            }
        }
        assert(encode::are_segment_encodings(tokenizer, all, results));
    }
}

/// Where the tokenizer gives one result for each segment, only one result can
/// come out for all of them.
pub proof fn law_encoding_determined<K: TokenizerEncoder + ?Sized>(
    tokenizer: &K,
    segments: Seq<SegmentModel>,
    ids: Result<Seq<u32>, Seq<char>>,
    others: Result<Seq<u32>, Seq<char>>,
)
    requires
        forall|segment: SegmentModel, x: Result<Vec<u32>, String>, y: Result<Vec<u32>, String>|
            #[trigger] encode::is_segment_encoding(tokenizer, segment, x)
                && #[trigger] encode::is_segment_encoding(tokenizer, segment, y)
                ==> tokenizer::ids_view(x) == tokenizer::ids_view(y),
        encode::is_encoding(tokenizer, segments, ids),
        encode::is_encoding(tokenizer, segments, others),
    ensures
        ids == others,
{
    let a = choose|results: Seq<Result<Vec<u32>, String>>| #[trigger]
        encode::are_segment_encodings(tokenizer, segments, results) && encode::collected(results)
            == ids;
    let b = choose|results: Seq<Result<Vec<u32>, String>>| #[trigger]
        encode::are_segment_encodings(tokenizer, segments, results) && encode::collected(results)
            == others;
    assert forall|i: int| 0 <= i < a.len() && i < b.len() implies tokenizer::ids_view(
        #[trigger] a[i],
    ) == tokenizer::ids_view(b[i]) by {
        assert(encode::is_segment_encoding(tokenizer, segments[i], a[i]));
        assert(encode::is_segment_encoding(tokenizer, segments[i], b[i]));
    }
    if a.len() < b.len() {
        assert(a.last() == a[a.len() - 1]);
        assert(b[a.len() - 1] is Ok);
    } else if b.len() < a.len() {
        assert(b.last() == b[b.len() - 1]);
        assert(a[b.len() - 1] is Ok);
    }
    lemma_collected_views(a, b);
}

/// A [`Tokenizer`] encodes a content segment with an added vocabulary that
/// holds no literal, and a template segment with its own.
pub proof fn law_tokenizer_keeps_content_apart(
    tokenizer: &Tokenizer,
    segment: SegmentModel,
    ids: Result<Vec<u32>, String>,
)
    requires
        encode::is_segment_encoding(tokenizer, segment, ids),
    ensures
        segment.0 ==> tokenizer::is_template_encoding(
            *tokenizer,
            segment.1,
            tokenizer::ids_view(ids),
        ),
        !segment.0 ==> tokenizer::is_content_encoding(
            *tokenizer,
            segment.1,
            tokenizer::ids_view(ids),
        ),
        segment.0 ==> tokenizer::encode_outcomes(*tokenizer, segment.1).contains(
            tokenizer::ids_view(ids),
        ),
        !segment.0 ==> exists|vocabulary: AddedVocabulary| #[trigger]
            parts::added_tokens(vocabulary) == Set::<TokenModel>::empty()
                && tokenizer::encode_outcomes(
                parts::with_vocabulary(*tokenizer, vocabulary),
                segment.1,
            ).contains(tokenizer::ids_view(ids)),
{
}

/// What a call for ids came to is shown as it is: the ids, or the message of the
/// failure, and a missing tokenizer as nothing.
pub proof fn law_attempts_shown(
    result: Result<Vec<u32>, String>,
    attempt: Result<Vec<u32>, EncodingError>,
)
    ensures
        result matches Ok(ids) ==> tokenizer::ids_view(result) == Ok::<Seq<u32>, Seq<char>>(ids@),
        result matches Err(message) ==> tokenizer::ids_view(result) == Err::<Seq<u32>, Seq<char>>(
            message@,
        ),
        attempt matches Ok(ids) ==> encode::attempt_view(attempt) == Some(
            Ok::<Seq<u32>, Seq<char>>(ids@),
        ),
        attempt matches Err(EncodingError::Encode(message)) ==> encode::attempt_view(attempt)
            == Some(Err::<Seq<u32>, Seq<char>>(message@)),
        attempt matches Err(EncodingError::MissingTokenizer) ==> encode::attempt_view(attempt)
            is None,
{
}

/// A [`Tokenizer`] that succeeds on a single user message without further
/// instructions gives ids of the template, ids of the content for which no
/// added token was recognized, and ids of the template. Those of the template
/// are encodings of the same segments whatever the content is.
pub proof fn law_content_between_templates(
    tokenizer: &Tokenizer,
    markup: Markup,
    conversation: ConversationModel,
    content: Seq<char>,
    image_sources: Seq<Seq<char>>,
    json: spec_fn(Value) -> Seq<char>,
    ids: Seq<u32>,
)
    requires
        conversation.messages == seq![MessageModel::User { content, image_sources }],
        conversation.tools.len() == 0,
        conversation.response_format is Text,
        (markup.reasoning_prompt)(
            0,
            conversation.thinking_mode,
            conversation.reasoning_effort,
        ).len() == 0,
        encode::is_encoding(
            tokenizer,
            render::prompt_segments(markup, conversation, json),
            Ok(ids),
        ),
    ensures
        exists|start: Seq<u32>, middle: Seq<u32>, end: Seq<u32>| #[trigger]
            (start + middle + end) == ids && encode::is_encoding(
                tokenizer,
                seq![(true, BOS_TOKEN@), (true, USER_SP_TOKEN@)],
                Ok(start),
            ) && (if content.len() > 0 {
                tokenizer::is_content_encoding(*tokenizer, content, Ok(middle))
            } else {
                middle.len() == 0
            }) && encode::is_encoding(
                tokenizer,
                seq![
                    (true, ASSISTANT_SP_TOKEN@),
                    (true, render::thinking_token(conversation.thinking_mode)),
                ],
                Ok(end),
            ),
{
    let opening = seq![(true, BOS_TOKEN@), (true, USER_SP_TOKEN@)];
    let body: Seq<SegmentModel> = if content.len() > 0 {
        seq![(false, content)]
    } else {
        seq![]
    };
    let closing = seq![
        (true, ASSISTANT_SP_TOKEN@),
        (true, render::thinking_token(conversation.thinking_mode)),
    ];
    law_single_user_message(markup, conversation, content, image_sources, json);
    law_encoding_adds(tokenizer, opening + body, closing, ids);
    let (front, end) = choose|first: Seq<u32>, second: Seq<u32>| #[trigger]
        (first + second) == ids && encode::is_encoding(tokenizer, opening + body, Ok(first))
            && encode::is_encoding(tokenizer, closing, Ok(second));
    law_encoding_adds(tokenizer, opening, body, front);
    let (start, middle) = choose|first: Seq<u32>, second: Seq<u32>| #[trigger]
        (first + second) == front && encode::is_encoding(tokenizer, opening, Ok(first))
            && encode::is_encoding(tokenizer, body, Ok(second));
    let results = choose|results: Seq<Result<Vec<u32>, String>>| #[trigger]
        encode::are_segment_encodings(tokenizer, body, results) && encode::collected(results)
            == Ok::<Seq<u32>, Seq<char>>(middle);
    lemma_collected_ok(results);
    if content.len() > 0 {
        assert(results.drop_last() =~= Seq::empty());
        assert(encode::collected(results.drop_last()) == Ok::<Seq<u32>, Seq<char>>(Seq::empty()));
        assert(encode::is_segment_encoding(tokenizer, body[0], results[0]));
        law_tokenizer_keeps_content_apart(tokenizer, body[0], results[0]);
        assert(middle =~= results[0]->Ok_0@);
    }
    assert(start + middle + end == ids);
}

/// A shared tokenizer encodes segments as the tokenizer itself does.
pub proof fn law_shared_tokenizer<T: TokenizerEncoder>(
    tokenizer: &Arc<T>,
    segment: SegmentModel,
    ids: Result<Vec<u32>, String>,
)
    requires
        encode::is_segment_encoding(tokenizer, segment, ids),
    ensures
        encode::is_segment_encoding(&**tokenizer, segment, ids),
{
}

/// `others` are `messages` with `added` at the end of the system message at the
/// front. Where there is none, a system message that says just that is put
/// there.
pub open spec fn instructed(
    messages: Seq<MessageModel>,
    others: Seq<MessageModel>,
    added: Seq<char>,
) -> bool {
    if messages.len() > 0 && messages[0] is System {
        &&& others.len() == messages.len()
        &&& others[0] == MessageModel::System { content: messages[0]->System_content + added }
        &&& forall|i: int| 0 < i < messages.len() ==> others[i] == #[trigger] messages[i]
    } else {
        &&& others.len() == messages.len() + 1
        &&& others[0] == MessageModel::System { content: added }
        &&& forall|i: int| 0 <= i < messages.len() ==> others[i + 1] == #[trigger] messages[i]
    }
}

/// Without tools to present and for a reply in plain text, the messages are
/// rendered in normal form as they are.
pub proof fn law_nothing_to_add(
    markup: Markup,
    conversation: ConversationModel,
    json: spec_fn(Value) -> Seq<char>,
)
    requires
        conversation.tools.len() == 0 || conversation.tool_choice == ToolChoice::Never,
        conversation.response_format == ResponseFormat::Text,
    ensures
        render::rendered_messages(markup, conversation, json) == normalize::normalized_messages(
            conversation.messages,
            markup.mid_conversation_system,
        ),
{
}

/// Tools that the assistant may call, or has to call, are presented at the end
/// of the system message at the front.
pub proof fn law_tools_presented(
    markup: Markup,
    conversation: ConversationModel,
    json: spec_fn(Value) -> Seq<char>,
)
    requires
        conversation.tools.len() > 0,
        conversation.tool_choice == ToolChoice::Auto || conversation.tool_choice
            == ToolChoice::Required,
        conversation.response_format == ResponseFormat::Text,
    ensures
        instructed(
            normalize::normalized_messages(conversation.messages, markup.mid_conversation_system),
            render::rendered_messages(markup, conversation, json),
            "\n\n"@ + tools::tool_prompt_text(
                markup,
                tools::tool_schemas_text(conversation.tools, json),
            ),
        ),
{
    let added = "\n\n"@ + tools::tool_prompt_text(
        markup,
        tools::tool_schemas_text(conversation.tools, json),
    );
    assert(render::instructions(markup, conversation, json) =~= added);
    lemma_instructed(
        normalize::normalized_messages(conversation.messages, markup.mid_conversation_system),
        added,
    );
}

/// Where tools may be called or have to be, and whatever reply is asked for, the
/// first message is a system message in which the schema of every tool stands.
pub proof fn law_every_tool_presented(
    markup: Markup,
    conversation: ConversationModel,
    at: int,
    json: spec_fn(Value) -> Seq<char>,
)
    requires
        0 <= at < conversation.tools.len(),
        conversation.tool_choice == ToolChoice::Auto || conversation.tool_choice
            == ToolChoice::Required,
    ensures
        ({
            let rendered = render::rendered_messages(markup, conversation, json);
            &&& rendered.len() > 0
            &&& rendered[0] matches MessageModel::System { content }
            &&& normal_laws::holds_text(
                content,
                json(tools::tool_schema_value(conversation.tools[at])),
            )
        }),
{
    let normal = normalize::normalized_messages(
        conversation.messages,
        markup.mid_conversation_system,
    );
    let prompt = tools::tool_prompt_text(
        markup,
        tools::tool_schemas_text(conversation.tools, json),
    );
    let schema = json(tools::tool_schema_value(conversation.tools[at]));
    let instructions = render::instructions(markup, conversation, json);
    let rendered = render::rendered_messages(markup, conversation, json);
    let content = rendered[0]->System_content;
    let behind = instructions.skip(2int + prompt.len());
    reveal_strlit("\n\n");
    tool_laws::law_every_schema_in_prompt(markup, conversation.tools, at, json);
    let before = if normal.len() > 0 && normal[0] is System {
        normal[0]->System_content + "\n\n"@
    } else {
        "\n\n"@
    };
    assert(before + prompt + behind =~= content);
    normal_laws::lemma_holds_around(before, prompt, behind, schema);
}

/// That a tool has to be called changes nothing in the messages: the prompt is
/// the one for tools that may be called, with the start of a block of tool calls
/// at the end.
pub proof fn law_required_goes_on(
    markup: Markup,
    conversation: ConversationModel,
    json: spec_fn(Value) -> Seq<char>,
)
    requires
        conversation.tool_choice == ToolChoice::Required,
        conversation.tools.len() > 0,
    ensures
        ({
            let allowed = ConversationModel { tool_choice: ToolChoice::Auto, ..conversation };
            &&& render::rendered_messages(markup, conversation, json) == render::rendered_messages(
                markup,
                allowed,
                json,
            )
            &&& render::prompt_segments(markup, conversation, json) == render::prompt_segments(
                markup,
                allowed,
                json,
            ).push(
                (true, "\n\n<"@ + DSML_SP_TOKEN@ + markup.tool_calls_block_name + ">\n"@),
            )
        }),
{
    let allowed = ConversationModel { tool_choice: ToolChoice::Auto, ..conversation };
    assert(render::instructions(markup, conversation, json) == render::instructions(
        markup,
        allowed,
        json,
    ));
    lemma_opening_text(markup);
    assert(render::prompt_segments(markup, conversation, json) =~= render::prompt_segments(
        markup,
        allowed,
        json,
    ).push((true, "\n\n<"@ + DSML_SP_TOKEN@ + markup.tool_calls_block_name + ">\n"@)));
}

/// A reply as a JSON object is asked for at the end of the system message at the
/// front, behind the tools; nothing else differs from a reply in plain text.
pub proof fn law_response_format_added(
    markup: Markup,
    conversation: ConversationModel,
    json: spec_fn(Value) -> Seq<char>,
)
    requires
        conversation.response_format == ResponseFormat::JsonObject,
    ensures
        instructed(
            render::rendered_messages(
                markup,
                ConversationModel { response_format: ResponseFormat::Text, ..conversation },
                json,
            ),
            render::rendered_messages(markup, conversation, json),
            "\n\n## Response Format:\n\nYou MUST strictly adhere to the following schema to reply:\n"@
                + json(
                json::object_value(seq![("type"@, json::string_value("json_object"@))]),
            ),
        ),
{
    let plain = ConversationModel { response_format: ResponseFormat::Text, ..conversation };
    let normal = normalize::normalized_messages(
        conversation.messages,
        markup.mid_conversation_system,
    );
    let tools = render::instructions(markup, plain, json);
    let added =
        "\n\n## Response Format:\n\nYou MUST strictly adhere to the following schema to reply:\n"@
        + json(json::object_value(seq![("type"@, json::string_value("json_object"@))]));
    assert(json::object_value(seq![("type"@, json::string_value("json_object"@))])
        == tools::response_schema_value());
    assert(render::instructions(markup, conversation, json) =~= tools + added);
    lemma_instructed(normal, tools + added);
    lemma_instructed(normal, tools);
    lemma_instructed(normal, added);
    if render::presents_tools(conversation) {
        if normal.len() > 0 && normal[0] is System {
            let content = normal[0]->System_content;
            assert(content + (tools + added) =~= content + tools + added);
        }
        let before = render::rendered_messages(markup, plain, json);
        let after = render::rendered_messages(markup, conversation, json);
        assert forall|i: int| 0 < i < before.len() implies after[i] == #[trigger] before[i] by {
            if !(normal.len() > 0 && normal[0] is System) {
                assert(before[i] == normal[i - 1]);
                assert(after[i] == normal[i - 1]);
            }
        }
    } else {
        assert(tools + added =~= added);
    }
}

/// The segments of the first `count` messages, one message behind the other.
pub open spec fn segments_upto(
    markup: Markup,
    messages: Seq<MessageModel>,
    count: int,
    thinking_mode: bool,
    reasoning_effort: Option<ReasoningEffort>,
    json: spec_fn(Value) -> Seq<char>,
) -> Seq<SegmentModel>
    decreases count,
{
    if count <= 0 {
        Seq::empty()
    } else {
        segments_upto(markup, messages, count - 1, thinking_mode, reasoning_effort, json)
            + render::message_segments(
            markup,
            messages,
            count - 1,
            thinking_mode,
            reasoning_effort,
            json,
        )
    }
}

/// Where no tool call is required, a prompt is the token for the start of a
/// sentence, all messages in their order, the token of an assistant message, and
/// the token that starts the reasoning, or ends it outside thinking mode.
pub proof fn law_prompt_in_order(
    markup: Markup,
    conversation: ConversationModel,
    json: spec_fn(Value) -> Seq<char>,
)
    requires
        conversation.tools.len() == 0 || conversation.tool_choice != ToolChoice::Required,
    ensures
        ({
            let messages = render::rendered_messages(markup, conversation, json);
            render::prompt_segments(markup, conversation, json) == seq![(true, BOS_TOKEN@)]
                + segments_upto(
                markup,
                messages,
                messages.len() as int,
                conversation.thinking_mode,
                conversation.reasoning_effort,
                json,
            ) + seq![
                (true, ASSISTANT_SP_TOKEN@),
                (
                    true,
                    if conversation.thinking_mode {
                        THINKING_START_TOKEN@
                    } else {
                        THINKING_END_TOKEN@
                    },
                ),
            ]
        }),
{
    let messages = render::rendered_messages(markup, conversation, json);
    lemma_segments_upto(
        markup,
        messages,
        messages.len() as int,
        conversation.thinking_mode,
        conversation.reasoning_effort,
        json,
    );
    let reply: Seq<SegmentModel> = seq![
        (true, ASSISTANT_SP_TOKEN@),
        (
            true,
            if conversation.thinking_mode {
                THINKING_START_TOKEN@
            } else {
                THINKING_END_TOKEN@
            },
        ),
    ];
    assert(render::reply_segments(markup, conversation) =~= reply);
}

/// What any message of a conversation says stands in the text of the prompt.
pub proof fn law_every_text_in_prompt(
    markup: Markup,
    conversation: ConversationModel,
    at: int,
    json: spec_fn(Value) -> Seq<char>,
)
    requires
        0 <= at < conversation.messages.len(),
    ensures
        normal_laws::holds_text(
            encode::prompt_text(render::prompt_segments(markup, conversation, json)),
            normal_laws::said(conversation.messages[at]),
        ),
{
    let messages = conversation.messages;
    let part = normal_laws::said(messages[at]);
    let normal = normalize::normalized_messages(messages, markup.mid_conversation_system);
    let rendered = render::rendered_messages(markup, conversation, json);
    normal_laws::law_every_text_kept(messages, at, markup.mid_conversation_system);
    let k = choose|k: int|
        0 <= k < normal.len() && normal_laws::holds_text(
            normal_laws::said(#[trigger] normal[k]),
            part,
        );
    let there = lemma_rendered_holds(markup, conversation, json, k, part);
    let thinking_mode = conversation.thinking_mode;
    let effort = conversation.reasoning_effort;
    lemma_message_holds(markup, rendered, there, thinking_mode, effort, json, part);
    let count = rendered.len() as int;
    lemma_upto_holds(markup, rendered, there, count, thinking_mode, effort, json, part);
    lemma_segments_upto(markup, rendered, count, thinking_mode, effort, json);
    let middle = segments_upto(markup, rendered, count, thinking_mode, effort, json);
    let start: Seq<SegmentModel> = seq![(true, BOS_TOKEN@)];
    lemma_held_behind(start, middle, part);
    lemma_held_before(start + middle, render::reply_segments(markup, conversation), part);
}

proof fn lemma_held_before(
    segments: Seq<SegmentModel>,
    others: Seq<SegmentModel>,
    part: Seq<char>,
)
    requires
        normal_laws::holds_text(encode::prompt_text(segments), part),
    ensures
        normal_laws::holds_text(encode::prompt_text(segments + others), part),
{
    let none = Seq::<char>::empty();
    let text = encode::prompt_text(segments);
    let more = encode::prompt_text(others);
    law_prompt_text_adds(segments, others);
    assert(none + text + more =~= text + more);
    normal_laws::lemma_holds_around(none, text, more, part);
}

proof fn lemma_held_behind(
    segments: Seq<SegmentModel>,
    others: Seq<SegmentModel>,
    part: Seq<char>,
)
    requires
        normal_laws::holds_text(encode::prompt_text(others), part),
    ensures
        normal_laws::holds_text(encode::prompt_text(segments + others), part),
{
    let none = Seq::<char>::empty();
    let text = encode::prompt_text(others);
    let more = encode::prompt_text(segments);
    law_prompt_text_adds(segments, others);
    assert(more + text + none =~= more + text);
    normal_laws::lemma_holds_around(more, text, none, part);
}

/// A text and what stands in it stand in its segment.
proof fn lemma_held_in_segment(text: Seq<char>, part: Seq<char>)
    requires
        normal_laws::holds_text(text, part),
    ensures
        normal_laws::holds_text(encode::prompt_text(message_laws::segment_of(false, text)), part),
{
    law_text_of_one_segment((false, text));
    if text.len() == 0 {
        assert(text =~= Seq::empty());
    }
}

/// What stands in a message of the normal form stands in a rendered one.
proof fn lemma_rendered_holds(
    markup: Markup,
    conversation: ConversationModel,
    json: spec_fn(Value) -> Seq<char>,
    k: int,
    part: Seq<char>,
) -> (there: int)
    requires
        ({
            let normal = normalize::normalized_messages(
                conversation.messages,
                markup.mid_conversation_system,
            );
            0 <= k < normal.len() && normal_laws::holds_text(normal_laws::said(normal[k]), part)
        }),
    ensures
        ({
            let rendered = render::rendered_messages(markup, conversation, json);
            0 <= there < rendered.len() && normal_laws::holds_text(
                normal_laws::said(rendered[there]),
                part,
            )
        }),
{
    let normal = normalize::normalized_messages(
        conversation.messages,
        markup.mid_conversation_system,
    );
    let rendered = render::rendered_messages(markup, conversation, json);
    let instructions = render::instructions(markup, conversation, json);
    let none = Seq::<char>::empty();
    if rendered == normal {
        k
    } else {
        lemma_instructed(normal, instructions);
        if normal[0] is System {
            if k == 0 {
                let content = normal[0]->System_content;
                assert(none + content + instructions =~= content + instructions);
                normal_laws::lemma_holds_around(none, content, instructions, part);
            } else {
                assert(rendered[k] == normal[k]);
            }
            k
        } else {
            assert(rendered[k + 1] == normal[k]);
            k + 1
        }
    }
}

/// What stands in a message stands in the text of its segments.
proof fn lemma_message_holds(
    markup: Markup,
    messages: Seq<MessageModel>,
    index: int,
    thinking_mode: bool,
    reasoning_effort: Option<ReasoningEffort>,
    json: spec_fn(Value) -> Seq<char>,
    part: Seq<char>,
)
    requires
        0 <= index < messages.len(),
        normal_laws::holds_text(normal_laws::said(messages[index]), part),
    ensures
        normal_laws::holds_text(
            encode::prompt_text(
                render::message_segments(
                    markup,
                    messages,
                    index,
                    thinking_mode,
                    reasoning_effort,
                    json,
                ),
            ),
            part,
        ),
{
    let (before, text, behind) = lemma_said_in_segments(
        markup,
        messages,
        index,
        thinking_mode,
        reasoning_effort,
        json,
    );
    let said = normal_laws::said(messages[index]);
    if text != said {
        normal_laws::lemma_holds_around("<tool_result>"@, said, "</tool_result>"@, part);
    }
    lemma_held_in_segment(text, part);
    lemma_held_behind(before, message_laws::segment_of(false, text), part);
    lemma_held_before(before + message_laws::segment_of(false, text), behind, part);
}

/// Where among its segments a message says what it says.
proof fn lemma_said_in_segments(
    markup: Markup,
    messages: Seq<MessageModel>,
    index: int,
    thinking_mode: bool,
    reasoning_effort: Option<ReasoningEffort>,
    json: spec_fn(Value) -> Seq<char>,
) -> (parts: (Seq<SegmentModel>, Seq<char>, Seq<SegmentModel>))
    requires
        0 <= index < messages.len(),
    ensures
        render::message_segments(markup, messages, index, thinking_mode, reasoning_effort, json)
            == parts.0 + message_laws::segment_of(false, parts.1) + parts.2,
        parts.1 == normal_laws::said(messages[index]) || parts.1 == "<tool_result>"@
            + normal_laws::said(messages[index]) + "</tool_result>"@,
{
    let none = Seq::<SegmentModel>::empty();
    let opening = message_laws::opening(markup, messages, index, thinking_mode, reasoning_effort);
    let mark: Seq<SegmentModel> = seq![(true, message_laws::user_mark(messages, index))];
    match messages[index] {
        MessageModel::System { content } => {
            message_laws::law_system_message(
                markup,
                messages,
                index,
                content,
                thinking_mode,
                reasoning_effort,
                json,
            );
            let front = opening + (if index > 0 && markup.mid_conversation_system {
                message_laws::segment_of(true, markup.system_token)
            } else {
                none
            });
            lemma_add_none(front + message_laws::segment_of(false, content));
            (front, content, none)
        },
        MessageModel::User { content, image_sources } => {
            message_laws::law_user_message(
                markup,
                messages,
                index,
                content,
                image_sources,
                thinking_mode,
                reasoning_effort,
                json,
            );
            lemma_add_none(opening + mark + message_laws::segment_of(false, content));
            (opening + mark, content, none)
        },
        MessageModel::LatestReminder { content } => {
            message_laws::law_reminder_message(
                markup,
                messages,
                index,
                content,
                thinking_mode,
                reasoning_effort,
                json,
            );
            let front = opening + seq![(true, LATEST_REMINDER_SP_TOKEN@)];
            lemma_add_none(front + message_laws::segment_of(false, content));
            (front, content, none)
        },
        MessageModel::Tool { tool_call_id, content, image_sources } => {
            message_laws::law_result_message(
                markup,
                messages,
                index,
                tool_call_id,
                content,
                image_sources,
                thinking_mode,
                reasoning_effort,
                json,
            );
            let text = "<tool_result>"@ + content + "</tool_result>"@;
            let segment = message_laws::segment_of(false, text);
            reveal_strlit("<tool_result>");
            assert(segment == seq![(false, text)]);
            assert(mark + segment =~= seq![mark[0], (false, text)]);
            lemma_add_three(opening, mark, segment);
            lemma_add_none(opening + mark + segment);
            (opening + mark, text, none)
        },
        MessageModel::Assistant { content, reasoning_content, tool_calls } => {
            message_laws::law_assistant_message(
                markup,
                messages,
                index,
                content,
                thinking_mode,
                reasoning_effort,
                json,
            );
            let calls = message_laws::with_text(
                tool_segments::tool_calls_parts(markup, tool_calls, json),
            );
            let end: Seq<SegmentModel> = seq![(true, EOS_TOKEN@)];
            let front = opening + seq![(true, ASSISTANT_SP_TOKEN@)] + (if thinking_mode && index
                > 0 {
                seq![(true, THINKING_START_TOKEN@)] + (if reasoning_content is Some {
                    message_laws::segment_of(false, reasoning_content->0)
                } else {
                    none
                })
            } else {
                none
            }) + seq![(true, THINKING_END_TOKEN@)];
            lemma_add_three(front + message_laws::segment_of(false, content), calls, end);
            (front, content, calls + end)
        },
    }
}

proof fn lemma_add_none(segments: Seq<SegmentModel>)
    ensures
        segments == segments + Seq::empty(),
{
    assert(segments =~= segments + Seq::empty());
}

proof fn lemma_add_three(
    first: Seq<SegmentModel>,
    second: Seq<SegmentModel>,
    third: Seq<SegmentModel>,
)
    ensures
        first + second + third == first + (second + third),
{
    assert(first + second + third =~= first + (second + third));
}

/// What stands in the text of a message stands in that of all.
proof fn lemma_upto_holds(
    markup: Markup,
    messages: Seq<MessageModel>,
    index: int,
    count: int,
    thinking_mode: bool,
    reasoning_effort: Option<ReasoningEffort>,
    json: spec_fn(Value) -> Seq<char>,
    part: Seq<char>,
)
    requires
        0 <= index < count <= messages.len(),
        normal_laws::holds_text(
            encode::prompt_text(
                render::message_segments(
                    markup,
                    messages,
                    index,
                    thinking_mode,
                    reasoning_effort,
                    json,
                ),
            ),
            part,
        ),
    ensures
        normal_laws::holds_text(
            encode::prompt_text(
                segments_upto(markup, messages, count, thinking_mode, reasoning_effort, json),
            ),
            part,
        ),
    decreases count,
{
    let front = segments_upto(markup, messages, count - 1, thinking_mode, reasoning_effort, json);
    let last = render::message_segments(
        markup,
        messages,
        count - 1,
        thinking_mode,
        reasoning_effort,
        json,
    );
    if index == count - 1 {
        lemma_held_behind(front, last, part);
    } else {
        lemma_upto_holds(
            markup,
            messages,
            index,
            count - 1,
            thinking_mode,
            reasoning_effort,
            json,
            part,
        );
        lemma_held_before(front, last, part);
    }
}

/// The text of a segment is its own, and without segments there is no text.
pub proof fn law_text_of_one_segment(segment: SegmentModel)
    ensures
        encode::prompt_text(seq![segment]) == segment.1,
        encode::prompt_text(Seq::empty()) == Seq::<char>::empty(),
{
    let texts = seq![segment].map_values(|segment: SegmentModel| segment.1);
    assert(texts =~= seq![segment.1]);
    texts.lemma_flatten_one_element();
    assert(Seq::<SegmentModel>::empty().map_values(|segment: SegmentModel| segment.1)
        =~= Seq::empty());
}

/// Encoding ends with the first failure, and gives its message.
pub proof fn law_first_failure(results: Seq<Result<Vec<u32>, String>>, at: int)
    requires
        0 <= at < results.len(),
        results[at] is Err,
        forall|i: int| 0 <= i < at ==> #[trigger] results[i] is Ok,
    ensures
        encode::collected(results) == Err::<Seq<u32>, Seq<char>>(results[at]->Err_0@),
    decreases results.len(),
{
    let front = results.drop_last();
    if at < front.len() {
        assert(front[at] == results[at]);
        assert forall|i: int| 0 <= i < at implies #[trigger] front[i] is Ok by {
            assert(front[i] == results[i]);
        }
        law_first_failure(front, at);
    } else {
        lemma_collected_all_ok(front);
    }
}

/// Without a failure, the ids of each result come one behind the other.
pub proof fn law_ids_in_order(
    results: Seq<Result<Vec<u32>, String>>,
    others: Seq<Result<Vec<u32>, String>>,
    ids: Vec<u32>,
)
    ensures
        encode::collected(results) is Ok && encode::collected(others) is Ok ==> encode::collected(
            results + others,
        ) == Ok::<Seq<u32>, Seq<char>>(
            encode::collected(results)->Ok_0 + encode::collected(others)->Ok_0,
        ),
        encode::collected(seq![Ok(ids)]) == Ok::<Seq<u32>, Seq<char>>(ids@),
        encode::collected(Seq::empty()) == Ok::<Seq<u32>, Seq<char>>(Seq::empty()),
{
    lemma_collected_add(results, others);
    let one: Seq<Result<Vec<u32>, String>> = seq![Ok(ids)];
    assert(one.drop_last() =~= Seq::empty());
    assert(encode::collected(one.drop_last()) == Ok::<Seq<u32>, Seq<char>>(Seq::empty()));
    assert(Seq::<u32>::empty() + ids@ =~= ids@);
}

/// Each segment is handed to the tokenizer with its text unchanged: a template
/// segment to be encoded with added tokens, a content segment without.
pub proof fn law_segments_encoded_by_kind<K: TokenizerEncoder + ?Sized>(
    tokenizer: &K,
    segment: SegmentModel,
    ids: Result<Vec<u32>, String>,
)
    requires
        encode::is_segment_encoding(tokenizer, segment, ids),
    ensures
        segment.0 ==> exists|text: &str|
            #![trigger text@]
            text@ == segment.1 && call_ensures(K::encode_ids, (tokenizer, text), ids),
        !segment.0 ==> exists|text: &str|
            #![trigger text@]
            text@ == segment.1 && call_ensures(K::encode_content_ids, (tokenizer, text), ids),
{
}

/// One segment comes to what the tokenizer gives for it, and no segment to no
/// ids.
pub proof fn law_encoding_of_one<K: TokenizerEncoder + ?Sized>(
    tokenizer: &K,
    segment: SegmentModel,
    ids: Result<Seq<u32>, Seq<char>>,
)
    ensures
        encode::is_encoding(tokenizer, seq![segment], ids) ==> exists|
            result: Result<Vec<u32>, String>,
        | #[trigger]
            encode::is_segment_encoding(tokenizer, segment, result) && tokenizer::ids_view(result)
                == ids,
        encode::is_encoding(tokenizer, Seq::empty(), ids) ==> ids == Ok::<Seq<u32>, Seq<char>>(
            Seq::empty(),
        ),
{
    if encode::is_encoding(tokenizer, seq![segment], ids) {
        let results = choose|results: Seq<Result<Vec<u32>, String>>| #[trigger]
            encode::are_segment_encodings(tokenizer, seq![segment], results) && encode::collected(
                results,
            ) == ids;
        assert(results.len() == 1);
        assert(encode::is_segment_encoding(tokenizer, seq![segment][0], results[0]));
        assert(results.drop_last() =~= Seq::empty());
        assert(encode::collected(results.drop_last()) == Ok::<Seq<u32>, Seq<char>>(Seq::empty()));
        if let Ok(list) = results[0] {
            assert(Seq::<u32>::empty() + list@ =~= list@);
        }
    }
}

/// Where encoding fails, the tokenizer failed on a segment with that message,
/// after it gave ids for all segments before.
pub proof fn law_encoding_fails<K: TokenizerEncoder + ?Sized>(
    tokenizer: &K,
    segments: Seq<SegmentModel>,
    message: Seq<char>,
)
    requires
        encode::is_encoding(tokenizer, segments, Err(message)),
    ensures
        exists|at: int, result: Result<Vec<u32>, String>, ids: Seq<u32>|
            0 <= at < segments.len() && #[trigger] encode::is_segment_encoding(
                tokenizer,
                segments[at],
                result,
            ) && tokenizer::ids_view(result) == Err::<Seq<u32>, Seq<char>>(message)
                && #[trigger] encode::is_encoding(tokenizer, segments.take(at), Ok(ids)),
{
    let results = choose|results: Seq<Result<Vec<u32>, String>>| #[trigger]
        encode::are_segment_encodings(tokenizer, segments, results) && encode::collected(results)
            == Err::<Seq<u32>, Seq<char>>(message);
    let at = results.len() - 1;
    let before = results.drop_last();
    assert(results.len() > 0);
    assert forall|i: int| 0 <= i < before.len() implies #[trigger] before[i] is Ok by {
        assert(results[i] is Ok);
    }
    lemma_collected_all_ok(before);
    let ids = encode::collected(before)->Ok_0;
    assert forall|i: int| 0 <= i < before.len() implies encode::is_segment_encoding(
        tokenizer,
        segments.take(at)[i],
        #[trigger] before[i],
    ) by {
        assert(results[i] == before[i]);
    }
    assert(encode::are_segment_encodings(tokenizer, segments.take(at), before));
    assert(encode::is_encoding(tokenizer, segments.take(at), Ok(ids)));
    assert(encode::is_segment_encoding(tokenizer, segments[at], results[at]));
}

proof fn lemma_collected_all_ok(results: Seq<Result<Vec<u32>, String>>)
    requires
        forall|i: int| 0 <= i < results.len() ==> #[trigger] results[i] is Ok,
    ensures
        encode::collected(results) is Ok,
    decreases results.len(),
{
    if results.len() > 0 {
        let front = results.drop_last();
        assert forall|i: int| 0 <= i < front.len() implies #[trigger] front[i] is Ok by {
            assert(front[i] == results[i]);
        }
        lemma_collected_all_ok(front);
        assert(results[results.len() - 1] is Ok);
    }
}

proof fn lemma_instructed(messages: Seq<MessageModel>, instructions: Seq<char>)
    ensures
        instructed(messages, render::with_instructions(messages, instructions), instructions),
{
}

proof fn lemma_opening_text(markup: Markup)
    ensures
        render::tool_calls_opening(markup) == "\n\n<"@ + DSML_SP_TOKEN@
            + markup.tool_calls_block_name + ">\n"@,
{
    let one = seq!["\n\n<"@];
    let two = one.push(DSML_SP_TOKEN@);
    let three = two.push(markup.tool_calls_block_name);
    one.lemma_flatten_one_element();
    one.lemma_flatten_push(DSML_SP_TOKEN@);
    two.lemma_flatten_push(markup.tool_calls_block_name);
    three.lemma_flatten_push(">\n"@);
    assert(three.push(">\n"@) =~= seq![
        "\n\n<"@,
        DSML_SP_TOKEN@,
        markup.tool_calls_block_name,
        ">\n"@,
    ]);
}

proof fn lemma_segments_upto(
    markup: Markup,
    messages: Seq<MessageModel>,
    count: int,
    thinking_mode: bool,
    reasoning_effort: Option<ReasoningEffort>,
    json: spec_fn(Value) -> Seq<char>,
)
    requires
        0 <= count,
    ensures
        render::segments_by_message(
            markup,
            messages,
            count,
            thinking_mode,
            reasoning_effort,
            json,
        ).flatten() == segments_upto(
            markup,
            messages,
            count,
            thinking_mode,
            reasoning_effort,
            json,
        ),
    decreases count,
{
    let lists = render::segments_by_message(
        markup,
        messages,
        count,
        thinking_mode,
        reasoning_effort,
        json,
    );
    if count > 0 {
        lemma_segments_upto(markup, messages, count - 1, thinking_mode, reasoning_effort, json);
        let front = render::segments_by_message(
            markup,
            messages,
            count - 1,
            thinking_mode,
            reasoning_effort,
            json,
        );
        assert(lists =~= front.push(lists[count - 1]));
        front.lemma_flatten_push(lists[count - 1]);
    } else {
        assert(lists =~= Seq::empty());
    }
}

spec fn all_filled(segments: Seq<SegmentModel>) -> bool {
    forall|i: int| 0 <= i < segments.len() ==> (#[trigger] segments[i]).1.len() > 0
}

proof fn lemma_flatten_filled(lists: Seq<Seq<SegmentModel>>)
    requires
        forall|i: int| 0 <= i < lists.len() ==> all_filled(#[trigger] lists[i]),
    ensures
        all_filled(lists.flatten()),
    decreases lists.len(),
{
    if lists.len() > 0 {
        let rest = lists.drop_first();
        assert forall|i: int| 0 <= i < rest.len() implies all_filled(#[trigger] rest[i]) by {
            assert(rest[i] == lists[i + 1]);
        }
        lemma_flatten_filled(rest);
        assert(all_filled(lists[0]));
    }
}

proof fn lemma_collected_ok(results: Seq<Result<Vec<u32>, String>>)
    requires
        encode::collected(results) is Ok,
    ensures
        forall|i: int| 0 <= i < results.len() ==> #[trigger] results[i] is Ok,
        results.len() > 0 ==> results.last() is Ok,
    decreases results.len(),
{
    if results.len() > 0 {
        let front = results.drop_last();
        lemma_collected_ok(front);
        assert forall|i: int| 0 <= i < results.len() implies #[trigger] results[i] is Ok by {
            if i < front.len() {
                assert(front[i] is Ok);
            }
        }
    }
}

proof fn lemma_collected_add(
    results: Seq<Result<Vec<u32>, String>>,
    others: Seq<Result<Vec<u32>, String>>,
)
    ensures
        encode::collected(results + others) == (match encode::collected(results) {
            Ok(ids) => match encode::collected(others) {
                Ok(more) => Ok(ids + more),
                Err(message) => Err(message),
            },
            Err(message) => Err(message),
        }),
    decreases others.len(),
{
    let all = results + others;
    if others.len() == 0 {
        assert(all =~= results);
        if let Ok(ids) = encode::collected(results) {
            assert(ids + Seq::<u32>::empty() =~= ids);
        }
    } else {
        lemma_collected_add(results, others.drop_last());
        assert(all.drop_last() =~= results + others.drop_last());
        assert(all.last() == others.last());
        if let Ok(ids) = encode::collected(results) {
            if let Ok(more) = encode::collected(others.drop_last()) {
                if let Ok(last) = others.last() {
                    assert(ids + more + last@ =~= ids + (more + last@));
                }
            }
        }
    }
}

proof fn lemma_collected_views(
    results: Seq<Result<Vec<u32>, String>>,
    others: Seq<Result<Vec<u32>, String>>,
)
    requires
        results.len() == others.len(),
        forall|i: int|
            0 <= i < results.len() ==> tokenizer::ids_view(#[trigger] results[i])
                == tokenizer::ids_view(others[i]),
    ensures
        encode::collected(results) == encode::collected(others),
    decreases results.len(),
{
    if results.len() > 0 {
        let front = results.drop_last();
        let front_other = others.drop_last();
        assert forall|i: int| 0 <= i < front.len() implies tokenizer::ids_view(#[trigger] front[i])
            == tokenizer::ids_view(front_other[i]) by {
            assert(front[i] == results[i] && front_other[i] == others[i]);
        }
        lemma_collected_views(front, front_other);
        assert(tokenizer::ids_view(results[results.len() - 1]) == tokenizer::ids_view(
            others[results.len() - 1],
        ));
    }
}

} // verus!
