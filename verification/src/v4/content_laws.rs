//! What the contents of messages cannot change in a prompt.

use crate::conversation::{ConversationModel, MessageModel, ReasoningEffort, ToolCallModel};
use crate::json;
use crate::v4::normalize;
use crate::v4::render;
use crate::v4::render::SegmentModel;
use crate::v4::tool_order;
use crate::v4::tool_segments;
use crate::v4::Markup;
use serde_json::Value;
use vstd::prelude::*;

verus! {

/// The calls of an assistant message.
pub open spec fn calls_made(tool_calls: Option<Seq<ToolCallModel>>) -> Seq<ToolCallModel> {
    match tool_calls {
        Some(calls) => calls,
        None => Seq::empty(),
    }
}

/// Of each argument of a tool call, whether it is a string.
pub open spec fn string_flags(arguments: Seq<char>) -> Seq<bool> {
    match json::parsed_object(arguments) {
        Some(entries) => entries.map_values(
            |entry: (Seq<char>, Value)| json::string_content(entry.1) is Some,
        ),
        None => seq![true],
    }
}

/// Two tool calls of one id with as many arguments, strings in the same places.
/// Their names, the names of the arguments and the arguments may differ.
pub open spec fn call_alike(a: ToolCallModel, b: ToolCallModel) -> bool {
    a.id == b.id && string_flags(a.arguments) == string_flags(b.arguments)
}

/// Lists of tool calls that are alike one by one.
pub open spec fn calls_alike(calls: Seq<ToolCallModel>, others: Seq<ToolCallModel>) -> bool {
    &&& calls.len() == others.len()
    &&& forall|i: int|
        #![trigger calls[i]]
        #![trigger others[i]]
        0 <= i < calls.len() ==> call_alike(calls[i], others[i])
}

/// Two messages of one kind that make or answer calls of the same ids, whatever
/// reasoning they hold. Unless `content_counts`, they may say different things,
/// the calls too.
pub open spec fn alike(a: MessageModel, b: MessageModel, content_counts: bool) -> bool {
    match (a, b) {
        (MessageModel::System { .. }, MessageModel::System { .. }) => content_counts ==> a == b,
        (MessageModel::User { .. }, MessageModel::User { .. }) => content_counts ==> a == b,
        (MessageModel::LatestReminder { .. }, MessageModel::LatestReminder { .. }) => {
            content_counts ==> a == b
        },
        (
            MessageModel::Tool { tool_call_id: i, .. },
            MessageModel::Tool { tool_call_id: j, .. },
        ) => i == j && (content_counts ==> a == b),
        (
            MessageModel::Assistant { content: x, tool_calls: i, .. },
            MessageModel::Assistant { content: y, tool_calls: j, .. },
        ) => calls_alike(calls_made(i), calls_made(j)) && (content_counts ==> x == y && i == j),
        _ => false,
    }
}

/// Lists of messages that are alike one by one.
pub open spec fn all_alike(
    messages: Seq<MessageModel>,
    others: Seq<MessageModel>,
    content_counts: bool,
) -> bool {
    &&& messages.len() == others.len()
    &&& forall|i: int|
        #![trigger messages[i]]
        #![trigger others[i]]
        0 <= i < messages.len() ==> alike(messages[i], others[i], content_counts)
}

/// Of system messages that come late, both or neither are empty.
pub open spec fn late_systems_match(
    messages: Seq<MessageModel>,
    others: Seq<MessageModel>,
) -> bool {
    forall|i: int|
        #![trigger messages[i]]
        #![trigger others[i]]
        0 <= i < messages.len() && messages[i] is System && normalize::has_non_system(
            messages.take(i),
        ) ==> (messages[i]->System_content.len() == 0 <==> others[i]->System_content.len() == 0)
}

/// Is a template segment.
pub open spec fn is_template() -> spec_fn(SegmentModel) -> bool {
    |segment: SegmentModel| segment.0
}

/// The template segments among `segments`.
pub open spec fn templates(segments: Seq<SegmentModel>) -> Seq<SegmentModel> {
    segments.filter(is_template())
}

/// What messages say has no influence on the template segments of a prompt:
/// neither their content nor the names and arguments of their tool calls. Where
/// a late system message has to become a user message, there is one only if it
/// says something.
pub proof fn law_content_leaves_templates(
    markup: Markup,
    conversation: ConversationModel,
    messages: Seq<MessageModel>,
    json: spec_fn(Value) -> Seq<char>,
)
    requires
        all_alike(conversation.messages, messages, false),
        markup.mid_conversation_system || late_systems_match(conversation.messages, messages),
    ensures
        templates(render::prompt_segments(markup, conversation, json)) == templates(
            render::prompt_segments(markup, ConversationModel { messages, ..conversation }, json),
        ),
{
    let other = ConversationModel { messages, ..conversation };
    let rendered = render::rendered_messages(markup, conversation, json);
    let rendered_other = render::rendered_messages(markup, other, json);
    lemma_rendered_alike(markup, conversation, messages, json, false);
    let by_message = render::segments_by_message(
        markup,
        rendered,
        rendered.len() as int,
        conversation.thinking_mode,
        conversation.reasoning_effort,
        json,
    );
    let by_message_other = render::segments_by_message(
        markup,
        rendered_other,
        rendered_other.len() as int,
        conversation.thinking_mode,
        conversation.reasoning_effort,
        json,
    );
    assert forall|i: int| 0 <= i < by_message.len() implies templates(#[trigger] by_message[i])
        == templates(by_message_other[i]) by {
        lemma_message_templates(
            markup,
            rendered,
            rendered_other,
            i,
            conversation.thinking_mode,
            conversation.reasoning_effort,
            json,
        );
    }
    lemma_templates_flatten(by_message, by_message_other);
    let start = seq![(true, crate::v4::BOS_TOKEN@)];
    let end = render::reply_segments(markup, conversation);
    Seq::filter_distributes_over_add(start + by_message.flatten(), end, is_template());
    Seq::filter_distributes_over_add(start, by_message.flatten(), is_template());
    Seq::filter_distributes_over_add(start + by_message_other.flatten(), end, is_template());
    Seq::filter_distributes_over_add(start, by_message_other.flatten(), is_template());
}

/// Outside thinking mode the reasoning of assistant messages does not show.
pub proof fn law_reasoning_hidden(
    markup: Markup,
    conversation: ConversationModel,
    messages: Seq<MessageModel>,
    json: spec_fn(Value) -> Seq<char>,
)
    requires
        !conversation.thinking_mode,
        all_alike(conversation.messages, messages, true),
    ensures
        render::prompt_segments(markup, conversation, json) == render::prompt_segments(
            markup,
            ConversationModel { messages, ..conversation },
            json,
        ),
{
    let other = ConversationModel { messages, ..conversation };
    let rendered = render::rendered_messages(markup, conversation, json);
    let rendered_other = render::rendered_messages(markup, other, json);
    assert forall|i: int|
        #![trigger conversation.messages[i]]
        #![trigger messages[i]]
        0 <= i < messages.len() && conversation.messages[i] is System implies messages[i]
        == conversation.messages[i] by {
        assert(alike(conversation.messages[i], messages[i], true));
    }
    lemma_rendered_alike(markup, conversation, messages, json, true);
    assert forall|i: int| 0 <= i < rendered.len() implies #[trigger] render::message_segments(
        markup,
        rendered,
        i,
        false,
        conversation.reasoning_effort,
        json,
    ) == render::message_segments(
        markup,
        rendered_other,
        i,
        false,
        conversation.reasoning_effort,
        json,
    ) by {
        assert(alike(rendered[i], rendered_other[i], true));
        if i > 0 {
            assert(alike(rendered[i - 1], rendered_other[i - 1], true));
        }
    }
    assert(render::segments_by_message(
        markup,
        rendered,
        rendered.len() as int,
        false,
        conversation.reasoning_effort,
        json,
    ) =~= render::segments_by_message(
        markup,
        rendered_other,
        rendered_other.len() as int,
        false,
        conversation.reasoning_effort,
        json,
    ));
}

proof fn lemma_same_non_system(
    messages: Seq<MessageModel>,
    others: Seq<MessageModel>,
    content_counts: bool,
)
    requires
        all_alike(messages, others, content_counts),
    ensures
        normalize::has_non_system(messages) == normalize::has_non_system(others),
{
    if normalize::has_non_system(messages) {
        let i = choose|i: int| 0 <= i < messages.len() && !(#[trigger] messages[i] is System);
        assert(!(others[i] is System));
    }
    if normalize::has_non_system(others) {
        let i = choose|i: int| 0 <= i < others.len() && !(#[trigger] others[i] is System);
        assert(!(messages[i] is System));
    }
}

proof fn lemma_alike_front(
    messages: Seq<MessageModel>,
    others: Seq<MessageModel>,
    content_counts: bool,
)
    requires
        messages.len() > 0,
        all_alike(messages, others, content_counts),
    ensures
        all_alike(messages.drop_last(), others.drop_last(), content_counts),
        alike(messages.last(), others.last(), content_counts),
{
    let front = messages.drop_last();
    let front_other = others.drop_last();
    assert forall|i: int|
        #![trigger front[i]]
        #![trigger front_other[i]]
        0 <= i < front.len() implies alike(front[i], front_other[i], content_counts) by {
        assert(alike(messages[i], others[i], content_counts));
    }
    assert(alike(messages[messages.len() - 1], others[messages.len() - 1], content_counts));
}

proof fn lemma_alike_push(
    messages: Seq<MessageModel>,
    others: Seq<MessageModel>,
    message: MessageModel,
    other: MessageModel,
    content_counts: bool,
)
    requires
        all_alike(messages, others, content_counts),
        alike(message, other, content_counts),
    ensures
        all_alike(messages.push(message), others.push(other), content_counts),
{
    let more = messages.push(message);
    let more_other = others.push(other);
    assert forall|i: int|
        #![trigger more[i]]
        #![trigger more_other[i]]
        0 <= i < more.len() implies alike(more[i], more_other[i], content_counts) by {
        if i < messages.len() {
            assert(alike(messages[i], others[i], content_counts));
        }
    }
}

proof fn lemma_late_systems_front(messages: Seq<MessageModel>, others: Seq<MessageModel>)
    requires
        messages.len() > 0,
        messages.len() == others.len(),
        late_systems_match(messages, others),
    ensures
        late_systems_match(messages.drop_last(), others.drop_last()),
        messages.last() is System && normalize::has_non_system(messages.drop_last()) ==> (
        messages.last()->System_content.len() == 0 <==> others.last()->System_content.len() == 0),
{
    let front = messages.drop_last();
    let front_other = others.drop_last();
    assert forall|i: int|
        #![trigger front[i]]
        #![trigger front_other[i]]
        0 <= i < front.len() && front[i] is System && normalize::has_non_system(
            front.take(i),
        ) implies (front[i]->System_content.len() == 0
        <==> front_other[i]->System_content.len() == 0) by {
        assert(front[i] == messages[i] && front_other[i] == others[i]);
        assert(front.take(i) =~= messages.take(i));
    }
    let last = messages.len() - 1;
    assert(messages.take(last) =~= front);
    assert(messages[last] == messages.last() && others[last] == others.last());
}

proof fn lemma_merged_alike(
    messages: Seq<MessageModel>,
    others: Seq<MessageModel>,
    mid_conversation_system: bool,
    content_counts: bool,
)
    requires
        all_alike(messages, others, content_counts),
        mid_conversation_system || late_systems_match(messages, others),
    ensures
        all_alike(
            normalize::merged_messages(messages, mid_conversation_system),
            normalize::merged_messages(others, mid_conversation_system),
            content_counts,
        ),
    decreases messages.len(),
{
    if messages.len() > 0 {
        lemma_alike_front(messages, others, content_counts);
        if !mid_conversation_system {
            lemma_late_systems_front(messages, others);
        }
        lemma_merged_alike(
            messages.drop_last(),
            others.drop_last(),
            mid_conversation_system,
            content_counts,
        );
        lemma_same_non_system(messages.drop_last(), others.drop_last(), content_counts);
        let started = normalize::has_non_system(messages.drop_last());
        let merged = normalize::merged_messages(messages.drop_last(), mid_conversation_system);
        let merged_other = normalize::merged_messages(
            others.drop_last(),
            mid_conversation_system,
        );
        let message = messages.last();
        let other = others.last();
        if merged.len() > 0 {
            lemma_alike_front(merged, merged_other, content_counts);
        }
        let next = normalize::add_message(merged, message, started, mid_conversation_system);
        let next_other = normalize::add_message(
            merged_other,
            other,
            started,
            mid_conversation_system,
        );
        if next.len() > merged.len() {
            assert(next =~= next.drop_last().push(next.last()));
            assert(next.drop_last() =~= merged);
            assert(next_other =~= next_other.drop_last().push(next_other.last()));
            assert(next_other.drop_last() =~= merged_other);
            lemma_alike_push(
                merged,
                merged_other,
                next.last(),
                next_other.last(),
                content_counts,
            );
        } else if next.len() > 0 && next != merged {
            assert(next.drop_last() =~= merged.drop_last());
            assert(next_other.drop_last() =~= merged_other.drop_last());
            assert(next =~= next.drop_last().push(next.last()));
            assert(next_other =~= next_other.drop_last().push(next_other.last()));
            lemma_alike_push(
                merged.drop_last(),
                merged_other.drop_last(),
                next.last(),
                next_other.last(),
                content_counts,
            );
        }
    }
}

proof fn lemma_insert_alike(
    results: Seq<MessageModel>,
    others: Seq<MessageModel>,
    message: MessageModel,
    other: MessageModel,
    order: Seq<Seq<char>>,
    content_counts: bool,
)
    requires
        all_alike(results, others, content_counts),
        alike(message, other, content_counts),
    ensures
        all_alike(
            tool_order::insert_by_place(results, message, order),
            tool_order::insert_by_place(others, other, order),
            content_counts,
        ),
    decreases results.len(),
{
    lemma_alike_push(results, others, message, other, content_counts);
    if results.len() > 0 {
        lemma_alike_front(results, others, content_counts);
        lemma_insert_alike(
            results.drop_last(),
            others.drop_last(),
            message,
            other,
            order,
            content_counts,
        );
        lemma_alike_push(
            tool_order::insert_by_place(results.drop_last(), message, order),
            tool_order::insert_by_place(others.drop_last(), other, order),
            results.last(),
            others.last(),
            content_counts,
        );
    }
}

proof fn lemma_sort_alike(
    results: Seq<MessageModel>,
    others: Seq<MessageModel>,
    order: Seq<Seq<char>>,
    content_counts: bool,
)
    requires
        all_alike(results, others, content_counts),
    ensures
        all_alike(
            tool_order::sort_by_place(results, order),
            tool_order::sort_by_place(others, order),
            content_counts,
        ),
    decreases results.len(),
{
    if results.len() > 0 {
        lemma_alike_front(results, others, content_counts);
        lemma_sort_alike(results.drop_last(), others.drop_last(), order, content_counts);
        lemma_insert_alike(
            tool_order::sort_by_place(results.drop_last(), order),
            tool_order::sort_by_place(others.drop_last(), order),
            results.last(),
            others.last(),
            order,
            content_counts,
        );
    }
}

proof fn lemma_same_run_start(
    messages: Seq<MessageModel>,
    others: Seq<MessageModel>,
    at: int,
    content_counts: bool,
)
    requires
        0 <= at <= messages.len(),
        all_alike(messages, others, content_counts),
    ensures
        tool_order::run_start(messages, at) == tool_order::run_start(others, at),
        0 <= tool_order::run_start(messages, at) <= at,
    decreases at,
{
    if at > 0 {
        assert(alike(messages[at - 1], others[at - 1], content_counts));
        lemma_same_run_start(messages, others, at - 1, content_counts);
    }
}

proof fn lemma_same_run_end(
    messages: Seq<MessageModel>,
    others: Seq<MessageModel>,
    at: int,
    content_counts: bool,
)
    requires
        0 <= at <= messages.len(),
        all_alike(messages, others, content_counts),
    ensures
        tool_order::run_end(messages, at) == tool_order::run_end(others, at),
        at <= tool_order::run_end(messages, at) <= messages.len(),
        at < messages.len() && tool_order::is_user_side(messages[at]) ==> at < tool_order::run_end(
            messages,
            at,
        ),
    decreases messages.len() - at,
{
    if at < messages.len() {
        assert(alike(messages[at], others[at], content_counts));
        lemma_same_run_end(messages, others, at + 1, content_counts);
    }
}

proof fn lemma_same_ids(message: MessageModel, other: MessageModel, content_counts: bool)
    requires
        alike(message, other, content_counts),
    ensures
        tool_order::ids_called(message) == tool_order::ids_called(other),
{
    if let (
        MessageModel::Assistant { tool_calls: i, .. },
        MessageModel::Assistant { tool_calls: j, .. },
    ) = (message, other) {
        let calls = calls_made(i);
        let others = calls_made(j);
        if calls.len() > 0 {
            assert forall|k: int| 0 <= k < calls.len() implies (#[trigger] calls[k]).id
                == others[k].id by {
                assert(call_alike(calls[k], others[k]));
            }
            assert(tool_order::call_ids(calls) =~= tool_order::call_ids(others));
        }
    }
}

proof fn lemma_same_last_ids(
    messages: Seq<MessageModel>,
    others: Seq<MessageModel>,
    end: int,
    content_counts: bool,
)
    requires
        0 <= end <= messages.len(),
        all_alike(messages, others, content_counts),
    ensures
        tool_order::last_ids_called(messages, end) == tool_order::last_ids_called(others, end),
    decreases end,
{
    if end > 0 {
        assert(alike(messages[end - 1], others[end - 1], content_counts));
        lemma_same_ids(messages[end - 1], others[end - 1], content_counts);
        lemma_same_last_ids(messages, others, end - 1, content_counts);
    }
}

proof fn lemma_same_indices(
    messages: Seq<MessageModel>,
    others: Seq<MessageModel>,
    start: int,
    end: int,
    content_counts: bool,
)
    requires
        0 <= start,
        end <= messages.len(),
        all_alike(messages, others, content_counts),
    ensures
        tool_order::result_indices(messages, start, end) == tool_order::result_indices(
            others,
            start,
            end,
        ),
    decreases end - start,
{
    if end > start {
        assert(alike(messages[end - 1], others[end - 1], content_counts));
        lemma_same_indices(messages, others, start, end - 1, content_counts);
    }
}

proof fn lemma_ordered_alike(
    messages: Seq<MessageModel>,
    others: Seq<MessageModel>,
    content_counts: bool,
)
    requires
        all_alike(messages, others, content_counts),
    ensures
        all_alike(
            tool_order::results_in_call_order(messages),
            tool_order::results_in_call_order(others),
            content_counts,
        ),
{
    let ordered = tool_order::results_in_call_order(messages);
    let ordered_other = tool_order::results_in_call_order(others);
    assert forall|at: int|
        #![trigger ordered[at]]
        #![trigger ordered_other[at]]
        0 <= at < ordered.len() implies alike(ordered[at], ordered_other[at], content_counts) by {
        assert(alike(messages[at], others[at], content_counts));
        if messages[at] is Tool {
            let start = tool_order::run_start(messages, at);
            let end = tool_order::run_end(messages, at);
            lemma_same_run_start(messages, others, at, content_counts);
            lemma_same_run_end(messages, others, at, content_counts);
            lemma_same_last_ids(messages, others, start, content_counts);
            lemma_same_indices(messages, others, start, end, content_counts);
            tool_order::lemma_result_indices(messages, start, end);
            let indices = tool_order::result_indices(messages, start, end);
            let picked = tool_order::messages_at(messages, indices);
            let picked_other = tool_order::messages_at(others, indices);
            let order = tool_order::last_ids_called(messages, start);
            assert forall|k: int|
                #![trigger picked[k]]
                #![trigger picked_other[k]]
                0 <= k < picked.len() implies alike(
                picked[k],
                picked_other[k],
                content_counts,
            ) by {
                assert(alike(messages[indices[k]], others[indices[k]], content_counts));
            }
            lemma_sort_alike(picked, picked_other, order, content_counts);
            tool_order::lemma_sort_len(picked, order);
            assert(indices.contains(at));
            let k = indices.index_of(at);
            let sorted = tool_order::sort_by_place(picked, order);
            let sorted_other = tool_order::sort_by_place(picked_other, order);
            assert(alike(sorted[k], sorted_other[k], content_counts));
        }
    }
}

proof fn lemma_rendered_alike(
    markup: Markup,
    conversation: ConversationModel,
    messages: Seq<MessageModel>,
    json: spec_fn(Value) -> Seq<char>,
    content_counts: bool,
)
    requires
        all_alike(conversation.messages, messages, content_counts),
        markup.mid_conversation_system || late_systems_match(conversation.messages, messages),
    ensures
        all_alike(
            render::rendered_messages(markup, conversation, json),
            render::rendered_messages(
                markup,
                ConversationModel { messages, ..conversation },
                json,
            ),
            content_counts,
        ),
{
    let mid_system = markup.mid_conversation_system;
    lemma_merged_alike(conversation.messages, messages, mid_system, content_counts);
    lemma_ordered_alike(
        normalize::merged_messages(conversation.messages, mid_system),
        normalize::merged_messages(messages, mid_system),
        content_counts,
    );
    let normal = normalize::normalized_messages(conversation.messages, mid_system);
    let normal_other = normalize::normalized_messages(messages, mid_system);
    let instructions = render::instructions(markup, conversation, json);
    let instructed = render::with_instructions(normal, instructions);
    let instructed_other = render::with_instructions(normal_other, instructions);
    if normal.len() > 0 {
        assert(alike(normal[0], normal_other[0], content_counts));
    }
    assert forall|i: int|
        #![trigger instructed[i]]
        #![trigger instructed_other[i]]
        0 <= i < instructed.len() implies alike(
        instructed[i],
        instructed_other[i],
        content_counts,
    ) by {
        if normal.len() > 0 && normal[0] is System {
            assert(alike(normal[i], normal_other[i], content_counts));
        } else if i > 0 {
            assert(alike(normal[i - 1], normal_other[i - 1], content_counts));
        }
    }
}

/// Dropping parts without text and keeping template parts can trade places.
proof fn lemma_templates_filled(parts: Seq<SegmentModel>)
    ensures
        templates(render::filled(parts)) == render::filled(templates(parts)),
    decreases parts.len(),
{
    reveal(Seq::filter);
    if parts.len() > 0 {
        let front = parts.drop_last();
        let last = parts.last();
        lemma_templates_filled(front);
        assert(front.push(last) =~= parts);
        front.lemma_filter_push(last, is_template());
        front.lemma_filter_push(last, render::is_filled());
        templates(front).lemma_filter_push(last, render::is_filled());
        render::filled(front).lemma_filter_push(last, is_template());
    }
}

proof fn lemma_templates_one(part: SegmentModel)
    ensures
        templates(seq![part]) == (if part.0 {
            seq![part]
        } else {
            seq![]
        }),
{
    reveal(Seq::filter);
    let none = Seq::<SegmentModel>::empty();
    none.lemma_filter_push(part, is_template());
    assert(none.push(part) =~= seq![part]);
    assert(none.filter(is_template()) =~= none);
}

/// The template parts of parts that are put together.
proof fn lemma_templates_add(a: Seq<SegmentModel>, b: Seq<SegmentModel>)
    ensures
        templates(a + b) == templates(a) + templates(b),
{
    Seq::filter_distributes_over_add(a, b, is_template());
}

proof fn lemma_templates_two(first: SegmentModel, second: SegmentModel)
    ensures
        templates(seq![first, second]) == templates(seq![first]) + templates(seq![second]),
{
    lemma_templates_add(seq![first], seq![second]);
    assert(seq![first] + seq![second] =~= seq![first, second]);
}

proof fn lemma_templates_flatten(a: Seq<Seq<SegmentModel>>, b: Seq<Seq<SegmentModel>>)
    requires
        a.len() == b.len(),
        forall|i: int| 0 <= i < a.len() ==> templates(#[trigger] a[i]) == templates(b[i]),
    ensures
        templates(a.flatten()) == templates(b.flatten()),
    decreases a.len(),
{
    if a.len() > 0 {
        let rest = a.drop_first();
        let rest_other = b.drop_first();
        assert forall|i: int| 0 <= i < rest.len() implies templates(#[trigger] rest[i])
            == templates(rest_other[i]) by {
            assert(templates(a[i + 1]) == templates(b[i + 1]));
        }
        lemma_templates_flatten(rest, rest_other);
        assert(templates(a[0]) == templates(b[0]));
        lemma_templates_add(a.first(), rest.flatten());
        lemma_templates_add(b.first(), rest_other.flatten());
    }
}

proof fn lemma_body_templates(
    markup: Markup,
    messages: Seq<MessageModel>,
    others: Seq<MessageModel>,
    index: int,
    thinking_mode: bool,
    json: spec_fn(Value) -> Seq<char>,
)
    requires
        0 <= index < messages.len(),
        all_alike(messages, others, false),
    ensures
        templates(render::body_parts(markup, messages, index, thinking_mode, json)) == templates(
            render::body_parts(markup, others, index, thinking_mode, json),
        ),
{
    let parts = render::body_parts(markup, messages, index, thinking_mode, json);
    let parts_other = render::body_parts(markup, others, index, thinking_mode, json);
    assert(alike(messages[index], others[index], false));
    if index > 0 {
        assert(alike(messages[index - 1], others[index - 1], false));
    }
    match (messages[index], others[index]) {
        (
            MessageModel::Assistant { content: x, reasoning_content: r, tool_calls: i },
            MessageModel::Assistant { content: y, reasoning_content: s, tool_calls: j },
        ) => {
            lemma_tool_calls_match(markup, i, j, json);
            lemma_assistant_templates(
                x,
                y,
                r,
                s,
                tool_segments::tool_calls_parts(markup, i, json),
                tool_segments::tool_calls_parts(markup, j, json),
                thinking_mode && index > 0,
            );
        },
        _ => {
            lemma_short_templates(parts, parts_other);
        },
    }
}

/// Template parts agree where one or two parts agree but for content.
proof fn lemma_short_templates(parts: Seq<SegmentModel>, others: Seq<SegmentModel>)
    requires
        1 <= parts.len() <= 2,
        parts.len() == others.len(),
        forall|i: int| 0 <= i < parts.len() ==> (#[trigger] parts[i]).0 == others[i].0,
        forall|i: int| 0 <= i < parts.len() && (#[trigger] parts[i]).0 ==> parts[i] == others[i],
    ensures
        templates(parts) == templates(others),
{
    lemma_templates_one(parts[0]);
    lemma_templates_one(others[0]);
    if parts.len() == 2 {
        lemma_templates_one(parts[1]);
        lemma_templates_one(others[1]);
        lemma_templates_two(parts[0], parts[1]);
        lemma_templates_two(others[0], others[1]);
        assert(parts =~= seq![parts[0], parts[1]]);
        assert(others =~= seq![others[0], others[1]]);
    } else {
        assert(parts =~= seq![parts[0]]);
        assert(others =~= seq![others[0]]);
    }
}

/// Parts of the same kinds, the template parts with the same texts.
spec fn parts_match(parts: Seq<SegmentModel>, others: Seq<SegmentModel>) -> bool {
    &&& parts.len() == others.len()
    &&& forall|i: int|
        #![trigger parts[i]]
        #![trigger others[i]]
        0 <= i < parts.len() ==> parts[i].0 == others[i].0 && (parts[i].0 ==> parts[i]
            == others[i])
}

proof fn lemma_match_add(
    a: Seq<SegmentModel>,
    b: Seq<SegmentModel>,
    x: Seq<SegmentModel>,
    y: Seq<SegmentModel>,
)
    requires
        parts_match(a, x),
        parts_match(b, y),
    ensures
        parts_match(a + b, x + y),
{
    let parts = a + b;
    let others = x + y;
    assert forall|i: int|
        #![trigger parts[i]]
        #![trigger others[i]]
        0 <= i < parts.len() implies parts[i].0 == others[i].0 && (parts[i].0 ==> parts[i]
        == others[i]) by {
        if i < a.len() {
            assert(a[i].0 == x[i].0);
        } else {
            assert(b[i - a.len()].0 == y[i - a.len()].0);
        }
    }
}

proof fn lemma_match_gathered(parts: Seq<SegmentModel>, others: Seq<SegmentModel>)
    requires
        parts_match(parts, others),
    ensures
        parts_match(tool_segments::gathered(parts), tool_segments::gathered(others)),
    decreases parts.len(),
{
    if parts.len() > 0 {
        let front = parts.drop_last();
        let front_other = others.drop_last();
        assert forall|i: int|
            #![trigger front[i]]
            #![trigger front_other[i]]
            0 <= i < front.len() implies front[i].0 == front_other[i].0 && (front[i].0
            ==> front[i] == front_other[i]) by {
            assert(parts[i].0 == others[i].0);
        }
        lemma_match_gathered(front, front_other);
        let last = parts.len() - 1;
        assert(parts[last].0 == others[last].0);
        let before = tool_segments::gathered(front);
        let before_other = tool_segments::gathered(front_other);
        if before.len() > 0 {
            let end = before.len() - 1;
            assert(before[end].0 == before_other[end].0);
        }
        let after = tool_segments::add_part(before, parts.last());
        let after_other = tool_segments::add_part(before_other, others.last());
        assert forall|i: int|
            #![trigger after[i]]
            #![trigger after_other[i]]
            0 <= i < after.len() implies after[i].0 == after_other[i].0 && (after[i].0
            ==> after[i] == after_other[i]) by {
            if i < before.len() {
                assert(before[i].0 == before_other[i].0);
            }
        }
    }
}

proof fn lemma_match_joined(
    pieces: Seq<Seq<SegmentModel>>,
    others: Seq<Seq<SegmentModel>>,
    separator: Seq<char>,
)
    requires
        pieces.len() == others.len(),
        forall|i: int| 0 <= i < pieces.len() ==> parts_match(#[trigger] pieces[i], others[i]),
    ensures
        parts_match(
            tool_segments::joined_parts(pieces, separator),
            tool_segments::joined_parts(others, separator),
        ),
    decreases pieces.len(),
{
    if pieces.len() > 0 {
        let rest = pieces.drop_last();
        let rest_other = others.drop_last();
        assert forall|i: int| 0 <= i < rest.len() implies parts_match(
            #[trigger] rest[i],
            rest_other[i],
        ) by {
            assert(parts_match(pieces[i], others[i]));
        }
        lemma_match_joined(rest, rest_other, separator);
        let front = tool_segments::joined_parts(rest, separator);
        let front_other = tool_segments::joined_parts(rest_other, separator);
        assert(parts_match(pieces[pieces.len() - 1], others[pieces.len() - 1]));
        lemma_match_add(front, pieces.last(), front_other, others.last());
        let between = seq![(true, separator)];
        lemma_match_add(front, between, front_other, between);
        assert(front + between =~= front.push((true, separator)));
        assert(front_other + between =~= front_other.push((true, separator)));
        lemma_match_add(
            front.push((true, separator)),
            pieces.last(),
            front_other.push((true, separator)),
            others.last(),
        );
    }
}

proof fn lemma_arguments_match(
    arguments: Seq<char>,
    others: Seq<char>,
    tag_name: Seq<char>,
    json: spec_fn(Value) -> Seq<char>,
)
    requires
        string_flags(arguments) == string_flags(others),
    ensures
        parts_match(
            tool_segments::arguments_parts(arguments, tag_name, json),
            tool_segments::arguments_parts(others, tag_name, json),
        ),
{
    let pieces = lemma_argument_pieces(arguments, tag_name, json);
    let pieces_other = lemma_argument_pieces(others, tag_name, json);
    assert forall|i: int| 0 <= i < pieces.len() implies parts_match(
        #[trigger] pieces[i],
        pieces_other[i],
    ) by {
        assert(string_flags(arguments)[i] == string_flags(others)[i]);
        assert(is_parameter(pieces[i], tag_name, string_flags(arguments)[i]));
        assert(is_parameter(pieces_other[i], tag_name, string_flags(others)[i]));
    }
    lemma_match_joined(pieces, pieces_other, "\n"@);
}

/// The parts of a parameter of a tool call that is a string or not.
spec fn is_parameter(parts: Seq<SegmentModel>, tag_name: Seq<char>, is_string: bool) -> bool {
    exists|key: Seq<char>, value: Seq<char>|
        parts == #[trigger] tool_segments::parameter_parts(
            tag_name,
            key,
            string_mark(is_string),
            value,
        )
}

spec fn string_mark(is_string: bool) -> Seq<char> {
    if is_string {
        "true"@
    } else {
        "false"@
    }
}

/// The arguments of a tool call, one by one.
proof fn lemma_argument_pieces(
    arguments: Seq<char>,
    tag_name: Seq<char>,
    json: spec_fn(Value) -> Seq<char>,
) -> (pieces: Seq<Seq<SegmentModel>>)
    ensures
        tool_segments::arguments_parts(arguments, tag_name, json) == tool_segments::joined_parts(
            pieces,
            "\n"@,
        ),
        pieces.len() == string_flags(arguments).len(),
        forall|i: int|
            0 <= i < pieces.len() ==> is_parameter(
                #[trigger] pieces[i],
                tag_name,
                string_flags(arguments)[i],
            ),
{
    match json::parsed_object(arguments) {
        Some(entries) => {
            let pieces = entries.map_values(
                |entry: (Seq<char>, Value)| tool_segments::argument_parts(entry, tag_name, json),
            );
            assert forall|i: int| 0 <= i < pieces.len() implies is_parameter(
                #[trigger] pieces[i],
                tag_name,
                string_flags(arguments)[i],
            ) by {
                match json::string_content(entries[i].1) {
                    Some(text) => {
                        assert(pieces[i] == tool_segments::parameter_parts(
                            tag_name,
                            entries[i].0,
                            string_mark(true),
                            text,
                        ));
                    },
                    None => {
                        assert(pieces[i] == tool_segments::parameter_parts(
                            tag_name,
                            entries[i].0,
                            string_mark(false),
                            json(entries[i].1),
                        ));
                    },
                }
            }
            pieces
        },
        None => {
            let only = tool_segments::parameter_parts(
                tag_name,
                "arguments"@,
                string_mark(true),
                arguments,
            );
            let pieces = seq![only];
            assert(pieces.drop_last() =~= Seq::empty());
            assert(tool_segments::joined_parts(pieces.drop_last(), "\n"@) =~= Seq::empty());
            assert(tool_segments::joined_parts(pieces, "\n"@) =~= only);
            pieces
        },
    }
}

proof fn lemma_call_match(
    markup: Markup,
    call: ToolCallModel,
    other: ToolCallModel,
    json: spec_fn(Value) -> Seq<char>,
)
    requires
        call_alike(call, other),
    ensures
        parts_match(
            tool_segments::call_parts(markup, call, json),
            tool_segments::call_parts(markup, other, json),
        ),
{
    let tag_name = markup.tool_parameter_tag_name;
    let opening = tool_segments::call_opening(markup, call.name);
    let opening_other = tool_segments::call_opening(markup, other.name);
    let arguments = tool_segments::arguments_parts(call.arguments, tag_name, json);
    let arguments_other = tool_segments::arguments_parts(other.arguments, tag_name, json);
    let closing = tool_segments::call_closing(markup);
    lemma_arguments_match(call.arguments, other.arguments, tag_name, json);
    lemma_match_add(opening, arguments, opening_other, arguments_other);
    lemma_match_add(opening + arguments, closing, opening_other + arguments_other, closing);
}

/// Tool calls that are alike have the same template parts.
proof fn lemma_tool_calls_match(
    markup: Markup,
    tool_calls: Option<Seq<ToolCallModel>>,
    others: Option<Seq<ToolCallModel>>,
    json: spec_fn(Value) -> Seq<char>,
)
    requires
        calls_alike(calls_made(tool_calls), calls_made(others)),
    ensures
        templates(tool_segments::tool_calls_parts(markup, tool_calls, json)) == templates(
            tool_segments::tool_calls_parts(markup, others, json),
        ),
{
    let calls = calls_made(tool_calls);
    let calls_other = calls_made(others);
    if calls.len() > 0 {
        let pieces = calls.map_values(
            |call: ToolCallModel| tool_segments::call_parts(markup, call, json),
        );
        let pieces_other = calls_other.map_values(
            |call: ToolCallModel| tool_segments::call_parts(markup, call, json),
        );
        assert forall|i: int| 0 <= i < pieces.len() implies parts_match(
            #[trigger] pieces[i],
            pieces_other[i],
        ) by {
            assert(call_alike(calls[i], calls_other[i]));
            lemma_call_match(markup, calls[i], calls_other[i], json);
        }
        lemma_match_joined(pieces, pieces_other, "\n"@);
        let opening = tool_segments::block_opening(markup);
        let closing = tool_segments::block_closing(markup);
        let parts = tool_segments::calls_parts(markup, calls, json);
        let parts_other = tool_segments::calls_parts(markup, calls_other, json);
        lemma_match_add(opening, parts, opening, parts_other);
        lemma_match_add(opening + parts, closing, opening + parts_other, closing);
        lemma_match_gathered(opening + parts + closing, opening + parts_other + closing);
        lemma_match_templates(
            tool_segments::tool_calls_parts(markup, tool_calls, json),
            tool_segments::tool_calls_parts(markup, others, json),
        );
    }
}

proof fn lemma_match_templates(parts: Seq<SegmentModel>, others: Seq<SegmentModel>)
    requires
        parts_match(parts, others),
    ensures
        templates(parts) == templates(others),
    decreases parts.len(),
{
    if parts.len() > 0 {
        let front = parts.drop_last();
        let front_other = others.drop_last();
        assert forall|i: int|
            #![trigger front[i]]
            #![trigger front_other[i]]
            0 <= i < front.len() implies front[i].0 == front_other[i].0 && (front[i].0
            ==> front[i] == front_other[i]) by {
            assert(parts[i].0 == others[i].0);
        }
        lemma_match_templates(front, front_other);
        let last = parts.len() - 1;
        assert(parts[last].0 == others[last].0);
        front.lemma_filter_push(parts.last(), is_template());
        front_other.lemma_filter_push(others.last(), is_template());
        assert(front.push(parts.last()) =~= parts);
        assert(front_other.push(others.last()) =~= others);
    } else {
        assert(parts =~= others);
    }
}

/// The parts of an assistant message with these parts of tool calls.
spec fn assistant_parts(
    content: Seq<char>,
    reasoning_content: Option<Seq<char>>,
    calls: Seq<SegmentModel>,
    shown: bool,
) -> Seq<SegmentModel> {
    seq![(true, crate::v4::ASSISTANT_SP_TOKEN@)] + render::reasoning_parts(
        reasoning_content,
        shown,
    ) + seq![(false, content)] + calls + seq![(true, crate::v4::EOS_TOKEN@)]
}

proof fn lemma_assistant_templates(
    content: Seq<char>,
    other_content: Seq<char>,
    reasoning_content: Option<Seq<char>>,
    other_reasoning: Option<Seq<char>>,
    calls: Seq<SegmentModel>,
    other_calls: Seq<SegmentModel>,
    shown: bool,
)
    requires
        templates(calls) == templates(other_calls),
    ensures
        templates(assistant_parts(content, reasoning_content, calls, shown)) == templates(
            assistant_parts(other_content, other_reasoning, other_calls, shown),
        ),
{
    let head = seq![(true, crate::v4::ASSISTANT_SP_TOKEN@)];
    let end = seq![(true, crate::v4::EOS_TOKEN@)];
    let said = seq![(false, content)];
    let other_said = seq![(false, other_content)];
    let reasoning = render::reasoning_parts(reasoning_content, shown);
    let reasoning_other = render::reasoning_parts(other_reasoning, shown);
    lemma_reasoning_templates(reasoning_content, shown);
    lemma_reasoning_templates(other_reasoning, shown);
    lemma_templates_one((false, content));
    lemma_templates_one((false, other_content));
    lemma_templates_add(head + reasoning + said + calls, end);
    lemma_templates_add(head + reasoning + said, calls);
    lemma_templates_add(head + reasoning, said);
    lemma_templates_add(head, reasoning);
    lemma_templates_add(head + reasoning_other + other_said + other_calls, end);
    lemma_templates_add(head + reasoning_other + other_said, other_calls);
    lemma_templates_add(head + reasoning_other, other_said);
    lemma_templates_add(head, reasoning_other);
}

proof fn lemma_reasoning_templates(reasoning_content: Option<Seq<char>>, shown: bool)
    ensures
        templates(render::reasoning_parts(reasoning_content, shown)) == templates(
            render::reasoning_parts(None, shown),
        ),
{
    if shown {
        if let Some(reasoning) = reasoning_content {
            let start = seq![(true, crate::v4::THINKING_START_TOKEN@)];
            let end = seq![(true, crate::v4::THINKING_END_TOKEN@)];
            let none = Seq::<SegmentModel>::empty();
            lemma_templates_one((false, reasoning));
            lemma_templates_add(start + seq![(false, reasoning)], end);
            lemma_templates_add(start, seq![(false, reasoning)]);
            lemma_templates_add(start + none, end);
            assert(start + none =~= start);
            assert(templates(start) + none =~= templates(start));
        }
    }
}

proof fn lemma_message_templates(
    markup: Markup,
    messages: Seq<MessageModel>,
    others: Seq<MessageModel>,
    index: int,
    thinking_mode: bool,
    reasoning_effort: Option<ReasoningEffort>,
    json: spec_fn(Value) -> Seq<char>,
)
    requires
        0 <= index < messages.len(),
        all_alike(messages, others, false),
    ensures
        templates(
            render::message_segments(
                markup,
                messages,
                index,
                thinking_mode,
                reasoning_effort,
                json,
            ),
        ) == templates(
            render::message_segments(
                markup,
                others,
                index,
                thinking_mode,
                reasoning_effort,
                json,
            ),
        ),
{
    let prompt = (markup.reasoning_prompt)(index, thinking_mode, reasoning_effort);
    let effort = render::effort_parts(markup, messages, index, prompt);
    let body = render::body_parts(markup, messages, index, thinking_mode, json);
    let body_other = render::body_parts(markup, others, index, thinking_mode, json);
    assert(alike(messages[index], others[index], false));
    assert(effort == render::effort_parts(markup, others, index, prompt));
    lemma_body_templates(markup, messages, others, index, thinking_mode, json);
    lemma_templates_add(effort, body);
    lemma_templates_add(effort, body_other);
    lemma_templates_filled(effort + body);
    lemma_templates_filled(effort + body_other);
}

} // verus!
