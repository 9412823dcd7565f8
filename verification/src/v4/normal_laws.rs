//! What the normal form of messages keeps and achieves.

use crate::conversation::{ConversationModel, MessageModel, ToolCallModel};
use crate::v4::normalize;
use crate::v4::order_laws;
use crate::v4::render;
use crate::v4::tool_order;
use crate::v4::Markup;
use serde_json::Value;
use vstd::multiset::Multiset;
use vstd::prelude::*;

verus! {

/// The messages before `at`, put together, end with a user message.
pub open spec fn follows_user(messages: Seq<MessageModel>, at: int) -> bool {
    let merged = normalize::merged_messages(messages.take(at), false);
    merged.len() > 0 && merged.last() is User
}

/// No system message that would become a user message comes right after one.
pub open spec fn no_system_after_user(messages: Seq<MessageModel>) -> bool {
    forall|i: int|
        0 <= i < messages.len() && #[trigger] messages[i] is System
            && messages[i]->System_content.len() > 0 && normalize::has_non_system(messages.take(i))
            ==> !follows_user(messages, i)
}

/// No two user messages stand next to each other.
pub open spec fn no_adjacent_users(messages: Seq<MessageModel>) -> bool {
    forall|i: int, j: int|
        0 <= i && j == i + 1 && j < messages.len() && #[trigger] messages[i] is User
            ==> !(#[trigger] messages[j] is User)
}

/// Only the first message can be a system message.
pub open spec fn system_first_only(messages: Seq<MessageModel>) -> bool {
    forall|i: int| 0 < i < messages.len() ==> !(#[trigger] messages[i] is System)
}

/// No tool result has images.
pub open spec fn results_without_images(messages: Seq<MessageModel>) -> bool {
    forall|i: int|
        0 <= i < messages.len() && #[trigger] messages[i] is Tool
            ==> messages[i]->Tool_image_sources.len() == 0
}

/// The image sources that a message brings.
pub open spec fn sources(message: MessageModel) -> Seq<Seq<char>> {
    match message {
        MessageModel::User { image_sources, .. } => image_sources,
        MessageModel::Tool { image_sources, .. } => image_sources,
        MessageModel::System { .. } => Seq::empty(),
        MessageModel::LatestReminder { .. } => Seq::empty(),
        MessageModel::Assistant { .. } => Seq::empty(),
    }
}

/// The image sources that messages bring, each as often as they bring it.
pub open spec fn sources_counted(messages: Seq<MessageModel>) -> Multiset<Seq<char>>
    decreases messages.len(),
{
    if messages.len() == 0 {
        Multiset::empty()
    } else {
        sources_counted(messages.drop_last()).add(sources(messages.last()).to_multiset())
    }
}

/// Without system messages in mid-conversation, the normal form has at most one
/// system message, and that one at the front.
pub proof fn law_system_first_only(messages: Seq<MessageModel>)
    ensures
        system_first_only(normalize::normalized_messages(messages, false)),
{
    let merged = normalize::merged_messages(messages, false);
    lemma_merged_systems(messages);
    order_laws::law_order_moves_results_only(merged);
    let normal = normalize::normalized_messages(messages, false);
    assert forall|i: int| 0 < i < normal.len() implies !(#[trigger] normal[i] is System) by {
        assert(merged[i] is Tool <==> normal[i] is Tool);
    }
}

/// The normal form has no two user messages next to each other, unless a system
/// message after a user message had to become one.
pub proof fn law_no_adjacent_users(messages: Seq<MessageModel>, mid_conversation_system: bool)
    requires
        mid_conversation_system || no_system_after_user(messages),
    ensures
        no_adjacent_users(normalize::normalized_messages(messages, mid_conversation_system)),
{
    let merged = normalize::merged_messages(messages, mid_conversation_system);
    let normal = normalize::normalized_messages(messages, mid_conversation_system);
    lemma_merged_no_adjacent_users(messages, mid_conversation_system);
    order_laws::law_order_moves_results_only(merged);
    assert forall|i: int, j: int|
        0 <= i && j == i + 1 && j < normal.len() && #[trigger] normal[i] is User implies !(
    #[trigger] normal[j] is User) by {
        assert(merged[i] is Tool <==> normal[i] is Tool);
        assert(merged[j] is Tool <==> normal[j] is Tool);
    }
}

/// Messages in normal form stay as they are, unless a system message after a
/// user message had to become one.
pub proof fn law_normal_form_is_fixed(messages: Seq<MessageModel>, mid_conversation_system: bool)
    requires
        mid_conversation_system || no_system_after_user(messages),
    ensures
        ({
            let normal = normalize::normalized_messages(messages, mid_conversation_system);
            normalize::normalized_messages(normal, mid_conversation_system) == normal
        }),
{
    let normal = normalize::normalized_messages(messages, mid_conversation_system);
    law_no_adjacent_users(messages, mid_conversation_system);
    if !mid_conversation_system {
        law_system_first_only(messages);
    }
    lemma_merge_of_merged(normal, mid_conversation_system);
    order_laws::law_order_is_idempotent(
        normalize::merged_messages(messages, mid_conversation_system),
    );
}

/// User messages in a row become one: the second goes on as a paragraph of its
/// own, its images behind those of the first.
pub proof fn law_users_in_a_row(
    before: Seq<MessageModel>,
    content: Seq<char>,
    image_sources: Seq<Seq<char>>,
    next_content: Seq<char>,
    next_sources: Seq<Seq<char>>,
    behind: Seq<MessageModel>,
    mid_conversation_system: bool,
)
    ensures
        normalize::normalized_messages(
            before + seq![
                MessageModel::User { content, image_sources },
                MessageModel::User { content: next_content, image_sources: next_sources },
            ] + behind,
            mid_conversation_system,
        ) == normalize::normalized_messages(
            before + seq![
                MessageModel::User {
                    content: content + "\n\n"@ + next_content,
                    image_sources: image_sources + next_sources,
                },
            ] + behind,
            mid_conversation_system,
        ),
{
    let user = MessageModel::User { content, image_sources };
    let next = MessageModel::User { content: next_content, image_sources: next_sources };
    let both = MessageModel::User {
        content: content + "\n\n"@ + next_content,
        image_sources: image_sources + next_sources,
    };
    let merged = normalize::merged_messages(before, mid_conversation_system);
    lemma_merged_push(before, user, mid_conversation_system);
    lemma_merged_push(before.push(user), next, mid_conversation_system);
    lemma_merged_push(before, both, mid_conversation_system);
    assert(before + seq![user, next] =~= before.push(user).push(next));
    assert(before + seq![both] =~= before.push(both));
    if merged.len() > 0 && merged.last() is User {
        let head = merged.last()->User_content;
        let sources = merged.last()->User_image_sources;
        assert(head + "\n\n"@ + content + "\n\n"@ + next_content =~= head + "\n\n"@ + (content
            + "\n\n"@ + next_content));
        assert(sources + image_sources + next_sources =~= sources + (image_sources
            + next_sources));
    }
    assert(normalize::merged_messages(before + seq![user, next], mid_conversation_system)
        =~= normalize::merged_messages(before + seq![both], mid_conversation_system));
    assert((before + seq![user, next])[before.len() as int] is User);
    assert((before + seq![both])[before.len() as int] is User);
    lemma_merged_go_on(
        before + seq![user, next],
        before + seq![both],
        behind,
        mid_conversation_system,
    );
}

/// Without system messages in mid-conversation, two at the very front become
/// one, of two paragraphs unless one of them is empty.
pub proof fn law_leading_systems(
    content: Seq<char>,
    next_content: Seq<char>,
    behind: Seq<MessageModel>,
)
    ensures
        content.len() > 0 && next_content.len() > 0 ==> normalize::normalized_messages(
            seq![
                MessageModel::System { content },
                MessageModel::System { content: next_content },
            ] + behind,
            false,
        ) == normalize::normalized_messages(
            seq![MessageModel::System { content: content + "\n\n"@ + next_content }] + behind,
            false,
        ),
        content.len() == 0 || next_content.len() == 0 ==> normalize::normalized_messages(
            seq![
                MessageModel::System { content },
                MessageModel::System { content: next_content },
            ] + behind,
            false,
        ) == normalize::normalized_messages(
            seq![MessageModel::System { content: content + next_content }] + behind,
            false,
        ),
{
    let none = Seq::<MessageModel>::empty();
    let head = MessageModel::System { content };
    let next = MessageModel::System { content: next_content };
    let both = MessageModel::System {
        content: if content.len() > 0 && next_content.len() > 0 {
            content + "\n\n"@ + next_content
        } else {
            content + next_content
        },
    };
    lemma_merged_push(none, head, false);
    lemma_merged_push(none.push(head), next, false);
    lemma_merged_push(none, both, false);
    assert(none.push(head).push(next) =~= seq![head, next]);
    assert(none.push(both) =~= seq![both]);
    assert(normalize::merged_messages(seq![head, next], false) =~= normalize::merged_messages(
        seq![both],
        false,
    ));
    assert(!normalize::has_non_system(seq![head, next]));
    assert(!normalize::has_non_system(seq![both]));
    lemma_merged_go_on(seq![head, next], seq![both], behind, false);
}

/// Without system messages in mid-conversation, one that comes late and says
/// nothing leaves no trace.
pub proof fn law_empty_late_system(
    before: Seq<MessageModel>,
    started: int,
    behind: Seq<MessageModel>,
)
    requires
        0 <= started < before.len(),
        !(before[started] is System),
    ensures
        normalize::normalized_messages(
            before + seq![MessageModel::System { content: Seq::empty() }] + behind,
            false,
        ) == normalize::normalized_messages(before + behind, false),
{
    let late = MessageModel::System { content: Seq::empty() };
    lemma_merged_push(before, late, false);
    assert(before + seq![late] =~= before.push(late));
    assert(before.push(late)[started] == before[started]);
    lemma_merged_go_on(before.push(late), before, behind, false);
}

/// Without system messages in mid-conversation, one that comes late and says
/// something becomes a user message without images: it starts a new message,
/// and what follows goes on from there.
pub proof fn law_late_system_becomes_user(
    before: Seq<MessageModel>,
    started: int,
    content: Seq<char>,
    behind: Seq<MessageModel>,
)
    requires
        0 <= started < before.len(),
        !(before[started] is System),
        content.len() > 0,
    ensures
        normalize::normalized_messages(
            before + seq![MessageModel::System { content }] + behind,
            false,
        ) == tool_order::results_in_call_order(
            normalize::normalized_messages(before, false) + normalize::normalized_messages(
                seq![MessageModel::User { content, image_sources: Seq::empty() }] + behind,
                false,
            ),
        ),
{
    let user = MessageModel::User { content, image_sources: Seq::empty() };
    lemma_merged_late_system(before, started, content, behind);
    order_laws::law_order_of_parts(
        normalize::merged_messages(before, false),
        normalize::merged_messages(seq![user] + behind, false),
    );
}

/// Behind a message that is neither of the system nor of the user, a late system
/// message that says something is as good as a user message.
pub proof fn law_late_system_like_user(
    before: Seq<MessageModel>,
    content: Seq<char>,
    behind: Seq<MessageModel>,
)
    requires
        before.len() > 0,
        !(before.last() is System || before.last() is User),
        content.len() > 0,
    ensures
        normalize::normalized_messages(
            before + seq![MessageModel::System { content }] + behind,
            false,
        ) == normalize::normalized_messages(
            before + seq![MessageModel::User { content, image_sources: Seq::empty() }] + behind,
            false,
        ),
{
    let late = MessageModel::System { content };
    let user = MessageModel::User { content, image_sources: Seq::empty() };
    let at = before.len() - 1;
    lemma_merged_push(before, late, false);
    lemma_merged_push(before, user, false);
    lemma_merged_push(before.drop_last(), before.last(), false);
    assert(before.drop_last().push(before.last()) =~= before);
    assert(before + seq![late] =~= before.push(late));
    assert(before + seq![user] =~= before.push(user));
    assert(!(before[at] is System));
    assert(before.push(late)[at] == before[at] && before.push(user)[at] == before[at]);
    lemma_merged_go_on(before.push(late), before.push(user), behind, false);
}

/// Messages of which none is to be put together with another are brought into
/// normal form by putting the tool results in order.
pub proof fn law_nothing_to_put_together(
    messages: Seq<MessageModel>,
    mid_conversation_system: bool,
)
    requires
        mid_conversation_system || system_first_only(messages),
        no_adjacent_users(messages),
    ensures
        normalize::normalized_messages(messages, mid_conversation_system)
            == tool_order::results_in_call_order(messages),
{
    lemma_merge_of_merged(messages, mid_conversation_system);
}

/// Without system messages in mid-conversation, what one says that comes late
/// starts a user message of the normal form. What follows it there is set off by
/// an empty line.
pub proof fn law_late_system_said(messages: Seq<MessageModel>, started: int, at: int)
    requires
        0 <= started < at < messages.len(),
        !(messages[started] is System),
        messages[at] is System,
        messages[at]->System_content.len() > 0,
    ensures
        ({
            let normal = normalize::normalized_messages(messages, false);
            let said = messages[at]->System_content;
            exists|k: int|
                0 <= k < normal.len() && (#[trigger] normal[k] matches MessageModel::User {
                    content,
                    ..
                } && (content == said || (said + "\n\n"@).is_prefix_of(content)))
        }),
{
    let before = messages.take(at);
    let content = messages[at]->System_content;
    let behind = messages.skip(at + 1);
    let user = MessageModel::User { content, image_sources: Seq::empty() };
    let normal = normalize::normalized_messages(messages, false);
    let front = normalize::merged_messages(before, false);
    let rest = normalize::merged_messages(seq![user] + behind, false);
    assert(before[started] == messages[started]);
    assert(before + seq![MessageModel::System { content }] + behind =~= messages);
    lemma_merged_late_system(before, started, content, behind);
    lemma_first_user(content, behind, false);
    order_laws::law_order_moves_results_only(front + rest);
    let k = front.len() as int;
    assert((front + rest)[k] == rest[0]);
    assert(normal[k] == rest[0]);
}

/// Of two tool results in one run of the normal form, the one that answers the
/// earlier of the calls made last stands first.
pub proof fn law_normal_results_follow_calls(
    messages: Seq<MessageModel>,
    mid_conversation_system: bool,
    caller: int,
    calls: Seq<ToolCallModel>,
    start: int,
    end: int,
    i: int,
    j: int,
    x: int,
    y: int,
)
    requires
        ({
            let normal = normalize::normalized_messages(messages, mid_conversation_system);
            &&& order_laws::made_last(normal, caller, calls, start)
            &&& order_laws::is_run(normal, start, end)
            &&& start <= x < end
            &&& start <= y < end
            &&& normal[x] matches MessageModel::Tool { tool_call_id, .. } && tool_call_id
                == calls[i].id
            &&& normal[y] matches MessageModel::Tool { tool_call_id, .. } && tool_call_id
                == calls[j].id
        }),
        0 <= i < j < calls.len(),
        forall|k: int| 0 <= k < j ==> (#[trigger] calls[k]).id != calls[j].id,
    ensures
        x < y,
{
    let normal = normalize::normalized_messages(messages, mid_conversation_system);
    order_laws::law_order_is_idempotent(
        normalize::merged_messages(messages, mid_conversation_system),
    );
    order_laws::law_results_follow_calls(normal, caller, calls, start, end, i, j, x, y);
}

/// What a message says.
pub open spec fn said(message: MessageModel) -> Seq<char> {
    match message {
        MessageModel::System { content } => content,
        MessageModel::User { content, .. } => content,
        MessageModel::LatestReminder { content } => content,
        MessageModel::Tool { content, .. } => content,
        MessageModel::Assistant { content, .. } => content,
    }
}

/// `part` stands somewhere in `whole`.
pub open spec fn holds_text(whole: Seq<char>, part: Seq<char>) -> bool {
    exists|from: int|
        0 <= from <= whole.len() - part.len() && #[trigger] whole.subrange(
            from,
            from + part.len(),
        ) == part
}

/// No text is lost: what a message says stands in a message of the normal form.
/// Reminders, tool results and assistant messages are there as they were, and
/// what a user said is there as said by a user.
pub proof fn law_every_text_kept(
    messages: Seq<MessageModel>,
    at: int,
    mid_conversation_system: bool,
)
    requires
        0 <= at < messages.len(),
    ensures
        ({
            let normal = normalize::normalized_messages(messages, mid_conversation_system);
            let message = messages[at];
            exists|k: int|
                0 <= k < normal.len() && holds_text(said(#[trigger] normal[k]), said(message)) && (
                message is User ==> normal[k] is User) && (message is LatestReminder || message
                    is Tool || message is Assistant ==> normal[k] == message)
        }),
{
    let merged = normalize::merged_messages(messages, mid_conversation_system);
    let normal = normalize::normalized_messages(messages, mid_conversation_system);
    lemma_merged_keeps(messages, at, mid_conversation_system);
    let j = choose|j: int| 0 <= j < merged.len() && keeps(#[trigger] merged[j], messages[at]);
    order_laws::law_order_permutes(merged);
    assert(merged.contains(merged[j]));
    vstd::seq_lib::to_multiset_contains(merged, merged[j]);
    vstd::seq_lib::to_multiset_contains(normal, merged[j]);
    let k = normal.index_of(merged[j]);
    assert(keeps(normal[k], messages[at]));
}

/// `normal` holds what `message` says, as said by the same side; as it was,
/// unless it can be put together with others.
spec fn keeps(normal: MessageModel, message: MessageModel) -> bool {
    &&& holds_text(said(normal), said(message))
    &&& message is User ==> normal is User
    &&& message is LatestReminder || message is Tool || message is Assistant ==> normal == message
}

pub proof fn lemma_holds_itself(text: Seq<char>)
    ensures
        holds_text(text, text),
{
    assert(text.subrange(0, 0int + text.len()) =~= text);
}

/// What a text ends with stands in it.
proof fn lemma_holds_ending(text: Seq<char>, part: Seq<char>)
    requires
        part.is_suffix_of(text),
    ensures
        holds_text(text, part),
{
    let from = text.len() - part.len();
    assert(text.subrange(from, from + part.len()) =~= part);
}

/// What stands in a text stands in it with more around it.
pub proof fn lemma_holds_around(before: Seq<char>, text: Seq<char>, behind: Seq<char>, part: Seq<char>)
    requires
        holds_text(text, part),
    ensures
        holds_text(before + text + behind, part),
{
    let from = choose|from: int|
        0 <= from <= text.len() - part.len() && #[trigger] text.subrange(from, from + part.len())
            == part;
    let whole = before + text + behind;
    let there = before.len() + from;
    assert(whole.subrange(there, there + part.len()) =~= text.subrange(from, from + part.len()));
}

/// A message that is added leaves each one before it, or goes on from it.
proof fn lemma_add_keeps_others(
    messages: Seq<MessageModel>,
    message: MessageModel,
    started: bool,
    mid_conversation_system: bool,
    k: int,
)
    requires
        0 <= k < messages.len(),
    ensures
        ({
            let next = normalize::add_message(messages, message, started, mid_conversation_system);
            &&& k < next.len()
            &&& next[k] == messages[k] || (messages[k] is User && next[k] is User && said(
                messages[k],
            ).is_prefix_of(said(next[k]))) || (messages[k] is System && next[k] is System && said(
                messages[k],
            ).is_prefix_of(said(next[k])))
        }),
{
}

/// A message that is added is the last one, or the last one ends with what it
/// says, unless it is a system message that says nothing.
proof fn lemma_add_keeps_message(
    messages: Seq<MessageModel>,
    message: MessageModel,
    started: bool,
    mid_conversation_system: bool,
)
    requires
        !(message is System && said(message).len() == 0),
    ensures
        ({
            let next = normalize::add_message(messages, message, started, mid_conversation_system);
            &&& next.len() > 0
            &&& next.last() == message || ((message is User || message is System) && (message
                is User ==> next.last() is User) && said(message).is_suffix_of(said(next.last())))
        }),
{
}

/// A message that goes on holds what it held.
proof fn lemma_keeps_going_on(before: MessageModel, after: MessageModel, message: MessageModel)
    requires
        keeps(before, message),
        after == before || (before is User && after is User && said(before).is_prefix_of(
            said(after),
        )) || (before is System && after is System && said(before).is_prefix_of(said(after))),
    ensures
        keeps(after, message),
{
    let none = Seq::<char>::empty();
    let more = said(after).skip(said(before).len() as int);
    assert(none + said(before) + more =~= said(after));
    lemma_holds_around(none, said(before), more, said(message));
}

/// A message that ends with another one holds what that one says.
proof fn lemma_keeps_ending(after: MessageModel, message: MessageModel)
    requires
        after == message || ((message is User || message is System) && (message is User ==> after
            is User) && said(message).is_suffix_of(said(after))),
    ensures
        keeps(after, message),
{
    if after == message {
        lemma_holds_itself(said(message));
    } else {
        lemma_holds_ending(said(after), said(message));
    }
}

proof fn lemma_merged_keeps(
    messages: Seq<MessageModel>,
    at: int,
    mid_conversation_system: bool,
)
    requires
        0 <= at < messages.len(),
    ensures
        exists|k: int|
            0 <= k < normalize::merged_messages(messages, mid_conversation_system).len() && keeps(
                #[trigger] normalize::merged_messages(messages, mid_conversation_system)[k],
                messages[at],
            ),
    decreases messages.len(),
{
    let front = messages.drop_last();
    let last = messages.last();
    let message = messages[at];
    let started = normalize::has_non_system(front);
    let merged = normalize::merged_messages(front, mid_conversation_system);
    lemma_merged_push(front, last, mid_conversation_system);
    assert(front.push(last) =~= messages);
    if at < front.len() {
        lemma_merged_keeps(front, at, mid_conversation_system);
        assert(front[at] == message);
        let k = choose|k: int| 0 <= k < merged.len() && keeps(#[trigger] merged[k], message);
        lemma_add_keeps_others(merged, last, started, mid_conversation_system, k);
        lemma_keeps_going_on(
            merged[k],
            normalize::merged_messages(messages, mid_conversation_system)[k],
            message,
        );
    } else if !(message is System && said(message).len() == 0) {
        lemma_add_keeps_message(merged, message, started, mid_conversation_system);
        let next = normalize::merged_messages(messages, mid_conversation_system);
        lemma_keeps_ending(next.last(), message);
        assert(keeps(next[next.len() - 1], message));
    } else {
        lemma_merged_not_empty(messages, mid_conversation_system);
        let next = normalize::merged_messages(messages, mid_conversation_system);
        lemma_holds_ending(said(next[0]), said(message));
        assert(keeps(next[0], message));
    }
}

proof fn lemma_merged_not_empty(messages: Seq<MessageModel>, mid_conversation_system: bool)
    requires
        messages.len() > 0,
    ensures
        normalize::merged_messages(messages, mid_conversation_system).len() > 0,
    decreases messages.len(),
{
    let front = messages.drop_last();
    if front.len() > 0 {
        lemma_merged_not_empty(front, mid_conversation_system);
    }
}

/// One message more is added to what the others come to.
proof fn lemma_merged_push(
    messages: Seq<MessageModel>,
    message: MessageModel,
    mid_conversation_system: bool,
)
    ensures
        normalize::merged_messages(messages.push(message), mid_conversation_system)
            == normalize::add_message(
            normalize::merged_messages(messages, mid_conversation_system),
            message,
            normalize::has_non_system(messages),
            mid_conversation_system,
        ),
{
    assert(messages.push(message).drop_last() =~= messages);
}

proof fn lemma_non_system_add(first: Seq<MessageModel>, second: Seq<MessageModel>)
    ensures
        normalize::has_non_system(first + second) <==> normalize::has_non_system(first)
            || normalize::has_non_system(second),
{
    let all = first + second;
    if normalize::has_non_system(first) {
        let i = choose|i: int| 0 <= i < first.len() && !(#[trigger] first[i] is System);
        assert(!(all[i] is System));
    }
    if normalize::has_non_system(second) {
        let i = choose|i: int| 0 <= i < second.len() && !(#[trigger] second[i] is System);
        assert(!(all[first.len() + i] is System));
    }
    if normalize::has_non_system(all) {
        let i = choose|i: int| 0 <= i < all.len() && !(#[trigger] all[i] is System);
        if i < first.len() {
            assert(!(first[i] is System));
        } else {
            assert(!(second[i - first.len()] is System));
        }
    }
}

/// Messages that come to the same go on in the same way.
proof fn lemma_merged_go_on(
    messages: Seq<MessageModel>,
    others: Seq<MessageModel>,
    behind: Seq<MessageModel>,
    mid_conversation_system: bool,
)
    requires
        normalize::merged_messages(messages, mid_conversation_system)
            == normalize::merged_messages(others, mid_conversation_system),
        normalize::has_non_system(messages) == normalize::has_non_system(others),
    ensures
        normalize::merged_messages(messages + behind, mid_conversation_system)
            == normalize::merged_messages(others + behind, mid_conversation_system),
    decreases behind.len(),
{
    if behind.len() == 0 {
        assert(messages + behind =~= messages);
        assert(others + behind =~= others);
    } else {
        let front = behind.drop_last();
        lemma_merged_go_on(messages, others, front, mid_conversation_system);
        lemma_non_system_add(messages, front);
        lemma_non_system_add(others, front);
        assert((messages + behind).drop_last() =~= messages + front);
        assert((others + behind).drop_last() =~= others + front);
    }
}

/// A late system message that says something starts a user message.
proof fn lemma_merged_late_system(
    before: Seq<MessageModel>,
    started: int,
    content: Seq<char>,
    behind: Seq<MessageModel>,
)
    requires
        0 <= started < before.len(),
        !(before[started] is System),
        content.len() > 0,
    ensures
        normalize::merged_messages(before + seq![MessageModel::System { content }] + behind, false)
            == normalize::merged_messages(before, false) + normalize::merged_messages(
            seq![MessageModel::User { content, image_sources: Seq::empty() }] + behind,
            false,
        ),
    decreases behind.len(),
{
    let late = MessageModel::System { content };
    let user = MessageModel::User { content, image_sources: Seq::empty() };
    let head = normalize::merged_messages(before, false);
    if behind.len() == 0 {
        let none = Seq::<MessageModel>::empty();
        lemma_merged_push(before, late, false);
        lemma_merged_push(none, user, false);
        assert(before + seq![late] + behind =~= before.push(late));
        assert(seq![user] + behind =~= none.push(user));
        assert(head.push(user) =~= head + none.push(user));
    } else {
        let front = behind.drop_last();
        let last = behind.last();
        lemma_merged_late_system(before, started, content, front);
        lemma_first_user(content, front, false);
        let first = before + seq![late] + front;
        let second = seq![user] + front;
        let rest = normalize::merged_messages(second, false);
        assert((before + seq![late] + behind).drop_last() =~= first);
        assert((seq![user] + behind).drop_last() =~= second);
        assert((before + seq![late] + behind).last() == last);
        assert((seq![user] + behind).last() == last);
        assert(first[started] == before[started]);
        assert(second[0] is User);
        let all = head + rest;
        assert(all.last() == rest.last());
        assert(all.drop_last() =~= head + rest.drop_last());
        assert(normalize::add_message(all, last, true, false) =~= head + normalize::add_message(
            rest,
            last,
            true,
            false,
        ));
    }
}

/// A user message at the front starts the first message of the normal form.
proof fn lemma_first_user(
    content: Seq<char>,
    behind: Seq<MessageModel>,
    mid_conversation_system: bool,
)
    ensures
        ({
            let merged = normalize::merged_messages(
                seq![MessageModel::User { content, image_sources: Seq::empty() }] + behind,
                mid_conversation_system,
            );
            &&& merged.len() > 0
            &&& merged[0] matches MessageModel::User { content: whole, .. }
            &&& whole == content || (content + "\n\n"@).is_prefix_of(whole)
        }),
    decreases behind.len(),
{
    let user = MessageModel::User { content, image_sources: Seq::empty() };
    if behind.len() == 0 {
        let none = Seq::<MessageModel>::empty();
        lemma_merged_push(none, user, mid_conversation_system);
        assert(seq![user] + behind =~= none.push(user));
    } else {
        let front = behind.drop_last();
        lemma_first_user(content, front, mid_conversation_system);
        assert((seq![user] + behind).drop_last() =~= seq![user] + front);
        assert((seq![user] + front)[0] is User);
    }
}

/// Putting messages together keeps all images in their order.
pub proof fn law_merging_keeps_images(messages: Seq<MessageModel>, mid_conversation_system: bool)
    ensures
        render::all_images(normalize::merged_messages(messages, mid_conversation_system))
            == render::all_images(messages),
    decreases messages.len(),
{
    if messages.len() > 0 {
        let front = messages.drop_last();
        let message = messages.last();
        let merged = normalize::merged_messages(front, mid_conversation_system);
        law_merging_keeps_images(front, mid_conversation_system);
        lemma_images_push(front, message);
        assert(front.push(message) =~= messages);
        lemma_images_push(merged, message);
        match message {
            MessageModel::System { content } => {
                if !mid_conversation_system {
                    if !normalize::has_non_system(front) {
                        if merged.len() > 0 && merged.last() is System {
                            let head = MessageModel::System {
                                content: normalize::as_paragraphs(
                                    merged.last()->System_content,
                                    content,
                                ),
                            };
                            lemma_images_push(merged.drop_last(), merged.last());
                            lemma_images_push(merged.drop_last(), head);
                            assert(merged.drop_last().push(merged.last()) =~= merged);
                        } else {
                            lemma_images_push(merged, MessageModel::System { content });
                        }
                    } else {
                        lemma_images_push(
                            merged,
                            MessageModel::User { content, image_sources: Seq::empty() },
                        );
                    }
                }
            },
            MessageModel::User { content, image_sources } => {
                if merged.len() > 0 && merged.last() is User {
                    let whole = MessageModel::User {
                        content: merged.last()->User_content + "\n\n"@ + content,
                        image_sources: merged.last()->User_image_sources + image_sources,
                    };
                    lemma_images_push(merged.drop_last(), merged.last());
                    lemma_images_push(merged.drop_last(), whole);
                    assert(merged.drop_last().push(merged.last()) =~= merged);
                }
            },
            _ => {},
        }
        assert(render::all_images(normalize::merged_messages(messages, mid_conversation_system))
            =~= render::all_images(messages));
    }
}

/// The images of a prompt are those of the conversation, each as often as it is
/// there.
pub proof fn law_images_kept(
    markup: Markup,
    conversation: ConversationModel,
    json: spec_fn(Value) -> Seq<char>,
)
    ensures
        render::all_images(
            render::rendered_messages(markup, conversation, json),
        ).to_multiset() == render::all_images(conversation.messages).to_multiset(),
{
    let merged = normalize::merged_messages(
        conversation.messages,
        markup.mid_conversation_system,
    );
    let normal = normalize::normalized_messages(
        conversation.messages,
        markup.mid_conversation_system,
    );
    law_merging_keeps_images(conversation.messages, markup.mid_conversation_system);
    order_laws::law_order_permutes(merged);
    lemma_images_of_permutation(normal, merged);
    lemma_instructions_keep_images(normal, render::instructions(markup, conversation, json));
}

/// The images of messages are those of the first ones, all the image sources of
/// the message at `at` in their order, and those of the ones behind.
pub proof fn law_images_of_message(messages: Seq<MessageModel>, at: int)
    requires
        0 <= at < messages.len(),
    ensures
        render::all_images(messages) == render::all_images(messages.take(at)) + sources(
            messages[at],
        ) + render::all_images(messages.skip(at + 1)),
{
    let before = messages.take(at).push(messages[at]);
    let behind = messages.skip(at + 1);
    let images = before.map_values(|message: MessageModel| render::message_images(message));
    let more = behind.map_values(|message: MessageModel| render::message_images(message));
    assert(before + behind =~= messages);
    assert(messages.map_values(|message: MessageModel| render::message_images(message))
        =~= images + more);
    vstd::seq_lib::lemma_flatten_concat(images, more);
    lemma_images_push(messages.take(at), messages[at]);
}

/// Without messages there are no images.
pub proof fn law_no_images_of_none()
    ensures
        render::all_images(Seq::empty()) == Seq::<Seq<char>>::empty(),
{
    let none = Seq::<MessageModel>::empty();
    assert(none.map_values(|message: MessageModel| render::message_images(message)) =~= Seq::<
        Seq<Seq<char>>,
    >::empty());
}

/// The images of a prompt are all the image sources of the conversation, each
/// as often as its messages bring it.
pub proof fn law_all_sources_collected(
    markup: Markup,
    conversation: ConversationModel,
    json: spec_fn(Value) -> Seq<char>,
)
    ensures
        render::all_images(
            render::rendered_messages(markup, conversation, json),
        ).to_multiset() == sources_counted(conversation.messages),
{
    law_images_kept(markup, conversation, json);
    lemma_sources_counted(conversation.messages);
}

proof fn lemma_sources_counted(messages: Seq<MessageModel>)
    ensures
        render::all_images(messages).to_multiset() == sources_counted(messages),
    decreases messages.len(),
{
    if messages.len() == 0 {
        law_no_images_of_none();
        assert(messages =~= Seq::empty());
        vstd::seq_lib::to_multiset_len(Seq::<Seq<char>>::empty());
        assert(Seq::<Seq<char>>::empty().to_multiset() =~= Multiset::empty());
    } else {
        let front = messages.drop_last();
        let last = messages.last();
        lemma_sources_counted(front);
        lemma_images_push(front, last);
        assert(front.push(last) =~= messages);
        assert(render::message_images(last) == sources(last));
        vstd::seq_lib::lemma_multiset_commutative(render::all_images(front), sources(last));
    }
}

/// Where no tool result has images, or the results stand in the order of their
/// calls already, the images come out in the order of the conversation.
pub proof fn law_images_in_order(
    markup: Markup,
    conversation: ConversationModel,
    json: spec_fn(Value) -> Seq<char>,
)
    requires
        results_without_images(conversation.messages) || ({
            let merged = normalize::merged_messages(
                conversation.messages,
                markup.mid_conversation_system,
            );
            tool_order::results_in_call_order(merged) == merged
        }),
    ensures
        render::all_images(render::rendered_messages(markup, conversation, json))
            == render::all_images(conversation.messages),
{
    let merged = normalize::merged_messages(
        conversation.messages,
        markup.mid_conversation_system,
    );
    let normal = normalize::normalized_messages(
        conversation.messages,
        markup.mid_conversation_system,
    );
    law_merging_keeps_images(conversation.messages, markup.mid_conversation_system);
    if results_without_images(conversation.messages) {
        lemma_merged_without_images(conversation.messages, markup.mid_conversation_system);
        lemma_order_without_images(merged);
    }
    lemma_instructions_keep_images(normal, render::instructions(markup, conversation, json));
}

/// While there are only system messages, they are put together as one.
proof fn lemma_merged_leading(messages: Seq<MessageModel>)
    requires
        !normalize::has_non_system(messages),
    ensures
        normalize::merged_messages(messages, false).len() <= 1,
        forall|i: int|
            0 <= i < normalize::merged_messages(messages, false).len()
                ==> #[trigger] normalize::merged_messages(messages, false)[i] is System,
    decreases messages.len(),
{
    if messages.len() > 0 {
        let front = messages.drop_last();
        assert(messages[messages.len() - 1] is System);
        lemma_prefix_leading(messages, messages.len() - 1);
        assert(messages.take(messages.len() - 1) =~= front);
        lemma_merged_leading(front);
    }
}

proof fn lemma_prefix_leading(messages: Seq<MessageModel>, count: int)
    requires
        0 <= count <= messages.len(),
        !normalize::has_non_system(messages),
    ensures
        !normalize::has_non_system(messages.take(count)),
{
    assert forall|i: int| 0 <= i < count implies #[trigger] messages.take(count)[i] is System by {
        assert(messages[i] is System);
    }
}

proof fn lemma_merged_systems(messages: Seq<MessageModel>)
    ensures
        system_first_only(normalize::merged_messages(messages, false)),
    decreases messages.len(),
{
    if messages.len() > 0 {
        let front = messages.drop_last();
        let merged = normalize::merged_messages(front, false);
        let next = normalize::merged_messages(messages, false);
        lemma_merged_systems(front);
        if !normalize::has_non_system(front) {
            lemma_merged_leading(front);
        }
        assert forall|i: int| 0 < i < next.len() implies !(#[trigger] next[i] is System) by {
            if i < merged.len() {
                assert(!(merged[i] is System));
            }
        }
    }
}

proof fn lemma_no_system_after_user_prefix(messages: Seq<MessageModel>)
    requires
        messages.len() > 0,
        no_system_after_user(messages),
    ensures
        no_system_after_user(messages.drop_last()),
{
    let front = messages.drop_last();
    assert forall|i: int|
        0 <= i < front.len() && #[trigger] front[i] is System && front[i]->System_content.len() > 0
            && normalize::has_non_system(front.take(i)) implies !follows_user(front, i) by {
        assert(messages[i] is System);
        assert(front.take(i) =~= messages.take(i));
    }
}

proof fn lemma_merged_no_adjacent_users(
    messages: Seq<MessageModel>,
    mid_conversation_system: bool,
)
    requires
        mid_conversation_system || no_system_after_user(messages),
    ensures
        no_adjacent_users(normalize::merged_messages(messages, mid_conversation_system)),
    decreases messages.len(),
{
    if messages.len() > 0 {
        let front = messages.drop_last();
        let merged = normalize::merged_messages(front, mid_conversation_system);
        let next = normalize::merged_messages(messages, mid_conversation_system);
        if !mid_conversation_system {
            lemma_no_system_after_user_prefix(messages);
            assert(messages.take(messages.len() - 1) =~= front);
        }
        lemma_merged_no_adjacent_users(front, mid_conversation_system);
        assert forall|i: int, j: int|
            0 <= i && j == i + 1 && j < next.len() && #[trigger] next[i] is User implies !(
        #[trigger] next[j] is User) by {
            if j < merged.len() {
                assert(merged[i] is User ==> !(merged[j] is User));
            }
        }
    }
}

proof fn lemma_merge_of_merged(messages: Seq<MessageModel>, mid_conversation_system: bool)
    requires
        mid_conversation_system || system_first_only(messages),
        no_adjacent_users(messages),
    ensures
        normalize::merged_messages(messages, mid_conversation_system) == messages,
    decreases messages.len(),
{
    if messages.len() > 0 {
        let front = messages.drop_last();
        let message = messages.last();
        assert forall|i: int, j: int|
            0 <= i && j == i + 1 && j < front.len() && #[trigger] front[i] is User implies !(
        #[trigger] front[j] is User) by {
            assert(front[i] == messages[i] && front[j] == messages[j]);
        }
        if !mid_conversation_system {
            assert forall|i: int| 0 < i < front.len() implies !(#[trigger] front[i] is System) by {
                assert(front[i] == messages[i]);
            }
            assert(messages.len() > 1 ==> !(messages[messages.len() - 1] is System));
        }
        lemma_merge_of_merged(front, mid_conversation_system);
        if front.len() > 0 {
            assert(front.last() == messages[messages.len() - 2]);
            assert(message == messages[messages.len() - 1]);
        }
        assert(front.push(message) =~= messages);
    }
}

proof fn lemma_merged_without_images(messages: Seq<MessageModel>, mid_conversation_system: bool)
    requires
        results_without_images(messages),
    ensures
        results_without_images(normalize::merged_messages(messages, mid_conversation_system)),
    decreases messages.len(),
{
    if messages.len() > 0 {
        let front = messages.drop_last();
        let merged = normalize::merged_messages(front, mid_conversation_system);
        let next = normalize::merged_messages(messages, mid_conversation_system);
        assert forall|i: int| 0 <= i < front.len() && #[trigger] front[i] is Tool implies (
        render::message_images(front[i]).len() == 0) by {
            assert(front[i] == messages[i]);
        }
        lemma_merged_without_images(front, mid_conversation_system);
        assert(messages.last() == messages[messages.len() - 1]);
        assert forall|i: int| 0 <= i < next.len() && #[trigger] next[i] is Tool implies (
        render::message_images(next[i]).len() == 0) by {
            if i < merged.len() {
                assert(next[i] == merged[i] || !(next[i] is Tool));
            }
        }
    }
}

proof fn lemma_order_without_images(messages: Seq<MessageModel>)
    requires
        results_without_images(messages),
    ensures
        render::all_images(tool_order::results_in_call_order(messages)) == render::all_images(
            messages,
        ),
{
    let ordered = tool_order::results_in_call_order(messages);
    let images = messages.map_values(|message: MessageModel| render::message_images(message));
    let ordered_images = ordered.map_values(
        |message: MessageModel| render::message_images(message),
    );
    order_laws::law_order_moves_results_only(messages);
    order_laws::law_order_permutes(messages);
    assert forall|i: int| 0 <= i < messages.len() implies #[trigger] ordered_images[i]
        == images[i] by {
        if messages[i] is Tool {
            vstd::seq_lib::to_multiset_contains(ordered, ordered[i]);
            vstd::seq_lib::to_multiset_contains(messages, ordered[i]);
            assert(ordered.contains(ordered[i]));
            let there = messages.index_of(ordered[i]);
            assert(messages[there] is Tool);
            assert(ordered_images[i] =~= images[i]);
        }
    }
    assert(ordered_images =~= images);
}

/// The images of one message more come behind those of the messages before.
proof fn lemma_images_push(messages: Seq<MessageModel>, message: MessageModel)
    ensures
        render::all_images(messages.push(message)) == render::all_images(messages)
            + render::message_images(message),
{
    let images = messages.map_values(|message: MessageModel| render::message_images(message));
    assert(messages.push(message).map_values(
        |message: MessageModel| render::message_images(message),
    ) =~= images.push(render::message_images(message)));
    images.lemma_flatten_push(render::message_images(message));
}

proof fn lemma_images_remove(messages: Seq<MessageModel>, at: int)
    requires
        0 <= at < messages.len(),
    ensures
        render::all_images(messages).to_multiset() == render::all_images(
            messages.remove(at),
        ).to_multiset().add(render::message_images(messages[at]).to_multiset()),
    decreases messages.len(),
{
    let front = messages.drop_last();
    let last = messages.last();
    assert(front.push(last) =~= messages);
    lemma_images_push(front, last);
    vstd::seq_lib::lemma_multiset_commutative(
        render::all_images(front),
        render::message_images(last),
    );
    if at == messages.len() - 1 {
        assert(messages.remove(at) =~= front);
    } else {
        lemma_images_remove(front, at);
        assert(messages.remove(at) =~= front.remove(at).push(last));
        lemma_images_push(front.remove(at), last);
        vstd::seq_lib::lemma_multiset_commutative(
            render::all_images(front.remove(at)),
            render::message_images(last),
        );
        let rest = render::all_images(front.remove(at)).to_multiset();
        let here = render::message_images(messages[at]).to_multiset();
        let end = render::message_images(last).to_multiset();
        assert(rest.add(here).add(end) =~= rest.add(end).add(here));
    }
}

proof fn lemma_images_of_permutation(messages: Seq<MessageModel>, others: Seq<MessageModel>)
    requires
        messages.to_multiset() == others.to_multiset(),
    ensures
        render::all_images(messages).to_multiset() == render::all_images(others).to_multiset(),
    decreases messages.len(),
{
    vstd::seq_lib::to_multiset_len(messages);
    vstd::seq_lib::to_multiset_len(others);
    if messages.len() == 0 {
        assert(messages =~= others);
    } else {
        let last = messages.last();
        let at = messages.len() - 1;
        assert(messages[at] == last);
        vstd::seq_lib::to_multiset_contains(messages, last);
        vstd::seq_lib::to_multiset_contains(others, last);
        let there = others.index_of(last);
        assert(0 <= there < others.len() && others[there] == last);
        vstd::seq_lib::to_multiset_remove(messages, at);
        vstd::seq_lib::to_multiset_remove(others, there);
        lemma_images_of_permutation(messages.remove(at), others.remove(there));
        lemma_images_remove(messages, at);
        lemma_images_remove(others, there);
    }
}

proof fn lemma_instructions_keep_images(messages: Seq<MessageModel>, instructions: Seq<char>)
    ensures
        render::all_images(render::with_instructions(messages, instructions))
            == render::all_images(messages),
{
    let images = messages.map_values(|message: MessageModel| render::message_images(message));
    let instructed = render::with_instructions(messages, instructions);
    let instructed_images = instructed.map_values(
        |message: MessageModel| render::message_images(message),
    );
    if messages.len() > 0 && messages[0] is System {
        assert(instructed_images =~= images);
    } else {
        assert(instructed_images.drop_first() =~= images);
        assert(instructed_images.flatten() =~= images.flatten());
    }
}

} // verus!
