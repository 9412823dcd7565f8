//! Tool results in the order of the calls that they answer.

use crate::conversation;
use crate::conversation::{InputMessage, MessageModel, ToolCallModel};
use crate::text;
use vstd::prelude::*;

verus! {

/// A message of the user's side: what the user says, or what a tool returns.
pub open spec fn is_user_side(message: MessageModel) -> bool {
    message is User || message is Tool
}

/// The ids of tool calls.
pub open spec fn call_ids(calls: Seq<ToolCallModel>) -> Seq<Seq<char>> {
    calls.map_values(|call: ToolCallModel| call.id)
}

/// The ids of the calls that a message makes, if it makes any.
pub open spec fn ids_called(message: MessageModel) -> Option<Seq<Seq<char>>> {
    match message {
        MessageModel::Assistant { tool_calls: Some(calls), .. } => if calls.len() > 0 {
            Some(call_ids(calls))
        } else {
            None
        },
        _ => None,
    }
}

/// The ids of the calls that were made last before `end`.
pub open spec fn last_ids_called(messages: Seq<MessageModel>, end: int) -> Seq<Seq<char>>
    decreases end,
{
    if end <= 0 {
        Seq::empty()
    } else {
        match ids_called(messages[end - 1]) {
            Some(ids) => ids,
            None => last_ids_called(messages, end - 1),
        }
    }
}

/// The place of a tool call among the calls made; a call that was not made
/// takes the first place.
pub open spec fn call_place(order: Seq<Seq<char>>, id: Seq<char>) -> int {
    match order.index_of_first(id) {
        Some(place) => place,
        None => 0,
    }
}

/// The place of the call that a tool result answers.
pub open spec fn result_place(order: Seq<Seq<char>>, message: MessageModel) -> int {
    match message {
        MessageModel::Tool { tool_call_id, .. } => call_place(order, tool_call_id),
        _ => 0,
    }
}

/// `message` put into `results` behind the last one whose place is not greater.
pub open spec fn insert_by_place(
    results: Seq<MessageModel>,
    message: MessageModel,
    order: Seq<Seq<char>>,
) -> Seq<MessageModel>
    decreases results.len(),
{
    if results.len() == 0 || result_place(order, results.last()) <= result_place(order, message) {
        results.push(message)
    } else {
        insert_by_place(results.drop_last(), message, order).push(results.last())
    }
}

/// `results` by the places of their calls; those of one place keep their order.
pub open spec fn sort_by_place(
    results: Seq<MessageModel>,
    order: Seq<Seq<char>>,
) -> Seq<MessageModel>
    decreases results.len(),
{
    if results.len() == 0 {
        results
    } else {
        insert_by_place(sort_by_place(results.drop_last(), order), results.last(), order)
    }
}

/// Where the run of messages of the user's side starts that reaches up to `at`.
pub open spec fn run_start(messages: Seq<MessageModel>, at: int) -> int
    decreases at,
{
    if at > 0 && is_user_side(messages[at - 1]) {
        run_start(messages, at - 1)
    } else {
        at
    }
}

/// Where the run of messages of the user's side ends that goes on from `at`.
pub open spec fn run_end(messages: Seq<MessageModel>, at: int) -> int
    decreases messages.len() - at,
{
    if at < messages.len() && is_user_side(messages[at]) {
        run_end(messages, at + 1)
    } else {
        at
    }
}

/// The indices of the tool results from `start` up to `end`, ascending.
pub open spec fn result_indices(messages: Seq<MessageModel>, start: int, end: int) -> Seq<int>
    decreases end - start,
{
    if end <= start {
        Seq::empty()
    } else {
        let front = result_indices(messages, start, end - 1);
        if messages[end - 1] is Tool {
            front.push(end - 1)
        } else {
            front
        }
    }
}

/// The messages at the given indices.
pub open spec fn messages_at(messages: Seq<MessageModel>, indices: Seq<int>) -> Seq<MessageModel> {
    indices.map_values(|index: int| messages[index])
}

/// The message at `at` once the tool results of its run stand in the order of
/// their calls.
pub open spec fn result_in_order(messages: Seq<MessageModel>, at: int) -> MessageModel {
    if messages[at] is Tool {
        let start = run_start(messages, at);
        let indices = result_indices(messages, start, run_end(messages, at));
        let sorted = sort_by_place(
            messages_at(messages, indices),
            last_ids_called(messages, start),
        );
        sorted[indices.index_of(at)]
    } else {
        messages[at]
    }
}

/// `messages` with the tool results of each run of messages of the user's side
/// in the order of the calls made last before it. The results trade places
/// with each other only; every other message stays where it is.
pub open spec fn results_in_call_order(messages: Seq<MessageModel>) -> Seq<MessageModel> {
    Seq::new(messages.len(), |at: int| result_in_order(messages, at))
}

/// The indices of tool results ascend, lie between the bounds, and leave out
/// no tool result.
pub proof fn lemma_result_indices(messages: Seq<MessageModel>, start: int, end: int)
    ensures
        forall|k: int|
            0 <= k < result_indices(messages, start, end).len() ==> start <= #[trigger]
            result_indices(messages, start, end)[k] < end && messages[result_indices(
                messages,
                start,
                end,
            )[k]] is Tool,
        forall|j: int, k: int|
            0 <= j < k < result_indices(messages, start, end).len() ==> #[trigger] result_indices(
                messages,
                start,
                end,
            )[j] < #[trigger] result_indices(messages, start, end)[k],
        forall|at: int|
            start <= at < end && messages[at] is Tool ==> #[trigger] result_indices(
                messages,
                start,
                end,
            ).contains(at),
    decreases end - start,
{
    if end > start {
        lemma_result_indices(messages, start, end - 1);
        let front = result_indices(messages, start, end - 1);
        let indices = result_indices(messages, start, end);
        assert forall|at: int|
            start <= at < end && messages[at] is Tool implies #[trigger] indices.contains(at) by {
            if at == end - 1 {
                assert(indices[indices.len() - 1] == at);
            } else {
                assert(front.contains(at));
                let k = choose|k: int| 0 <= k < front.len() && front[k] == at;
                assert(indices[k] == at);
            }
        }
    }
}

/// Only the messages between the bounds decide on the indices of tool results.
pub proof fn lemma_indices_agree(
    messages: Seq<MessageModel>,
    others: Seq<MessageModel>,
    start: int,
    end: int,
)
    requires
        forall|i: int| start <= i < end ==> #[trigger] messages[i] == others[i],
    ensures
        result_indices(messages, start, end) == result_indices(others, start, end),
    decreases end - start,
{
    if end > start {
        lemma_indices_agree(messages, others, start, end - 1);
        assert(messages[end - 1] == others[end - 1]);
    }
}

/// Sorting keeps the number of results.
pub proof fn lemma_sort_len(results: Seq<MessageModel>, order: Seq<Seq<char>>)
    ensures
        sort_by_place(results, order).len() == results.len(),
    decreases results.len(),
{
    if results.len() > 0 {
        lemma_sort_len(results.drop_last(), order);
        lemma_insert_len(sort_by_place(results.drop_last(), order), results.last(), order);
    }
}

proof fn lemma_insert_len(
    results: Seq<MessageModel>,
    message: MessageModel,
    order: Seq<Seq<char>>,
)
    ensures
        insert_by_place(results, message, order).len() == results.len() + 1,
    decreases results.len(),
{
    if results.len() > 0 {
        lemma_insert_len(results.drop_last(), message, order);
    }
}

/// Inserting puts `message` at `at` where all from there on have greater places
/// and the one before has none.
proof fn lemma_insert_at(
    results: Seq<MessageModel>,
    message: MessageModel,
    order: Seq<Seq<char>>,
    at: int,
)
    requires
        0 <= at <= results.len(),
        forall|i: int|
            at <= i < results.len() ==> result_place(order, message) < result_place(
                order,
                #[trigger] results[i],
            ),
        at > 0 ==> result_place(order, results[at - 1]) <= result_place(order, message),
    ensures
        insert_by_place(results, message, order) == results.insert(at, message),
    decreases results.len(),
{
    if at == results.len() {
        assert(results.insert(at, message) =~= results.push(message));
        if results.len() > 0 {
            assert(results.last() == results[at - 1]);
        }
    } else {
        let front = results.drop_last();
        assert(results.last() == results[results.len() - 1]);
        assert forall|i: int| at <= i < front.len() implies result_place(order, message)
            < result_place(order, #[trigger] front[i]) by {
            assert(front[i] == results[i]);
        }
        if at > 0 {
            assert(front[at - 1] == results[at - 1]);
        }
        lemma_insert_at(front, message, order, at);
        assert(results.insert(at, message) =~= front.insert(at, message).push(results.last()));
    }
}

/// Results of one place are in order already.
pub proof fn lemma_sort_one_place(results: Seq<MessageModel>, order: Seq<Seq<char>>)
    requires
        results.len() <= 1 || order.len() == 0,
    ensures
        sort_by_place(results, order) == results,
    decreases results.len(),
{
    if results.len() > 0 {
        let front = results.drop_last();
        lemma_sort_one_place(front, order);
        if order.len() == 0 {
            assert forall|message: MessageModel| #[trigger]
                result_place(order, message) == 0 by {
                if let MessageModel::Tool { tool_call_id, .. } = message {
                    order.index_of_first_ensures(tool_call_id);
                }
            }
        }
        assert(front.push(results.last()) =~= results);
    }
}

/// In a run from `start` to `end` every message has these ends of the run.
pub proof fn lemma_run(messages: Seq<MessageModel>, start: int, end: int, at: int)
    requires
        0 <= start <= at <= end <= messages.len(),
        start == 0 || !is_user_side(messages[start - 1]),
        end == messages.len() || !is_user_side(messages[end]),
        forall|i: int| start <= i < end ==> is_user_side(#[trigger] messages[i]),
    ensures
        run_start(messages, at) == start,
        run_end(messages, at) == end,
{
    lemma_run_start(messages, start, end, at);
    lemma_run_end(messages, start, end, at);
}

proof fn lemma_run_start(messages: Seq<MessageModel>, start: int, end: int, at: int)
    requires
        0 <= start <= at <= end,
        start == 0 || !is_user_side(messages[start - 1]),
        forall|i: int| start <= i < end ==> is_user_side(#[trigger] messages[i]),
    ensures
        run_start(messages, at) == start,
    decreases at,
{
    if at > start {
        lemma_run_start(messages, start, end, at - 1);
    }
}

proof fn lemma_run_end(messages: Seq<MessageModel>, start: int, end: int, at: int)
    requires
        start <= at <= end <= messages.len(),
        end == messages.len() || !is_user_side(messages[end]),
        forall|i: int| start <= i < end ==> is_user_side(#[trigger] messages[i]),
    ensures
        run_end(messages, at) == end,
    decreases end - at,
{
    if at < end {
        lemma_run_end(messages, start, end, at + 1);
    }
}

/// No call is made in a run, so the calls made last stay the same.
proof fn lemma_last_ids_over_run(messages: Seq<MessageModel>, start: int, end: int)
    requires
        0 <= start <= end,
        forall|i: int| start <= i < end ==> is_user_side(#[trigger] messages[i]),
    ensures
        last_ids_called(messages, end) == last_ids_called(messages, start),
    decreases end - start,
{
    if start < end {
        assert(is_user_side(messages[end - 1]));
        lemma_last_ids_over_run(messages, start, end - 1);
    }
}

fn is_user_side_message(message: &InputMessage) -> (found: bool)
    ensures
        found == is_user_side(message@),
{
    matches!(message, InputMessage::User { .. } | InputMessage::Tool { .. })
}

/// The ids of the calls that a message makes, if it makes any.
fn called_ids(message: &InputMessage) -> (ids: Option<Vec<String>>)
    ensures
        ids is Some <==> ids_called(message@) is Some,
        ids matches Some(list) ==> ids_called(message@) == Some(text::string_views(list@)),
{
    match message {
        InputMessage::Assistant { tool_calls: Some(calls), .. } => {
            if calls.len() == 0 {
                return None;
            }
            let ghost models = conversation::tool_call_views(calls@);
            let mut ids: Vec<String> = Vec::new();
            let mut done: usize = 0;
            while done < calls.len()
                invariant
                    models == conversation::tool_call_views(calls@),
                    done <= calls.len(),
                    ids.len() == done,
                    forall|i: int| 0 <= i < done ==> #[trigger] ids@[i]@ == models[i].id,
                decreases calls.len() - done,
            {
                ids.push(calls[done].id.clone());
                done += 1;
            }
            assert(text::string_views(ids@) =~= call_ids(models));
            Some(ids)
        },
        _ => None,
    }
}

/// The first place of `id` in `order`; the first of all if it is not there.
fn find_place(order: &Vec<String>, id: &String) -> (place: usize)
    ensures
        place == call_place(text::string_views(order@), id@),
{
    let ghost ids = text::string_views(order@);
    proof {
        ids.index_of_first_ensures(id@);
    }
    let mut place: usize = 0;
    while place < order.len()
        invariant
            place <= order.len(),
            ids == text::string_views(order@),
            forall|i: int| 0 <= i < place ==> #[trigger] ids[i] != id@,
        decreases order.len() - place,
    {
        if order[place] == *id {
            proof {
                assert(ids[place as int] == id@);
                ids.index_of_first_ensures(id@);
            }
            return place;
        }
        place += 1;
    }
    0
}

/// The place of the call that a tool result answers.
fn place_of(message: &InputMessage, order: &Vec<String>) -> (place: usize)
    ensures
        place == result_place(text::string_views(order@), message@),
{
    match message {
        InputMessage::Tool { tool_call_id, .. } => find_place(order, tool_call_id),
        _ => 0,
    }
}

/// Sorts tool results by the places of their calls; those of one place keep
/// their order.
fn sort_results(results: Vec<InputMessage>, order: &Vec<String>) -> (sorted: Vec<InputMessage>)
    ensures
        conversation::message_views(sorted@) == sort_by_place(
            conversation::message_views(results@),
            text::string_views(order@),
        ),
{
    let ghost models = conversation::message_views(results@);
    let ghost ids = text::string_views(order@);
    let ghost mut done: int = 0;
    let mut rest = results;
    let mut sorted: Vec<InputMessage> = Vec::new();
    assert(conversation::message_views(sorted@) =~= sort_by_place(models.take(0), ids));
    assert(models.skip(0) =~= models);
    while rest.len() > 0
        invariant
            0 <= done <= models.len(),
            ids == text::string_views(order@),
            conversation::message_views(rest@) == models.skip(done),
            conversation::message_views(sorted@) == sort_by_place(models.take(done), ids),
        decreases rest.len(),
    {
        let ghost rest_before = conversation::message_views(rest@);
        let ghost sorted_before = conversation::message_views(sorted@);
        assert(rest_before.len() == rest.len());
        assert(models.skip(done)[0] == models[done]);
        let message = rest.remove(0);
        let place = place_of(&message, order);
        let mut at: usize = sorted.len();
        while at > 0 && place_of(&sorted[at - 1], order) > place
            invariant
                at <= sorted.len(),
                ids == text::string_views(order@),
                place == result_place(ids, message@),
                sorted_before == conversation::message_views(sorted@),
                forall|i: int|
                    at <= i < sorted.len() ==> place < result_place(
                        ids,
                        #[trigger] sorted_before[i],
                    ),
            decreases at,
        {
            at -= 1;
        }
        proof {
            assert(rest_before[0] == message@);
            assert(models[done] == message@);
            lemma_insert_at(sorted_before, message@, ids, at as int);
            assert(models.take(done + 1).drop_last() =~= models.take(done));
            assert(models.take(done + 1).last() == message@);
            assert(conversation::message_views(rest@) =~= rest_before.drop_first());
            assert(rest_before.drop_first() =~= models.skip(done + 1));
        }
        sorted.insert(at, message);
        assert(conversation::message_views(sorted@) =~= sorted_before.insert(at as int, message@));
        proof {
            done = done + 1;
        }
    }
    assert(models.take(done) =~= models);
    sorted
}

/// Sorts the tool results from `start` up to `end`. Other messages stay where
/// they are.
fn sort_run(messages: &mut Vec<InputMessage>, start: usize, end: usize, order: &Vec<String>)
    requires
        start <= end <= old(messages).len(),
    ensures
        ({
            let before = conversation::message_views(old(messages)@);
            let after = conversation::message_views(final(messages)@);
            let indices = result_indices(before, start as int, end as int);
            let sorted = sort_by_place(
                messages_at(before, indices),
                text::string_views(order@),
            );
            &&& after.len() == before.len()
            &&& forall|k: int| 0 <= k < indices.len() ==> #[trigger] after[indices[k]] == sorted[k]
            &&& forall|i: int|
                0 <= i < before.len() && !indices.contains(i) ==> #[trigger] after[i] == before[i]
        }),
{
    let ghost before = conversation::message_views(messages@);
    let ghost ids = text::string_views(order@);
    let ghost indices = result_indices(before, start as int, end as int);
    proof {
        lemma_result_indices(before, start as int, end as int);
        lemma_sort_len(messages_at(before, indices), ids);
    }
    let mut found: Vec<usize> = Vec::new();
    let mut at: usize = start;
    while at < end
        invariant
            start <= at <= end <= messages.len(),
            before == conversation::message_views(messages@),
            found@.map_values(|index: usize| index as int) == result_indices(
                before,
                start as int,
                at as int,
            ),
        decreases end - at,
    {
        assert(before[at as int] == messages@[at as int]@);
        if matches!(messages[at], InputMessage::Tool { .. }) {
            let ghost found_before = found@;
            found.push(at);
            assert(found@.map_values(|index: usize| index as int) =~= found_before.map_values(
                |index: usize| index as int,
            ).push(at as int));
        }
        at += 1;
    }
    assert(forall|k: int| 0 <= k < indices.len() ==> found@[k] == #[trigger] indices[k]);
    if found.len() <= 1 || order.len() == 0 {
        proof {
            lemma_sort_one_place(messages_at(before, indices), ids);
        }
        return;
    }
    let mut results: Vec<InputMessage> = Vec::new();
    let mut taken: usize = 0;
    while taken < found.len()
        invariant
            taken <= found.len(),
            found.len() == indices.len(),
            messages.len() == before.len(),
            forall|k: int| 0 <= k < indices.len() ==> found@[k] == #[trigger] indices[k],
            forall|k: int| 0 <= k < indices.len() ==> 0 <= #[trigger] indices[k] < before.len(),
            forall|j: int, k: int|
                0 <= j < k < indices.len() ==> #[trigger] indices[j] < #[trigger] indices[k],
            conversation::message_views(results@) == messages_at(before, indices).take(
                taken as int,
            ),
            forall|i: int|
                0 <= i < before.len() && !indices.take(taken as int).contains(i)
                    ==> #[trigger] messages@[i]@ == before[i],
        decreases found.len() - taken,
    {
        let ghost results_before = results@;
        let ghost messages_before = messages@;
        let index = found[taken];
        assert(index == indices[taken as int]);
        assert(!indices.take(taken as int).contains(index as int));
        let mut message = InputMessage::LatestReminder { content: String::new() };
        std::mem::swap(&mut messages[index], &mut message);
        assert(message@ == before[index as int]);
        results.push(message);
        proof {
            let all = messages_at(before, indices);
            assert(all.take(taken + 1) =~= all.take(taken as int).push(message@));
            assert(conversation::message_views(results@) =~= conversation::message_views(
                results_before,
            ).push(message@));
            assert forall|i: int|
                0 <= i < before.len() && !indices.take(taken + 1).contains(i) implies #[trigger]
            messages@[i]@ == before[i] by {
                assert(indices.take(taken + 1)[taken as int] == index);
                if indices.take(taken as int).contains(i) {
                    let k = choose|k: int|
                        0 <= k < taken && indices.take(taken as int)[k] == i;
                    assert(indices.take(taken + 1)[k] == i);
                }
            }
        }
        taken += 1;
    }
    assert(messages_at(before, indices).take(taken as int) =~= messages_at(before, indices));
    assert(indices.take(taken as int) =~= indices);
    let mut sorted = sort_results(results, order);
    let ghost all_sorted = sort_by_place(messages_at(before, indices), ids);
    let mut left: usize = found.len();
    assert(all_sorted.take(left as int) =~= all_sorted);
    while left > 0
        invariant
            left <= found.len(),
            found.len() == indices.len(),
            all_sorted.len() == indices.len(),
            messages.len() == before.len(),
            forall|k: int| 0 <= k < indices.len() ==> found@[k] == #[trigger] indices[k],
            forall|k: int| 0 <= k < indices.len() ==> 0 <= #[trigger] indices[k] < before.len(),
            forall|j: int, k: int|
                0 <= j < k < indices.len() ==> #[trigger] indices[j] < #[trigger] indices[k],
            conversation::message_views(sorted@) == all_sorted.take(left as int),
            forall|k: int|
                left <= k < indices.len() ==> messages@[#[trigger] indices[k]]@ == all_sorted[k],
            forall|i: int|
                0 <= i < before.len() && !indices.contains(i) ==> #[trigger] messages@[i]@
                    == before[i],
        decreases left,
    {
        left -= 1;
        let ghost sorted_before = conversation::message_views(sorted@);
        assert(sorted_before.len() == sorted.len());
        assert(sorted@[left as int]@ == sorted_before[left as int]);
        if let Some(message) = sorted.pop() {
            let index = found[left];
            assert(message@ == all_sorted[left as int]);
            assert(conversation::message_views(sorted@) =~= all_sorted.take(left as int));
            assert(indices[left as int] == index);
            messages.set(index, message);
        }
    }
}

/// Puts the tool results of each run of messages of the user's side into the
/// order of the calls that the assistant made last.
pub fn sort_tool_results_by_call_order(messages: &mut Vec<InputMessage>)
    ensures
        conversation::message_views(final(messages)@) == results_in_call_order(
            conversation::message_views(old(messages)@),
        ),
{
    let ghost before = conversation::message_views(messages@);
    let mut order: Vec<String> = Vec::new();
    let mut at: usize = 0;
    assert(text::string_views(order@) =~= last_ids_called(before, 0));
    while at < messages.len()
        invariant
            at <= messages.len(),
            messages.len() == before.len(),
            at == 0 || at == before.len() || !is_user_side(before[at - 1]) || !is_user_side(
                before[at as int],
            ),
            text::string_views(order@) == last_ids_called(before, at as int),
            forall|i: int| 0 <= i < at ==> #[trigger] messages@[i]@ == result_in_order(before, i),
            forall|i: int| at <= i < before.len() ==> #[trigger] messages@[i]@ == before[i],
        decreases messages.len() - at,
    {
        if is_user_side_message(&messages[at]) {
            let start = at;
            while at < messages.len() && is_user_side_message(&messages[at])
                invariant
                    start <= at <= messages.len(),
                    messages.len() == before.len(),
                    forall|i: int|
                        start <= i < before.len() ==> #[trigger] messages@[i]@ == before[i],
                    forall|i: int| start <= i < at ==> is_user_side(#[trigger] before[i]),
                decreases messages.len() - at,
            {
                at += 1;
            }
            let ghost present = conversation::message_views(messages@);
            let ghost done = messages@;
            sort_run(messages, start, at, &order);
            proof {
                let after = conversation::message_views(messages@);
                lemma_last_ids_over_run(before, start as int, at as int);
                lemma_indices_agree(before, present, start as int, at as int);
                lemma_result_indices(before, start as int, at as int);
                let indices = result_indices(before, start as int, at as int);
                assert(messages_at(present, indices) =~= messages_at(before, indices));
                assert forall|i: int| 0 <= i < at implies #[trigger] messages@[i]@
                    == result_in_order(before, i) by {
                    assert(messages@[i]@ == after[i]);
                    assert(present[i] == done[i]@);
                    if i >= start {
                        lemma_run(before, start as int, at as int, i);
                        if before[i] is Tool {
                            assert(indices.contains(i));
                            let k = indices.index_of(i);
                            assert(after[indices[k]] == after[i]);
                        } else if indices.contains(i) {
                            let k = indices.index_of(i);
                            assert(before[indices[k]] is Tool);
                        }
                    } else if indices.contains(i) {
                        let k = indices.index_of(i);
                        assert(indices[k] == i);
                    }
                }
                assert forall|i: int| at <= i < before.len() implies #[trigger] messages@[i]@
                    == before[i] by {
                    assert(messages@[i]@ == after[i]);
                    assert(present[i] == done[i]@);
                    if indices.contains(i) {
                        let k = indices.index_of(i);
                        assert(indices[k] == i);
                    }
                }
            }
        } else {
            assert(messages@[at as int]@ == before[at as int]);
            if let Some(ids) = called_ids(&messages[at]) {
                order = ids;
            }
            at += 1;
        }
    }
    assert(conversation::message_views(messages@) =~= results_in_call_order(before));
}

} // verus!
