//! What putting tool results into the order of their calls keeps and achieves.

use crate::conversation::{MessageModel, ToolCallModel};
use crate::v4::tool_order;
use vstd::prelude::*;

verus! {

/// Answers a call that has this place.
pub open spec fn at_place(order: Seq<Seq<char>>, place: int) -> spec_fn(MessageModel) -> bool {
    |message: MessageModel| tool_order::result_place(order, message) == place
}

/// No result stands before one whose call has a smaller place.
pub open spec fn is_sorted(results: Seq<MessageModel>, order: Seq<Seq<char>>) -> bool {
    forall|i: int, j: int|
        0 <= i < j < results.len() ==> tool_order::result_place(order, #[trigger] results[i])
            <= tool_order::result_place(order, #[trigger] results[j])
}

/// After sorting, no result stands before one whose call was made earlier.
pub proof fn law_sort_sorts(results: Seq<MessageModel>, order: Seq<Seq<char>>)
    ensures
        is_sorted(tool_order::sort_by_place(results, order), order),
    decreases results.len(),
{
    if results.len() > 0 {
        law_sort_sorts(results.drop_last(), order);
        lemma_insert_sorted(
            tool_order::sort_by_place(results.drop_last(), order),
            results.last(),
            order,
        );
    }
}

/// Sorting keeps the results, each as often as it was there.
pub proof fn law_sort_permutes(results: Seq<MessageModel>, order: Seq<Seq<char>>)
    ensures
        tool_order::sort_by_place(results, order).to_multiset() == results.to_multiset(),
    decreases results.len(),
{
    if results.len() > 0 {
        let front = results.drop_last();
        law_sort_permutes(front, order);
        lemma_insert_multiset(tool_order::sort_by_place(front, order), results.last(), order);
        assert(front.push(results.last()) =~= results);
        vstd::seq_lib::to_multiset_build(front, results.last());
    }
}

/// Sorting keeps the order of the results that answer calls of one place.
pub proof fn law_sort_is_stable(results: Seq<MessageModel>, order: Seq<Seq<char>>, place: int)
    ensures
        tool_order::sort_by_place(results, order).filter(at_place(order, place))
            == results.filter(at_place(order, place)),
    decreases results.len(),
{
    if results.len() > 0 {
        let front = results.drop_last();
        law_sort_is_stable(front, order, place);
        lemma_insert_filter(tool_order::sort_by_place(front, order), results.last(), order, place);
        assert(front.push(results.last()) =~= results);
        front.lemma_filter_push(results.last(), at_place(order, place));
    }
}

/// Sorted results stay as they are.
pub proof fn law_sort_keeps_sorted(results: Seq<MessageModel>, order: Seq<Seq<char>>)
    requires
        is_sorted(results, order),
    ensures
        tool_order::sort_by_place(results, order) == results,
    decreases results.len(),
{
    if results.len() > 0 {
        let front = results.drop_last();
        assert forall|i: int, j: int| 0 <= i < j < front.len() implies tool_order::result_place(
            order,
            #[trigger] front[i],
        ) <= tool_order::result_place(order, #[trigger] front[j]) by {
            assert(front[i] == results[i] && front[j] == results[j]);
        }
        law_sort_keeps_sorted(front, order);
        if front.len() > 0 {
            assert(front.last() == results[results.len() - 2]);
            assert(results.last() == results[results.len() - 1]);
        }
        assert(front.push(results.last()) =~= results);
    }
}

/// Putting tool results in order moves tool results only: every other message
/// stays where it is, and where a tool result was there is one again.
pub proof fn law_order_moves_results_only(messages: Seq<MessageModel>)
    ensures
        tool_order::results_in_call_order(messages).len() == messages.len(),
        forall|i: int|
            0 <= i < messages.len() ==> (#[trigger] messages[i] is Tool
                <==> tool_order::results_in_call_order(messages)[i] is Tool),
        forall|i: int|
            0 <= i < messages.len() && !(#[trigger] messages[i] is Tool)
                ==> tool_order::results_in_call_order(messages)[i] == messages[i],
{
    assert forall|i: int|
        0 <= i < messages.len() && #[trigger] messages[i] is Tool implies tool_order::results_in_call_order(
    messages)[i] is Tool by {
        let start = tool_order::run_start(messages, i);
        let end = tool_order::run_end(messages, i);
        let indices = tool_order::result_indices(messages, start, end);
        let order = tool_order::last_ids_called(messages, start);
        lemma_run_around(messages, i);
        tool_order::lemma_result_indices(messages, start, end);
        assert(indices.contains(i));
        let picked = tool_order::messages_at(messages, indices);
        assert forall|k: int| 0 <= k < picked.len() implies #[trigger] picked[k] is Tool by {
            assert(picked[k] == messages[indices[k]]);
        }
        lemma_sort_all_tools(picked, order);
        tool_order::lemma_sort_len(picked, order);
    }
}

/// In the run of messages of the user's side around a tool result, the results
/// are those of before, sorted by the places of the calls made last.
pub proof fn law_results_of_run_sorted(messages: Seq<MessageModel>, at: int)
    requires
        0 <= at < messages.len(),
        messages[at] is Tool,
    ensures
        ({
            let start = tool_order::run_start(messages, at);
            let indices = tool_order::result_indices(
                messages,
                start,
                tool_order::run_end(messages, at),
            );
            let order = tool_order::last_ids_called(messages, start);
            &&& indices.contains(at)
            &&& tool_order::messages_at(tool_order::results_in_call_order(messages), indices)
                == tool_order::sort_by_place(tool_order::messages_at(messages, indices), order)
            &&& is_sorted(
                tool_order::messages_at(tool_order::results_in_call_order(messages), indices),
                order,
            )
        }),
{
    let start = tool_order::run_start(messages, at);
    let end = tool_order::run_end(messages, at);
    let indices = tool_order::result_indices(messages, start, end);
    let order = tool_order::last_ids_called(messages, start);
    let picked = tool_order::messages_at(messages, indices);
    let ordered = tool_order::results_in_call_order(messages);
    lemma_run_around(messages, at);
    tool_order::lemma_result_indices(messages, start, end);
    tool_order::lemma_sort_len(picked, order);
    law_sort_sorts(picked, order);
    assert(indices.contains(at));
    lemma_ordered_at_indices(messages, start, end);
    assert(tool_order::messages_at(ordered, indices) =~= tool_order::sort_by_place(picked, order));
}

/// Putting tool results in order a second time changes nothing.
pub proof fn law_order_is_idempotent(messages: Seq<MessageModel>)
    ensures
        tool_order::results_in_call_order(tool_order::results_in_call_order(messages))
            == tool_order::results_in_call_order(messages),
{
    let once = tool_order::results_in_call_order(messages);
    let twice = tool_order::results_in_call_order(once);
    law_order_moves_results_only(messages);
    assert forall|i: int| 0 <= i < messages.len() implies #[trigger] twice[i] == once[i] by {
        assert(once[i] is Tool <==> messages[i] is Tool);
        if messages[i] is Tool {
            let start = tool_order::run_start(messages, i);
            let end = tool_order::run_end(messages, i);
            let indices = tool_order::result_indices(messages, start, end);
            let order = tool_order::last_ids_called(messages, start);
            law_results_of_run_sorted(messages, i);
            lemma_run_around(messages, i);
            lemma_same_runs(messages, once, i);
            lemma_same_last_ids(messages, once, start);
            lemma_same_indices(messages, once, start, end);
            law_sort_keeps_sorted(tool_order::messages_at(once, indices), order);
            let k = indices.index_of(i);
            assert(tool_order::messages_at(once, indices)[k] == once[indices[k]]);
        }
    }
    assert(twice =~= once);
}

/// Putting tool results in order keeps the messages, each as often as it was
/// there.
pub proof fn law_order_permutes(messages: Seq<MessageModel>)
    ensures
        tool_order::results_in_call_order(messages).to_multiset() == messages.to_multiset(),
{
    let ordered = tool_order::results_in_call_order(messages);
    lemma_prefix_permuted(messages, messages.len() as int);
    assert(ordered.take(messages.len() as int) =~= ordered);
    assert(messages.take(messages.len() as int) =~= messages);
}

/// The message makes at least one tool call.
pub open spec fn makes_calls(message: MessageModel) -> bool {
    match message {
        MessageModel::Assistant { tool_calls: Some(calls), .. } => calls.len() > 0,
        _ => false,
    }
}

/// The message at `caller` makes `calls`, and none makes calls between it and
/// `end`.
pub open spec fn made_last(
    messages: Seq<MessageModel>,
    caller: int,
    calls: Seq<ToolCallModel>,
    end: int,
) -> bool {
    &&& 0 <= caller < end <= messages.len()
    &&& messages[caller] matches MessageModel::Assistant { tool_calls: Some(made), .. } && made
        == calls
    &&& calls.len() > 0
    &&& forall|i: int| caller < i < end ==> !makes_calls(#[trigger] messages[i])
}

/// The messages from `start` up to `end` are user messages and tool results, and
/// the ones next to them are neither.
pub open spec fn is_run(messages: Seq<MessageModel>, start: int, end: int) -> bool {
    &&& 0 <= start <= end <= messages.len()
    &&& start == 0 || !(messages[start - 1] is User || messages[start - 1] is Tool)
    &&& end == messages.len() || !(messages[end] is User || messages[end] is Tool)
    &&& forall|i: int|
        start <= i < end ==> (#[trigger] messages[i] is User || messages[i] is Tool)
}

/// Is a tool result that answers a call of this id.
pub open spec fn answers(id: Seq<char>) -> spec_fn(MessageModel) -> bool {
    |message: MessageModel|
        message matches MessageModel::Tool { tool_call_id, .. } && tool_call_id == id
}

/// Is a tool result that answers the first of `calls`, or none of them.
pub open spec fn answers_first(calls: Seq<ToolCallModel>) -> spec_fn(MessageModel) -> bool {
    |message: MessageModel|
        message matches MessageModel::Tool { tool_call_id, .. } && (tool_call_id == calls[0].id
            || forall|k: int| 0 <= k < calls.len() ==> (#[trigger] calls[k]).id != tool_call_id)
}

/// Of the results in a run, one that answers some call stands before every one
/// that answers a call made behind it in the same message. Where an id is given
/// to several calls, its results count for the first of them.
pub proof fn law_results_follow_calls(
    messages: Seq<MessageModel>,
    caller: int,
    calls: Seq<ToolCallModel>,
    start: int,
    end: int,
    i: int,
    j: int,
    x: int,
    y: int,
)
    requires
        made_last(messages, caller, calls, start),
        is_run(messages, start, end),
        0 <= i < j < calls.len(),
        forall|k: int| 0 <= k < j ==> (#[trigger] calls[k]).id != calls[j].id,
        start <= x < end,
        start <= y < end,
        answers(calls[i].id)(tool_order::results_in_call_order(messages)[x]),
        answers(calls[j].id)(tool_order::results_in_call_order(messages)[y]),
    ensures
        x < y,
{
    let ids = tool_order::call_ids(calls);
    lemma_last_ids(messages, caller, calls, start);
    lemma_place_of_call(calls, j);
    ids.index_of_first_ensures(calls[i].id);
    assert(ids[i] == calls[i].id);
    if let Some(place) = ids.index_of_first(calls[i].id) {
        if place > i {
            assert(ids[i] != calls[i].id);
        }
    }
    if y <= x {
        lemma_places_ascend(messages, start, end, y, x);
    }
}

/// A result that answers none of the calls made last stands before every result
/// that answers another call than the first of them.
pub proof fn law_unasked_results_first(
    messages: Seq<MessageModel>,
    caller: int,
    calls: Seq<ToolCallModel>,
    start: int,
    end: int,
    id: Seq<char>,
    j: int,
    x: int,
    y: int,
)
    requires
        made_last(messages, caller, calls, start),
        is_run(messages, start, end),
        forall|k: int| 0 <= k < calls.len() ==> (#[trigger] calls[k]).id != id,
        0 < j < calls.len(),
        forall|k: int| 0 <= k < j ==> (#[trigger] calls[k]).id != calls[j].id,
        start <= x < end,
        start <= y < end,
        answers(id)(tool_order::results_in_call_order(messages)[x]),
        answers(calls[j].id)(tool_order::results_in_call_order(messages)[y]),
    ensures
        x < y,
{
    lemma_last_ids(messages, caller, calls, start);
    lemma_place_of_call(calls, j);
    lemma_place_of_other(calls, id);
    if y <= x {
        lemma_places_ascend(messages, start, end, y, x);
    }
}

/// In each run the results that answer calls of one id are those of before, in
/// the order of before.
pub proof fn law_results_of_one_id_keep_order(
    messages: Seq<MessageModel>,
    start: int,
    end: int,
    id: Seq<char>,
)
    requires
        is_run(messages, start, end),
    ensures
        tool_order::results_in_call_order(messages).subrange(start, end).filter(answers(id))
            == messages.subrange(start, end).filter(answers(id)),
{
    let order = tool_order::last_ids_called(messages, start);
    lemma_run_filter(messages, start, end, tool_order::call_place(order, id), answers(id));
}

/// In each run the results that answer the first call made last, and those that
/// answer none of these calls, are those of before, in the order of before.
pub proof fn law_results_of_first_call_keep_order(
    messages: Seq<MessageModel>,
    caller: int,
    calls: Seq<ToolCallModel>,
    start: int,
    end: int,
)
    requires
        made_last(messages, caller, calls, start),
        is_run(messages, start, end),
    ensures
        tool_order::results_in_call_order(messages).subrange(start, end).filter(
            answers_first(calls),
        ) == messages.subrange(start, end).filter(answers_first(calls)),
{
    let order = tool_order::last_ids_called(messages, start);
    lemma_last_ids(messages, caller, calls, start);
    assert forall|message: MessageModel| #[trigger]
        answers_first(calls)(message) implies tool_order::result_place(order, message) == 0 by {
        if let MessageModel::Tool { tool_call_id, .. } = message {
            if tool_call_id == calls[0].id {
                lemma_place_of_call(calls, 0);
            } else {
                lemma_place_of_other(calls, tool_call_id);
            }
        }
    }
    lemma_run_filter(messages, start, end, 0, answers_first(calls));
}

/// Results that come before any call was made stay as they are.
pub proof fn law_results_without_calls_stay(messages: Seq<MessageModel>, start: int, end: int)
    requires
        is_run(messages, start, end),
        forall|i: int| 0 <= i < start ==> !makes_calls(#[trigger] messages[i]),
    ensures
        tool_order::results_in_call_order(messages).subrange(start, end) == messages.subrange(
            start,
            end,
        ),
{
    let ordered = tool_order::results_in_call_order(messages);
    let indices = tool_order::result_indices(messages, start, end);
    let picked = tool_order::messages_at(messages, indices);
    lemma_no_ids(messages, start);
    tool_order::lemma_sort_one_place(picked, Seq::empty());
    lemma_ordered_at_indices(messages, start, end);
    tool_order::lemma_result_indices(messages, start, end);
    law_order_moves_results_only(messages);
    assert forall|i: int| start <= i < end implies #[trigger] ordered[i] == messages[i] by {
        if messages[i] is Tool {
            assert(indices.contains(i));
            let k = indices.index_of(i);
            assert(ordered[indices[k]] == picked[k]);
        }
    }
    assert(ordered.subrange(start, end) =~= messages.subrange(start, end));
}

/// The ids of the calls made last are those of the message that made them.
proof fn lemma_last_ids(
    messages: Seq<MessageModel>,
    caller: int,
    calls: Seq<ToolCallModel>,
    end: int,
)
    requires
        made_last(messages, caller, calls, end),
    ensures
        tool_order::last_ids_called(messages, end) == tool_order::call_ids(calls),
    decreases end,
{
    if end - 1 > caller {
        assert(!makes_calls(messages[end - 1]));
        lemma_last_ids(messages, caller, calls, end - 1);
    }
}

proof fn lemma_no_ids(messages: Seq<MessageModel>, end: int)
    requires
        0 <= end <= messages.len(),
        forall|i: int| 0 <= i < end ==> !makes_calls(#[trigger] messages[i]),
    ensures
        tool_order::last_ids_called(messages, end) == Seq::<Seq<char>>::empty(),
    decreases end,
{
    if end > 0 {
        assert(!makes_calls(messages[end - 1]));
        lemma_no_ids(messages, end - 1);
    }
}

/// The first call of an id has its own place.
proof fn lemma_place_of_call(calls: Seq<ToolCallModel>, j: int)
    requires
        0 <= j < calls.len(),
        forall|k: int| 0 <= k < j ==> (#[trigger] calls[k]).id != calls[j].id,
    ensures
        tool_order::call_place(tool_order::call_ids(calls), calls[j].id) == j,
{
    let ids = tool_order::call_ids(calls);
    ids.index_of_first_ensures(calls[j].id);
    assert(ids[j] == calls[j].id);
    if let Some(place) = ids.index_of_first(calls[j].id) {
        assert(ids[place] == calls[place].id);
        if j < place {
            assert(ids[j] != calls[j].id);
        }
    }
}

/// A call that was not made has the first place.
proof fn lemma_place_of_other(calls: Seq<ToolCallModel>, id: Seq<char>)
    requires
        forall|k: int| 0 <= k < calls.len() ==> (#[trigger] calls[k]).id != id,
    ensures
        tool_order::call_place(tool_order::call_ids(calls), id) == 0,
{
    let ids = tool_order::call_ids(calls);
    ids.index_of_first_ensures(id);
    if let Some(place) = ids.index_of_first(id) {
        assert(ids[place] == calls[place].id);
    }
}

/// Once in order, the places of a run's results do not descend.
proof fn lemma_places_ascend(messages: Seq<MessageModel>, start: int, end: int, x: int, y: int)
    requires
        is_run(messages, start, end),
        start <= x <= y < end,
        tool_order::results_in_call_order(messages)[x] is Tool,
        tool_order::results_in_call_order(messages)[y] is Tool,
    ensures
        ({
            let order = tool_order::last_ids_called(messages, start);
            let ordered = tool_order::results_in_call_order(messages);
            tool_order::result_place(order, ordered[x]) <= tool_order::result_place(
                order,
                ordered[y],
            )
        }),
{
    let order = tool_order::last_ids_called(messages, start);
    let indices = tool_order::result_indices(messages, start, end);
    law_order_moves_results_only(messages);
    lemma_ordered_at_indices(messages, start, end);
    law_sort_sorts(tool_order::messages_at(messages, indices), order);
    tool_order::lemma_result_indices(messages, start, end);
    assert(messages[x] is Tool && messages[y] is Tool);
    assert(indices.contains(x) && indices.contains(y));
    let j = indices.index_of(x);
    let k = indices.index_of(y);
    assert(indices[j] == x && indices[k] == y);
    if k < j {
        assert(indices[k] < indices[j]);
    }
}

/// What is left of a filter is left of a narrower one too.
proof fn lemma_filter_twice(
    messages: Seq<MessageModel>,
    wide: spec_fn(MessageModel) -> bool,
    narrow: spec_fn(MessageModel) -> bool,
)
    requires
        forall|message: MessageModel| #[trigger] narrow(message) ==> wide(message),
    ensures
        messages.filter(wide).filter(narrow) == messages.filter(narrow),
    decreases messages.len(),
{
    reveal(Seq::filter);
    if messages.len() > 0 {
        let front = messages.drop_last();
        let last = messages.last();
        lemma_filter_twice(front, wide, narrow);
        assert(front.push(last) =~= messages);
        front.lemma_filter_push(last, wide);
        front.lemma_filter_push(last, narrow);
        front.filter(wide).lemma_filter_push(last, narrow);
    }
}

/// What picks tool results only finds them at the indices of the results.
proof fn lemma_filter_of_results(
    messages: Seq<MessageModel>,
    start: int,
    end: int,
    chosen: spec_fn(MessageModel) -> bool,
)
    requires
        0 <= start <= end <= messages.len(),
        forall|message: MessageModel| #[trigger] chosen(message) ==> message is Tool,
    ensures
        tool_order::messages_at(
            messages,
            tool_order::result_indices(messages, start, end),
        ).filter(chosen) == messages.subrange(start, end).filter(chosen),
    decreases end - start,
{
    let indices = tool_order::result_indices(messages, start, end);
    if start < end {
        let last = messages[end - 1];
        let front = messages.subrange(start, end - 1);
        let indices_front = tool_order::result_indices(messages, start, end - 1);
        let picked = tool_order::messages_at(messages, indices_front);
        lemma_filter_of_results(messages, start, end - 1, chosen);
        assert(messages.subrange(start, end) =~= front.push(last));
        front.lemma_filter_push(last, chosen);
        if last is Tool {
            assert(tool_order::messages_at(messages, indices) =~= picked.push(last));
            picked.lemma_filter_push(last, chosen);
        }
    } else {
        assert(tool_order::messages_at(messages, indices) =~= messages.subrange(start, end));
    }
}

/// Results of one place that are picked from a run keep their order.
proof fn lemma_run_filter(
    messages: Seq<MessageModel>,
    start: int,
    end: int,
    place: int,
    chosen: spec_fn(MessageModel) -> bool,
)
    requires
        is_run(messages, start, end),
        forall|message: MessageModel| #[trigger]
            chosen(message) ==> message is Tool && tool_order::result_place(
                tool_order::last_ids_called(messages, start),
                message,
            ) == place,
    ensures
        tool_order::results_in_call_order(messages).subrange(start, end).filter(chosen)
            == messages.subrange(start, end).filter(chosen),
{
    let ordered = tool_order::results_in_call_order(messages);
    let order = tool_order::last_ids_called(messages, start);
    let indices = tool_order::result_indices(messages, start, end);
    let picked = tool_order::messages_at(messages, indices);
    let sorted = tool_order::sort_by_place(picked, order);
    law_order_moves_results_only(messages);
    lemma_same_indices(messages, ordered, start, end);
    lemma_ordered_at_indices(messages, start, end);
    assert(tool_order::messages_at(ordered, indices) =~= sorted);
    lemma_filter_of_results(messages, start, end, chosen);
    lemma_filter_of_results(ordered, start, end, chosen);
    law_sort_is_stable(picked, order, place);
    lemma_filter_twice(picked, at_place(order, place), chosen);
    lemma_filter_twice(sorted, at_place(order, place), chosen);
}

/// It makes no difference whether the results of two parts were put in order
/// before: the whole comes out the same.
pub proof fn law_order_of_parts(first: Seq<MessageModel>, second: Seq<MessageModel>)
    ensures
        tool_order::results_in_call_order(
            tool_order::results_in_call_order(first) + tool_order::results_in_call_order(second),
        ) == tool_order::results_in_call_order(first + second),
{
    let first_ordered = tool_order::results_in_call_order(first);
    let second_ordered = tool_order::results_in_call_order(second);
    let all = first + second;
    let others = first_ordered + second_ordered;
    law_order_moves_results_only(first);
    law_order_moves_results_only(second);
    assert forall|i: int| 0 <= i < all.len() implies (#[trigger] all[i] is Tool
        <==> others[i] is Tool) && (!(all[i] is Tool) ==> others[i] == all[i]) by {
        if i < first.len() {
            assert(first[i] is Tool <==> first_ordered[i] is Tool);
        } else {
            let k = i - first.len();
            assert(second[k] is Tool <==> second_ordered[k] is Tool);
        }
    }
    let whole = tool_order::results_in_call_order(all);
    let whole_other = tool_order::results_in_call_order(others);
    assert forall|at: int| 0 <= at < all.len() implies #[trigger] whole_other[at] == whole[at] by {
        assert(all[at] is Tool <==> others[at] is Tool);
        if all[at] is Tool {
            let start = tool_order::run_start(all, at);
            let end = tool_order::run_end(all, at);
            lemma_run_around(all, at);
            lemma_same_runs(all, others, at);
            lemma_same_last_ids(all, others, start);
            lemma_same_indices(all, others, start, end);
            lemma_sorted_parts(first, second, start, end);
        }
    }
    assert(whole_other =~= whole);
}

/// The tool results from `start` up to `end`.
spec fn results_between(messages: Seq<MessageModel>, start: int, end: int) -> Seq<MessageModel> {
    tool_order::messages_at(messages, tool_order::result_indices(messages, start, end))
}

/// Of a run over two parts, the results come out the same whether those of each
/// part were put in order before or not.
proof fn lemma_sorted_parts(
    first: Seq<MessageModel>,
    second: Seq<MessageModel>,
    start: int,
    end: int,
)
    requires
        is_run(first + second, start, end),
    ensures
        ({
            let all = first + second;
            let others = tool_order::results_in_call_order(first)
                + tool_order::results_in_call_order(second);
            let order = tool_order::last_ids_called(all, start);
            tool_order::sort_by_place(results_between(others, start, end), order)
                == tool_order::sort_by_place(results_between(all, start, end), order)
        }),
{
    let all = first + second;
    let first_ordered = tool_order::results_in_call_order(first);
    let second_ordered = tool_order::results_in_call_order(second);
    let others = first_ordered + second_ordered;
    let order = tool_order::last_ids_called(all, start);
    let cut = first.len() as int;
    if end <= cut {
        assert(is_run(first, start, end)) by {
            assert(start > 0 ==> all[start - 1] == first[start - 1]);
            assert(end < cut ==> all[end] == first[end]);
            assert forall|i: int| start <= i < end implies (#[trigger] first[i] is User || first[i]
                is Tool) by {
                assert(all[i] is User || all[i] is Tool);
            }
        }
        lemma_results_in_first(first, second, start, end);
        lemma_results_in_first(first_ordered, second_ordered, start, end);
        lemma_last_ids_in_first(first, second, start);
        lemma_results_ordered(first, start, end);
        lemma_sort_twice(results_between(first, start, end), order);
    } else if start >= cut {
        let from = start - cut;
        let upto = end - cut;
        lemma_run_in_second(first, second, start, end);
        lemma_results_in_second(first, second, start, end);
        lemma_results_in_second(first_ordered, second_ordered, start, end);
        lemma_results_ordered(second, from, upto);
        let results = results_between(second, from, upto);
        if tool_order::last_ids_called(second, from).len() > 0 {
            lemma_last_ids_in_second(first, second, from);
            lemma_sort_twice(results, order);
        } else {
            tool_order::lemma_sort_one_place(
                results,
                tool_order::last_ids_called(second, from),
            );
        }
    } else {
        assert(is_run(first, start, cut)) by {
            assert(start > 0 ==> all[start - 1] == first[start - 1]);
            assert forall|i: int| start <= i < cut implies (#[trigger] first[i] is User || first[i]
                is Tool) by {
                assert(all[i] is User || all[i] is Tool);
            }
        }
        assert(is_run(second, 0, end - cut)) by {
            assert(end < all.len() ==> all[end] == second[end - cut]);
            assert forall|i: int| 0 <= i < end - cut implies (#[trigger] second[i] is User
                || second[i] is Tool) by {
                assert(all[cut + i] is User || all[cut + i] is Tool);
            }
        }
        lemma_results_cut(all, start, cut, end);
        lemma_results_cut(others, start, cut, end);
        lemma_results_in_first(first, second, start, cut);
        lemma_results_in_first(first_ordered, second_ordered, start, cut);
        lemma_results_in_second(first, second, cut, end);
        lemma_results_in_second(first_ordered, second_ordered, cut, end);
        lemma_last_ids_in_first(first, second, start);
        lemma_results_ordered(first, start, cut);
        lemma_results_ordered(second, 0, end - cut);
        let before = results_between(first, start, cut);
        let behind = results_between(second, 0, end - cut);
        tool_order::lemma_sort_one_place(behind, tool_order::last_ids_called(second, 0));
        lemma_sort_prefix(before, behind, order);
    }
}

proof fn lemma_run_in_second(
    first: Seq<MessageModel>,
    second: Seq<MessageModel>,
    start: int,
    end: int,
)
    requires
        is_run(first + second, start, end),
        first.len() <= start,
    ensures
        is_run(second, start - first.len(), end - first.len()),
{
    let all = first + second;
    let cut = first.len() as int;
    assert(start > cut ==> all[start - 1] == second[start - 1 - cut]);
    assert(end < all.len() ==> all[end] == second[end - cut]);
    assert forall|i: int| start - cut <= i < end - cut implies (#[trigger] second[i] is User
        || second[i] is Tool) by {
        assert(all[cut + i] is User || all[cut + i] is Tool);
    }
}

proof fn lemma_results_in_first(
    first: Seq<MessageModel>,
    second: Seq<MessageModel>,
    start: int,
    end: int,
)
    requires
        0 <= start <= end <= first.len(),
    ensures
        results_between(first + second, start, end) == results_between(first, start, end),
{
    tool_order::lemma_indices_agree(first + second, first, start, end);
    tool_order::lemma_result_indices(first, start, end);
    assert(results_between(first + second, start, end) =~= results_between(first, start, end));
}

proof fn lemma_results_in_second(
    first: Seq<MessageModel>,
    second: Seq<MessageModel>,
    start: int,
    end: int,
)
    requires
        first.len() <= start <= end <= first.len() + second.len(),
    ensures
        results_between(first + second, start, end) == results_between(
            second,
            start - first.len(),
            end - first.len(),
        ),
    decreases end - start,
{
    let all = first + second;
    let cut = first.len() as int;
    if start < end {
        lemma_results_in_second(first, second, start, end - 1);
        assert(all[end - 1] == second[end - 1 - cut]);
        if all[end - 1] is Tool {
            assert(results_between(all, start, end) =~= results_between(all, start, end - 1).push(
                all[end - 1],
            ));
            assert(results_between(second, start - cut, end - cut) =~= results_between(
                second,
                start - cut,
                end - 1 - cut,
            ).push(all[end - 1]));
        }
    } else {
        assert(results_between(all, start, end) =~= results_between(
            second,
            start - cut,
            end - cut,
        ));
    }
}

proof fn lemma_results_cut(messages: Seq<MessageModel>, start: int, cut: int, end: int)
    requires
        0 <= start <= cut <= end <= messages.len(),
    ensures
        results_between(messages, start, end) == results_between(messages, start, cut)
            + results_between(messages, cut, end),
    decreases end - cut,
{
    if cut < end {
        lemma_results_cut(messages, start, cut, end - 1);
        if messages[end - 1] is Tool {
            assert(results_between(messages, start, end) =~= results_between(
                messages,
                start,
                end - 1,
            ).push(messages[end - 1]));
            assert(results_between(messages, cut, end) =~= results_between(
                messages,
                cut,
                end - 1,
            ).push(messages[end - 1]));
        }
    }
    assert(results_between(messages, start, end) =~= results_between(messages, start, cut)
        + results_between(messages, cut, end));
}

proof fn lemma_last_ids_in_first(first: Seq<MessageModel>, second: Seq<MessageModel>, end: int)
    requires
        0 <= end <= first.len(),
    ensures
        tool_order::last_ids_called(first + second, end) == tool_order::last_ids_called(first, end),
    decreases end,
{
    if end > 0 {
        assert((first + second)[end - 1] == first[end - 1]);
        lemma_last_ids_in_first(first, second, end - 1);
    }
}

proof fn lemma_last_ids_in_second(first: Seq<MessageModel>, second: Seq<MessageModel>, end: int)
    requires
        0 <= end <= second.len(),
        tool_order::last_ids_called(second, end).len() > 0,
    ensures
        tool_order::last_ids_called(first + second, first.len() + end)
            == tool_order::last_ids_called(second, end),
    decreases end,
{
    if end > 0 {
        assert((first + second)[first.len() + end - 1] == second[end - 1]);
        if tool_order::ids_called(second[end - 1]) is None {
            lemma_last_ids_in_second(first, second, end - 1);
        }
    }
}

/// Once in order, the results of a run are those of before, sorted.
proof fn lemma_results_ordered(messages: Seq<MessageModel>, start: int, end: int)
    requires
        is_run(messages, start, end),
    ensures
        results_between(tool_order::results_in_call_order(messages), start, end)
            == tool_order::sort_by_place(
            results_between(messages, start, end),
            tool_order::last_ids_called(messages, start),
        ),
{
    law_order_moves_results_only(messages);
    lemma_same_indices(messages, tool_order::results_in_call_order(messages), start, end);
    lemma_ordered_at_indices(messages, start, end);
    assert(results_between(tool_order::results_in_call_order(messages), start, end)
        =~= tool_order::sort_by_place(
        results_between(messages, start, end),
        tool_order::last_ids_called(messages, start),
    ));
}

proof fn lemma_sort_twice(results: Seq<MessageModel>, order: Seq<Seq<char>>)
    ensures
        tool_order::sort_by_place(tool_order::sort_by_place(results, order), order)
            == tool_order::sort_by_place(results, order),
{
    law_sort_sorts(results, order);
    law_sort_keeps_sorted(tool_order::sort_by_place(results, order), order);
}

/// Sorting the first of the results before all of them makes no difference.
proof fn lemma_sort_prefix(
    results: Seq<MessageModel>,
    more: Seq<MessageModel>,
    order: Seq<Seq<char>>,
)
    ensures
        tool_order::sort_by_place(tool_order::sort_by_place(results, order) + more, order)
            == tool_order::sort_by_place(results + more, order),
    decreases more.len(),
{
    let sorted = tool_order::sort_by_place(results, order);
    if more.len() == 0 {
        assert(sorted + more =~= sorted);
        assert(results + more =~= results);
        lemma_sort_twice(results, order);
    } else {
        lemma_sort_prefix(results, more.drop_last(), order);
        assert((sorted + more).drop_last() =~= sorted + more.drop_last());
        assert((results + more).drop_last() =~= results + more.drop_last());
    }
}

proof fn lemma_insert_bounded(
    results: Seq<MessageModel>,
    message: MessageModel,
    order: Seq<Seq<char>>,
    bound: int,
)
    requires
        tool_order::result_place(order, message) <= bound,
        forall|i: int|
            0 <= i < results.len() ==> tool_order::result_place(order, #[trigger] results[i])
                <= bound,
    ensures
        forall|i: int|
            0 <= i < tool_order::insert_by_place(results, message, order).len()
                ==> tool_order::result_place(
                order,
                #[trigger] tool_order::insert_by_place(results, message, order)[i],
            ) <= bound,
    decreases results.len(),
{
    if results.len() > 0 {
        let front = results.drop_last();
        assert(results.last() == results[results.len() - 1]);
        assert forall|i: int| 0 <= i < front.len() implies tool_order::result_place(
            order,
            #[trigger] front[i],
        ) <= bound by {
            assert(front[i] == results[i]);
        }
        lemma_insert_bounded(front, message, order, bound);
        let inserted = tool_order::insert_by_place(results, message, order);
        let in_front = tool_order::insert_by_place(front, message, order);
        assert forall|i: int| 0 <= i < inserted.len() implies tool_order::result_place(
            order,
            #[trigger] inserted[i],
        ) <= bound by {
            if inserted == results.push(message) {
                if i < results.len() {
                    assert(inserted[i] == results[i]);
                }
            } else if i < in_front.len() {
                assert(inserted[i] == in_front[i]);
            }
        }
    }
}

proof fn lemma_insert_sorted(
    results: Seq<MessageModel>,
    message: MessageModel,
    order: Seq<Seq<char>>,
)
    requires
        is_sorted(results, order),
    ensures
        is_sorted(tool_order::insert_by_place(results, message, order), order),
    decreases results.len(),
{
    if results.len() > 0 {
        let front = results.drop_last();
        let last = results.last();
        assert(last == results[results.len() - 1]);
        assert forall|i: int| 0 <= i < front.len() implies tool_order::result_place(
            order,
            #[trigger] front[i],
        ) <= tool_order::result_place(order, last) by {
            assert(front[i] == results[i]);
        }
        assert forall|i: int, j: int| 0 <= i < j < front.len() implies tool_order::result_place(
            order,
            #[trigger] front[i],
        ) <= tool_order::result_place(order, #[trigger] front[j]) by {
            assert(front[i] == results[i] && front[j] == results[j]);
        }
        lemma_insert_sorted(front, message, order);
        let inserted = tool_order::insert_by_place(results, message, order);
        if tool_order::result_place(order, last) <= tool_order::result_place(order, message) {
            assert forall|i: int, j: int|
                0 <= i < j < inserted.len() implies tool_order::result_place(
                order,
                #[trigger] inserted[i],
            ) <= tool_order::result_place(order, #[trigger] inserted[j]) by {
                assert(inserted[i] == results[i]);
                if j < results.len() {
                    assert(inserted[j] == results[j]);
                }
            }
        } else {
            lemma_insert_bounded(
                front,
                message,
                order,
                tool_order::result_place(order, last),
            );
        }
    }
}

proof fn lemma_insert_multiset(
    results: Seq<MessageModel>,
    message: MessageModel,
    order: Seq<Seq<char>>,
)
    ensures
        tool_order::insert_by_place(results, message, order).to_multiset()
            == results.to_multiset().insert(message),
    decreases results.len(),
{
    vstd::seq_lib::to_multiset_build(results, message);
    if results.len() > 0 {
        let front = results.drop_last();
        lemma_insert_multiset(front, message, order);
        vstd::seq_lib::to_multiset_build(
            tool_order::insert_by_place(front, message, order),
            results.last(),
        );
        vstd::seq_lib::to_multiset_build(front, results.last());
        assert(front.push(results.last()) =~= results);
        assert(front.to_multiset().insert(message).insert(results.last())
            =~= front.to_multiset().insert(results.last()).insert(message));
    }
}

proof fn lemma_insert_filter(
    results: Seq<MessageModel>,
    message: MessageModel,
    order: Seq<Seq<char>>,
    place: int,
)
    ensures
        tool_order::insert_by_place(results, message, order).filter(at_place(order, place)) == (
        if tool_order::result_place(order, message) == place {
            results.filter(at_place(order, place)).push(message)
        } else {
            results.filter(at_place(order, place))
        }),
    decreases results.len(),
{
    let chosen = at_place(order, place);
    results.lemma_filter_push(message, chosen);
    if results.len() > 0 {
        let front = results.drop_last();
        lemma_insert_filter(front, message, order, place);
        tool_order::insert_by_place(front, message, order).lemma_filter_push(
            results.last(),
            chosen,
        );
        front.lemma_filter_push(results.last(), chosen);
        assert(front.push(results.last()) =~= results);
    }
}

proof fn lemma_insert_all_tools(
    results: Seq<MessageModel>,
    message: MessageModel,
    order: Seq<Seq<char>>,
)
    requires
        message is Tool,
        forall|i: int| 0 <= i < results.len() ==> #[trigger] results[i] is Tool,
    ensures
        forall|i: int|
            0 <= i < tool_order::insert_by_place(results, message, order).len()
                ==> #[trigger] tool_order::insert_by_place(results, message, order)[i] is Tool,
    decreases results.len(),
{
    if results.len() > 0 {
        let front = results.drop_last();
        assert(results.last() == results[results.len() - 1]);
        assert forall|i: int| 0 <= i < front.len() implies #[trigger] front[i] is Tool by {
            assert(front[i] == results[i]);
        }
        lemma_insert_all_tools(front, message, order);
    }
}

proof fn lemma_sort_all_tools(results: Seq<MessageModel>, order: Seq<Seq<char>>)
    requires
        forall|i: int| 0 <= i < results.len() ==> #[trigger] results[i] is Tool,
    ensures
        forall|i: int|
            0 <= i < tool_order::sort_by_place(results, order).len()
                ==> #[trigger] tool_order::sort_by_place(results, order)[i] is Tool,
    decreases results.len(),
{
    if results.len() > 0 {
        let front = results.drop_last();
        assert(results.last() == results[results.len() - 1]);
        assert forall|i: int| 0 <= i < front.len() implies #[trigger] front[i] is Tool by {
            assert(front[i] == results[i]);
        }
        lemma_sort_all_tools(front, order);
        lemma_insert_all_tools(tool_order::sort_by_place(front, order), results.last(), order);
    }
}

proof fn lemma_run_start_bounds(messages: Seq<MessageModel>, at: int)
    requires
        0 <= at <= messages.len(),
    ensures
        0 <= tool_order::run_start(messages, at) <= at,
        tool_order::run_start(messages, at) == 0 || !tool_order::is_user_side(
            messages[tool_order::run_start(messages, at) - 1],
        ),
        forall|i: int|
            tool_order::run_start(messages, at) <= i < at ==> tool_order::is_user_side(
                #[trigger] messages[i],
            ),
    decreases at,
{
    if at > 0 && tool_order::is_user_side(messages[at - 1]) {
        lemma_run_start_bounds(messages, at - 1);
    }
}

proof fn lemma_run_end_bounds(messages: Seq<MessageModel>, at: int)
    requires
        0 <= at <= messages.len(),
    ensures
        at <= tool_order::run_end(messages, at) <= messages.len(),
        tool_order::run_end(messages, at) == messages.len() || !tool_order::is_user_side(
            messages[tool_order::run_end(messages, at)],
        ),
        forall|i: int|
            at <= i < tool_order::run_end(messages, at) ==> tool_order::is_user_side(
                #[trigger] messages[i],
            ),
    decreases messages.len() - at,
{
    if at < messages.len() && tool_order::is_user_side(messages[at]) {
        lemma_run_end_bounds(messages, at + 1);
    }
}

/// A message of the user's side has a run around it.
proof fn lemma_run_around(messages: Seq<MessageModel>, at: int)
    requires
        0 <= at < messages.len(),
        tool_order::is_user_side(messages[at]),
    ensures
        is_run(messages, tool_order::run_start(messages, at), tool_order::run_end(messages, at)),
        tool_order::run_start(messages, at) <= at < tool_order::run_end(messages, at),
{
    lemma_run_start_bounds(messages, at);
    lemma_run_end_bounds(messages, at);
    lemma_run_end_bounds(messages, at + 1);
}

/// Once in order, the messages at the indices of a run's results are those
/// results, sorted.
proof fn lemma_ordered_at_indices(messages: Seq<MessageModel>, start: int, end: int)
    requires
        is_run(messages, start, end),
    ensures
        ({
            let indices = tool_order::result_indices(messages, start, end);
            let sorted = tool_order::sort_by_place(
                tool_order::messages_at(messages, indices),
                tool_order::last_ids_called(messages, start),
            );
            &&& sorted.len() == indices.len()
            &&& forall|k: int|
                0 <= k < indices.len() ==> tool_order::results_in_call_order(
                    messages,
                )[#[trigger] indices[k]] == sorted[k]
        }),
{
    let indices = tool_order::result_indices(messages, start, end);
    let picked = tool_order::messages_at(messages, indices);
    let order = tool_order::last_ids_called(messages, start);
    let sorted = tool_order::sort_by_place(picked, order);
    tool_order::lemma_result_indices(messages, start, end);
    tool_order::lemma_sort_len(picked, order);
    assert forall|k: int| 0 <= k < indices.len() implies tool_order::results_in_call_order(
        messages,
    )[#[trigger] indices[k]] == sorted[k] by {
        let at = indices[k];
        tool_order::lemma_run(messages, start, end, at);
        assert(messages[at] is Tool);
        assert(indices.contains(at));
        let j = indices.index_of(at);
        assert(indices[j] == at);
        if j < k {
            assert(indices[j] < indices[k]);
        } else if k < j {
            assert(indices[k] < indices[j]);
        }
    }
}

/// `others` has tool results where `messages` has, and else the same messages.
spec fn differs_in_results(messages: Seq<MessageModel>, others: Seq<MessageModel>) -> bool {
    &&& messages.len() == others.len()
    &&& forall|i: int|
        0 <= i < messages.len() ==> (#[trigger] messages[i] is Tool <==> others[i] is Tool)
    &&& forall|i: int|
        0 <= i < messages.len() && !(#[trigger] messages[i] is Tool) ==> others[i] == messages[i]
}

proof fn lemma_same_runs(messages: Seq<MessageModel>, others: Seq<MessageModel>, at: int)
    requires
        0 <= at <= messages.len(),
        differs_in_results(messages, others),
    ensures
        tool_order::run_start(messages, at) == tool_order::run_start(others, at),
        tool_order::run_end(messages, at) == tool_order::run_end(others, at),
{
    lemma_same_run_start(messages, others, at);
    lemma_same_run_end(messages, others, at);
}

proof fn lemma_same_run_start(messages: Seq<MessageModel>, others: Seq<MessageModel>, at: int)
    requires
        0 <= at <= messages.len(),
        differs_in_results(messages, others),
    ensures
        tool_order::run_start(messages, at) == tool_order::run_start(others, at),
    decreases at,
{
    if at > 0 {
        assert(messages[at - 1] is Tool <==> others[at - 1] is Tool);
        lemma_same_run_start(messages, others, at - 1);
    }
}

proof fn lemma_same_run_end(messages: Seq<MessageModel>, others: Seq<MessageModel>, at: int)
    requires
        0 <= at <= messages.len(),
        differs_in_results(messages, others),
    ensures
        tool_order::run_end(messages, at) == tool_order::run_end(others, at),
    decreases messages.len() - at,
{
    if at < messages.len() {
        assert(messages[at] is Tool <==> others[at] is Tool);
        lemma_same_run_end(messages, others, at + 1);
    }
}

proof fn lemma_same_last_ids(messages: Seq<MessageModel>, others: Seq<MessageModel>, end: int)
    requires
        0 <= end <= messages.len(),
        differs_in_results(messages, others),
    ensures
        tool_order::last_ids_called(messages, end) == tool_order::last_ids_called(others, end),
    decreases end,
{
    if end > 0 {
        assert(messages[end - 1] is Tool <==> others[end - 1] is Tool);
        lemma_same_last_ids(messages, others, end - 1);
    }
}

proof fn lemma_same_indices(
    messages: Seq<MessageModel>,
    others: Seq<MessageModel>,
    start: int,
    end: int,
)
    requires
        0 <= start,
        end <= messages.len(),
        differs_in_results(messages, others),
    ensures
        tool_order::result_indices(messages, start, end) == tool_order::result_indices(
            others,
            start,
            end,
        ),
    decreases end - start,
{
    if end > start {
        assert(messages[end - 1] is Tool <==> others[end - 1] is Tool);
        lemma_same_indices(messages, others, start, end - 1);
    }
}

/// The indices of a part of a run come first among those of the run.
proof fn lemma_indices_prefix(messages: Seq<MessageModel>, start: int, upto: int, end: int)
    requires
        start <= upto <= end,
    ensures
        tool_order::result_indices(messages, start, upto).len() <= tool_order::result_indices(
            messages,
            start,
            end,
        ).len(),
        tool_order::result_indices(messages, start, upto) == tool_order::result_indices(
            messages,
            start,
            end,
        ).take(tool_order::result_indices(messages, start, upto).len() as int),
    decreases end - upto,
{
    let part = tool_order::result_indices(messages, start, upto);
    let whole = tool_order::result_indices(messages, start, end);
    if upto == end {
        assert(whole.take(whole.len() as int) =~= whole);
    } else {
        lemma_indices_prefix(messages, start, upto, end - 1);
        assert(whole.take(part.len() as int) =~= tool_order::result_indices(
            messages,
            start,
            end - 1,
        ).take(part.len() as int));
    }
}

/// The messages of a run before `upto`, before and after sorting: the others
/// are the same, and the results are the first ones of before and after.
proof fn lemma_run_parts(messages: Seq<MessageModel>, start: int, upto: int, end: int)
    requires
        start <= upto <= end,
        is_run(messages, start, end),
    ensures
        ({
            let part = tool_order::result_indices(messages, start, upto);
            let indices = tool_order::result_indices(messages, start, end);
            let sorted = tool_order::sort_by_place(
                tool_order::messages_at(messages, indices),
                tool_order::last_ids_called(messages, start),
            );
            let ordered = tool_order::results_in_call_order(messages);
            ordered.subrange(start, upto).to_multiset().add(
                tool_order::messages_at(messages, part).to_multiset(),
            ) == messages.subrange(start, upto).to_multiset().add(
                sorted.take(part.len() as int).to_multiset(),
            )
        }),
    decreases upto - start,
{
    let indices = tool_order::result_indices(messages, start, end);
    let picked = tool_order::messages_at(messages, indices);
    let sorted = tool_order::sort_by_place(
        picked,
        tool_order::last_ids_called(messages, start),
    );
    let ordered = tool_order::results_in_call_order(messages);
    let part = tool_order::result_indices(messages, start, upto);
    lemma_ordered_at_indices(messages, start, end);
    if upto == start {
        assert(ordered.subrange(start, upto) =~= messages.subrange(start, upto));
        assert(tool_order::messages_at(messages, part) =~= sorted.take(part.len() as int));
    } else {
        let at = upto - 1;
        lemma_run_parts(messages, start, at, end);
        lemma_indices_prefix(messages, start, at, end);
        lemma_indices_prefix(messages, start, upto, end);
        let less = tool_order::result_indices(messages, start, at);
        let count = less.len() as int;
        let ordered_less = ordered.subrange(start, at);
        let messages_less = messages.subrange(start, at);
        assert(ordered.subrange(start, upto) =~= ordered_less.push(ordered[at]));
        assert(messages.subrange(start, upto) =~= messages_less.push(messages[at]));
        vstd::seq_lib::to_multiset_build(ordered_less, ordered[at]);
        vstd::seq_lib::to_multiset_build(messages_less, messages[at]);
        if messages[at] is Tool {
            assert(part == less.push(at));
            assert(indices.take(count + 1)[count] == at);
            assert(indices[count] == at);
            assert(ordered[at] == sorted[count]);
            let picked_less = tool_order::messages_at(messages, less);
            let sorted_less = sorted.take(count);
            assert(tool_order::messages_at(messages, part) =~= picked_less.push(messages[at]));
            assert(sorted.take(count + 1) =~= sorted_less.push(sorted[count]));
            vstd::seq_lib::to_multiset_build(picked_less, messages[at]);
            vstd::seq_lib::to_multiset_build(sorted_less, sorted[count]);
            assert(ordered_less.to_multiset().insert(ordered[at]).add(
                picked_less.to_multiset().insert(messages[at]),
            ) =~= ordered_less.to_multiset().add(picked_less.to_multiset()).insert(
                ordered[at],
            ).insert(messages[at]));
            assert(messages_less.to_multiset().insert(messages[at]).add(
                sorted_less.to_multiset().insert(ordered[at]),
            ) =~= messages_less.to_multiset().add(sorted_less.to_multiset()).insert(
                ordered[at],
            ).insert(messages[at]));
        } else {
            assert(ordered[at] == messages[at]);
            let x = ordered[at];
            assert(ordered_less.to_multiset().insert(x).add(
                tool_order::messages_at(messages, part).to_multiset(),
            ) =~= ordered_less.to_multiset().add(
                tool_order::messages_at(messages, part).to_multiset(),
            ).insert(x));
            assert(messages_less.to_multiset().insert(x).add(
                sorted.take(count).to_multiset(),
            ) =~= messages_less.to_multiset().add(sorted.take(count).to_multiset()).insert(x));
        }
    }
}

/// Up to a bound between runs, the messages are the same, each as often.
proof fn lemma_prefix_permuted(messages: Seq<MessageModel>, upto: int)
    requires
        0 <= upto <= messages.len(),
        upto == 0 || upto == messages.len() || !tool_order::is_user_side(messages[upto - 1])
            || !tool_order::is_user_side(messages[upto]),
    ensures
        tool_order::results_in_call_order(messages).take(upto).to_multiset() == messages.take(
            upto,
        ).to_multiset(),
    decreases upto,
{
    let ordered = tool_order::results_in_call_order(messages);
    if upto == 0 {
        assert(ordered.take(0) =~= messages.take(0));
    } else if !tool_order::is_user_side(messages[upto - 1]) {
        lemma_prefix_permuted(messages, upto - 1);
        let last = messages[upto - 1];
        assert(ordered.take(upto) =~= ordered.take(upto - 1).push(last));
        assert(messages.take(upto) =~= messages.take(upto - 1).push(last));
        vstd::seq_lib::to_multiset_build(ordered.take(upto - 1), last);
        vstd::seq_lib::to_multiset_build(messages.take(upto - 1), last);
    } else {
        let start = tool_order::run_start(messages, upto - 1);
        lemma_run_around(messages, upto - 1);
        lemma_run_start_bounds(messages, upto - 1);
        tool_order::lemma_run(messages, start, upto, upto - 1);
        lemma_prefix_permuted(messages, start);
        lemma_run_parts(messages, start, upto, upto);
        let indices = tool_order::result_indices(messages, start, upto);
        let order = tool_order::last_ids_called(messages, start);
        let picked = tool_order::messages_at(messages, indices);
        let sorted = tool_order::sort_by_place(picked, order);
        law_sort_permutes(picked, order);
        tool_order::lemma_sort_len(picked, order);
        assert(sorted.take(indices.len() as int) =~= sorted);
        let ordered_run = ordered.subrange(start, upto);
        let messages_run = messages.subrange(start, upto);
        assert(ordered_run.to_multiset() =~= messages_run.to_multiset()) by {
            assert forall|x: MessageModel| #[trigger]
                ordered_run.to_multiset().count(x) == messages_run.to_multiset().count(x) by {
                assert(ordered_run.to_multiset().add(picked.to_multiset()).count(x)
                    == messages_run.to_multiset().add(sorted.to_multiset()).count(x));
            }
        }
        assert(ordered.take(upto) =~= ordered.take(start) + ordered_run);
        assert(messages.take(upto) =~= messages.take(start) + messages_run);
        vstd::seq_lib::lemma_multiset_commutative(ordered.take(start), ordered_run);
        vstd::seq_lib::lemma_multiset_commutative(messages.take(start), messages_run);
    }
}

} // verus!
