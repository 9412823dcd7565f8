//! What tools and tool calls look like in a prompt, whatever they are.

use crate::conversation::{ToolCallModel, ToolDefinitionModel};
use crate::json;
use crate::text;
use crate::v4::encode;
use crate::v4::normal_laws::{holds_text, lemma_holds_around, lemma_holds_itself};
use crate::v4::render::SegmentModel;
use crate::v4::tool_segments;
use crate::v4::tools;
use crate::v4::{Markup, DSML_SP_TOKEN};
use serde_json::Value;
use vstd::prelude::*;

verus! {

/// The text of an argument: that of a JSON string itself, else the JSON text.
pub open spec fn value_text(value: Value, json: spec_fn(Value) -> Seq<char>) -> Seq<char> {
    match json::string_content(value) {
        Some(text) => text,
        None => json(value),
    }
}

/// The keys and texts of arguments, one behind the other, as content.
pub open spec fn argument_contents(
    entries: Seq<(Seq<char>, Value)>,
    json: spec_fn(Value) -> Seq<char>,
) -> Seq<SegmentModel>
    decreases entries.len(),
{
    if entries.len() == 0 {
        Seq::empty()
    } else {
        argument_contents(entries.drop_last(), json) + seq![
            (false, entries.last().0),
            (false, value_text(entries.last().1, json)),
        ]
    }
}

/// The name of a tool call and its arguments as content. A text that is no JSON
/// object counts as an argument of the key `arguments`.
pub open spec fn call_contents(
    call: ToolCallModel,
    json: spec_fn(Value) -> Seq<char>,
) -> Seq<SegmentModel> {
    seq![(false, call.name)] + (match json::parsed_object(call.arguments) {
        Some(entries) => argument_contents(entries, json),
        None => seq![(false, "arguments"@), (false, call.arguments)],
    })
}

/// The names and arguments of tool calls, one call behind the other, as content.
pub open spec fn all_call_contents(
    calls: Seq<ToolCallModel>,
    json: spec_fn(Value) -> Seq<char>,
) -> Seq<SegmentModel>
    decreases calls.len(),
{
    if calls.len() == 0 {
        Seq::empty()
    } else {
        all_call_contents(calls.drop_last(), json) + call_contents(calls.last(), json)
    }
}

/// Is a content segment.
pub open spec fn is_content() -> spec_fn(SegmentModel) -> bool {
    |segment: SegmentModel| !segment.0
}

/// The content segments among `segments`.
pub open spec fn contents(segments: Seq<SegmentModel>) -> Seq<SegmentModel> {
    segments.filter(is_content())
}

/// A parameter of a tool call shows its key and its value as they are.
pub proof fn law_parameter_element(
    dsml_token: Seq<char>,
    tag_name: Seq<char>,
    key: Seq<char>,
    is_str: Seq<char>,
    value: Seq<char>,
)
    ensures
        tools::parameter_element(dsml_token, tag_name, key, is_str, value) == "<"@ + dsml_token
            + tag_name + " name=\""@ + key + "\" string=\""@ + is_str + "\">"@ + value + "</"@
            + dsml_token + tag_name + ">"@,
{
    let pieces = seq![
        "<"@,
        dsml_token,
        tag_name,
        " name=\""@,
        key,
        "\" string=\""@,
        is_str,
        "\">"@,
        value,
        "</"@,
        dsml_token,
        tag_name,
        ">"@,
    ];
    lemma_flatten_is_chain(pieces);
    reveal_with_fuel(chained, 14);
}

/// A tool call shows its name and its arguments as they are.
pub proof fn law_tool_call_element(markup: Markup, name: Seq<char>, arguments: Seq<char>)
    ensures
        tools::tool_call_element(markup, name, arguments) == "<"@ + DSML_SP_TOKEN@
            + markup.tool_call_tag_name + " name=\""@ + name + "\">\n"@ + arguments + "\n</"@
            + DSML_SP_TOKEN@ + markup.tool_call_tag_name + ">"@,
{
    let pieces = seq![
        "<"@,
        DSML_SP_TOKEN@,
        markup.tool_call_tag_name,
        " name=\""@,
        name,
        "\">\n"@,
        arguments,
        "\n</"@,
        DSML_SP_TOKEN@,
        markup.tool_call_tag_name,
        ">"@,
    ];
    lemma_flatten_is_chain(pieces);
    reveal_with_fuel(chained, 12);
}

/// A block of tool calls shows the calls as they are.
pub proof fn law_tool_calls_block(markup: Markup, tool_calls: Seq<char>)
    ensures
        tools::tool_calls_block(markup, tool_calls) == "<"@ + DSML_SP_TOKEN@
            + markup.tool_calls_block_name + ">\n"@ + tool_calls + "\n</"@ + DSML_SP_TOKEN@
            + markup.tool_calls_block_name + ">"@,
{
    let pieces = seq![
        "<"@,
        DSML_SP_TOKEN@,
        markup.tool_calls_block_name,
        ">\n"@,
        tool_calls,
        "\n</"@,
        DSML_SP_TOKEN@,
        markup.tool_calls_block_name,
        ">"@,
    ];
    lemma_flatten_is_chain(pieces);
    reveal_with_fuel(chained, 10);
}

/// Each argument is a parameter that says whether it is a string, with its text.
pub proof fn law_one_argument(
    key: Seq<char>,
    value: Value,
    tag_name: Seq<char>,
    json: spec_fn(Value) -> Seq<char>,
)
    ensures
        tools::argument_elements(seq![(key, value)], tag_name, json) == tools::parameter_element(
            DSML_SP_TOKEN@,
            tag_name,
            key,
            if json::string_content(value) is Some {
                "true"@
            } else {
                "false"@
            },
            value_text(value, json),
        ),
        tools::argument_elements(Seq::empty(), tag_name, json) == Seq::<char>::empty(),
{
    let element = tools::argument_element((key, value), tag_name, json);
    assert(seq![(key, value)].map_values(
        |entry: (Seq<char>, Value)| tools::argument_element(entry, tag_name, json),
    ) =~= seq![element]);
    text::law_joined_one(element, "\n"@);
    assert(Seq::<(Seq<char>, Value)>::empty().map_values(
        |entry: (Seq<char>, Value)| tools::argument_element(entry, tag_name, json),
    ) =~= Seq::empty());
}

/// Arguments stand one behind the other, each on lines of its own.
pub proof fn law_arguments_in_order(
    entries: Seq<(Seq<char>, Value)>,
    others: Seq<(Seq<char>, Value)>,
    tag_name: Seq<char>,
    json: spec_fn(Value) -> Seq<char>,
)
    requires
        entries.len() > 0,
        others.len() > 0,
    ensures
        tools::argument_elements(entries + others, tag_name, json) == tools::argument_elements(
            entries,
            tag_name,
            json,
        ) + "\n"@ + tools::argument_elements(others, tag_name, json),
{
    let element = |entry: (Seq<char>, Value)| tools::argument_element(entry, tag_name, json);
    assert((entries + others).map_values(element) =~= entries.map_values(element)
        + others.map_values(element));
    text::law_joined_parts(entries.map_values(element), others.map_values(element), "\n"@);
}

/// The entries of a JSON object are the arguments of a tool call; a text that is
/// no JSON object is one argument, a string of the key `arguments`.
pub proof fn law_arguments_text(
    arguments: Seq<char>,
    tag_name: Seq<char>,
    json: spec_fn(Value) -> Seq<char>,
)
    ensures
        json::parsed_object(arguments) matches Some(entries) ==> tools::tool_arguments_text(
            arguments,
            tag_name,
            json,
        ) == tools::argument_elements(entries, tag_name, json),
        json::parsed_object(arguments) is None ==> tools::tool_arguments_text(
            arguments,
            tag_name,
            json,
        ) == tools::parameter_element(
            DSML_SP_TOKEN@,
            tag_name,
            "arguments"@,
            "true"@,
            arguments,
        ),
{
}

/// A tool call shows its name and arguments; without calls there is no text.
pub proof fn law_one_call(
    markup: Markup,
    call: ToolCallModel,
    json: spec_fn(Value) -> Seq<char>,
)
    ensures
        tools::tool_calls_text(markup, seq![call], json) == tools::tool_call_element(
            markup,
            call.name,
            tools::tool_arguments_text(call.arguments, markup.tool_parameter_tag_name, json),
        ),
        tools::tool_calls_text(markup, Seq::empty(), json) == Seq::<char>::empty(),
{
    let element = tools::tool_call_text(markup, call, json);
    assert(seq![call].map_values(|call: ToolCallModel| tools::tool_call_text(markup, call, json))
        =~= seq![element]);
    text::law_joined_one(element, "\n"@);
    assert(Seq::<ToolCallModel>::empty().map_values(
        |call: ToolCallModel| tools::tool_call_text(markup, call, json),
    ) =~= Seq::empty());
}

/// Tool calls stand one behind the other, each on lines of its own.
pub proof fn law_calls_in_order(
    markup: Markup,
    calls: Seq<ToolCallModel>,
    others: Seq<ToolCallModel>,
    json: spec_fn(Value) -> Seq<char>,
)
    requires
        calls.len() > 0,
        others.len() > 0,
    ensures
        tools::tool_calls_text(markup, calls + others, json) == tools::tool_calls_text(
            markup,
            calls,
            json,
        ) + "\n"@ + tools::tool_calls_text(markup, others, json),
{
    let element = |call: ToolCallModel| tools::tool_call_text(markup, call, json);
    assert((calls + others).map_values(element) =~= calls.map_values(element) + others.map_values(
        element,
    ));
    text::law_joined_parts(calls.map_values(element), others.map_values(element), "\n"@);
}

/// The segments of tool calls make up their block, set off by an empty line;
/// without calls there are none.
pub proof fn law_call_segments_text(
    markup: Markup,
    tool_calls: Option<Seq<ToolCallModel>>,
    json: spec_fn(Value) -> Seq<char>,
)
    ensures
        tool_calls matches Some(calls) && calls.len() > 0 ==> encode::prompt_text(
            tool_segments::tool_calls_parts(markup, tool_calls, json),
        ) == "\n\n"@ + tools::tool_calls_block(
            markup,
            tools::tool_calls_text(markup, tool_calls->0, json),
        ),
        tool_calls is None || tool_calls->0.len() == 0 ==> tool_segments::tool_calls_parts(
            markup,
            tool_calls,
            json,
        ).len() == 0,
{
    tool_segments::law_tool_calls_text(markup, tool_calls, json);
    if let Some(calls) = tool_calls {
        let pieces = seq![
            "\n\n"@,
            tools::tool_calls_block(markup, tools::tool_calls_text(markup, calls, json)),
        ];
        lemma_flatten_is_chain(pieces);
        reveal_with_fuel(chained, 3);
    }
}

/// The content of tool calls is the name of each, followed by the keys and texts
/// of its arguments.
pub proof fn law_call_contents(
    markup: Markup,
    calls: Seq<ToolCallModel>,
    json: spec_fn(Value) -> Seq<char>,
)
    ensures
        contents(tool_segments::tool_calls_parts(markup, Some(calls), json)) == all_call_contents(
            calls,
            json,
        ),
{
    let opening = tool_segments::block_opening(markup);
    let closing = tool_segments::block_closing(markup);
    let parts = tool_segments::calls_parts(markup, calls, json);
    if calls.len() > 0 {
        lemma_gathered_contents(opening + parts + closing);
        lemma_contents_add(opening + parts, closing);
        lemma_contents_add(opening, parts);
        lemma_no_contents(opening);
        lemma_no_contents(closing);
        lemma_calls_contents(markup, calls, json);
        assert(contents(opening) + contents(parts) + contents(closing) =~= contents(parts));
    } else {
        lemma_no_contents(Seq::empty());
    }
}

/// The segments of tool calls start and end with markup, and what is markup
/// between two pieces of content is one segment.
pub proof fn law_call_markup(
    markup: Markup,
    calls: Seq<ToolCallModel>,
    json: spec_fn(Value) -> Seq<char>,
)
    requires
        calls.len() > 0,
    ensures
        ({
            let segments = tool_segments::tool_calls_parts(markup, Some(calls), json);
            &&& segments.len() > 0
            &&& segments[0].0
            &&& segments.last().0
            &&& forall|i: int, j: int|
                0 <= i && j == i + 1 && j < segments.len() && (#[trigger] segments[i]).0 ==> !(
                #[trigger] segments[j]).0
        }),
{
    let opening = tool_segments::block_opening(markup);
    let closing = tool_segments::block_closing(markup);
    let parts = opening + tool_segments::calls_parts(markup, calls, json) + closing;
    assert(parts[0] == opening[0]);
    assert(parts.last() == closing.last());
    lemma_gathered_markup(parts);
}

/// The entries of a JSON object, as segments, have the text of the arguments and
/// their keys and texts as content.
pub proof fn law_argument_segments(
    entries: Seq<(Seq<char>, Value)>,
    tag_name: Seq<char>,
    json: spec_fn(Value) -> Seq<char>,
)
    ensures
        ({
            let segments = tool_segments::gathered(
                tool_segments::object_parts(entries, tag_name, json),
            );
            &&& contents(segments) == argument_contents(entries, json)
            &&& encode::prompt_text(segments) == tools::argument_elements(entries, tag_name, json)
        }),
{
    let parts = tool_segments::object_parts(entries, tag_name, json);
    lemma_gathered_contents(parts);
    lemma_object_contents(entries, tag_name, json);
    tool_segments::lemma_gathered_text(parts);
    tool_segments::lemma_object_text(entries, tag_name, json);
}

/// The schema of a tool is a JSON object of its name, its description, which is
/// empty if there is none, and its parameters.
pub proof fn law_tool_schema(tool: ToolDefinitionModel)
    ensures
        tool.description matches Some(description) ==> tools::tool_schema_value(tool)
            == json::object_value(
            seq![
                ("name"@, json::string_value(tool.name)),
                ("description"@, json::string_value(description)),
                ("parameters"@, tool.parameters),
            ],
        ),
        tool.description is None ==> tools::tool_schema_value(tool) == json::object_value(
            seq![
                ("name"@, json::string_value(tool.name)),
                ("description"@, json::string_value(Seq::empty())),
                ("parameters"@, tool.parameters),
            ],
        ),
{
}

/// The schemas of tools stand one behind the other, each on a line of its own.
pub proof fn law_schemas_in_order(
    tools: Seq<ToolDefinitionModel>,
    others: Seq<ToolDefinitionModel>,
    json: spec_fn(Value) -> Seq<char>,
)
    requires
        tools.len() > 0,
        others.len() > 0,
    ensures
        tools::tool_schemas_text(tools + others, json) == tools::tool_schemas_text(tools, json)
            + "\n"@ + tools::tool_schemas_text(others, json),
{
    let schema = |tool: ToolDefinitionModel| json(tools::tool_schema_value(tool));
    assert((tools + others).map_values(schema) =~= tools.map_values(schema) + others.map_values(
        schema,
    ));
    text::law_joined_parts(tools.map_values(schema), others.map_values(schema), "\n"@);
}

/// The schema of a tool is written as JSON.
pub proof fn law_one_schema(tool: ToolDefinitionModel, json: spec_fn(Value) -> Seq<char>)
    ensures
        tools::tool_schemas_text(seq![tool], json) == json(tools::tool_schema_value(tool)),
{
    let schema = |tool: ToolDefinitionModel| json(tools::tool_schema_value(tool));
    assert(seq![tool].map_values(schema) =~= seq![schema(tool)]);
    text::law_joined_one(schema(tool), "\n"@);
}

/// The prompt that presents tools shows the schemas as they are, and around them
/// the same for all tools.
pub proof fn law_tool_prompt(markup: Markup, schemas: Seq<char>, others: Seq<char>)
    ensures
        exists|before: Seq<char>, behind: Seq<char>|
            tools::tool_prompt_text(markup, schemas) == #[trigger] (before + schemas + behind)
                && tools::tool_prompt_text(markup, others) == before + others + behind,
{
    let before = tools::tool_prompt_opening(markup).flatten();
    let behind =
        "\n\nYou MUST strictly follow the above defined tool name and parameter schemas to invoke tool calls.\n"@;
    lemma_tool_prompt_parts(markup, schemas);
    lemma_tool_prompt_parts(markup, others);
    assert(tools::tool_prompt_text(markup, schemas) == before + schemas + behind);
}

/// The same text, or a name of the markup or the schemas on either side.
pub open spec fn is_counterpart(
    markup: Markup,
    schemas: Seq<char>,
    piece: Seq<char>,
    other: Markup,
    other_schemas: Seq<char>,
    other_piece: Seq<char>,
) -> bool {
    ||| piece == other_piece
    ||| piece == markup.tool_calls_block_name && other_piece == other.tool_calls_block_name
    ||| piece == markup.tool_call_tag_name && other_piece == other.tool_call_tag_name
    ||| piece == markup.tool_parameter_tag_name && other_piece == other.tool_parameter_tag_name
    ||| piece == schemas && other_piece == other_schemas
}

/// Only the names of the markup and the schemas tell one prompt that presents
/// tools from another.
pub proof fn law_tool_prompt_by_names(
    markup: Markup,
    schemas: Seq<char>,
    other: Markup,
    other_schemas: Seq<char>,
)
    ensures
        exists|pieces: Seq<Seq<char>>, others: Seq<Seq<char>>|
            #![trigger pieces.flatten(), others.flatten()]
            tools::tool_prompt_text(markup, schemas) == pieces.flatten()
                && tools::tool_prompt_text(other, other_schemas) == others.flatten()
                && pieces.len() == others.len() && forall|i: int|
                0 <= i < pieces.len() ==> is_counterpart(
                    markup,
                    schemas,
                    #[trigger] pieces[i],
                    other,
                    other_schemas,
                    others[i],
                ),
{
    let closing =
        "\n\nYou MUST strictly follow the above defined tool name and parameter schemas to invoke tool calls.\n"@;
    let pieces = tools::tool_prompt_opening(markup).push(schemas).push(closing);
    let others = tools::tool_prompt_opening(other).push(other_schemas).push(closing);
    assert(tools::tool_prompt_text(markup, schemas) == pieces.flatten());
    assert(tools::tool_prompt_text(other, other_schemas) == others.flatten());
}

/// The reply format of a JSON object is a JSON object that says so.
pub proof fn law_response_schema()
    ensures
        tools::response_schema_value() == json::object_value(
            seq![("type"@, json::string_value("json_object"@))],
        ),
{
}

/// The schema of each tool stands in the prompt that presents the tools.
pub proof fn law_every_schema_in_prompt(
    markup: Markup,
    tools: Seq<ToolDefinitionModel>,
    at: int,
    json: spec_fn(Value) -> Seq<char>,
)
    requires
        0 <= at < tools.len(),
    ensures
        holds_text(
            tools::tool_prompt_text(markup, tools::tool_schemas_text(tools, json)),
            json(tools::tool_schema_value(tools[at])),
        ),
{
    let schema = |tool: ToolDefinitionModel| json(tools::tool_schema_value(tool));
    let schemas = tools::tool_schemas_text(tools, json);
    lemma_joined_holds(tools.map_values(schema), "\n"@, at);
    lemma_tool_prompt_parts(markup, schemas);
    lemma_holds_around(
        tools::tool_prompt_opening(markup).flatten(),
        schemas,
        "\n\nYou MUST strictly follow the above defined tool name and parameter schemas to invoke tool calls.\n"@,
        schema(tools[at]),
    );
}

/// The first `count` pieces, one behind the other.
spec fn chained(pieces: Seq<Seq<char>>, count: int) -> Seq<char>
    decreases count,
{
    if count <= 1 {
        pieces[0]
    } else {
        chained(pieces, count - 1) + pieces[count - 1]
    }
}

proof fn lemma_flatten_is_chain(pieces: Seq<Seq<char>>)
    requires
        pieces.len() > 0,
    ensures
        pieces.flatten() == chained(pieces, pieces.len() as int),
{
    lemma_prefix_is_chain(pieces, pieces.len() as int);
    assert(pieces.take(pieces.len() as int) =~= pieces);
}

proof fn lemma_prefix_is_chain(pieces: Seq<Seq<char>>, count: int)
    requires
        0 < count <= pieces.len(),
    ensures
        pieces.take(count).flatten() == chained(pieces, count),
    decreases count,
{
    if count == 1 {
        pieces.take(count).lemma_flatten_one_element();
    } else {
        lemma_prefix_is_chain(pieces, count - 1);
        pieces.take(count - 1).lemma_flatten_push(pieces[count - 1]);
        assert(pieces.take(count - 1).push(pieces[count - 1]) =~= pieces.take(count));
    }
}

/// What stands before and behind the schemas in the prompt that presents tools.
proof fn lemma_tool_prompt_parts(markup: Markup, schemas: Seq<char>)
    ensures
        tools::tool_prompt_text(markup, schemas) == tools::tool_prompt_opening(markup).flatten()
            + schemas
            + "\n\nYou MUST strictly follow the above defined tool name and parameter schemas to invoke tool calls.\n"@,
{
    let opening = tools::tool_prompt_opening(markup);
    opening.lemma_flatten_push(schemas);
    opening.push(schemas).lemma_flatten_push(
        "\n\nYou MUST strictly follow the above defined tool name and parameter schemas to invoke tool calls.\n"@,
    );
}

/// Each piece stands in what the pieces are joined to.
proof fn lemma_joined_holds(pieces: Seq<Seq<char>>, separator: Seq<char>, at: int)
    requires
        0 <= at < pieces.len(),
    ensures
        holds_text(text::joined(pieces, separator), pieces[at]),
    decreases pieces.len(),
{
    let none = Seq::<char>::empty();
    let front = pieces.drop_last();
    let last = pieces.last();
    let whole = text::joined(pieces, separator);
    if at < front.len() {
        lemma_joined_holds(front, separator, at);
        let before = text::joined(front, separator);
        assert(whole =~= none + before + (separator + last));
        lemma_holds_around(none, before, separator + last, pieces[at]);
    } else {
        let before = whole.take(whole.len() - last.len());
        assert(whole =~= before + last + none);
        lemma_holds_itself(last);
        lemma_holds_around(before, last, none, last);
    }
}

pub proof fn lemma_contents_add(parts: Seq<SegmentModel>, others: Seq<SegmentModel>)
    ensures
        contents(parts + others) == contents(parts) + contents(others),
{
    Seq::filter_distributes_over_add(parts, others, is_content());
}

pub proof fn lemma_contents_push(parts: Seq<SegmentModel>, part: SegmentModel)
    ensures
        contents(parts.push(part)) == (if part.0 {
            contents(parts)
        } else {
            contents(parts).push(part)
        }),
{
    parts.lemma_filter_push(part, is_content());
}

/// Template parts have no content.
pub proof fn lemma_no_contents(parts: Seq<SegmentModel>)
    requires
        forall|i: int| 0 <= i < parts.len() ==> (#[trigger] parts[i]).0,
    ensures
        contents(parts) == Seq::<SegmentModel>::empty(),
    decreases parts.len(),
{
    reveal(Seq::filter);
    if parts.len() > 0 {
        let front = parts.drop_last();
        assert forall|i: int| 0 <= i < front.len() implies (#[trigger] front[i]).0 by {
            assert(front[i] == parts[i]);
        }
        lemma_no_contents(front);
        assert(front.push(parts.last()) =~= parts);
        assert(parts[parts.len() - 1].0);
        lemma_contents_push(front, parts.last());
    } else {
        assert(contents(parts) =~= Seq::empty());
    }
}

/// Putting template parts together leaves the content as it is.
proof fn lemma_gathered_contents(parts: Seq<SegmentModel>)
    ensures
        contents(tool_segments::gathered(parts)) == contents(parts),
    decreases parts.len(),
{
    if parts.len() > 0 {
        let front = parts.drop_last();
        let last = parts.last();
        let before = tool_segments::gathered(front);
        lemma_gathered_contents(front);
        assert(front.push(last) =~= parts);
        lemma_contents_push(front, last);
        if last.0 && before.len() > 0 && before.last().0 {
            lemma_contents_push(before.drop_last(), before.last());
            assert(before.drop_last().push(before.last()) =~= before);
            lemma_contents_push(before.drop_last(), (true, before.last().1 + last.1));
        } else {
            lemma_contents_push(before, last);
        }
    }
}

/// Once template parts are put together, no two of them are neighbours.
proof fn lemma_gathered_markup(parts: Seq<SegmentModel>)
    ensures
        ({
            let segments = tool_segments::gathered(parts);
            &&& parts.len() > 0 ==> segments.len() > 0 && segments[0].0 == parts[0].0
                && segments.last().0 == parts.last().0
            &&& forall|i: int, j: int|
                0 <= i && j == i + 1 && j < segments.len() && (#[trigger] segments[i]).0 ==> !(
                #[trigger] segments[j]).0
        }),
    decreases parts.len(),
{
    if parts.len() > 0 {
        let front = parts.drop_last();
        let before = tool_segments::gathered(front);
        let segments = tool_segments::gathered(parts);
        lemma_gathered_markup(front);
        if front.len() > 0 {
            assert(front[0] == parts[0]);
        } else {
            assert(parts.last() == parts[0]);
        }
        assert forall|i: int, j: int|
            0 <= i && j == i + 1 && j < segments.len() && (#[trigger] segments[i]).0 implies !(
        #[trigger] segments[j]).0 by {
            if j < before.len() {
                assert(before[i].0 ==> !before[j].0);
            }
        }
    }
}

proof fn lemma_joined_contents(pieces: Seq<Seq<SegmentModel>>, separator: Seq<char>)
    requires
        pieces.len() > 0,
    ensures
        contents(tool_segments::joined_parts(pieces, separator)) == contents(
            tool_segments::joined_parts(pieces.drop_last(), separator),
        ) + contents(pieces.last()),
{
    let front = tool_segments::joined_parts(pieces.drop_last(), separator);
    lemma_contents_push(front, (true, separator));
    lemma_contents_add(front, pieces.last());
    lemma_contents_add(front.push((true, separator)), pieces.last());
}

proof fn lemma_parameter_contents(
    tag_name: Seq<char>,
    key: Seq<char>,
    is_str: Seq<char>,
    value: Seq<char>,
)
    ensures
        contents(tool_segments::parameter_parts(tag_name, key, is_str, value)) == seq![
            (false, key),
            (false, value),
        ],
{
    let parts = tool_segments::parameter_parts(tag_name, key, is_str, value);
    lemma_two_contents(parts, 4, 8);
}

/// The content among parts of which all but two are template.
proof fn lemma_two_contents(parts: Seq<SegmentModel>, first: int, second: int)
    requires
        0 <= first < second < parts.len(),
        !parts[first].0,
        !parts[second].0,
        forall|i: int| 0 <= i < parts.len() && i != first && i != second ==> (#[trigger] parts[i]).0,
    ensures
        contents(parts) == seq![parts[first], parts[second]],
{
    let opening = parts.take(first);
    let middle = parts.subrange(first + 1, second);
    let closing = parts.skip(second + 1);
    let front = opening.push(parts[first]);
    let upto = (front + middle).push(parts[second]);
    assert(upto + closing =~= parts);
    lemma_no_contents(opening);
    lemma_no_contents(middle);
    lemma_no_contents(closing);
    lemma_contents_push(opening, parts[first]);
    lemma_contents_add(front, middle);
    lemma_contents_push(front + middle, parts[second]);
    lemma_contents_add(upto, closing);
    assert(contents(parts) =~= seq![parts[first], parts[second]]);
}

proof fn lemma_object_contents(
    entries: Seq<(Seq<char>, Value)>,
    tag_name: Seq<char>,
    json: spec_fn(Value) -> Seq<char>,
)
    ensures
        contents(tool_segments::object_parts(entries, tag_name, json)) == argument_contents(
            entries,
            json,
        ),
    decreases entries.len(),
{
    let pieces = entries.map_values(
        |entry: (Seq<char>, Value)| tool_segments::argument_parts(entry, tag_name, json),
    );
    if entries.len() == 0 {
        lemma_no_contents(tool_segments::object_parts(entries, tag_name, json));
    } else {
        lemma_object_contents(entries.drop_last(), tag_name, json);
        lemma_joined_contents(pieces, "\n"@);
        assert(pieces.drop_last() =~= entries.drop_last().map_values(
            |entry: (Seq<char>, Value)| tool_segments::argument_parts(entry, tag_name, json),
        ));
        let (key, value) = entries.last();
        match json::string_content(value) {
            Some(text) => lemma_parameter_contents(tag_name, key, "true"@, text),
            None => lemma_parameter_contents(tag_name, key, "false"@, json(value)),
        }
    }
}

proof fn lemma_one_call_contents(
    markup: Markup,
    call: ToolCallModel,
    json: spec_fn(Value) -> Seq<char>,
)
    ensures
        contents(tool_segments::call_parts(markup, call, json)) == call_contents(call, json),
{
    let tag_name = markup.tool_parameter_tag_name;
    let opening = tool_segments::call_opening(markup, call.name);
    let arguments = tool_segments::arguments_parts(call.arguments, tag_name, json);
    let closing = tool_segments::call_closing(markup);
    lemma_contents_add(opening + arguments, closing);
    lemma_contents_add(opening, arguments);
    lemma_no_contents(opening.take(4));
    lemma_contents_push(opening.take(4), (false, call.name));
    lemma_contents_push(opening.take(4).push((false, call.name)), (true, "\">\n"@));
    assert(opening.take(4).push((false, call.name)).push((true, "\">\n"@)) =~= opening);
    lemma_no_contents(closing);
    match json::parsed_object(call.arguments) {
        Some(entries) => lemma_object_contents(entries, tag_name, json),
        None => lemma_parameter_contents(tag_name, "arguments"@, "true"@, call.arguments),
    }
    assert(contents(tool_segments::call_parts(markup, call, json)) =~= call_contents(call, json));
}

proof fn lemma_calls_contents(
    markup: Markup,
    calls: Seq<ToolCallModel>,
    json: spec_fn(Value) -> Seq<char>,
)
    ensures
        contents(tool_segments::calls_parts(markup, calls, json)) == all_call_contents(calls, json),
    decreases calls.len(),
{
    let pieces = calls.map_values(
        |call: ToolCallModel| tool_segments::call_parts(markup, call, json),
    );
    if calls.len() == 0 {
        lemma_no_contents(tool_segments::calls_parts(markup, calls, json));
    } else {
        lemma_calls_contents(markup, calls.drop_last(), json);
        lemma_joined_contents(pieces, "\n"@);
        assert(pieces.drop_last() =~= calls.drop_last().map_values(
            |call: ToolCallModel| tool_segments::call_parts(markup, call, json),
        ));
        lemma_one_call_contents(markup, calls.last(), json);
    }
}

} // verus!
