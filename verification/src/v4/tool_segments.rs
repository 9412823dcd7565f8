//! Tool calls as segments of a prompt: the markup is template, while the names
//! of tools and the arguments are content.

use crate::conversation;
use crate::conversation::{ToolCall, ToolCallModel};
use crate::json;
use crate::json::{object_pairs, parse_object};
use crate::text;
use crate::v4::encode;
use crate::v4::render;
use crate::v4::render::{PromptSegment, SegmentModel};
use crate::v4::tools;
use crate::v4::{EncodingV4, Markup, DSML_SP_TOKEN};
use serde_json::Value;
use vstd::prelude::*;

verus! {

/// `parts` with one more behind them; a template part goes on from a template
/// part at the end.
pub open spec fn add_part(parts: Seq<SegmentModel>, part: SegmentModel) -> Seq<SegmentModel> {
    if part.0 && parts.len() > 0 && parts.last().0 {
        parts.drop_last().push((true, parts.last().1 + part.1))
    } else {
        parts.push(part)
    }
}

/// `parts` with neighbouring template parts put together.
pub open spec fn gathered(parts: Seq<SegmentModel>) -> Seq<SegmentModel>
    decreases parts.len(),
{
    if parts.len() == 0 {
        parts
    } else {
        add_part(gathered(parts.drop_last()), parts.last())
    }
}

/// Lists of parts, one behind the other, with a separator in between that is
/// template.
pub open spec fn joined_parts(
    pieces: Seq<Seq<SegmentModel>>,
    separator: Seq<char>,
) -> Seq<SegmentModel>
    decreases pieces.len(),
{
    if pieces.len() == 0 {
        Seq::empty()
    } else {
        let front = joined_parts(pieces.drop_last(), separator);
        (if pieces.len() == 1 {
            front
        } else {
            front.push((true, separator))
        }) + pieces.last()
    }
}

/// A parameter of a tool call: its key and its value are content.
pub open spec fn parameter_parts(
    tag_name: Seq<char>,
    key: Seq<char>,
    is_str: Seq<char>,
    value: Seq<char>,
) -> Seq<SegmentModel> {
    seq![
        (true, "<"@),
        (true, DSML_SP_TOKEN@),
        (true, tag_name),
        (true, " name=\""@),
        (false, key),
        (true, "\" string=\""@),
        (true, is_str),
        (true, "\">"@),
        (false, value),
        (true, "</"@),
        (true, DSML_SP_TOKEN@),
        (true, tag_name),
        (true, ">"@),
    ]
}

/// An argument of a tool call: the text of a JSON string as it is, another JSON
/// value as `json` writes it.
pub open spec fn argument_parts(
    entry: (Seq<char>, Value),
    tag_name: Seq<char>,
    json: spec_fn(Value) -> Seq<char>,
) -> Seq<SegmentModel> {
    match json::string_content(entry.1) {
        Some(text) => parameter_parts(tag_name, entry.0, "true"@, text),
        None => parameter_parts(tag_name, entry.0, "false"@, json(entry.1)),
    }
}

/// The arguments of a tool call, one to a line.
pub open spec fn object_parts(
    entries: Seq<(Seq<char>, Value)>,
    tag_name: Seq<char>,
    json: spec_fn(Value) -> Seq<char>,
) -> Seq<SegmentModel> {
    joined_parts(
        entries.map_values(|entry: (Seq<char>, Value)| argument_parts(entry, tag_name, json)),
        "\n"@,
    )
}

/// The arguments of a tool call, given as JSON text. A text that is no JSON
/// object is itself the one argument.
pub open spec fn arguments_parts(
    arguments: Seq<char>,
    tag_name: Seq<char>,
    json: spec_fn(Value) -> Seq<char>,
) -> Seq<SegmentModel> {
    match json::parsed_object(arguments) {
        Some(entries) => object_parts(entries, tag_name, json),
        None => parameter_parts(tag_name, "arguments"@, "true"@, arguments),
    }
}

/// What stands before the arguments of a tool call; the name is content.
pub open spec fn call_opening(markup: Markup, name: Seq<char>) -> Seq<SegmentModel> {
    seq![
        (true, "<"@),
        (true, DSML_SP_TOKEN@),
        (true, markup.tool_call_tag_name),
        (true, " name=\""@),
        (false, name),
        (true, "\">\n"@),
    ]
}

/// What stands behind the arguments of a tool call.
pub open spec fn call_closing(markup: Markup) -> Seq<SegmentModel> {
    seq![
        (true, "\n</"@),
        (true, DSML_SP_TOKEN@),
        (true, markup.tool_call_tag_name),
        (true, ">"@),
    ]
}

/// A tool call with its arguments.
pub open spec fn call_parts(
    markup: Markup,
    call: ToolCallModel,
    json: spec_fn(Value) -> Seq<char>,
) -> Seq<SegmentModel> {
    call_opening(markup, call.name) + arguments_parts(
        call.arguments,
        markup.tool_parameter_tag_name,
        json,
    ) + call_closing(markup)
}

/// Tool calls, one behind the other on lines of their own.
pub open spec fn calls_parts(
    markup: Markup,
    calls: Seq<ToolCallModel>,
    json: spec_fn(Value) -> Seq<char>,
) -> Seq<SegmentModel> {
    joined_parts(
        calls.map_values(|call: ToolCallModel| call_parts(markup, call, json)),
        "\n"@,
    )
}

/// What stands before the tool calls of a message.
pub open spec fn block_opening(markup: Markup) -> Seq<SegmentModel> {
    seq![
        (true, "\n\n"@),
        (true, "<"@),
        (true, DSML_SP_TOKEN@),
        (true, markup.tool_calls_block_name),
        (true, ">\n"@),
    ]
}

/// What stands behind the tool calls of a message.
pub open spec fn block_closing(markup: Markup) -> Seq<SegmentModel> {
    seq![
        (true, "\n</"@),
        (true, DSML_SP_TOKEN@),
        (true, markup.tool_calls_block_name),
        (true, ">"@),
    ]
}

/// The tool calls of an assistant message, set off by an empty line: what is
/// markup in one piece between two pieces of content.
pub open spec fn tool_calls_parts(
    markup: Markup,
    tool_calls: Option<Seq<ToolCallModel>>,
    json: spec_fn(Value) -> Seq<char>,
) -> Seq<SegmentModel> {
    match tool_calls {
        Some(calls) => if calls.len() > 0 {
            gathered(block_opening(markup) + calls_parts(markup, calls, json) + block_closing(markup))
        } else {
            Seq::empty()
        },
        None => Seq::empty(),
    }
}

/// The text of parts put together is their texts put together.
proof fn lemma_text_add(parts: Seq<SegmentModel>, others: Seq<SegmentModel>)
    ensures
        encode::prompt_text(parts + others) == encode::prompt_text(parts) + encode::prompt_text(
            others,
        ),
{
    let texts = parts.map_values(|segment: SegmentModel| segment.1);
    let other_texts = others.map_values(|segment: SegmentModel| segment.1);
    assert((parts + others).map_values(|segment: SegmentModel| segment.1) =~= texts + other_texts);
    vstd::seq_lib::lemma_flatten_concat(texts, other_texts);
}

proof fn lemma_text_push(parts: Seq<SegmentModel>, part: SegmentModel)
    ensures
        encode::prompt_text(parts.push(part)) == encode::prompt_text(parts) + part.1,
{
    let texts = parts.map_values(|segment: SegmentModel| segment.1);
    assert(parts.push(part).map_values(|segment: SegmentModel| segment.1) =~= texts.push(part.1));
    texts.lemma_flatten_push(part.1);
}

/// Putting template parts together leaves the text as it is.
pub proof fn lemma_gathered_text(parts: Seq<SegmentModel>)
    ensures
        encode::prompt_text(gathered(parts)) == encode::prompt_text(parts),
    decreases parts.len(),
{
    if parts.len() > 0 {
        let front = parts.drop_last();
        let last = parts.last();
        let before = gathered(front);
        lemma_gathered_text(front);
        assert(front.push(last) =~= parts);
        lemma_text_push(front, last);
        if last.0 && before.len() > 0 && before.last().0 {
            lemma_text_push(before.drop_last(), before.last());
            assert(before.drop_last().push(before.last()) =~= before);
            lemma_text_push(before.drop_last(), (true, before.last().1 + last.1));
            assert(encode::prompt_text(gathered(parts)) =~= encode::prompt_text(parts));
        } else {
            lemma_text_push(before, last);
        }
    }
}

proof fn lemma_joined_text(pieces: Seq<Seq<SegmentModel>>, separator: Seq<char>)
    ensures
        encode::prompt_text(joined_parts(pieces, separator)) == text::joined(
            pieces.map_values(|piece: Seq<SegmentModel>| encode::prompt_text(piece)),
            separator,
        ),
    decreases pieces.len(),
{
    let texts = pieces.map_values(|piece: Seq<SegmentModel>| encode::prompt_text(piece));
    if pieces.len() == 0 {
        assert(encode::prompt_text(Seq::<SegmentModel>::empty()) =~= Seq::empty()) by {
            assert(Seq::<SegmentModel>::empty().map_values(|segment: SegmentModel| segment.1)
                =~= Seq::empty());
        }
    } else {
        let front = joined_parts(pieces.drop_last(), separator);
        lemma_joined_text(pieces.drop_last(), separator);
        assert(texts.drop_last() =~= pieces.drop_last().map_values(
            |piece: Seq<SegmentModel>| encode::prompt_text(piece),
        ));
        lemma_text_push(front, (true, separator));
        lemma_text_add(front, pieces.last());
        lemma_text_add(front.push((true, separator)), pieces.last());
    }
}

proof fn lemma_parameter_text(
    tag_name: Seq<char>,
    key: Seq<char>,
    is_str: Seq<char>,
    value: Seq<char>,
)
    ensures
        encode::prompt_text(parameter_parts(tag_name, key, is_str, value))
            == tools::parameter_element(DSML_SP_TOKEN@, tag_name, key, is_str, value),
{
    assert(parameter_parts(tag_name, key, is_str, value).map_values(
        |segment: SegmentModel| segment.1,
    ) =~= seq![
        "<"@,
        DSML_SP_TOKEN@,
        tag_name,
        " name=\""@,
        key,
        "\" string=\""@,
        is_str,
        "\">"@,
        value,
        "</"@,
        DSML_SP_TOKEN@,
        tag_name,
        ">"@,
    ]);
}

/// The text of the entries of a JSON object, as the arguments of a tool call.
pub proof fn lemma_object_text(
    entries: Seq<(Seq<char>, Value)>,
    tag_name: Seq<char>,
    json: spec_fn(Value) -> Seq<char>,
)
    ensures
        encode::prompt_text(object_parts(entries, tag_name, json)) == tools::argument_elements(
            entries,
            tag_name,
            json,
        ),
{
    let pieces = entries.map_values(
        |entry: (Seq<char>, Value)| argument_parts(entry, tag_name, json),
    );
    let elements = entries.map_values(
        |entry: (Seq<char>, Value)| tools::argument_element(entry, tag_name, json),
    );
    lemma_joined_text(pieces, "\n"@);
    assert forall|i: int| 0 <= i < entries.len() implies encode::prompt_text(#[trigger] pieces[i])
        == elements[i] by {
        match json::string_content(entries[i].1) {
            Some(text) => lemma_parameter_text(tag_name, entries[i].0, "true"@, text),
            None => lemma_parameter_text(tag_name, entries[i].0, "false"@, json(entries[i].1)),
        }
    }
    assert(pieces.map_values(|piece: Seq<SegmentModel>| encode::prompt_text(piece)) =~= elements);
}

proof fn lemma_arguments_text(
    arguments: Seq<char>,
    tag_name: Seq<char>,
    json: spec_fn(Value) -> Seq<char>,
)
    ensures
        encode::prompt_text(arguments_parts(arguments, tag_name, json))
            == tools::tool_arguments_text(arguments, tag_name, json),
{
    match json::parsed_object(arguments) {
        Some(entries) => lemma_object_text(entries, tag_name, json),
        None => lemma_parameter_text(tag_name, "arguments"@, "true"@, arguments),
    }
}

/// A text in the middle of others, all put together.
proof fn lemma_flatten_around(before: Seq<Seq<char>>, middle: Seq<char>, behind: Seq<Seq<char>>)
    ensures
        (before.push(middle) + behind).flatten() == before.flatten() + middle + behind.flatten(),
{
    before.lemma_flatten_push(middle);
    vstd::seq_lib::lemma_flatten_concat(before.push(middle), behind);
}

proof fn lemma_call_text(
    markup: Markup,
    call: ToolCallModel,
    json: spec_fn(Value) -> Seq<char>,
)
    ensures
        encode::prompt_text(call_parts(markup, call, json)) == tools::tool_call_text(
            markup,
            call,
            json,
        ),
{
    let opening = call_opening(markup, call.name);
    let arguments = arguments_parts(call.arguments, markup.tool_parameter_tag_name, json);
    let closing = call_closing(markup);
    let before = opening.map_values(|segment: SegmentModel| segment.1);
    let behind = closing.map_values(|segment: SegmentModel| segment.1);
    let middle = encode::prompt_text(arguments);
    lemma_arguments_text(call.arguments, markup.tool_parameter_tag_name, json);
    lemma_text_add(opening + arguments, closing);
    lemma_text_add(opening, arguments);
    lemma_flatten_around(before, middle, behind);
    assert(before.push(middle) + behind =~= seq![
        "<"@,
        DSML_SP_TOKEN@,
        markup.tool_call_tag_name,
        " name=\""@,
        call.name,
        "\">\n"@,
        middle,
        "\n</"@,
        DSML_SP_TOKEN@,
        markup.tool_call_tag_name,
        ">"@,
    ]);
}

/// The segments of tool calls, put together, are the text of the tool calls in
/// their block, set off by an empty line.
pub proof fn law_tool_calls_text(
    markup: Markup,
    tool_calls: Option<Seq<ToolCallModel>>,
    json: spec_fn(Value) -> Seq<char>,
)
    ensures
        encode::prompt_text(tool_calls_parts(markup, tool_calls, json))
            == render::tool_calls_suffix(markup, tool_calls, json),
{
    assert(Seq::<SegmentModel>::empty().map_values(|segment: SegmentModel| segment.1)
        =~= Seq::empty());
    if let Some(calls) = tool_calls {
        if calls.len() > 0 {
            let pieces = calls.map_values(
                |call: ToolCallModel| call_parts(markup, call, json),
            );
            let elements = calls.map_values(
                |call: ToolCallModel| tools::tool_call_text(markup, call, json),
            );
            lemma_joined_text(pieces, "\n"@);
            assert forall|i: int| 0 <= i < calls.len() implies encode::prompt_text(
                #[trigger] pieces[i],
            ) == elements[i] by {
                lemma_call_text(markup, calls[i], json);
            }
            assert(pieces.map_values(|piece: Seq<SegmentModel>| encode::prompt_text(piece))
                =~= elements);
            let opening = block_opening(markup);
            let closing = block_closing(markup);
            let parts = calls_parts(markup, calls, json);
            let middle = encode::prompt_text(parts);
            lemma_gathered_text(opening + parts + closing);
            lemma_text_add(opening + parts, closing);
            lemma_text_add(opening, parts);
            let before = opening.map_values(|segment: SegmentModel| segment.1);
            let behind = closing.map_values(|segment: SegmentModel| segment.1);
            lemma_flatten_around(before, middle, behind);
            let block = seq![
                "<"@,
                DSML_SP_TOKEN@,
                markup.tool_calls_block_name,
                ">\n"@,
                middle,
                "\n</"@,
                DSML_SP_TOKEN@,
                markup.tool_calls_block_name,
                ">"@,
            ];
            assert(before.push(middle) + behind =~= seq!["\n\n"@] + block);
            vstd::seq_lib::lemma_flatten_concat(seq!["\n\n"@], block);
            assert(seq!["\n\n"@, block.flatten()] =~= seq!["\n\n"@].push(block.flatten()));
            seq!["\n\n"@].lemma_flatten_push(block.flatten());
        }
    }
}

/// Segments under construction, with the parts that they are made of.
struct GatheredList {
    segments: Vec<PromptSegment>,
    parts: Ghost<Seq<SegmentModel>>,
}

impl GatheredList {
    spec fn wf(self) -> bool {
        render::segment_views(self.segments@) == gathered(self.parts@)
    }

    fn new() -> (list: Self)
        ensures
            list.wf(),
            list.parts@ == Seq::<SegmentModel>::empty(),
    {
        let segments: Vec<PromptSegment> = Vec::new();
        let ghost parts = Seq::<SegmentModel>::empty();
        assert(render::segment_views(segments@) =~= gathered(parts));
        GatheredList { segments, parts: Ghost(parts) }
    }

    /// Adds a part; a template part goes on from one at the end.
    fn push(&mut self, is_template: bool, text: &str)
        requires
            old(self).wf(),
        ensures
            final(self).wf(),
            final(self).parts@ == old(self).parts@.push((is_template, text@)),
    {
        let ghost part = (is_template, text@);
        let ghost before = render::segment_views(self.segments@);
        let ghost parts = self.parts@.push(part);
        assert(parts.drop_last() =~= self.parts@);
        let count = self.segments.len();
        let goes_on = is_template && count > 0 && self.segments[count - 1].0;
        if goes_on {
            self.segments[count - 1].1.append(text);
        } else {
            self.segments.push((is_template, text.to_owned()));
        }
        assert(render::segment_views(self.segments@) =~= add_part(before, part));
        self.parts = Ghost(parts);
    }

    /// Adds a parameter of a tool call.
    fn push_parameter(&mut self, tag_name: &str, key: &str, is_str: &str, value: &str)
        requires
            old(self).wf(),
        ensures
            final(self).wf(),
            final(self).parts@ == old(self).parts@ + parameter_parts(
                tag_name@,
                key@,
                is_str@,
                value@,
            ),
    {
        self.push(true, "<");
        self.push(true, DSML_SP_TOKEN);
        self.push(true, tag_name);
        self.push(true, " name=\"");
        self.push(false, key);
        self.push(true, "\" string=\"");
        self.push(true, is_str);
        self.push(true, "\">");
        self.push(false, value);
        self.push(true, "</");
        self.push(true, DSML_SP_TOKEN);
        self.push(true, tag_name);
        self.push(true, ">");
        assert(self.parts@ =~= old(self).parts@ + parameter_parts(
            tag_name@,
            key@,
            is_str@,
            value@,
        ));
    }

    /// Adds the entries of a JSON object as the arguments of a tool call.
    fn push_object<S: Fn(&Value) -> String>(
        &mut self,
        object: &serde_json::Map<String, Value>,
        tag_name: &str,
        stringify: &S,
    )
        requires
            old(self).wf(),
            json::is_stringifier(*stringify),
        ensures
            final(self).wf(),
            final(self).parts@ == old(self).parts@ + object_parts(
                json::object_entries(*object),
                tag_name@,
                json::json_text(*stringify),
            ),
            tools::entries_written(*stringify, json::object_entries(*object)),
    {
        let ghost start = self.parts@;
        let ghost json = json::json_text(*stringify);
        let ghost entries = json::object_entries(*object);
        let ghost pieces = entries.map_values(
            |entry: (Seq<char>, Value)| argument_parts(entry, tag_name@, json),
        );
        let pairs = object_pairs(object);
        let mut done: usize = 0;
        assert(start + joined_parts(pieces.take(0), "\n"@) =~= start);
        while done < pairs.len()
            invariant
                self.wf(),
                json::is_stringifier(*stringify),
                json == json::json_text(*stringify),
                entries == pairs@.map_values(|pair: (&String, &Value)| (pair.0@, *pair.1)),
                pieces == entries.map_values(
                    |entry: (Seq<char>, Value)| argument_parts(entry, tag_name@, json),
                ),
                done <= pairs.len(),
                self.parts@ == start + joined_parts(pieces.take(done as int), "\n"@),
                forall|i: int|
                    0 <= i < done && json::string_content(#[trigger] entries[i].1) is None
                        ==> json::is_written(*stringify, entries[i].1),
            decreases pairs.len() - done,
        {
            let (key, value) = pairs[done];
            proof {
                assert(entries[done as int] == (key@, *value));
                assert(pieces.take(done + 1).drop_last() =~= pieces.take(done as int));
            }
            if done > 0 {
                self.push(true, "\n");
            }
            match value.as_str() {
                Some(text) => self.push_parameter(tag_name, key.as_str(), "true", text),
                None => {
                    let text = stringify(value);
                    self.push_parameter(tag_name, key.as_str(), "false", text.as_str());
                },
            }
            assert(self.parts@ =~= start + joined_parts(pieces.take(done + 1), "\n"@));
            done += 1;
        }
        assert(pieces.take(done as int) =~= pieces);
    }

    /// Adds the arguments of a tool call. Where they are no JSON object, the
    /// text as a whole becomes an argument of the name `arguments`.
    fn push_arguments<S: Fn(&Value) -> String>(
        &mut self,
        arguments: &str,
        tag_name: &str,
        stringify: &S,
    )
        requires
            old(self).wf(),
            json::is_stringifier(*stringify),
        ensures
            final(self).wf(),
            final(self).parts@ == old(self).parts@ + arguments_parts(
                arguments@,
                tag_name@,
                json::json_text(*stringify),
            ),
            tools::arguments_written(*stringify, arguments@),
    {
        match parse_object(arguments) {
            Ok(object) => self.push_object(&object, tag_name, stringify),
            Err(_) => self.push_parameter(tag_name, "arguments", "true", arguments),
        }
    }

    /// Adds a tool call.
    fn push_call<E: EncodingV4, S: Fn(&Value) -> String>(
        &mut self,
        encoding: &E,
        call: &ToolCall,
        stringify: &S,
    )
        requires
            old(self).wf(),
            json::is_stringifier(*stringify),
        ensures
            final(self).wf(),
            final(self).parts@ == old(self).parts@ + call_parts(
                encoding.markup(),
                call@,
                json::json_text(*stringify),
            ),
            tools::arguments_written(*stringify, call@.arguments),
    {
        let ghost start = self.parts@;
        let tag_name = encoding.tool_call_tag_name();
        self.push(true, "<");
        self.push(true, DSML_SP_TOKEN);
        self.push(true, tag_name);
        self.push(true, " name=\"");
        self.push(false, call.name.as_str());
        self.push(true, "\">\n");
        assert(self.parts@ =~= start + call_opening(encoding.markup(), call@.name));
        self.push_arguments(
            call.arguments.as_str(),
            encoding.tool_parameter_tag_name(),
            stringify,
        );
        self.push(true, "\n</");
        self.push(true, DSML_SP_TOKEN);
        self.push(true, tag_name);
        self.push(true, ">");
        assert(self.parts@ =~= start + call_parts(
            encoding.markup(),
            call@,
            json::json_text(*stringify),
        ));
    }
}

/// Renders the entries of a JSON object, as the arguments of a tool call, into
/// segments.
pub fn render_argument_segments<S: Fn(&Value) -> String>(
    object: &serde_json::Map<String, Value>,
    tool_parameter_tag_name: &str,
    stringify: &S,
) -> (segments: Vec<PromptSegment>)
    requires
        json::is_stringifier(*stringify),
    ensures
        render::segment_views(segments@) == gathered(
            object_parts(
                json::object_entries(*object),
                tool_parameter_tag_name@,
                json::json_text(*stringify),
            ),
        ),
        tools::entries_written(*stringify, json::object_entries(*object)),
{
    let mut list = GatheredList::new();
    list.push_object(object, tool_parameter_tag_name, stringify);
    assert(list.parts@ =~= object_parts(
        json::object_entries(*object),
        tool_parameter_tag_name@,
        json::json_text(*stringify),
    ));
    list.segments
}

/// Renders the tool calls of a message into segments: none if there are no
/// calls, else the calls in their order, in their block.
pub fn render_tool_call_segments<E: EncodingV4, S: Fn(&Value) -> String>(
    encoding: &E,
    tool_calls: &Vec<ToolCall>,
    stringify: &S,
) -> (segments: Vec<PromptSegment>)
    requires
        json::is_stringifier(*stringify),
    ensures
        render::segment_views(segments@) == tool_calls_parts(
            encoding.markup(),
            Some(conversation::tool_call_views(tool_calls@)),
            json::json_text(*stringify),
        ),
        tools::calls_written(*stringify, conversation::tool_call_views(tool_calls@)),
{
    let mut list = GatheredList::new();
    if tool_calls.len() == 0 {
        return list.segments;
    }
    let ghost markup = encoding.markup();
    let ghost json = json::json_text(*stringify);
    let ghost calls = conversation::tool_call_views(tool_calls@);
    let ghost pieces = calls.map_values(|call: ToolCallModel| call_parts(markup, call, json));
    let name = encoding.tool_calls_block_name();
    list.push(true, "\n\n");
    list.push(true, "<");
    list.push(true, DSML_SP_TOKEN);
    list.push(true, name);
    list.push(true, ">\n");
    let mut done: usize = 0;
    assert(list.parts@ =~= block_opening(markup) + joined_parts(pieces.take(0), "\n"@));
    while done < tool_calls.len()
        invariant
            list.wf(),
            json::is_stringifier(*stringify),
            json == json::json_text(*stringify),
            markup == encoding.markup(),
            calls == conversation::tool_call_views(tool_calls@),
            pieces == calls.map_values(|call: ToolCallModel| call_parts(markup, call, json)),
            done <= tool_calls.len(),
            list.parts@ == block_opening(markup) + joined_parts(pieces.take(done as int), "\n"@),
            forall|i: int|
                0 <= i < done ==> tools::arguments_written(
                    *stringify,
                    (#[trigger] calls[i]).arguments,
                ),
        decreases tool_calls.len() - done,
    {
        proof {
            assert(calls[done as int] == tool_calls@[done as int]@);
            assert(pieces.take(done + 1).drop_last() =~= pieces.take(done as int));
        }
        if done > 0 {
            list.push(true, "\n");
        }
        list.push_call(encoding, &tool_calls[done], stringify);
        assert(list.parts@ =~= block_opening(markup) + joined_parts(
            pieces.take(done + 1),
            "\n"@,
        ));
        done += 1;
    }
    assert(pieces.take(done as int) =~= pieces);
    list.push(true, "\n</");
    list.push(true, DSML_SP_TOKEN);
    list.push(true, name);
    list.push(true, ">");
    assert(list.parts@ =~= block_opening(markup) + calls_parts(markup, calls, json)
        + block_closing(markup));
    list.segments
}

} // verus!
