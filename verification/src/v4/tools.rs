//! Tools in a prompt: the prompt that presents them, and the calls that the
//! assistant made.

use crate::conversation;
use crate::conversation::{ToolCall, ToolCallModel, ToolDefinition, ToolDefinitionModel};
use crate::json;
use crate::json::{json_object, json_string, object_pairs, parse_object};
use crate::text;
use crate::text::{concat, join};
use crate::v4::{EncodingV4, Markup, DSML_SP_TOKEN, THINKING_END_TOKEN, THINKING_START_TOKEN};
use serde_json::Value;
use vstd::prelude::*;

verus! {

/// A parameter of a tool call as an element of the tool call markup.
pub open spec fn parameter_element(
    dsml_token: Seq<char>,
    tag_name: Seq<char>,
    key: Seq<char>,
    is_str: Seq<char>,
    value: Seq<char>,
) -> Seq<char> {
    seq![
        "<"@,
        dsml_token,
        tag_name,
        " name=\""@,
        key,
        "\" string=\""@,
        is_str,
        "\">"@,
        value,
        "</"@,
        dsml_token,
        tag_name,
        ">"@,
    ].flatten()
}

pub fn parameter_template(
    dsml_token: &str,
    tool_parameter_tag_name: &str,
    key: &str,
    is_str: &str,
    value: &str,
) -> (element: String)
    ensures
        element@ == parameter_element(
            dsml_token@,
            tool_parameter_tag_name@,
            key@,
            is_str@,
            value@,
        ),
{
    let pieces = [
        "<",
        dsml_token,
        tool_parameter_tag_name,
        " name=\"",
        key,
        "\" string=\"",
        is_str,
        "\">",
        value,
        "</",
        dsml_token,
        tool_parameter_tag_name,
        ">",
    ];
    assert(text::str_views(pieces@) =~= seq![
        "<"@,
        dsml_token@,
        tool_parameter_tag_name@,
        " name=\""@,
        key@,
        "\" string=\""@,
        is_str@,
        "\">"@,
        value@,
        "</"@,
        dsml_token@,
        tool_parameter_tag_name@,
        ">"@,
    ]);
    concat(&pieces)
}

/// An argument of a tool call: the text of a JSON string as it is, another JSON
/// value as `json` writes it.
pub open spec fn argument_element(
    entry: (Seq<char>, Value),
    tag_name: Seq<char>,
    json: spec_fn(Value) -> Seq<char>,
) -> Seq<char> {
    match json::string_content(entry.1) {
        Some(text) => parameter_element(DSML_SP_TOKEN@, tag_name, entry.0, "true"@, text),
        None => parameter_element(DSML_SP_TOKEN@, tag_name, entry.0, "false"@, json(entry.1)),
    }
}

/// The arguments of a tool call, one to a line.
pub open spec fn argument_elements(
    entries: Seq<(Seq<char>, Value)>,
    tag_name: Seq<char>,
    json: spec_fn(Value) -> Seq<char>,
) -> Seq<char> {
    text::joined(
        entries.map_values(|entry: (Seq<char>, Value)| argument_element(entry, tag_name, json)),
        "\n"@,
    )
}

/// The arguments of a tool call, given as JSON text. A text that is no JSON
/// object is itself the one argument.
pub open spec fn tool_arguments_text(
    arguments: Seq<char>,
    tag_name: Seq<char>,
    json: spec_fn(Value) -> Seq<char>,
) -> Seq<char> {
    match json::parsed_object(arguments) {
        Some(entries) => argument_elements(entries, tag_name, json),
        None => parameter_element(
            DSML_SP_TOKEN@,
            tag_name,
            "arguments"@,
            "true"@,
            arguments,
        ),
    }
}

/// `stringify` has a text for each argument that is no string.
pub open spec fn entries_written<S: Fn(&Value) -> String>(
    stringify: S,
    entries: Seq<(Seq<char>, Value)>,
) -> bool {
    forall|i: int|
        0 <= i < entries.len() && json::string_content(#[trigger] entries[i].1) is None
            ==> json::is_written(stringify, entries[i].1)
}

/// `stringify` has a text for each argument of a tool call that is no string.
pub open spec fn arguments_written<S: Fn(&Value) -> String>(
    stringify: S,
    arguments: Seq<char>,
) -> bool {
    json::parsed_object(arguments) matches Some(entries) ==> entries_written(stringify, entries)
}

/// `stringify` has a text for each argument of tool calls that is no string.
pub open spec fn calls_written<S: Fn(&Value) -> String>(
    stringify: S,
    calls: Seq<ToolCallModel>,
) -> bool {
    forall|i: int|
        0 <= i < calls.len() ==> arguments_written(stringify, (#[trigger] calls[i]).arguments)
}

/// `stringify` has a text for the JSON object that describes each tool.
pub open spec fn schemas_written<S: Fn(&Value) -> String>(
    stringify: S,
    tools: Seq<ToolDefinitionModel>,
) -> bool {
    forall|i: int|
        0 <= i < tools.len() ==> json::is_written(
            stringify,
            tool_schema_value(#[trigger] tools[i]),
        )
}

/// Renders the entries of a JSON object as the arguments of a tool call.
pub fn render_argument_object<S: Fn(&Value) -> String>(
    object: &serde_json::Map<String, Value>,
    tool_parameter_tag_name: &str,
    stringify: &S,
) -> (arguments: String)
    requires
        json::is_stringifier(*stringify),
    ensures
        arguments@ == argument_elements(
            json::object_entries(*object),
            tool_parameter_tag_name@,
            json::json_text(*stringify),
        ),
        entries_written(*stringify, json::object_entries(*object)),
{
    let ghost tag_name = tool_parameter_tag_name@;
    let ghost json = json::json_text(*stringify);
    let pairs = object_pairs(object);
    let ghost entries = json::object_entries(*object);
    let mut elements: Vec<String> = Vec::new();
    let mut done: usize = 0;
    while done < pairs.len()
        invariant
            json::is_stringifier(*stringify),
            json == json::json_text(*stringify),
            tag_name == tool_parameter_tag_name@,
            entries == pairs@.map_values(|pair: (&String, &Value)| (pair.0@, *pair.1)),
            done <= pairs.len(),
            elements.len() == done,
            forall|i: int|
                0 <= i < done ==> #[trigger] elements@[i]@ == argument_element(
                    entries[i],
                    tag_name,
                    json,
                ),
            forall|i: int|
                0 <= i < done && json::string_content(#[trigger] entries[i].1) is None
                    ==> json::is_written(*stringify, entries[i].1),
        decreases pairs.len() - done,
    {
        let (key, value) = pairs[done];
        assert(entries[done as int] == (key@, *value));
        let element = match value.as_str() {
            Some(text) => parameter_template(
                DSML_SP_TOKEN,
                tool_parameter_tag_name,
                key.as_str(),
                "true",
                text,
            ),
            None => {
                let text = stringify(value);
                parameter_template(
                    DSML_SP_TOKEN,
                    tool_parameter_tag_name,
                    key.as_str(),
                    "false",
                    text.as_str(),
                )
            },
        };
        elements.push(element);
        done += 1;
    }
    assert(text::string_views(elements@) =~= entries.map_values(
        |entry: (Seq<char>, Value)| argument_element(entry, tag_name, json),
    ));
    join(&elements, "\n")
}

/// Renders the arguments of a tool call. Where they are no JSON object, the
/// text as a whole becomes an argument of the name `arguments`.
pub fn render_tool_arguments<S: Fn(&Value) -> String>(
    tool_call: &ToolCall,
    tool_parameter_tag_name: &str,
    stringify: &S,
) -> (arguments: String)
    requires
        json::is_stringifier(*stringify),
    ensures
        arguments@ == tool_arguments_text(
            tool_call@.arguments,
            tool_parameter_tag_name@,
            json::json_text(*stringify),
        ),
        arguments_written(*stringify, tool_call@.arguments),
{
    let object = match parse_object(tool_call.arguments.as_str()) {
        Ok(object) => object,
        Err(_) => {
            let mut whole = serde_json::Map::new();
            let text = json_string(tool_call.arguments.as_str());
            whole.insert("arguments".to_owned(), text);
            proof {
                let tag_name = tool_parameter_tag_name@;
                let json = json::json_text(*stringify);
                let entries = json::object_entries(whole);
                let elements = entries.map_values(
                    |entry: (Seq<char>, Value)| argument_element(entry, tag_name, json),
                );
                assert(entries =~= seq![("arguments"@, text)]);
                assert(text::joined(elements.drop_last(), "\n"@) =~= Seq::empty());
                assert(text::joined(elements, "\n"@) =~= elements.last());
            }
            whole
        },
    };
    render_argument_object(&object, tool_parameter_tag_name, stringify)
}

/// Whether the arguments of a tool call are a JSON object. Where they are not,
/// they are rendered as one argument, which a caller may want to warn about.
pub fn has_argument_object(tool_call: &ToolCall) -> (is_object: bool)
    ensures
        is_object == (json::parsed_object(tool_call@.arguments) is Some),
{
    parse_object(tool_call.arguments.as_str()).is_ok()
}

/// A tool call as an element of the tool call markup.
pub open spec fn tool_call_element(
    markup: Markup,
    name: Seq<char>,
    arguments: Seq<char>,
) -> Seq<char> {
    seq![
        "<"@,
        DSML_SP_TOKEN@,
        markup.tool_call_tag_name,
        " name=\""@,
        name,
        "\">\n"@,
        arguments,
        "\n</"@,
        DSML_SP_TOKEN@,
        markup.tool_call_tag_name,
        ">"@,
    ].flatten()
}

pub fn tool_call_template<E: EncodingV4>(encoding: &E, name: &str, arguments: &str) -> (element:
    String)
    ensures
        element@ == tool_call_element(encoding.markup(), name@, arguments@),
{
    let tag_name = encoding.tool_call_tag_name();
    let pieces = [
        "<",
        DSML_SP_TOKEN,
        tag_name,
        " name=\"",
        name,
        "\">\n",
        arguments,
        "\n</",
        DSML_SP_TOKEN,
        tag_name,
        ">",
    ];
    assert(text::str_views(pieces@) =~= seq![
        "<"@,
        DSML_SP_TOKEN@,
        tag_name@,
        " name=\""@,
        name@,
        "\">\n"@,
        arguments@,
        "\n</"@,
        DSML_SP_TOKEN@,
        tag_name@,
        ">"@,
    ]);
    concat(&pieces)
}

/// The block of the tool call markup around tool calls.
pub open spec fn tool_calls_block(markup: Markup, tool_calls: Seq<char>) -> Seq<char> {
    seq![
        "<"@,
        DSML_SP_TOKEN@,
        markup.tool_calls_block_name,
        ">\n"@,
        tool_calls,
        "\n</"@,
        DSML_SP_TOKEN@,
        markup.tool_calls_block_name,
        ">"@,
    ].flatten()
}

pub fn tool_calls_template<E: EncodingV4>(encoding: &E, tool_calls: &str) -> (block: String)
    ensures
        block@ == tool_calls_block(encoding.markup(), tool_calls@),
{
    let name = encoding.tool_calls_block_name();
    let pieces = [
        "<",
        DSML_SP_TOKEN,
        name,
        ">\n",
        tool_calls,
        "\n</",
        DSML_SP_TOKEN,
        name,
        ">",
    ];
    assert(text::str_views(pieces@) =~= seq![
        "<"@,
        DSML_SP_TOKEN@,
        name@,
        ">\n"@,
        tool_calls@,
        "\n</"@,
        DSML_SP_TOKEN@,
        name@,
        ">"@,
    ]);
    concat(&pieces)
}

/// A tool call with its arguments.
pub open spec fn tool_call_text(
    markup: Markup,
    call: ToolCallModel,
    json: spec_fn(Value) -> Seq<char>,
) -> Seq<char> {
    tool_call_element(
        markup,
        call.name,
        tool_arguments_text(call.arguments, markup.tool_parameter_tag_name, json),
    )
}

/// Tool calls, one behind the other on lines of their own.
pub open spec fn tool_calls_text(
    markup: Markup,
    calls: Seq<ToolCallModel>,
    json: spec_fn(Value) -> Seq<char>,
) -> Seq<char> {
    text::joined(calls.map_values(|call: ToolCallModel| tool_call_text(markup, call, json)), "\n"@)
}

/// Renders tool calls as one text, in their order. In a prompt the same text is
/// parted into segments.
pub fn render_tool_calls<E: EncodingV4, S: Fn(&Value) -> String>(
    encoding: &E,
    tool_calls: &Vec<ToolCall>,
    stringify: &S,
) -> (text: String)
    requires
        json::is_stringifier(*stringify),
    ensures
        text@ == tool_calls_text(
            encoding.markup(),
            conversation::tool_call_views(tool_calls@),
            json::json_text(*stringify),
        ),
        calls_written(*stringify, conversation::tool_call_views(tool_calls@)),
{
    let ghost markup = encoding.markup();
    let ghost json = json::json_text(*stringify);
    let ghost calls = conversation::tool_call_views(tool_calls@);
    let mut elements: Vec<String> = Vec::new();
    let mut done: usize = 0;
    while done < tool_calls.len()
        invariant
            json::is_stringifier(*stringify),
            json == json::json_text(*stringify),
            markup == encoding.markup(),
            calls == conversation::tool_call_views(tool_calls@),
            done <= tool_calls.len(),
            elements.len() == done,
            forall|i: int|
                0 <= i < done ==> #[trigger] elements@[i]@ == tool_call_text(
                    markup,
                    calls[i],
                    json,
                ),
            forall|i: int|
                0 <= i < done ==> arguments_written(*stringify, (#[trigger] calls[i]).arguments),
        decreases tool_calls.len() - done,
    {
        let tool_call = &tool_calls[done];
        assert(calls[done as int] == tool_call@);
        let arguments = render_tool_arguments(
            tool_call,
            encoding.tool_parameter_tag_name(),
            stringify,
        );
        elements.push(
            tool_call_template(encoding, tool_call.name.as_str(), arguments.as_str()),
        );
        done += 1;
    }
    assert(text::string_views(elements@) =~= calls.map_values(
        |call: ToolCallModel| tool_call_text(markup, call, json),
    ));
    join(&elements, "\n")
}

/// The description of a tool; empty if it has none.
pub open spec fn description_text(tool: ToolDefinitionModel) -> Seq<char> {
    match tool.description {
        Some(description) => description,
        None => Seq::empty(),
    }
}

/// The JSON object that describes a tool.
pub open spec fn tool_schema_value(tool: ToolDefinitionModel) -> Value {
    json::object_value(
        seq![
            ("name"@, json::string_value(tool.name)),
            ("description"@, json::string_value(description_text(tool))),
            ("parameters"@, tool.parameters),
        ],
    )
}

/// Makes the JSON object that describes a tool.
pub fn tool_schema(tool: &ToolDefinition) -> (schema: Value)
    ensures
        schema == tool_schema_value(tool@),
{
    let description = match &tool.description {
        Some(description) => json_string(description.as_str()),
        None => {
            proof {
                reveal_strlit("");
                assert(""@ =~= description_text(tool@));
            }
            json_string("")
        },
    };
    let mut object = serde_json::Map::new();
    proof {
        reveal_strlit("name");
        reveal_strlit("description");
        reveal_strlit("parameters");
    }
    object.insert("name".to_owned(), json_string(tool.name.as_str()));
    assert("description"@.len() != "name"@.len());
    assert(!json::has_key(json::object_entries(object), "description"@));
    object.insert("description".to_owned(), description);
    assert("parameters"@.len() != "name"@.len() && "parameters"@.len() != "description"@.len());
    assert(!json::has_key(json::object_entries(object), "parameters"@));
    object.insert("parameters".to_owned(), tool.parameters.clone());
    assert(json::object_entries(object) =~= seq![
        ("name"@, json::string_value(tool@.name)),
        ("description"@, json::string_value(description_text(tool@))),
        ("parameters"@, tool@.parameters),
    ]);
    json_object(object)
}

/// The JSON object that stands for the reply format of a JSON object.
pub open spec fn response_schema_value() -> Value {
    json::object_value(seq![("type"@, json::string_value("json_object"@))])
}

/// Makes the JSON object that stands for the reply format of a JSON object.
pub fn response_schema() -> (schema: Value)
    ensures
        schema == response_schema_value(),
{
    let mut object = serde_json::Map::new();
    object.insert("type".to_owned(), json_string("json_object"));
    assert(json::object_entries(object) =~= seq![("type"@, json::string_value("json_object"@))]);
    json_object(object)
}

/// The texts of the JSON objects that describe tools, one to a line.
pub open spec fn tool_schemas_text(
    tools: Seq<ToolDefinitionModel>,
    json: spec_fn(Value) -> Seq<char>,
) -> Seq<char> {
    text::joined(tools.map_values(|tool: ToolDefinitionModel| json(tool_schema_value(tool))), "\n"@)
}

/// The prompt that presents tools, up to the texts that describe them.
pub open spec fn tool_prompt_opening(markup: Markup) -> Seq<Seq<char>> {
    seq![
        "## Tools\n\nYou have access to a set of tools to help answer the user's question. You can invoke tools by writing a \"<"@,
        DSML_SP_TOKEN@,
        markup.tool_calls_block_name,
        ">\" block like the following:\n\n<"@,
        DSML_SP_TOKEN@,
        markup.tool_calls_block_name,
        ">\n<"@,
        DSML_SP_TOKEN@,
        markup.tool_call_tag_name,
        " name=\"$TOOL_NAME\">\n<"@,
        DSML_SP_TOKEN@,
        markup.tool_parameter_tag_name,
        " name=\"$PARAMETER_NAME\" string=\"true|false\">$PARAMETER_VALUE</"@,
        DSML_SP_TOKEN@,
        markup.tool_parameter_tag_name,
        ">\n...\n</"@,
        DSML_SP_TOKEN@,
        markup.tool_call_tag_name,
        ">\n<"@,
        DSML_SP_TOKEN@,
        markup.tool_call_tag_name,
        " name=\"$TOOL_NAME2\">\n...\n</"@,
        DSML_SP_TOKEN@,
        markup.tool_call_tag_name,
        ">\n</"@,
        DSML_SP_TOKEN@,
        markup.tool_calls_block_name,
        ">\n\nString parameters should be specified as is and set `string=\"true\"`. For all other types (numbers, booleans, arrays, objects), pass the value in JSON format and set `string=\"false\"`.\n\nIf thinking_mode is enabled (triggered by "@,
        THINKING_START_TOKEN@,
        "), you MUST output your complete reasoning inside "@,
        THINKING_START_TOKEN@,
        "..."@,
        THINKING_END_TOKEN@,
        " BEFORE any tool calls or final response.\n\nOtherwise, output directly after "@,
        THINKING_END_TOKEN@,
        " with tool calls or final response.\n\n### Available Tool Schemas\n\n"@,
    ]
}

/// The prompt that presents tools, given the texts that describe them.
pub open spec fn tool_prompt_text(markup: Markup, schemas: Seq<char>) -> Seq<char> {
    tool_prompt_opening(markup).push(schemas).push(
        "\n\nYou MUST strictly follow the above defined tool name and parameter schemas to invoke tool calls.\n"@,
    ).flatten()
}

/// Renders the prompt that presents tools.
pub fn render_tool_prompt<E: EncodingV4, S: Fn(&Value) -> String>(
    encoding: &E,
    tools: &Vec<ToolDefinition>,
    stringify: &S,
) -> (prompt: String)
    requires
        json::is_stringifier(*stringify),
    ensures
        prompt@ == tool_prompt_text(
            encoding.markup(),
            tool_schemas_text(conversation::tool_views(tools@), json::json_text(*stringify)),
        ),
        schemas_written(*stringify, conversation::tool_views(tools@)),
{
    let ghost json = json::json_text(*stringify);
    let ghost models = conversation::tool_views(tools@);
    let mut texts: Vec<String> = Vec::new();
    let mut done: usize = 0;
    while done < tools.len()
        invariant
            json::is_stringifier(*stringify),
            json == json::json_text(*stringify),
            models == conversation::tool_views(tools@),
            done <= tools.len(),
            texts.len() == done,
            forall|i: int|
                0 <= i < done ==> #[trigger] texts@[i]@ == json(tool_schema_value(models[i])),
            forall|i: int|
                0 <= i < done ==> json::is_written(
                    *stringify,
                    tool_schema_value(#[trigger] models[i]),
                ),
        decreases tools.len() - done,
    {
        assert(models[done as int] == tools@[done as int]@);
        let schema = tool_schema(&tools[done]);
        texts.push(stringify(&schema));
        done += 1;
    }
    assert(text::string_views(texts@) =~= models.map_values(
        |tool: ToolDefinitionModel| json(tool_schema_value(tool)),
    ));
    let schemas = join(&texts, "\n");
    tool_prompt_template(encoding, schemas.as_str())
}

/// Fills the texts that describe tools into the prompt that presents them.
pub fn tool_prompt_template<E: EncodingV4>(encoding: &E, schemas: &str) -> (prompt: String)
    ensures
        prompt@ == tool_prompt_text(encoding.markup(), schemas@),
{
    let block = encoding.tool_calls_block_name();
    let call = encoding.tool_call_tag_name();
    let parameter = encoding.tool_parameter_tag_name();
    let pieces = [
        "## Tools\n\nYou have access to a set of tools to help answer the user's question. You can invoke tools by writing a \"<",
        DSML_SP_TOKEN,
        block,
        ">\" block like the following:\n\n<",
        DSML_SP_TOKEN,
        block,
        ">\n<",
        DSML_SP_TOKEN,
        call,
        " name=\"$TOOL_NAME\">\n<",
        DSML_SP_TOKEN,
        parameter,
        " name=\"$PARAMETER_NAME\" string=\"true|false\">$PARAMETER_VALUE</",
        DSML_SP_TOKEN,
        parameter,
        ">\n...\n</",
        DSML_SP_TOKEN,
        call,
        ">\n<",
        DSML_SP_TOKEN,
        call,
        " name=\"$TOOL_NAME2\">\n...\n</",
        DSML_SP_TOKEN,
        call,
        ">\n</",
        DSML_SP_TOKEN,
        block,
        ">\n\nString parameters should be specified as is and set `string=\"true\"`. For all other types (numbers, booleans, arrays, objects), pass the value in JSON format and set `string=\"false\"`.\n\nIf thinking_mode is enabled (triggered by ",
        THINKING_START_TOKEN,
        "), you MUST output your complete reasoning inside ",
        THINKING_START_TOKEN,
        "...",
        THINKING_END_TOKEN,
        " BEFORE any tool calls or final response.\n\nOtherwise, output directly after ",
        THINKING_END_TOKEN,
        " with tool calls or final response.\n\n### Available Tool Schemas\n\n",
        schemas,
        "\n\nYou MUST strictly follow the above defined tool name and parameter schemas to invoke tool calls.\n",
    ];
    assert(text::str_views(pieces@) =~= tool_prompt_opening(encoding.markup()).push(schemas@).push(
        "\n\nYou MUST strictly follow the above defined tool name and parameter schemas to invoke tool calls.\n"@,
    ));
    concat(&pieces)
}

} // verus!
