//! What a caller hands to a prompt encoding: messages, tools and settings.
//!
//! Each type with text in it has a model of the same shape over sequences of
//! characters, which is its view.

use serde_json::Value;
use vstd::prelude::*;

verus! {

/// Where an image of a message is found. It is carried through unread.
#[derive(Debug)]
pub struct ImageSource {
    pub location: String,
}

impl View for ImageSource {
    type V = Seq<char>;

    open spec fn view(&self) -> Seq<char> {
        self.location@
    }
}

impl Clone for ImageSource {
    fn clone(&self) -> (copy: Self)
        ensures
            copy@ == self@,
    {
        ImageSource { location: self.location.clone() }
    }
}

/// The locations of a list of image sources.
pub open spec fn image_views(sources: Seq<ImageSource>) -> Seq<Seq<char>> {
    sources.map_values(|source: ImageSource| source@)
}

/// A call of a tool, made by the assistant. `arguments` is JSON text.
#[derive(Debug)]
pub struct ToolCall {
    pub id: String,
    pub name: String,
    pub arguments: String,
}

/// Model of a [`ToolCall`].
pub struct ToolCallModel {
    pub id: Seq<char>,
    pub name: Seq<char>,
    pub arguments: Seq<char>,
}

impl View for ToolCall {
    type V = ToolCallModel;

    open spec fn view(&self) -> ToolCallModel {
        ToolCallModel { id: self.id@, name: self.name@, arguments: self.arguments@ }
    }
}

impl Clone for ToolCall {
    fn clone(&self) -> (copy: Self)
        ensures
            copy@ == self@,
    {
        ToolCall {
            id: self.id.clone(),
            name: self.name.clone(),
            arguments: self.arguments.clone(),
        }
    }
}

/// The models of a list of tool calls.
pub open spec fn tool_call_views(calls: Seq<ToolCall>) -> Seq<ToolCallModel> {
    calls.map_values(|call: ToolCall| call@)
}

/// A message of a conversation.
#[derive(Debug)]
pub enum InputMessage {
    System { content: String },
    User { content: String, image_sources: Vec<ImageSource> },
    LatestReminder { content: String },
    Tool { tool_call_id: String, content: String, image_sources: Vec<ImageSource> },
    Assistant {
        content: String,
        reasoning_content: Option<String>,
        tool_calls: Option<Vec<ToolCall>>,
    },
}

/// Model of an [`InputMessage`].
pub enum MessageModel {
    System { content: Seq<char> },
    User { content: Seq<char>, image_sources: Seq<Seq<char>> },
    LatestReminder { content: Seq<char> },
    Tool { tool_call_id: Seq<char>, content: Seq<char>, image_sources: Seq<Seq<char>> },
    Assistant {
        content: Seq<char>,
        reasoning_content: Option<Seq<char>>,
        tool_calls: Option<Seq<ToolCallModel>>,
    },
}

impl View for InputMessage {
    type V = MessageModel;

    open spec fn view(&self) -> MessageModel {
        match *self {
            InputMessage::System { content } => MessageModel::System { content: content@ },
            InputMessage::User { content, image_sources } => MessageModel::User {
                content: content@,
                image_sources: image_views(image_sources@),
            },
            InputMessage::LatestReminder { content } => MessageModel::LatestReminder {
                content: content@,
            },
            InputMessage::Tool { tool_call_id, content, image_sources } => MessageModel::Tool {
                tool_call_id: tool_call_id@,
                content: content@,
                image_sources: image_views(image_sources@),
            },
            InputMessage::Assistant { content, reasoning_content, tool_calls } => {
                MessageModel::Assistant {
                    content: content@,
                    reasoning_content: match reasoning_content {
                        Some(reasoning) => Some(reasoning@),
                        None => None,
                    },
                    tool_calls: match tool_calls {
                        Some(calls) => Some(tool_call_views(calls@)),
                        None => None,
                    },
                }
            },
        }
    }
}

impl Clone for InputMessage {
    fn clone(&self) -> (copy: Self)
        ensures
            copy@ == self@,
    {
        match self {
            InputMessage::System { content } => InputMessage::System { content: content.clone() },
            InputMessage::User { content, image_sources } => {
                let sources = image_sources.clone();
                assert(image_views(sources@) =~= image_views(image_sources@));
                InputMessage::User { content: content.clone(), image_sources: sources }
            },
            InputMessage::LatestReminder { content } => InputMessage::LatestReminder {
                content: content.clone(),
            },
            InputMessage::Tool { tool_call_id, content, image_sources } => {
                let sources = image_sources.clone();
                assert(image_views(sources@) =~= image_views(image_sources@));
                InputMessage::Tool {
                    tool_call_id: tool_call_id.clone(),
                    content: content.clone(),
                    image_sources: sources,
                }
            },
            InputMessage::Assistant { content, reasoning_content, tool_calls } => {
                let reasoning: Option<String> = match reasoning_content {
                    Some(text) => Some(text.clone()),
                    None => None,
                };
                let calls: Option<Vec<ToolCall>> = match tool_calls {
                    Some(list) => {
                        let copies = list.clone();
                        assert(tool_call_views(copies@) =~= tool_call_views(list@));
                        Some(copies)
                    },
                    None => None,
                };
                InputMessage::Assistant {
                    content: content.clone(),
                    reasoning_content: reasoning,
                    tool_calls: calls,
                }
            },
        }
    }
}

/// The models of a list of messages.
pub open spec fn message_views(messages: Seq<InputMessage>) -> Seq<MessageModel> {
    messages.map_values(|message: InputMessage| message@)
}

/// A tool that the assistant may call. `parameters` is the JSON schema of its
/// arguments.
#[derive(Debug)]
pub struct ToolDefinition {
    pub name: String,
    pub description: Option<String>,
    pub parameters: Value,
}

/// Model of a [`ToolDefinition`].
pub struct ToolDefinitionModel {
    pub name: Seq<char>,
    pub description: Option<Seq<char>>,
    pub parameters: Value,
}

impl View for ToolDefinition {
    type V = ToolDefinitionModel;

    open spec fn view(&self) -> ToolDefinitionModel {
        ToolDefinitionModel {
            name: self.name@,
            description: match self.description {
                Some(description) => Some(description@),
                None => None,
            },
            parameters: self.parameters,
        }
    }
}

/// The models of a list of tool definitions.
pub open spec fn tool_views(tools: Seq<ToolDefinition>) -> Seq<ToolDefinitionModel> {
    tools.map_values(|tool: ToolDefinition| tool@)
}

/// Whether the assistant may, must or must not call a tool.
#[derive(Clone, Copy, Debug, PartialEq, Eq, Structural)]
pub enum ToolChoice {
    Never,
    Auto,
    Required,
}

/// The form in which the assistant is asked to reply.
#[derive(Clone, Copy, Debug, PartialEq, Eq, Structural)]
pub enum ResponseFormat {
    Text,
    JsonObject,
}

/// How much reasoning is asked for. Only the encoding of a model version gives
/// the level a meaning.
#[derive(Clone, Copy, Debug, PartialEq, Eq, Structural)]
pub struct ReasoningEffort {
    pub level: u8,
}

/// A conversation to be rendered as a prompt.
#[derive(Debug)]
pub struct Conversation {
    pub messages: Vec<InputMessage>,
    pub tools: Vec<ToolDefinition>,
    pub tool_choice: ToolChoice,
    pub response_format: ResponseFormat,
    pub thinking_mode: bool,
    pub reasoning_effort: Option<ReasoningEffort>,
}

/// Model of a [`Conversation`].
pub struct ConversationModel {
    pub messages: Seq<MessageModel>,
    pub tools: Seq<ToolDefinitionModel>,
    pub tool_choice: ToolChoice,
    pub response_format: ResponseFormat,
    pub thinking_mode: bool,
    pub reasoning_effort: Option<ReasoningEffort>,
}

impl View for Conversation {
    type V = ConversationModel;

    open spec fn view(&self) -> ConversationModel {
        ConversationModel {
            messages: message_views(self.messages@),
            tools: tool_views(self.tools@),
            tool_choice: self.tool_choice,
            response_format: self.response_format,
            thinking_mode: self.thinking_mode,
            reasoning_effort: self.reasoning_effort,
        }
    }
}

/// The model of a message is of its kind and has all its texts, calls and image
/// sources.
pub proof fn law_message_model(message: InputMessage)
    ensures
        message matches InputMessage::System { content } ==> (message@ matches MessageModel::System {
            content: text,
        } && text == content@),
        message matches InputMessage::User { content, image_sources } ==> (
        message@ matches MessageModel::User { content: text, image_sources: sources } && text
            == content@ && is_view_of_images(sources, image_sources@)),
        message matches InputMessage::LatestReminder { content } ==> (
        message@ matches MessageModel::LatestReminder { content: text } && text == content@),
        message matches InputMessage::Tool { tool_call_id, content, image_sources } ==> (
        message@ matches MessageModel::Tool {
            tool_call_id: id,
            content: text,
            image_sources: sources,
        } && id == tool_call_id@ && text == content@ && is_view_of_images(
            sources,
            image_sources@,
        )),
        message matches InputMessage::Assistant { content, reasoning_content, tool_calls } ==> (
        message@ matches MessageModel::Assistant {
            content: text,
            reasoning_content: reasoning,
            tool_calls: calls,
        } && text == content@ && (reasoning is Some <==> reasoning_content is Some) && (
        reasoning is Some ==> reasoning->0 == reasoning_content->0@) && (calls is Some
            <==> tool_calls is Some) && (calls is Some ==> is_view_of_calls(
            calls->0,
            tool_calls->0@,
        ))),
{
}

/// The locations of `images`, one by one.
pub open spec fn is_view_of_images(sources: Seq<Seq<char>>, images: Seq<ImageSource>) -> bool {
    &&& sources.len() == images.len()
    &&& forall|i: int| 0 <= i < images.len() ==> #[trigger] sources[i] == images[i].location@
}

/// The models of `calls`, one by one.
pub open spec fn is_view_of_calls(models: Seq<ToolCallModel>, calls: Seq<ToolCall>) -> bool {
    &&& models.len() == calls.len()
    &&& forall|i: int|
        0 <= i < calls.len() ==> (#[trigger] models[i]).id == calls[i].id@ && models[i].name
            == calls[i].name@ && models[i].arguments == calls[i].arguments@
}

/// The model of a conversation has all its messages and tools in their order,
/// and its settings.
pub proof fn law_conversation_model(conversation: Conversation)
    ensures
        conversation@.messages.len() == conversation.messages@.len(),
        forall|i: int|
            0 <= i < conversation.messages@.len() ==> #[trigger] conversation@.messages[i]
                == conversation.messages@[i]@,
        conversation@.tools.len() == conversation.tools@.len(),
        forall|i: int|
            0 <= i < conversation.tools@.len() ==> (#[trigger] conversation@.tools[i]).name
                == conversation.tools@[i].name@ && conversation@.tools[i].parameters
                == conversation.tools@[i].parameters && (conversation@.tools[i].description is Some
                <==> conversation.tools@[i].description is Some) && (
            conversation@.tools[i].description is Some ==> conversation@.tools[i].description->0
                == conversation.tools@[i].description->0@),
        conversation@.tool_choice == conversation.tool_choice,
        conversation@.response_format == conversation.response_format,
        conversation@.thinking_mode == conversation.thinking_mode,
        conversation@.reasoning_effort == conversation.reasoning_effort,
{
}

/// The models of messages, and the locations of image sources, are those of each
/// of them, one by one.
pub proof fn law_list_models(messages: Seq<InputMessage>, images: Seq<ImageSource>)
    ensures
        message_views(messages).len() == messages.len(),
        forall|i: int|
            0 <= i < messages.len() ==> #[trigger] message_views(messages)[i] == messages[i]@,
        is_view_of_images(image_views(images), images),
{
}

} // verus!
