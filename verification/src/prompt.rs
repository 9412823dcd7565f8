//! What a prompt encoding makes of a conversation.

use crate::conversation::{Conversation, ImageSource};
use crate::json;
use serde_json::Value;
use vstd::prelude::*;

verus! {

/// Why a conversation could not be encoded into token ids.
#[derive(Debug)]
pub enum EncodingError {
    /// The encoding has no tokenizer.
    MissingTokenizer,
    /// The tokenizer failed with this message.
    Encode(String),
}

/// A rendered prompt with the images that belong to it, in the order of the
/// messages.
#[derive(Debug)]
pub struct RenderedPrompt {
    pub prompt: String,
    pub image_sources: Vec<ImageSource>,
}

/// Renders conversations as prompts and encodes them into token ids.
///
/// `stringify` writes JSON values: tool schemas, and arguments of tool calls
/// that are no strings.
pub trait PromptEncoding {
    /// Encodes `conversation` into token ids.
    fn encode<S: Fn(&Value) -> String>(
        &self,
        conversation: &Conversation,
        stringify: &S,
    ) -> (ids: Result<Vec<u32>, EncodingError>)
        requires
            json::is_stringifier(*stringify),
    ;

    /// Renders `conversation` as a prompt.
    fn render_conversation<S: Fn(&Value) -> String>(
        &self,
        conversation: &Conversation,
        stringify: &S,
    ) -> (rendered: RenderedPrompt)
        requires
            json::is_stringifier(*stringify),
    ;
}

} // verus!
