//! Prompt encodings of the V4 family.
//!
//! A conversation is brought into a normal form, each message is rendered into
//! segments, and the segments are put together as a prompt or encoded into
//! token ids one by one.

pub mod content_laws;
pub mod encode;
pub mod message_laws;
pub mod normal_laws;
pub mod normalize;
pub mod order_laws;
pub mod prompt_laws;
pub mod render;
pub mod tool_laws;
pub mod tool_order;
pub mod tool_segments;
pub mod tools;
pub mod version;

use crate::conversation::ReasoningEffort;
use crate::tokenizer::TokenizerEncoder;
use vstd::prelude::*;

verus! {

/// Marks the start of the prompt.
pub const BOS_TOKEN: &'static str = "<｜begin▁of▁sentence｜>";

/// Starts the reasoning content of an assistant turn.
pub const THINKING_START_TOKEN: &'static str = "<think>";

/// Ends the reasoning content of an assistant turn.
pub const THINKING_END_TOKEN: &'static str = "</think>";

/// Starts a system message in a V4.1 prompt.
pub const SYSTEM_SP_TOKEN: &'static str = "<｜System｜>";

/// Starts a user message.
pub const USER_SP_TOKEN: &'static str = "<｜User｜>";

/// Starts an assistant message.
pub const ASSISTANT_SP_TOKEN: &'static str = "<｜Assistant｜>";

/// Starts the latest reminder message.
pub const LATEST_REMINDER_SP_TOKEN: &'static str = "<｜latest_reminder｜>";

/// Terminates a message.
pub const EOS_TOKEN: &'static str = "<｜end▁of▁sentence｜>";

/// Tag name prefix of the markup that structures tool calls. The angle brackets
/// come from the surrounding template, as in `<｜DSML｜tool_calls>` for V4 and
/// `<｜DSML｜ calls>` for V4.1.
pub const DSML_SP_TOKEN: &'static str = "｜DSML｜";

/// In what the encodings of the family differ from each other.
pub struct Markup {
    /// System messages keep their place in the conversation.
    pub mid_conversation_system: bool,
    /// The token before a system message; empty if there is none.
    pub system_token: Seq<char>,
    pub tool_calls_block_name: Seq<char>,
    pub tool_call_tag_name: Seq<char>,
    pub tool_parameter_tag_name: Seq<char>,
    /// The text that asks for an effort before the message at an index; empty
    /// if there is none.
    pub reasoning_prompt: spec_fn(int, bool, Option<ReasoningEffort>) -> Seq<char>,
}

/// An encoding of the family.
pub trait EncodingV4 {
    /// What turns segments into token ids.
    type Encoder: TokenizerEncoder + ?Sized;

    spec fn markup(&self) -> Markup;

    spec fn encoder(&self) -> Option<&Self::Encoder>;

    fn tokenizer(&self) -> (encoder: Option<&Self::Encoder>)
        ensures
            encoder == self.encoder(),
            encoder matches Some(tokenizer) ==> tokenizer.usable(),
    ;

    fn supports_mid_conversation_system(&self) -> (supported: bool)
        ensures
            supported == self.markup().mid_conversation_system,
    ;

    fn system_token(&self) -> (token: &'static str)
        ensures
            token@ == self.markup().system_token,
    ;

    fn tool_calls_block_name(&self) -> (name: &'static str)
        ensures
            name@ == self.markup().tool_calls_block_name,
    ;

    fn tool_call_tag_name(&self) -> (name: &'static str)
        ensures
            name@ == self.markup().tool_call_tag_name,
    ;

    fn tool_parameter_tag_name(&self) -> (name: &'static str)
        ensures
            name@ == self.markup().tool_parameter_tag_name,
    ;

    fn render_reasoning_effort(
        &self,
        index: usize,
        thinking_mode: bool,
        effort: Option<ReasoningEffort>,
    ) -> (prompt: String)
        ensures
            prompt@ == (self.markup().reasoning_prompt)(index as int, thinking_mode, effort),
    ;
}

} // verus!
