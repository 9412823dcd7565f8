//! An encoding of the family that is given by its markup.

use crate::conversation::ReasoningEffort;
use crate::tokenizer::TokenizerEncoder;
use crate::v4::{EncodingV4, Markup};
use vstd::prelude::*;

verus! {

/// `prompt` gives a text for every index, mode and effort, and always the same.
pub open spec fn is_effort_prompt<R: Fn(usize, bool, Option<ReasoningEffort>) -> String>(
    prompt: R,
) -> bool {
    &&& forall|index: usize, thinking_mode: bool, effort: Option<ReasoningEffort>| #[trigger]
        prompt.requires((index, thinking_mode, effort))
    &&& forall|
        index: usize,
        thinking_mode: bool,
        effort: Option<ReasoningEffort>,
        a: String,
        b: String,
    | #[trigger]
        prompt.ensures((index, thinking_mode, effort), a) && #[trigger] prompt.ensures(
            (index, thinking_mode, effort),
            b,
        ) ==> a@ == b@
}

/// The text that `prompt` gives in one case.
pub open spec fn prompt_at<R: Fn(usize, bool, Option<ReasoningEffort>) -> String>(
    prompt: R,
    index: usize,
    thinking_mode: bool,
    effort: Option<ReasoningEffort>,
) -> Seq<char> {
    (choose|text: String| prompt.ensures((index, thinking_mode, effort), text))@
}

/// The texts that `prompt` gives.
pub open spec fn effort_prompt_text<R: Fn(usize, bool, Option<ReasoningEffort>) -> String>(
    prompt: R,
) -> spec_fn(int, bool, Option<ReasoningEffort>) -> Seq<char> {
    |index: int, thinking_mode: bool, effort: Option<ReasoningEffort>|
        prompt_at(prompt, index as usize, thinking_mode, effort)
}

/// The text for an index, mode and effort is the one that `prompt` gives.
pub proof fn law_effort_prompt<R: Fn(usize, bool, Option<ReasoningEffort>) -> String>(
    prompt: R,
    index: usize,
    thinking_mode: bool,
    effort: Option<ReasoningEffort>,
    text: String,
)
    requires
        is_effort_prompt(prompt),
        prompt.ensures((index, thinking_mode, effort), text),
    ensures
        effort_prompt_text(prompt)(index as int, thinking_mode, effort) == text@,
{
}

/// An encoding that is put together from its markup and, if it is to encode
/// token ids, a tokenizer.
pub struct VersionEncoding<
    K: TokenizerEncoder,
    R: Fn(usize, bool, Option<ReasoningEffort>) -> String,
> {
    tokenizer: Option<K>,
    mid_conversation_system: bool,
    system_token: &'static str,
    tool_calls_block_name: &'static str,
    tool_call_tag_name: &'static str,
    tool_parameter_tag_name: &'static str,
    effort_prompt: R,
}

impl<
    K: TokenizerEncoder,
    R: Fn(usize, bool, Option<ReasoningEffort>) -> String,
> VersionEncoding<K, R> {
    #[verifier::type_invariant]
    spec fn wf(self) -> bool {
        &&& self.tokenizer matches Some(tokenizer) ==> tokenizer.usable()
        &&& is_effort_prompt(self.effort_prompt)
    }

    /// An encoding with this markup and without a tokenizer.
    pub fn new(
        mid_conversation_system: bool,
        system_token: &'static str,
        tool_calls_block_name: &'static str,
        tool_call_tag_name: &'static str,
        tool_parameter_tag_name: &'static str,
        effort_prompt: R,
    ) -> (encoding: Self)
        requires
            is_effort_prompt(effort_prompt),
        ensures
            encoding.encoder() is None,
            encoding.markup() == (Markup {
                mid_conversation_system,
                system_token: system_token@,
                tool_calls_block_name: tool_calls_block_name@,
                tool_call_tag_name: tool_call_tag_name@,
                tool_parameter_tag_name: tool_parameter_tag_name@,
                reasoning_prompt: effort_prompt_text(effort_prompt),
            }),
    {
        VersionEncoding {
            tokenizer: None,
            mid_conversation_system,
            system_token,
            tool_calls_block_name,
            tool_call_tag_name,
            tool_parameter_tag_name,
            effort_prompt,
        }
    }

    /// The encoding with this tokenizer, which has to be usable. Of a
    /// `Tokenizer`, `tokenizer::is_usable` tells whether it is.
    pub fn with_tokenizer(self, tokenizer: K) -> (encoding: Self)
        requires
            tokenizer.usable(),
        ensures
            encoding.encoder() == Some(&tokenizer),
            encoding.markup() == self.markup(),
    {
        proof {
            use_type_invariant(&self);
        }
        VersionEncoding {
            tokenizer: Some(tokenizer),
            mid_conversation_system: self.mid_conversation_system,
            system_token: self.system_token,
            tool_calls_block_name: self.tool_calls_block_name,
            tool_call_tag_name: self.tool_call_tag_name,
            tool_parameter_tag_name: self.tool_parameter_tag_name,
            effort_prompt: self.effort_prompt,
        }
    }
}

impl<
    K: TokenizerEncoder,
    R: Fn(usize, bool, Option<ReasoningEffort>) -> String,
> EncodingV4 for VersionEncoding<K, R> {
    type Encoder = K;

    closed spec fn markup(&self) -> Markup {
        Markup {
            mid_conversation_system: self.mid_conversation_system,
            system_token: self.system_token@,
            tool_calls_block_name: self.tool_calls_block_name@,
            tool_call_tag_name: self.tool_call_tag_name@,
            tool_parameter_tag_name: self.tool_parameter_tag_name@,
            reasoning_prompt: effort_prompt_text(self.effort_prompt),
        }
    }

    closed spec fn encoder(&self) -> Option<&K> {
        match self.tokenizer {
            Some(tokenizer) => Some(&tokenizer),
            None => None,
        }
    }

    fn tokenizer(&self) -> (encoder: Option<&K>) {
        proof {
            use_type_invariant(self);
        }
        self.tokenizer.as_ref()
    }

    fn supports_mid_conversation_system(&self) -> (supported: bool) {
        self.mid_conversation_system
    }

    fn system_token(&self) -> (token: &'static str) {
        self.system_token
    }

    fn tool_calls_block_name(&self) -> (name: &'static str) {
        self.tool_calls_block_name
    }

    fn tool_call_tag_name(&self) -> (name: &'static str) {
        self.tool_call_tag_name
    }

    fn tool_parameter_tag_name(&self) -> (name: &'static str) {
        self.tool_parameter_tag_name
    }

    fn render_reasoning_effort(
        &self,
        index: usize,
        thinking_mode: bool,
        effort: Option<ReasoningEffort>,
    ) -> (prompt: String) {
        proof {
            use_type_invariant(self);
        }
        (self.effort_prompt)(index, thinking_mode, effort)
    }
}

} // verus!
