//! Prompts for conversations with language models of the V4 family.
//!
//! A [`Conversation`] is rendered as a prompt, or encoded into token ids, by an
//! encoding of the family: something that implements [`v4::EncodingV4`] and
//! thereby [`PromptEncoding`]. Template and content are kept apart on the way:
//! in the content of a message no control token is recognized.

pub mod conversation;
pub mod json;
pub mod part_laws;
pub mod parts;
pub mod patterns;
pub mod prompt;
pub mod text;
pub mod tokenizer;
pub mod v4;

pub use conversation::Conversation;
pub use prompt::{EncodingError, PromptEncoding, RenderedPrompt};
pub use tokenizer::TokenizerEncoder;
