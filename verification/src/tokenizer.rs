//! Encode rendered prompts into token ids.

use crate::parts;
use crate::parts::{are_parts_usable, copy_of, has_added_tokens, set_added_vocabulary};
use std::sync::Arc;
use tokenizers::{AddedVocabulary, Tokenizer};
use vstd::prelude::*;

verus! {

/// The results that `Tokenizer::encode` can give for a text where no special
/// tokens are to be added. A model with dropout draws lots, so there can be
/// several.
pub uninterp spec fn encode_outcomes(tokenizer: Tokenizer, text: Seq<char>) -> Set<
    Result<Seq<u32>, Seq<char>>,
>;

/// What a call for token ids came to: the ids, or the message of an error.
pub open spec fn ids_view(ids: Result<Vec<u32>, String>) -> Result<Seq<u32>, Seq<char>> {
    match ids {
        Ok(list) => Ok(list@),
        Err(message) => Err(message@),
    }
}

/// Calls `Tokenizer::encode` without special tokens and takes the ids out of the
/// encoding, or the message out of the error. The result is one of the outcomes
/// of the tokenizer for this text. The call panics on some texts with some parts
/// of a tokenizer, which are ruled out.
#[verifier::external_body]
fn encode_text(tokenizer: &Tokenizer, text: &str) -> (ids: Result<Vec<u32>, String>)
    requires
        parts::parts_usable(*tokenizer),
    ensures
        encode_outcomes(*tokenizer, text@).contains(ids_view(ids)),
{
    tokenizer.encode(text, false).map(|encoding| encoding.get_ids().to_vec()).map_err(
        |error| error.to_string(),
    )
}

/// Whether the parts of `tokenizer` are such that it can encode every text.
pub fn is_usable(tokenizer: &Tokenizer) -> (usable: bool)
    ensures
        usable == tokenizer.usable(),
{
    are_parts_usable(tokenizer)
}

/// Why content could not be encoded by a tokenizer that recognizes added tokens
/// and has no other way of encoding.
pub const NO_PLAIN_CONTENT: &'static str =
    "the tokenizer cannot encode content without recognizing added tokens";

/// Encode text into model token ids.
///
/// Implemented for [`Tokenizer`]; other tokenizers can implement it to back a
/// prompt encoding.
pub trait TokenizerEncoder: Send + Sync {
    /// The tokenizer is set up so that it can be asked for ids.
    open spec fn usable(&self) -> bool {
        true
    }

    /// Encode `text` into token ids without added special tokens.
    fn encode_ids(&self, text: &str) -> (ids: Result<Vec<u32>, String>)
        requires
            self.usable(),
    ;

    /// Whether [`encode_ids`](Self::encode_ids) recognizes added-token literals in
    /// a text.
    fn recognizes_added_tokens(&self) -> (recognizes: bool);

    /// Encode `text` as plain BPE: added-token literals in the text are not
    /// recognized. Used for user-supplied content so that control-token
    /// literals (e.g. `<｜User｜>`) cannot be smuggled into the prompt as
    /// single control tokens.
    ///
    /// What is provided is for tokenizers that recognize none anyway: it goes by
    /// [`encode_ids`](Self::encode_ids). On others it fails, so that they have to
    /// bring their own.
    fn encode_content_ids(&self, text: &str) -> (ids: Result<Vec<u32>, String>)
        requires
            self.usable(),
        default_ensures
            exists|recognizes: bool| #[trigger]
                call_ensures(Self::recognizes_added_tokens, (self,), recognizes) && (if recognizes {
                    ids_view(ids) == Err::<Seq<u32>, Seq<char>>(NO_PLAIN_CONTENT@)
                } else {
                    call_ensures(Self::encode_ids, (self, text), ids)
                }),
    {
        if self.recognizes_added_tokens() {
            Err(NO_PLAIN_CONTENT.to_owned())
        } else {
            self.encode_ids(text)
        }
    }
}

/// `ids` is a result of `tokenizer` for `text`, with its added vocabulary.
pub open spec fn is_template_encoding(
    tokenizer: Tokenizer,
    text: Seq<char>,
    ids: Result<Seq<u32>, Seq<char>>,
) -> bool {
    encode_outcomes(tokenizer, text).contains(ids)
}

/// `ids` is a result for `text` of `tokenizer` with an added vocabulary that
/// holds no literal, so that none is recognized.
pub open spec fn is_content_encoding(
    tokenizer: Tokenizer,
    text: Seq<char>,
    ids: Result<Seq<u32>, Seq<char>>,
) -> bool {
    exists|vocabulary: AddedVocabulary| #[trigger]
        parts::added_tokens(vocabulary) == parts::no_tokens() && encode_outcomes(
            parts::with_vocabulary(tokenizer, vocabulary),
            text,
        ).contains(ids)
}

impl TokenizerEncoder for Tokenizer {
    open spec fn usable(&self) -> bool {
        parts::parts_usable(*self)
    }

    fn encode_ids(&self, text: &str) -> (ids: Result<Vec<u32>, String>)
        ensures
            is_template_encoding(*self, text@, ids_view(ids)),
    {
        encode_text(self, text)
    }

    fn recognizes_added_tokens(&self) -> (recognizes: bool)
        ensures
            recognizes == (parts::added_tokens(parts::vocabulary_of(*self)) != parts::no_tokens()),
    {
        has_added_tokens(self)
    }

    fn encode_content_ids(&self, text: &str) -> (ids: Result<Vec<u32>, String>)
        ensures
            is_content_encoding(*self, text@, ids_view(ids)),
    {
        let mut plain = copy_of(self);
        set_added_vocabulary(&mut plain, AddedVocabulary::new());
        encode_text(&plain, text)
    }
}

impl<T: TokenizerEncoder> TokenizerEncoder for Arc<T> {
    open spec fn usable(&self) -> bool {
        (**self).usable()
    }

    fn recognizes_added_tokens(&self) -> (recognizes: bool)
        ensures
            call_ensures(T::recognizes_added_tokens, (&**self,), recognizes),
    {
        (**self).recognizes_added_tokens()
    }

    fn encode_ids(&self, text: &str) -> (ids: Result<Vec<u32>, String>)
        ensures
            call_ensures(T::encode_ids, (&**self, text), ids),
    {
        (**self).encode_ids(text)
    }

    fn encode_content_ids(&self, text: &str) -> (ids: Result<Vec<u32>, String>)
        ensures
            call_ensures(T::encode_content_ids, (&**self, text), ids),
    {
        (**self).encode_content_ids(text)
    }
}

} // verus!
