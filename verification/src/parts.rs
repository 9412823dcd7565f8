//! The parts of a `Tokenizer`, and with which of them it can encode every text.
//!
//! `Tokenizer::encode` panics on some texts for some parts. What decides is read
//! out of the parts here, so that such a tokenizer can be told from the others.

use crate::patterns;
use crate::patterns::{
    is_taking_characters, is_without_references, source_of, PatternModel, PatternText,
};
use crate::text;
use crate::text::concat;
use tokenizers::models::ModelWrapper;
use tokenizers::normalizers::replace::{Replace, ReplacePattern};
use tokenizers::normalizers::NormalizerWrapper;
use tokenizers::pre_tokenizers::split::{Split, SplitPattern};
use tokenizers::pre_tokenizers::PreTokenizerWrapper;
use tokenizers::processors::template::{Piece, Sequence, Template};
use tokenizers::processors::PostProcessorWrapper;
use tokenizers::utils::padding::PaddingStrategy;
use tokenizers::{AddedVocabulary, PostProcessor, Tokenizer};
use vstd::prelude::*;

verus! {

/// Declares `tokenizers::Tokenizer`.
#[verifier::external_type_specification]
#[verifier::external_body]
pub struct ExTokenizer(tokenizers::Tokenizer);

/// Declares `tokenizers::AddedVocabulary`, the tokens that a tokenizer
/// recognizes as literals in a text.
#[verifier::external_type_specification]
#[verifier::external_body]
pub struct ExAddedVocabulary(tokenizers::AddedVocabulary);

/// Declares `NormalizerWrapper`, what a text goes through first.
#[verifier::external_type_specification]
#[verifier::external_body]
pub struct ExNormalizer(tokenizers::normalizers::NormalizerWrapper);

/// Declares `Replace`, a normalizer that puts a text in place of others.
#[verifier::external_type_specification]
#[verifier::external_body]
pub struct ExReplace(tokenizers::normalizers::replace::Replace);

/// Declares `PreTokenizerWrapper`, what cuts a text into words.
#[verifier::external_type_specification]
#[verifier::external_body]
pub struct ExPreTokenizer(tokenizers::pre_tokenizers::PreTokenizerWrapper);

/// Declares `Split`, a pre-tokenizer that goes by a pattern.
#[verifier::external_type_specification]
#[verifier::external_body]
pub struct ExSplit(tokenizers::pre_tokenizers::split::Split);

/// Declares `ModelWrapper`, what makes tokens of words.
#[verifier::external_type_specification]
#[verifier::external_body]
pub struct ExModel(tokenizers::models::ModelWrapper);

/// Declares `PostProcessorWrapper`, what the tokens go through last.
#[verifier::external_type_specification]
#[verifier::external_body]
pub struct ExPostProcessor(tokenizers::processors::PostProcessorWrapper);

/// Declares `Template`, the pieces that a template puts together.
#[verifier::external_type_specification]
#[verifier::external_body]
pub struct ExTemplate(tokenizers::processors::template::Template);

/// What `Tokenizer::get_truncation` reports: `max_length` and `stride`.
pub uninterp spec fn truncation_limits(tokenizer: Tokenizer) -> Option<(usize, usize)>;

/// What `Tokenizer::get_padding` reports: the length of `PaddingStrategy::Fixed`,
/// and `pad_to_multiple_of`.
pub uninterp spec fn padding_limits(tokenizer: Tokenizer) -> Option<
    (Option<usize>, Option<usize>),
>;

/// What `Tokenizer::get_normalizer` hands out.
pub uninterp spec fn normalizer_of(tokenizer: Tokenizer) -> Option<NormalizerWrapper>;

/// What `Tokenizer::get_pre_tokenizer` hands out.
pub uninterp spec fn pre_tokenizer_of(tokenizer: Tokenizer) -> Option<PreTokenizerWrapper>;

/// What `Tokenizer::get_model` hands out.
pub uninterp spec fn model_of(tokenizer: Tokenizer) -> ModelWrapper;

/// What `Tokenizer::get_post_processor` hands out.
pub uninterp spec fn post_processor_of(tokenizer: Tokenizer) -> Option<PostProcessorWrapper>;

/// What `Tokenizer::get_added_vocabulary` hands out.
pub uninterp spec fn vocabulary_of(tokenizer: Tokenizer) -> AddedVocabulary;

/// What counts of an added token.
pub struct TokenModel {
    pub literal: Seq<char>,
    /// Takes the spaces before it.
    pub lstrip: bool,
    /// Takes the spaces behind it.
    pub rstrip: bool,
    /// Is looked for in a normalized form.
    pub normalized: bool,
}

/// The tokens in `AddedVocabulary::get_added_tokens_decoder`.
pub uninterp spec fn added_tokens(vocabulary: AddedVocabulary) -> Set<TokenModel>;

/// What an added vocabulary without tokens holds.
pub open spec fn no_tokens() -> Set<TokenModel> {
    Set::empty()
}

/// An added token, as far as it counts.
pub struct TokenPart {
    pub literal: String,
    pub lstrip: bool,
    pub rstrip: bool,
    pub normalized: bool,
}

impl View for TokenPart {
    type V = TokenModel;

    open spec fn view(&self) -> TokenModel {
        TokenModel {
            literal: self.literal@,
            lstrip: self.lstrip,
            rstrip: self.rstrip,
            normalized: self.normalized,
        }
    }
}

/// Calls `Tokenizer::get_truncation` and takes the two lengths out of it.
#[verifier::external_body]
fn get_truncation_limits(tokenizer: &Tokenizer) -> (limits: Option<(usize, usize)>)
    ensures
        limits == truncation_limits(*tokenizer),
{
    tokenizer.get_truncation().map(|params| (params.max_length, params.stride))
}

/// Calls `Tokenizer::get_padding` and takes the two lengths out of it.
#[verifier::external_body]
fn get_padding_limits(tokenizer: &Tokenizer) -> (limits: Option<(Option<usize>, Option<usize>)>)
    ensures
        limits == padding_limits(*tokenizer),
{
    tokenizer.get_padding().map(
        |params|
            {
                let fixed = match params.strategy {
                    PaddingStrategy::Fixed(length) => Some(length),
                    PaddingStrategy::BatchLongest => None,
                };
                (fixed, params.pad_to_multiple_of)
            },
    )
}

/// Calls `Tokenizer::get_normalizer`.
#[verifier::external_body]
fn get_normalizer<'a>(tokenizer: &'a Tokenizer) -> (part: Option<&'a NormalizerWrapper>)
    ensures
        part is Some <==> normalizer_of(*tokenizer) is Some,
        part matches Some(normalizer) ==> normalizer_of(*tokenizer) == Some(*normalizer),
{
    tokenizer.get_normalizer()
}

/// Calls `Tokenizer::get_pre_tokenizer`.
#[verifier::external_body]
fn get_pre_tokenizer<'a>(tokenizer: &'a Tokenizer) -> (part: Option<&'a PreTokenizerWrapper>)
    ensures
        part is Some <==> pre_tokenizer_of(*tokenizer) is Some,
        part matches Some(pre_tokenizer) ==> pre_tokenizer_of(*tokenizer) == Some(*pre_tokenizer),
{
    tokenizer.get_pre_tokenizer()
}

/// Calls `Tokenizer::get_model`.
#[verifier::external_body]
fn get_model<'a>(tokenizer: &'a Tokenizer) -> (part: &'a ModelWrapper)
    ensures
        *part == model_of(*tokenizer),
{
    tokenizer.get_model()
}

/// Calls `Tokenizer::get_post_processor`.
#[verifier::external_body]
fn get_post_processor<'a>(tokenizer: &'a Tokenizer) -> (part: Option<&'a PostProcessorWrapper>)
    ensures
        part is Some <==> post_processor_of(*tokenizer) is Some,
        part matches Some(processor) ==> post_processor_of(*tokenizer) == Some(*processor),
{
    tokenizer.get_post_processor()
}

/// Calls `Tokenizer::get_added_vocabulary`.
#[verifier::external_body]
fn get_added_vocabulary<'a>(tokenizer: &'a Tokenizer) -> (part: &'a AddedVocabulary)
    ensures
        *part == vocabulary_of(*tokenizer),
{
    tokenizer.get_added_vocabulary()
}

/// Calls `AddedVocabulary::get_added_tokens_decoder` and takes what counts out
/// of each token, in no particular order.
#[verifier::external_body]
fn vocabulary_tokens(vocabulary: &AddedVocabulary) -> (tokens: Vec<TokenPart>)
    ensures
        tokens@.map_values(|token: TokenPart| token@).to_set() == added_tokens(*vocabulary),
{
    vocabulary.get_added_tokens_decoder().values().map(
        |token|
            TokenPart {
                literal: token.content.clone(),
                lstrip: token.lstrip,
                rstrip: token.rstrip,
                normalized: token.normalized,
            },
    ).collect()
}

/// Calls `Tokenizer::clone`: a tokenizer with the same parts and settings. The
/// call compiles the pattern of a `Split` anew and panics where that fails,
/// which is ruled out.
#[verifier::external_body]
pub(crate) fn copy_of(tokenizer: &Tokenizer) -> (copy: Tokenizer)
    requires
        pre_tokenizer_of(*tokenizer) matches Some(part) ==> pre_tokenizer_usable(part),
    ensures
        copy == *tokenizer,
{
    tokenizer.clone()
}

/// `AddedVocabulary::new`: it holds no token.
pub assume_specification[ tokenizers::AddedVocabulary::new ]() -> (vocabulary: AddedVocabulary)
    ensures
        added_tokens(vocabulary) == no_tokens(),
;

/// The tokenizer that `Tokenizer::with_added_vocabulary` makes of a tokenizer.
pub uninterp spec fn with_vocabulary(
    tokenizer: Tokenizer,
    vocabulary: AddedVocabulary,
) -> Tokenizer;

/// Calls `Tokenizer::with_added_vocabulary`, which puts another added
/// vocabulary into the tokenizer and leaves its other parts and settings as
/// they are.
#[verifier::external_body]
pub(crate) fn set_added_vocabulary(tokenizer: &mut Tokenizer, vocabulary: AddedVocabulary)
    ensures
        *final(tokenizer) == with_vocabulary(*old(tokenizer), vocabulary),
        vocabulary_of(*final(tokenizer)) == vocabulary,
        truncation_limits(*final(tokenizer)) == truncation_limits(*old(tokenizer)),
        padding_limits(*final(tokenizer)) == padding_limits(*old(tokenizer)),
        normalizer_of(*final(tokenizer)) == normalizer_of(*old(tokenizer)),
        pre_tokenizer_of(*final(tokenizer)) == pre_tokenizer_of(*old(tokenizer)),
        model_of(*final(tokenizer)) == model_of(*old(tokenizer)),
        post_processor_of(*final(tokenizer)) == post_processor_of(*old(tokenizer)),
{
    tokenizer.with_added_vocabulary(vocabulary);
}

/// A normalizer, by its kind.
pub enum NormalizerPart<'a> {
    Bert,
    Strip,
    StripAccents,
    Nfc,
    Nfd,
    Nfkc,
    Nfkd,
    Lowercase,
    Nmt,
    ByteLevel,
    Precompiled,
    /// Puts a text before the one that it is given.
    Prepend(String),
    /// Puts a text in place of each match of a pattern.
    Replace { replace: &'a Replace, content: String },
    /// Several normalizers, one after the other.
    Chain(&'a [NormalizerWrapper]),
}

/// Model of a [`NormalizerPart`].
pub enum NormalizerModel {
    Bert,
    Strip,
    StripAccents,
    Nfc,
    Nfd,
    Nfkc,
    Nfkd,
    Lowercase,
    Nmt,
    ByteLevel,
    Precompiled,
    Prepend(Seq<char>),
    Replace { replace: Replace, content: Seq<char> },
    Chain(Seq<NormalizerWrapper>),
}

impl View for NormalizerPart<'_> {
    type V = NormalizerModel;

    open spec fn view(&self) -> NormalizerModel {
        match *self {
            NormalizerPart::Bert => NormalizerModel::Bert,
            NormalizerPart::Strip => NormalizerModel::Strip,
            NormalizerPart::StripAccents => NormalizerModel::StripAccents,
            NormalizerPart::Nfc => NormalizerModel::Nfc,
            NormalizerPart::Nfd => NormalizerModel::Nfd,
            NormalizerPart::Nfkc => NormalizerModel::Nfkc,
            NormalizerPart::Nfkd => NormalizerModel::Nfkd,
            NormalizerPart::Lowercase => NormalizerModel::Lowercase,
            NormalizerPart::Nmt => NormalizerModel::Nmt,
            NormalizerPart::ByteLevel => NormalizerModel::ByteLevel,
            NormalizerPart::Precompiled => NormalizerModel::Precompiled,
            NormalizerPart::Prepend(text) => NormalizerModel::Prepend(text@),
            NormalizerPart::Replace { replace, content } => NormalizerModel::Replace {
                replace: *replace,
                content: content@,
            },
            NormalizerPart::Chain(parts) => NormalizerModel::Chain(parts@),
        }
    }
}

/// The kind of a `NormalizerWrapper`, with what counts of it.
pub uninterp spec fn normalizer_model(normalizer: NormalizerWrapper) -> NormalizerModel;

/// Tells the variants of a `NormalizerWrapper` apart.
#[verifier::external_body]
fn normalizer_part<'a>(normalizer: &'a NormalizerWrapper) -> (part: NormalizerPart<'a>)
    ensures
        part@ == normalizer_model(*normalizer),
{
    match normalizer {
        NormalizerWrapper::BertNormalizer(_) => NormalizerPart::Bert,
        NormalizerWrapper::StripNormalizer(_) => NormalizerPart::Strip,
        NormalizerWrapper::StripAccents(_) => NormalizerPart::StripAccents,
        NormalizerWrapper::NFC(_) => NormalizerPart::Nfc, NormalizerWrapper::NFD(_) => NormalizerPart::Nfd,
        NormalizerWrapper::NFKC(_) => NormalizerPart::Nfkc, NormalizerWrapper::NFKD(_) => NormalizerPart::Nfkd,
        NormalizerWrapper::Lowercase(_) => NormalizerPart::Lowercase,
        NormalizerWrapper::Nmt(_) => NormalizerPart::Nmt,
        NormalizerWrapper::ByteLevel(_) => NormalizerPart::ByteLevel,
        NormalizerWrapper::Precompiled(_) => NormalizerPart::Precompiled,
        NormalizerWrapper::Prepend(n) => NormalizerPart::Prepend(n.prepend.clone()),
        NormalizerWrapper::Replace(n) => NormalizerPart::Replace { replace: n, content: n.content.clone() },
        NormalizerWrapper::Sequence(n) => NormalizerPart::Chain(n.as_ref()),
    }
}

/// The pattern of a `Replace`.
pub uninterp spec fn replace_pattern(replace: Replace) -> PatternModel;

/// Reads the pattern of a `Replace`, which is private, out of what
/// `serde_json::to_value` makes of it: an object with the pattern under
/// `pattern`.
#[verifier::external_body]
fn get_replace_pattern(replace: &Replace) -> (pattern: PatternText)
    ensures
        pattern@ == replace_pattern(*replace),
{
    let mut value = serde_json::to_value(replace).expect("an object");
    match serde_json::from_value(value["pattern"].take()).expect("a pattern") {
        ReplacePattern::String(text) => PatternText::Literal(text),
        ReplacePattern::Regex(text) => PatternText::Expression(text),
    }
}

/// What a `Replace` puts into a text stands for characters of that text: what it
/// looks for is not empty, or it puts nothing in.
pub open spec fn replace_usable(pattern: PatternModel, content: Seq<char>) -> bool {
    match pattern {
        PatternModel::Literal(text) => text.len() > 0 || content.len() == 0,
        PatternModel::Expression(text) => patterns::takes_characters(text) || (content.len() == 0
            && patterns::without_references(text)),
    }
}

/// A normalizer that is no chain leaves every character of the result with a
/// character of the text that it came from, as those behind it expect. An empty
/// text put before it has none. `Precompiled` goes by a table that the crate does
/// not show, and reads past the end of some.
pub open spec fn single_normalizer_usable(normalizer: NormalizerModel) -> bool {
    match normalizer {
        NormalizerModel::Prepend(text) => text.len() > 0,
        NormalizerModel::Replace { replace, content } => replace_usable(
            replace_pattern(replace),
            content,
        ),
        NormalizerModel::Precompiled => false,
        _ => true,
    }
}

/// A normalizer can take every text: one that is no chain, or a chain of such, or
/// of chains, down to `depth` of them within each other.
pub open spec fn normalizer_usable_within(normalizer: NormalizerWrapper, depth: nat) -> bool
    decreases depth, 0int,
{
    match normalizer_model(normalizer) {
        NormalizerModel::Chain(parts) => depth > 0 && normalizers_usable(
            parts,
            parts.len() as int,
            (depth - 1) as nat,
        ),
        single => single_normalizer_usable(single),
    }
}

/// The first `count` of `parts` can take every text.
pub open spec fn normalizers_usable(parts: Seq<NormalizerWrapper>, count: int, depth: nat) -> bool
    decreases depth, count,
{
    count <= 0 || (normalizers_usable(parts, count - 1, depth) && normalizer_usable_within(parts[count - 1], depth))
}

/// A normalizer can take every text.
pub open spec fn normalizer_usable(normalizer: NormalizerWrapper) -> bool {
    normalizer_usable_within(normalizer, usize::MAX as nat)
}

/// A pre-tokenizer, by its kind.
pub enum PreTokenizerPart<'a> {
    Bert,
    ByteLevel,
    Delimiter,
    Metaspace,
    Whitespace,
    WhitespaceSplit,
    Punctuation,
    Digits,
    UnicodeScripts,
    /// Cuts a text into pieces of this many characters.
    FixedLength(usize),
    /// Cuts a text by a pattern.
    Split(&'a Split),
    /// Several pre-tokenizers, one after the other.
    Chain(&'a [PreTokenizerWrapper]),
}

/// Model of a [`PreTokenizerPart`].
pub enum PreTokenizerModel {
    Bert,
    ByteLevel,
    Delimiter,
    Metaspace,
    Whitespace,
    WhitespaceSplit,
    Punctuation,
    Digits,
    UnicodeScripts,
    FixedLength(usize),
    Split(Split),
    Chain(Seq<PreTokenizerWrapper>),
}

impl View for PreTokenizerPart<'_> {
    type V = PreTokenizerModel;

    open spec fn view(&self) -> PreTokenizerModel {
        match *self {
            PreTokenizerPart::Bert => PreTokenizerModel::Bert,
            PreTokenizerPart::ByteLevel => PreTokenizerModel::ByteLevel,
            PreTokenizerPart::Delimiter => PreTokenizerModel::Delimiter,
            PreTokenizerPart::Metaspace => PreTokenizerModel::Metaspace,
            PreTokenizerPart::Whitespace => PreTokenizerModel::Whitespace,
            PreTokenizerPart::WhitespaceSplit => PreTokenizerModel::WhitespaceSplit,
            PreTokenizerPart::Punctuation => PreTokenizerModel::Punctuation,
            PreTokenizerPart::Digits => PreTokenizerModel::Digits,
            PreTokenizerPart::UnicodeScripts => PreTokenizerModel::UnicodeScripts,
            PreTokenizerPart::FixedLength(length) => PreTokenizerModel::FixedLength(length),
            PreTokenizerPart::Split(split) => PreTokenizerModel::Split(*split),
            PreTokenizerPart::Chain(parts) => PreTokenizerModel::Chain(parts@),
        }
    }
}

/// The kind of a `PreTokenizerWrapper`, with what counts of it.
pub uninterp spec fn pre_tokenizer_model(pre_tokenizer: PreTokenizerWrapper) -> PreTokenizerModel;

/// Tells the variants of a `PreTokenizerWrapper` apart.
#[verifier::external_body]
fn pre_tokenizer_part<'a>(pre_tokenizer: &'a PreTokenizerWrapper) -> (part: PreTokenizerPart<'a>)
    ensures
        part@ == pre_tokenizer_model(*pre_tokenizer),
{
    match pre_tokenizer {
        PreTokenizerWrapper::BertPreTokenizer(_) => PreTokenizerPart::Bert,
        PreTokenizerWrapper::ByteLevel(_) => PreTokenizerPart::ByteLevel,
        PreTokenizerWrapper::Delimiter(_) => PreTokenizerPart::Delimiter,
        PreTokenizerWrapper::Metaspace(_) => PreTokenizerPart::Metaspace,
        PreTokenizerWrapper::Whitespace(_) => PreTokenizerPart::Whitespace,
        PreTokenizerWrapper::WhitespaceSplit(_) => PreTokenizerPart::WhitespaceSplit,
        PreTokenizerWrapper::Punctuation(_) => PreTokenizerPart::Punctuation,
        PreTokenizerWrapper::Digits(_) => PreTokenizerPart::Digits,
        PreTokenizerWrapper::UnicodeScripts(_) => PreTokenizerPart::UnicodeScripts,
        PreTokenizerWrapper::FixedLength(p) => PreTokenizerPart::FixedLength(p.length),
        PreTokenizerWrapper::Split(p) => PreTokenizerPart::Split(p),
        PreTokenizerWrapper::Sequence(p) => PreTokenizerPart::Chain(p.as_ref()),
    }
}

/// The `pattern` of a `Split`.
pub uninterp spec fn split_pattern(split: Split) -> PatternModel;

/// Tells the variants of the `SplitPattern` of a `Split` apart.
#[verifier::external_body]
fn get_split_pattern(split: &Split) -> (pattern: PatternText)
    ensures
        pattern@ == split_pattern(*split),
{
    match &split.pattern {
        SplitPattern::String(text) => PatternText::Literal(text.clone()),
        SplitPattern::Regex(text) => PatternText::Expression(text.clone()),
    }
}

/// The regular expression that the `regex` of a `Split` was compiled from, which
/// is what a text is searched for.
pub uninterp spec fn searched_expression(split: Split) -> Seq<char>;

/// How the `Debug` of `SysRegex` shows a regular expression.
pub open spec fn shown_expression(expression: Seq<char>) -> Seq<char> {
    "SysRegex { regex: "@ + expression + " }"@
}

/// Shows the `regex` of a `Split` with its `Debug`, which has the regular
/// expression in it that was compiled.
#[verifier::external_body]
fn show_searched_expression(split: &Split) -> (shown: String)
    ensures
        shown@ == shown_expression(searched_expression(*split)),
{
    format!("{:?}", split.regex)
}

/// A `Split` searches for its pattern, and that without references. `Split::new`
/// has compiled that very regular expression then, and can do so again.
pub open spec fn split_usable(split: Split) -> bool {
    &&& searched_expression(split) == patterns::pattern_source(split_pattern(split))
    &&& patterns::without_references(searched_expression(split))
}

/// A pre-tokenizer that is no chain can take every text: its pieces are not
/// empty, and its pattern can be searched for.
pub open spec fn single_pre_tokenizer_usable(pre_tokenizer: PreTokenizerModel) -> bool {
    match pre_tokenizer {
        PreTokenizerModel::FixedLength(length) => length > 0,
        PreTokenizerModel::Split(split) => split_usable(split),
        _ => true,
    }
}

/// A pre-tokenizer can take every text: one that is no chain, or a chain of such,
/// or of chains, down to `depth` of them within each other.
pub open spec fn pre_tokenizer_usable_within(
    pre_tokenizer: PreTokenizerWrapper,
    depth: nat,
) -> bool
    decreases depth, 0int,
{
    match pre_tokenizer_model(pre_tokenizer) {
        PreTokenizerModel::Chain(parts) => depth > 0 && pre_tokenizers_usable(
            parts,
            parts.len() as int,
            (depth - 1) as nat,
        ),
        single => single_pre_tokenizer_usable(single),
    }
}

/// The first `count` of `parts` can take every text.
pub open spec fn pre_tokenizers_usable(parts: Seq<PreTokenizerWrapper>, count: int, depth: nat) -> bool
    decreases depth, count,
{
    count <= 0 || (pre_tokenizers_usable(parts, count - 1, depth) && pre_tokenizer_usable_within(parts[count - 1], depth))
}

/// A pre-tokenizer can take every text.
pub open spec fn pre_tokenizer_usable(pre_tokenizer: PreTokenizerWrapper) -> bool {
    pre_tokenizer_usable_within(pre_tokenizer, usize::MAX as nat)
}

/// A model, by its kind.
pub enum ModelPart {
    Bpe,
    WordPiece,
    WordLevel,
    /// Draws lots by this `alpha`, a floating-point number given by its bits.
    Unigram(Option<u64>),
}

/// The kind of a `ModelWrapper`, with what counts of it.
pub uninterp spec fn model_part(model: ModelWrapper) -> ModelPart;

/// Tells the variants of a `ModelWrapper` apart. Of the `alpha` of a `Unigram` it
/// gives what `f64::to_bits` makes of it.
#[verifier::external_body]
fn get_model_part(model: &ModelWrapper) -> (part: ModelPart)
    ensures
        part == model_part(*model),
{
    match model {
        ModelWrapper::BPE(_) => ModelPart::Bpe,
        ModelWrapper::WordPiece(_) => ModelPart::WordPiece,
        ModelWrapper::WordLevel(_) => ModelPart::WordLevel,
        ModelWrapper::Unigram(unigram) => ModelPart::Unigram(
            unigram.alpha.map(|alpha| alpha.to_bits()),
        ),
    }
}

/// The bits of the floating-point number minus zero; those of zero are zero.
pub const MINUS_ZERO_BITS: u64 = 0x8000_0000_0000_0000;

/// A model can take every word: no `Unigram` that draws lots, which it cannot
/// where no way through the word has a weight. With an `alpha` of zero it draws
/// none.
pub open spec fn model_usable(model: ModelPart) -> bool {
    model matches ModelPart::Unigram(Some(alpha)) ==> alpha == 0 || alpha == MINUS_ZERO_BITS
}

/// A post-processor, by its kind. `added` is the number of special tokens that it
/// can add.
pub enum ProcessorPart<'a> {
    Roberta { added: usize },
    Bert { added: usize },
    ByteLevel { added: usize },
    /// Picks encodings by one template where it is given one, by another where
    /// it is given two.
    Template { single: &'a Template, pair: &'a Template, added: usize },
    /// Several post-processors, one after the other.
    Chain(&'a [PostProcessorWrapper]),
}

/// Model of a [`ProcessorPart`].
pub enum ProcessorModel {
    Roberta { added: usize },
    Bert { added: usize },
    ByteLevel { added: usize },
    Template { single: Template, pair: Template, added: usize },
    Chain(Seq<PostProcessorWrapper>),
}

impl View for ProcessorPart<'_> {
    type V = ProcessorModel;

    open spec fn view(&self) -> ProcessorModel {
        match *self {
            ProcessorPart::Roberta { added } => ProcessorModel::Roberta { added },
            ProcessorPart::Bert { added } => ProcessorModel::Bert { added },
            ProcessorPart::ByteLevel { added } => ProcessorModel::ByteLevel { added },
            ProcessorPart::Template { single, pair, added } => ProcessorModel::Template {
                single: *single,
                pair: *pair,
                added,
            },
            ProcessorPart::Chain(parts) => ProcessorModel::Chain(parts@),
        }
    }
}

/// The pieces of a `Template`: whether each is the second encoding, and nothing
/// for a special token.
pub uninterp spec fn template_pieces(template: Template) -> Seq<Option<bool>>;

/// Reads the pieces of a `Template` out of what `serde_json::to_value` makes of
/// it, which is their list.
#[verifier::external_body]
fn get_template_pieces(template: &Template) -> (pieces: Vec<Option<bool>>)
    ensures
        pieces@ == template_pieces(*template),
{
    let value = serde_json::to_value(template).expect("a list of pieces");
    let pieces: Vec<Piece> = serde_json::from_value(value).expect("a list of pieces");
    pieces.into_iter().map(
        |piece|
            match piece {
                Piece::Sequence { id: Sequence::A, .. } => Some(false),
                Piece::Sequence { id: Sequence::B, .. } => Some(true),
                Piece::SpecialToken { .. } => None,
            },
    ).collect()
}

/// What counts of a `PostProcessorWrapper`, by its variant.
pub uninterp spec fn processor_model(processor: PostProcessorWrapper) -> ProcessorModel;

/// Tells the variants of a `PostProcessorWrapper` apart, with what
/// `PostProcessor::added_tokens` says of each.
#[verifier::external_body]
fn processor_part<'a>(processor: &'a PostProcessorWrapper) -> (part: ProcessorPart<'a>)
    ensures
        part@ == processor_model(*processor),
{
    match processor {
        PostProcessorWrapper::Roberta(p) => ProcessorPart::Roberta { added: p.added_tokens(false) },
        PostProcessorWrapper::Bert(p) => ProcessorPart::Bert { added: p.added_tokens(false) },
        PostProcessorWrapper::ByteLevel(p) => ProcessorPart::ByteLevel {
            added: p.added_tokens(false),
        },
        PostProcessorWrapper::Template(p) => ProcessorPart::Template {
            single: &p.single,
            pair: p.get_pair(),
            added: p.added_tokens(false),
        },
        PostProcessorWrapper::Sequence(p) => ProcessorPart::Chain(p.as_ref()),
    }
}

/// How many encodings the first `count` pieces of a template pick.
pub open spec fn picked(pieces: Seq<Option<bool>>, count: int) -> int
    decreases count,
{
    if count <= 0 {
        0
    } else {
        picked(pieces, count - 1) + (if pieces[count - 1] is Some {
            1int
        } else {
            0
        })
    }
}

/// A template picks the second encoding somewhere.
pub open spec fn picks_second(pieces: Seq<Option<bool>>) -> bool {
    exists|i: int| 0 <= i < pieces.len() && #[trigger] pieces[i] == Some(true)
}

/// How many encodings a template makes of `given` ones; nothing if it cannot take
/// that many. It can take one or two, and cannot pick a second one of one.
pub open spec fn filled_in(
    single: Seq<Option<bool>>,
    pair: Seq<Option<bool>>,
    given: int,
) -> Option<int> {
    if given == 1 && !picks_second(single) {
        Some(picked(single, single.len() as int))
    } else if given == 2 {
        Some(picked(pair, pair.len() as int))
    } else {
        None
    }
}

/// How many encodings a post-processor makes of `given` ones, where no special
/// tokens are added; nothing if it, or a part of a chain, cannot take what it is
/// given. Chains are followed down to `depth` of them within each other.
pub open spec fn processed(processor: PostProcessorWrapper, given: int, depth: nat) -> Option<int>
    decreases depth, 0int,
{
    match processor_model(processor) {
        ProcessorModel::Template { single, pair, .. } => filled_in(
            template_pieces(single),
            template_pieces(pair),
            given,
        ),
        ProcessorModel::Chain(parts) => if depth == 0 {
            None
        } else {
            chain_processed(parts, parts.len() as int, given, (depth - 1) as nat)
        },
        _ => Some(given),
    }
}

/// How many encodings the first `count` of `parts` make of `given` ones.
pub open spec fn chain_processed(
    parts: Seq<PostProcessorWrapper>,
    count: int,
    given: int,
    depth: nat,
) -> Option<int>
    decreases depth, count,
{
    if count <= 0 {
        Some(given)
    } else {
        match chain_processed(parts, count - 1, given, depth) {
            Some(made) => processed(parts[count - 1], made, depth),
            None => None,
        }
    }
}

/// How many special tokens a post-processor can add.
pub open spec fn special_tokens(processor: PostProcessorWrapper, depth: nat) -> int
    decreases depth, 0int,
{
    match processor_model(processor) {
        ProcessorModel::Roberta { added } => added as int,
        ProcessorModel::Bert { added } => added as int,
        ProcessorModel::ByteLevel { added } => added as int,
        ProcessorModel::Template { added, .. } => added as int,
        ProcessorModel::Chain(parts) => if depth == 0 {
            0
        } else {
            chain_special_tokens(parts, parts.len() as int, (depth - 1) as nat)
        },
    }
}

/// How many special tokens the first `count` of `parts` can add together.
pub open spec fn chain_special_tokens(
    parts: Seq<PostProcessorWrapper>,
    count: int,
    depth: nat,
) -> int
    decreases depth, count,
{
    if count <= 0 {
        0
    } else {
        chain_special_tokens(parts, count - 1, depth) + special_tokens(parts[count - 1], depth)
    }
}

/// A post-processor can take the encoding of every text. How many special tokens
/// it can add must be a number of the machine.
pub open spec fn processor_usable(processor: PostProcessorWrapper) -> bool {
    &&& processed(processor, 1, usize::MAX as nat) is Some
    &&& special_tokens(processor, usize::MAX as nat) <= usize::MAX
}

/// A text can be cut at `max_length` with parts that overlap by `stride`.
pub open spec fn limits_usable(limits: Option<(usize, usize)>) -> bool {
    match limits {
        Some((max_length, stride)) => max_length == 0 || stride < max_length,
        None => true,
    }
}

/// The longest that a list can be: it takes no more bytes than half of what a
/// `usize` can count, and an entry takes up to 24 of them.
pub const MAX_LIST_LENGTH: usize = usize::MAX / 48;

/// The least multiple of `multiple` that is no less than `length`.
pub open spec fn rounded_up(length: int, multiple: Option<usize>) -> int {
    match multiple {
        Some(step) => if step > 0 && length % (step as int) > 0 {
            length + step - length % (step as int)
        } else {
            length
        },
        None => length,
    }
}

/// No list becomes too long when an encoding is filled up, to a fixed length or
/// to the next multiple.
pub open spec fn padding_usable(limits: Option<(Option<usize>, Option<usize>)>) -> bool {
    match limits {
        Some((Some(fixed), multiple)) => rounded_up(fixed as int, multiple) <= MAX_LIST_LENGTH,
        Some((None, Some(multiple))) => multiple <= MAX_LIST_LENGTH,
        _ => true,
    }
}

/// A character that counts as a space.
pub open spec fn is_space(c: char) -> bool {
    ||| '\t' <= c <= '\r' || c == ' ' || c == '\u{85}' || c == '\u{a0}' || c == '\u{1680}'
    ||| '\u{2000}' <= c <= '\u{200a}' || '\u{2028}' <= c <= '\u{2029}'
    ||| c == '\u{202f}' || c == '\u{205f}' || c == '\u{3000}'
}

/// A token can be found in spaces that another token has taken: it is seen to
/// start with one, or may be looked for in another form than its literal.
pub open spec fn may_start_in_spaces(vocabulary: AddedVocabulary, token: TokenModel) -> bool {
    ||| token.literal.len() == 0 || is_space(token.literal[0])
    ||| exists|other: TokenModel| #[trigger]
        added_tokens(vocabulary).contains(other) && other.normalized
}

/// No token that is found in the spaces that another one has taken takes the
/// spaces before it: it would start behind its own end. One that takes those
/// behind it too does not.
pub open spec fn vocabulary_usable(vocabulary: AddedVocabulary) -> bool {
    forall|a: TokenModel, b: TokenModel| #[trigger]
        added_tokens(vocabulary).contains(a) && #[trigger] added_tokens(vocabulary).contains(b)
            ==> !(a.rstrip && b.lstrip && !b.rstrip && may_start_in_spaces(vocabulary, b))
}

/// The parts of a tokenizer are such that it can encode every text.
pub open spec fn parts_usable(tokenizer: Tokenizer) -> bool {
    &&& limits_usable(truncation_limits(tokenizer))
    &&& padding_usable(padding_limits(tokenizer))
    &&& normalizer_of(tokenizer) matches Some(part) ==> normalizer_usable(part)
    &&& pre_tokenizer_of(tokenizer) matches Some(part) ==> pre_tokenizer_usable(part)
    &&& model_usable(model_part(model_of(tokenizer)))
    &&& post_processor_of(tokenizer) matches Some(part) ==> processor_usable(part)
    &&& vocabulary_usable(vocabulary_of(tokenizer))
}

fn is_replace_usable(pattern: PatternText, content: &str) -> (usable: bool)
    ensures
        usable == replace_usable(pattern@, content@),
{
    match pattern {
        PatternText::Literal(text) => !text.as_str().is_empty() || content.is_empty(),
        PatternText::Expression(text) => is_taking_characters(text.as_str()) || (content.is_empty()
            && is_without_references(text.as_str())),
    }
}

proof fn lemma_normalizers_usable(parts: Seq<NormalizerWrapper>, from: int, to: int, depth: nat)
    requires
        0 < from <= to,
        !normalizers_usable(parts, from, depth),
    ensures
        !normalizers_usable(parts, to, depth),
    decreases to - from,
{
    if from < to {
        lemma_normalizers_usable(parts, from, to - 1, depth);
    }
}

/// Whether a normalizer can take every text; chains are followed down to `depth`
/// of them within each other.
fn is_normalizer_usable(normalizer: &NormalizerWrapper, depth: usize) -> (usable: bool)
    ensures
        usable == normalizer_usable_within(*normalizer, depth as nat),
    decreases depth,
{
    match normalizer_part(normalizer) {
        NormalizerPart::Prepend(text) => !text.as_str().is_empty(),
        NormalizerPart::Replace { replace, content } => is_replace_usable(
            get_replace_pattern(replace),
            content.as_str(),
        ),
        NormalizerPart::Precompiled => false,
        NormalizerPart::Chain(parts) => {
            if depth == 0 {
                return false;
            }
            let mut done: usize = 0;
            while done < parts.len()
                invariant
                    depth > 0,
                    done <= parts.len(),
                    normalizer_model(*normalizer) == NormalizerModel::Chain(parts@),
                    normalizers_usable(parts@, done as int, (depth - 1) as nat),
                decreases parts.len() - done,
            {
                if !is_normalizer_usable(&parts[done], depth - 1) {
                    proof {
                        lemma_normalizers_usable(
                            parts@,
                            done + 1,
                            parts@.len() as int,
                            (depth - 1) as nat,
                        );
                    }
                    return false;
                }
                done += 1;
            }
            true
        },
        _ => true,
    }
}

/// A text between two others is all that differs.
proof fn lemma_shown_expression(a: Seq<char>, b: Seq<char>)
    ensures
        shown_expression(a) == shown_expression(b) <==> a == b,
{
    let start = "SysRegex { regex: "@;
    let end = " }"@;
    let first = shown_expression(a);
    let second = shown_expression(b);
    if first == second {
        assert(a =~= first.subrange(start.len() as int, first.len() - end.len()));
        assert(b =~= second.subrange(start.len() as int, second.len() - end.len()));
    }
}

fn is_split_usable(split: &Split) -> (usable: bool)
    ensures
        usable == split_usable(*split),
{
    let source = source_of(get_split_pattern(split));
    let pieces = ["SysRegex { regex: ", source.as_str(), " }"];
    let expected = concat(&pieces);
    let shown = show_searched_expression(split);
    proof {
        assert(text::str_views(pieces@) =~= seq!["SysRegex { regex: "@].push(source@).push(" }"@));
        seq!["SysRegex { regex: "@].push(source@).lemma_flatten_push(" }"@);
        seq!["SysRegex { regex: "@].lemma_flatten_push(source@);
        seq!["SysRegex { regex: "@].lemma_flatten_one_element();
        assert(expected@ == shown_expression(source@));
        lemma_shown_expression(source@, searched_expression(*split));
    }
    shown == expected && is_without_references(source.as_str())
}

proof fn lemma_pre_tokenizers_usable(parts: Seq<PreTokenizerWrapper>, from: int, to: int, depth: nat)
    requires
        0 < from <= to,
        !pre_tokenizers_usable(parts, from, depth),
    ensures
        !pre_tokenizers_usable(parts, to, depth),
    decreases to - from,
{
    if from < to {
        lemma_pre_tokenizers_usable(parts, from, to - 1, depth);
    }
}

/// Whether a pre-tokenizer can take every text; chains are followed down to
/// `depth` of them within each other.
fn is_pre_tokenizer_usable(pre_tokenizer: &PreTokenizerWrapper, depth: usize) -> (usable: bool)
    ensures
        usable == pre_tokenizer_usable_within(*pre_tokenizer, depth as nat),
    decreases depth,
{
    match pre_tokenizer_part(pre_tokenizer) {
        PreTokenizerPart::FixedLength(length) => length > 0,
        PreTokenizerPart::Split(split) => is_split_usable(split),
        PreTokenizerPart::Chain(parts) => {
            if depth == 0 {
                return false;
            }
            let mut done: usize = 0;
            while done < parts.len()
                invariant
                    depth > 0,
                    done <= parts.len(),
                    pre_tokenizer_model(*pre_tokenizer) == PreTokenizerModel::Chain(parts@),
                    pre_tokenizers_usable(parts@, done as int, (depth - 1) as nat),
                decreases parts.len() - done,
            {
                if !is_pre_tokenizer_usable(&parts[done], depth - 1) {
                    proof {
                        lemma_pre_tokenizers_usable(
                            parts@,
                            done + 1,
                            parts@.len() as int,
                            (depth - 1) as nat,
                        );
                    }
                    return false;
                }
                done += 1;
            }
            true
        },
        _ => true,
    }
}

/// Counts the encodings that a template picks, and whether a second one is
/// among them.
fn count_picked(template: &Template) -> (counted: (usize, bool))
    ensures
        counted.0 == picked(template_pieces(*template), template_pieces(*template).len() as int),
        counted.1 == picks_second(template_pieces(*template)),
{
    let pieces = get_template_pieces(template);
    let mut count: usize = 0;
    let mut second: bool = false;
    let mut done: usize = 0;
    while done < pieces.len()
        invariant
            done <= pieces.len(),
            count <= done,
            count == picked(pieces@, done as int),
            second == exists|i: int| 0 <= i < done && #[trigger] pieces@[i] == Some(true),
        decreases pieces.len() - done,
    {
        if let Some(is_second) = pieces[done] {
            count += 1;
            if is_second {
                assert(pieces@[done as int] == Some(true));
                second = true;
            }
        }
        done += 1;
    }
    (count, second)
}

/// Counts the encodings that a post-processor makes of `given` ones; chains are
/// followed down to `depth` of them within each other.
fn count_processed(processor: &PostProcessorWrapper, given: usize, depth: usize) -> (count: Option<
    usize,
>)
    ensures
        count is Some <==> processed(*processor, given as int, depth as nat) is Some,
        count matches Some(made) ==> processed(*processor, given as int, depth as nat) == Some(
            made as int,
        ),
    decreases depth,
{
    match processor_part(processor) {
        ProcessorPart::Template { single, pair, .. } => {
            if given == 1 {
                let (count, second) = count_picked(single);
                if second {
                    None
                } else {
                    Some(count)
                }
            } else if given == 2 {
                Some(count_picked(pair).0)
            } else {
                None
            }
        },
        ProcessorPart::Chain(parts) => {
            if depth == 0 {
                return None;
            }
            let ghost below = (depth - 1) as nat;
            let mut made: usize = given;
            let mut done: usize = 0;
            while done < parts.len()
                invariant
                    depth > 0,
                    below == depth - 1,
                    done <= parts.len(),
                    processor_model(*processor) == ProcessorModel::Chain(parts@),
                    chain_processed(parts@, done as int, given as int, below) == Some(made as int),
                decreases parts.len() - done,
            {
                proof {
                    if chain_processed(parts@, done + 1, given as int, below) is None {
                        lemma_no_way_on(
                            parts@,
                            done + 1,
                            parts@.len() as int,
                            given as int,
                            below,
                        );
                    }
                }
                made = match count_processed(&parts[done], made, depth - 1) {
                    Some(next) => next,
                    None => {
                        return None;
                    },
                };
                done += 1;
            }
            Some(made)
        },
        _ => Some(given),
    }
}

proof fn lemma_no_way_on(
    parts: Seq<PostProcessorWrapper>,
    from: int,
    to: int,
    given: int,
    depth: nat,
)
    requires
        0 < from <= to,
        chain_processed(parts, from, given, depth) is None,
    ensures
        chain_processed(parts, to, given, depth) is None,
    decreases to - from,
{
    if from < to {
        lemma_no_way_on(parts, from, to - 1, given, depth);
    }
}

proof fn lemma_special_tokens_grow(
    parts: Seq<PostProcessorWrapper>,
    from: int,
    to: int,
    depth: nat,
)
    requires
        from <= to,
    ensures
        chain_special_tokens(parts, from, depth) <= chain_special_tokens(parts, to, depth),
    decreases depth, 1int, to - from,
{
    if from < to {
        lemma_special_tokens_grow(parts, from, to - 1, depth);
        if to > 0 {
            lemma_special_tokens(parts[to - 1], depth);
        }
    }
}

proof fn lemma_special_tokens(processor: PostProcessorWrapper, depth: nat)
    ensures
        special_tokens(processor, depth) >= 0,
    decreases depth, 0int, 0int,
{
    if let ProcessorModel::Chain(parts) = processor_model(processor) {
        if depth > 0 {
            lemma_special_tokens_grow(parts, 0, parts.len() as int, (depth - 1) as nat);
        }
    }
}

/// Counts the special tokens that a post-processor can add; nothing if they are
/// more than a `usize` can count.
fn count_special_tokens(processor: &PostProcessorWrapper, depth: usize) -> (count: Option<usize>)
    ensures
        count is Some <==> special_tokens(*processor, depth as nat) <= usize::MAX,
        count matches Some(total) ==> special_tokens(*processor, depth as nat) == total,
    decreases depth,
{
    match processor_part(processor) {
        ProcessorPart::Roberta { added } => Some(added),
        ProcessorPart::Bert { added } => Some(added),
        ProcessorPart::ByteLevel { added } => Some(added),
        ProcessorPart::Template { added, .. } => Some(added),
        ProcessorPart::Chain(parts) => {
            if depth == 0 {
                return Some(0);
            }
            let ghost below = (depth - 1) as nat;
            let mut total: usize = 0;
            let mut done: usize = 0;
            while done < parts.len()
                invariant
                    depth > 0,
                    below == depth - 1,
                    done <= parts.len(),
                    processor_model(*processor) == ProcessorModel::Chain(parts@),
                    chain_special_tokens(parts@, done as int, below) == total,
                decreases parts.len() - done,
            {
                proof {
                    lemma_special_tokens_grow(parts@, done + 1, parts@.len() as int, below);
                }
                let added = match count_special_tokens(&parts[done], depth - 1) {
                    Some(added) => added,
                    None => {
                        return None;
                    },
                };
                if added > usize::MAX - total {
                    return None;
                }
                total += added;
                done += 1;
            }
            Some(total)
        },
    }
}

fn is_processor_usable(processor: &PostProcessorWrapper) -> (usable: bool)
    ensures
        usable == processor_usable(*processor),
{
    count_processed(processor, 1, usize::MAX).is_some() && count_special_tokens(
        processor,
        usize::MAX,
    ).is_some()
}

fn counts_as_space(c: char) -> (space: bool)
    ensures
        space == is_space(c),
{
    '\t' <= c && c <= '\r' || c == ' ' || c == '\u{85}' || c == '\u{a0}' || c == '\u{1680}'
        || '\u{2000}' <= c && c <= '\u{200a}' || '\u{2028}' <= c && c <= '\u{2029}' || c
        == '\u{202f}' || c == '\u{205f}' || c == '\u{3000}'
}

fn starts_in_spaces(literal: &str) -> (starts: bool)
    ensures
        starts == (literal@.len() == 0 || is_space(literal@[0])),
{
    literal.unicode_len() == 0 || counts_as_space(literal.get_char(0))
}

/// Whether one of the tokens is looked for in a normalized form.
fn some_normalized(tokens: &Vec<TokenPart>) -> (found: bool)
    ensures
        found == exists|i: int| 0 <= i < tokens@.len() && (#[trigger] tokens@[i]).normalized,
{
    let mut done: usize = 0;
    while done < tokens.len()
        invariant
            done <= tokens.len(),
            forall|i: int| 0 <= i < done ==> !(#[trigger] tokens@[i]).normalized,
        decreases tokens.len() - done,
    {
        if tokens[done].normalized {
            return true;
        }
        done += 1;
    }
    false
}

fn is_vocabulary_usable(vocabulary: &AddedVocabulary) -> (usable: bool)
    ensures
        usable == vocabulary_usable(*vocabulary),
{
    let tokens = vocabulary_tokens(vocabulary);
    let normalized = some_normalized(&tokens);
    let ghost models = tokens@.map_values(|token: TokenPart| token@);
    let mut takes_behind: bool = false;
    let mut takes_before: bool = false;
    let ghost mut right: int = 0;
    let ghost mut left: int = 0;
    proof {
        assert(models.to_set() == added_tokens(*vocabulary));
        assert forall|token: TokenModel| #[trigger]
            added_tokens(*vocabulary).contains(token) implies models.contains(token) by {}
        assert forall|i: int| 0 <= i < models.len() implies added_tokens(*vocabulary).contains(
            #[trigger] models[i],
        ) by {
            assert(models.contains(models[i]));
        }
        assert(normalized == exists|other: TokenModel| #[trigger]
            added_tokens(*vocabulary).contains(other) && other.normalized) by {
            if normalized {
                let i = choose|i: int| 0 <= i < tokens@.len() && (#[trigger] tokens@[i]).normalized;
                assert(models[i].normalized);
            }
            if exists|other: TokenModel| #[trigger]
                added_tokens(*vocabulary).contains(other) && other.normalized {
                let other = choose|other: TokenModel| #[trigger]
                    added_tokens(*vocabulary).contains(other) && other.normalized;
                let i = models.index_of(other);
                assert(tokens@[i].normalized);
            }
        }
    }
    let mut done: usize = 0;
    while done < tokens.len()
        invariant
            done <= tokens.len(),
            models == tokens@.map_values(|token: TokenPart| token@),
            normalized == exists|other: TokenModel| #[trigger]
                added_tokens(*vocabulary).contains(other) && other.normalized,
            takes_behind ==> 0 <= right < done && models[right].rstrip,
            takes_before ==> 0 <= left < done && models[left].lstrip && !models[left].rstrip
                && may_start_in_spaces(*vocabulary, models[left]),
            forall|i: int| 0 <= i < done && (#[trigger] models[i]).rstrip ==> takes_behind,
            forall|i: int|
                0 <= i < done && (#[trigger] models[i]).lstrip && !models[i].rstrip
                    && may_start_in_spaces(*vocabulary, models[i]) ==> takes_before,
        decreases tokens.len() - done,
    {
        let token = &tokens[done];
        assert(models[done as int] == token@);
        if token.rstrip {
            takes_behind = true;
            proof {
                right = done as int;
            }
        } else if token.lstrip && (normalized || starts_in_spaces(token.literal.as_str())) {
            takes_before = true;
            proof {
                left = done as int;
            }
        }
        done += 1;
    }
    proof {
        if takes_behind && takes_before {
            assert(added_tokens(*vocabulary).contains(models[right]));
            assert(added_tokens(*vocabulary).contains(models[left]));
        }
    }
    !(takes_behind && takes_before)
}

fn is_padding_usable(limits: Option<(Option<usize>, Option<usize>)>) -> (usable: bool)
    ensures
        usable == padding_usable(limits),
{
    match limits {
        Some((Some(fixed), multiple)) => {
            if fixed > MAX_LIST_LENGTH {
                return false;
            }
            let missing: usize = match multiple {
                Some(step) => if step > 0 && fixed % step > 0 {
                    step - fixed % step
                } else {
                    0
                },
                None => 0,
            };
            missing <= MAX_LIST_LENGTH - fixed
        },
        Some((None, Some(multiple))) => multiple <= MAX_LIST_LENGTH,
        _ => true,
    }
}

/// Whether the added vocabulary of `tokenizer` holds a token.
pub(crate) fn has_added_tokens(tokenizer: &Tokenizer) -> (found: bool)
    ensures
        found == (added_tokens(vocabulary_of(*tokenizer)) != no_tokens()),
{
    let tokens = vocabulary_tokens(get_added_vocabulary(tokenizer));
    proof {
        let models = tokens@.map_values(|token: TokenPart| token@);
        if tokens@.len() > 0 {
            assert(models.contains(models[0]));
            assert(models.to_set().contains(models[0]));
        } else {
            assert(models.to_set() =~= no_tokens());
        }
    }
    tokens.len() > 0
}

/// Whether the parts of `tokenizer` are such that it can encode every text.
pub(crate) fn are_parts_usable(tokenizer: &Tokenizer) -> (usable: bool)
    ensures
        usable == parts_usable(*tokenizer),
{
    let limits = match get_truncation_limits(tokenizer) {
        Some((max_length, stride)) => max_length == 0 || stride < max_length,
        None => true,
    };
    let padding = is_padding_usable(get_padding_limits(tokenizer));
    let normalizer = match get_normalizer(tokenizer) {
        Some(part) => is_normalizer_usable(part, usize::MAX),
        None => true,
    };
    let pre_tokenizer = match get_pre_tokenizer(tokenizer) {
        Some(part) => is_pre_tokenizer_usable(part, usize::MAX),
        None => true,
    };
    let model = match get_model_part(get_model(tokenizer)) {
        ModelPart::Unigram(Some(alpha)) => alpha == 0 || alpha == MINUS_ZERO_BITS,
        _ => true,
    };
    let processor = match get_post_processor(tokenizer) {
        Some(part) => is_processor_usable(part),
        None => true,
    };
    limits && padding && normalizer && pre_tokenizer && model && processor
        && is_vocabulary_usable(get_added_vocabulary(tokenizer))
}

} // verus!
