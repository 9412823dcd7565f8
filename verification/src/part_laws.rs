//! What decides on the usability of a tokenizer, and what does not.

use crate::parts;
use crate::parts::{
    ModelPart, NormalizerModel, PreTokenizerModel, ProcessorModel, TokenModel,
};
use crate::patterns;
use tokenizers::normalizers::NormalizerWrapper;
use tokenizers::pre_tokenizers::PreTokenizerWrapper;
use tokenizers::processors::PostProcessorWrapper;
use tokenizers::{AddedVocabulary, Tokenizer};
use vstd::prelude::*;

verus! {

/// A tokenizer that just has a model, and none that draws lots, is usable.
pub proof fn law_bare_tokenizer_usable(tokenizer: Tokenizer)
    requires
        parts::truncation_limits(tokenizer) is None,
        parts::padding_limits(tokenizer) is None,
        parts::normalizer_of(tokenizer) is None,
        parts::pre_tokenizer_of(tokenizer) is None,
        parts::post_processor_of(tokenizer) is None,
        !(parts::model_part(parts::model_of(tokenizer)) is Unigram),
        parts::added_tokens(parts::vocabulary_of(tokenizer)) == Set::<TokenModel>::empty(),
    ensures
        parts::parts_usable(tokenizer),
{
}

/// Each part counts for itself: a tokenizer is usable whose parts are each taken
/// from one of two usable tokenizers.
pub proof fn law_parts_count_alone(tokenizer: Tokenizer, first: Tokenizer, second: Tokenizer)
    requires
        parts::parts_usable(first),
        parts::parts_usable(second),
        parts::truncation_limits(tokenizer) == parts::truncation_limits(first)
            || parts::truncation_limits(tokenizer) == parts::truncation_limits(second),
        parts::padding_limits(tokenizer) == parts::padding_limits(first)
            || parts::padding_limits(tokenizer) == parts::padding_limits(second),
        parts::normalizer_of(tokenizer) == parts::normalizer_of(first) || parts::normalizer_of(
            tokenizer,
        ) == parts::normalizer_of(second),
        parts::pre_tokenizer_of(tokenizer) == parts::pre_tokenizer_of(first)
            || parts::pre_tokenizer_of(tokenizer) == parts::pre_tokenizer_of(second),
        parts::model_of(tokenizer) == parts::model_of(first) || parts::model_of(tokenizer)
            == parts::model_of(second),
        parts::post_processor_of(tokenizer) == parts::post_processor_of(first)
            || parts::post_processor_of(tokenizer) == parts::post_processor_of(second),
        parts::vocabulary_of(tokenizer) == parts::vocabulary_of(first) || parts::vocabulary_of(
            tokenizer,
        ) == parts::vocabulary_of(second),
    ensures
        parts::parts_usable(tokenizer),
{
}

/// No part can make up for another: a tokenizer is not usable with a part that is
/// not.
pub proof fn law_every_part_counts(tokenizer: Tokenizer)
    requires
        parts::parts_usable(tokenizer),
    ensures
        parts::truncation_limits(tokenizer) matches Some((max_length, stride)) ==> max_length == 0
            || stride < max_length,
        parts::padding_limits(tokenizer) matches Some((Some(fixed), multiple))
            ==> parts::rounded_up(fixed as int, multiple) <= parts::MAX_LIST_LENGTH,
        parts::padding_limits(tokenizer) matches Some((None, Some(multiple))) ==> multiple
            <= parts::MAX_LIST_LENGTH,
        parts::normalizer_of(tokenizer) matches Some(part) ==> parts::normalizer_usable(part),
        parts::pre_tokenizer_of(tokenizer) matches Some(part) ==> parts::pre_tokenizer_usable(part),
        parts::model_usable(parts::model_part(parts::model_of(tokenizer))),
        parts::post_processor_of(tokenizer) matches Some(part) ==> parts::processor_usable(part),
        parts::vocabulary_usable(parts::vocabulary_of(tokenizer)),
{
}

/// A text can be cut if the parts overlap by less than their length, or come to
/// nothing; without limits it is not cut, and not filled up.
pub proof fn law_limits(
    max_length: usize,
    stride: usize,
    fixed: usize,
    multiple: Option<usize>,
    step: usize,
)
    ensures
        parts::limits_usable(Some((max_length, stride))) <==> max_length == 0 || stride
            < max_length,
        parts::limits_usable(None),
        parts::padding_usable(Some((Some(fixed), multiple))) <==> parts::rounded_up(
            fixed as int,
            multiple,
        ) <= parts::MAX_LIST_LENGTH,
        parts::padding_usable(Some((None, Some(step)))) <==> step <= parts::MAX_LIST_LENGTH,
        parts::padding_usable(Some((None, None))),
        parts::padding_usable(None),
{
}

/// A model is usable unless it is a `Unigram` with an `alpha` other than zero.
pub proof fn law_models(model: ModelPart)
    ensures
        parts::model_usable(model) <==> !(model matches ModelPart::Unigram(Some(bits)) && bits != 0
            && bits != 0x8000_0000_0000_0000),
{
}

/// Normalizers that only change characters are usable.
pub proof fn law_plain_normalizers(normalizer: NormalizerWrapper)
    requires
        ({
            let model = parts::normalizer_model(normalizer);
            model is Bert || model is Strip || model is StripAccents || model is Nfc || model is Nfd
                || model is Nfkc || model is Nfkd || model is Lowercase || model is Nmt || model
                is ByteLevel
        }),
    ensures
        parts::normalizer_usable(normalizer),
{
}

/// A normalizer that puts a text in front is usable if there is a text.
pub proof fn law_prepending_normalizer(normalizer: NormalizerWrapper, text: Seq<char>)
    requires
        parts::normalizer_model(normalizer) == NormalizerModel::Prepend(text),
    ensures
        parts::normalizer_usable(normalizer) <==> text.len() > 0,
{
}

/// A chain of normalizers is usable if each of its parts is.
pub proof fn law_chain_of_normalizers(
    normalizer: NormalizerWrapper,
    chain: Seq<NormalizerWrapper>,
    depth: nat,
)
    requires
        parts::normalizer_model(normalizer) == NormalizerModel::Chain(chain),
    ensures
        parts::normalizer_usable_within(normalizer, depth + 1) <==> forall|i: int|
            0 <= i < chain.len() ==> parts::normalizer_usable_within(#[trigger] chain[i], depth),
{
    lemma_all_normalizers(chain, chain.len() as int, depth);
}

/// Pre-tokenizers that go by kinds of characters are usable.
pub proof fn law_plain_pre_tokenizers(pre_tokenizer: PreTokenizerWrapper)
    requires
        ({
            let model = parts::pre_tokenizer_model(pre_tokenizer);
            model is Bert || model is ByteLevel || model is Delimiter || model is Metaspace || model
                is Whitespace || model is WhitespaceSplit || model is Punctuation || model is Digits
                || model is UnicodeScripts
        }),
    ensures
        parts::pre_tokenizer_usable(pre_tokenizer),
{
}

/// A pre-tokenizer that cuts texts into pieces of one length is usable unless
/// the pieces are empty.
pub proof fn law_cutting_pre_tokenizer(pre_tokenizer: PreTokenizerWrapper, length: usize)
    requires
        parts::pre_tokenizer_model(pre_tokenizer) == PreTokenizerModel::FixedLength(length),
    ensures
        parts::pre_tokenizer_usable(pre_tokenizer) <==> length > 0,
{
}

/// A pre-tokenizer that splits by a literal which it searches for is usable.
pub proof fn law_splitting_by_literal(
    pre_tokenizer: PreTokenizerWrapper,
    split: tokenizers::pre_tokenizers::split::Split,
    literal: Seq<char>,
)
    requires
        parts::pre_tokenizer_model(pre_tokenizer) == PreTokenizerModel::Split(split),
        parts::split_pattern(split) == patterns::PatternModel::Literal(literal),
        parts::searched_expression(split) == patterns::escaped(literal),
    ensures
        parts::pre_tokenizer_usable(pre_tokenizer),
{
    law_literal_without_references(literal);
}

/// A chain of pre-tokenizers is usable if each of its parts is.
pub proof fn law_chain_of_pre_tokenizers(
    pre_tokenizer: PreTokenizerWrapper,
    chain: Seq<PreTokenizerWrapper>,
    depth: nat,
)
    requires
        parts::pre_tokenizer_model(pre_tokenizer) == PreTokenizerModel::Chain(chain),
    ensures
        parts::pre_tokenizer_usable_within(pre_tokenizer, depth + 1) <==> forall|i: int|
            0 <= i < chain.len() ==> parts::pre_tokenizer_usable_within(#[trigger] chain[i], depth),
{
    lemma_all_pre_tokenizers(chain, chain.len() as int, depth);
}

/// Post-processors that are neither templates nor chains are usable.
pub proof fn law_plain_post_processors(processor: PostProcessorWrapper)
    requires
        ({
            let model = parts::processor_model(processor);
            model is Roberta || model is Bert || model is ByteLevel
        }),
    ensures
        parts::processor_usable(processor),
{
}

/// A template is usable unless it picks a second encoding where there is one.
pub proof fn law_template(
    processor: PostProcessorWrapper,
    single: tokenizers::processors::template::Template,
    pair: tokenizers::processors::template::Template,
    added: usize,
)
    requires
        parts::processor_model(processor) == (ProcessorModel::Template { single, pair, added }),
    ensures
        parts::processor_usable(processor) <==> forall|i: int|
            0 <= i < parts::template_pieces(single).len() ==> #[trigger] parts::template_pieces(
                single,
            )[i] != Some(true),
{
}

/// A text is filled up to a multiple, and by less than one of them.
pub proof fn law_rounded_up(length: int, step: usize)
    requires
        0 <= length,
        0 < step,
    ensures
        parts::rounded_up(length, Some(step)) % (step as int) == 0,
        length <= parts::rounded_up(length, Some(step)) < length + step,
        parts::rounded_up(length, None) == length,
        parts::rounded_up(length, Some(0)) == length,
{
    let step = step as int;
    let rest = length % step;
    vstd::arithmetic::div_mod::lemma_fundamental_div_mod(length, step);
    if rest > 0 {
        vstd::arithmetic::div_mod::lemma_mod_multiples_basic(length / step + 1, step);
        assert(length + step - rest == (length / step + 1) * step) by (nonlinear_arith)
            requires
                length == step * (length / step) + rest,
        ;
    }
}

/// A vocabulary is usable where no token takes the spaces before it, or none
/// takes those behind it.
pub proof fn law_vocabulary_of_one_side(vocabulary: AddedVocabulary)
    requires
        (forall|token: TokenModel| #[trigger]
            parts::added_tokens(vocabulary).contains(token) ==> !token.lstrip) || (forall|
            token: TokenModel,
        | #[trigger] parts::added_tokens(vocabulary).contains(token) ==> !token.rstrip),
    ensures
        parts::vocabulary_usable(vocabulary),
{
}

/// Tokens that start with no space do not get in each other's way, where each is
/// looked for as it is.
pub proof fn law_vocabulary_without_spaces(vocabulary: AddedVocabulary)
    requires
        forall|token: TokenModel| #[trigger]
            parts::added_tokens(vocabulary).contains(token) ==> !token.normalized
                && token.literal.len() > 0 && '!' <= token.literal[0] <= '~',
    ensures
        parts::vocabulary_usable(vocabulary),
{
}

/// A token that takes the spaces behind it gets in the way of one that starts
/// with a space and takes the spaces before it only.
pub proof fn law_vocabulary_with_spaces(
    vocabulary: AddedVocabulary,
    before: TokenModel,
    behind: TokenModel,
)
    requires
        parts::added_tokens(vocabulary).contains(before),
        parts::added_tokens(vocabulary).contains(behind),
        before.rstrip,
        behind.lstrip,
        !behind.rstrip,
        behind.literal.len() > 0,
        behind.literal[0] == ' ',
    ensures
        !parts::vocabulary_usable(vocabulary),
{
}

/// A normalizer that replaces a literal is usable if there is something to look
/// for, or nothing to put in.
pub proof fn law_replacing_normalizer(
    normalizer: NormalizerWrapper,
    replace: tokenizers::normalizers::replace::Replace,
    literal: Seq<char>,
    content: Seq<char>,
)
    requires
        parts::normalizer_model(normalizer) == (NormalizerModel::Replace { replace, content }),
        parts::replace_pattern(replace) == patterns::PatternModel::Literal(literal),
    ensures
        parts::normalizer_usable(normalizer) <==> literal.len() > 0 || content.len() == 0,
{
}

/// A regular expression without backslashes and question marks refers to
/// nothing.
pub proof fn law_plain_expression(expression: Seq<char>)
    requires
        !expression.contains('\\'),
        !expression.contains('?'),
    ensures
        patterns::without_references(expression),
{
    lemma_plain_from(expression, 0);
}

/// A reference is found behind any literal, whatever follows it.
pub proof fn law_reference_found(literal: Seq<char>, mark: char, behind: Seq<char>)
    requires
        '0' <= mark <= '9' || mark == 'k' || mark == 'K' || mark == 'g' || mark == 'G',
    ensures
        !patterns::without_references(patterns::escaped(literal) + seq!['\\', mark] + behind),
{
    lemma_reference_from(literal, mark, behind, 0);
    assert(literal.take(0) =~= Seq::empty());
    assert(patterns::escaped(literal.take(0)) =~= Seq::empty());
}

proof fn lemma_plain_from(expression: Seq<char>, at: int)
    requires
        0 <= at,
        !expression.contains('\\'),
        !expression.contains('?'),
    ensures
        patterns::no_reference_from(expression, at),
    decreases expression.len() - at,
{
    if at < expression.len() {
        lemma_plain_from(expression, at + 1);
        assert(expression[at] != '\\');
        assert(expression[at] != '?');
        if at + 1 < expression.len() {
            assert(expression[at + 1] != '?');
        }
    }
}

proof fn lemma_reference_from(literal: Seq<char>, mark: char, behind: Seq<char>, at: int)
    requires
        '0' <= mark <= '9' || mark == 'k' || mark == 'K' || mark == 'g' || mark == 'G',
        0 <= at <= literal.len(),
    ensures
        !patterns::no_reference_from(
            patterns::escaped(literal) + seq!['\\', mark] + behind,
            patterns::escaped(literal.take(at)).len() as int,
        ),
    decreases literal.len() - at,
{
    let expression = patterns::escaped(literal) + seq!['\\', mark] + behind;
    if at == literal.len() {
        assert(literal.take(at) =~= literal);
        let from = patterns::escaped(literal).len() as int;
        assert(expression[from] == '\\');
        assert(expression[from + 1] == mark);
    } else {
        let from = patterns::escaped(literal.take(at)).len() as int;
        lemma_escaped_at(literal, at);
        lemma_reference_from(literal, mark, behind, at + 1);
        assert(expression[from] == patterns::escaped(literal)[from]);
    }
}

/// A literal is searched for character by character: the expression for a text
/// is put together from those for its parts.
pub proof fn law_escaped_parts(text: Seq<char>, more: Seq<char>)
    ensures
        patterns::escaped(text + more) == patterns::escaped(text) + patterns::escaped(more),
    decreases more.len(),
{
    if more.len() == 0 {
        assert(text + more =~= text);
        assert(patterns::escaped(text) + more =~= patterns::escaped(text));
    } else {
        law_escaped_parts(text, more.drop_last());
        assert((text + more).drop_last() =~= text + more.drop_last());
        assert((text + more).last() == more.last());
        assert(patterns::escaped(text + more) =~= patterns::escaped(text) + patterns::escaped(
            more,
        ));
    }
}

/// A character stands for itself, behind a backslash if it would have a meaning.
pub proof fn law_escaped_character(c: char)
    ensures
        patterns::escaped(seq![c]) == (if patterns::is_meta(c) {
            seq!['\\', c]
        } else {
            seq![c]
        }),
{
    let none = Seq::<char>::empty();
    assert(seq![c].drop_last() =~= none);
    assert(patterns::escaped(none) =~= none);
    assert(none.push('\\').push(c) =~= seq!['\\', c]);
}

/// A literal refers to nothing, whatever characters it has.
pub proof fn law_literal_without_references(literal: Seq<char>)
    ensures
        patterns::without_references(patterns::escaped(literal)),
{
    lemma_no_reference_from(literal, 0);
    assert(literal.take(0) =~= Seq::empty());
    assert(patterns::escaped(literal.take(0)) =~= Seq::empty());
}

/// A literal that is not empty matches no empty text.
pub proof fn law_literal_takes_characters(literal: Seq<char>)
    requires
        literal.len() > 0,
    ensures
        patterns::takes_characters(patterns::escaped(literal)),
{
    lemma_row_from(literal, 0);
    assert(literal.take(0) =~= Seq::empty());
    assert(patterns::escaped(literal.take(0)) =~= Seq::empty());
}

/// What the expression for a literal has behind its first characters.
proof fn lemma_escaped_at(literal: Seq<char>, at: int)
    requires
        0 <= at < literal.len(),
    ensures
        ({
            let expression = patterns::escaped(literal);
            let from = patterns::escaped(literal.take(at)).len() as int;
            let upto = patterns::escaped(literal.take(at + 1)).len() as int;
            &&& upto <= expression.len()
            &&& if patterns::is_meta(literal[at]) {
                upto == from + 2 && expression[from] == '\\' && expression[from + 1] == literal[at]
            } else {
                upto == from + 1 && expression[from] == literal[at]
            }
        }),
{
    let front = literal.take(at);
    assert(literal.take(at + 1).drop_last() =~= front);
    assert(literal.take(at + 1) + literal.skip(at + 1) =~= literal);
    law_escaped_parts(literal.take(at + 1), literal.skip(at + 1));
}

proof fn lemma_no_reference_from(literal: Seq<char>, at: int)
    requires
        0 <= at <= literal.len(),
    ensures
        patterns::no_reference_from(
            patterns::escaped(literal),
            patterns::escaped(literal.take(at)).len() as int,
        ),
    decreases literal.len() - at,
{
    if at == literal.len() {
        assert(literal.take(at) =~= literal);
    } else {
        lemma_escaped_at(literal, at);
        lemma_no_reference_from(literal, at + 1);
    }
}

proof fn lemma_row_from(literal: Seq<char>, at: int)
    requires
        0 <= at <= literal.len(),
    ensures
        patterns::is_row_from(
            patterns::escaped(literal),
            patterns::escaped(literal.take(at)).len() as int,
        ),
        at < literal.len() ==> patterns::escaped(literal.take(at)).len() < patterns::escaped(
            literal,
        ).len(),
    decreases literal.len() - at,
{
    if at == literal.len() {
        assert(literal.take(at) =~= literal);
    } else {
        lemma_escaped_at(literal, at);
        lemma_row_from(literal, at + 1);
    }
}

proof fn lemma_all_normalizers(chain: Seq<NormalizerWrapper>, count: int, depth: nat)
    requires
        0 <= count <= chain.len(),
    ensures
        parts::normalizers_usable(chain, count, depth) <==> forall|i: int|
            0 <= i < count ==> parts::normalizer_usable_within(#[trigger] chain[i], depth),
    decreases count,
{
    if count > 0 {
        lemma_all_normalizers(chain, count - 1, depth);
    }
}

proof fn lemma_all_pre_tokenizers(chain: Seq<PreTokenizerWrapper>, count: int, depth: nat)
    requires
        0 <= count <= chain.len(),
    ensures
        parts::pre_tokenizers_usable(chain, count, depth) <==> forall|i: int|
            0 <= i < count ==> parts::pre_tokenizer_usable_within(#[trigger] chain[i], depth),
    decreases count,
{
    if count > 0 {
        lemma_all_pre_tokenizers(chain, count - 1, depth);
    }
}

} // verus!
