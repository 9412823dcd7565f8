//! Prompts and token ids out of segments.

use crate::conversation;
use crate::conversation::Conversation;
use crate::json;
use crate::prompt::{EncodingError, PromptEncoding, RenderedPrompt};
use crate::tokenizer;
use crate::tokenizer::TokenizerEncoder;
use crate::v4::render;
use crate::v4::render::{render_parts, PromptSegment, SegmentModel};
use crate::v4::EncodingV4;
use serde_json::Value;
use vstd::prelude::*;

verus! {

/// `ids` is a result that `tokenizer` may give for a segment: a template
/// segment is encoded as such, another one as content.
pub open spec fn is_segment_encoding<K: TokenizerEncoder + ?Sized>(
    tokenizer: &K,
    segment: SegmentModel,
    ids: Result<Vec<u32>, String>,
) -> bool {
    exists|text: &str|
        #![trigger text@]
        text@ == segment.1 && (if segment.0 {
            call_ensures(K::encode_ids, (tokenizer, text), ids)
        } else {
            call_ensures(K::encode_content_ids, (tokenizer, text), ids)
        })
}

/// The results of `tokenizer` for the segments, one after the other, up to the
/// first failure.
pub open spec fn are_segment_encodings<K: TokenizerEncoder + ?Sized>(
    tokenizer: &K,
    segments: Seq<SegmentModel>,
    results: Seq<Result<Vec<u32>, String>>,
) -> bool {
    &&& results.len() <= segments.len()
    &&& results.len() < segments.len() ==> results.len() > 0 && results.last() is Err
    &&& forall|i: int|
        0 <= i < results.len() ==> is_segment_encoding(
            tokenizer,
            segments[i],
            #[trigger] results[i],
        )
    &&& forall|i: int| 0 <= i < results.len() - 1 ==> #[trigger] results[i] is Ok
}

/// What results come to together: all their ids, or the first failure.
pub open spec fn collected(results: Seq<Result<Vec<u32>, String>>) -> Result<Seq<u32>, Seq<char>>
    decreases results.len(),
{
    if results.len() == 0 {
        Ok(Seq::empty())
    } else {
        match collected(results.drop_last()) {
            Ok(ids) => match results.last() {
                Ok(more) => Ok(ids + more@),
                Err(message) => Err(message@),
            },
            Err(message) => Err(message),
        }
    }
}

/// What an attempt to encode came to, where there was a tokenizer: the ids, or
/// the message of its failure.
pub open spec fn attempt_view(ids: Result<Vec<u32>, EncodingError>) -> Option<
    Result<Seq<u32>, Seq<char>>,
> {
    match ids {
        Ok(list) => Some(Ok(list@)),
        Err(EncodingError::Encode(message)) => Some(Err(message@)),
        Err(EncodingError::MissingTokenizer) => None,
    }
}

/// `ids` may come out when the segments are encoded one after the other.
pub open spec fn is_encoding<K: TokenizerEncoder + ?Sized>(
    tokenizer: &K,
    segments: Seq<SegmentModel>,
    ids: Result<Seq<u32>, Seq<char>>,
) -> bool {
    exists|results: Seq<Result<Vec<u32>, String>>| #[trigger]
        are_segment_encodings(tokenizer, segments, results) && collected(results) == ids
}

/// The texts of segments, one behind the other.
pub open spec fn prompt_text(segments: Seq<SegmentModel>) -> Seq<char> {
    segments.map_values(|segment: SegmentModel| segment.1).flatten()
}

/// Puts the ids of results together, or gives the first failure.
pub fn collect_ids(results: Vec<Result<Vec<u32>, String>>) -> (ids: Result<
    Vec<u32>,
    EncodingError,
>)
    ensures
        attempt_view(ids) == Some(collected(results@)),
{
    let mut ids: Vec<u32> = Vec::new();
    let mut done: usize = 0;
    while done < results.len()
        invariant
            done <= results.len(),
            collected(results@.take(done as int)) == Ok::<Seq<u32>, Seq<char>>(ids@),
        decreases results.len() - done,
    {
        let ghost ids_before = ids@;
        proof {
            assert(results@.take(done + 1).drop_last() =~= results@.take(done as int));
        }
        match &results[done] {
            Ok(more) => {
                ids.extend_from_slice(more.as_slice());
                assert(ids@ =~= ids_before + more@);
            },
            Err(message) => {
                proof {
                    lemma_collected_prefix(results@, done + 1);
                }
                return Err(EncodingError::Encode(message.clone()));
            },
        }
        done += 1;
    }
    assert(results@.take(done as int) =~= results@);
    Ok(ids)
}

/// A failure stays whatever follows.
proof fn lemma_collected_prefix(results: Seq<Result<Vec<u32>, String>>, count: int)
    requires
        0 <= count <= results.len(),
        collected(results.take(count)) is Err,
    ensures
        collected(results) == collected(results.take(count)),
    decreases results.len(),
{
    if count == results.len() {
        assert(results.take(count) =~= results);
    } else {
        assert(results.drop_last().take(count) =~= results.take(count));
        lemma_collected_prefix(results.drop_last(), count);
    }
}

/// Encodes segments one after the other and puts their ids together.
pub fn encode_segments<K: TokenizerEncoder + ?Sized>(
    tokenizer: &K,
    segments: &Vec<PromptSegment>,
) -> (ids: Result<Vec<u32>, EncodingError>)
    requires
        tokenizer.usable(),
    ensures
        attempt_view(ids) matches Some(result) && is_encoding(
            tokenizer,
            render::segment_views(segments@),
            result,
        ),
{
    let ghost models = render::segment_views(segments@);
    let mut results: Vec<Result<Vec<u32>, String>> = Vec::new();
    let mut done: usize = 0;
    let mut failed: bool = false;
    while done < segments.len() && !failed
        invariant
            tokenizer.usable(),
            done <= segments.len(),
            results.len() == done,
            models == render::segment_views(segments@),
            failed ==> done > 0 && results@.last() is Err,
            forall|i: int|
                0 <= i < done ==> is_segment_encoding(
                    tokenizer,
                    models[i],
                    #[trigger] results@[i],
                ),
            forall|i: int| 0 <= i < done - 1 ==> #[trigger] results@[i] is Ok,
            !failed && done > 0 ==> results@[done - 1] is Ok,
        decreases segments.len() - done,
    {
        let text = segments[done].1.as_str();
        assert(models[done as int] == (segments@[done as int].0, text@));
        let result = if segments[done].0 {
            tokenizer.encode_ids(text)
        } else {
            tokenizer.encode_content_ids(text)
        };
        assert(is_segment_encoding(tokenizer, models[done as int], result));
        failed = result.is_err();
        results.push(result);
        done += 1;
    }
    assert(are_segment_encodings(tokenizer, models, results@));
    collect_ids(results)
}

impl<T: EncodingV4> PromptEncoding for T {
    fn encode<S: Fn(&Value) -> String>(
        &self,
        conversation: &Conversation,
        stringify: &S,
    ) -> (ids: Result<Vec<u32>, EncodingError>)
        ensures
            match self.encoder() {
                None => ids matches Err(EncodingError::MissingTokenizer),
                Some(tokenizer) => attempt_view(ids) matches Some(result) && is_encoding(
                    tokenizer,
                    render::prompt_segments(
                        self.markup(),
                        conversation@,
                        json::json_text(*stringify),
                    ),
                    result,
                ) && render::prompt_written(*stringify, self.markup(), conversation@),
            },
    {
        match self.tokenizer() {
            None => Err(EncodingError::MissingTokenizer),
            Some(tokenizer) => {
                let (segments, _) = render_parts(self, conversation, stringify);
                encode_segments(tokenizer, &segments)
            },
        }
    }

    fn render_conversation<S: Fn(&Value) -> String>(
        &self,
        conversation: &Conversation,
        stringify: &S,
    ) -> (rendered: RenderedPrompt)
        ensures
            rendered.prompt@ == prompt_text(
                render::prompt_segments(
                    self.markup(),
                    conversation@,
                    json::json_text(*stringify),
                ),
            ),
            conversation::image_views(rendered.image_sources@) == render::all_images(
                render::rendered_messages(
                    self.markup(),
                    conversation@,
                    json::json_text(*stringify),
                ),
            ),
            render::prompt_written(*stringify, self.markup(), conversation@),
    {
        let (segments, image_sources) = render_parts(self, conversation, stringify);
        let ghost models = render::segment_views(segments@);
        let ghost texts = models.map_values(|segment: SegmentModel| segment.1);
        let mut prompt = String::new();
        let mut done: usize = 0;
        assert(prompt@ =~= texts.take(0).flatten());
        while done < segments.len()
            invariant
                done <= segments.len(),
                models == render::segment_views(segments@),
                texts == models.map_values(|segment: SegmentModel| segment.1),
                prompt@ == texts.take(done as int).flatten(),
            decreases segments.len() - done,
        {
            proof {
                assert(texts.take(done + 1) =~= texts.take(done as int).push(texts[done as int]));
                texts.take(done as int).lemma_flatten_push(texts[done as int]);
            }
            prompt.append(segments[done].1.as_str());
            done += 1;
        }
        assert(texts.take(done as int) =~= texts);
        RenderedPrompt { prompt, image_sources }
    }
}

} // verus!
