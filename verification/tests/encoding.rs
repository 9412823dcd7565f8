//! Token ids, with a small tokenizer that has control tokens of its own.

use prompt_encoding::conversation::{
    Conversation, InputMessage, ReasoningEffort, ResponseFormat, ToolCall, ToolChoice,
};
use prompt_encoding::parts::MAX_LIST_LENGTH;
use prompt_encoding::tokenizer::{is_usable, NO_PLAIN_CONTENT};
use prompt_encoding::v4::encode::{collect_ids, encode_segments};
use prompt_encoding::v4::version::VersionEncoding;
use prompt_encoding::v4::SYSTEM_SP_TOKEN;
use prompt_encoding::{EncodingError, PromptEncoding, TokenizerEncoder};
use serde_json::Value;
use std::sync::Arc;
use tokenizers::models::unigram::Unigram;
use tokenizers::pre_tokenizers::split::{Split, SplitPattern};
use tokenizers::pre_tokenizers::PreTokenizerWrapper;
use tokenizers::processors::sequence::Sequence as ProcessorSequence;
use tokenizers::processors::template::TemplateProcessing;
use tokenizers::processors::PostProcessorWrapper;
use tokenizers::{AddedToken, AddedVocabulary, SplitDelimiterBehavior, Tokenizer};

const TOKENIZER: &str = r#"{
  "version": "1.0",
  "truncation": null,
  "padding": null,
  "added_tokens": [
    {"id": 0, "content": "<｜begin▁of▁sentence｜>", "single_word": false, "lstrip": false, "rstrip": false, "normalized": false, "special": true},
    {"id": 128803, "content": "<｜User｜>", "single_word": false, "lstrip": false, "rstrip": false, "normalized": false, "special": true},
    {"id": 128804, "content": "<｜Assistant｜>", "single_word": false, "lstrip": false, "rstrip": false, "normalized": false, "special": true},
    {"id": 128821, "content": "<think>", "single_word": false, "lstrip": false, "rstrip": false, "normalized": false, "special": false},
    {"id": 128822, "content": "</think>", "single_word": false, "lstrip": false, "rstrip": false, "normalized": false, "special": false}
  ],
  "normalizer": null,
  "pre_tokenizer": null,
  "post_processor": null,
  "decoder": null,
  "model": {
    "type": "BPE",
    "dropout": null,
    "unk_token": null,
    "continuing_subword_prefix": null,
    "end_of_word_suffix": null,
    "fuse_unk": false,
    "byte_fallback": false,
    "vocab": {
      "<": 30, ">": 32, "U": 55, "e": 71, "h": 74, "i": 75, "k": 77, "n": 80, "r": 84, "s": 85, "t": 86, "x": 90,
      "Us": 200, "Use": 201, "User": 6756, "th": 202, "thi": 203, "thin": 204, "think": 205,
      "｜": 28217,
      "<｜begin▁of▁sentence｜>": 0, "<｜User｜>": 128803, "<｜Assistant｜>": 128804, "<think>": 128821, "</think>": 128822
    },
    "merges": ["U s", "Us e", "Use r", "t h", "th i", "thi n", "thin k"]
  }
}"#;

fn tokenizer() -> Tokenizer {
    Tokenizer::from_bytes(TOKENIZER).expect("a tokenizer")
}

fn no_effort(_index: usize, _thinking_mode: bool, _effort: Option<ReasoningEffort>) -> String {
    String::new()
}

fn unstyled(value: &Value) -> String {
    value.to_string()
}

type EffortPrompt = fn(usize, bool, Option<ReasoningEffort>) -> String;

fn encoding_with<K: TokenizerEncoder>() -> VersionEncoding<K, EffortPrompt> {
    VersionEncoding::new(
        true,
        SYSTEM_SP_TOKEN,
        " calls",
        "invoke",
        "parameter",
        no_effort as EffortPrompt,
    )
}

fn v41_encoding() -> VersionEncoding<Tokenizer, EffortPrompt> {
    let tokenizer = tokenizer();
    assert!(is_usable(&tokenizer));
    encoding_with().with_tokenizer(tokenizer)
}

fn conversation_with(content: &str) -> Conversation {
    Conversation {
        messages: vec![InputMessage::User {
            content: content.to_string(),
            image_sources: Vec::new(),
        }],
        tools: Vec::new(),
        tool_choice: ToolChoice::Auto,
        response_format: ResponseFormat::Text,
        thinking_mode: false,
        reasoning_effort: None,
    }
}

fn encode(content: &str) -> Vec<u32> {
    v41_encoding()
        .encode(&conversation_with(content), &unstyled)
        .unwrap()
}

#[test]
fn empty_user_message_keeps_template_baseline() {
    let ids = encode("");
    assert_eq!(ids.len(), 4, "baseline template is 4 ids, got {ids:?}");
    assert_eq!(ids, vec![0, 128803, 128804, 128822]);
}

#[test]
fn user_supplied_control_token_literals_encode_as_plain_bpe() {
    let empty = encode("");
    assert_eq!(empty.len(), 4);

    // <｜User｜>: 9 prompt tokens (4 template + 5 content).
    let user = encode("<｜User｜>");
    assert_eq!(user.len(), 9, "expected 4 template + 5 content ids, got {user:?}");
    assert_eq!(&user[..2], &empty[..2], "template prefix must be unchanged");
    assert_eq!(
        &user[2..7],
        &[30u32, 28217, 6756, 28217, 32],
        "user content must be plain BPE (issue #5)"
    );
    assert_eq!(&user[7..], &empty[2..], "template suffix must be unchanged");
    assert!(
        !user[2..7].contains(&128803),
        "user content must not map to the <｜User｜> control token"
    );

    // <think>: 7 prompt tokens (4 template + 3 content).
    let think = encode("<think>");
    assert_eq!(think.len(), 7, "expected 4 template + 3 content ids, got {think:?}");
    assert_eq!(&think[..2], &empty[..2]);
    assert_eq!(&think[5..], &empty[2..]);
}

#[test]
fn plain_text_content_is_unchanged() {
    let empty = encode("");
    let x = encode("x");
    assert_eq!(x.len(), 5, "expected 4 template + 1 content id, got {x:?}");
    assert_eq!(&x[..2], &empty[..2]);
    assert_eq!(&x[3..], &empty[2..]);
}

#[test]
fn tokenizer_recognizes_literals_in_templates_only() {
    let tokenizer = tokenizer();
    assert_eq!(tokenizer.encode_ids("x<｜User｜>"), Ok(vec![90, 128803]));
    assert_eq!(
        tokenizer.encode_content_ids("x<｜User｜>"),
        Ok(vec![90, 30, 28217, 6756, 28217, 32])
    );
    // Asking for content leaves the tokenizer as it is.
    assert_eq!(tokenizer.encode_ids("<｜User｜>"), Ok(vec![128803]));
}

#[test]
fn no_special_tokens_are_added() {
    let json = TOKENIZER.replace(
        r#""post_processor": null"#,
        r#""post_processor": {"type": "TemplateProcessing", "single": [{"SpecialToken": {"id": "<think>", "type_id": 0}}, {"Sequence": {"id": "A", "type_id": 0}}], "pair": [{"Sequence": {"id": "A", "type_id": 0}}, {"Sequence": {"id": "B", "type_id": 0}}], "special_tokens": {"<think>": {"id": "<think>", "ids": [128821], "tokens": ["<think>"]}}}"#,
    );
    let tokenizer = Tokenizer::from_bytes(json).expect("a tokenizer");
    let with_special = tokenizer.encode("x", true).unwrap();
    assert_eq!(with_special.get_ids(), &[128821, 90]);
    assert_eq!(tokenizer.encode_ids("x"), Ok(vec![90]));
    assert_eq!(tokenizer.encode_content_ids("x"), Ok(vec![90]));
}

#[test]
fn shared_tokenizer_encodes_as_the_tokenizer() {
    let shared = Arc::new(tokenizer());
    assert_eq!(shared.encode_ids("<think>"), Ok(vec![128821]));
    assert_eq!(shared.encode_content_ids("<think>"), Ok(vec![30, 205, 32]));
    let ids = encoding_with()
        .with_tokenizer(shared)
        .encode(&conversation_with("<think>"), &unstyled)
        .unwrap();
    assert_eq!(ids, vec![0, 128803, 30, 205, 32, 128804, 128822]);
}

#[test]
fn missing_tokenizer_is_an_error() {
    let encoding = encoding_with::<Tokenizer>();
    let ids = encoding.encode(&conversation_with("x"), &unstyled);
    assert!(matches!(ids, Err(EncodingError::MissingTokenizer)));
    // A prompt can be rendered all the same.
    let rendered = encoding.render_conversation(&conversation_with("x"), &unstyled);
    assert_eq!(
        rendered.prompt,
        "<｜begin▁of▁sentence｜><｜User｜>x<｜Assistant｜></think>"
    );
}

/// Counts bytes; content counts from a thousand. Fails on a text with `!`.
struct Counting;

impl TokenizerEncoder for Counting {
    fn encode_ids(&self, text: &str) -> Result<Vec<u32>, String> {
        if text.contains('!') {
            return Err(format!("no ids for {text}"));
        }
        Ok(vec![text.len() as u32])
    }

    fn recognizes_added_tokens(&self) -> bool {
        true
    }

    fn encode_content_ids(&self, text: &str) -> Result<Vec<u32>, String> {
        self.encode_ids(text)
            .map(|ids| ids.iter().map(|id| id + 1000).collect())
    }
}

/// Recognizes one literal, says so, and leaves the encoding of content to the
/// trait.
struct Literal;

impl TokenizerEncoder for Literal {
    fn encode_ids(&self, text: &str) -> Result<Vec<u32>, String> {
        if text == "<｜User｜>" {
            return Ok(vec![128803]);
        }
        Ok(vec![text.len() as u32])
    }

    fn recognizes_added_tokens(&self) -> bool {
        true
    }
}

/// Recognizes no literal, says so, and leaves the encoding of content to the
/// trait.
struct Plain;

impl TokenizerEncoder for Plain {
    fn encode_ids(&self, text: &str) -> Result<Vec<u32>, String> {
        Ok(vec![text.len() as u32])
    }

    fn recognizes_added_tokens(&self) -> bool {
        false
    }
}

#[test]
fn content_is_not_encoded_with_literals_by_default() {
    assert_eq!(Literal.encode_ids("<｜User｜>"), Ok(vec![128803]));
    let refused = Err(NO_PLAIN_CONTENT.to_string());
    assert_eq!(Literal.encode_content_ids("<｜User｜>"), refused);
    assert_eq!(Literal.encode_content_ids("abc"), refused);
    assert_eq!(Arc::new(Literal).encode_content_ids("<｜User｜>"), refused);
    let ids = encoding_with()
        .with_tokenizer(Literal)
        .encode(&conversation_with("<｜User｜>"), &unstyled);
    assert!(matches!(ids, Err(EncodingError::Encode(message)) if message == NO_PLAIN_CONTENT));
}

#[test]
fn content_is_encoded_as_text_where_no_literal_is_recognized() {
    assert_eq!(Plain.encode_content_ids("abc"), Ok(vec![3]));
    assert_eq!(Arc::new(Plain).encode_content_ids("abc"), Ok(vec![3]));
    assert!(!Arc::new(Plain).recognizes_added_tokens());
    let ids = encoding_with()
        .with_tokenizer(Plain)
        .encode(&conversation_with("abc"), &unstyled)
        .unwrap();
    assert_eq!(ids[2], 3);
    assert!(tokenizer().recognizes_added_tokens());
    let mut bare = tokenizer();
    bare.with_added_vocabulary(AddedVocabulary::new());
    assert!(!bare.recognizes_added_tokens());
}

#[test]
fn segments_are_encoded_one_by_one() {
    let segments = vec![
        (true, "ab".to_string()),
        (false, "cde".to_string()),
        (true, "f".to_string()),
    ];
    assert_eq!(encode_segments(&Counting, &segments).unwrap(), vec![2, 1003, 1]);
    let dynamic: &dyn TokenizerEncoder = &Counting;
    assert_eq!(encode_segments(dynamic, &segments).unwrap(), vec![2, 1003, 1]);
}

#[test]
fn first_failure_is_the_error() {
    let segments = vec![
        (true, "ab".to_string()),
        (false, "c!".to_string()),
        (true, "d!".to_string()),
    ];
    match encode_segments(&Counting, &segments) {
        Err(EncodingError::Encode(message)) => assert_eq!(message, "no ids for c!"),
        other => panic!("expected a failure, got {other:?}"),
    }
    let ids = encoding_with()
        .with_tokenizer(Counting)
        .encode(&conversation_with("hi!"), &unstyled);
    match ids {
        Err(EncodingError::Encode(message)) => assert_eq!(message, "no ids for hi!"),
        other => panic!("expected a failure, got {other:?}"),
    }
}

#[test]
fn failure_of_the_tokenizer_is_the_error() {
    // `WordLevel` without an unknown token fails on words that it does not know.
    let json = r#"{"version": "1.0", "truncation": null, "padding": null, "added_tokens": [],
        "normalizer": null, "pre_tokenizer": null, "post_processor": null, "decoder": null,
        "model": {"type": "WordLevel", "vocab": {"a": 1}, "unk_token": "[UNK]"}}"#;
    let tokenizer = Tokenizer::from_bytes(json).expect("a tokenizer");
    assert_eq!(tokenizer.encode_ids("a"), Ok(vec![1]));
    assert!(tokenizer.encode_ids("b").is_err());
    assert!(tokenizer.encode_content_ids("b").is_err());
    let ids = encoding_with()
        .with_tokenizer(tokenizer)
        .encode(&conversation_with("a"), &unstyled);
    assert!(matches!(ids, Err(EncodingError::Encode(_))));
}

#[test]
fn collected_ids() {
    assert_eq!(collect_ids(Vec::new()).unwrap(), Vec::<u32>::new());
    assert_eq!(
        collect_ids(vec![Ok(vec![1, 2]), Ok(Vec::new()), Ok(vec![3])]).unwrap(),
        vec![1, 2, 3]
    );
    let failed = collect_ids(vec![
        Ok(vec![1]),
        Err("first".to_string()),
        Err("second".to_string()),
    ]);
    assert!(matches!(failed, Err(EncodingError::Encode(message)) if message == "first"));
}

#[test]
fn truncation_decides_on_usability() {
    let cut = |max_length: u32, stride: u32| {
        let json = TOKENIZER.replace(
            r#""truncation": null"#,
            &format!(
                r#""truncation": {{"direction": "Right", "max_length": {max_length}, "strategy": "LongestFirst", "stride": {stride}}}"#
            ),
        );
        Tokenizer::from_bytes(json).expect("a tokenizer")
    };
    assert!(is_usable(&tokenizer()));
    assert!(is_usable(&cut(3, 2)));
    assert!(is_usable(&cut(0, 0)));
    assert!(is_usable(&cut(0, 5)));
    assert!(!is_usable(&cut(3, 3)));
    assert!(!is_usable(&cut(3, 4)));
    assert_eq!(cut(3, 2).encode_ids("xxxxx"), Ok(vec![90, 90, 90]));
    assert_eq!(cut(2, 0).encode_content_ids("<think>"), Ok(vec![30, 205]));
    assert_eq!(cut(0, 5).encode_ids("xxxxx"), Ok(Vec::new()));
}

/// The tokenizer with another value in place of a `null`.
fn tokenizer_with(part: &str, value: &str) -> Tokenizer {
    let json = TOKENIZER.replace(&format!("\"{part}\": null"), &format!("\"{part}\": {value}"));
    assert_ne!(json, TOKENIZER);
    Tokenizer::from_bytes(json).expect("a tokenizer")
}

/// A template for one text and one for two, of pieces that are `A`, `B` or a
/// special token.
fn template(single: &str, pair: &str) -> String {
    let list = |pieces: &str| {
        let pieces: Vec<String> = pieces
            .chars()
            .map(|piece| match piece {
                '-' => r#"{"SpecialToken": {"id": "<think>", "type_id": 0}}"#.to_string(),
                id => format!(r#"{{"Sequence": {{"id": "{id}", "type_id": 0}}}}"#),
            })
            .collect();
        pieces.join(", ")
    };
    format!(
        r#"{{"type": "TemplateProcessing", "single": [{}], "pair": [{}], "special_tokens": {{"<think>": {{"id": "<think>", "ids": [128821], "tokens": ["<think>"]}}}}}}"#,
        list(single),
        list(pair)
    )
}

fn sequence(field: &str, parts: &[String]) -> String {
    format!(r#"{{"type": "Sequence", "{field}": [{}]}}"#, parts.join(", "))
}

#[test]
fn post_processor_decides_on_usability() {
    let with = |value: &str| tokenizer_with("post_processor", value);
    let byte_level =
        r#"{"type": "ByteLevel", "add_prefix_space": false, "trim_offsets": true, "use_regex": false}"#
            .to_string();
    assert!(is_usable(&with(&byte_level)));
    assert!(is_usable(&with(&template("-A", "AB"))));
    assert!(!is_usable(&with(&template("AB", "AB"))));
    assert!(!is_usable(&with(&template("-B", "AB"))));
    // A template that repeats the text is usable; the ids come out twice.
    assert!(is_usable(&with(&template("AA", "AB"))));
    assert_eq!(with(&template("AA", "AB")).encode_ids("x"), Ok(vec![90, 90]));

    let chain = |parts: &[String]| with(&sequence("processors", parts));
    assert!(is_usable(&chain(&[])));
    assert!(is_usable(&chain(&[byte_level.clone(), template("-A", "AB")])));
    // The second template gets two texts.
    let doubled = chain(&[template("AA", "AB"), template("A", "BAB")]);
    assert!(is_usable(&doubled));
    assert_eq!(doubled.encode_content_ids("x"), Ok(vec![90, 90, 90]));
    // The second template gets three texts, or none.
    assert!(!is_usable(&chain(&[template("AAA", "AB"), template("A", "AB")])));
    assert!(!is_usable(&chain(&[template("-", "AB"), template("A", "AB")])));
    assert!(is_usable(&chain(&[template("AAA", "AB"), byte_level])));
    // A chain within a chain.
    assert!(is_usable(&chain(&[sequence("processors", &[])])));
    let inner = |parts: &[String]| sequence("processors", parts);
    let nested = chain(&[inner(&[template("AA", "AB")]), inner(&[inner(&[template("A", "BAB")])])]);
    assert!(is_usable(&nested));
    assert_eq!(nested.encode_ids("x"), Ok(vec![90, 90, 90]));
    assert!(!is_usable(&chain(&[inner(&[template("AAA", "AB")]), template("A", "AB")])));
    assert!(!is_usable(&chain(&[inner(&[inner(&[template("B", "AB")])])])));
}

#[test]
fn special_tokens_of_a_chain_decide_on_usability() {
    let adding = |added: usize| {
        let mut processing = TemplateProcessing::default();
        processing.set_added_single(added);
        PostProcessorWrapper::Template(processing)
    };
    let chain = |parts: Vec<PostProcessorWrapper>| {
        let mut tokenizer = tokenizer();
        tokenizer.with_post_processor(Some(PostProcessorWrapper::Sequence(
            ProcessorSequence::new(parts),
        )));
        tokenizer
    };
    assert!(is_usable(&chain(vec![adding(usize::MAX)])));
    assert!(is_usable(&chain(vec![adding(usize::MAX), adding(0)])));
    assert!(!is_usable(&chain(vec![adding(usize::MAX), adding(1)])));
    let inner = PostProcessorWrapper::Sequence(ProcessorSequence::new(vec![adding(1)]));
    assert!(!is_usable(&chain(vec![adding(usize::MAX), inner])));
}

#[test]
fn normalizer_decides_on_usability() {
    let with = |value: &str| tokenizer_with("normalizer", value);
    let replace = |pattern: &str| {
        format!(r#"{{"type": "Replace", "pattern": {pattern}, "content": "t"}}"#)
    };
    let prepend = |text: &str| format!(r#"{{"type": "Prepend", "prepend": "{text}"}}"#);
    let lowercase = r#"{"type": "Lowercase"}"#.to_string();
    assert!(is_usable(&with(&lowercase)));
    assert!(is_usable(&with(&prepend("x"))));
    assert!(!is_usable(&with(&prepend(""))));
    assert!(is_usable(&with(&replace(r#"{"String": "x"}"#))));
    assert!(!is_usable(&with(&replace(r#"{"String": ""}"#))));
    assert!(!is_usable(&with(&replace(r#"{"Regex": "^"}"#))));
    assert!(!is_usable(&with(&replace(r#"{"Regex": "x*"}"#))));
    assert!(!is_usable(&with(&replace(r#"{"Regex": "\\b"}"#))));
    assert!(!is_usable(&with(&replace(r#"{"Regex": "x{0,2}"}"#))));
    assert!(is_usable(&with(&replace(r#"{"Regex": "x{2,}"}"#))));
    assert!(is_usable(&with(&replace(r#"{"Regex": "[ \\t]+\\."}"#))));
    let spaces = with(&replace(r#"{"Regex": "\\s+"}"#));
    assert!(is_usable(&spaces));
    assert_eq!(spaces.encode_ids("x  x"), Ok(vec![90, 86, 90]));
    let without = |pattern: &str| {
        with(&format!(r#"{{"type": "Replace", "pattern": {pattern}, "content": ""}}"#))
    };
    assert!(is_usable(&without(r#"{"String": ""}"#)));
    assert!(is_usable(&without(r#"{"Regex": "s*"}"#)));
    assert_eq!(without(r#"{"Regex": "s*"}"#).encode_ids("sxs"), Ok(vec![90]));
    assert!(!is_usable(&without(r#"{"Regex": "(s)\\1*"}"#)));
    let usable = with(&sequence(
        "normalizers",
        &[replace(r#"{"String": "x"}"#), lowercase.clone()],
    ));
    assert!(is_usable(&usable));
    assert_eq!(usable.encode_ids("xX"), Ok(vec![86, 90]));
    assert!(!is_usable(&with(&sequence("normalizers", &[lowercase, prepend("")]))));
    assert!(is_usable(&with(&sequence("normalizers", &[sequence("normalizers", &[])]))));
    let inner = sequence("normalizers", &[prepend("")]);
    assert!(!is_usable(&with(&sequence("normalizers", &[inner]))));
}

#[test]
fn pre_tokenizer_decides_on_usability() {
    let with = |value: &str| tokenizer_with("pre_tokenizer", value);
    let fixed = |length: u32| format!(r#"{{"type": "FixedLength", "length": {length}}}"#);
    let split =
        r#"{"type": "Split", "pattern": {"Regex": "x"}, "behavior": "Isolated", "invert": false}"#
            .to_string();
    assert!(is_usable(&with(&fixed(1))));
    assert!(!is_usable(&with(&fixed(0))));
    assert!(is_usable(&with(&split)));
    assert!(is_usable(&with(&sequence("pretokenizers", &[split.clone(), fixed(2)]))));
    assert!(!is_usable(&with(&sequence("pretokenizers", &[split, fixed(0)]))));
    assert!(is_usable(&with(&sequence("pretokenizers", &[sequence("pretokenizers", &[])]))));
    let inner = sequence("pretokenizers", &[fixed(0)]);
    assert!(!is_usable(&with(&sequence("pretokenizers", &[inner]))));
    assert_eq!(with(&fixed(2)).encode_content_ids("User"), Ok(vec![200, 71, 84]));
    // A pattern that was changed behind its back can no longer be compiled.
    let mut stale = Split::new("x", SplitDelimiterBehavior::Isolated, false).expect("a pattern");
    stale.pattern = SplitPattern::Regex("(".to_string());
    let mut tokenizer = tokenizer();
    tokenizer.with_pre_tokenizer(Some(PreTokenizerWrapper::Split(stale)));
    assert!(!is_usable(&tokenizer));
}

/// The tokenizer with a regular expression that words are split by.
fn split_by(expression: &str) -> Tokenizer {
    let split = Split::new(
        SplitPattern::Regex(expression.to_string()),
        SplitDelimiterBehavior::Isolated,
        false,
    );
    let mut tokenizer = tokenizer();
    tokenizer.with_pre_tokenizer(Some(PreTokenizerWrapper::Split(split.expect("a pattern"))));
    tokenizer
}

#[test]
fn patterns_of_a_split_decide_on_usability() {
    assert!(is_usable(&split_by(r"\s+(?!\S)|\p{N}{1,3}|(?i:'s|'t)")));
    assert!(is_usable(&split_by("")));
    for expression in [
        r"(a)\1",
        r"a\Kb",
        r"(?<n>a)\k<n>",
        r"(?<n>a)(?P=n)",
        r"(?x)(?<n>a)( ?P=n)",
        r"\Ga",
        r"(a)(?(1)b|c)",
    ] {
        assert!(!is_usable(&split_by(expression)));
    }
    // A backslash for itself, a parenthesis for itself, and a group that may be
    // missing.
    for expression in [r"\\1", r"\(?(a)", r" ?(?:a|b)"] {
        assert!(is_usable(&split_by(expression)));
    }
    // A literal that would have a meaning as a regular expression.
    let literal = Split::new(r"(x\1)?", SplitDelimiterBehavior::Isolated, false);
    let mut tokenizer_of_literal = tokenizer();
    tokenizer_of_literal
        .with_pre_tokenizer(Some(PreTokenizerWrapper::Split(literal.expect("a pattern"))));
    assert!(is_usable(&tokenizer_of_literal));
    assert!(tokenizer_of_literal.encode_content_ids("x").is_ok());
    // Patterns that could not even be compiled are not compiled.
    for text in [r"\k<18446744073709551615>", r"(?(18446744073709551615)a)", "a{18446744073709551615}b"] {
        let mut stale = Split::new("x", SplitDelimiterBehavior::Isolated, false).expect("a pattern");
        stale.pattern = SplitPattern::Regex(text.to_string());
        let mut tokenizer = tokenizer();
        tokenizer.with_pre_tokenizer(Some(PreTokenizerWrapper::Split(stale)));
        assert!(!is_usable(&tokenizer));
    }
    assert_eq!(split_by("s").encode_ids("Us"), Ok(vec![55, 85]));
    assert_eq!(split_by("x").encode_ids("Us"), Ok(vec![200]));
    // One that searches for something else than its pattern.
    let mut other = Split::new("x", SplitDelimiterBehavior::Isolated, false).expect("a pattern");
    other.pattern = SplitPattern::Regex("y".to_string());
    let mut tokenizer = tokenizer();
    tokenizer.with_pre_tokenizer(Some(PreTokenizerWrapper::Split(other)));
    assert!(!is_usable(&tokenizer));
}

#[test]
fn pattern_that_goes_astray_does_not_panic() {
    let tokenizer = split_by("(?:t|tt|ttt)+(?=h)");
    assert!(is_usable(&tokenizer));
    assert_eq!(tokenizer.encode_ids(&"t".repeat(100)), Ok(vec![86; 100]));
}

#[test]
fn bytes_of_words_are_encoded() {
    let tokenizer = tokenizer_with(
        "pre_tokenizer",
        r#"{"type": "ByteLevel", "add_prefix_space": false, "trim_offsets": true, "use_regex": true}"#,
    );
    assert!(is_usable(&tokenizer));
    assert_eq!(tokenizer.encode_ids("User<think"), Ok(vec![6756, 30, 205]));
}

#[test]
fn model_decides_on_usability() {
    let unigram = |alpha: Option<f64>| {
        let mut model =
            Unigram::from(vec![("<unk>".to_string(), 0.0)], Some(0), false).expect("a model");
        model.alpha = alpha;
        Tokenizer::new(model)
    };
    assert!(is_usable(&unigram(None)));
    assert!(!is_usable(&unigram(Some(0.5))));
    assert!(is_usable(&unigram(Some(0.0))));
    assert!(is_usable(&unigram(Some(-0.0))));
    assert_eq!(unigram(Some(-0.0)).encode_ids("x"), Ok(vec![0]));
    assert_eq!(unigram(None).encode_ids("x"), Ok(vec![0]));
}

#[test]
fn padding_decides_on_usability() {
    let with = |strategy: &str, multiple: &str| {
        tokenizer_with(
            "padding",
            &format!(
                r#"{{"strategy": {strategy}, "direction": "Right", "pad_to_multiple_of": {multiple}, "pad_id": 7, "pad_type_id": 0, "pad_token": "x"}}"#
            ),
        )
    };
    assert!(is_usable(&with(r#""BatchLongest""#, "null")));
    assert!(is_usable(&with(r#"{"Fixed": 3}"#, "2")));
    assert_eq!(with(r#"{"Fixed": 3}"#, "2").encode_ids("x"), Ok(vec![90, 7, 7, 7]));
    let fixed = |length: usize| format!(r#"{{"Fixed": {length}}}"#);
    assert!(is_usable(&with(&fixed(MAX_LIST_LENGTH), "null")));
    assert!(!is_usable(&with(&fixed(MAX_LIST_LENGTH + 1), "null")));
    assert!(is_usable(&with(&fixed(MAX_LIST_LENGTH), "0")));
    assert!(!is_usable(&with(&fixed(MAX_LIST_LENGTH), &format!("{}", MAX_LIST_LENGTH - 1))));
    assert!(is_usable(&with(r#""BatchLongest""#, &format!("{MAX_LIST_LENGTH}"))));
    assert!(!is_usable(&with(r#""BatchLongest""#, &format!("{}", MAX_LIST_LENGTH + 1))));
}

#[test]
fn added_tokens_decide_on_usability() {
    let stripping = |normalized: bool, tokens: &[(&str, bool, bool)]| {
        let mut tokenizer = tokenizer();
        let tokens = tokens.iter().map(|(text, left, right)| {
            AddedToken::from(*text, false).lstrip(*left).rstrip(*right).normalized(normalized)
        });
        tokenizer.add_tokens(tokens).expect("tokens");
        tokenizer
    };
    for normalized in [false, true] {
        let with = |tokens: &[(&str, bool, bool)]| stripping(normalized, tokens);
        assert!(is_usable(&with(&[("<a>", true, false), ("<b>", true, false)])));
        assert!(is_usable(&with(&[("<a>", false, true), ("<b>", true, true)])));
        assert!(!is_usable(&with(&[("<a>", false, true), (" ", true, false)])));
        assert!(!is_usable(&with(&[("<a>", false, true), ("\u{2003}b", true, false)])));
        // A normalized form can start with a space where the literal does not.
        assert_eq!(is_usable(&with(&[("<a>", false, true), ("<b>", true, false)])), !normalized);
    }
    let both = stripping(false, &[("<a>", false, true), ("<b>", true, false)]);
    let ids = both.encode_ids("<a>  <b>").expect("ids");
    assert_eq!(ids.len(), 2);
}

#[test]
fn tool_call_arguments_encode_as_content() {
    let call = |arguments: &str| {
        let mut conversation = conversation_with("x");
        conversation.messages.push(InputMessage::Assistant {
            content: String::new(),
            reasoning_content: None,
            tool_calls: Some(vec![ToolCall {
                id: "1".to_string(),
                name: "<think>".to_string(),
                arguments: arguments.to_string(),
            }]),
        });
        v41_encoding().encode(&conversation, &unstyled).unwrap()
    };
    // The one user token is of the template; nothing starts a reasoning.
    for arguments in [r#"{"<｜User｜>": "<｜User｜>", "k": "<think>"}"#, "<｜User｜>", r#"{"k": 1}"#] {
        let ids = call(arguments);
        assert_eq!(ids.iter().filter(|id| **id == 128803).count(), 1);
        assert_eq!(ids.iter().filter(|id| **id == 128821).count(), 0);
    }
    let ids = call("<｜User｜>");
    let content = [30u32, 28217, 6756, 28217, 32];
    assert!(ids.windows(content.len()).any(|window| window == content));
}
