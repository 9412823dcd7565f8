//! The normal form of the messages of a conversation.

use crate::conversation;
use crate::conversation::{ImageSource, InputMessage, MessageModel};
use crate::v4::tool_order;
use crate::v4::tool_order::sort_tool_results_by_call_order;
use crate::v4::EncodingV4;
use vstd::prelude::*;

verus! {

/// Some message is no system message.
pub open spec fn has_non_system(messages: Seq<MessageModel>) -> bool {
    exists|i: int| 0 <= i < messages.len() && !(#[trigger] messages[i] is System)
}

/// Two texts as two paragraphs; as one if either is empty.
pub open spec fn as_paragraphs(head: Seq<char>, tail: Seq<char>) -> Seq<char> {
    if head.len() > 0 && tail.len() > 0 {
        head + "\n\n"@ + tail
    } else {
        head + tail
    }
}

/// A leading system message added to `messages`: it goes on from a system
/// message at the end.
pub open spec fn add_leading_system(
    messages: Seq<MessageModel>,
    content: Seq<char>,
) -> Seq<MessageModel> {
    if messages.len() > 0 && messages.last() is System {
        messages.drop_last().push(
            MessageModel::System {
                content: as_paragraphs(messages.last()->System_content, content),
            },
        )
    } else {
        messages.push(MessageModel::System { content })
    }
}

/// A user message added to `messages`: it goes on from a user message at the
/// end, as a paragraph of its own.
pub open spec fn add_user(
    messages: Seq<MessageModel>,
    content: Seq<char>,
    image_sources: Seq<Seq<char>>,
) -> Seq<MessageModel> {
    if messages.len() > 0 && messages.last() is User {
        messages.drop_last().push(
            MessageModel::User {
                content: messages.last()->User_content + "\n\n"@ + content,
                image_sources: messages.last()->User_image_sources + image_sources,
            },
        )
    } else {
        messages.push(MessageModel::User { content, image_sources })
    }
}

/// A message added to `messages`. Without system messages in mid-conversation,
/// those at the front become one, and a later one becomes a user message,
/// unless it is empty; `started` says whether the front is over.
pub open spec fn add_message(
    messages: Seq<MessageModel>,
    message: MessageModel,
    started: bool,
    mid_conversation_system: bool,
) -> Seq<MessageModel> {
    match message {
        MessageModel::System { content } => if mid_conversation_system {
            messages.push(message)
        } else if !started {
            add_leading_system(messages, content)
        } else if content.len() > 0 {
            messages.push(MessageModel::User { content, image_sources: Seq::empty() })
        } else {
            messages
        },
        MessageModel::User { content, image_sources } => add_user(
            messages,
            content,
            image_sources,
        ),
        _ => messages.push(message),
    }
}

/// `messages` with those put together that belong together.
pub open spec fn merged_messages(
    messages: Seq<MessageModel>,
    mid_conversation_system: bool,
) -> Seq<MessageModel>
    decreases messages.len(),
{
    if messages.len() == 0 {
        messages
    } else {
        add_message(
            merged_messages(messages.drop_last(), mid_conversation_system),
            messages.last(),
            has_non_system(messages.drop_last()),
            mid_conversation_system,
        )
    }
}

/// The normal form: messages put together that belong together, and tool
/// results in the order of their calls.
pub open spec fn normalized_messages(
    messages: Seq<MessageModel>,
    mid_conversation_system: bool,
) -> Seq<MessageModel> {
    tool_order::results_in_call_order(merged_messages(messages, mid_conversation_system))
}

fn push_leading_system(messages: &mut Vec<InputMessage>, content: String)
    ensures
        conversation::message_views(final(messages)@) == add_leading_system(
            conversation::message_views(old(messages)@),
            content@,
        ),
{
    let ghost before = conversation::message_views(messages@);
    match messages.pop() {
        Some(InputMessage::System { content: mut head }) => {
            assert(before.last()->System_content == head@);
            if !head.as_str().is_empty() && !content.as_str().is_empty() {
                head.append("\n\n");
            }
            head.append(content.as_str());
            messages.push(InputMessage::System { content: head });
        },
        Some(last) => {
            assert(before.last() == last@);
            messages.push(last);
            messages.push(InputMessage::System { content });
        },
        None => {
            messages.push(InputMessage::System { content });
        },
    }
    assert(conversation::message_views(messages@) =~= add_leading_system(before, content@));
}

fn push_user(messages: &mut Vec<InputMessage>, content: String, image_sources: Vec<ImageSource>)
    ensures
        conversation::message_views(final(messages)@) == add_user(
            conversation::message_views(old(messages)@),
            content@,
            conversation::image_views(image_sources@),
        ),
{
    let ghost before = conversation::message_views(messages@);
    let ghost sources = conversation::image_views(image_sources@);
    match messages.pop() {
        Some(InputMessage::User { content: mut previous, image_sources: mut previous_sources }) => {
            let ghost first_sources = previous_sources@;
            assert(before.last()->User_content == previous@);
            assert(before.last()->User_image_sources == conversation::image_views(
                previous_sources@,
            ));
            previous.append("\n\n");
            previous.append(content.as_str());
            let mut more = image_sources;
            previous_sources.append(&mut more);
            assert(conversation::image_views(previous_sources@) =~= conversation::image_views(
                first_sources,
            ) + sources);
            messages.push(
                InputMessage::User { content: previous, image_sources: previous_sources },
            );
        },
        Some(last) => {
            assert(before.last() == last@);
            messages.push(last);
            messages.push(InputMessage::User { content, image_sources });
        },
        None => {
            messages.push(InputMessage::User { content, image_sources });
        },
    }
    assert(conversation::message_views(messages@) =~= add_user(before, content@, sources));
}

/// Brings messages into the normal form of the encoding.
pub fn normalize_messages<E: EncodingV4>(encoding: &E, messages: &[InputMessage]) -> (normalized:
    Vec<InputMessage>)
    ensures
        conversation::message_views(normalized@) == normalized_messages(
            conversation::message_views(messages@),
            encoding.markup().mid_conversation_system,
        ),
{
    let ghost models = conversation::message_views(messages@);
    let ghost mid_system = encoding.markup().mid_conversation_system;
    let mut normalized: Vec<InputMessage> = Vec::new();
    let mut started: bool = false;
    let mut done: usize = 0;
    assert(conversation::message_views(normalized@) =~= merged_messages(
        models.take(0),
        mid_system,
    ));
    while done < messages.len()
        invariant
            done <= messages.len(),
            models == conversation::message_views(messages@),
            mid_system == encoding.markup().mid_conversation_system,
            started == has_non_system(models.take(done as int)),
            conversation::message_views(normalized@) == merged_messages(
                models.take(done as int),
                mid_system,
            ),
        decreases messages.len() - done,
    {
        let ghost before = conversation::message_views(normalized@);
        let ghost model = models[done as int];
        proof {
            let upto = models.take(done as int);
            let next = models.take(done + 1);
            assert(next.drop_last() =~= upto);
            assert(next.last() == model);
            lemma_has_non_system_push(upto, model);
            assert(upto.push(model) =~= next);
        }
        let message = messages[done].clone();
        match message {
            InputMessage::System { content } => {
                if encoding.supports_mid_conversation_system() {
                    normalized.push(InputMessage::System { content });
                } else if !started {
                    push_leading_system(&mut normalized, content);
                } else if !content.as_str().is_empty() {
                    let no_sources: Vec<ImageSource> = Vec::new();
                    assert(conversation::image_views(no_sources@) =~= Seq::empty());
                    normalized.push(InputMessage::User { content, image_sources: no_sources });
                }
            },
            InputMessage::User { content, image_sources } => {
                started = true;
                push_user(&mut normalized, content, image_sources);
            },
            other => {
                started = true;
                normalized.push(other);
            },
        }
        assert(conversation::message_views(normalized@) =~= add_message(
            before,
            model,
            has_non_system(models.take(done as int)),
            mid_system,
        ));
        done += 1;
    }
    assert(models.take(done as int) =~= models);
    sort_tool_results_by_call_order(&mut normalized);
    normalized
}

proof fn lemma_has_non_system_push(messages: Seq<MessageModel>, message: MessageModel)
    ensures
        has_non_system(messages.push(message)) <==> has_non_system(messages) || !(message
            is System),
{
    let more = messages.push(message);
    if has_non_system(messages) {
        let i = choose|i: int| 0 <= i < messages.len() && !(#[trigger] messages[i] is System);
        assert(!(more[i] is System));
    }
    if !(message is System) {
        assert(!(more[messages.len() as int] is System));
    }
    if has_non_system(more) {
        let i = choose|i: int| 0 <= i < more.len() && !(#[trigger] more[i] is System);
        if i < messages.len() {
            assert(!(messages[i] is System));
        }
    }
}

} // verus!
