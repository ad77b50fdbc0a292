//! The pub/sub API: what a published message must be, and the id it is
//! answered with.

use vstd::prelude::*;
use vstd::utf8::{decode_utf8, valid_utf8};
use crate::codec::{codec_hexencode, spec_hex_encode};
use crate::kv::byte_len;

verus! {

/// Longest topic, in bytes.
pub const MAX_TOPIC_KEY_SIZE: usize = 100;
/// Longest message, in bytes.
pub const MAX_MESSAGE_SIZE: usize = 10000;

/// Why a message cannot be published.
#[derive(Debug, Clone, Copy, PartialEq, Eq, Structural)]
pub enum PublishError {
    /// The topic is longer than `MAX_TOPIC_KEY_SIZE` bytes.
    TopicTooLong,
    /// The message is longer than `MAX_MESSAGE_SIZE` bytes.
    MessageTooLarge,
    /// The message is not valid UTF-8.
    InvalidUtf8,
    /// The message contains a newline byte.
    ContainsNewline,
}

/// The check of a publication, in order: the topic's length, the message's
/// length, its encoding, and newlines.
pub open spec fn spec_check_publish(topic: Seq<char>, msg: Seq<u8>) -> Result<(), PublishError> {
    if byte_len(topic) > MAX_TOPIC_KEY_SIZE {
        Err(PublishError::TopicTooLong)
    } else if msg.len() > MAX_MESSAGE_SIZE {
        Err(PublishError::MessageTooLarge)
    } else if !valid_utf8(msg) {
        Err(PublishError::InvalidUtf8)
    } else if msg.contains(0x0Au8) {
        Err(PublishError::ContainsNewline)
    } else {
        Ok(())
    }
}

/// `std::str::from_utf8`: succeeds exactly on valid UTF-8, with the text
/// that the bytes encode, as its documentation states.
#[verifier::external_body]
pub(crate) fn utf8_text(bytes: &[u8]) -> (res: Option<String>)
    ensures
        res is Some <==> valid_utf8(bytes@),
        res matches Some(s) ==> s@ == decode_utf8(bytes@),
{
    std::str::from_utf8(bytes).ok().map(|s| s.to_string())
}

/// Checks a message before it is published on a topic.
pub fn check_publish(topic: &str, msg: &[u8]) -> (res: Result<(), PublishError>)
    ensures
        res == spec_check_publish(topic@, msg@),
{
    if topic.as_bytes().len() > MAX_TOPIC_KEY_SIZE {
        return Err(PublishError::TopicTooLong);
    }
    if msg.len() > MAX_MESSAGE_SIZE {
        return Err(PublishError::MessageTooLarge);
    }
    if utf8_text(msg).is_none() {
        return Err(PublishError::InvalidUtf8);
    }
    let mut i: usize = 0;
    while i < msg.len()
        invariant
            i <= msg.len(),
            byte_len(topic@) <= MAX_TOPIC_KEY_SIZE,
            msg@.len() <= MAX_MESSAGE_SIZE,
            valid_utf8(msg@),
            forall|j: int| 0 <= j < i ==> msg@[j] != 0x0Au8,
        decreases msg.len() - i,
    {
        if msg[i] == 0x0A {
            proof {
                assert(msg@[i as int] == 0x0Au8);
            }
            return Err(PublishError::ContainsNewline);
        }
        i += 1;
    }
    Ok(())
}

/// The id a publication is answered with: the lowercase hex text of the
/// sequence number the queue gave the message.
pub fn publish_response_id(seq: &[u8]) -> (res: String)
    ensures
        res@ == spec_hex_encode(seq@),
{
    codec_hexencode(seq)
}

} // verus!
