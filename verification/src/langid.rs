//! The protocol of the remote language classifier: how a request is framed,
//! how a reply is read, and when a sentence counts as being in the target
//! language.

use vstd::prelude::*;
use vstd::utf8::{valid_utf8, decode_utf8};
use crate::text::{replaced, replace, same_text};
use crate::json::{Member, MemberView, members_view, object_view, parsed_object, parse_object, quoted, quote, text_view, text_of, number_of, find_text, find_number};

verus! {

/// The least confidence at which a label is believed: the bit pattern of
/// the double 0.5.
pub const CONFIDENCE_THRESHOLD: u64 = 0x3FE0_0000_0000_0000;

/// The bit pattern of positive infinity, above which lie the patterns that
/// are no number and those of the negative doubles.
pub const CONFIDENCE_CEILING: u64 = 0x7FF0_0000_0000_0000;

/// The most bytes that are read of one reply.
pub const REPLY_LIMIT: usize = 128;

/// The number of connections to the classifier; each has one worker.
pub const POOL_SIZE: usize = 12;

/// The number of sentences that may wait for a worker. A sender blocks
/// while the queue is full.
pub const QUEUE_CAPACITY: usize = 16;

/// The name of the target language.
pub open spec fn target_language() -> Seq<char> {
    "isiXhosa"@
}

/// The malformed field separator that the service is known to send.
pub open spec fn broken_separator() -> Seq<char> {
    "confidence:\""@
}

/// The separator that was meant.
pub open spec fn mended_separator() -> Seq<char> {
    "confidence\":"@
}

/// Whether a sentence is in the target language.
#[derive(Debug, Clone, Copy, PartialEq, Eq, Structural)]
pub enum IsIsiXhosa {
    Yes,
    No,
}

/// What the classifier says of one sentence.
#[derive(Debug)]
pub struct Verdict {
    /// The language it names.
    pub language: String,
    /// Its confidence, as the bit pattern of a double between 0 and 1.
    pub confidence: u64,
}

/// The model of [`Verdict`].
pub struct VerdictView {
    pub language: Seq<char>,
    pub confidence: u64,
}

impl View for Verdict {
    type V = VerdictView;

    open spec fn view(&self) -> VerdictView {
        VerdictView { language: self.language@, confidence: self.confidence }
    }
}

/// Why a reply could not be read.
#[derive(Debug, Clone, Copy, PartialEq, Eq, Structural)]
pub enum ReplyError {
    /// The bytes are not UTF-8.
    NotText,
    /// The text, once mended, is no object with a language and a
    /// confidence.
    NotAVerdict,
}

/// Whether the double with the bit pattern `bits` is at least 0.5. Among
/// the doubles that are not negative, the order of the numbers is the order
/// of their bit patterns.
pub open spec fn at_least_threshold(bits: u64) -> bool {
    CONFIDENCE_THRESHOLD <= bits <= CONFIDENCE_CEILING
}

impl VerdictView {
    /// Whether the verdict makes the sentence count: the confidence
    /// reaches the threshold and the language is the target language.
    pub open spec fn accepts(self) -> bool {
        at_least_threshold(self.confidence) && self.language == target_language()
    }

    /// The decision that the verdict amounts to.
    pub open spec fn decision(self) -> IsIsiXhosa {
        if self.accepts() {
            IsIsiXhosa::Yes
        } else {
            IsIsiXhosa::No
        }
    }
}

/// The request for `literal`, the JSON string literal of a sentence.
pub open spec fn request_of(literal: Seq<char>) -> Seq<char> {
    "{\"text\":"@ + literal + ",\"benchmark\":0}"@
}

/// The request for `sentence`: that for its JSON string literal, where the
/// encoder gives one.
pub open spec fn request_for(sentence: Seq<char>) -> Option<Seq<char>> {
    match quoted(sentence) {
        Some(literal) => Some(request_of(literal)),
        None => None,
    }
}

/// The verdict in the members of a reply: the language must be a string and
/// the confidence a number.
pub open spec fn verdict_of(members: Seq<MemberView>) -> Option<VerdictView> {
    let language = text_of(members, "language"@);
    let confidence = number_of(members, "confidence"@);
    if language is Some && confidence is Some {
        Some(VerdictView { language: language->0, confidence: confidence->0 })
    } else {
        None
    }
}

/// What a reply of these bytes means.
pub open spec fn reply_of(bytes: Seq<u8>) -> Result<IsIsiXhosa, ReplyError> {
    if !valid_utf8(bytes) {
        Err(ReplyError::NotText)
    } else {
        match parsed_object(replaced(decode_utf8(bytes), broken_separator(), mended_separator())) {
            Some(members) => match verdict_of(members) {
                Some(verdict) => Ok(verdict.decision()),
                None => Err(ReplyError::NotAVerdict),
            },
            None => Err(ReplyError::NotAVerdict),
        }
    }
}

/// Calls `std::str::from_utf8`: the text that the bytes encode, if they are
/// UTF-8.
#[verifier::external_body]
fn utf8_text(bytes: &[u8]) -> (text: Option<&str>)
    ensures
        text is Some <==> valid_utf8(bytes@),
        text matches Some(s) ==> s@ == decode_utf8(bytes@),
{
    std::str::from_utf8(bytes).ok()
}

/// The request for a sentence whose JSON string literal is `literal`.
pub fn frame_request(literal: &str) -> (request: String)
    ensures
        request@ == request_of(literal@),
{
    let mut request = "{\"text\":".to_owned();
    request.append(literal);
    request.append(",\"benchmark\":0}");
    request
}

/// The request that asks for the language of `sentence`: the frame around
/// the JSON string literal of the sentence. Quoting is the JSON encoder's;
/// there is a request exactly where it gives a literal.
pub fn encode_request(sentence: &str) -> (request: Option<String>)
    ensures
        text_view(request) == request_for(sentence@),
{
    match quote(sentence) {
        Some(literal) => Some(frame_request(literal.as_str())),
        None => None,
    }
}

/// The reply with the known malformed separator mended.
pub fn mend_reply(reply: &str) -> (mended: String)
    ensures
        mended@ == replaced(reply@, broken_separator(), mended_separator()),
{
    replace(reply, "confidence:\"", "confidence\":")
}

/// The decision that a verdict amounts to: yes only if the confidence is at
/// least 0.5 and the language is the target language.
pub fn decide(verdict: &Verdict) -> (decision: IsIsiXhosa)
    ensures
        decision == verdict@.decision(),
{
    if verdict.confidence < CONFIDENCE_THRESHOLD || verdict.confidence > CONFIDENCE_CEILING {
        IsIsiXhosa::No
    } else if same_text(verdict.language.as_str(), "isiXhosa") {
        IsIsiXhosa::Yes
    } else {
        IsIsiXhosa::No
    }
}

impl Verdict {
    /// Reads the verdict from the members of a reply.
    pub fn from_members(members: &Vec<Member>) -> (r: Option<Verdict>)
        ensures
            match r {
                Some(verdict) => verdict_of(members_view(members@)) == Some(verdict@),
                None => verdict_of(members_view(members@)) is None,
            },
    {
        let language = find_text(members, "language");
        let confidence = find_number(members, "confidence");
        match (language, confidence) {
            (Some(language), Some(confidence)) => Some(Verdict { language, confidence }),
            _ => None,
        }
    }

    /// Reads the verdict from what parsing the mended reply gave.
    pub fn from_parsed(parsed: Option<Vec<Member>>) -> (r: Result<Verdict, ReplyError>)
        ensures
            match (object_view(parsed), r) {
                (Some(members), Ok(verdict)) => verdict_of(members) == Some(verdict@),
                (Some(members), Err(e)) => verdict_of(members) is None && e == ReplyError::NotAVerdict,
                (None, Ok(_)) => false,
                (None, Err(e)) => e == ReplyError::NotAVerdict,
            },
    {
        match parsed {
            Some(members) => match Verdict::from_members(&members) {
                Some(verdict) => Ok(verdict),
                None => Err(ReplyError::NotAVerdict),
            },
            None => Err(ReplyError::NotAVerdict),
        }
    }
}

/// Reads the bytes of one reply: decodes them as UTF-8, mends the known
/// malformed separator, parses the object and decides.
pub fn read_reply(bytes: &[u8]) -> (r: Result<IsIsiXhosa, ReplyError>)
    ensures
        r == reply_of(bytes@),
{
    let text = match utf8_text(bytes) {
        Some(text) => text,
        None => { return Err(ReplyError::NotText); },
    };
    let mended = mend_reply(text);
    match Verdict::from_parsed(parse_object(mended.as_str())) {
        Ok(verdict) => Ok(decide(&verdict)),
        Err(e) => Err(e),
    }
}

} // verus!
