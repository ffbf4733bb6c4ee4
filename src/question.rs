//! The question entry of a DNS message: the name asked for, its record type and its class.
use vstd::prelude::*;
use vstd::string::StringSliceAdditionalSpecFns;
use crate::dns_types::{
    encode_type_and_class, parse_type_and_class, qclass_value, qtype_value, type_and_class_at,
    type_and_class_bytes, QClass, QType,
};
use crate::domain_name::{
    encode_labels, labels_of_text, labels_valid, lemma_decode_encoded, lemma_encode_len_bound,
    lemma_decoded_labels_valid, lemma_split_dots_len, name_at, DomainName,
};

verus! {

/// Why a question could not be built or read.
#[derive(Clone, Copy, Debug, PartialEq, Eq, Structural)]
pub enum QuestionError {
    /// The name text is 256 bytes or longer.
    NameTooLong,
    /// Too few bytes remain for a whole question entry.
    TruncatedMessage,
    /// The bytes at the name's position are no well-formed name.
    BadName,
    /// The bytes consumed do not fit in 16 bits.
    LengthOverflow,
}

/// What a question entry holds: the labels of its name, its type code and its class code.
pub struct QuestionView {
    pub name: Seq<Seq<u8>>,
    pub q_type: u16,
    pub q_class: u16,
}

/// Largest count of bytes a question entry may occupy.
pub const MAX_CONSUMED: u64 = 65535;

/// The question that dotted name text asks: type `A`, class `IN`.
pub open spec fn question_of_text(text: Seq<u8>) -> QuestionView {
    QuestionView {
        name: labels_of_text(text),
        q_type: qtype_value(QType::A),
        q_class: qclass_value(QClass::In),
    }
}

/// Wire form of a question: the name, then the type, then the class.
pub open spec fn encode_question(q: QuestionView) -> Seq<u8> {
    encode_labels(q.name) + type_and_class_bytes(q.q_type, q.q_class)
}

/// The question entry at `pos` of `msg`, with the count of bytes it occupies there.
/// Fewer than five bytes from `pos` on are rejected before the name is read.
pub open spec fn question_at(msg: Seq<u8>, pos: nat) -> Result<(QuestionView, nat), QuestionError> {
    if msg.len() < pos + 5 {
        Err(QuestionError::TruncatedMessage)
    } else {
        match name_at(msg, pos) {
            None => Err(QuestionError::BadName),
            Some((name, n)) => match type_and_class_at(msg, pos + n as int) {
                None => Err(QuestionError::TruncatedMessage),
                Some((q_type, q_class)) => if n + 4 > MAX_CONSUMED {
                    Err(QuestionError::LengthOverflow)
                } else {
                    Ok((QuestionView { name, q_type, q_class }, n + 4))
                },
            },
        }
    }
}

/// One question entry.
pub struct QuestionEntry {
    q_name: DomainName,
    q_type: u16,
    q_class: u16,
}

impl View for QuestionEntry {
    type V = QuestionView;

    closed spec fn view(&self) -> QuestionView {
        QuestionView { name: self.q_name@, q_type: self.q_type, q_class: self.q_class }
    }
}

/// The model of a parse result.
pub open spec fn entry_result_view(r: Result<(QuestionEntry, u16), QuestionError>) -> Result<
    (QuestionView, nat),
    QuestionError,
> {
    match r {
        Ok((e, n)) => Ok((e@, n as nat)),
        Err(err) => Err(err),
    }
}

impl QuestionEntry {
    pub fn new(domain_name: &str) -> (r: QuestionEntry)
        requires
            domain_name.spec_bytes().len() < 256,
        ensures
            r@ == question_of_text(domain_name.spec_bytes()),
    {
        QuestionEntry {
            q_name: DomainName::new(domain_name),
            q_type: QType::A.get_value(),
            q_class: QClass::In.get_value(),
        }
    }

    pub fn encode(&self) -> (r: Vec<u8>)
        ensures
            r@ == encode_question(self@),
    {
        let mut result = self.q_name.encode();
        let mut type_and_class = encode_type_and_class(self.q_type, self.q_class);
        result.append(&mut type_and_class);
        result
    }

    pub fn parse(msg: &[u8], pos: usize) -> (r: Result<(QuestionEntry, u16), QuestionError>)
        ensures
            entry_result_view(r) == question_at(msg@, pos as nat),
            msg@.len() < pos + 5 ==> r == Err::<(QuestionEntry, u16), QuestionError>(
                QuestionError::TruncatedMessage,
            ),
    {
        if pos > msg.len() || msg.len() - pos < 5 {
            return Err(QuestionError::TruncatedMessage);
        }
        let (q_name, name_count) = match DomainName::parse(msg, pos) {
            Some(parsed) => parsed,
            None => {
                return Err(QuestionError::BadName);
            },
        };
        let cursor = pos + name_count;
        let (q_type, q_class, tc_count) = match parse_type_and_class(msg, cursor) {
            Some(parsed) => parsed,
            None => {
                return Err(QuestionError::TruncatedMessage);
            },
        };
        let consumed = name_count + tc_count as usize;
        if consumed as u64 > MAX_CONSUMED {
            return Err(QuestionError::LengthOverflow);
        }
        Ok((QuestionEntry { q_name, q_type, q_class }, consumed as u16))
    }
}

/// A question: for now always exactly one entry.
pub struct Question {
    entry: QuestionEntry,
}

impl View for Question {
    type V = QuestionView;

    closed spec fn view(&self) -> QuestionView {
        self.entry@
    }
}

/// The model of a parse result.
pub open spec fn result_view(r: Result<(Question, u16), QuestionError>) -> Result<
    (QuestionView, nat),
    QuestionError,
> {
    match r {
        Ok((q, n)) => Ok((q@, n as nat)),
        Err(err) => Err(err),
    }
}

impl Question {
    /// The question of type `A`, class `IN` for the name given as dotted text.
    pub fn new(domain_name: &str) -> (r: Question)
        requires
            domain_name.spec_bytes().len() < 256,
        ensures
            r@ == question_of_text(domain_name.spec_bytes()),
            r@.q_type == qtype_value(QType::A),
            r@.q_class == qclass_value(QClass::In),
    {
        Question { entry: QuestionEntry::new(domain_name) }
    }

    /// As `new`, with a name text of 256 bytes or more rejected.
    pub fn try_new(domain_name: &str) -> (r: Result<Question, QuestionError>)
        ensures
            domain_name.spec_bytes().len() >= 256 <==> r == Err::<Question, QuestionError>(
                QuestionError::NameTooLong,
            ),
            r is Ok <==> domain_name.spec_bytes().len() < 256,
            r matches Ok(q) ==> q@ == question_of_text(domain_name.spec_bytes()),
    {
        if domain_name.as_bytes().len() >= 256 {
            Err(QuestionError::NameTooLong)
        } else {
            Ok(Question::new(domain_name))
        }
    }

    /// The wire form: name, type, class.
    pub fn encode(&self) -> (r: Vec<u8>)
        ensures
            r@ == encode_question(self@),
    {
        self.entry.encode()
    }

    /// Reads the question entry at `pos` of `msg`, with the count of bytes it occupies.
    pub fn parse(msg: &[u8], pos: usize) -> (r: Result<(Question, u16), QuestionError>)
        ensures
            result_view(r) == question_at(msg@, pos as nat),
            msg@.len() < pos + 5 ==> r == Err::<(Question, u16), QuestionError>(
                QuestionError::TruncatedMessage,
            ),
    {
        match QuestionEntry::parse(msg, pos) {
            Ok((entry, parsed_count)) => Ok((Question { entry }, parsed_count)),
            Err(e) => Err(e),
        }
    }

    /// The name asked for.
    pub fn name(&self) -> (r: &DomainName)
        ensures
            r@ == self@.name,
    {
        &self.entry.q_name
    }

    /// The record type code.
    pub fn q_type(&self) -> (r: u16)
        ensures
            r == self@.q_type,
    {
        self.entry.q_type
    }

    /// The class code.
    pub fn q_class(&self) -> (r: u16)
        ensures
            r == self@.q_class,
    {
        self.entry.q_class
    }
}

/// A question built from a valid name of fewer than 256 bytes, written out and read back
/// from the start of the bytes, is the same question, and the count of bytes read is the
/// length of what was written.
pub proof fn lemma_round_trip(domain_name: &str)
    requires
        domain_name.spec_bytes().len() < 256,
        labels_valid(labels_of_text(domain_name.spec_bytes())),
    ensures
        question_at(encode_question(question_of_text(domain_name.spec_bytes())), 0) == Ok::<
            (QuestionView, nat),
            QuestionError,
        >(
            (
                question_of_text(domain_name.spec_bytes()),
                encode_question(question_of_text(domain_name.spec_bytes())).len(),
            ),
        ),
{
    let text = domain_name.spec_bytes();
    let q = question_of_text(text);
    let name_bytes = encode_labels(q.name);
    let msg = encode_question(q);
    if text.len() > 0 {
        lemma_split_dots_len(text);
    }
    lemma_encode_len_bound(q.name);
    assert(msg.subrange(0, name_bytes.len() as int) =~= name_bytes);
    lemma_decode_encoded(msg, 0, q.name, 0);
    crate::dns_types::lemma_type_and_class_round_trip(name_bytes, q.q_type, q.q_class, Seq::empty());
    assert(name_bytes + type_and_class_bytes(q.q_type, q.q_class) + Seq::<u8>::empty() =~= msg);
    assert(name_bytes.len() >= 1) by {
        reveal_with_fuel(encode_labels, 2);
    }
}

/// The same law, with the name's own round trip through the name codec as the premise:
/// wherever the labels of a name under 256 bytes are read back from their wire form, with
/// that whole form consumed, the question built from it round-trips too.
pub proof fn lemma_round_trip_through_name_codec(domain_name: &str)
    requires
        domain_name.spec_bytes().len() < 256,
        name_at(encode_labels(labels_of_text(domain_name.spec_bytes())), 0) == Some(
            (
                labels_of_text(domain_name.spec_bytes()),
                encode_labels(labels_of_text(domain_name.spec_bytes())).len(),
            ),
        ),
    ensures
        question_at(encode_question(question_of_text(domain_name.spec_bytes())), 0) == Ok::<
            (QuestionView, nat),
            QuestionError,
        >(
            (
                question_of_text(domain_name.spec_bytes()),
                encode_question(question_of_text(domain_name.spec_bytes())).len(),
            ),
        ),
{
    let ls = labels_of_text(domain_name.spec_bytes());
    lemma_decoded_labels_valid(encode_labels(ls), 0, 0);
    lemma_round_trip(domain_name);
}

/// Whenever a question is read, the count of bytes read is the count of bytes its name
/// occupies at that position plus four.
pub proof fn lemma_length_accounting(msg: Seq<u8>, pos: nat)
    ensures
        question_at(msg, pos) is Ok ==> name_at(msg, pos) is Some && question_at(msg, pos)->Ok_0.1
            == name_at(msg, pos)->Some_0.1 + 4,
{
}

} // verus!
