//! DNS messages on the wire.
//!
//! Reading and writing the wire format is left to `trust_dns_proto`. This
//! module declares its message type and states, without proof, what the few
//! calls that the resolver makes do to a message. A message is seen here as
//! its question section and its answer section; of what stands behind the
//! answers only the size matters.
//!
//! The encoder keeps a message within 65535 bytes by leaving out the
//! records that do not fit. It does so safely only where nothing is written
//! after a record that was left out. So a message is encoded here only if
//! nothing stands behind its answers, or if it is sure to fit as a whole.

use vstd::prelude::*;
use trust_dns_proto::error::ProtoError;
use trust_dns_proto::op::Message;
use trust_dns_proto::rr::{DNSClass, RData, Record, RecordType};

verus! {

/// The code of the record type A.
pub const RECORD_TYPE_A: u16 = 1;

/// The code of the class IN.
pub const DNS_CLASS_IN: u16 = 1;

/// The length of the header of a message, in bytes.
pub const HEADER_LEN: usize = 12;

/// The largest length of an encoded message, in bytes.
pub const MESSAGE_LIMIT: usize = 65535;

/// `trust_dns_proto::op::Message`, a DNS message.
#[verifier::external_type_specification]
#[verifier::external_body]
pub struct ExMessage(Message);

/// `trust_dns_proto::error::ProtoError`, the error of the codec.
#[verifier::external_type_specification]
#[verifier::external_body]
pub struct ExProtoError(ProtoError);

/// One question: the name that is asked for, in lower case and as ASCII
/// text, and the code of the record type. A name that was read from the
/// wire is fully qualified and ends in a dot.
#[derive(Debug)]
pub struct Question {
    pub name: String,
    pub record_type: u16,
}

impl View for Question {
    type V = (Seq<char>, u16);

    open spec fn view(&self) -> (Seq<char>, u16) {
        (self.name@, self.record_type)
    }
}

/// The views of a list of questions.
pub open spec fn question_views(questions: Seq<Question>) -> Seq<(Seq<char>, u16)> {
    Seq::new(questions.len(), |i: int| questions[i]@)
}

/// What a record of the answer section holds: the name of its owner, in
/// lower case and as ASCII text, the codes of its type and class, its time
/// to live in seconds, and its address where its data is one.
pub struct RecordView {
    pub name: Seq<char>,
    pub record_type: u16,
    pub dns_class: u16,
    pub ttl: u32,
    pub addr: Option<u32>,
}

/// The address record that answers a question for `name`.
pub open spec fn address_record(name: Seq<char>, ttl: u32, addr: u32) -> RecordView {
    RecordView {
        name,
        record_type: RECORD_TYPE_A,
        dns_class: DNS_CLASS_IN,
        ttl,
        addr: Some(addr),
    }
}

/// The question section of a message: name and type of each question, in
/// order.
pub uninterp spec fn message_questions(message: Message) -> Seq<(Seq<char>, u16)>;

/// The answer section of a message, in order.
pub uninterp spec fn message_answers(message: Message) -> Seq<RecordView>;

/// The number of records that stand behind the answers of a message,
/// the EDNS record aside: name servers, additional records and signatures.
pub uninterp spec fn message_tail_records(message: Message) -> nat;

/// The number of bytes that the EDNS record of a message is written with;
/// zero for a message that has none.
pub uninterp spec fn message_edns_len(message: Message) -> nat;

/// What is seen here of a message: its questions, the number of its
/// answers, the number of records behind them, and the bytes that its EDNS
/// record takes.
pub struct MessageView {
    pub questions: Seq<(Seq<char>, u16)>,
    pub answers: nat,
    pub tail_records: nat,
    pub edns_len: nat,
}

/// What is seen here of `message`.
pub open spec fn message_view(message: Message) -> MessageView {
    MessageView {
        questions: message_questions(message),
        answers: message_answers(message).len(),
        tail_records: message_tail_records(message),
        edns_len: message_edns_len(message),
    }
}

/// The message that `datagram` decodes to, or `None` where it does not
/// decode.
pub uninterp spec fn datagram_message(datagram: Seq<u8>) -> Option<MessageView>;

/// The questions of the message that `datagram` decodes to, or `None` where
/// it does not decode.
pub open spec fn datagram_questions(datagram: Seq<u8>) -> Option<Seq<(Seq<char>, u16)>> {
    match datagram_message(datagram) {
        Some(message) => Some(message.questions),
        None => None,
    }
}

/// How many records a message holds behind its questions, part by part,
/// and whether it has an EDNS record.
#[derive(Debug)]
pub struct Sections {
    pub answers: usize,
    pub name_servers: usize,
    pub additionals: usize,
    pub signatures: usize,
    pub edns: bool,
}

/// The lengths of the names of `questions`, added up.
pub open spec fn names_len(questions: Seq<(Seq<char>, u16)>) -> nat
    decreases questions.len(),
{
    if questions.len() == 0 {
        0
    } else {
        names_len(questions.drop_last()) + questions.last().0.len()
    }
}

/// The lengths of the owner names of `answers`, added up.
pub open spec fn owners_len(answers: Seq<RecordView>) -> nat
    decreases answers.len(),
{
    if answers.len() == 0 {
        0
    } else {
        owners_len(answers.drop_last()) + answers.last().name.len()
    }
}

/// The message is sure to fit: all its answers are addresses, and header,
/// questions, answers and EDNS record stay within the limit even if no
/// name is shortened. A name takes at most two bytes more than its text, a
/// question four bytes besides its name, an address record fourteen.
pub open spec fn surely_fits(message: Message) -> bool {
    let questions = message_questions(message);
    let answers = message_answers(message);
    &&& forall|i: int| 0 <= i < answers.len() ==> (#[trigger] answers[i]).addr is Some
    &&& HEADER_LEN + names_len(questions) + 6 * questions.len() + owners_len(answers) + 16
        * answers.len() + message_edns_len(message) <= MESSAGE_LIMIT
}

/// The message can be handed to the encoder: besides an EDNS record
/// nothing stands behind its answers, and with an EDNS record it is sure
/// to fit.
pub open spec fn encodes_safely(message: Message) -> bool {
    &&& message_tail_records(message) == 0
    &&& message_edns_len(message) == 0 || surely_fits(message)
}

/// Decodes a datagram.
///
/// Trusted: this is `Message::from_vec`. Which datagrams decode, and to
/// which message, is a function of the bytes alone. An EDNS record is
/// written back with the options that were read, each of them once, so it
/// takes no more bytes than it took in the datagram.
#[verifier::external_body]
pub(crate) fn decode_message(datagram: &[u8]) -> (decoded: Result<Message, ProtoError>)
    ensures
        match decoded {
            Ok(message) => datagram_message(datagram@) == Some(message_view(message))
                && message_edns_len(message) <= datagram@.len(),
            Err(_) => datagram_message(datagram@) is None,
        },
{
    Message::from_vec(datagram)
}

/// The questions of a message.
///
/// Trusted: this walks `Message::queries` and hands out of each question
/// the name, put in lower case by `Name::to_lowercase` and rendered by
/// `Name::to_ascii`, and the number of `Query::query_type`.
#[verifier::external_body]
pub(crate) fn questions_of(message: &Message) -> (questions: Vec<Question>)
    ensures
        question_views(questions@) == message_questions(*message),
{
    message.queries().iter().map(
        |q| Question {
            name: q.name().to_lowercase().to_ascii(),
            record_type: u16::from(q.query_type()),
        },
    ).collect()
}

/// The sizes of the parts of a message.
///
/// Trusted: these are the lengths of `Message::answers`,
/// `Message::name_servers`, `Message::additionals` and `Message::sig0`, and
/// whether `Message::edns` holds a record.
#[verifier::external_body]
pub(crate) fn sections_of(message: &Message) -> (sections: Sections)
    ensures
        sections.answers == message_answers(*message).len(),
        sections.name_servers + sections.additionals + sections.signatures
            == message_tail_records(*message),
        sections.edns == (message_edns_len(*message) > 0),
{
    Sections {
        answers: message.answers().len(),
        name_servers: message.name_servers().len(),
        additionals: message.additionals().len(),
        signatures: message.sig0().len(),
        edns: message.edns().is_some(),
    }
}

/// Appends to the answer section an address record for the name of the
/// question at index `question`.
///
/// Trusted: this builds a record with `Record::new` and its setters (the
/// name of that question, type A, class IN, `ttl`, the address `addr`) and
/// appends it with `Message::add_answer`, which pushes it onto the answer
/// section and touches nothing else.
#[verifier::external_body]
pub(crate) fn push_address_record(message: &mut Message, question: usize, ttl: u32, addr: u32)
    requires
        question < message_questions(*old(message)).len(),
    ensures
        message_questions(*final(message)) == message_questions(*old(message)),
        message_tail_records(*final(message)) == message_tail_records(*old(message)),
        message_edns_len(*final(message)) == message_edns_len(*old(message)),
        message_answers(*final(message)) == message_answers(*old(message)).push(
            address_record(message_questions(*old(message))[question as int].0, ttl, addr),
        ),
{
    let mut record = Record::new();
    record.set_name(message.queries()[question].name().clone());
    record.set_record_type(RecordType::A);
    record.set_dns_class(DNSClass::IN);
    record.set_ttl(ttl);
    record.set_rdata(RData::A(addr.into()));
    message.add_answer(record);
}

/// Encodes a message.
///
/// Trusted: this is `Message::to_vec`. It writes into a buffer that it
/// keeps within 65535 bytes and that starts with the header. Where the
/// questions do not fit it answers with an error; a record that does not
/// fit is left out, with the rest of its section. Writing on after a record
/// was left out can stop the program, so a message is admitted only if it
/// is sure to fit or has nothing behind its answers. Of the bytes nothing
/// is stated but their number.
#[verifier::external_body]
pub(crate) fn encode_message(message: &Message) -> (encoded: Result<Vec<u8>, ProtoError>)
    requires
        encodes_safely(*message),
    ensures
        encoded matches Ok(bytes) ==> HEADER_LEN <= bytes@.len() <= MESSAGE_LIMIT,
{
    message.to_vec()
}

} // verus!
