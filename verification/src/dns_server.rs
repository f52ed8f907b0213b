//! The placeholder resolver: every domain that is asked for gets an address
//! of its own out of a private block, and keeps it.
//!
//! Addresses are issued in increasing order, starting right above the base
//! of the block. An address whose last byte is 0 or 255 is never issued.
//! When the block has no address left, no new domain is answered.
//!
//! Only questions for an address (record type A) are answered. A question
//! for any other record type is sent back without an answer.
//!
//! The answered message goes back whole, as far as it fits. A message that
//! came with name servers, additional records or signatures gets no reply,
//! and neither does one with an EDNS record that came with answers or with
//! more questions than are sure to fit together with their answers: the
//! encoder is safe only where the message fits or nothing follows its
//! answers.

use vstd::prelude::*;
use trust_dns_proto::op::Message;
use crate::mapping::{backward, forward, injective, Ipv4Mapping};
use crate::wire::{
    address_record, datagram_message, datagram_questions, decode_message, encode_message,
    message_answers, message_edns_len, message_questions, message_tail_records, names_len,
    owners_len, push_address_record, question_views, questions_of, sections_of, MessageView,
    Question, RecordView, HEADER_LEN, MESSAGE_LIMIT, RECORD_TYPE_A,
};

verus! {

/// The base of the block that placeholder addresses are taken from: 13.0.0.0.
pub const BASE_IPV4_ADDR: u32 = 0x0D00_0000;

/// The first address that is issued: 13.0.0.1.
pub const FIRST_IPV4_ADDR: u32 = BASE_IPV4_ADDR + 1;

/// The number of addresses in the block, the two kinds that are never issued
/// included.
pub const BLOCK_SIZE: u32 = 0x0100_0000;

/// The time to live of every answer, in seconds: one hour.
pub const ANSWER_TTL: u32 = 3600;

/// How many domains the block has addresses for: 254 out of every 256.
pub open spec fn capacity() -> nat {
    254 * 65536
}

/// The offset in the block of the address issued to the `n`-th new domain,
/// counted from zero.
#[verifier::opaque]
pub open spec fn nth_index(n: nat) -> nat {
    256 * (n / 254) + n % 254 + 1
}

/// The address issued to the `n`-th new domain, counted from zero.
pub open spec fn placeholder(n: nat) -> u32 {
    (BASE_IPV4_ADDR + nth_index(n)) as u32
}

/// The offset that follows `index`: one further, and two more whenever that
/// would end in 0 or 255.
pub open spec fn next_index(index: nat) -> nat {
    if (index + 1) % 256 == 255 || (index + 1) % 256 == 0 {
        index + 3
    } else {
        index + 1
    }
}

/// What a resolver can hold: each domain once, the `n`-th of them with the
/// `n`-th address, and no more of them than the block has addresses.
pub open spec fn issued(pairs: Seq<(Seq<char>, u32)>) -> bool {
    &&& pairs.len() <= capacity()
    &&& forall|i: int| 0 <= i < pairs.len() ==> (#[trigger] pairs[i]).1 == placeholder(i as nat)
    &&& forall|i: int, j: int| 0 <= i < j < pairs.len() ==> pairs[i].0 != pairs[j].0
}

/// Resolving `name` in a resolver that holds `pairs`: the pairs it holds
/// afterwards, and the address it answers with. A known domain keeps its
/// address. A new one gets the next address and is registered, unless the
/// block is used up: then nothing changes and there is no answer.
pub open spec fn resolve_step(pairs: Seq<(Seq<char>, u32)>, name: Seq<char>) -> (
    Seq<(Seq<char>, u32)>,
    Option<u32>,
) {
    match forward(pairs, name) {
        Some(addr) => (pairs, Some(addr)),
        None => if pairs.len() < capacity() {
            let addr = placeholder(pairs.len());
            (pairs.push((name, addr)), Some(addr))
        } else {
            (pairs, None)
        },
    }
}

/// Answering one question in a resolver that holds `pairs`: a question for
/// an address is resolved, any other question is left without an answer and
/// changes nothing.
pub open spec fn rdata_step(pairs: Seq<(Seq<char>, u32)>, name: Seq<char>, record_type: u16) -> (
    Seq<(Seq<char>, u32)>,
    Option<u32>,
) {
    if record_type == RECORD_TYPE_A {
        resolve_step(pairs, name)
    } else {
        (pairs, None)
    }
}

/// Answering `questions` one after the other in a resolver that holds
/// `pairs`: the pairs it holds afterwards, and the answers, one address
/// record for each question that got an address, in the order of the
/// questions.
pub open spec fn answer_all(pairs: Seq<(Seq<char>, u32)>, questions: Seq<(Seq<char>, u16)>) -> (
    Seq<(Seq<char>, u32)>,
    Seq<RecordView>,
)
    decreases questions.len(),
{
    if questions.len() == 0 {
        (pairs, Seq::empty())
    } else {
        let (before, answers) = answer_all(pairs, questions.drop_last());
        let question = questions.last();
        let (after, addr) = rdata_step(before, question.0, question.1);
        match addr {
            Some(a) => (after, answers.push(address_record(question.0, ANSWER_TTL, a))),
            None => (after, answers),
        }
    }
}

/// The offsets grow with the count, stay inside the block, never end in 0 or
/// 255, and follow one another by the skip rule.
pub proof fn lemma_nth_index(n: nat)
    ensures
        nth_index(n) == n + 2 * (n / 254) + 1,
        1 <= nth_index(n) % 256 <= 254,
        nth_index(n + 1) == next_index(nth_index(n)),
        n < capacity() <==> nth_index(n) < BLOCK_SIZE,
        n <= capacity() ==> nth_index(n) <= BLOCK_SIZE + 1,
{
    reveal(nth_index);
    let q = n / 254;
    let r = n % 254;
    assert(n == 254 * q + r);
    assert(nth_index(n) == 256 * q + r + 1);
    assert((256 * q + (r + 1)) % 256 == r + 1) by (nonlinear_arith)
        requires
            0 <= r < 254,
    ;
    if r == 253 {
        assert((n + 1) / 254 == q + 1);
        assert((n + 1) % 254 == 0);
    } else {
        assert((n + 1) / 254 == q);
        assert((n + 1) % 254 == r + 1);
    }
    assert((256 * q + (r + 2)) % 256 == r + 2) by (nonlinear_arith)
        requires
            0 <= r < 254,
    ;
}

/// A later domain gets a higher address.
pub proof fn lemma_nth_index_increases(i: nat, j: nat)
    requires
        i < j,
    ensures
        nth_index(i) < nth_index(j),
{
    lemma_nth_index(i);
    lemma_nth_index(j);
    assert(i / 254 <= j / 254);
}

/// Every address that is issued lies strictly inside the block, above the
/// base, and ends neither in 0 nor in 255.
pub proof fn lemma_placeholder_in_block(n: nat)
    requires
        n < capacity(),
    ensures
        BASE_IPV4_ADDR < placeholder(n) < BASE_IPV4_ADDR + BLOCK_SIZE,
        placeholder(n) == BASE_IPV4_ADDR + nth_index(n),
        placeholder(n) % 256 != 0,
        placeholder(n) % 256 != 255,
{
    lemma_nth_index(n);
    let k = nth_index(n);
    assert((0x0D00_0000 + k) % 256 == k % 256);
}

/// The next address is free: no pair holds it yet, registering it keeps
/// the pairs in order, and the counter that follows it is the next one.
proof fn lemma_fresh_address(pairs: Seq<(Seq<char>, u32)>, name: Seq<char>)
    requires
        issued(pairs),
        forward(pairs, name) is None,
        pairs.len() < capacity(),
    ensures
        placeholder(pairs.len()) == BASE_IPV4_ADDR + nth_index(pairs.len()),
        nth_index(pairs.len()) < BLOCK_SIZE,
        backward(pairs, placeholder(pairs.len())) is None,
        nth_index(pairs.len() + 1) == next_index(nth_index(pairs.len())),
        nth_index(pairs.len() + 1) <= BLOCK_SIZE + 1,
{
    let n = pairs.len();
    lemma_nth_index(n);
    lemma_nth_index(n + 1);
    lemma_placeholder_in_block(n);
    assert forall|i: int| 0 <= i < n implies pairs[i].1 != placeholder(n) by {
        lemma_nth_index_increases(i as nat, n);
        lemma_placeholder_in_block(i as nat);
    }
}

/// A domain that is new to the resolver gets an address above every
/// address issued before.
pub proof fn lemma_new_address_is_highest(pairs: Seq<(Seq<char>, u32)>, name: Seq<char>)
    requires
        issued(pairs),
    ensures
        forward(pairs, name) is None ==> forall|i: int|
            0 <= i < pairs.len() && resolve_step(pairs, name).1 is Some ==> (#[trigger] pairs[i]).1
                < resolve_step(pairs, name).1.unwrap(),
{
    if forward(pairs, name) is None && pairs.len() < capacity() {
        let n = pairs.len();
        assert forall|i: int| 0 <= i < n implies (#[trigger] pairs[i]).1 < placeholder(n) by {
            lemma_nth_index_increases(i as nat, n);
            lemma_placeholder_in_block(i as nat);
            lemma_placeholder_in_block(n);
        }
    }
}

/// What a resolver can hold maps one to one.
pub proof fn lemma_issued_injective(pairs: Seq<(Seq<char>, u32)>)
    requires
        issued(pairs),
    ensures
        injective(pairs),
{
    assert forall|i: int, j: int| 0 <= i < j < pairs.len() implies pairs[i].1 != pairs[j].1 by {
        lemma_nth_index_increases(i as nat, j as nat);
        lemma_placeholder_in_block(i as nat);
        lemma_placeholder_in_block(j as nat);
    }
}

/// What to do with a datagram that came in.
#[derive(Debug)]
pub enum Reply {
    /// It is no DNS message: send nothing.
    Ignore,
    /// Send these bytes back to where it came from.
    Send(Vec<u8>),
    /// The answered message was not encoded, or the encoder failed: send
    /// nothing.
    EncodeFailed,
}

/// The state of the resolver: the counter of the next address and the cache.
#[derive(Debug)]
pub struct DnsServer {
    answer_index: u32,
    ipv4_mapping: Ipv4Mapping,
}

impl View for DnsServer {
    type V = Seq<(Seq<char>, u32)>;

    /// The domains resolved so far with their addresses, oldest first.
    closed spec fn view(&self) -> Seq<(Seq<char>, u32)> {
        self.ipv4_mapping@
    }
}

impl DnsServer {
    /// The cache holds what was issued, and the counter stands at the next
    /// address.
    pub closed spec fn wf(&self) -> bool {
        &&& issued(self@)
        &&& self.ipv4_mapping.wf()
        &&& self.answer_index == nth_index(self@.len())
    }

    /// A resolver in good order holds what was issued, and nothing else:
    /// the laws on issued pairs hold of it.
    pub proof fn lemma_wf_issued(&self)
        requires
            self.wf(),
        ensures
            issued(self@),
    {
    }

    /// A resolver that has seen no domain.
    pub fn new() -> (server: DnsServer)
        ensures
            server.wf(),
            server@ == Seq::<(Seq<char>, u32)>::empty(),
    {
        proof {
            lemma_nth_index(0);
        }
        DnsServer { answer_index: 1, ipv4_mapping: Ipv4Mapping::new() }
    }

    /// The cache, for lookups by address.
    pub fn ipv4_mapping(&self) -> (mapping: &Ipv4Mapping)
        requires
            self.wf(),
        ensures
            mapping@ == self@,
            mapping.wf(),
    {
        &self.ipv4_mapping
    }

    /// The address that stands for `name`: the one it already has, or the
    /// next free one, which it keeps from now on.
    pub fn create_ipv4_addr_for_domain(&mut self, name: &str) -> (addr: Option<u32>)
        requires
            old(self).wf(),
        ensures
            final(self).wf(),
            (final(self)@, addr) == resolve_step(old(self)@, name@),
            addr matches Some(a) ==> {
                &&& forward(final(self)@, name@) == Some(a)
                &&& backward(final(self)@, a) == Some(name@)
                &&& BASE_IPV4_ADDR < a < BASE_IPV4_ADDR + BLOCK_SIZE
                &&& a % 256 != 0
                &&& a % 256 != 255
            },
            forward(old(self)@, name@) is None ==> forall|i: int|
                0 <= i < old(self)@.len() && addr is Some ==> (#[trigger] old(self)@[i]).1
                    < addr.unwrap(),
    {
        proof {
            lemma_resolve_step(self@, name@);
            lemma_nth_index(self@.len());
            lemma_new_address_is_highest(self@, name@);
        }
        match self.ipv4_mapping.get_addr(name) {
            Some(addr) => {
                return Some(addr);
            },
            None => {},
        }
        if self.answer_index >= BLOCK_SIZE {
            return None;
        }
        proof {
            lemma_fresh_address(self@, name@);
        }
        let addr = BASE_IPV4_ADDR + self.answer_index;
        let added = self.ipv4_mapping.insert(name.to_owned(), addr);
        assert(added);
        let next = self.answer_index + 1;
        if next % 256 == 255 || next % 256 == 0 {
            self.answer_index = next + 2;
        } else {
            self.answer_index = next;
        }
        Some(addr)
    }

    /// The data of the answer to a question for `name`: its address where
    /// the question asks for one, and nothing for any other record type.
    pub fn create_rdata_for_domain(&mut self, name: &str, record_type: u16) -> (addr: Option<u32>)
        requires
            old(self).wf(),
        ensures
            final(self).wf(),
            (final(self)@, addr) == rdata_step(old(self)@, name@, record_type),
    {
        if record_type == RECORD_TYPE_A {
            self.create_ipv4_addr_for_domain(name)
        } else {
            None
        }
    }

    /// Answers the questions of `message`: appends to its answers one
    /// address record for each question that gets an address, and leaves the
    /// rest of the message as it is.
    pub fn answer_message(&mut self, message: &mut Message)
        requires
            old(self).wf(),
        ensures
            final(self).wf(),
            final(self)@ == answer_all(old(self)@, message_questions(*old(message))).0,
            message_answers(*final(message)) == message_answers(*old(message)) + answer_all(
                old(self)@,
                message_questions(*old(message)),
            ).1,
            message_questions(*final(message)) == message_questions(*old(message)),
            message_tail_records(*final(message)) == message_tail_records(*old(message)),
            message_edns_len(*final(message)) == message_edns_len(*old(message)),
    {
        let questions = questions_of(message);
        let ghost asked = message_questions(*message);
        let ghost start = self@;
        let ghost given = message_answers(*message);
        assert(questions@.len() == asked.len());
        let mut i: usize = 0;
        assert(asked.take(0) =~= Seq::empty());
        assert(given + answer_all(start, asked.take(0)).1 =~= given);
        while i < questions.len()
            invariant
                self.wf(),
                i <= questions@.len(),
                question_views(questions@) == asked,
                message_questions(*message) == asked,
                message_tail_records(*message) == message_tail_records(*old(message)),
                message_edns_len(*message) == message_edns_len(*old(message)),
                self@ == answer_all(start, asked.take(i as int)).0,
                message_answers(*message) == given + answer_all(start, asked.take(i as int)).1,
            decreases questions@.len() - i,
        {
            let ghost sofar = answer_all(start, asked.take(i as int));
            proof {
                let next = asked.take(i + 1);
                assert(next.drop_last() =~= asked.take(i as int));
                assert(next.last() == asked[i as int]);
                assert(asked[i as int] == questions@[i as int]@);
            }
            let question = &questions[i];
            match self.create_rdata_for_domain(question.name.as_str(), question.record_type) {
                Some(addr) => {
                    push_address_record(message, i, ANSWER_TTL, addr);
                    assert(message_answers(*message) =~= given + sofar.1.push(
                        address_record(asked[i as int].0, ANSWER_TTL, addr),
                    ));
                },
                None => {},
            }
            i += 1;
        }
        assert(asked.take(i as int) =~= asked);
    }

    /// Handles one datagram: decodes it, answers its questions and encodes
    /// the answered message. A datagram that does not decode is ignored and
    /// changes nothing. Otherwise the resolver has resolved the questions
    /// for addresses, in order, whether or not a reply comes of it.
    ///
    /// The answered message is encoded if nothing but an EDNS record stands
    /// behind its answers and, where it has an EDNS record, it came without
    /// answers and is small enough to fit whatever its names are (see
    /// `admitted`). Any other message gets no reply.
    pub fn handle_query(&mut self, datagram: &[u8]) -> (reply: Reply)
        requires
            old(self).wf(),
        ensures
            final(self).wf(),
            reply is Ignore <==> datagram_questions(datagram@) is None,
            final(self)@ == match datagram_questions(datagram@) {
                Some(questions) => answer_all(old(self)@, questions).0,
                None => old(self)@,
            },
            reply matches Reply::Send(bytes) ==> HEADER_LEN <= bytes@.len() <= MESSAGE_LIMIT,
            datagram_message(datagram@) matches Some(came) && !admitted(came, datagram@.len())
                ==> reply is EncodeFailed,
    {
        let mut message = match decode_message(datagram) {
            Ok(message) => message,
            Err(_) => {
                return Reply::Ignore;
            },
        };
        let came = sections_of(&message);
        let questions = questions_of(&message);
        let ghost asked = message_questions(message);
        let ghost start = self@;
        self.answer_message(&mut message);
        if came.name_servers != 0 || came.additionals != 0 || came.signatures != 0 {
            return Reply::EncodeFailed;
        }
        if came.edns {
            if came.answers != 0 || !small_enough(&questions, datagram.len()) {
                return Reply::EncodeFailed;
            }
            proof {
                lemma_answers_fit(start, asked);
                assert(message_answers(message) =~= answer_all(start, asked).1);
            }
        }
        match encode_message(&message) {
            Ok(bytes) => Reply::Send(bytes),
            Err(_) => Reply::EncodeFailed,
        }
    }
}

/// Whether a message that came in as `came`, in a datagram of `len` bytes,
/// is encoded once it is answered: nothing but an EDNS record stands behind
/// its answers, and if it has an EDNS record, it came without answers and
/// is sure to fit with an answer to each question, even if the EDNS record
/// took the whole datagram.
pub open spec fn admitted(came: MessageView, len: nat) -> bool {
    &&& came.tail_records == 0
    &&& came.edns_len == 0 || (came.answers == 0 && fits_with(came.questions, len))
}

/// Whether a message with these questions, an answer to each of them and
/// `extra` more bytes is sure to fit.
pub open spec fn fits_with(questions: Seq<(Seq<char>, u16)>, extra: nat) -> bool {
    HEADER_LEN + 2 * names_len(questions) + 22 * questions.len() + extra <= MESSAGE_LIMIT
}

/// Whether a message with `questions`, an answer to each of them and
/// `extra` more bytes is sure to fit.
fn small_enough(questions: &Vec<Question>, extra: usize) -> (fits: bool)
    ensures
        fits == fits_with(question_views(questions@), extra as nat),
{
    let ghost asked = question_views(questions@);
    if extra > MESSAGE_LIMIT {
        return false;
    }
    let mut total: usize = HEADER_LEN + extra;
    let mut i: usize = 0;
    assert(asked.take(0) =~= Seq::empty());
    while i < questions.len()
        invariant
            i <= questions@.len(),
            asked == question_views(questions@),
            total == HEADER_LEN + 2 * names_len(asked.take(i as int)) + 22 * i + extra,
            total <= 2 * MESSAGE_LIMIT,
        decreases questions@.len() - i,
    {
        let len = questions[i].name.as_str().unicode_len();
        proof {
            let next = asked.take(i + 1);
            assert(next.drop_last() =~= asked.take(i as int));
            assert(next.last() == asked[i as int]);
            lemma_names_len_grows(asked, i + 1);
        }
        if len > MESSAGE_LIMIT || total + 2 * len + 22 > MESSAGE_LIMIT {
            return false;
        }
        total = total + 2 * len + 22;
        i += 1;
    }
    assert(asked.take(i as int) =~= asked);
    total <= MESSAGE_LIMIT
}

/// The names of the first questions are no longer than those of all.
proof fn lemma_names_len_grows(questions: Seq<(Seq<char>, u16)>, upto: int)
    requires
        0 <= upto <= questions.len(),
    ensures
        names_len(questions.take(upto)) <= names_len(questions),
    decreases questions.len() - upto,
{
    if upto < questions.len() {
        let next = questions.take(upto + 1);
        assert(next.drop_last() =~= questions.take(upto));
        lemma_names_len_grows(questions, upto + 1);
    } else {
        assert(questions.take(upto) =~= questions);
    }
}

/// The answers to `questions` are addresses, no more of them than there
/// are questions, and their names are names of the questions.
proof fn lemma_answers_fit(pairs: Seq<(Seq<char>, u32)>, questions: Seq<(Seq<char>, u16)>)
    ensures
        ({
            let answers = answer_all(pairs, questions).1;
            &&& answers.len() <= questions.len()
            &&& owners_len(answers) <= names_len(questions)
            &&& forall|i: int| 0 <= i < answers.len() ==> (#[trigger] answers[i]).addr is Some
        }),
    decreases questions.len(),
{
    if questions.len() > 0 {
        lemma_answers_fit(pairs, questions.drop_last());
        let (before, answers) = answer_all(pairs, questions.drop_last());
        let question = questions.last();
        let addr = rdata_step(before, question.0, question.1).1;
        if addr is Some {
            let more = answers.push(address_record(question.0, ANSWER_TTL, addr.unwrap()));
            assert(more.drop_last() =~= answers);
        }
    }
}

/// One resolution keeps the resolver's pairs in order, and its answer is in
/// the cache afterwards, both ways.
pub proof fn lemma_resolve_step(pairs: Seq<(Seq<char>, u32)>, name: Seq<char>)
    requires
        issued(pairs),
    ensures
        issued(resolve_step(pairs, name).0),
        resolve_step(pairs, name).1 matches Some(a) ==> {
            &&& forward(resolve_step(pairs, name).0, name) == Some(a)
            &&& backward(resolve_step(pairs, name).0, a) == Some(name)
            &&& BASE_IPV4_ADDR < a < BASE_IPV4_ADDR + BLOCK_SIZE
            &&& a % 256 != 0
            &&& a % 256 != 255
        },
        resolve_step(pairs, name).1 is None <==> forward(pairs, name) is None && pairs.len()
            >= capacity(),
{
    let (after, answer) = resolve_step(pairs, name);
    lemma_issued_injective(pairs);
    match forward(pairs, name) {
        Some(addr) => {
            let i = choose|i: int| 0 <= i < pairs.len() && pairs[i].0 == name;
            lemma_placeholder_in_block(i as nat);
            crate::mapping::lemma_backward_inverts_forward(pairs, name, addr);
        },
        None => {
            if pairs.len() < capacity() {
                let n = pairs.len();
                let addr = placeholder(n);
                lemma_placeholder_in_block(n);
                assert(after[n as int] == (name, addr));
                assert(issued(after));
                lemma_issued_injective(after);
                crate::mapping::lemma_backward_inverts_forward(after, name, addr);
                assert(after.contains((name, addr)));
            }
        },
    }
}

/// Resolving a domain a second time gives the same answer and changes
/// nothing.
pub proof fn lemma_resolve_twice(pairs: Seq<(Seq<char>, u32)>, name: Seq<char>)
    requires
        issued(pairs),
    ensures
        resolve_step(resolve_step(pairs, name).0, name) == resolve_step(pairs, name),
{
    lemma_resolve_step(pairs, name);
}

/// Of two different domains, the one that is first resolved later gets the
/// higher address: if `second` is unknown when `first` is resolved, and both
/// are answered, the address of `second` lies above that of `first`.
pub proof fn lemma_resolve_in_order(
    pairs: Seq<(Seq<char>, u32)>,
    first: Seq<char>,
    second: Seq<char>,
)
    requires
        issued(pairs),
        first != second,
        forward(pairs, second) is None,
    ensures
        ({
            let (between, a) = resolve_step(pairs, first);
            let (after, b) = resolve_step(between, second);
            &&& a is Some && b is Some ==> a.unwrap() < b.unwrap()
            &&& a is Some && pairs.len() + 1 < capacity() ==> b is Some
            &&& b is Some ==> forward(after, first) == a
        }),
{
    let (between, a) = resolve_step(pairs, first);
    let (after, b) = resolve_step(between, second);
    lemma_resolve_step(pairs, first);
    lemma_resolve_step(between, second);
    lemma_issued_injective(between);
    lemma_issued_injective(after);
    // `second` is still unknown after `first` was resolved.
    assert(forward(between, second) is None) by {
        if forward(between, second) is Some {
            let i = choose|i: int| 0 <= i < between.len() && between[i].0 == second;
            if i < pairs.len() {
                assert(pairs[i].0 == second);
            }
        }
    }
    if a is Some && b is Some {
        crate::mapping::lemma_backward_inverts_forward(between, first, a.unwrap());
        let i = choose|i: int| 0 <= i < between.len() && between[i] == (first, a.unwrap());
        let n = between.len();
        lemma_nth_index_increases(i as nat, n);
        lemma_placeholder_in_block(i as nat);
        lemma_placeholder_in_block(n);
        assert(after[i] == (first, a.unwrap()));
        crate::mapping::lemma_backward_inverts_forward(after, first, a.unwrap());
    }
}

/// Any two different domains that a resolver holds have different
/// addresses, and the one registered later has the higher one.
pub proof fn lemma_addresses_increase(pairs: Seq<(Seq<char>, u32)>, i: int, j: int)
    requires
        issued(pairs),
        0 <= i < j < pairs.len(),
    ensures
        pairs[i].1 < pairs[j].1,
        pairs[i].0 != pairs[j].0,
{
    lemma_nth_index_increases(i as nat, j as nat);
    lemma_placeholder_in_block(i as nat);
    lemma_placeholder_in_block(j as nat);
}

/// No address that a resolver holds ends in 0 or 255, and all of them lie
/// inside the block, above its base.
pub proof fn lemma_issued_addresses(pairs: Seq<(Seq<char>, u32)>, i: int)
    requires
        issued(pairs),
        0 <= i < pairs.len(),
    ensures
        pairs[i].1 % 256 != 0,
        pairs[i].1 % 256 != 255,
        BASE_IPV4_ADDR < pairs[i].1 < BASE_IPV4_ADDR + BLOCK_SIZE,
{
    lemma_placeholder_in_block(i as nat);
}

/// A pair, once registered, stays where it is: resolving a domain changes
/// no pair and removes none.
pub proof fn lemma_resolve_keeps_pairs(pairs: Seq<(Seq<char>, u32)>, name: Seq<char>)
    ensures
        pairs.is_prefix_of(resolve_step(pairs, name).0),
{
}

/// Answering questions keeps the resolver's pairs in order, changes no
/// pair and removes none.
pub proof fn lemma_answer_all(pairs: Seq<(Seq<char>, u32)>, questions: Seq<(Seq<char>, u16)>)
    requires
        issued(pairs),
    ensures
        issued(answer_all(pairs, questions).0),
        pairs.is_prefix_of(answer_all(pairs, questions).0),
        answer_all(pairs, questions).1.len() <= questions.len(),
    decreases questions.len(),
{
    if questions.len() > 0 {
        let (before, answers) = answer_all(pairs, questions.drop_last());
        lemma_answer_all(pairs, questions.drop_last());
        let question = questions.last();
        if question.1 == RECORD_TYPE_A {
            lemma_resolve_step(before, question.0);
            lemma_resolve_keeps_pairs(before, question.0);
        }
    }
}

/// Two different domains never get the same address, in whichever order
/// and state they are resolved.
pub proof fn lemma_resolve_distinct(
    pairs: Seq<(Seq<char>, u32)>,
    first: Seq<char>,
    second: Seq<char>,
)
    requires
        issued(pairs),
        first != second,
    ensures
        ({
            let (between, a) = resolve_step(pairs, first);
            let (after, b) = resolve_step(between, second);
            a is Some && b is Some ==> a.unwrap() != b.unwrap()
        }),
{
    let (between, a) = resolve_step(pairs, first);
    let (after, b) = resolve_step(between, second);
    lemma_resolve_step(pairs, first);
    lemma_resolve_step(between, second);
    if a is Some && b is Some {
        lemma_resolved_stays_resolved(between, first, a.unwrap(), second);
        lemma_issued_injective(after);
        crate::mapping::lemma_backward_inverts_forward(after, first, a.unwrap());
        crate::mapping::lemma_backward_inverts_forward(after, second, b.unwrap());
    }
}

/// An answer, once given, stands: whatever is resolved later, the domain
/// keeps its address and the address its domain.
pub proof fn lemma_resolved_stays_resolved(
    pairs: Seq<(Seq<char>, u32)>,
    name: Seq<char>,
    addr: u32,
    later: Seq<char>,
)
    requires
        issued(pairs),
        forward(pairs, name) == Some(addr),
    ensures
        forward(resolve_step(pairs, later).0, name) == Some(addr),
        backward(resolve_step(pairs, later).0, addr) == Some(name),
{
    let after = resolve_step(pairs, later).0;
    lemma_resolve_step(pairs, later);
    lemma_issued_injective(pairs);
    lemma_issued_injective(after);
    crate::mapping::lemma_backward_inverts_forward(pairs, name, addr);
    let i = choose|i: int| 0 <= i < pairs.len() && pairs[i] == (name, addr);
    assert(after[i] == (name, addr));
    crate::mapping::lemma_backward_inverts_forward(after, name, addr);
}

} // verus!
