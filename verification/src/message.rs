//! The message record: a thread of messages between two participants, of
//! which the latest is held.
//!
//! A record has an exact text form of eight comma-separated fields. The
//! second, the message's content, is free text and may itself hold commas:
//! the first field and the last six are taken as they are, and whatever lies
//! between them is the content.

use vstd::prelude::*;
use vstd::utf8::valid_utf8;
use crate::bucket::{bucket_wf, map_text, parse_bucket, Bucket};
use crate::bytes::{
    all_free_of, ascii, ascii_bytes, copy_bytes, free_of, is_word, join, join_bytes,
    lemma_join_concat, lemma_join_free, lemma_join_split, lemma_split_at_delimiter,
    lemma_split_free, lemma_split_join, lemma_split_keeps_free, lemma_split_pieces, rows, split,
    split_bytes, COMMA, PIPE,
};
use crate::decimal::{
    digits, is_digit, lemma_digits, lemma_digits_free, lemma_parse_digits, parse_decimal,
    parse_u64, to_decimal,
};
use crate::error::{ApplyError, Rejection};
use crate::record::Record;
use crate::utf8::{lemma_ascii_valid, lemma_join_valid, lemma_split_valid};

verus! {

/// Number of fields in a record's text form.
pub const MESSAGE_ARITY: usize = 8;

/// What kind of content a message has.
#[derive(Clone, Copy, Debug, PartialEq, Eq, Structural)]
pub enum MessageType {
    Text,
    /// Stated as anything but text.
    Error,
}

/// The text of a message type.
pub open spec fn type_text(t: MessageType) -> Seq<u8> {
    match t {
        MessageType::Text => ascii("TEXT"@),
        MessageType::Error => ascii("error"@),
    }
}

/// The message type that a text stands for.
pub open spec fn parse_type(text: Seq<u8>) -> MessageType {
    if text == ascii("TEXT"@) {
        MessageType::Text
    } else {
        MessageType::Error
    }
}

/// The number that a text is read as where it is one that fits 32 bits.
pub open spec fn parse_u32(text: Seq<u8>) -> Option<u32> {
    match parse_u64(text) {
        Some(n) => if n <= u32::MAX {
            Some(n as u32)
        } else {
            None
        },
        None => None,
    }
}

/// The text of the number of the message before: decimal, or `-1` where
/// there was none.
pub open spec fn previous_text(previous: Option<u32>) -> Seq<u8> {
    match previous {
        Some(n) => digits(n as nat),
        None => ascii("-1"@),
    }
}

/// Abstract value of a [`Message`].
pub struct MessageView {
    pub name: Seq<u8>,
    pub message_content: Seq<u8>,
    pub message_type: MessageType,
    pub id: u32,
    pub previous_id: Option<u32>,
    pub sender: Seq<u8>,
    pub participant1: Seq<u8>,
    pub participant2: Seq<u8>,
}

/// The thread that `create` makes: its first message says that it was made.
pub open spec fn fresh_message(name: Seq<u8>) -> MessageView {
    MessageView {
        name,
        message_content: ascii("Chat Created"@),
        message_type: MessageType::Text,
        id: 0,
        previous_id: None,
        sender: ascii("P1"@),
        participant1: Seq::empty(),
        participant2: Seq::empty(),
    }
}

/// The six fields that follow the content in a record's text form.
pub open spec fn message_tail(m: MessageView) -> Seq<Seq<u8>> {
    seq![
        type_text(m.message_type),
        digits(m.id as nat),
        previous_text(m.previous_id),
        m.sender,
        m.participant1,
        m.participant2,
    ]
}

/// The eight fields of a record's text form, in order.
pub open spec fn message_fields(m: MessageView) -> Seq<Seq<u8>> {
    seq![m.name, m.message_content] + message_tail(m)
}

/// The text form of a record: its fields joined by commas.
pub open spec fn message_text(m: MessageView) -> Seq<u8> {
    join(message_fields(m), COMMA)
}

/// The record that a text stands for. The first comma-separated field is the
/// name and the last six are type, number, number of the message before,
/// sender and participants; all that lies between is the content. A text
/// with fewer than eight fields, or whose number is none, stands for no
/// record.
pub open spec fn parse_message(text: Seq<u8>) -> Option<MessageView> {
    let t = split(text, COMMA);
    let n = t.len() as int;
    if n < 8 || parse_u32(t[n - 5]) is None {
        None
    } else {
        Some(
            MessageView {
                name: t[0],
                message_content: join(t.subrange(1, n - 6), COMMA),
                message_type: parse_type(t[n - 6]),
                id: parse_u32(t[n - 5])->0,
                previous_id: parse_u32(t[n - 4]),
                sender: t[n - 3],
                participant1: t[n - 2],
                participant2: t[n - 1],
            },
        )
    }
}

/// A record whose text form can be read back: no comma in name, sender and
/// participants, and no pipe anywhere.
pub open spec fn message_wf(m: MessageView) -> bool {
    &&& free_of(m.name, COMMA)
    &&& free_of(m.name, PIPE)
    &&& free_of(m.message_content, PIPE)
    &&& free_of(m.sender, COMMA)
    &&& free_of(m.sender, PIPE)
    &&& free_of(m.participant1, COMMA)
    &&& free_of(m.participant1, PIPE)
    &&& free_of(m.participant2, COMMA)
    &&& free_of(m.participant2, PIPE)
}

/// A record whose five text fields are UTF-8 text.
pub open spec fn message_is_text(m: MessageView) -> bool {
    &&& valid_utf8(m.name)
    &&& valid_utf8(m.message_content)
    &&& valid_utf8(m.sender)
    &&& valid_utf8(m.participant1)
    &&& valid_utf8(m.participant2)
}

/// The thread once a message more was added: the new content and sender
/// take the place of the old, and the messages are counted on.
pub open spec fn with_message(m: MessageView, content: Seq<u8>, sender: Seq<u8>) -> MessageView {
    MessageView {
        message_content: content,
        sender,
        previous_id: Some(m.id),
        id: (m.id + 1) as u32,
        ..m
    }
}

/// What the words of the text form are made of.
pub proof fn lemma_message_words()
    ensures
        ascii("TEXT"@) == seq![84u8, 69u8, 88u8, 84u8],
        ascii("error"@) == seq![101u8, 114u8, 114u8, 111u8, 114u8],
        ascii("-1"@) == seq![45u8, 49u8],
        ascii("P1"@) == seq![80u8, 49u8],
        ascii("Chat Created"@) == seq![
            67u8,
            104u8,
            97u8,
            116u8,
            32u8,
            67u8,
            114u8,
            101u8,
            97u8,
            116u8,
            101u8,
            100u8,
        ],
        vstd::string::is_ascii("TEXT"),
        vstd::string::is_ascii("error"),
        vstd::string::is_ascii("-1"),
        vstd::string::is_ascii("P1"),
        vstd::string::is_ascii("Chat Created"),
{
    reveal_strlit("TEXT");
    reveal_strlit("error");
    reveal_strlit("-1");
    reveal_strlit("P1");
    reveal_strlit("Chat Created");
    assert(ascii("TEXT"@) =~= seq![84u8, 69u8, 88u8, 84u8]);
    assert(ascii("error"@) =~= seq![101u8, 114u8, 114u8, 111u8, 114u8]);
    assert(ascii("-1"@) =~= seq![45u8, 49u8]);
    assert(ascii("P1"@) =~= seq![80u8, 49u8]);
    assert(ascii("Chat Created"@) =~= seq![
        67u8,
        104u8,
        97u8,
        116u8,
        32u8,
        67u8,
        114u8,
        101u8,
        97u8,
        116u8,
        101u8,
        100u8,
    ]);
}

/// The text of a message type holds no delimiter, is UTF-8 text and reads
/// back.
pub proof fn lemma_type_text(t: MessageType)
    ensures
        free_of(type_text(t), COMMA),
        free_of(type_text(t), PIPE),
        valid_utf8(type_text(t)),
        parse_type(type_text(t)) == t,
{
    lemma_message_words();
    assert(ascii("TEXT"@).len() == 4);
    assert(ascii("error"@).len() == 5);
    lemma_ascii_valid(ascii("TEXT"@));
    lemma_ascii_valid(ascii("error"@));
}

/// The decimal text of a number holds no delimiter, is UTF-8 text and reads
/// back.
pub proof fn lemma_number_text(n: u32)
    ensures
        free_of(digits(n as nat), COMMA),
        free_of(digits(n as nat), PIPE),
        valid_utf8(digits(n as nat)),
        parse_u32(digits(n as nat)) == Some(n),
{
    let d = digits(n as nat);
    lemma_digits(n as nat);
    lemma_parse_digits(n as u64);
    lemma_digits_free(d, COMMA);
    lemma_digits_free(d, PIPE);
    assert forall|i: int| 0 <= i < d.len() implies #[trigger] d[i] < 128 by {
        assert(is_digit(d[i]));
    }
    lemma_ascii_valid(d);
}

/// The text of the number of the message before holds no delimiter, is
/// UTF-8 text and reads back.
pub proof fn lemma_previous_text(previous: Option<u32>)
    ensures
        free_of(previous_text(previous), COMMA),
        free_of(previous_text(previous), PIPE),
        valid_utf8(previous_text(previous)),
        parse_u32(previous_text(previous)) == previous,
{
    lemma_message_words();
    match previous {
        Some(n) => {
            lemma_number_text(n);
        },
        None => {
            let w = ascii("-1"@);
            assert(w[0] == 45u8);
            assert(!is_digit(w[0]));
            lemma_ascii_valid(w);
        },
    }
}

/// The pieces of the text form of a well-formed record: its name, the pieces
/// of its content, and its six last fields.
proof fn lemma_message_pieces(m: MessageView)
    requires
        message_wf(m),
    ensures
        split(message_text(m), COMMA) == seq![m.name] + split(m.message_content, COMMA)
            + message_tail(m),
        free_of(message_text(m), PIPE),
{
    let tail = message_tail(m);
    let head = seq![m.name, m.message_content];
    lemma_type_text(m.message_type);
    lemma_number_text(m.id);
    lemma_previous_text(m.previous_id);
    assert(all_free_of(tail, COMMA));
    assert(all_free_of(message_fields(m), PIPE)) by {
        let f = message_fields(m);
        assert forall|k: int| 0 <= k < f.len() implies free_of(#[trigger] f[k], PIPE) by {
            if k >= 2 {
                assert(f[k] == tail[k - 2]);
            }
        }
    }
    lemma_join_free(message_fields(m), COMMA, PIPE);
    lemma_join_concat(head, tail, COMMA);
    assert(head.drop_last() =~= seq![m.name]);
    assert(join(seq![m.name], COMMA) == m.name);
    assert(head.last() == m.message_content);
    assert(join(head, COMMA) == m.name.push(COMMA) + m.message_content);
    lemma_split_at_delimiter(join(head, COMMA), join(tail, COMMA), COMMA);
    lemma_split_join(tail, COMMA);
    lemma_split_at_delimiter(m.name, m.message_content, COMMA);
    lemma_split_free(m.name, COMMA);
}

/// Reading the text form of a well-formed record gives the record back, and
/// the text form holds no pipe.
pub proof fn lemma_message_round_trip(m: MessageView)
    requires
        message_wf(m),
    ensures
        parse_message(message_text(m)) == Some(m),
        free_of(message_text(m), PIPE),
{
    lemma_message_pieces(m);
    let content = split(m.message_content, COMMA);
    let tail = message_tail(m);
    let t = split(message_text(m), COMMA);
    let n = t.len() as int;
    lemma_split_pieces(m.message_content, COMMA);
    lemma_join_split(m.message_content, COMMA);
    assert(n == 1 + content.len() + 6);
    assert(t.subrange(1, n - 6) =~= content);
    assert(t[0] == m.name);
    assert forall|k: int| 0 <= k < 6 implies t[n - 6 + k] == tail[k] by {}
    assert(t[n - 6] == tail[0]);
    assert(t[n - 5] == tail[1]);
    assert(t[n - 4] == tail[2]);
    assert(t[n - 3] == tail[3]);
    assert(t[n - 2] == tail[4]);
    assert(t[n - 1] == tail[5]);
    lemma_type_text(m.message_type);
    lemma_number_text(m.id);
    lemma_previous_text(m.previous_id);
}

/// Whatever a pipe-free text reads as is a well-formed record.
pub proof fn lemma_parsed_message_wf(text: Seq<u8>)
    requires
        free_of(text, PIPE),
        parse_message(text) is Some,
    ensures
        message_wf(parse_message(text)->0),
{
    let t = split(text, COMMA);
    let n = t.len() as int;
    lemma_split_pieces(text, COMMA);
    lemma_split_keeps_free(text, COMMA, PIPE);
    let middle = t.subrange(1, n - 6);
    assert forall|k: int| 0 <= k < middle.len() implies free_of(#[trigger] middle[k], PIPE) by {
        assert(middle[k] == t[k + 1]);
    }
    lemma_join_free(middle, COMMA, PIPE);
    assert(free_of(t[0], COMMA) && free_of(t[0], PIPE));
    assert(free_of(t[n - 3], COMMA) && free_of(t[n - 3], PIPE));
    assert(free_of(t[n - 2], COMMA) && free_of(t[n - 2], PIPE));
    assert(free_of(t[n - 1], COMMA) && free_of(t[n - 1], PIPE));
}

/// The text form of a record of texts is UTF-8 text.
pub proof fn lemma_message_text_valid(m: MessageView)
    requires
        message_is_text(m),
    ensures
        valid_utf8(message_text(m)),
{
    lemma_type_text(m.message_type);
    lemma_number_text(m.id);
    lemma_previous_text(m.previous_id);
    let f = message_fields(m);
    let tail = message_tail(m);
    assert forall|k: int| 0 <= k < f.len() implies valid_utf8(#[trigger] f[k]) by {
        if k >= 2 {
            assert(f[k] == tail[k - 2]);
        }
    }
    lemma_join_valid(f, COMMA);
}

/// Whatever a UTF-8 text reads as is a record of texts.
pub proof fn lemma_parsed_message_is_text(text: Seq<u8>)
    requires
        valid_utf8(text),
        parse_message(text) is Some,
    ensures
        message_is_text(parse_message(text)->0),
{
    let t = split(text, COMMA);
    let n = t.len() as int;
    lemma_split_valid(text, COMMA);
    let middle = t.subrange(1, n - 6);
    assert forall|k: int| 0 <= k < middle.len() implies valid_utf8(#[trigger] middle[k]) by {
        assert(middle[k] == t[k + 1]);
    }
    lemma_join_valid(middle, COMMA);
    assert(valid_utf8(t[0]));
    assert(valid_utf8(t[n - 3]));
    assert(valid_utf8(t[n - 2]));
    assert(valid_utf8(t[n - 1]));
}

/// Reads a message type.
pub fn type_from_bytes(text: &[u8]) -> (t: MessageType)
    ensures
        t == parse_type(text@),
{
    proof {
        lemma_message_words();
    }
    if is_word(text, "TEXT") {
        MessageType::Text
    } else {
        MessageType::Error
    }
}

/// Writes a message type.
pub fn type_to_bytes(t: MessageType) -> (text: Vec<u8>)
    ensures
        text@ == type_text(t),
{
    proof {
        lemma_message_words();
    }
    match t {
        MessageType::Text => ascii_bytes("TEXT"),
        MessageType::Error => ascii_bytes("error"),
    }
}

/// Reads a number that fits 32 bits, or gives `None` where the text is none.
pub fn number_from_bytes(text: &[u8]) -> (number: Option<u32>)
    ensures
        number == parse_u32(text@),
{
    match parse_decimal(text) {
        Some(n) => if n <= 0xffff_ffff {
            Some(n as u32)
        } else {
            None
        },
        None => None,
    }
}

/// A thread of messages, of which the latest is held.
#[derive(Debug)]
pub struct Message {
    name: Vec<u8>,
    message_content: Vec<u8>,
    message_type: MessageType,
    id: u32,
    previous_id: Option<u32>,
    sender: Vec<u8>,
    participant1: Vec<u8>,
    participant2: Vec<u8>,
}

impl View for Message {
    type V = MessageView;

    closed spec fn view(&self) -> MessageView {
        MessageView {
            name: self.name@,
            message_content: self.message_content@,
            message_type: self.message_type,
            id: self.id,
            previous_id: self.previous_id,
            sender: self.sender@,
            participant1: self.participant1@,
            participant2: self.participant2@,
        }
    }
}

impl Clone for Message {
    fn clone(&self) -> (copy: Message)
        ensures
            copy@ == self@,
    {
        Message {
            name: copy_bytes(self.name.as_slice()),
            message_content: copy_bytes(self.message_content.as_slice()),
            message_type: self.message_type,
            id: self.id,
            previous_id: self.previous_id,
            sender: copy_bytes(self.sender.as_slice()),
            participant1: copy_bytes(self.participant1.as_slice()),
            participant2: copy_bytes(self.participant2.as_slice()),
        }
    }
}

impl Record for Message {
    open spec fn name_of(v: MessageView) -> Seq<u8> {
        v.name
    }

    open spec fn text_of(v: MessageView) -> Seq<u8> {
        message_text(v)
    }

    open spec fn read(text: Seq<u8>) -> Option<MessageView> {
        parse_message(text)
    }

    open spec fn well_formed(v: MessageView) -> bool {
        message_wf(v)
    }

    open spec fn is_text(v: MessageView) -> bool {
        message_is_text(v)
    }

    proof fn lemma_round_trip(v: MessageView) {
        lemma_message_round_trip(v);
    }

    proof fn lemma_read_well_formed(text: Seq<u8>) {
        lemma_parsed_message_wf(text);
    }

    proof fn lemma_text_valid(v: MessageView) {
        lemma_message_text_valid(v);
    }

    proof fn lemma_read_is_text(text: Seq<u8>) {
        lemma_parsed_message_is_text(text);
    }

    fn record_name(&self) -> (name: &[u8]) {
        self.get_name()
    }

    fn encode(&self) -> (text: Vec<u8>) {
        self.to_bytes()
    }

    fn decode(text: &[u8]) -> (record: Option<Message>) {
        Message::from_bytes(text)
    }
}

impl Message {
    /// Makes the thread that `create` stores.
    pub fn new(name: Vec<u8>) -> (message: Message)
        ensures
            message@ == fresh_message(name@),
    {
        proof {
            lemma_message_words();
        }
        Message {
            name,
            message_content: ascii_bytes("Chat Created"),
            message_type: MessageType::Text,
            id: 0,
            previous_id: None,
            sender: ascii_bytes("P1"),
            participant1: Vec::new(),
            participant2: Vec::new(),
        }
    }

    /// Writes the record's text form.
    pub fn to_bytes(&self) -> (text: Vec<u8>)
        ensures
            text@ == message_text(self@),
    {
        proof {
            lemma_message_words();
        }
        let mut fields: Vec<Vec<u8>> = Vec::new();
        fields.push(copy_bytes(self.name.as_slice()));
        fields.push(copy_bytes(self.message_content.as_slice()));
        fields.push(type_to_bytes(self.message_type));
        fields.push(to_decimal(self.id as u64));
        fields.push(
            match self.previous_id {
                Some(n) => to_decimal(n as u64),
                None => ascii_bytes("-1"),
            },
        );
        fields.push(copy_bytes(self.sender.as_slice()));
        fields.push(copy_bytes(self.participant1.as_slice()));
        fields.push(copy_bytes(self.participant2.as_slice()));
        assert(rows(fields@) =~= message_fields(self@));
        join_bytes(&fields, COMMA)
    }

    /// Reads a record from its text form, or gives `None` where the text has
    /// fewer than eight fields or its number is none.
    pub fn from_bytes(text: &[u8]) -> (message: Option<Message>)
        ensures
            match parse_message(text@) {
                Some(v) => message matches Some(m) && m@ == v,
                None => message is None,
            },
    {
        let t = split_bytes(text, COMMA);
        let n = t.len();
        if n < MESSAGE_ARITY {
            return None;
        }
        let id = match number_from_bytes(t[n - 5].as_slice()) {
            Some(id) => id,
            None => {
                return None;
            },
        };
        let mut content: Vec<Vec<u8>> = Vec::new();
        let mut i: usize = 1;
        assert(rows(content@) =~= rows(t@).subrange(1, 1));
        while i < n - 6
            invariant
                n == t.len(),
                n >= 8,
                1 <= i <= n - 6,
                rows(content@) == rows(t@).subrange(1, i as int),
            decreases n - i,
        {
            let ghost done = rows(content@);
            content.push(copy_bytes(t[i].as_slice()));
            assert(rows(content@) =~= done.push(rows(t@)[i as int]));
            assert(rows(t@).subrange(1, i + 1) =~= rows(t@).subrange(1, i as int).push(
                rows(t@)[i as int],
            ));
            i = i + 1;
        }
        Some(
            Message {
                name: copy_bytes(t[0].as_slice()),
                message_content: join_bytes(&content, COMMA),
                message_type: type_from_bytes(t[n - 6].as_slice()),
                id,
                previous_id: number_from_bytes(t[n - 4].as_slice()),
                sender: copy_bytes(t[n - 3].as_slice()),
                participant1: copy_bytes(t[n - 2].as_slice()),
                participant2: copy_bytes(t[n - 1].as_slice()),
            },
        )
    }

    /// Writes the byte form of a bucket of threads.
    ///
    /// The result depends on the threads of the bucket alone, not on the
    /// order in which the bucket holds them.
    pub fn serialize_messages(messages: &Bucket<Message>) -> (text: Vec<u8>)
        requires
            messages.wf(),
        ensures
            text@ == map_text::<Message>(messages@),
    {
        messages.serialize()
    }

    /// Reads a bucket of threads from its byte form, or gives `None` where
    /// some pipe-separated piece of it is no record.
    pub fn deserialize_messages(messages_string: &[u8]) -> (messages: Option<Bucket<Message>>)
        ensures
            match parse_bucket::<Message>(messages_string@) {
                Some(m) => messages matches Some(b) && b.wf() && b@ == m && bucket_wf::<Message>(
                    m,
                ),
                None => messages is None,
            },
    {
        Bucket::deserialize(messages_string)
    }

    /// Adds a message to the thread: its content and sender take the place
    /// of the old, and the messages are counted on.
    ///
    /// Fails, and leaves the thread as it was, where the count is at its
    /// limit.
    pub fn add_message(&mut self, message_content: &[u8], sender: &[u8]) -> (done: Result<
        (),
        ApplyError,
    >)
        ensures
            match done {
                Ok(_) => old(self)@.id < u32::MAX && final(self)@ == with_message(
                    old(self)@,
                    message_content@,
                    sender@,
                ),
                Err(e) => old(self)@.id == u32::MAX && final(self)@ == old(self)@ && e
                    == ApplyError::InvalidTransaction(Rejection::ThreadFull),
            },
    {
        if self.id == 0xffff_ffff {
            return Err(ApplyError::InvalidTransaction(Rejection::ThreadFull));
        }
        self.message_content = copy_bytes(message_content);
        self.sender = copy_bytes(sender);
        self.previous_id = Some(self.id);
        self.id = self.id + 1;
        Ok(())
    }

    /// The thread's name.
    pub fn get_name(&self) -> (name: &[u8])
        ensures
            name@ == self@.name,
    {
        self.name.as_slice()
    }

    /// The content of the latest message.
    pub fn get_message_content(&self) -> (content: &[u8])
        ensures
            content@ == self@.message_content,
    {
        self.message_content.as_slice()
    }

    /// The kind of the latest message.
    pub fn get_message_type(&self) -> (t: MessageType)
        ensures
            t == self@.message_type,
    {
        self.message_type
    }

    /// The number of the latest message.
    pub fn get_id(&self) -> (id: u32)
        ensures
            id == self@.id,
    {
        self.id
    }

    /// The number of the message before the latest, if there was one.
    pub fn get_previous_id(&self) -> (previous: Option<u32>)
        ensures
            previous == self@.previous_id,
    {
        self.previous_id
    }

    /// Who sent the latest message.
    pub fn get_sender(&self) -> (sender: &[u8])
        ensures
            sender@ == self@.sender,
    {
        self.sender.as_slice()
    }

    /// The first participant, or empty where there is none yet.
    pub fn get_participant1(&self) -> (p1: &[u8])
        ensures
            p1@ == self@.participant1,
    {
        self.participant1.as_slice()
    }

    /// The second participant, or empty where there is none yet.
    pub fn get_participant2(&self) -> (p2: &[u8])
        ensures
            p2@ == self@.participant2,
    {
        self.participant2.as_slice()
    }

    /// Records the first participant.
    pub fn set_participant1(&mut self, p1: &[u8])
        ensures
            final(self)@ == (MessageView { participant1: p1@, ..old(self)@ }),
    {
        self.participant1 = copy_bytes(p1);
    }

    /// Records the second participant.
    pub fn set_participant2(&mut self, p2: &[u8])
        ensures
            final(self)@ == (MessageView { participant2: p2@, ..old(self)@ }),
    {
        self.participant2 = copy_bytes(p2);
    }

    /// Sets the number of the message before the latest to what `prev_id`
    /// reads as, or to none where it is no number.
    pub fn set_previous_id(&mut self, prev_id: &[u8])
        ensures
            final(self)@ == (MessageView { previous_id: parse_u32(prev_id@), ..old(self)@ }),
    {
        self.previous_id = number_from_bytes(prev_id);
    }
}

} // verus!
