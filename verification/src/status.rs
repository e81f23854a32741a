//! The status record: a vessel call tracked from announcement to departure.
//!
//! A record has an exact text form of fifteen comma-separated fields, the last
//! of which is free text and may itself hold commas.

use vstd::prelude::*;
use crate::bytes::{
    all_free_of, append_bytes, ascii, ascii_bytes, bytes_eq, copy_bytes, free_of, is_word, join,
    join_bytes, join_from, lemma_join_free, lemma_join_split, lemma_split_at_delimiter,
    lemma_split_join, lemma_split_keeps_free, lemma_split_pieces, rows, split, split_bytes, COMMA,
    PIPE, SEMICOLON,
};
use crate::decimal::{
    digits, is_digit, lemma_digits, lemma_digits_free, lemma_parse_digits, parse_decimal,
    parse_u64, to_decimal,
};
use crate::bucket::{bucket_wf, map_text, parse_bucket, Bucket};
use crate::error::{ApplyError, Rejection};
use crate::record::Record;
use crate::utf8::{all_ascii, lemma_ascii_valid, lemma_join_valid, lemma_split_valid};
use vstd::utf8::valid_utf8;

verus! {

/// Number of fields in a record's text form.
pub const STATUS_ARITY: usize = 15;

/// Number of fields in an update.
pub const UPDATE_ARITY: usize = 11;

/// What a vessel does at the berth.
#[derive(Clone, Copy, Debug, PartialEq, Eq, Structural)]
pub enum DockingType {
    Loading,
    Discharge,
    /// Not stated, or stated as anything but the two above.
    Error,
}

/// The text of a docking type.
pub open spec fn docking_text(d: DockingType) -> Seq<u8> {
    match d {
        DockingType::Loading => ascii("LOADING"@),
        DockingType::Discharge => ascii("DISCHARGE"@),
        DockingType::Error => ascii("error"@),
    }
}

/// The docking type that a text stands for.
pub open spec fn parse_docking(text: Seq<u8>) -> DockingType {
    if text == ascii("LOADING"@) {
        DockingType::Loading
    } else if text == ascii("DISCHARGE"@) {
        DockingType::Discharge
    } else {
        DockingType::Error
    }
}

/// The text of an optional time in milliseconds: decimal, or `none`.
pub open spec fn millis_text(v: Option<u64>) -> Seq<u8> {
    match v {
        Some(n) => digits(n as nat),
        None => ascii("none"@),
    }
}

/// The text of an optional flag: `true`, `false` or `none`.
pub open spec fn flag_text(v: Option<bool>) -> Seq<u8> {
    match v {
        Some(true) => ascii("true"@),
        Some(false) => ascii("false"@),
        None => ascii("none"@),
    }
}

/// The flag that a text stands for.
pub open spec fn parse_flag(text: Seq<u8>) -> Option<bool> {
    if text == ascii("true"@) {
        Some(true)
    } else if text == ascii("false"@) {
        Some(false)
    } else {
        None
    }
}

/// Abstract value of a [`Status`].
pub struct StatusView {
    pub name: Seq<u8>,
    pub sender: Seq<u8>,
    pub participant1: Seq<u8>,
    pub participant2: Seq<u8>,
    pub docking_type: DockingType,
    pub eta: Option<u64>,
    pub etb: Option<u64>,
    pub ata: Option<u64>,
    pub eto: Option<u64>,
    pub ato: Option<u64>,
    pub etc: Option<u64>,
    pub etd: Option<u64>,
    pub is_bunkering: Option<bool>,
    pub bunkering_time: Option<u64>,
    pub logs: Seq<u8>,
}

/// The record that `create` makes: nothing known but the name.
pub open spec fn fresh_status(name: Seq<u8>) -> StatusView {
    StatusView {
        name,
        sender: ascii("P1"@),
        participant1: Seq::empty(),
        participant2: Seq::empty(),
        docking_type: DockingType::Error,
        eta: None,
        etb: None,
        ata: None,
        eto: None,
        ato: None,
        etc: None,
        etd: None,
        is_bunkering: None,
        bunkering_time: None,
        logs: Seq::empty(),
    }
}

/// The fifteen fields of a record's text form, in order.
pub open spec fn status_fields(s: StatusView) -> Seq<Seq<u8>> {
    seq![
        s.name,
        s.sender,
        s.participant1,
        s.participant2,
        docking_text(s.docking_type),
        millis_text(s.eta),
        millis_text(s.etb),
        millis_text(s.ata),
        millis_text(s.eto),
        millis_text(s.ato),
        millis_text(s.etc),
        millis_text(s.etd),
        flag_text(s.is_bunkering),
        millis_text(s.bunkering_time),
        s.logs,
    ]
}

/// The text form of a record: its fields joined by commas.
pub open spec fn status_text(s: StatusView) -> Seq<u8> {
    join(status_fields(s), COMMA)
}

/// The record that a text stands for. The first fourteen comma-separated
/// fields are taken as they are; all that follows the fourteenth comma is the
/// log. A text with fewer than fifteen fields stands for no record.
pub open spec fn parse_status(text: Seq<u8>) -> Option<StatusView> {
    let t = split(text, COMMA);
    if t.len() < 15 {
        None
    } else {
        Some(
            StatusView {
                name: t[0],
                sender: t[1],
                participant1: t[2],
                participant2: t[3],
                docking_type: parse_docking(t[4]),
                eta: parse_u64(t[5]),
                etb: parse_u64(t[6]),
                ata: parse_u64(t[7]),
                eto: parse_u64(t[8]),
                ato: parse_u64(t[9]),
                etc: parse_u64(t[10]),
                etd: parse_u64(t[11]),
                is_bunkering: parse_flag(t[12]),
                bunkering_time: parse_u64(t[13]),
                logs: join(t.skip(14), COMMA),
            },
        )
    }
}

/// A record whose text form can be read back: no comma in the four leading
/// text fields, and no pipe anywhere.
pub open spec fn status_wf(s: StatusView) -> bool {
    &&& free_of(s.name, COMMA)
    &&& free_of(s.name, PIPE)
    &&& free_of(s.sender, COMMA)
    &&& free_of(s.sender, PIPE)
    &&& free_of(s.participant1, COMMA)
    &&& free_of(s.participant1, PIPE)
    &&& free_of(s.participant2, COMMA)
    &&& free_of(s.participant2, PIPE)
    &&& free_of(s.logs, PIPE)
}

/// What an update makes of a time: an empty field keeps it, any other field
/// replaces it with what the field reads as.
pub open spec fn update_millis(current: Option<u64>, field: Seq<u8>) -> Option<u64> {
    if field.len() == 0 {
        current
    } else {
        parse_u64(field)
    }
}

/// What an update makes of a flag: an empty field keeps it, any other field
/// replaces it with what the field reads as.
pub open spec fn update_flag(current: Option<bool>, field: Seq<u8>) -> Option<bool> {
    if field.len() == 0 {
        current
    } else {
        parse_flag(field)
    }
}

/// What an update makes of the log: an empty entry keeps it, any other entry
/// is appended after a semicolon.
pub open spec fn append_log(logs: Seq<u8>, entry: Seq<u8>) -> Seq<u8> {
    if entry.len() == 0 {
        logs
    } else {
        logs.push(SEMICOLON) + entry
    }
}

/// The record after an update. The update's first ten comma-separated fields
/// are the docking type, seven times, the bunkering flag and the bunkering
/// time; all that follows the tenth comma is a log entry. Identity and
/// participants stay.
pub open spec fn updated_status(s: StatusView, update: Seq<u8>) -> StatusView {
    let t = split(update, COMMA);
    StatusView {
        docking_type: parse_docking(t[0]),
        eta: update_millis(s.eta, t[1]),
        etb: update_millis(s.etb, t[2]),
        ata: update_millis(s.ata, t[3]),
        eto: update_millis(s.eto, t[4]),
        ato: update_millis(s.ato, t[5]),
        etc: update_millis(s.etc, t[6]),
        etd: update_millis(s.etd, t[7]),
        is_bunkering: update_flag(s.is_bunkering, t[8]),
        bunkering_time: update_millis(s.bunkering_time, t[9]),
        logs: append_log(s.logs, join(t.skip(10), COMMA)),
        ..s
    }
}

/// What the words of the text form are made of.
pub proof fn lemma_words()
    ensures
        ascii("none"@) == seq![110u8, 111u8, 110u8, 101u8],
        ascii("true"@) == seq![116u8, 114u8, 117u8, 101u8],
        ascii("false"@) == seq![102u8, 97u8, 108u8, 115u8, 101u8],
        ascii("error"@) == seq![101u8, 114u8, 114u8, 111u8, 114u8],
        ascii("LOADING"@) == seq![76u8, 79u8, 65u8, 68u8, 73u8, 78u8, 71u8],
        ascii("DISCHARGE"@) == seq![68u8, 73u8, 83u8, 67u8, 72u8, 65u8, 82u8, 71u8, 69u8],
        ascii("P1"@) == seq![80u8, 49u8],
        vstd::string::is_ascii("none"),
        vstd::string::is_ascii("true"),
        vstd::string::is_ascii("false"),
        vstd::string::is_ascii("error"),
        vstd::string::is_ascii("LOADING"),
        vstd::string::is_ascii("DISCHARGE"),
        vstd::string::is_ascii("P1"),
{
    reveal_strlit("none");
    reveal_strlit("true");
    reveal_strlit("false");
    reveal_strlit("error");
    reveal_strlit("LOADING");
    reveal_strlit("DISCHARGE");
    reveal_strlit("P1");
    assert(ascii("none"@) =~= seq![110u8, 111u8, 110u8, 101u8]);
    assert(ascii("true"@) =~= seq![116u8, 114u8, 117u8, 101u8]);
    assert(ascii("false"@) =~= seq![102u8, 97u8, 108u8, 115u8, 101u8]);
    assert(ascii("error"@) =~= seq![101u8, 114u8, 114u8, 111u8, 114u8]);
    assert(ascii("LOADING"@) =~= seq![76u8, 79u8, 65u8, 68u8, 73u8, 78u8, 71u8]);
    assert(ascii("DISCHARGE"@) =~= seq![68u8, 73u8, 83u8, 67u8, 72u8, 65u8, 82u8, 71u8, 69u8]);
    assert(ascii("P1"@) =~= seq![80u8, 49u8]);
}

/// The text of a docking type holds no delimiter and reads back.
pub proof fn lemma_docking_text(d: DockingType)
    ensures
        free_of(docking_text(d), COMMA),
        free_of(docking_text(d), PIPE),
        parse_docking(docking_text(d)) == d,
{
    lemma_words();
    assert(ascii("LOADING"@).len() == 7);
    assert(ascii("DISCHARGE"@).len() == 9);
    assert(ascii("error"@).len() == 5);
}

/// The text of an optional time holds no delimiter and reads back.
pub proof fn lemma_millis_text(v: Option<u64>)
    ensures
        free_of(millis_text(v), COMMA),
        free_of(millis_text(v), PIPE),
        parse_u64(millis_text(v)) == v,
{
    lemma_words();
    match v {
        Some(n) => {
            lemma_digits(n as nat);
            lemma_parse_digits(n);
            lemma_digits_free(digits(n as nat), COMMA);
            lemma_digits_free(digits(n as nat), PIPE);
        },
        None => {
            let w = ascii("none"@);
            assert(w[0] == 110u8);
            assert(!is_digit(w[0]));
        },
    }
}

/// The text of an optional flag holds no delimiter and reads back.
pub proof fn lemma_flag_text(v: Option<bool>)
    ensures
        free_of(flag_text(v), COMMA),
        free_of(flag_text(v), PIPE),
        parse_flag(flag_text(v)) == v,
{
    lemma_words();
    assert(ascii("true"@).len() == 4);
    assert(ascii("false"@).len() == 5);
    assert(ascii("none"@)[0] == 110u8);
    assert(ascii("true"@)[0] == 116u8);
}

/// The fourteen leading fields of a well-formed record hold no comma, and no
/// field holds a pipe.
proof fn lemma_fields_free(s: StatusView)
    requires
        status_wf(s),
    ensures
        all_free_of(status_fields(s).take(14), COMMA),
        all_free_of(status_fields(s), PIPE),
{
    lemma_docking_text(s.docking_type);
    lemma_millis_text(s.eta);
    lemma_millis_text(s.etb);
    lemma_millis_text(s.ata);
    lemma_millis_text(s.eto);
    lemma_millis_text(s.ato);
    lemma_millis_text(s.etc);
    lemma_millis_text(s.etd);
    lemma_flag_text(s.is_bunkering);
    lemma_millis_text(s.bunkering_time);
    let f = status_fields(s);
    assert forall|k: int| 0 <= k < f.take(14).len() implies free_of(
        #[trigger] f.take(14)[k],
        COMMA,
    ) by {
        assert(f.take(14)[k] == f[k]);
    }
    assert forall|k: int| 0 <= k < f.len() implies free_of(#[trigger] f[k], PIPE) by {}
}

/// Reading the text form of a well-formed record gives the record back, and
/// the text form holds no pipe.
pub proof fn lemma_status_round_trip(s: StatusView)
    requires
        status_wf(s),
    ensures
        parse_status(status_text(s)) == Some(s),
        free_of(status_text(s), PIPE),
{
    let f = status_fields(s);
    let head = f.take(14);
    lemma_fields_free(s);
    lemma_join_free(f, COMMA, PIPE);
    assert(f.drop_last() =~= head);
    assert(status_text(s) == join(head, COMMA).push(COMMA) + s.logs);
    lemma_split_at_delimiter(join(head, COMMA), s.logs, COMMA);
    lemma_split_join(head, COMMA);
    lemma_split_pieces(s.logs, COMMA);
    lemma_join_split(s.logs, COMMA);
    let t = split(status_text(s), COMMA);
    assert(t == head + split(s.logs, COMMA));
    assert(t.skip(14) =~= split(s.logs, COMMA));
    assert forall|k: int| 0 <= k < 14 implies t[k] == f[k] by {
        assert(t[k] == head[k]);
    }
    lemma_docking_text(s.docking_type);
    lemma_millis_text(s.eta);
    lemma_millis_text(s.etb);
    lemma_millis_text(s.ata);
    lemma_millis_text(s.eto);
    lemma_millis_text(s.ato);
    lemma_millis_text(s.etc);
    lemma_millis_text(s.etd);
    lemma_flag_text(s.is_bunkering);
    lemma_millis_text(s.bunkering_time);
    assert(t[0] == f[0]);
    assert(t[4] == f[4]);
    assert(t[5] == f[5]);
    assert(t[13] == f[13]);
}

/// Whatever a pipe-free text reads as is a well-formed record.
pub proof fn lemma_parsed_status_wf(text: Seq<u8>)
    requires
        free_of(text, PIPE),
        parse_status(text) is Some,
    ensures
        status_wf(parse_status(text)->0),
{
    let t = split(text, COMMA);
    lemma_split_pieces(text, COMMA);
    lemma_split_keeps_free(text, COMMA, PIPE);
    let tail = t.skip(14);
    assert forall|k: int| 0 <= k < tail.len() implies free_of(#[trigger] tail[k], PIPE) by {
        assert(tail[k] == t[k + 14]);
    }
    lemma_join_free(tail, COMMA, PIPE);
    assert(free_of(t[0], COMMA) && free_of(t[0], PIPE));
    assert(free_of(t[1], COMMA) && free_of(t[1], PIPE));
    assert(free_of(t[2], COMMA) && free_of(t[2], PIPE));
    assert(free_of(t[3], COMMA) && free_of(t[3], PIPE));
}

/// A record whose five text fields are UTF-8 text.
pub open spec fn status_is_text(s: StatusView) -> bool {
    &&& valid_utf8(s.name)
    &&& valid_utf8(s.sender)
    &&& valid_utf8(s.participant1)
    &&& valid_utf8(s.participant2)
    &&& valid_utf8(s.logs)
}

/// The text of an optional time is UTF-8 text.
proof fn lemma_millis_text_valid(v: Option<u64>)
    ensures
        valid_utf8(millis_text(v)),
{
    lemma_words();
    match v {
        Some(n) => {
            lemma_digits(n as nat);
            let d = digits(n as nat);
            assert forall|i: int| 0 <= i < d.len() implies #[trigger] d[i] < 128 by {
                assert(is_digit(d[i]));
            }
            lemma_ascii_valid(d);
        },
        None => {
            lemma_ascii_valid(ascii("none"@));
        },
    }
}

/// The text form of a record of texts is UTF-8 text.
pub proof fn lemma_status_text_valid(s: StatusView)
    requires
        status_is_text(s),
    ensures
        valid_utf8(status_text(s)),
{
    lemma_words();
    lemma_ascii_valid(ascii("LOADING"@));
    lemma_ascii_valid(ascii("DISCHARGE"@));
    lemma_ascii_valid(ascii("error"@));
    lemma_ascii_valid(ascii("none"@));
    lemma_ascii_valid(ascii("true"@));
    lemma_ascii_valid(ascii("false"@));
    lemma_millis_text_valid(s.eta);
    lemma_millis_text_valid(s.etb);
    lemma_millis_text_valid(s.ata);
    lemma_millis_text_valid(s.eto);
    lemma_millis_text_valid(s.ato);
    lemma_millis_text_valid(s.etc);
    lemma_millis_text_valid(s.etd);
    lemma_millis_text_valid(s.bunkering_time);
    let f = status_fields(s);
    assert forall|k: int| 0 <= k < f.len() implies valid_utf8(#[trigger] f[k]) by {}
    lemma_join_valid(f, COMMA);
}

/// Whatever a UTF-8 text reads as is a record of texts.
pub proof fn lemma_parsed_status_is_text(text: Seq<u8>)
    requires
        valid_utf8(text),
        parse_status(text) is Some,
    ensures
        status_is_text(parse_status(text)->0),
{
    let t = split(text, COMMA);
    lemma_split_valid(text, COMMA);
    let tail = t.skip(14);
    assert forall|k: int| 0 <= k < tail.len() implies valid_utf8(#[trigger] tail[k]) by {
        assert(tail[k] == t[k + 14]);
    }
    lemma_join_valid(tail, COMMA);
    assert(valid_utf8(t[0]));
    assert(valid_utf8(t[1]));
    assert(valid_utf8(t[2]));
    assert(valid_utf8(t[3]));
}

/// A record that nothing is known of but its name is well-formed and text
/// where its name is.
pub proof fn lemma_fresh_status(name: Seq<u8>)
    requires
        free_of(name, COMMA),
        free_of(name, PIPE),
        valid_utf8(name),
    ensures
        status_wf(fresh_status(name)),
        status_is_text(fresh_status(name)),
{
    lemma_words();
    lemma_ascii_valid(ascii("P1"@));
    lemma_ascii_valid(Seq::<u8>::empty());
}

/// An update without a pipe keeps a record well-formed, and an update that is
/// text keeps a record of text a record of text.
pub proof fn lemma_updated_status(s: StatusView, update: Seq<u8>)
    requires
        split(update, COMMA).len() >= 11,
    ensures
        status_wf(s) && free_of(update, PIPE) ==> status_wf(updated_status(s, update)),
        status_is_text(s) && valid_utf8(update) ==> status_is_text(updated_status(s, update)),
{
    let t = split(update, COMMA);
    let tail = t.skip(10);
    let entry = join(tail, COMMA);
    if status_wf(s) && free_of(update, PIPE) {
        lemma_split_keeps_free(update, COMMA, PIPE);
        assert forall|k: int| 0 <= k < tail.len() implies free_of(#[trigger] tail[k], PIPE) by {
            assert(tail[k] == t[k + 10]);
        }
        lemma_join_free(tail, COMMA, PIPE);
        assert(free_of(append_log(s.logs, entry), PIPE));
    }
    if status_is_text(s) && valid_utf8(update) {
        lemma_split_valid(update, COMMA);
        assert forall|k: int| 0 <= k < tail.len() implies valid_utf8(#[trigger] tail[k]) by {
            assert(tail[k] == t[k + 10]);
        }
        lemma_join_valid(tail, COMMA);
        assert(all_ascii(seq![SEMICOLON]));
        lemma_ascii_valid(seq![SEMICOLON]);
        vstd::utf8::valid_utf8_concat(s.logs, seq![SEMICOLON]);
        assert(s.logs + seq![SEMICOLON] =~= s.logs.push(SEMICOLON));
        vstd::utf8::valid_utf8_concat(s.logs.push(SEMICOLON), entry);
    }
}

/// Reads a docking type.
pub fn docking_from_bytes(text: &[u8]) -> (d: DockingType)
    ensures
        d == parse_docking(text@),
{
    proof {
        lemma_words();
    }
    if is_word(text, "LOADING") {
        DockingType::Loading
    } else if is_word(text, "DISCHARGE") {
        DockingType::Discharge
    } else {
        DockingType::Error
    }
}

/// Writes a docking type.
pub fn docking_to_bytes(d: DockingType) -> (text: Vec<u8>)
    ensures
        text@ == docking_text(d),
{
    proof {
        lemma_words();
    }
    match d {
        DockingType::Loading => ascii_bytes("LOADING"),
        DockingType::Discharge => ascii_bytes("DISCHARGE"),
        DockingType::Error => ascii_bytes("error"),
    }
}

/// Reads an optional flag.
pub fn flag_from_bytes(text: &[u8]) -> (flag: Option<bool>)
    ensures
        flag == parse_flag(text@),
{
    proof {
        lemma_words();
    }
    if is_word(text, "true") {
        Some(true)
    } else if is_word(text, "false") {
        Some(false)
    } else {
        None
    }
}

/// Writes an optional flag.
pub fn flag_to_bytes(flag: Option<bool>) -> (text: Vec<u8>)
    ensures
        text@ == flag_text(flag),
{
    proof {
        lemma_words();
    }
    match flag {
        Some(true) => ascii_bytes("true"),
        Some(false) => ascii_bytes("false"),
        None => ascii_bytes("none"),
    }
}

/// Writes an optional time in milliseconds.
pub fn millis_to_bytes(millis: Option<u64>) -> (text: Vec<u8>)
    ensures
        text@ == millis_text(millis),
{
    proof {
        lemma_words();
    }
    match millis {
        Some(n) => to_decimal(n),
        None => ascii_bytes("none"),
    }
}

/// A status record.
#[derive(Debug)]
pub struct Status {
    name: Vec<u8>,
    sender: Vec<u8>,
    participant1: Vec<u8>,
    participant2: Vec<u8>,
    docking_type: DockingType,
    eta: Option<u64>,
    etb: Option<u64>,
    ata: Option<u64>,
    eto: Option<u64>,
    ato: Option<u64>,
    etc: Option<u64>,
    etd: Option<u64>,
    is_bunkering: Option<bool>,
    bunkering_time: Option<u64>,
    logs: Vec<u8>,
}

impl View for Status {
    type V = StatusView;

    closed spec fn view(&self) -> StatusView {
        StatusView {
            name: self.name@,
            sender: self.sender@,
            participant1: self.participant1@,
            participant2: self.participant2@,
            docking_type: self.docking_type,
            eta: self.eta,
            etb: self.etb,
            ata: self.ata,
            eto: self.eto,
            ato: self.ato,
            etc: self.etc,
            etd: self.etd,
            is_bunkering: self.is_bunkering,
            bunkering_time: self.bunkering_time,
            logs: self.logs@,
        }
    }
}

impl Record for Status {
    open spec fn name_of(v: StatusView) -> Seq<u8> {
        v.name
    }

    open spec fn text_of(v: StatusView) -> Seq<u8> {
        status_text(v)
    }

    open spec fn read(text: Seq<u8>) -> Option<StatusView> {
        parse_status(text)
    }

    open spec fn well_formed(v: StatusView) -> bool {
        status_wf(v)
    }

    open spec fn is_text(v: StatusView) -> bool {
        status_is_text(v)
    }

    proof fn lemma_round_trip(v: StatusView) {
        lemma_status_round_trip(v);
    }

    proof fn lemma_read_well_formed(text: Seq<u8>) {
        lemma_parsed_status_wf(text);
    }

    proof fn lemma_text_valid(v: StatusView) {
        lemma_status_text_valid(v);
    }

    proof fn lemma_read_is_text(text: Seq<u8>) {
        lemma_parsed_status_is_text(text);
    }

    fn record_name(&self) -> (name: &[u8]) {
        self.get_name()
    }

    fn encode(&self) -> (text: Vec<u8>) {
        self.to_bytes()
    }

    fn decode(text: &[u8]) -> (record: Option<Status>) {
        Status::from_bytes(text)
    }
}

/// The abstract value of a record that may be absent.
pub open spec fn view_of(status: Option<Status>) -> Option<StatusView> {
    match status {
        Some(s) => Some(s@),
        None => None,
    }
}

impl Clone for Status {
    fn clone(&self) -> (copy: Status)
        ensures
            copy@ == self@,
    {
        Status {
            name: copy_bytes(self.name.as_slice()),
            sender: copy_bytes(self.sender.as_slice()),
            participant1: copy_bytes(self.participant1.as_slice()),
            participant2: copy_bytes(self.participant2.as_slice()),
            docking_type: self.docking_type,
            eta: self.eta,
            etb: self.etb,
            ata: self.ata,
            eto: self.eto,
            ato: self.ato,
            etc: self.etc,
            etd: self.etd,
            is_bunkering: self.is_bunkering,
            bunkering_time: self.bunkering_time,
            logs: copy_bytes(self.logs.as_slice()),
        }
    }
}

impl Status {
    /// Makes the record that `create` stores: nothing known but the name.
    pub fn new(name: Vec<u8>) -> (status: Status)
        ensures
            status@ == fresh_status(name@),
    {
        proof {
            lemma_words();
        }
        Status {
            name,
            sender: ascii_bytes("P1"),
            participant1: Vec::new(),
            participant2: Vec::new(),
            docking_type: DockingType::Error,
            eta: None,
            etb: None,
            ata: None,
            eto: None,
            ato: None,
            etc: None,
            etd: None,
            is_bunkering: None,
            bunkering_time: None,
            logs: Vec::new(),
        }
    }

    /// Writes the record's text form.
    pub fn to_bytes(&self) -> (text: Vec<u8>)
        ensures
            text@ == status_text(self@),
    {
        let mut fields: Vec<Vec<u8>> = Vec::new();
        fields.push(copy_bytes(self.name.as_slice()));
        fields.push(copy_bytes(self.sender.as_slice()));
        fields.push(copy_bytes(self.participant1.as_slice()));
        fields.push(copy_bytes(self.participant2.as_slice()));
        fields.push(docking_to_bytes(self.docking_type));
        fields.push(millis_to_bytes(self.eta));
        fields.push(millis_to_bytes(self.etb));
        fields.push(millis_to_bytes(self.ata));
        fields.push(millis_to_bytes(self.eto));
        fields.push(millis_to_bytes(self.ato));
        fields.push(millis_to_bytes(self.etc));
        fields.push(millis_to_bytes(self.etd));
        fields.push(flag_to_bytes(self.is_bunkering));
        fields.push(millis_to_bytes(self.bunkering_time));
        fields.push(copy_bytes(self.logs.as_slice()));
        assert(rows(fields@) =~= status_fields(self@));
        join_bytes(&fields, COMMA)
    }

    /// Reads a record from its text form, or gives `None` where the text has
    /// fewer than fifteen fields.
    pub fn from_bytes(text: &[u8]) -> (status: Option<Status>)
        ensures
            match parse_status(text@) {
                Some(v) => status matches Some(s) && s@ == v,
                None => status is None,
            },
    {
        let t = split_bytes(text, COMMA);
        if t.len() < STATUS_ARITY {
            return None;
        }
        Some(
            Status {
                name: copy_bytes(t[0].as_slice()),
                sender: copy_bytes(t[1].as_slice()),
                participant1: copy_bytes(t[2].as_slice()),
                participant2: copy_bytes(t[3].as_slice()),
                docking_type: docking_from_bytes(t[4].as_slice()),
                eta: parse_decimal(t[5].as_slice()),
                etb: parse_decimal(t[6].as_slice()),
                ata: parse_decimal(t[7].as_slice()),
                eto: parse_decimal(t[8].as_slice()),
                ato: parse_decimal(t[9].as_slice()),
                etc: parse_decimal(t[10].as_slice()),
                etd: parse_decimal(t[11].as_slice()),
                is_bunkering: flag_from_bytes(t[12].as_slice()),
                bunkering_time: parse_decimal(t[13].as_slice()),
                logs: join_from(&t, 14, COMMA),
            },
        )
    }

    /// Applies an update sent by `sender`.
    ///
    /// Only the record's first participant may update it, and the update must
    /// have at least eleven comma-separated fields. Otherwise the record is
    /// left as it was.
    pub fn update_status(&mut self, status_string: &[u8], sender: &[u8]) -> (done: Result<
        (),
        ApplyError,
    >)
        ensures
            match done {
                Ok(_) => {
                    &&& sender@ == old(self)@.participant1
                    &&& split(status_string@, COMMA).len() >= 11
                    &&& final(self)@ == updated_status(old(self)@, status_string@)
                },
                Err(e) => {
                    &&& final(self)@ == old(self)@
                    &&& if sender@ != old(self)@.participant1 {
                        e == ApplyError::InvalidTransaction(Rejection::WrongSigner)
                    } else {
                        &&& split(status_string@, COMMA).len() < 11
                        &&& e == ApplyError::InvalidTransaction(Rejection::UpdateArity)
                    }
                },
            },
    {
        if !bytes_eq(sender, self.participant1.as_slice()) {
            return Err(ApplyError::InvalidTransaction(Rejection::WrongSigner));
        }
        let t = split_bytes(status_string, COMMA);
        if t.len() < UPDATE_ARITY {
            return Err(ApplyError::InvalidTransaction(Rejection::UpdateArity));
        }
        self.docking_type = docking_from_bytes(t[0].as_slice());
        if t[1].len() > 0 {
            self.eta = parse_decimal(t[1].as_slice());
        }
        if t[2].len() > 0 {
            self.etb = parse_decimal(t[2].as_slice());
        }
        if t[3].len() > 0 {
            self.ata = parse_decimal(t[3].as_slice());
        }
        if t[4].len() > 0 {
            self.eto = parse_decimal(t[4].as_slice());
        }
        if t[5].len() > 0 {
            self.ato = parse_decimal(t[5].as_slice());
        }
        if t[6].len() > 0 {
            self.etc = parse_decimal(t[6].as_slice());
        }
        if t[7].len() > 0 {
            self.etd = parse_decimal(t[7].as_slice());
        }
        if t[8].len() > 0 {
            self.is_bunkering = flag_from_bytes(t[8].as_slice());
        }
        if t[9].len() > 0 {
            self.bunkering_time = parse_decimal(t[9].as_slice());
        }
        let entry = join_from(&t, 10, COMMA);
        if entry.len() > 0 {
            self.logs.push(SEMICOLON);
            append_bytes(&mut self.logs, entry.as_slice());
        }
        Ok(())
    }

    /// The record's name.
    pub fn get_name(&self) -> (name: &[u8])
        ensures
            name@ == self@.name,
    {
        self.name.as_slice()
    }

    /// Who sent the record's latest content.
    pub fn get_sender(&self) -> (sender: &[u8])
        ensures
            sender@ == self@.sender,
    {
        self.sender.as_slice()
    }

    /// The first participant, or empty where there is none yet.
    pub fn get_participant1(&self) -> (p1: &[u8])
        ensures
            p1@ == self@.participant1,
    {
        self.participant1.as_slice()
    }

    /// The second participant, or empty where there is none yet.
    pub fn get_participant2(&self) -> (p2: &[u8])
        ensures
            p2@ == self@.participant2,
    {
        self.participant2.as_slice()
    }

    /// What the vessel does at the berth.
    pub fn get_docking_type(&self) -> (d: DockingType)
        ensures
            d == self@.docking_type,
    {
        self.docking_type
    }

    /// Estimated time of arrival, in milliseconds, where it is known.
    pub fn get_eta(&self) -> (millis: Option<u64>)
        ensures
            millis == self@.eta,
    {
        self.eta
    }

    /// Estimated time of berthing, in milliseconds, where it is known.
    pub fn get_etb(&self) -> (millis: Option<u64>)
        ensures
            millis == self@.etb,
    {
        self.etb
    }

    /// Actual time of arrival, in milliseconds, where it is known.
    pub fn get_ata(&self) -> (millis: Option<u64>)
        ensures
            millis == self@.ata,
    {
        self.ata
    }

    /// Estimated start of operations, in milliseconds, where it is known.
    pub fn get_eto(&self) -> (millis: Option<u64>)
        ensures
            millis == self@.eto,
    {
        self.eto
    }

    /// Actual start of operations, in milliseconds, where it is known.
    pub fn get_ato(&self) -> (millis: Option<u64>)
        ensures
            millis == self@.ato,
    {
        self.ato
    }

    /// Estimated time of completion, in milliseconds, where it is known.
    pub fn get_etc(&self) -> (millis: Option<u64>)
        ensures
            millis == self@.etc,
    {
        self.etc
    }

    /// Estimated time of departure, in milliseconds, where it is known.
    pub fn get_etd(&self) -> (millis: Option<u64>)
        ensures
            millis == self@.etd,
    {
        self.etd
    }

    /// Whether the vessel takes on fuel, where that is known.
    pub fn get_is_bunkering(&self) -> (flag: Option<bool>)
        ensures
            flag == self@.is_bunkering,
    {
        self.is_bunkering
    }

    /// How long bunkering takes, where that is known.
    pub fn get_bunkering_time(&self) -> (millis: Option<u64>)
        ensures
            millis == self@.bunkering_time,
    {
        self.bunkering_time
    }

    /// The log: entries in the order in which they were appended.
    pub fn get_logs(&self) -> (logs: &[u8])
        ensures
            logs@ == self@.logs,
    {
        self.logs.as_slice()
    }

    /// Records the first participant.
    pub fn set_participant1(&mut self, p1: &[u8])
        ensures
            final(self)@ == (StatusView { participant1: p1@, ..old(self)@ }),
    {
        self.participant1 = copy_bytes(p1);
    }

    /// Records the second participant.
    pub fn set_participant2(&mut self, p2: &[u8])
        ensures
            final(self)@ == (StatusView { participant2: p2@, ..old(self)@ }),
    {
        self.participant2 = copy_bytes(p2);
    }

    /// Writes the byte form of a bucket.
    ///
    /// The result depends on the records of the bucket alone, not on the order
    /// in which the bucket holds them.
    pub fn serialize_statuses(statuses: &Bucket<Status>) -> (text: Vec<u8>)
        requires
            statuses.wf(),
        ensures
            text@ == map_text::<Status>(statuses@),
    {
        statuses.serialize()
    }

    /// Reads a bucket from its byte form, or gives `None` where some
    /// pipe-separated piece of it is no record.
    pub fn deserialize_statuses(status_strings: &[u8]) -> (statuses: Option<Bucket<Status>>)
        ensures
            match parse_bucket::<Status>(status_strings@) {
                Some(m) => statuses matches Some(b) && b.wf() && b@ == m && bucket_wf::<Status>(m),
                None => statuses is None,
            },
    {
        Bucket::deserialize(status_strings)
    }

    /// Reads a time in milliseconds from a field, or gives `None` where the
    /// field is no number.
    pub fn get_duration_from_string(&self, field_string: &[u8]) -> (millis: Option<u64>)
        ensures
            millis == parse_u64(field_string@),
    {
        parse_decimal(field_string)
    }
}

} // verus!
