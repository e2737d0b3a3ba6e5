//! The row model (messages, date separators, service events), the metadata
//! ledger that mirrors it, and the mathematical description of how a run of
//! messages is laid out as rows.

use vstd::prelude::*;
use chrono::{Datelike, TimeZone};

verus! {

/// A calendar date in the local time zone.
#[derive(Clone, Copy, Debug, PartialEq, Eq, Structural)]
pub struct CalendarDate {
    pub year: i32,
    pub month: u32,
    pub day: u32,
}

impl CalendarDate {
    pub open spec fn is_valid(self) -> bool {
        1 <= self.month <= 12 && 1 <= self.day <= 31
    }
}

/// Earliest timestamp that is sure to have a local calendar date.
pub const MIN_DATED_TIMESTAMP: i64 = -8_000_000_000_000;

/// Latest timestamp that is sure to have a local calendar date.
pub const MAX_DATED_TIMESTAMP: i64 = 8_000_000_000_000;

/// Relies on chrono's `DateTime::from_timestamp`, `Local`'s
/// `TimeZone::offset_from_utc_datetime`, `NaiveDateTime::checked_add_offset`
/// and `NaiveDateTime::date`: the calendar date, in the machine's time zone, of
/// a Unix timestamp in seconds; `None` where chrono cannot represent the instant
/// or its local time. The date depends on the machine's time zone, so only the
/// range of the month and of the day (as chrono's `month` and `day` document
/// them) is stated. chrono represents years up to about 262,000 either side of
/// year 0 and offsets of less than a day, so every timestamp within about
/// 250,000 years of 1970 has a date. chrono expects readable time zone data.
#[verifier::external_body]
fn local_date_of(timestamp: i64) -> (r: Option<CalendarDate>)
    ensures
        r matches Some(d) ==> d.is_valid(),
        MIN_DATED_TIMESTAMP <= timestamp <= MAX_DATED_TIMESTAMP ==> r is Some,
{
    match chrono::DateTime::from_timestamp(timestamp, 0) {
        Some(utc) => {
            let naive = utc.naive_utc();
            let offset = chrono::Local.offset_from_utc_datetime(&naive);
            match naive.checked_add_offset(offset) {
                Some(local) => {
                    let d = local.date();
                    Some(CalendarDate { year: d.year(), month: d.month(), day: d.day() })
                },
                None => None,
            }
        },
        None => None,
    }
}

/// A chat message, as loaded from the conversation log or received live.
#[derive(Clone, Debug, PartialEq, Eq)]
pub struct ChatMessage {
    /// Unique message identifier.
    pub id: String,
    /// Identifier of the conversation the message belongs to.
    pub chat_jid: String,
    /// Sender identifier.
    pub sender_jid: String,
    /// Sender's display name, where known.
    pub sender_name: Option<String>,
    /// Whether the message has not been read yet.
    pub unread: bool,
    /// Message text.
    pub content: String,
    /// Whether the message was sent by the current user.
    pub outgoing: bool,
    /// Unix timestamp in seconds.
    pub timestamp: i64,
    /// Local calendar date of `timestamp`.
    pub date: CalendarDate,
}

impl ChatMessage {
    /// Builds a message, deriving its local calendar date from `timestamp`;
    /// `None` where the timestamp has no calendar date, which cannot happen
    /// between `MIN_DATED_TIMESTAMP` and `MAX_DATED_TIMESTAMP`.
    pub fn new(
        id: String,
        chat_jid: String,
        sender_jid: String,
        sender_name: Option<String>,
        unread: bool,
        content: String,
        outgoing: bool,
        timestamp: i64,
    ) -> (r: Option<ChatMessage>)
        ensures
            MIN_DATED_TIMESTAMP <= timestamp <= MAX_DATED_TIMESTAMP ==> r is Some,
            r matches Some(m) ==> {
                &&& m.id == id
                &&& m.chat_jid == chat_jid
                &&& m.sender_jid == sender_jid
                &&& m.sender_name == sender_name
                &&& m.unread == unread
                &&& m.content == content
                &&& m.outgoing == outgoing
                &&& m.timestamp == timestamp
                &&& m.date.is_valid()
            },
    {
        match local_date_of(timestamp) {
            Some(date) => Some(
                ChatMessage {
                    id,
                    chat_jid,
                    sender_jid,
                    sender_name,
                    unread,
                    content,
                    outgoing,
                    timestamp,
                    date,
                },
            ),
            None => None,
        }
    }
}

/// A single row of the rendered conversation.
#[derive(Clone, Debug, PartialEq, Eq)]
pub enum ChatRow {
    /// A message bubble.
    Message(ChatMessage),
    /// A label that opens the messages of one calendar date.
    DateSeparator(CalendarDate),
    /// A service event (someone joined, a title changed, ...).
    ServiceEvent { text: String },
}

/// The ledger entry of a row: what the cursors are recomputed from.
#[derive(Clone, Copy, Debug, PartialEq, Eq, Structural)]
pub enum RowMetadata {
    /// A message row, with its Unix timestamp.
    Message(i64),
    /// A date separator row, with its date.
    Separator(CalendarDate),
}

/// `meta` is the ledger entry of `row`. A service event has none, so a ledger
/// aligned with a sequence of rows rules them out.
pub open spec fn describes(meta: RowMetadata, row: ChatRow) -> bool {
    match row {
        ChatRow::Message(m) => meta == RowMetadata::Message(m.timestamp),
        ChatRow::DateSeparator(d) => meta == RowMetadata::Separator(d),
        ChatRow::ServiceEvent { .. } => false,
    }
}

/// The ledger has one entry per row, each describing the row at its index.
pub open spec fn aligned(rows: Seq<ChatRow>, meta: Seq<RowMetadata>) -> bool {
    &&& rows.len() == meta.len()
    &&& forall|i: int| 0 <= i < rows.len() ==> #[trigger] describes(meta[i], rows[i])
}

/// The messages of a row sequence, in rendered order.
pub open spec fn messages_of(rows: Seq<ChatRow>) -> Seq<ChatMessage>
    decreases rows.len(),
{
    if rows.len() == 0 {
        Seq::empty()
    } else {
        let rest = messages_of(rows.drop_last());
        match rows.last() {
            ChatRow::Message(m) => rest.push(m),
            _ => rest,
        }
    }
}

/// The dates of the separators of a row sequence, in rendered order.
pub open spec fn separators_of(rows: Seq<ChatRow>) -> Seq<CalendarDate>
    decreases rows.len(),
{
    if rows.len() == 0 {
        Seq::empty()
    } else {
        let rest = separators_of(rows.drop_last());
        match rows.last() {
            ChatRow::DateSeparator(d) => rest.push(d),
            _ => rest,
        }
    }
}

/// Timestamp of the first message of `rows`, if any.
pub open spec fn first_message_ts(rows: Seq<ChatRow>) -> Option<i64> {
    let ms = messages_of(rows);
    if ms.len() > 0 { Some(ms[0].timestamp) } else { None }
}

/// Timestamp of the last message of `rows`, if any.
pub open spec fn last_message_ts(rows: Seq<ChatRow>) -> Option<i64> {
    let ms = messages_of(rows);
    if ms.len() > 0 { Some(ms.last().timestamp) } else { None }
}

/// Date of the first separator of `rows`, if any.
pub open spec fn first_separator_date(rows: Seq<ChatRow>) -> Option<CalendarDate> {
    let ds = separators_of(rows);
    if ds.len() > 0 { Some(ds[0]) } else { None }
}

/// Date of the last separator of `rows`, if any.
pub open spec fn last_separator_date(rows: Seq<ChatRow>) -> Option<CalendarDate> {
    let ds = separators_of(rows);
    if ds.len() > 0 { Some(ds.last()) } else { None }
}

/// The rows that one message adds after a run whose last date is `prev`: a
/// separator first when the date changes, then the message.
pub open spec fn rows_for(m: ChatMessage, prev: Option<CalendarDate>) -> Seq<ChatRow> {
    if prev == Some(m.date) {
        seq![ChatRow::Message(m)]
    } else {
        seq![ChatRow::DateSeparator(m.date), ChatRow::Message(m)]
    }
}

/// The running date after laying out `msgs` (oldest first) from running date `prev`.
pub open spec fn tail_date(prev: Option<CalendarDate>, msgs: Seq<ChatMessage>) -> Option<
    CalendarDate,
> {
    if msgs.len() == 0 { prev } else { Some(msgs.last().date) }
}

/// The rows that lay out `msgs` (oldest first) after a run whose last date is `prev`.
pub open spec fn timeline(prev: Option<CalendarDate>, msgs: Seq<ChatMessage>) -> Seq<ChatRow>
    decreases msgs.len(),
{
    if msgs.len() == 0 {
        Seq::empty()
    } else {
        timeline(prev, msgs.drop_last()) + rows_for(
            msgs.last(),
            tail_date(prev, msgs.drop_last()),
        )
    }
}

/// Timestamps never decrease along `ms`.
pub open spec fn non_decreasing(ms: Seq<ChatMessage>) -> bool {
    forall|i: int, j: int| 0 <= i <= j < ms.len() ==> #[trigger] ms[i].timestamp <= #[trigger] ms[j].timestamp
}

/// Timestamps never increase along `ms` (the order in which the log answers
/// "the most recent" and "those before").
pub open spec fn non_increasing(ms: Seq<ChatMessage>) -> bool {
    forall|i: int, j: int| 0 <= i <= j < ms.len() ==> #[trigger] ms[j].timestamp <= #[trigger] ms[i].timestamp
}

pub proof fn lemma_messages_of_add(a: Seq<ChatRow>, b: Seq<ChatRow>)
    ensures
        messages_of(a + b) == messages_of(a) + messages_of(b),
        separators_of(a + b) == separators_of(a) + separators_of(b),
    decreases b.len(),
{
    if b.len() == 0 {
        assert(a + b =~= a);
    } else {
        lemma_messages_of_add(a, b.drop_last());
        assert((a + b).drop_last() =~= a + b.drop_last());
        assert((a + b).last() == b.last());
    }
}

pub proof fn lemma_rows_for(m: ChatMessage, prev: Option<CalendarDate>)
    ensures
        messages_of(rows_for(m, prev)) == seq![m],
        separators_of(rows_for(m, prev)) == (if prev == Some(m.date) {
            Seq::<CalendarDate>::empty()
        } else {
            seq![m.date]
        }),
{
    let r = rows_for(m, prev);
    let e = Seq::<ChatRow>::empty();
    assert(messages_of(e) == Seq::<ChatMessage>::empty());
    assert(separators_of(e) == Seq::<CalendarDate>::empty());
    if prev == Some(m.date) {
        assert(r.drop_last() =~= e);
    } else {
        let s = seq![ChatRow::DateSeparator(m.date)];
        assert(r.drop_last() =~= s);
        assert(s.drop_last() =~= e);
        assert(messages_of(s) == Seq::<ChatMessage>::empty());
        assert(separators_of(s) =~= seq![m.date]);
    }
    assert(messages_of(r) =~= seq![m]);
}

/// The messages of a laid-out run are the run itself.
pub proof fn lemma_timeline_messages(prev: Option<CalendarDate>, msgs: Seq<ChatMessage>)
    ensures
        messages_of(timeline(prev, msgs)) == msgs,
    decreases msgs.len(),
{
    if msgs.len() > 0 {
        lemma_timeline_messages(prev, msgs.drop_last());
        lemma_messages_of_add(
            timeline(prev, msgs.drop_last()),
            rows_for(msgs.last(), tail_date(prev, msgs.drop_last())),
        );
        lemma_rows_for(msgs.last(), tail_date(prev, msgs.drop_last()));
        assert(msgs.drop_last().push(msgs.last()) =~= msgs);
    }
}

} // verus!
