//! The conversation viewport: a bounded window of rows over a conversation's
//! log, extended backward or forward as the user scrolls, trimmed at the far
//! end to stay within budget, and fed with live messages when it reaches the
//! true end of the conversation.
//!
//! The log store is asynchronous and lives outside the library. An operation
//! that needs it returns a [`StoreRequest`]; the host runs the query and hands
//! the answer back to the matching `finish_*` method (`None` for a failed
//! query). Every request carries the generation of the viewport that issued
//! it; opening, closing or reloading starts a new generation, and an answer for
//! an older one is discarded.

use vstd::prelude::*;
use crate::rows::{
    aligned, first_message_ts, first_separator_date, last_message_ts, last_separator_date,
    lemma_messages_of_add, lemma_rows_for, lemma_timeline_messages, messages_of, non_decreasing,
    non_increasing, rows_for, separators_of, tail_date, timeline, CalendarDate, ChatMessage, ChatRow, RowMetadata,
};
use crate::window::{
    dates_change, lemma_dates_change_add, lemma_dates_change_parts, lemma_timeline_separators,
    lemma_message_source, lemma_separator_index, lemma_messages_only,
    ends_with_separator, lemma_between_ends, lemma_first_message_kept, lemma_last_message_kept,
    lemma_message_among_two, lemma_message_in_sequence, lemma_no_adjacent_add,
    lemma_no_adjacent_remove, lemma_no_adjacent_subrange, lemma_non_decreasing_add,
    lemma_non_decreasing_parts, lemma_remove_separator, lemma_reverse_non_decreasing,
    lemma_timeline_shape, no_adjacent_separators,
};
use crate::ledger::{
    append_newest_first, head_cursors, is_separator, lemma_aligned_add, lemma_aligned_remove,
    lemma_aligned_subrange, push_message, tail_cursors,
};

verus! {

/// Number of messages asked for when a conversation is opened.
pub const INITIAL_LOAD_COUNT: usize = 120;

/// Number of messages asked for by one step of pagination.
pub const LOAD_MORE_COUNT: usize = 70;

/// Maximum number of rows (messages and separators) kept loaded.
pub const MAX_LOADED_ROWS: usize = 600;

/// Flags and cursors of the viewport.
#[derive(Clone, Copy, Debug)]
pub struct ChatViewState {
    /// A fetch is in flight; further pagination waits for it.
    pub is_loading: bool,
    /// The visible region includes the newest loaded row.
    pub is_at_bottom: bool,
    /// Scrolling to the top should load older messages.
    pub top_trimmed: bool,
    /// Newer messages than the window's end exist but were evicted.
    pub bottom_trimmed: bool,
    /// The log may still hold messages older than the window.
    pub has_more_messages: bool,
    /// Date of the first displayed message (top).
    pub first_message_date: Option<CalendarDate>,
    /// Running date of the last appended message (bottom).
    pub last_message_date: Option<CalendarDate>,
    /// Timestamp of the oldest loaded message.
    pub oldest_loaded_timestamp: Option<i64>,
    /// Timestamp of the newest loaded message.
    pub newest_loaded_timestamp: Option<i64>,
}

/// A range query for the host to run against the conversation log.
#[derive(Clone, Debug)]
pub enum StoreRequest {
    /// The `limit` most recent messages, newest first.
    Recent { generation: u64, chat_jid: String, limit: usize },
    /// Up to `limit` messages strictly older than `timestamp`, newest first.
    Before { generation: u64, chat_jid: String, timestamp: i64, limit: usize },
    /// Up to `limit` messages strictly newer than `timestamp`, oldest first.
    After { generation: u64, chat_jid: String, timestamp: i64, limit: usize },
}

/// What the host does once an initial load has been applied.
#[derive(Clone, Debug)]
pub struct InitialLoad {
    /// Row to scroll to (the last one), if any.
    pub scroll_to: Option<usize>,
    /// Conversation to mark as read, if any.
    pub mark_read: Option<String>,
}

/// What the host does after an explicit jump to the bottom.
#[derive(Clone, Debug)]
pub struct BottomJump {
    /// The window was discarded: run this query and hand it to `finish_reload`.
    pub request: Option<StoreRequest>,
    /// Row to scroll to now, if any.
    pub scroll_to: Option<usize>,
}

/// What became of a live message.
#[derive(Clone, Debug)]
pub struct Arrival {
    /// The message was appended to the window.
    pub appended: bool,
    /// Conversation to mark as read, if any.
    pub mark_read: Option<String>,
}

/// The viewport of one conversation.
#[derive(Debug)]
pub struct ChatView {
    /// Identifier of the open conversation.
    pub chat: Option<String>,
    /// Flags and cursors.
    pub state: ChatViewState,
    /// Rendered rows, oldest first.
    pub rows: Vec<ChatRow>,
    /// One ledger entry per row.
    pub row_metadata: Vec<RowMetadata>,
    /// Generation of the current window.
    pub generation: u64,
}

/// The generation after `g`, wrapping at the largest value.
pub open spec fn next_generation(g: u64) -> u64 {
    if g == u64::MAX { 0 } else { (g + 1) as u64 }
}

/// Rows of a window freshly loaded from `batch` (newest first).
pub open spec fn initial_rows(batch: Seq<ChatMessage>) -> Seq<ChatRow> {
    timeline(None, batch.reverse())
}

/// The prepended batch ends on the date of the separator that opens the
/// window, which is then dropped.
pub open spec fn separator_repeated(
    rows: Seq<ChatRow>,
    first_date: Option<CalendarDate>,
    batch: Seq<ChatMessage>,
) -> bool {
    &&& batch.len() > 0
    &&& first_date == Some(batch[0].date)
    &&& rows.len() > 0
    &&& rows[0] is DateSeparator
}

/// Rows after prepending `batch` (newest first) before `rows`, before trimming.
pub open spec fn prepended(
    rows: Seq<ChatRow>,
    first_date: Option<CalendarDate>,
    batch: Seq<ChatMessage>,
) -> Seq<ChatRow> {
    let prefix = timeline(None, batch.reverse());
    if separator_repeated(rows, first_date, batch) {
        (prefix + rows).remove(prefix.len() as int)
    } else {
        prefix + rows
    }
}

/// Rows after appending `batch` (oldest first) after `rows`, before trimming.
pub open spec fn appended(
    rows: Seq<ChatRow>,
    last_date: Option<CalendarDate>,
    batch: Seq<ChatMessage>,
) -> Seq<ChatRow> {
    rows + timeline(last_date, batch)
}

/// The first `MAX_LOADED_ROWS` rows.
pub open spec fn keep_head(rows: Seq<ChatRow>) -> Seq<ChatRow> {
    if rows.len() > MAX_LOADED_ROWS {
        rows.subrange(0, MAX_LOADED_ROWS as int)
    } else {
        rows
    }
}

/// The last `MAX_LOADED_ROWS` rows.
pub open spec fn keep_tail(rows: Seq<ChatRow>) -> Seq<ChatRow> {
    if rows.len() > MAX_LOADED_ROWS {
        rows.subrange(rows.len() - MAX_LOADED_ROWS, rows.len() as int)
    } else {
        rows
    }
}

/// State after a window is laid out from `batch` (newest first).
pub open spec fn loaded_state(st: ChatViewState, batch: Seq<ChatMessage>) -> ChatViewState {
    ChatViewState {
        has_more_messages: batch.len() == INITIAL_LOAD_COUNT,
        first_message_date: if batch.len() > 0 {
            Some(batch.last().date)
        } else {
            None
        },
        last_message_date: if batch.len() > 0 {
            Some(batch[0].date)
        } else {
            None
        },
        oldest_loaded_timestamp: if batch.len() > 0 {
            Some(batch.last().timestamp)
        } else {
            None
        },
        newest_loaded_timestamp: if batch.len() > 0 {
            Some(batch[0].timestamp)
        } else {
            None
        },
        ..st
    }
}

/// State once `open` has reset it.
pub open spec fn reset_for_open(st: ChatViewState) -> ChatViewState {
    ChatViewState {
        is_loading: true,
        top_trimmed: true,
        bottom_trimmed: false,
        has_more_messages: false,
        first_message_date: None,
        last_message_date: None,
        oldest_loaded_timestamp: None,
        newest_loaded_timestamp: None,
        ..st
    }
}

/// State once an initial load of `batch` (newest first) has been applied: the
/// view is at its end, even an empty one.
pub open spec fn after_initial(st: ChatViewState, batch: Seq<ChatMessage>) -> ChatViewState {
    ChatViewState {
        is_loading: false,
        is_at_bottom: true,
        ..loaded_state(st, batch)
    }
}

/// Index of the last row, if any.
pub open spec fn last_index(rows: Seq<ChatRow>) -> Option<usize> {
    if rows.len() > 0 { Some((rows.len() - 1) as usize) } else { None }
}

impl ChatView {
    /// The ledger is aligned with the rows.
    pub open spec fn wf(self) -> bool {
        aligned(self.rows@, self.row_metadata@)
    }

    /// Message rows appear in non-decreasing order of timestamp.
    pub open spec fn chronological(self) -> bool {
        non_decreasing(messages_of(self.rows@))
    }

    /// The timestamp cursors name the first and the last loaded message (both
    /// unset when no message is loaded).
    pub open spec fn cursors_track(self) -> bool {
        &&& self.state.oldest_loaded_timestamp == first_message_ts(self.rows@)
        &&& self.state.newest_loaded_timestamp == last_message_ts(self.rows@)
    }

    /// The window is well formed, chronological, its cursors track it, and no
    /// two separators are adjacent.
    pub open spec fn consistent(self) -> bool {
        &&& self.wf()
        &&& self.chronological()
        &&& self.cursors_track()
        &&& no_adjacent_separators(self.rows@)
    }

    /// Separator dates change at every separator, the running date is the
    /// last separator's, and a window that opens with a separator records its
    /// date as the first date.
    pub open spec fn separated(self) -> bool {
        &&& dates_change(separators_of(self.rows@))
        &&& separators_of(self.rows@).len() > 0 ==> self.state.last_message_date
            == last_separator_date(self.rows@)
        &&& self.rows@.len() > 0 && self.rows@[0] is DateSeparator
            ==> self.state.first_message_date == Some(self.rows@[0]->DateSeparator_0)
    }

    /// An answer to load older messages whose last date does not repeat the
    /// window's: where the window does not open with a separator, the batch
    /// does not end on the date of the window's first separator, and where the
    /// window has no separator at all, it ends on the running date.
    pub open spec fn meets_top(self, b: Seq<ChatMessage>) -> bool {
        &&& (b.len() > 0 && !(self.rows@.len() > 0 && self.rows@[0] is DateSeparator))
            ==> first_separator_date(self.rows@) != Some(b[0].date)
        &&& (b.len() > 0 && separators_of(self.rows@).len() == 0)
            ==> self.state.last_message_date == Some(b[0].date)
    }

    /// A live message continues the window: it is not older than the newest
    /// loaded message, and where the window ends with a separator (the bottom
    /// was cut there) it belongs to that separator's date.
    pub open spec fn continues_with(self, m: ChatMessage) -> bool {
        &&& (self.state.newest_loaded_timestamp matches Some(t) ==> t <= m.timestamp)
        &&& (ends_with_separator(self.rows@) ==> self.state.last_message_date == Some(m.date))
    }

    /// An answer to load older messages as the log gives it: newest first,
    /// none newer than the oldest loaded message.
    pub open spec fn fits_before(self, b: Seq<ChatMessage>) -> bool {
        &&& non_increasing(b)
        &&& self.state.oldest_loaded_timestamp is Some
        &&& forall|i: int|
            0 <= i < b.len() ==> #[trigger] b[i].timestamp
                <= self.state.oldest_loaded_timestamp->0
    }

    /// An answer to load newer messages as the log gives it: oldest first,
    /// none older than the newest loaded message, and the first one continues
    /// a window that ends with a separator.
    pub open spec fn fits_after(self, b: Seq<ChatMessage>) -> bool {
        &&& non_decreasing(b)
        &&& self.state.newest_loaded_timestamp is Some
        &&& forall|i: int|
            0 <= i < b.len() ==> self.state.newest_loaded_timestamp->0
                <= #[trigger] b[i].timestamp
        &&& (ends_with_separator(self.rows@) && b.len() > 0 ==> self.state.last_message_date
            == Some(b[0].date))
    }

    /// An answer for this generation is awaited.
    pub open spec fn awaits(self, generation: u64) -> bool {
        &&& self.chat is Some
        &&& self.state.is_loading
        &&& generation == self.generation
    }

    /// Load older messages may go ahead.
    pub open spec fn can_load_older(self) -> bool {
        &&& !self.state.is_loading
        &&& self.state.has_more_messages
        &&& self.chat is Some
        &&& self.state.oldest_loaded_timestamp is Some
    }

    /// Load newer messages may go ahead.
    pub open spec fn can_load_newer(self) -> bool {
        &&& !self.state.is_loading
        &&& self.state.bottom_trimmed
        &&& self.chat is Some
        &&& self.state.newest_loaded_timestamp is Some
    }

    /// Same conversation, rows and generation.
    pub open spec fn same_window(self, other: ChatView) -> bool {
        &&& self.chat == other.chat
        &&& self.rows@ == other.rows@
        &&& self.row_metadata@ == other.row_metadata@
        &&& self.generation == other.generation
    }

    /// An empty, closed viewport.
    pub fn new() -> (r: ChatView)
        ensures
            r.consistent(),
            r.separated(),
            r.chat is None,
            r.rows@.len() == 0,
            r.generation == 0,
            r.state == (ChatViewState {
                is_loading: true,
                is_at_bottom: true,
                top_trimmed: true,
                bottom_trimmed: false,
                has_more_messages: false,
                first_message_date: None,
                last_message_date: None,
                oldest_loaded_timestamp: None,
                newest_loaded_timestamp: None,
            }),
    {
        ChatView {
            chat: None,
            state: ChatViewState {
                is_loading: true,
                is_at_bottom: true,
                top_trimmed: true,
                bottom_trimmed: false,
                has_more_messages: false,
                first_message_date: None,
                last_message_date: None,
                oldest_loaded_timestamp: None,
                newest_loaded_timestamp: None,
            },
            rows: Vec::new(),
            row_metadata: Vec::new(),
            generation: 0,
        }
    }

    fn bump_generation(&mut self)
        ensures
            final(self).generation == next_generation(old(self).generation),
            final(self).chat == old(self).chat,
            final(self).state == old(self).state,
            final(self).rows == old(self).rows,
            final(self).row_metadata == old(self).row_metadata,
    {
        if self.generation == u64::MAX {
            self.generation = 0;
        } else {
            self.generation = self.generation + 1;
        }
    }

    fn clear_rows(&mut self)
        ensures
            final(self).rows@.len() == 0,
            final(self).row_metadata@.len() == 0,
            final(self).wf(),
            final(self).chat == old(self).chat,
            final(self).state == old(self).state,
            final(self).generation == old(self).generation,
    {
        self.rows.clear();
        self.row_metadata.clear();
        assert(aligned(self.rows@, self.row_metadata@));
    }

    /// Opens a conversation: empties the window, resets the state and starts a
    /// new generation. The host answers the returned query with `finish_open`.
    pub fn open(&mut self, chat_jid: String) -> (r: StoreRequest)
        ensures
            final(self).consistent(),
            final(self).separated(),
            final(self).chat == Some(chat_jid),
            final(self).rows@.len() == 0,
            final(self).generation == next_generation(old(self).generation),
            final(self).state == reset_for_open(old(self).state),
            r == (StoreRequest::Recent {
                generation: final(self).generation,
                chat_jid,
                limit: INITIAL_LOAD_COUNT,
            }),
    {
        self.clear_rows();
        self.bump_generation();
        self.state.is_loading = true;
        self.state.top_trimmed = true;
        self.state.bottom_trimmed = false;
        self.state.has_more_messages = false;
        self.state.first_message_date = None;
        self.state.last_message_date = None;
        self.state.oldest_loaded_timestamp = None;
        self.state.newest_loaded_timestamp = None;
        let request = StoreRequest::Recent {
            generation: self.generation,
            chat_jid: chat_jid.clone(),
            limit: INITIAL_LOAD_COUNT,
        };
        self.chat = Some(chat_jid);
        request
    }

    /// Lays out a batch (newest first) as the whole window.
    fn load_initial(&mut self, batch: Vec<ChatMessage>)
        requires
            old(self).wf(),
        ensures
            final(self).wf(),
            final(self).rows@ == initial_rows(batch@),
            final(self).chat == old(self).chat,
            final(self).generation == old(self).generation,
            final(self).state == loaded_state(old(self).state, batch@),
            final(self).cursors_track(),
            no_adjacent_separators(final(self).rows@),
            non_increasing(batch@) ==> final(self).chronological(),
            final(self).separated(),
    {
        let ghost b = batch@;
        self.clear_rows();
        let n = batch.len();
        self.state.has_more_messages = n == INITIAL_LOAD_COUNT;
        if n > 0 {
            self.state.oldest_loaded_timestamp = Some(batch[n - 1].timestamp);
            self.state.first_message_date = Some(batch[n - 1].date);
            self.state.newest_loaded_timestamp = Some(batch[0].timestamp);
        } else {
            self.state.oldest_loaded_timestamp = None;
            self.state.first_message_date = None;
            self.state.newest_loaded_timestamp = None;
        }
        let mut last: Option<CalendarDate> = None;
        append_newest_first(&mut self.rows, &mut self.row_metadata, &mut last, batch);
        self.state.last_message_date = last;
        assert(self.rows@ =~= initial_rows(batch@));
        proof {
            lemma_timeline_messages(None, b.reverse());
            lemma_timeline_shape(None, b.reverse());
            lemma_timeline_separators(None, b.reverse());
            if n > 0 {
                assert(b.reverse().last() == b[0]);
                assert(b.reverse()[0] == b.last());
            }
            if non_increasing(b) {
                lemma_reverse_non_decreasing(b);
            }
        }
    }

    /// Scrolls to the last row, if any, and records that the view is at the bottom.
    fn scroll_to_end(&mut self) -> (r: Option<usize>)
        ensures
            r == last_index(old(self).rows@),
            final(self).state == (ChatViewState {
                is_at_bottom: if old(self).rows@.len() > 0 {
                    true
                } else {
                    old(self).state.is_at_bottom
                },
                ..old(self).state
            }),
            final(self).same_window(*old(self)),
    {
        let count = self.rows.len();
        if count > 0 {
            self.state.is_at_bottom = true;
            Some(count - 1)
        } else {
            None
        }
    }

    /// Applies the answer to the query of `open`: lays out the batch (newest
    /// first; `None` when the query failed), scrolls to the end, and asks to
    /// mark the conversation read when it has unread messages. An answer for
    /// another generation changes nothing.
    pub fn finish_open(
        &mut self,
        generation: u64,
        batch: Option<Vec<ChatMessage>>,
        unread_count: Option<usize>,
    ) -> (r: InitialLoad)
        requires
            old(self).wf(),
        ensures
            final(self).wf(),
            old(self).consistent() && (batch matches Some(b) ==> non_increasing(b@)) ==> final(self).consistent(),
            old(self).separated() ==> final(self).separated(),
            old(self).chronological() && (batch matches Some(b) ==> non_increasing(b@)) ==> final(self).chronological(),
            old(self).cursors_track() ==> final(self).cursors_track(),
            old(self).awaits(generation) && batch is Some ==> final(self).cursors_track(),
            !old(self).awaits(generation) ==> *final(self) == *old(self) && r.scroll_to is None
                && r.mark_read is None,
            old(self).awaits(generation) ==> {
                &&& final(self).chat == old(self).chat
                &&& final(self).generation == old(self).generation
                &&& final(self).state == match batch {
                    Some(b) => after_initial(old(self).state, b@),
                    None => (ChatViewState { is_loading: false, ..old(self).state }),
                }
                &&& final(self).rows@ == match batch {
                    Some(b) => initial_rows(b@),
                    None => old(self).rows@,
                }
                &&& r.scroll_to == if batch is Some {
                    last_index(final(self).rows@)
                } else {
                    None
                }
                &&& r.mark_read == if unread_count matches Some(c) && c > 0 {
                    old(self).chat
                } else {
                    None
                }
            },
    {
        if !(self.chat.is_some() && self.state.is_loading && generation == self.generation) {
            return InitialLoad { scroll_to: None, mark_read: None };
        }
        let scroll_to = match batch {
            Some(b) => {
                self.load_initial(b);
                let end = self.scroll_to_end();
                self.state.is_at_bottom = true;
                end
            },
            None => None,
        };
        let mark_read = match unread_count {
            Some(c) => if c > 0 {
                self.chat.clone()
            } else {
                None
            },
            None => None,
        };
        self.state.is_loading = false;
        InitialLoad { scroll_to, mark_read }
    }
    /// Closes the conversation: empties the window, resets the state and
    /// starts a new generation, so that answers still in flight are discarded.
    pub fn close(&mut self)
        requires
            old(self).wf(),
        ensures
            final(self).consistent(),
            final(self).separated(),
            final(self).chat is None,
            final(self).rows@.len() == 0,
            final(self).generation == next_generation(old(self).generation),
            final(self).state == (ChatViewState {
                is_loading: false,
                is_at_bottom: false,
                top_trimmed: false,
                bottom_trimmed: false,
                has_more_messages: false,
                first_message_date: None,
                last_message_date: None,
                oldest_loaded_timestamp: None,
                newest_loaded_timestamp: None,
            }),
    {
        self.clear_rows();
        self.bump_generation();
        self.chat = None;
        self.state = ChatViewState {
            is_loading: false,
            is_at_bottom: false,
            top_trimmed: false,
            bottom_trimmed: false,
            has_more_messages: false,
            first_message_date: None,
            last_message_date: None,
            oldest_loaded_timestamp: None,
            newest_loaded_timestamp: None,
        };
    }

    /// Explicit jump to the newest message. Where either end of the window was
    /// trimmed, the window cannot be trusted to reach the true end: it is
    /// discarded and a fresh initial load is asked for (answered with
    /// `finish_reload`). Otherwise the view scrolls to its last row. A closed
    /// viewport is left as it is.
    pub fn scroll_to_bottom(&mut self) -> (r: BottomJump)
        requires
            old(self).wf(),
        ensures
            final(self).wf(),
            old(self).consistent() ==> final(self).consistent(),
            old(self).chronological() ==> final(self).chronological(),
            old(self).cursors_track() ==> final(self).cursors_track(),
            old(self).separated() ==> final(self).separated(),
            old(self).chat is None ==> *final(self) == *old(self) && r.request is None
                && r.scroll_to is None,
            old(self).chat is Some && (old(self).state.top_trimmed
                || old(self).state.bottom_trimmed) ==> {
                &&& final(self).chat == old(self).chat
                &&& final(self).rows@.len() == 0
                &&& final(self).generation == next_generation(old(self).generation)
                &&& final(self).state == (ChatViewState {
                    is_loading: true,
                    top_trimmed: false,
                    bottom_trimmed: false,
                    has_more_messages: false,
                    first_message_date: None,
                    last_message_date: None,
                    oldest_loaded_timestamp: None,
                    newest_loaded_timestamp: None,
                    ..old(self).state
                })
                &&& r.request == Some(
                    StoreRequest::Recent {
                        generation: final(self).generation,
                        chat_jid: old(self).chat->0,
                        limit: INITIAL_LOAD_COUNT,
                    },
                )
                &&& r.scroll_to is None
            },
            old(self).chat is Some && !old(self).state.top_trimmed
                && !old(self).state.bottom_trimmed ==> {
                &&& final(self).same_window(*old(self))
                &&& final(self).state == (ChatViewState {
                    is_at_bottom: old(self).state.is_at_bottom || old(self).rows@.len() > 0,
                    ..old(self).state
                })
                &&& r.request is None
                &&& r.scroll_to == last_index(old(self).rows@)
            },
    {
        let jid = match &self.chat {
            Some(j) => j.clone(),
            None => {
                return BottomJump { request: None, scroll_to: None };
            },
        };
        if self.state.top_trimmed || self.state.bottom_trimmed {
            self.clear_rows();
            self.bump_generation();
            self.state.is_loading = true;
            self.state.top_trimmed = false;
            self.state.bottom_trimmed = false;
            self.state.has_more_messages = false;
            self.state.first_message_date = None;
            self.state.last_message_date = None;
            self.state.oldest_loaded_timestamp = None;
            self.state.newest_loaded_timestamp = None;
            let request = StoreRequest::Recent {
                generation: self.generation,
                chat_jid: jid,
                limit: INITIAL_LOAD_COUNT,
            };
            BottomJump { request: Some(request), scroll_to: None }
        } else {
            let scroll_to = self.scroll_to_end();
            BottomJump { request: None, scroll_to }
        }
    }

    /// Applies the answer to the query of a reload from `scroll_to_bottom`:
    /// lays out the batch (newest first; `None` when the query failed) and
    /// scrolls to the end. An answer for another generation changes nothing.
    pub fn finish_reload(&mut self, generation: u64, batch: Option<Vec<ChatMessage>>) -> (r:
        Option<usize>)
        requires
            old(self).wf(),
        ensures
            final(self).wf(),
            old(self).consistent() && (batch matches Some(b) ==> non_increasing(b@)) ==> final(self).consistent(),
            old(self).separated() ==> final(self).separated(),
            old(self).chronological() && (batch matches Some(b) ==> non_increasing(b@)) ==> final(self).chronological(),
            old(self).cursors_track() ==> final(self).cursors_track(),
            old(self).awaits(generation) && batch is Some ==> final(self).cursors_track(),
            !old(self).awaits(generation) ==> *final(self) == *old(self) && r is None,
            old(self).awaits(generation) ==> {
                &&& final(self).chat == old(self).chat
                &&& final(self).generation == old(self).generation
                &&& final(self).state == match batch {
                    Some(b) => after_initial(old(self).state, b@),
                    None => (ChatViewState { is_loading: false, ..old(self).state }),
                }
                &&& final(self).rows@ == match batch {
                    Some(b) => initial_rows(b@),
                    None => old(self).rows@,
                }
                &&& r == if batch is Some {
                    last_index(final(self).rows@)
                } else {
                    None
                }
            },
    {
        if !(self.chat.is_some() && self.state.is_loading && generation == self.generation) {
            return None;
        }
        let scroll_to = match batch {
            Some(b) => {
                self.load_initial(b);
                let end = self.scroll_to_end();
                self.state.is_at_bottom = true;
                end
            },
            None => None,
        };
        self.state.is_loading = false;
        scroll_to
    }

    /// The query that load older messages issues from this state, if any.
    pub open spec fn older_request(self) -> Option<StoreRequest> {
        if self.can_load_older() {
            Some(
                StoreRequest::Before {
                    generation: self.generation,
                    chat_jid: self.chat->0,
                    timestamp: self.state.oldest_loaded_timestamp->0,
                    limit: LOAD_MORE_COUNT,
                },
            )
        } else {
            None
        }
    }

    /// The query that load newer messages issues from this state, if any.
    pub open spec fn newer_request(self) -> Option<StoreRequest> {
        if self.can_load_newer() {
            Some(
                StoreRequest::After {
                    generation: self.generation,
                    chat_jid: self.chat->0,
                    timestamp: self.state.newest_loaded_timestamp->0,
                    limit: LOAD_MORE_COUNT,
                },
            )
        } else {
            None
        }
    }

    /// Starts loading older messages: unless a fetch is in flight, the log is
    /// exhausted, or nothing is loaded, marks the viewport loading and returns
    /// the query (answered with `finish_load_older`). Otherwise changes nothing.
    pub fn load_older(&mut self) -> (r: Option<StoreRequest>)
        ensures
            old(self).consistent() ==> final(self).consistent(),
            old(self).separated() ==> final(self).separated(),
            r == old(self).older_request(),
            old(self).state.is_loading ==> r is None && *final(self) == *old(self),
            r is None ==> *final(self) == *old(self),
            r is Some ==> final(self).same_window(*old(self)) && final(self).state == (
            ChatViewState { is_loading: true, ..old(self).state }),
    {
        if self.state.is_loading || !self.state.has_more_messages {
            return None;
        }
        let jid = match &self.chat {
            Some(j) => j.clone(),
            None => {
                return None;
            },
        };
        let before = match self.state.oldest_loaded_timestamp {
            Some(t) => t,
            None => {
                return None;
            },
        };
        self.state.is_loading = true;
        Some(
            StoreRequest::Before {
                generation: self.generation,
                chat_jid: jid,
                timestamp: before,
                limit: LOAD_MORE_COUNT,
            },
        )
    }

    /// Starts loading newer messages: only where the bottom was trimmed and no
    /// fetch is in flight; marks the viewport loading and returns the query
    /// (answered with `finish_load_newer`). Otherwise changes nothing.
    pub fn load_newer(&mut self) -> (r: Option<StoreRequest>)
        ensures
            old(self).consistent() ==> final(self).consistent(),
            old(self).separated() ==> final(self).separated(),
            r == old(self).newer_request(),
            old(self).state.is_loading ==> r is None && *final(self) == *old(self),
            r is None ==> *final(self) == *old(self),
            r is Some ==> final(self).same_window(*old(self)) && final(self).state == (
            ChatViewState { is_loading: true, ..old(self).state }),
    {
        if self.state.is_loading || !self.state.bottom_trimmed {
            return None;
        }
        let jid = match &self.chat {
            Some(j) => j.clone(),
            None => {
                return None;
            },
        };
        let after = match self.state.newest_loaded_timestamp {
            Some(t) => t,
            None => {
                return None;
            },
        };
        self.state.is_loading = true;
        Some(
            StoreRequest::After {
                generation: self.generation,
                chat_jid: jid,
                timestamp: after,
                limit: LOAD_MORE_COUNT,
            },
        )
    }

    /// Reaction to a change of scroll position: reaching the top of a window
    /// that may be extended backward loads older messages, reaching the bottom
    /// of one whose bottom was trimmed loads newer ones. Both triggers are
    /// tried; with at most one fetch in flight, newer messages are asked for
    /// only when no older ones are. The bottom flag follows the position. A
    /// closed viewport is left as it is.
    pub fn scroll_position_changed(&mut self, at_top: bool, at_bottom: bool) -> (r: Option<
        StoreRequest,
    >)
        ensures
            old(self).consistent() ==> final(self).consistent(),
            old(self).separated() ==> final(self).separated(),
            old(self).chat is None ==> *final(self) == *old(self) && r is None,
            old(self).chat is Some ==> {
                &&& r == if at_top && old(self).state.top_trimmed
                    && old(self).older_request() is Some {
                    old(self).older_request()
                } else if at_bottom && old(self).state.bottom_trimmed {
                    old(self).newer_request()
                } else {
                    None
                }
                &&& final(self).same_window(*old(self))
                &&& final(self).state == (ChatViewState {
                    is_loading: old(self).state.is_loading || r is Some,
                    is_at_bottom: at_bottom,
                    ..old(self).state
                })
            },
    {
        if self.chat.is_none() {
            return None;
        }
        let mut r: Option<StoreRequest> = None;
        if at_top && self.state.top_trimmed {
            r = self.load_older();
        }
        if r.is_none() && at_bottom && self.state.bottom_trimmed {
            r = self.load_newer();
        }
        self.state.is_at_bottom = at_bottom;
        r
    }

    /// A live message. It is dropped where the bottom of the window was
    /// trimmed (appending it would leave a gap before it) or no conversation is
    /// open. Otherwise it is appended, after a separator when its date differs
    /// from the running date, and becomes the newest loaded message; when the
    /// view is at the bottom the conversation is to be marked read.
    pub fn message_arrived(&mut self, message: ChatMessage) -> (r: Arrival)
        requires
            old(self).wf(),
        ensures
            final(self).wf(),
            old(self).consistent() && old(self).continues_with(message) ==> final(self).consistent(),
            old(self).cursors_track() ==> final(self).cursors_track(),
            old(self).chronological() && old(self).cursors_track() && (
            old(self).state.newest_loaded_timestamp matches Some(t) ==> t <= message.timestamp)
                ==> final(self).chronological(),
            old(self).separated() ==> final(self).separated(),
            old(self).chat is None || old(self).state.bottom_trimmed ==> *final(self) == *old(self) && !r.appended && r.mark_read is None,
            old(self).chat is Some && !old(self).state.bottom_trimmed ==> {
                &&& r.appended
                &&& final(self).chat == old(self).chat
                &&& final(self).generation == old(self).generation
                &&& final(self).rows@ == old(self).rows@ + rows_for(
                    message,
                    old(self).state.last_message_date,
                )
                &&& final(self).state == (ChatViewState {
                    last_message_date: Some(message.date),
                    newest_loaded_timestamp: Some(message.timestamp),
                    oldest_loaded_timestamp: if old(self).state.oldest_loaded_timestamp is Some {
                        old(self).state.oldest_loaded_timestamp
                    } else {
                        Some(message.timestamp)
                    },
                    first_message_date: if old(self).rows@.len() == 0 {
                        Some(message.date)
                    } else {
                        old(self).state.first_message_date
                    },
                    ..old(self).state
                })
                &&& r.mark_read == if old(self).state.is_at_bottom {
                    old(self).chat
                } else {
                    None
                }
            },
    {
        if self.chat.is_none() || self.state.bottom_trimmed {
            return Arrival { appended: false, mark_read: None };
        }
        let ts = message.timestamp;
        let date = message.date;
        let was_empty = self.rows.len() == 0;
        let ghost m = message;
        let ghost old_rows = self.rows@;
        let mut last = self.state.last_message_date;
        push_message(&mut self.rows, &mut self.row_metadata, &mut last, message);
        proof {
            let ms = messages_of(old_rows);
            let added = rows_for(m, old(self).state.last_message_date);
            lemma_messages_of_add(old_rows, added);
            lemma_rows_for(m, old(self).state.last_message_date);
            assert(messages_of(self.rows@) =~= ms.push(m));
            if old(self).chronological() && old(self).cursors_track() && (
            old(self).state.newest_loaded_timestamp matches Some(t) ==> t <= m.timestamp) {
                assert forall|x: int, y: int|
                    0 <= x < ms.len() && 0 <= y < seq![m].len() implies #[trigger] ms[x].timestamp
                    <= #[trigger] seq![m][y].timestamp by {
                    lemma_between_ends(ms, x);
                }
                lemma_non_decreasing_add(ms, seq![m]);
            }
            if old(self).consistent() && old(self).continues_with(m) {
                assert(no_adjacent_separators(added));
                lemma_no_adjacent_add(old_rows, added);
            }
        }
        self.state.last_message_date = last;
        self.state.newest_loaded_timestamp = Some(ts);
        if self.state.oldest_loaded_timestamp.is_none() {
            self.state.oldest_loaded_timestamp = Some(ts);
        }
        if was_empty {
            self.state.first_message_date = Some(date);
        }
        proof {
            if old(self).separated() {
                lemma_single_timeline(m, old(self).state.last_message_date);
                lemma_appended_separated(old_rows, old(self).state.last_message_date, seq![m]);
                if was_empty {
                    lemma_timeline_shape(old(self).state.last_message_date, seq![m]);
                    assert(self.rows@ =~= rows_for(m, old(self).state.last_message_date));
                }
            }
        }
        let mark_read = if self.state.is_at_bottom {
            self.chat.clone()
        } else {
            None
        };
        Arrival { appended: true, mark_read }
    }
    /// State after an answer to load older messages, given the rows it leaves.
    pub open spec fn after_older(self, b: Seq<ChatMessage>, rows: Seq<ChatRow>) -> ChatViewState {
        let trimmed = prepended(self.rows@, self.state.first_message_date, b).len()
            > MAX_LOADED_ROWS;
        ChatViewState {
            is_loading: false,
            has_more_messages: b.len() == LOAD_MORE_COUNT,
            oldest_loaded_timestamp: if b.len() > 0 {
                Some(b.last().timestamp)
            } else {
                self.state.oldest_loaded_timestamp
            },
            first_message_date: if b.len() > 0 {
                Some(b.last().date)
            } else {
                self.state.first_message_date
            },
            bottom_trimmed: self.state.bottom_trimmed || trimmed,
            newest_loaded_timestamp: if trimmed {
                last_message_ts(rows)
            } else {
                self.state.newest_loaded_timestamp
            },
            last_message_date: if trimmed {
                last_separator_date(rows)
            } else {
                self.state.last_message_date
            },
            ..self.state
        }
    }

    /// State after an answer to load newer messages, given the rows it leaves.
    pub open spec fn after_newer(self, b: Seq<ChatMessage>, rows: Seq<ChatRow>) -> ChatViewState {
        let trimmed = appended(self.rows@, self.state.last_message_date, b).len()
            > MAX_LOADED_ROWS;
        ChatViewState {
            is_loading: false,
            bottom_trimmed: self.state.bottom_trimmed && b.len() >= LOAD_MORE_COUNT,
            newest_loaded_timestamp: if b.len() > 0 {
                Some(b.last().timestamp)
            } else {
                self.state.newest_loaded_timestamp
            },
            last_message_date: tail_date(self.state.last_message_date, b),
            top_trimmed: self.state.top_trimmed || trimmed,
            has_more_messages: self.state.has_more_messages || trimmed,
            oldest_loaded_timestamp: if trimmed {
                first_message_ts(rows)
            } else {
                self.state.oldest_loaded_timestamp
            },
            first_message_date: if trimmed {
                first_separator_date(rows)
            } else {
                self.state.first_message_date
            },
            ..self.state
        }
    }

    /// Lays out an older batch (newest first) before the window and trims the bottom.
    fn prepend_batch(&mut self, batch: Vec<ChatMessage>)
        requires
            old(self).wf(),
        ensures
            final(self).wf(),
            final(self).chat == old(self).chat,
            final(self).generation == old(self).generation,
            final(self).rows@ == keep_head(
                prepended(old(self).rows@, old(self).state.first_message_date, batch@),
            ),
            final(self).state == (ChatViewState {
                is_loading: old(self).state.is_loading,
                ..old(self).after_older(batch@, final(self).rows@)
            }),
    {
        let ghost b = batch@;
        let ghost old_rows = self.rows@;
        let n = batch.len();
        self.state.has_more_messages = n == LOAD_MORE_COUNT;
        let oldest = if n > 0 {
            Some((batch[n - 1].timestamp, batch[n - 1].date))
        } else {
            None
        };
        let mut prefix: Vec<ChatRow> = Vec::new();
        let mut prefix_meta: Vec<RowMetadata> = Vec::new();
        let mut prev: Option<CalendarDate> = None;
        assert(aligned(prefix@, prefix_meta@));
        append_newest_first(&mut prefix, &mut prefix_meta, &mut prev, batch);
        assert(prefix@ =~= timeline(None, b.reverse()));
        proof {
            if n > 0 {
                assert(b.reverse().last() == b[0]);
            }
        }
        let insert_pos = prefix.len();
        let repeated = match prev {
            Some(d) => match self.state.first_message_date {
                Some(f) => f == d && self.rows.len() > 0 && is_separator(&self.rows[0]),
                None => false,
            },
            None => false,
        };
        assert(repeated == separator_repeated(old_rows, self.state.first_message_date, b));
        proof {
            lemma_aligned_add(prefix@, prefix_meta@, self.rows@, self.row_metadata@);
        }
        prefix.append(&mut self.rows);
        prefix_meta.append(&mut self.row_metadata);
        if repeated {
            proof {
                lemma_aligned_remove(prefix@, prefix_meta@, insert_pos as int);
            }
            prefix.remove(insert_pos);
            prefix_meta.remove(insert_pos);
        }
        self.rows = prefix;
        self.row_metadata = prefix_meta;
        if let Some((t, d)) = oldest {
            self.state.oldest_loaded_timestamp = Some(t);
            self.state.first_message_date = Some(d);
        }
        if self.rows.len() > MAX_LOADED_ROWS {
            proof {
                lemma_aligned_subrange(self.rows@, self.row_metadata@, 0, MAX_LOADED_ROWS as int);
            }
            self.rows.truncate(MAX_LOADED_ROWS);
            self.row_metadata.truncate(MAX_LOADED_ROWS);
            self.state.bottom_trimmed = true;
            let (ts, date) = tail_cursors(&self.row_metadata, Ghost(self.rows@));
            self.state.newest_loaded_timestamp = ts;
            self.state.last_message_date = date;
        }
    }

    /// Lays out a newer batch (oldest first) after the window and trims the top.
    fn append_batch(&mut self, batch: Vec<ChatMessage>)
        requires
            old(self).wf(),
        ensures
            final(self).wf(),
            final(self).chat == old(self).chat,
            final(self).generation == old(self).generation,
            final(self).rows@ == keep_tail(
                appended(old(self).rows@, old(self).state.last_message_date, batch@),
            ),
            final(self).state == (ChatViewState {
                is_loading: old(self).state.is_loading,
                ..old(self).after_newer(batch@, final(self).rows@)
            }),
    {
        let ghost b = batch@;
        let n = batch.len();
        if n < LOAD_MORE_COUNT {
            self.state.bottom_trimmed = false;
        }
        if n > 0 {
            self.state.newest_loaded_timestamp = Some(batch[n - 1].timestamp);
        }
        let newest_first = reversed(batch);
        let mut last = self.state.last_message_date;
        append_newest_first(&mut self.rows, &mut self.row_metadata, &mut last, newest_first);
        proof {
            lemma_reverse_reverse(b);
        }
        self.state.last_message_date = last;
        let total = self.rows.len();
        if total > MAX_LOADED_ROWS {
            let to_remove = total - MAX_LOADED_ROWS;
            proof {
                lemma_aligned_subrange(self.rows@, self.row_metadata@, to_remove as int, total as int);
            }
            let kept = self.rows.split_off(to_remove);
            let kept_meta = self.row_metadata.split_off(to_remove);
            self.rows = kept;
            self.row_metadata = kept_meta;
            self.state.top_trimmed = true;
            let (ts, date) = head_cursors(&self.row_metadata, Ghost(self.rows@));
            self.state.oldest_loaded_timestamp = ts;
            self.state.first_message_date = date;
            self.state.has_more_messages = true;
        }
    }

    /// Applies the answer to the query of `load_older` (newest first; `None`
    /// when the query failed). The batch is laid out oldest first before the
    /// window, with a separator wherever the date changes; the separator that
    /// opened the window is dropped when the batch ends on its date. If the
    /// window then exceeds `MAX_LOADED_ROWS`, rows are removed from the bottom
    /// down to that many, the bottom counts as trimmed, and the bottom cursors
    /// are recomputed from the ledger. An answer for another generation
    /// changes nothing.
    pub fn finish_load_older(&mut self, generation: u64, batch: Option<Vec<ChatMessage>>)
        requires
            old(self).wf(),
        ensures
            final(self).wf(),
            !old(self).awaits(generation) ==> *final(self) == *old(self),
            old(self).awaits(generation) && batch is None ==> final(self).same_window(*old(self))
                && final(self).state == (ChatViewState { is_loading: false, ..old(self).state }),
            old(self).awaits(generation) && batch is Some ==> {
                &&& final(self).chat == old(self).chat
                &&& final(self).generation == old(self).generation
                &&& final(self).rows@ == keep_head(
                    prepended(old(self).rows@, old(self).state.first_message_date, batch->0@),
                )
                &&& final(self).state == old(self).after_older(batch->0@, final(self).rows@)
                &&& final(self).rows@.len() <= MAX_LOADED_ROWS
            },
            old(self).consistent() && (old(self).awaits(generation) ==> (batch matches Some(b)
                ==> old(self).fits_before(b@))) ==> final(self).consistent(),
            old(self).chronological() && old(self).cursors_track() && (old(self).awaits(generation)
                ==> (batch matches Some(b) ==> old(self).fits_before(b@))) ==> final(self).chronological(),
            old(self).consistent() && old(self).separated() && (old(self).awaits(generation) ==> (
            batch matches Some(b) ==> old(self).fits_before(b@) && old(self).meets_top(b@)))
                ==> final(self).separated(),
    {
        if !(self.chat.is_some() && self.state.is_loading && generation == self.generation) {
            return ;
        }
        match batch {
            Some(b) => {
                let ghost bs = b@;
                self.prepend_batch(b);
                self.state.is_loading = false;
                proof {
                    if old(self).chronological() && old(self).cursors_track()
                        && old(self).fits_before(bs) {
                        lemma_older_chronological(*old(self), *self, bs);
                    }
                    if old(self).consistent() && old(self).fits_before(bs) {
                        lemma_older_consistent(*old(self), *self, bs);
                        if old(self).separated() && old(self).meets_top(bs) {
                            lemma_older_separated(*old(self), *self, bs);
                        }
                    }
                }
            },
            None => {
                self.state.is_loading = false;
            },
        }
    }

    /// Applies the answer to the query of `load_newer` (oldest first; `None`
    /// when the query failed). A short batch means the true end is reached and
    /// the bottom no longer counts as trimmed. The batch is appended with a
    /// separator wherever the date changes. If the window then exceeds
    /// `MAX_LOADED_ROWS`, rows are removed from the top down to that many, the
    /// top counts as trimmed, older messages are known to exist, and the top
    /// cursors are recomputed from the ledger. An answer for another
    /// generation changes nothing.
    pub fn finish_load_newer(&mut self, generation: u64, batch: Option<Vec<ChatMessage>>)
        requires
            old(self).wf(),
        ensures
            final(self).wf(),
            !old(self).awaits(generation) ==> *final(self) == *old(self),
            old(self).awaits(generation) && batch is None ==> final(self).same_window(*old(self))
                && final(self).state == (ChatViewState { is_loading: false, ..old(self).state }),
            old(self).awaits(generation) && batch is Some ==> {
                &&& final(self).chat == old(self).chat
                &&& final(self).generation == old(self).generation
                &&& final(self).rows@ == keep_tail(
                    appended(old(self).rows@, old(self).state.last_message_date, batch->0@),
                )
                &&& final(self).state == old(self).after_newer(batch->0@, final(self).rows@)
                &&& final(self).rows@.len() <= MAX_LOADED_ROWS
            },
            old(self).consistent() && (old(self).awaits(generation) ==> (batch matches Some(b)
                ==> old(self).fits_after(b@))) ==> final(self).consistent(),
            old(self).chronological() && old(self).cursors_track() && (old(self).awaits(generation)
                ==> (batch matches Some(b) ==> old(self).fits_after(b@))) ==> final(self).chronological(),
            old(self).consistent() && old(self).separated() && (old(self).awaits(generation) ==> (
            batch matches Some(b) ==> old(self).fits_after(b@))) ==> final(self).separated(),
    {
        if !(self.chat.is_some() && self.state.is_loading && generation == self.generation) {
            return ;
        }
        match batch {
            Some(b) => {
                let ghost bs = b@;
                self.append_batch(b);
                self.state.is_loading = false;
                proof {
                    if old(self).chronological() && old(self).cursors_track()
                        && old(self).fits_after(bs) {
                        lemma_newer_chronological(*old(self), *self, bs);
                    }
                    if old(self).consistent() && old(self).fits_after(bs) {
                        lemma_newer_consistent(*old(self), *self, bs);
                        if old(self).separated() {
                            lemma_newer_separated(*old(self), *self, bs);
                        }
                    }
                }
            },
            None => {
                self.state.is_loading = false;
            },
        }
    }
}

/// In a chronological window whose cursors track it, the oldest cursor holds
/// the least timestamp of a loaded message and the newest cursor the greatest;
/// both are unset exactly when no message is loaded.
pub proof fn lemma_cursors_are_extremes(v: ChatView)
    requires
        v.chronological(),
        v.cursors_track(),
    ensures
        v.state.oldest_loaded_timestamp is None <==> (forall|i: int|
            0 <= i < v.rows@.len() ==> !(#[trigger] v.rows@[i] is Message)),
        v.state.newest_loaded_timestamp is None <==> v.state.oldest_loaded_timestamp is None,
        v.state.oldest_loaded_timestamp is Some ==> {
            &&& exists|i: int|
                0 <= i < v.rows@.len() && #[trigger] v.rows@[i] == ChatRow::Message(
                    messages_of(v.rows@)[0],
                ) && messages_of(v.rows@)[0].timestamp == v.state.oldest_loaded_timestamp->0
            &&& exists|i: int|
                0 <= i < v.rows@.len() && #[trigger] v.rows@[i] == ChatRow::Message(
                    messages_of(v.rows@).last(),
                ) && messages_of(v.rows@).last().timestamp
                    == v.state.newest_loaded_timestamp->0
            &&& forall|i: int|
                0 <= i < v.rows@.len() && (#[trigger] v.rows@[i] is Message) ==> {
                    &&& v.state.oldest_loaded_timestamp->0 <= v.rows@[i]->Message_0.timestamp
                    &&& v.rows@[i]->Message_0.timestamp <= v.state.newest_loaded_timestamp->0
                }
        },
{
    let rows = v.rows@;
    let ms = messages_of(rows);
    if ms.len() == 0 {
        assert forall|i: int| 0 <= i < rows.len() implies !(#[trigger] rows[i] is Message) by {
            if rows[i] is Message {
                let _ = lemma_message_in_sequence(rows, i);
            }
        }
    } else {
        let i0 = lemma_message_source(rows, 0);
        let i1 = lemma_message_source(rows, ms.len() - 1);
        assert(!(rows[i0] is Message) == false);
        assert forall|i: int| 0 <= i < rows.len() && (#[trigger] rows[i] is Message) implies {
            &&& v.state.oldest_loaded_timestamp->0 <= rows[i]->Message_0.timestamp
            &&& rows[i]->Message_0.timestamp <= v.state.newest_loaded_timestamp->0
        } by {
            let k = lemma_message_in_sequence(rows, i);
            lemma_between_ends(ms, k);
        }
    }
}

/// In a window whose separators are in order, a separator never carries the
/// date of the nearest separator before it with only messages between; with
/// `consistent`, no two adjacent rows are separators either.
pub proof fn lemma_separators_apart(v: ChatView, i: int, j: int)
    requires
        v.wf(),
        v.separated(),
        0 <= i < j < v.rows@.len(),
        v.rows@[i] is DateSeparator,
        v.rows@[j] is DateSeparator,
        forall|k: int| i < k < j ==> #[trigger] v.rows@[k] is Message,
    ensures
        v.rows@[i]->DateSeparator_0 != v.rows@[j]->DateSeparator_0,
{
    let rows = v.rows@;
    let ds = separators_of(rows);
    lemma_separator_index(rows, i);
    lemma_separator_index(rows, j);
    let between = rows.subrange(i + 1, j);
    assert(rows.subrange(0, j) =~= rows.subrange(0, i + 1) + between);
    assert forall|k: int| 0 <= k < between.len() implies #[trigger] between[k] is Message by {
        assert(rows[i + 1 + k] is Message);
    }
    lemma_messages_only(between);
    lemma_messages_of_add(rows.subrange(0, i + 1), between);
    assert(separators_of(rows.subrange(0, j)) =~= separators_of(rows.subrange(0, i + 1)));
    let c = separators_of(rows.subrange(0, i)).len() as int;
    assert(ds[c + 1] != ds[c + 1 - 1]);
}

/// Opening a conversation twice in a row over the same answer of the log
/// leaves the state exactly as opening it once did; the rows are
/// `initial_rows(batch)` both times, whatever the viewport held before.
pub proof fn lemma_reopen_identical(st: ChatViewState, batch: Seq<ChatMessage>)
    ensures
        after_initial(reset_for_open(after_initial(reset_for_open(st), batch)), batch)
            == after_initial(reset_for_open(st), batch),
{
}

/// Loading older messages into a chronological window whose cursors track it
/// keeps it chronological.
proof fn lemma_older_chronological(o: ChatView, f: ChatView, b: Seq<ChatMessage>)
    requires
        o.chronological(),
        o.cursors_track(),
        o.fits_before(b),
        f.rows@ == keep_head(prepended(o.rows@, o.state.first_message_date, b)),
    ensures
        f.chronological(),
{
    let rows = o.rows@;
    let p = prepended(rows, o.state.first_message_date, b);
    let ms = messages_of(rows);
    assert(ms.len() > 0 && ms[0].timestamp == o.state.oldest_loaded_timestamp->0);
    lemma_prepended(rows, o.state.first_message_date, b);
    lemma_prepended_chronological(ms, b);
    if p.len() > MAX_LOADED_ROWS {
        let k = MAX_LOADED_ROWS as int;
        assert(p =~= f.rows@ + p.subrange(k, p.len() as int));
        lemma_messages_of_add(f.rows@, p.subrange(k, p.len() as int));
        lemma_non_decreasing_parts(messages_of(f.rows@), messages_of(p.subrange(k, p.len() as int)));
    }
}

/// Loading newer messages into a chronological window whose cursors track it
/// keeps it chronological.
proof fn lemma_newer_chronological(o: ChatView, f: ChatView, b: Seq<ChatMessage>)
    requires
        o.chronological(),
        o.cursors_track(),
        o.fits_after(b),
        f.rows@ == keep_tail(appended(o.rows@, o.state.last_message_date, b)),
    ensures
        f.chronological(),
{
    let rows = o.rows@;
    let p = appended(rows, o.state.last_message_date, b);
    let ms = messages_of(rows);
    assert(ms.len() > 0 && ms.last().timestamp == o.state.newest_loaded_timestamp->0);
    lemma_appended(rows, o.state.last_message_date, b);
    lemma_appended_chronological(ms, b);
    if p.len() > MAX_LOADED_ROWS {
        let k = p.len() - MAX_LOADED_ROWS;
        assert(p =~= p.subrange(0, k) + f.rows@);
        lemma_messages_of_add(p.subrange(0, k), f.rows@);
        lemma_non_decreasing_parts(messages_of(p.subrange(0, k)), messages_of(f.rows@));
    }
}

/// Loading older messages into a consistent window keeps it consistent.
proof fn lemma_older_consistent(o: ChatView, f: ChatView, b: Seq<ChatMessage>)
    requires
        o.consistent(),
        o.fits_before(b),
        f.wf(),
        f.rows@ == keep_head(prepended(o.rows@, o.state.first_message_date, b)),
        f.state == o.after_older(b, f.rows@),
    ensures
        f.consistent(),
{
    let rows = o.rows@;
    let p = prepended(rows, o.state.first_message_date, b);
    let ms = messages_of(rows);
    assert(ms.len() > 0 && ms[0].timestamp == o.state.oldest_loaded_timestamp->0);
    lemma_prepended(rows, o.state.first_message_date, b);
    assert(non_decreasing(b.reverse() + ms)) by {
        lemma_prepended_chronological(ms, b);
    }
    if p.len() > MAX_LOADED_ROWS {
        lemma_keep_head_of(p, f.rows@, f.row_metadata@);
    } else {
        assert(f.rows@ == p);
    }
    assert(f.state.oldest_loaded_timestamp == first_message_ts(f.rows@));
    assert(f.state.newest_loaded_timestamp == last_message_ts(f.rows@));
}

/// Loading newer messages into a consistent window keeps it consistent.
proof fn lemma_newer_consistent(o: ChatView, f: ChatView, b: Seq<ChatMessage>)
    requires
        o.consistent(),
        o.fits_after(b),
        f.wf(),
        f.rows@ == keep_tail(appended(o.rows@, o.state.last_message_date, b)),
        f.state == o.after_newer(b, f.rows@),
    ensures
        f.consistent(),
{
    let rows = o.rows@;
    let p = appended(rows, o.state.last_message_date, b);
    let ms = messages_of(rows);
    assert(ms.len() > 0 && ms.last().timestamp == o.state.newest_loaded_timestamp->0);
    lemma_appended(rows, o.state.last_message_date, b);
    assert(non_decreasing(ms + b)) by {
        lemma_appended_chronological(ms, b);
    }
    if p.len() > MAX_LOADED_ROWS {
        lemma_keep_tail_of(p, f.rows@, f.row_metadata@);
    } else {
        assert(f.rows@ == p);
    }
    assert(f.state.oldest_loaded_timestamp == first_message_ts(f.rows@));
    assert(f.state.newest_loaded_timestamp == last_message_ts(f.rows@));
}

/// One message laid out on its own is the rows it adds.
proof fn lemma_single_timeline(m: ChatMessage, prev: Option<CalendarDate>)
    ensures
        timeline(prev, seq![m]) == rows_for(m, prev),
{
    assert(seq![m].drop_last() =~= Seq::<ChatMessage>::empty());
    assert(timeline(prev, Seq::<ChatMessage>::empty()) + rows_for(m, prev) =~= rows_for(m, prev));
}

/// Laying out a run after a window whose running date is its last separator's
/// keeps separator dates changing, and the new running date is again the last
/// separator's.
proof fn lemma_appended_separated(rows: Seq<ChatRow>, last: Option<CalendarDate>, b: Seq<ChatMessage>)
    requires
        dates_change(separators_of(rows)),
        separators_of(rows).len() > 0 ==> last == last_separator_date(rows),
    ensures
        dates_change(separators_of(appended(rows, last, b))),
        separators_of(appended(rows, last, b)).len() > 0 ==> tail_date(last, b)
            == last_separator_date(appended(rows, last, b)),
        separators_of(appended(rows, last, b)) == separators_of(rows) + separators_of(
            timeline(last, b),
        ),
{
    let t = timeline(last, b);
    lemma_messages_of_add(rows, t);
    lemma_timeline_separators(last, b);
    lemma_dates_change_add(separators_of(rows), separators_of(t));
    let ds = separators_of(rows) + separators_of(t);
    if separators_of(t).len() > 0 {
        assert(ds.last() == separators_of(t).last());
    } else {
        assert(ds =~= separators_of(rows));
    }
}

/// Loading older messages into a window whose separators are in order keeps
/// them in order.
proof fn lemma_older_separated(o: ChatView, f: ChatView, b: Seq<ChatMessage>)
    requires
        o.consistent(),
        o.separated(),
        o.meets_top(b),
        f.rows@ == keep_head(prepended(o.rows@, o.state.first_message_date, b)),
        f.state == o.after_older(b, f.rows@),
    ensures
        f.separated(),
{
    let rows = o.rows@;
    let first = o.state.first_message_date;
    let p = prepended(rows, first, b);
    let pre = timeline(None, b.reverse());
    lemma_prepended_separators(rows, first, o.state.last_message_date, b);
    if p.len() > MAX_LOADED_ROWS {
        let k = MAX_LOADED_ROWS as int;
        assert(p =~= f.rows@ + p.subrange(k, p.len() as int));
        lemma_messages_of_add(f.rows@, p.subrange(k, p.len() as int));
        lemma_dates_change_parts(separators_of(f.rows@), separators_of(p.subrange(k, p.len() as int)));
        assert(f.rows@[0] == p[0]);
    }
}

/// Separators of a prepended window, before trimming.
proof fn lemma_prepended_separators(
    rows: Seq<ChatRow>,
    first: Option<CalendarDate>,
    last: Option<CalendarDate>,
    b: Seq<ChatMessage>,
)
    requires
        dates_change(separators_of(rows)),
        separators_of(rows).len() > 0 ==> last == last_separator_date(rows),
        rows.len() > 0 && rows[0] is DateSeparator ==> first == Some(rows[0]->DateSeparator_0),
        b.len() > 0 && !(rows.len() > 0 && rows[0] is DateSeparator) ==> first_separator_date(rows)
            != Some(b[0].date),
        b.len() > 0 && separators_of(rows).len() == 0 ==> last == Some(b[0].date),
    ensures
        dates_change(separators_of(prepended(rows, first, b))),
        separators_of(prepended(rows, first, b)).len() > 0 ==> last == last_separator_date(
            prepended(rows, first, b),
        ),
        prepended(rows, first, b).len() > 0 && prepended(rows, first, b)[0] is DateSeparator
            ==> (if b.len() > 0 {
            Some(b.last().date)
        } else {
            first
        }) == Some(prepended(rows, first, b)[0]->DateSeparator_0),
{
    let pre = timeline(None, b.reverse());
    let p = prepended(rows, first, b);
    let ds = separators_of(rows);
    lemma_timeline_shape(None, b.reverse());
    lemma_timeline_separators(None, b.reverse());
    if b.len() == 0 {
        assert(pre.len() == 0);
        assert(p =~= rows);
    } else {
        let dp = separators_of(pre);
        assert(b.reverse().last() == b[0]);
        assert(b.reverse()[0] == b.last());
        assert(dp.len() > 0 && dp.last() == b[0].date) by {
            assert(pre[0] is DateSeparator);
            lemma_separator_index(pre, 0);
        }
        if separator_repeated(rows, first, b) {
            let rest = rows.subrange(1, rows.len() as int);
            assert(rows =~= seq![rows[0]] + rest);
            lemma_messages_of_add(seq![rows[0]], rest);
            lemma_separator_index(rows, 0);
            assert(rows.subrange(0, 0) =~= Seq::<ChatRow>::empty());
            assert(separators_of(Seq::<ChatRow>::empty()) == Seq::<CalendarDate>::empty());
            assert(rows.subrange(0, 1) =~= seq![rows[0]]);
            assert(separators_of(seq![rows[0]]) =~= seq![rows[0]->DateSeparator_0]);
            assert(separators_of(rest) =~= ds.subrange(1, ds.len() as int));
            assert((pre + rows).remove(pre.len() as int) =~= pre + rest);
            lemma_messages_of_add(pre, rest);
            lemma_dates_change_parts(seq![rows[0]->DateSeparator_0], separators_of(rest));
            if separators_of(rest).len() > 0 {
                assert(separators_of(rest)[0] == ds[1]);
                assert(ds[1] != ds[0]);
            }
            lemma_dates_change_add(dp, separators_of(rest));
            let all = dp + separators_of(rest);
            if separators_of(rest).len() > 0 {
                assert(all.last() == ds.last());
            } else {
                assert(all.last() == dp.last());
            }
            assert(p[0] == pre[0]);
        } else {
            lemma_messages_of_add(pre, rows);
            if ds.len() > 0 {
                if rows[0] is DateSeparator {
                    lemma_separator_index(rows, 0);
                    assert(rows.subrange(0, 0) =~= Seq::<ChatRow>::empty());
                    assert(separators_of(Seq::<ChatRow>::empty()) == Seq::<CalendarDate>::empty());
                }
                assert(dp.last() != ds[0]);
            }
            lemma_dates_change_add(dp, ds);
            let all = dp + ds;
            if ds.len() > 0 {
                assert(all.last() == ds.last());
            } else {
                assert(all.last() == dp.last());
            }
            assert(p[0] == pre[0]);
        }
    }
}

/// Loading newer messages into a window whose separators are in order keeps
/// them in order.
proof fn lemma_newer_separated(o: ChatView, f: ChatView, b: Seq<ChatMessage>)
    requires
        o.consistent(),
        o.separated(),
        o.fits_after(b),
        f.wf(),
        f.rows@ == keep_tail(appended(o.rows@, o.state.last_message_date, b)),
        f.state == o.after_newer(b, f.rows@),
    ensures
        f.separated(),
{
    let rows = o.rows@;
    let p = appended(rows, o.state.last_message_date, b);
    lemma_appended_separated(rows, o.state.last_message_date, b);
    let ms = messages_of(rows);
    assert(ms.len() > 0);
    assert(rows.len() > 0) by {
        if rows.len() == 0 {
            assert(messages_of(rows) == Seq::<ChatMessage>::empty());
        }
    }
    if p.len() > MAX_LOADED_ROWS {
        let k = p.len() - MAX_LOADED_ROWS;
        let kept = f.rows@;
        assert(p =~= p.subrange(0, k) + kept);
        lemma_messages_of_add(p.subrange(0, k), kept);
        lemma_dates_change_parts(separators_of(p.subrange(0, k)), separators_of(kept));
        if separators_of(kept).len() > 0 {
            assert((separators_of(p.subrange(0, k)) + separators_of(kept)).last() == separators_of(
                kept,
            ).last());
        }
        if kept.len() > 0 && kept[0] is DateSeparator {
            lemma_separator_index(kept, 0);
            assert(kept.subrange(0, 0) =~= Seq::<ChatRow>::empty());
            assert(separators_of(Seq::<ChatRow>::empty()) == Seq::<CalendarDate>::empty());
        }
    } else {
        assert(f.rows@ == p);
        assert(p[0] == rows[0]);
    }
}

/// Messages, boundary messages and separator spacing of a prepended window.
proof fn lemma_prepended(rows: Seq<ChatRow>, first_date: Option<CalendarDate>, b: Seq<ChatMessage>)
    ensures
        messages_of(prepended(rows, first_date, b)) == b.reverse() + messages_of(rows),
        first_message_ts(prepended(rows, first_date, b)) == if b.len() > 0 {
            Some(b.last().timestamp)
        } else {
            first_message_ts(rows)
        },
        messages_of(rows).len() > 0 ==> last_message_ts(prepended(rows, first_date, b))
            == last_message_ts(rows),
        no_adjacent_separators(rows) ==> no_adjacent_separators(prepended(rows, first_date, b)),
{
    let pre = timeline(None, b.reverse());
    let p = prepended(rows, first_date, b);
    lemma_timeline_messages(None, b.reverse());
    lemma_timeline_shape(None, b.reverse());
    lemma_messages_of_add(pre, rows);
    if separator_repeated(rows, first_date, b) {
        lemma_remove_separator(pre + rows, pre.len() as int);
    }
    assert(messages_of(p) == b.reverse() + messages_of(rows));
    if b.len() > 0 {
        assert(b.reverse()[0] == b.last());
        assert((b.reverse() + messages_of(rows))[0] == b.last());
    }
    if messages_of(rows).len() > 0 {
        assert((b.reverse() + messages_of(rows)).last() == messages_of(rows).last());
    }
    if no_adjacent_separators(rows) {
        lemma_no_adjacent_add(pre, rows);
        if separator_repeated(rows, first_date, b) {
            lemma_no_adjacent_remove(pre + rows, pre.len() as int);
        }
    }
}

/// A batch no newer than the first message, given newest first, keeps the
/// window chronological once laid out before it.
proof fn lemma_prepended_chronological(ms: Seq<ChatMessage>, b: Seq<ChatMessage>)
    requires
        non_decreasing(ms),
        non_increasing(b),
        ms.len() > 0,
        forall|i: int| 0 <= i < b.len() ==> #[trigger] b[i].timestamp <= ms[0].timestamp,
    ensures
        non_decreasing(b.reverse() + ms),
{
    lemma_reverse_non_decreasing(b);
    assert forall|x: int, y: int|
        0 <= x < b.reverse().len() && 0 <= y < ms.len() implies #[trigger] b.reverse()[x].timestamp
        <= #[trigger] ms[y].timestamp by {
        assert(b.reverse()[x] == b[b.len() - 1 - x]);
        lemma_between_ends(ms, y);
    }
    lemma_non_decreasing_add(b.reverse(), ms);
}

proof fn lemma_keep_head_of(p: Seq<ChatRow>, kept: Seq<ChatRow>, meta: Seq<RowMetadata>)
    requires
        kept == keep_head(p),
        aligned(kept, meta),
        p.len() > MAX_LOADED_ROWS,
        no_adjacent_separators(p),
        non_decreasing(messages_of(p)),
    ensures
        non_decreasing(messages_of(kept)),
        no_adjacent_separators(kept),
        first_message_ts(kept) == first_message_ts(p),
{
    let k = MAX_LOADED_ROWS as int;
    assert(p =~= kept + p.subrange(k, p.len() as int));
    lemma_messages_of_add(kept, p.subrange(k, p.len() as int));
    lemma_non_decreasing_parts(messages_of(kept), messages_of(p.subrange(k, p.len() as int)));
    lemma_no_adjacent_subrange(p, 0, k);
    let i = lemma_message_among_two(kept, meta, 0);
    assert(kept[i] == p[i]);
    lemma_first_message_kept(p, k, i);
}

proof fn lemma_keep_tail_of(p: Seq<ChatRow>, kept: Seq<ChatRow>, meta: Seq<RowMetadata>)
    requires
        kept == keep_tail(p),
        aligned(kept, meta),
        p.len() > MAX_LOADED_ROWS,
        no_adjacent_separators(p),
        non_decreasing(messages_of(p)),
    ensures
        non_decreasing(messages_of(kept)),
        no_adjacent_separators(kept),
        last_message_ts(kept) == last_message_ts(p),
{
    let k = p.len() - MAX_LOADED_ROWS;
    assert(p =~= p.subrange(0, k) + kept);
    lemma_messages_of_add(p.subrange(0, k), kept);
    lemma_non_decreasing_parts(messages_of(p.subrange(0, k)), messages_of(kept));
    lemma_no_adjacent_subrange(p, k, p.len() as int);
    let i = lemma_message_among_two(kept, meta, kept.len() - 2);
    assert(kept[i] == p[k + i]);
    lemma_last_message_kept(p, k, k + i);
}

/// Messages, boundary messages and separator spacing of an extended window.
proof fn lemma_appended(rows: Seq<ChatRow>, last_date: Option<CalendarDate>, b: Seq<ChatMessage>)
    ensures
        messages_of(appended(rows, last_date, b)) == messages_of(rows) + b,
        last_message_ts(appended(rows, last_date, b)) == if b.len() > 0 {
            Some(b.last().timestamp)
        } else {
            last_message_ts(rows)
        },
        messages_of(rows).len() > 0 ==> first_message_ts(appended(rows, last_date, b))
            == first_message_ts(rows),
        no_adjacent_separators(rows) && (ends_with_separator(rows) && b.len() > 0
            ==> last_date == Some(b[0].date)) ==> no_adjacent_separators(
            appended(rows, last_date, b),
        ),
{
    let post = timeline(last_date, b);
    lemma_timeline_messages(last_date, b);
    lemma_timeline_shape(last_date, b);
    lemma_messages_of_add(rows, post);
    if b.len() > 0 {
        assert((messages_of(rows) + b).last() == b.last());
    }
    if messages_of(rows).len() > 0 {
        assert((messages_of(rows) + b)[0] == messages_of(rows)[0]);
    }
    if no_adjacent_separators(rows) && (ends_with_separator(rows) && b.len() > 0 ==> last_date
        == Some(b[0].date)) {
        lemma_no_adjacent_add(rows, post);
    }
}

/// A batch no older than the last message, given oldest first, keeps the
/// window chronological once laid out after it.
proof fn lemma_appended_chronological(ms: Seq<ChatMessage>, b: Seq<ChatMessage>)
    requires
        non_decreasing(ms),
        non_decreasing(b),
        ms.len() > 0,
        forall|i: int| 0 <= i < b.len() ==> ms.last().timestamp <= #[trigger] b[i].timestamp,
    ensures
        non_decreasing(ms + b),
{
    assert forall|x: int, y: int|
        0 <= x < ms.len() && 0 <= y < b.len() implies #[trigger] ms[x].timestamp
        <= #[trigger] b[y].timestamp by {
        lemma_between_ends(ms, x);
    }
    lemma_non_decreasing_add(ms, b);
}

proof fn lemma_reverse_reverse(s: Seq<ChatMessage>)
    ensures
        s.reverse().reverse() == s,
{
    assert(s.reverse().reverse() =~= s);
}

/// The messages of `v` in the opposite order.
fn reversed(v: Vec<ChatMessage>) -> (r: Vec<ChatMessage>)
    ensures
        r@ == v@.reverse(),
{
    let ghost orig = v@;
    let ghost n = orig.len() as int;
    let mut v = v;
    let mut r: Vec<ChatMessage> = Vec::new();
    assert(orig.subrange(n, n).reverse() =~= r@);
    while v.len() > 0
        invariant
            n == orig.len(),
            v@.len() <= n,
            v@ == orig.subrange(0, v@.len() as int),
            r@ == orig.subrange(v@.len() as int, n).reverse(),
        decreases v@.len(),
    {
        let ghost j = v@.len() as int - 1;
        if let Some(m) = v.pop() {
            r.push(m);
            assert(r@ =~= orig.subrange(j, n).reverse());
        }
    }
    assert(orig.subrange(0, n) =~= orig);
    r
}

} // verus!
