use papo::rows::{CalendarDate, ChatMessage, ChatRow, RowMetadata};
use papo::viewport::{
    ChatView, StoreRequest, INITIAL_LOAD_COUNT, LOAD_MORE_COUNT, MAX_LOADED_ROWS,
};

const CHAT: &str = "5511999999999@s.whatsapp.net";
const DAY0: i64 = 1_714_521_600;

fn date_of_day(day: i64) -> CalendarDate {
    CalendarDate { year: 2024, month: 5, day: 1 + day as u32 }
}

fn message(index: i64, per_day: i64) -> ChatMessage {
    let day = index / per_day;
    ChatMessage {
        id: format!("m{index}"),
        chat_jid: CHAT.to_string(),
        sender_jid: "1@s.whatsapp.net".to_string(),
        sender_name: None,
        unread: false,
        content: format!("message {index}"),
        outgoing: index % 2 == 0,
        timestamp: DAY0 + day * 86_400 + (index % per_day) * 60,
        date: date_of_day(day),
    }
}

/// A conversation log holding `count` messages, oldest first.
fn log(count: i64, per_day: i64) -> Vec<ChatMessage> {
    (0..count).map(|i| message(i, per_day)).collect()
}

/// Answers a query the way the conversation log does.
fn answer(log: &[ChatMessage], request: &StoreRequest) -> (u64, Vec<ChatMessage>) {
    match request {
        StoreRequest::Recent { generation, limit, .. } => {
            (*generation, log.iter().rev().take(*limit).cloned().collect())
        }
        StoreRequest::Before { generation, timestamp, limit, .. } => (
            *generation,
            log.iter().rev().filter(|m| m.timestamp < *timestamp).take(*limit).cloned().collect(),
        ),
        StoreRequest::After { generation, timestamp, limit, .. } => (
            *generation,
            log.iter().filter(|m| m.timestamp > *timestamp).take(*limit).cloned().collect(),
        ),
    }
}

fn opened(log: &[ChatMessage], unread: usize) -> (ChatView, Option<usize>, Option<String>) {
    let mut view = ChatView::new();
    let request = view.open(CHAT.to_string());
    let (generation, batch) = answer(log, &request);
    let outcome = view.finish_open(generation, Some(batch), Some(unread));
    (view, outcome.scroll_to, outcome.mark_read)
}

fn message_ids(view: &ChatView) -> Vec<String> {
    view.rows
        .iter()
        .filter_map(|r| match r {
            ChatRow::Message(m) => Some(m.id.clone()),
            _ => None,
        })
        .collect()
}

fn separator_count(view: &ChatView) -> usize {
    view.rows.iter().filter(|r| matches!(r, ChatRow::DateSeparator(_))).count()
}

fn load_older(view: &mut ChatView, log: &[ChatMessage]) -> bool {
    match view.load_older() {
        Some(request) => {
            let (generation, batch) = answer(log, &request);
            view.finish_load_older(generation, Some(batch));
            true
        }
        None => false,
    }
}

fn load_newer(view: &mut ChatView, log: &[ChatMessage]) -> bool {
    match view.load_newer() {
        Some(request) => {
            let (generation, batch) = answer(log, &request);
            view.finish_load_newer(generation, Some(batch));
            true
        }
        None => false,
    }
}

/// Message timestamps never decrease, cursors name the first and last message,
/// no two separators are adjacent, consecutive separators carry different
/// dates, and the ledger mirrors the rows.
fn assert_window_sound(view: &ChatView) {
    let stamps: Vec<i64> = view
        .rows
        .iter()
        .filter_map(|r| match r {
            ChatRow::Message(m) => Some(m.timestamp),
            _ => None,
        })
        .collect();
    assert!(stamps.windows(2).all(|w| w[0] <= w[1]));
    assert_eq!(view.state.oldest_loaded_timestamp, stamps.iter().min().copied());
    assert_eq!(view.state.newest_loaded_timestamp, stamps.iter().max().copied());
    for w in view.rows.windows(2) {
        assert!(!(matches!(w[0], ChatRow::DateSeparator(_))
            && matches!(w[1], ChatRow::DateSeparator(_))));
    }
    let dates: Vec<CalendarDate> = view
        .rows
        .iter()
        .filter_map(|r| match r {
            ChatRow::DateSeparator(d) => Some(*d),
            _ => None,
        })
        .collect();
    assert!(dates.windows(2).all(|w| w[0] != w[1]));
    assert_eq!(view.rows.len(), view.row_metadata.len());
    for (row, meta) in view.rows.iter().zip(view.row_metadata.iter()) {
        match (row, meta) {
            (ChatRow::Message(m), RowMetadata::Message(t)) => assert_eq!(m.timestamp, *t),
            (ChatRow::DateSeparator(d), RowMetadata::Separator(e)) => assert_eq!(d, e),
            _ => panic!("ledger out of step with the rows"),
        }
    }
}

#[test]
fn initial_open_loads_most_recent_with_separators() {
    let log = log(150, 50);
    let (view, scroll_to, mark_read) = opened(&log, 0);
    let expected: Vec<String> = (30..150).map(|i| format!("m{i}")).collect();
    assert_eq!(message_ids(&view), expected);
    assert!(view.state.has_more_messages);
    assert_eq!(separator_count(&view), 3);
    assert_eq!(view.rows.len(), 123);
    assert_eq!(view.rows[0], ChatRow::DateSeparator(date_of_day(0)));
    assert_eq!(view.rows[1], ChatRow::Message(log[30].clone()));
    assert_eq!(view.rows[21], ChatRow::DateSeparator(date_of_day(1)));
    assert_eq!(view.rows[22], ChatRow::Message(log[50].clone()));
    assert_eq!(view.rows[72], ChatRow::DateSeparator(date_of_day(2)));
    assert_eq!(view.rows[73], ChatRow::Message(log[100].clone()));
    assert_eq!(scroll_to, Some(122));
    assert!(view.state.is_at_bottom);
    assert!(!view.state.is_loading);
    assert_eq!(mark_read, None);
    assert_eq!(view.state.oldest_loaded_timestamp, Some(log[30].timestamp));
    assert_eq!(view.state.newest_loaded_timestamp, Some(log[149].timestamp));
    assert_eq!(view.state.first_message_date, Some(date_of_day(0)));
    assert_eq!(view.state.last_message_date, Some(date_of_day(2)));
    assert_window_sound(&view);
}

#[test]
fn open_with_unread_messages_asks_to_mark_read() {
    let log = log(10, 50);
    let (_, _, mark_read) = opened(&log, 3);
    assert_eq!(mark_read, Some(CHAT.to_string()));
}

#[test]
fn short_first_page_means_no_more_history() {
    let log = log(40, 50);
    let (mut view, _, _) = opened(&log, 0);
    assert!(!view.state.has_more_messages);
    assert_eq!(view.rows.len(), 41);
    assert!(view.load_older().is_none());
}

#[test]
fn backward_pagination_trims_the_bottom_when_crossing_the_ceiling() {
    let log = log(1000, 100);
    let (mut view, _, _) = opened(&log, 0);
    let newest_id = log[999].id.clone();
    let mut steps = 0;
    loop {
        assert!(view.rows.len() <= MAX_LOADED_ROWS);
        assert!(!view.state.bottom_trimmed);
        assert!(load_older(&mut view, &log));
        steps += 1;
        assert_window_sound(&view);
        // Rows the window would hold untrimmed: every message loaded so far
        // and one separator per day they cover.
        let oldest = 1000 - INITIAL_LOAD_COUNT - steps * LOAD_MORE_COUNT;
        let untrimmed = (1000 - oldest) + (10 - oldest / 100);
        assert_eq!(view.state.bottom_trimmed, untrimmed > MAX_LOADED_ROWS);
        if view.state.bottom_trimmed {
            assert_eq!(view.rows.len(), MAX_LOADED_ROWS);
            break;
        }
        assert_eq!(view.rows.len(), untrimmed);
    }
    assert!(steps > 1);
    let ids = message_ids(&view);
    // The rows just prepended are kept, the newest ones were dropped.
    let oldest_requested = 1000 - INITIAL_LOAD_COUNT - steps * LOAD_MORE_COUNT;
    assert_eq!(ids[0], format!("m{oldest_requested}"));
    assert!(!ids.contains(&newest_id));
    assert_eq!(view.state.newest_loaded_timestamp.unwrap(), {
        let last = ids.last().unwrap();
        log.iter().find(|m| &m.id == last).unwrap().timestamp
    });
}

#[test]
fn live_message_is_dropped_while_the_bottom_is_trimmed() {
    let log = log(150, 50);
    let (mut view, _, _) = opened(&log, 0);
    view.state.bottom_trimmed = true;
    let rows_before = view.rows.clone();
    let meta_before = view.row_metadata.clone();
    let arrival = view.message_arrived(message(150, 50));
    assert!(!arrival.appended);
    assert_eq!(arrival.mark_read, None);
    assert_eq!(view.rows, rows_before);
    assert_eq!(view.row_metadata, meta_before);
}

#[test]
fn scroll_to_bottom_reloads_a_trimmed_window() {
    let log = log(150, 50);
    let (mut view, _, _) = opened(&log, 0);
    let fresh = view.rows.clone();
    assert!(load_older(&mut view, &log));
    assert_eq!(view.rows.len(), 153);
    assert!(view.state.top_trimmed);
    let jump = view.scroll_to_bottom();
    assert!(view.rows.is_empty());
    assert!(view.row_metadata.is_empty());
    assert_eq!(jump.scroll_to, None);
    let request = jump.request.expect("a trimmed window is reloaded");
    assert!(matches!(request, StoreRequest::Recent { limit: INITIAL_LOAD_COUNT, .. }));
    let (generation, batch) = answer(&log, &request);
    let scroll_to = view.finish_reload(generation, Some(batch));
    assert_eq!(view.rows, fresh);
    assert_eq!(scroll_to, Some(fresh.len() - 1));
    assert!(!view.state.top_trimmed);
    assert!(!view.state.bottom_trimmed);
    assert!(view.state.is_at_bottom);
    assert_window_sound(&view);
}

#[test]
fn scroll_to_bottom_of_an_untrimmed_window_only_scrolls() {
    let log = log(150, 50);
    let (mut view, _, _) = opened(&log, 0);
    // An opened window counts its top as trimmed: clear that to get an
    // untrimmed window.
    assert!(view.state.top_trimmed);
    view.state.top_trimmed = false;
    view.state.is_at_bottom = false;
    let jump = view.scroll_to_bottom();
    assert!(jump.request.is_none());
    assert!(view.state.is_at_bottom);
    assert_eq!(jump.scroll_to, Some(122));
    assert_eq!(view.rows.len(), 123);
}

#[test]
fn reopening_gives_identical_rows() {
    let log = log(150, 50);
    let mut view = ChatView::new();
    let request = view.open(CHAT.to_string());
    let (generation, batch) = answer(&log, &request);
    view.finish_open(generation, Some(batch), Some(0));
    let first = view.rows.clone();
    let first_meta = view.row_metadata.clone();
    let request = view.open(CHAT.to_string());
    let (generation, batch) = answer(&log, &request);
    view.finish_open(generation, Some(batch), Some(0));
    assert_eq!(view.rows, first);
    assert_eq!(view.row_metadata, first_meta);
}

#[test]
fn load_older_while_loading_does_nothing() {
    let log = log(150, 50);
    let (mut view, _, _) = opened(&log, 0);
    let first = view.load_older();
    assert!(first.is_some());
    assert!(view.state.is_loading);
    let rows = view.rows.clone();
    let generation = view.generation;
    assert!(view.load_older().is_none());
    assert!(view.state.is_loading);
    assert_eq!(view.rows, rows);
    assert_eq!(view.generation, generation);
}

#[test]
fn prepending_drops_the_repeated_separator() {
    let log = log(150, 50);
    let (mut view, _, _) = opened(&log, 0);
    // Messages 0..29 share the date of the window's first separator.
    assert!(load_older(&mut view, &log));
    assert_eq!(separator_count(&view), 3);
    assert_eq!(view.rows.len(), 153);
    assert_eq!(view.rows[0], ChatRow::DateSeparator(date_of_day(0)));
    assert!(!view.state.has_more_messages);
    assert_eq!(view.state.oldest_loaded_timestamp, Some(log[0].timestamp));
    assert_window_sound(&view);
    assert!(!load_older(&mut view, &log));
}

#[test]
fn forward_pagination_trims_the_top() {
    let log = log(1000, 100);
    let (mut view, _, _) = opened(&log, 0);
    while !view.state.bottom_trimmed {
        assert!(load_older(&mut view, &log));
    }
    let mut reached_end = false;
    for _ in 0..20 {
        if !load_newer(&mut view, &log) {
            reached_end = true;
            break;
        }
        assert!(view.rows.len() <= MAX_LOADED_ROWS);
        assert_window_sound(&view);
    }
    assert!(reached_end);
    assert!(!view.state.bottom_trimmed);
    assert!(view.state.top_trimmed);
    assert!(view.state.has_more_messages);
    assert_eq!(message_ids(&view).last(), Some(&log[999].id));
}

#[test]
fn live_message_is_appended_at_the_bottom() {
    let log = log(150, 50);
    let (mut view, _, _) = opened(&log, 0);
    let next_day = message(150, 50);
    let arrival = view.message_arrived(next_day.clone());
    assert!(arrival.appended);
    assert_eq!(arrival.mark_read, Some(CHAT.to_string()));
    assert_eq!(view.rows.len(), 125);
    assert_eq!(view.rows[123], ChatRow::DateSeparator(date_of_day(3)));
    assert_eq!(view.rows[124], ChatRow::Message(next_day.clone()));
    assert_eq!(view.state.newest_loaded_timestamp, Some(next_day.timestamp));
    let same_day = message(151, 50);
    view.state.is_at_bottom = false;
    let arrival = view.message_arrived(same_day.clone());
    assert!(arrival.appended);
    assert_eq!(arrival.mark_read, None);
    assert_eq!(view.rows.len(), 126);
    assert_window_sound(&view);
}

#[test]
fn stale_answers_are_discarded() {
    let log = log(150, 50);
    let (mut view, _, _) = opened(&log, 0);
    let request = view.load_older().unwrap();
    let (generation, batch) = answer(&log, &request);
    view.close();
    let rows = view.rows.clone();
    view.finish_load_older(generation, Some(batch));
    assert_eq!(view.rows, rows);
    assert!(view.rows.is_empty());
    assert!(view.chat.is_none());
    assert!(!view.state.is_loading);
}

#[test]
fn failed_query_only_clears_loading() {
    let log = log(150, 50);
    let (mut view, _, _) = opened(&log, 0);
    let rows = view.rows.clone();
    let request = view.load_older().unwrap();
    let (generation, _) = answer(&log, &request);
    view.finish_load_older(generation, None);
    assert!(!view.state.is_loading);
    assert!(view.state.has_more_messages);
    assert_eq!(view.rows, rows);
}

#[test]
fn scroll_position_triggers_loads() {
    let log = log(300, 100);
    let (mut view, _, _) = opened(&log, 0);
    let request = view.scroll_position_changed(true, false);
    assert!(matches!(request, Some(StoreRequest::Before { limit: LOAD_MORE_COUNT, .. })));
    assert!(!view.state.is_at_bottom);
    assert!(view.state.is_loading);
    let request = view.scroll_position_changed(true, false);
    assert!(request.is_none());
    let request = view.scroll_position_changed(false, true);
    assert!(request.is_none());
    assert!(view.state.is_at_bottom);
}

#[test]
fn closed_viewport_ignores_signals() {
    let mut view = ChatView::new();
    view.close();
    assert!(view.load_older().is_none());
    assert!(view.load_newer().is_none());
    assert!(view.scroll_position_changed(true, true).is_none());
    let jump = view.scroll_to_bottom();
    assert!(jump.request.is_none() && jump.scroll_to.is_none());
    let arrival = view.message_arrived(message(0, 50));
    assert!(!arrival.appended);
    assert!(view.rows.is_empty());
}

#[test]
fn message_from_timestamp_gets_a_calendar_date() {
    let m = ChatMessage::new(
        "id".to_string(),
        CHAT.to_string(),
        "1@s.whatsapp.net".to_string(),
        None,
        true,
        "hi".to_string(),
        false,
        86_400 * 365,
    )
    .expect("a representable timestamp");
    assert_eq!(m.timestamp, 86_400 * 365);
    assert!(m.date.year == 1970 || m.date.year == 1971);
    assert!((1..=12).contains(&m.date.month));
    assert!((1..=31).contains(&m.date.day));
    assert!(m.date.month == 12 || m.date.month == 1);
    assert!(ChatMessage::new(
        String::new(),
        String::new(),
        String::new(),
        None,
        false,
        String::new(),
        false,
        i64::MAX,
    )
    .is_none());
}

use papo::scroll::{PositionChange, ScrollEdges};

#[test]
fn top_is_signalled_once_per_arrival() {
    let mut edges = ScrollEdges::new();
    assert_eq!(edges.observe(true, false), Some(PositionChange { at_top: true, at_bottom: false }));
    assert_eq!(edges.observe(true, false), None);
    assert_eq!(edges.observe(false, false), None);
    assert_eq!(edges.observe(true, false), Some(PositionChange { at_top: true, at_bottom: false }));
}

#[test]
fn bottom_is_signalled_on_change_only() {
    let mut edges = ScrollEdges::new();
    assert_eq!(edges.observe(false, true), None);
    assert_eq!(edges.observe(false, false), Some(PositionChange { at_top: false, at_bottom: false }));
    assert_eq!(edges.observe(false, false), None);
    assert_eq!(edges.observe(false, true), Some(PositionChange { at_top: false, at_bottom: true }));
    assert_eq!(edges.observe(true, false), Some(PositionChange { at_top: true, at_bottom: false }));
    assert!(!edges.was_at_bottom);
}

#[test]
fn bottom_trigger_applies_when_no_older_load_is_due() {
    let log = log(1000, 100);
    let (mut view, _, _) = opened(&log, 0);
    while !view.state.bottom_trimmed {
        assert!(load_older(&mut view, &log));
    }
    view.state.has_more_messages = false;
    assert!(view.state.top_trimmed);
    let request = view.scroll_position_changed(true, true);
    assert!(matches!(request, Some(StoreRequest::After { limit: LOAD_MORE_COUNT, .. })));
    assert!(view.state.is_loading);
    assert!(view.state.is_at_bottom);
}

#[test]
fn empty_conversation_opens_at_the_bottom() {
    let mut view = ChatView::new();
    let request = view.open(CHAT.to_string());
    view.state.is_at_bottom = false;
    let (generation, _) = answer(&[], &request);
    let outcome = view.finish_open(generation, Some(Vec::new()), Some(0));
    assert!(view.rows.is_empty());
    assert_eq!(outcome.scroll_to, None);
    assert!(view.state.is_at_bottom);
    assert!(!view.state.has_more_messages);
}

#[test]
fn extreme_timestamps_are_dated_or_refused_without_panic() {
    let make = |t: i64| {
        ChatMessage::new(
            String::new(),
            String::new(),
            String::new(),
            None,
            false,
            String::new(),
            false,
            t,
        )
    };
    assert!(make(papo::rows::MAX_DATED_TIMESTAMP).is_some());
    assert!(make(papo::rows::MIN_DATED_TIMESTAMP).is_some());
    let last = chrono::DateTime::<chrono::Utc>::MAX_UTC.timestamp();
    let first = chrono::DateTime::<chrono::Utc>::MIN_UTC.timestamp();
    let _ = make(last);
    let _ = make(first);
    assert!(make(last + 1).is_none());
}
