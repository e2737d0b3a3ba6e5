//! Properties of row sequences that the viewport keeps: message order, the
//! spacing of separators, and where the boundary messages lie.

use vstd::prelude::*;
use crate::rows::{
    first_message_ts, last_message_ts, aligned, describes, lemma_messages_of_add, lemma_rows_for, messages_of, non_decreasing,
    non_increasing, rows_for, separators_of, tail_date, timeline, CalendarDate, ChatMessage,
    ChatRow, RowMetadata,
};

verus! {

/// No two adjacent rows are both separators.
pub open spec fn no_adjacent_separators(rows: Seq<ChatRow>) -> bool {
    forall|i: int|
        0 <= i < rows.len() - 1 ==> !(#[trigger] rows[i] is DateSeparator && rows[i
            + 1] is DateSeparator)
}

/// No two consecutive separators (in rendered order) carry the same date.
pub open spec fn dates_change(ds: Seq<CalendarDate>) -> bool {
    forall|k: int| 0 < k < ds.len() ==> #[trigger] ds[k] != ds[k - 1]
}

/// The last row is a separator.
pub open spec fn ends_with_separator(rows: Seq<ChatRow>) -> bool {
    rows.len() > 0 && rows.last() is DateSeparator
}

pub proof fn lemma_no_adjacent_add(a: Seq<ChatRow>, b: Seq<ChatRow>)
    requires
        no_adjacent_separators(a),
        no_adjacent_separators(b),
        !(ends_with_separator(a) && b.len() > 0 && b[0] is DateSeparator),
    ensures
        no_adjacent_separators(a + b),
{
    assert forall|i: int| 0 <= i < (a + b).len() - 1 implies !(#[trigger] (a + b)[i] is DateSeparator
        && (a + b)[i + 1] is DateSeparator) by {
        if i + 1 < a.len() {
            assert(!(a[i] is DateSeparator && a[i + 1] is DateSeparator));
        } else if i >= a.len() {
            let k = i - a.len();
            assert(!(b[k] is DateSeparator && b[k + 1] is DateSeparator));
        }
    }
}

pub proof fn lemma_no_adjacent_subrange(rows: Seq<ChatRow>, lo: int, hi: int)
    requires
        no_adjacent_separators(rows),
        0 <= lo <= hi <= rows.len(),
    ensures
        no_adjacent_separators(rows.subrange(lo, hi)),
{
    assert forall|i: int| 0 <= i < hi - lo - 1 implies !(#[trigger] rows.subrange(lo, hi)[i] is DateSeparator
        && rows.subrange(lo, hi)[i + 1] is DateSeparator) by {
        assert(!(rows[lo + i] is DateSeparator && rows[lo + i + 1] is DateSeparator));
    }
}

/// Dropping a separator that follows a message keeps separators apart.
pub proof fn lemma_no_adjacent_remove(rows: Seq<ChatRow>, k: int)
    requires
        no_adjacent_separators(rows),
        0 < k < rows.len(),
        !(rows[k - 1] is DateSeparator),
    ensures
        no_adjacent_separators(rows.remove(k)),
{
    let r = rows.remove(k);
    assert forall|i: int| 0 <= i < r.len() - 1 implies !(#[trigger] r[i] is DateSeparator
        && r[i + 1] is DateSeparator) by {
        if i + 1 < k {
            assert(!(rows[i] is DateSeparator && rows[i + 1] is DateSeparator));
        } else if i >= k {
            assert(!(rows[i + 1] is DateSeparator && rows[i + 2] is DateSeparator));
        }
    }
}

/// Shape of a laid-out run: separators apart, a message last, and a message
/// first when the run continues the running date.
pub proof fn lemma_timeline_shape(prev: Option<CalendarDate>, msgs: Seq<ChatMessage>)
    ensures
        no_adjacent_separators(timeline(prev, msgs)),
        timeline(prev, msgs).len() >= msgs.len(),
        msgs.len() == 0 ==> timeline(prev, msgs).len() == 0,
        msgs.len() > 0 ==> timeline(prev, msgs).last() == ChatRow::Message(msgs.last()),
        msgs.len() > 0 && prev == Some(msgs[0].date) ==> timeline(prev, msgs)[0] is Message,
        msgs.len() > 0 && prev != Some(msgs[0].date) ==> timeline(prev, msgs)[0]
            == ChatRow::DateSeparator(msgs[0].date) && timeline(prev, msgs)[1] == ChatRow::Message(
            msgs[0],
        ),
    decreases msgs.len(),
{
    if msgs.len() > 0 {
        let init = msgs.drop_last();
        let t = timeline(prev, init);
        let r = rows_for(msgs.last(), tail_date(prev, init));
        lemma_timeline_shape(prev, init);
        assert(no_adjacent_separators(r));
        lemma_no_adjacent_add(t, r);
        if init.len() > 0 {
            assert(init[0] == msgs[0]);
        }
    }
}

/// The message of row `i` stands in the message sequence, at the index given
/// by the number of messages before it.
pub proof fn lemma_message_index(rows: Seq<ChatRow>, i: int)
    requires
        0 <= i < rows.len(),
        rows[i] is Message,
    ensures
        messages_of(rows.subrange(0, i)).len() < messages_of(rows).len(),
        messages_of(rows)[messages_of(rows.subrange(0, i)).len() as int] == rows[i]->Message_0,
{
    let head = rows.subrange(0, i);
    let mid = rows.subrange(i, i + 1);
    let tail = rows.subrange(i + 1, rows.len() as int);
    assert(rows =~= head + (mid + tail));
    lemma_messages_of_add(head, mid + tail);
    lemma_messages_of_add(mid, tail);
    assert(mid.drop_last() =~= Seq::<ChatRow>::empty());
    assert(messages_of(Seq::<ChatRow>::empty()) == Seq::<ChatMessage>::empty());
}

/// Every entry of the message sequence comes from a message row.
pub proof fn lemma_message_source(rows: Seq<ChatRow>, k: int) -> (i: int)
    requires
        0 <= k < messages_of(rows).len(),
    ensures
        0 <= i < rows.len(),
        rows[i] == ChatRow::Message(messages_of(rows)[k]),
    decreases rows.len(),
{
    let init = rows.drop_last();
    if k < messages_of(init).len() {
        let i = lemma_message_source(init, k);
        assert(messages_of(rows)[k] == messages_of(init)[k]);
        i
    } else {
        rows.len() - 1
    }
}

/// Every message of `rows` stands in its message sequence.
pub proof fn lemma_message_in_sequence(rows: Seq<ChatRow>, i: int) -> (k: int)
    requires
        0 <= i < rows.len(),
        rows[i] is Message,
    ensures
        0 <= k < messages_of(rows).len(),
        messages_of(rows)[k] == rows[i]->Message_0,
{
    lemma_message_index(rows, i);
    messages_of(rows.subrange(0, i)).len() as int
}

/// Removing a separator keeps the messages.
pub proof fn lemma_remove_separator(rows: Seq<ChatRow>, k: int)
    requires
        0 <= k < rows.len(),
        rows[k] is DateSeparator,
    ensures
        messages_of(rows.remove(k)) == messages_of(rows),
{
    let head = rows.subrange(0, k);
    let mid = rows.subrange(k, k + 1);
    let tail = rows.subrange(k + 1, rows.len() as int);
    assert(rows =~= head + (mid + tail));
    assert(rows.remove(k) =~= head + tail);
    lemma_messages_of_add(head, mid + tail);
    lemma_messages_of_add(mid, tail);
    lemma_messages_of_add(head, tail);
    assert(mid.drop_last() =~= Seq::<ChatRow>::empty());
    assert(messages_of(Seq::<ChatRow>::empty()) == Seq::<ChatMessage>::empty());
    assert(messages_of(mid) =~= Seq::<ChatMessage>::empty());
    assert(messages_of(mid + tail) =~= messages_of(tail));
}

/// In an aligned sequence without adjacent separators, one of any two
/// consecutive rows is a message.
pub proof fn lemma_message_among_two(rows: Seq<ChatRow>, meta: Seq<RowMetadata>, i: int) -> (k: int)
    requires
        aligned(rows, meta),
        no_adjacent_separators(rows),
        0 <= i < rows.len() - 1,
    ensures
        k == i || k == i + 1,
        rows[k] is Message,
{
    assert(describes(meta[i], rows[i]));
    assert(describes(meta[i + 1], rows[i + 1]));
    if rows[i] is Message {
        i
    } else {
        i + 1
    }
}

pub proof fn lemma_non_decreasing_add(a: Seq<ChatMessage>, b: Seq<ChatMessage>)
    requires
        non_decreasing(a),
        non_decreasing(b),
        forall|x: int, y: int|
            0 <= x < a.len() && 0 <= y < b.len() ==> #[trigger] a[x].timestamp
                <= #[trigger] b[y].timestamp,
    ensures
        non_decreasing(a + b),
{
    assert forall|i: int, j: int| 0 <= i <= j < (a + b).len() implies #[trigger] (a
        + b)[i].timestamp <= #[trigger] (a + b)[j].timestamp by {
        if j < a.len() {
            assert(a[i].timestamp <= a[j].timestamp);
        } else if i >= a.len() {
            assert(b[i - a.len()].timestamp <= b[j - a.len()].timestamp);
        } else {
            assert(a[i].timestamp <= b[j - a.len()].timestamp);
        }
    }
}

pub proof fn lemma_non_decreasing_parts(a: Seq<ChatMessage>, b: Seq<ChatMessage>)
    requires
        non_decreasing(a + b),
    ensures
        non_decreasing(a),
        non_decreasing(b),
{
    assert forall|i: int, j: int| 0 <= i <= j < a.len() implies #[trigger] a[i].timestamp
        <= #[trigger] a[j].timestamp by {
        assert((a + b)[i] == a[i] && (a + b)[j] == a[j]);
    }
    assert forall|i: int, j: int| 0 <= i <= j < b.len() implies #[trigger] b[i].timestamp
        <= #[trigger] b[j].timestamp by {
        assert((a + b)[a.len() + i] == b[i] && (a + b)[a.len() + j] == b[j]);
    }
}

pub proof fn lemma_reverse_non_decreasing(b: Seq<ChatMessage>)
    requires
        non_increasing(b),
    ensures
        non_decreasing(b.reverse()),
{
    assert forall|i: int, j: int| 0 <= i <= j < b.reverse().len() implies #[trigger] b.reverse()[i].timestamp
        <= #[trigger] b.reverse()[j].timestamp by {
        let n = b.len() as int;
        assert(b.reverse()[i] == b[n - 1 - i]);
        assert(b.reverse()[j] == b[n - 1 - j]);
        assert(b[n - 1 - j].timestamp >= b[n - 1 - i].timestamp);
    }
}

/// Keeping a prefix that holds a message keeps the first message.
pub proof fn lemma_first_message_kept(rows: Seq<ChatRow>, k: int, i: int)
    requires
        0 <= i < k <= rows.len(),
        rows[i] is Message,
    ensures
        first_message_ts(rows.subrange(0, k)) == first_message_ts(rows),
        messages_of(rows.subrange(0, k)).len() > 0,
{
    let a = rows.subrange(0, k);
    let b = rows.subrange(k, rows.len() as int);
    assert(rows =~= a + b);
    lemma_messages_of_add(a, b);
    assert(a[i] == rows[i]);
    let _ = lemma_message_in_sequence(a, i);
}

/// Keeping a suffix that holds a message keeps the last message.
pub proof fn lemma_last_message_kept(rows: Seq<ChatRow>, k: int, i: int)
    requires
        0 <= k <= i < rows.len(),
        rows[i] is Message,
    ensures
        last_message_ts(rows.subrange(k, rows.len() as int)) == last_message_ts(rows),
        messages_of(rows.subrange(k, rows.len() as int)).len() > 0,
{
    let a = rows.subrange(0, k);
    let b = rows.subrange(k, rows.len() as int);
    assert(rows =~= a + b);
    lemma_messages_of_add(a, b);
    assert(b[i - k] == rows[i]);
    let _ = lemma_message_in_sequence(b, i - k);
}

/// Every timestamp of a non-decreasing sequence lies between its first and its last.
pub proof fn lemma_between_ends(ms: Seq<ChatMessage>, i: int)
    requires
        non_decreasing(ms),
        0 <= i < ms.len(),
    ensures
        ms[0].timestamp <= ms[i].timestamp <= ms.last().timestamp,
{
    assert(ms[0].timestamp <= ms[i].timestamp);
    assert(ms[i].timestamp <= ms[ms.len() - 1].timestamp);
}

pub proof fn lemma_dates_change_parts(a: Seq<CalendarDate>, b: Seq<CalendarDate>)
    requires
        dates_change(a + b),
    ensures
        dates_change(a),
        dates_change(b),
{
    assert forall|k: int| 0 < k < a.len() implies #[trigger] a[k] != a[k - 1] by {
        assert((a + b)[k] != (a + b)[k - 1]);
    }
    assert forall|k: int| 0 < k < b.len() implies #[trigger] b[k] != b[k - 1] by {
        assert((a + b)[a.len() + k] != (a + b)[a.len() + k - 1]);
    }
}

pub proof fn lemma_dates_change_add(a: Seq<CalendarDate>, b: Seq<CalendarDate>)
    requires
        dates_change(a),
        dates_change(b),
        a.len() > 0 && b.len() > 0 ==> a.last() != b[0],
    ensures
        dates_change(a + b),
{
    assert forall|k: int| 0 < k < (a + b).len() implies #[trigger] (a + b)[k] != (a + b)[k - 1] by {
        if k < a.len() {
            assert(a[k] != a[k - 1]);
        } else if k > a.len() {
            assert(b[k - a.len()] != b[k - a.len() - 1]);
        }
    }
}

/// Separators of a laid-out run: their dates change at each one, the first
/// differs from the running date before the run, and the running date after
/// the run is the last one's (or the one before the run, if there is none).
pub proof fn lemma_timeline_separators(prev: Option<CalendarDate>, msgs: Seq<ChatMessage>)
    ensures
        dates_change(separators_of(timeline(prev, msgs))),
        separators_of(timeline(prev, msgs)).len() > 0 ==> prev != Some(
            separators_of(timeline(prev, msgs))[0],
        ),
        separators_of(timeline(prev, msgs)).len() > 0 ==> tail_date(prev, msgs) == Some(
            separators_of(timeline(prev, msgs)).last(),
        ),
        separators_of(timeline(prev, msgs)).len() == 0 ==> tail_date(prev, msgs) == prev,
    decreases msgs.len(),
{
    if msgs.len() == 0 {
        assert(separators_of(Seq::<ChatRow>::empty()) == Seq::<CalendarDate>::empty());
    } else {
        let init = msgs.drop_last();
        let m = msgs.last();
        let l = tail_date(prev, init);
        lemma_timeline_separators(prev, init);
        lemma_messages_of_add(timeline(prev, init), rows_for(m, l));
        lemma_rows_for(m, l);
        let ds0 = separators_of(timeline(prev, init));
        let ds = separators_of(timeline(prev, msgs));
        if l == Some(m.date) {
            assert(ds =~= ds0);
        } else {
            assert(ds =~= ds0 + seq![m.date]);
            lemma_dates_change_add(ds0, seq![m.date]);
            if ds0.len() > 0 {
                assert(ds[0] == ds0[0]);
            }
        }
    }
}

/// A run of message rows holds no separator.
pub proof fn lemma_messages_only(rows: Seq<ChatRow>)
    requires
        forall|k: int| 0 <= k < rows.len() ==> #[trigger] rows[k] is Message,
    ensures
        separators_of(rows).len() == 0,
    decreases rows.len(),
{
    if rows.len() > 0 {
        lemma_messages_only(rows.drop_last());
    }
}

/// The date of the separator at row `i` stands in the separator sequence, at
/// the index given by the number of separators before it.
pub proof fn lemma_separator_index(rows: Seq<ChatRow>, i: int)
    requires
        0 <= i < rows.len(),
        rows[i] is DateSeparator,
    ensures
        separators_of(rows.subrange(0, i)).len() < separators_of(rows).len(),
        separators_of(rows)[separators_of(rows.subrange(0, i)).len() as int]
            == rows[i]->DateSeparator_0,
        separators_of(rows.subrange(0, i + 1)) == separators_of(rows.subrange(0, i)).push(
            rows[i]->DateSeparator_0,
        ),
{
    let head = rows.subrange(0, i);
    let mid = rows.subrange(i, i + 1);
    let tail = rows.subrange(i + 1, rows.len() as int);
    assert(rows =~= head + (mid + tail));
    assert(rows.subrange(0, i + 1) =~= head + mid);
    lemma_messages_of_add(head, mid + tail);
    lemma_messages_of_add(mid, tail);
    lemma_messages_of_add(head, mid);
    assert(mid.drop_last() =~= Seq::<ChatRow>::empty());
    assert(separators_of(Seq::<ChatRow>::empty()) == Seq::<CalendarDate>::empty());
    assert(separators_of(mid) =~= seq![rows[i]->DateSeparator_0]);
}

} // verus!


