//! Executable upkeep of a row sequence and its ledger: laying out messages and
//! recomputing the window's boundary cursors from the ledger.

use vstd::prelude::*;
use crate::rows::{
    aligned, describes, first_message_ts, first_separator_date, last_message_ts,
    last_separator_date, lemma_messages_of_add, messages_of, rows_for, separators_of, tail_date,
    timeline, CalendarDate, ChatMessage, ChatRow, RowMetadata,
};

verus! {

proof fn lemma_single(x: ChatRow)
    ensures
        messages_of(seq![x]) == (match x {
            ChatRow::Message(m) => seq![m],
            _ => Seq::<ChatMessage>::empty(),
        }),
        separators_of(seq![x]) == (match x {
            ChatRow::DateSeparator(d) => seq![d],
            _ => Seq::<CalendarDate>::empty(),
        }),
{
    let e = Seq::<ChatRow>::empty();
    assert(seq![x].drop_last() =~= e);
    assert(messages_of(e) == Seq::<ChatMessage>::empty());
    assert(separators_of(e) == Seq::<CalendarDate>::empty());
    assert(Seq::<ChatMessage>::empty().push(x->Message_0) =~= seq![x->Message_0]);
    assert(Seq::<CalendarDate>::empty().push(x->DateSeparator_0) =~= seq![x->DateSeparator_0]);
}

proof fn lemma_reverse_step(orig: Seq<ChatMessage>, j: int)
    requires
        0 <= j < orig.len(),
    ensures
        orig.subrange(j, orig.len() as int).reverse() == orig.subrange(
            j + 1,
            orig.len() as int,
        ).reverse().push(orig[j]),
{
    assert(orig.subrange(j, orig.len() as int).reverse() =~= orig.subrange(
        j + 1,
        orig.len() as int,
    ).reverse().push(orig[j]));
}

/// Appends one message after the rows, opening it with a separator when its
/// date differs from the running date `last`, which then becomes its date.
pub(crate) fn push_message(
    rows: &mut Vec<ChatRow>,
    meta: &mut Vec<RowMetadata>,
    last: &mut Option<CalendarDate>,
    m: ChatMessage,
)
    requires
        aligned(old(rows)@, old(meta)@),
    ensures
        final(rows)@ == old(rows)@ + rows_for(m, *old(last)),
        aligned(final(rows)@, final(meta)@),
        *final(last) == Some(m.date),
{
    let date = m.date;
    let ts = m.timestamp;
    let changed = match *last {
        Some(d) => d != date,
        None => true,
    };
    if changed {
        rows.push(ChatRow::DateSeparator(date));
        meta.push(RowMetadata::Separator(date));
        *last = Some(date);
    }
    rows.push(ChatRow::Message(m));
    meta.push(RowMetadata::Message(ts));
    assert(rows@ =~= old(rows)@ + rows_for(m, *old(last)));
    assert forall|i: int| 0 <= i < rows@.len() implies #[trigger] describes(meta@[i], rows@[i]) by {
        if i < old(rows)@.len() {
            assert(describes(old(meta)@[i], old(rows)@[i]));
        }
    }
}

/// Appends a batch given newest first, laying it out oldest first.
pub(crate) fn append_newest_first(
    rows: &mut Vec<ChatRow>,
    meta: &mut Vec<RowMetadata>,
    last: &mut Option<CalendarDate>,
    incoming: Vec<ChatMessage>,
)
    requires
        aligned(old(rows)@, old(meta)@),
    ensures
        final(rows)@ == old(rows)@ + timeline(*old(last), incoming@.reverse()),
        aligned(final(rows)@, final(meta)@),
        *final(last) == tail_date(*old(last), incoming@.reverse()),
{
    let ghost orig = incoming@;
    let ghost n = orig.len() as int;
    let ghost rows0 = rows@;
    let ghost last0 = *last;
    let mut batch = incoming;
    assert(orig.subrange(n, n).reverse() =~= Seq::<ChatMessage>::empty());
    assert(rows@ =~= rows0 + timeline(last0, Seq::<ChatMessage>::empty()));
    while batch.len() > 0
        invariant
            n == orig.len(),
            orig == incoming@,
            rows0 == old(rows)@,
            last0 == *old(last),
            batch@.len() <= n,
            batch@ == orig.subrange(0, batch@.len() as int),
            rows@ == rows0 + timeline(last0, orig.subrange(batch@.len() as int, n).reverse()),
            *last == tail_date(last0, orig.subrange(batch@.len() as int, n).reverse()),
            aligned(rows@, meta@),
        decreases batch@.len(),
    {
        let ghost j = batch@.len() as int - 1;
        if let Some(m) = batch.pop() {
            let ghost before = orig.subrange(j + 1, n).reverse();
            proof {
                lemma_reverse_step(orig, j);
                let after = orig.subrange(j, n).reverse();
                assert(after.drop_last() =~= before);
            }
            push_message(rows, meta, last, m);
            proof {
                let after = orig.subrange(j, n).reverse();
                assert(rows@ =~= rows0 + timeline(last0, after));
            }
        }
    }
    assert(orig.subrange(0, n) =~= orig);
}

/// Newest message timestamp and last separator date of the rows, found by a
/// walk of the ledger from the tail that stops once both are known.
pub(crate) fn tail_cursors(meta: &Vec<RowMetadata>, Ghost(rows): Ghost<Seq<ChatRow>>) -> (r: (
    Option<i64>,
    Option<CalendarDate>,
))
    requires
        aligned(rows, meta@),
    ensures
        r.0 == last_message_ts(rows),
        r.1 == last_separator_date(rows),
{
    let ghost len = rows.len() as int;
    let mut ts: Option<i64> = None;
    let mut date: Option<CalendarDate> = None;
    let mut i: usize = meta.len();
    assert(rows.subrange(len, len) =~= Seq::<ChatRow>::empty());
    assert(messages_of(Seq::<ChatRow>::empty()) == Seq::<ChatMessage>::empty());
    assert(separators_of(Seq::<ChatRow>::empty()) == Seq::<CalendarDate>::empty());
    while i > 0 && (ts.is_none() || date.is_none())
        invariant
            i <= len,
            aligned(rows, meta@),
            len == meta@.len(),
            ts == last_message_ts(rows.subrange(i as int, len)),
            date == last_separator_date(rows.subrange(i as int, len)),
        decreases i,
    {
        i = i - 1;
        let ghost tail = rows.subrange(i as int + 1, len);
        proof {
            assert(rows.subrange(i as int, len) =~= seq![rows[i as int]] + tail);
            lemma_messages_of_add(seq![rows[i as int]], tail);
            lemma_single(rows[i as int]);
            assert(describes(meta@[i as int], rows[i as int]));
        }
        match meta[i] {
            RowMetadata::Message(t) => {
                if ts.is_none() {
                    ts = Some(t);
                }
            },
            RowMetadata::Separator(d) => {
                if date.is_none() {
                    date = Some(d);
                }
            },
        }
    }
    proof {
        let head = rows.subrange(0, i as int);
        let tail = rows.subrange(i as int, len);
        assert(rows =~= head + tail);
        lemma_messages_of_add(head, tail);
    }
    (ts, date)
}

/// Oldest message timestamp and first separator date of the rows, found by a
/// walk of the ledger from the head that stops once both are known.
pub(crate) fn head_cursors(meta: &Vec<RowMetadata>, Ghost(rows): Ghost<Seq<ChatRow>>) -> (r: (
    Option<i64>,
    Option<CalendarDate>,
))
    requires
        aligned(rows, meta@),
    ensures
        r.0 == first_message_ts(rows),
        r.1 == first_separator_date(rows),
{
    let ghost len = rows.len() as int;
    let mut ts: Option<i64> = None;
    let mut date: Option<CalendarDate> = None;
    let mut i: usize = 0;
    assert(rows.subrange(0, 0) =~= Seq::<ChatRow>::empty());
    assert(messages_of(Seq::<ChatRow>::empty()) == Seq::<ChatMessage>::empty());
    assert(separators_of(Seq::<ChatRow>::empty()) == Seq::<CalendarDate>::empty());
    while i < meta.len() && (ts.is_none() || date.is_none())
        invariant
            i <= len,
            aligned(rows, meta@),
            len == meta@.len(),
            ts == first_message_ts(rows.subrange(0, i as int)),
            date == first_separator_date(rows.subrange(0, i as int)),
        decreases len - i,
    {
        let ghost head = rows.subrange(0, i as int);
        proof {
            assert(rows.subrange(0, i as int + 1) =~= head + seq![rows[i as int]]);
            lemma_messages_of_add(head, seq![rows[i as int]]);
            lemma_single(rows[i as int]);
            assert(describes(meta@[i as int], rows[i as int]));
        }
        match meta[i] {
            RowMetadata::Message(t) => {
                if ts.is_none() {
                    ts = Some(t);
                }
            },
            RowMetadata::Separator(d) => {
                if date.is_none() {
                    date = Some(d);
                }
            },
        }
        i = i + 1;
    }
    proof {
        let head = rows.subrange(0, i as int);
        let tail = rows.subrange(i as int, len);
        assert(rows =~= head + tail);
        lemma_messages_of_add(head, tail);
    }
    (ts, date)
}

pub proof fn lemma_aligned_add(
    r1: Seq<ChatRow>,
    m1: Seq<RowMetadata>,
    r2: Seq<ChatRow>,
    m2: Seq<RowMetadata>,
)
    requires
        aligned(r1, m1),
        aligned(r2, m2),
    ensures
        aligned(r1 + r2, m1 + m2),
{
    assert forall|i: int| 0 <= i < (r1 + r2).len() implies #[trigger] describes(
        (m1 + m2)[i],
        (r1 + r2)[i],
    ) by {
        if i < r1.len() {
            assert(describes(m1[i], r1[i]));
        } else {
            assert(describes(m2[i - r1.len()], r2[i - r1.len()]));
        }
    }
}

pub proof fn lemma_aligned_subrange(rows: Seq<ChatRow>, meta: Seq<RowMetadata>, lo: int, hi: int)
    requires
        aligned(rows, meta),
        0 <= lo <= hi <= rows.len(),
    ensures
        aligned(rows.subrange(lo, hi), meta.subrange(lo, hi)),
{
    assert forall|i: int| 0 <= i < hi - lo implies #[trigger] describes(
        meta.subrange(lo, hi)[i],
        rows.subrange(lo, hi)[i],
    ) by {
        assert(describes(meta[lo + i], rows[lo + i]));
    }
}

pub proof fn lemma_aligned_remove(rows: Seq<ChatRow>, meta: Seq<RowMetadata>, k: int)
    requires
        aligned(rows, meta),
        0 <= k < rows.len(),
    ensures
        aligned(rows.remove(k), meta.remove(k)),
{
    assert forall|i: int| 0 <= i < rows.len() - 1 implies #[trigger] describes(
        meta.remove(k)[i],
        rows.remove(k)[i],
    ) by {
        if i < k {
            assert(describes(meta[i], rows[i]));
        } else {
            assert(describes(meta[i + 1], rows[i + 1]));
        }
    }
}

/// Whether the row is a date separator.
pub(crate) fn is_separator(row: &ChatRow) -> (r: bool)
    ensures
        r == (*row is DateSeparator),
{
    match row {
        ChatRow::DateSeparator(_) => true,
        _ => false,
    }
}

} // verus!
