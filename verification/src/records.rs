//! Stored texts as the server hands them out: deliveries of single texts
//! and conversation histories, built from the rows the store returns.
use crate::protocol::{Message, MessageHistoryInfo};
use vstd::prelude::*;

verus! {

/// A stored text, as the store returns it.
#[derive(Debug, Clone)]
pub struct StoredText {
    pub id: u64,
    pub sender: String,
    pub content: String,
    pub time: i64,
    pub reply_id: Option<u64>,
}

/// A stored text of a conversation, with its delivery flag as the store
/// keeps it (1 for delivered).
#[derive(Debug, Clone)]
pub struct HistoryRow {
    pub message_id: u64,
    pub sender: String,
    pub content: String,
    pub time: i64,
    pub delivered: i64,
    pub reply_id: Option<u64>,
}

/// The delivery of a stored text.
pub open spec fn delivery_of(t: StoredText) -> Message {
    Message::ToSend { id: t.id, from: t.sender, content: t.content, time: t.time, reply_id: t.reply_id }
}

/// The history entry of a stored text: delivered exactly when the flag is 1.
pub open spec fn history_entry_of(r: HistoryRow) -> MessageHistoryInfo {
    MessageHistoryInfo {
        message_id: r.message_id,
        sender: r.sender,
        content: r.content,
        time: r.time,
        delivered: r.delivered == 1,
        reply_id: r.reply_id,
    }
}

/// The message that hands out a stored text to its sender or receiver.
pub fn delivery(text: StoredText) -> (m: Message)
    ensures
        m == delivery_of(text),
        m is ToSend,
        m->ToSend_id == text.id,
        m->ToSend_from == text.sender,
        m->ToSend_content == text.content,
        m->ToSend_time == text.time,
        m->ToSend_reply_id == text.reply_id,
{
    Message::ToSend {
        id: text.id,
        from: text.sender,
        content: text.content,
        time: text.time,
        reply_id: text.reply_id,
    }
}

/// Text `a` of `rows` comes before text `b`: it is older, or as old and
/// earlier in the store's order.
pub open spec fn delivered_before(rows: Seq<StoredText>, a: int, b: int) -> bool {
    rows[a].time < rows[b].time || (rows[a].time == rows[b].time && a < b)
}

/// `order` lists positions of `rows`: all of them, each once, oldest text
/// first, texts of the same time in the store's order.
pub open spec fn is_delivery_order(rows: Seq<StoredText>, order: Seq<usize>) -> bool {
    &&& order.len() == rows.len()
    &&& forall|k: int| 0 <= k < order.len() ==> (#[trigger] order[k]) < rows.len()
    &&& forall|a: int, b: int|
        0 <= a < b < order.len() ==> delivered_before(
            rows,
            #[trigger] order[a] as int,
            #[trigger] order[b] as int,
        )
}

/// The order in which waiting texts go out: by time, oldest first, and in
/// the store's order among texts of the same time.
pub fn delivery_order(pending: &Vec<StoredText>) -> (order: Vec<usize>)
    ensures
        is_delivery_order(pending@, order@),
{
    let mut order: Vec<usize> = Vec::new();
    let mut i: usize = 0;
    while i < pending.len()
        invariant
            i <= pending@.len(),
            order@.len() == i,
            forall|k: int| 0 <= k < order@.len() ==> (#[trigger] order@[k]) < i,
            forall|a: int, b: int|
                0 <= a < b < order@.len() ==> delivered_before(
                    pending@,
                    #[trigger] order@[a] as int,
                    #[trigger] order@[b] as int,
                ),
        decreases pending@.len() - i,
    {
        let t = pending[i].time;
        let mut p: usize = 0;
        while p < order.len() && pending[order[p]].time <= t
            invariant
                p <= order@.len(),
                order@.len() == i,
                i < pending@.len(),
                t == pending@[i as int].time,
                forall|k: int| 0 <= k < order@.len() ==> (#[trigger] order@[k]) < i,
                forall|q: int| 0 <= q < p ==> pending@[(#[trigger] order@[q]) as int].time <= t,
            decreases order@.len() - p,
        {
            p = p + 1;
        }
        let ghost old_order = order@;
        proof {
            assert forall|q: int| p <= q < old_order.len() implies pending@[(
            #[trigger] old_order[q]) as int].time > t by {
                if q > p {
                    assert(delivered_before(pending@, old_order[p as int] as int, old_order[q] as int));
                }
            }
        }
        order.insert(p, i);
        proof {
            let o = order@;
            assert forall|k: int| 0 <= k < o.len() implies (#[trigger] o[k]) < i + 1 by {
                if k < p {
                    assert(o[k] == old_order[k]);
                } else if k > p {
                    assert(o[k] == old_order[k - 1]);
                }
            }
            assert forall|a: int, b: int| 0 <= a < b < o.len() implies delivered_before(
                pending@,
                #[trigger] o[a] as int,
                #[trigger] o[b] as int,
            ) by {
                if b < p {
                    assert(o[a] == old_order[a] && o[b] == old_order[b]);
                } else if b == p {
                    assert(o[a] == old_order[a]);
                } else if a < p {
                    assert(o[a] == old_order[a] && o[b] == old_order[b - 1]);
                    assert(delivered_before(pending@, old_order[a] as int, old_order[b - 1] as int));
                } else if a == p {
                    assert(o[b] == old_order[b - 1]);
                } else {
                    assert(o[a] == old_order[a - 1] && o[b] == old_order[b - 1]);
                    assert(delivered_before(
                        pending@,
                        old_order[a - 1] as int,
                        old_order[b - 1] as int,
                    ));
                }
            }
        }
        i = i + 1;
    }
    order
}

/// The deliveries of the texts that waited for a user: oldest first, and in
/// the store's order among texts of the same time.
pub fn deliveries(pending: &Vec<StoredText>) -> (out: Vec<Message>)
    ensures
        exists|order: Seq<usize>|
            is_delivery_order(pending@, order) && out@.len() == order.len() && forall|k: int|
                0 <= k < order.len() ==> #[trigger] out@[k] == delivery_of(
                    pending@[order[k] as int],
                ) && out@[k] is ToSend && out@[k]->ToSend_id == pending@[order[k] as int].id
                    && out@[k]->ToSend_from == pending@[order[k] as int].sender
                    && out@[k]->ToSend_content == pending@[order[k] as int].content
                    && out@[k]->ToSend_time == pending@[order[k] as int].time
                    && out@[k]->ToSend_reply_id == pending@[order[k] as int].reply_id,
{
    let order = delivery_order(pending);
    let mut out: Vec<Message> = Vec::new();
    let mut k: usize = 0;
    while k < order.len()
        invariant
            k <= order@.len(),
            is_delivery_order(pending@, order@),
            out@.len() == k,
            forall|j: int| 0 <= j < k ==> #[trigger] out@[j] == delivery_of(
                pending@[order@[j] as int],
            ),
        decreases order@.len() - k,
    {
        let t = &pending[order[k]];
        let m = Message::ToSend {
            id: t.id,
            from: t.sender.clone(),
            content: t.content.clone(),
            time: t.time,
            reply_id: t.reply_id,
        };
        out.push(m);
        k = k + 1;
    }
    out
}

/// The numbers of the texts whose delivery went out: the deliveries in
/// `outgoing` (in order) whose send succeeded in `sent`.
pub open spec fn sent_ids(outgoing: Seq<Message>, sent: Seq<bool>) -> Seq<u64>
    decreases outgoing.len(),
{
    if outgoing.len() == 0 || sent.len() == 0 {
        seq![]
    } else {
        let rest = sent_ids(outgoing.drop_last(), sent.drop_last());
        match outgoing.last() {
            Message::ToSend { id, .. } => if sent.last() {
                rest.push(id)
            } else {
                rest
            },
            _ => rest,
        }
    }
}

/// Some delivery in `outgoing` carries `id` and its send in `sent` succeeded.
pub open spec fn went_out(outgoing: Seq<Message>, sent: Seq<bool>, id: u64) -> bool {
    exists|k: int|
        0 <= k < outgoing.len() && sent[k] && outgoing[k] is ToSend && (
        #[trigger] outgoing[k])->ToSend_id == id
}

/// What is marked delivered: every id listed belongs to a delivery whose
/// send succeeded; every delivery whose send succeeded has its id listed;
/// and when every send succeeded, every delivery's id is listed, in order.
pub proof fn lemma_sent_ids(outgoing: Seq<Message>, sent: Seq<bool>)
    requires
        outgoing.len() == sent.len(),
    ensures
        forall|j: int|
            0 <= j < sent_ids(outgoing, sent).len() ==> went_out(
                outgoing,
                sent,
                #[trigger] sent_ids(outgoing, sent)[j],
            ),
        forall|k: int|
            0 <= k < outgoing.len() && sent[k] && (#[trigger] outgoing[k]) is ToSend
                ==> sent_ids(outgoing, sent).contains(outgoing[k]->ToSend_id),
        (forall|k: int| 0 <= k < outgoing.len() ==> sent[k] && (#[trigger] outgoing[k]) is ToSend)
            ==> sent_ids(outgoing, sent).len() == outgoing.len() && forall|k: int|
            0 <= k < outgoing.len() ==> sent_ids(outgoing, sent)[k] == (#[trigger] outgoing[k])->ToSend_id,
    decreases outgoing.len(),
{
    let n = outgoing.len();
    if n > 0 {
        let o2 = outgoing.drop_last();
        let s2 = sent.drop_last();
        lemma_sent_ids(o2, s2);
        let rest = sent_ids(o2, s2);
        let ids = sent_ids(outgoing, sent);
        let last_in = sent.last() && outgoing.last() is ToSend;
        assert(last_in ==> ids == rest.push(outgoing.last()->ToSend_id));
        assert(!last_in ==> ids == rest);
        assert forall|j: int| 0 <= j < ids.len() implies went_out(
            outgoing,
            sent,
            #[trigger] ids[j],
        ) by {
            if j < rest.len() {
                assert(went_out(o2, s2, rest[j]));
                let k = choose|k: int|
                    0 <= k < o2.len() && s2[k] && o2[k] is ToSend && (#[trigger] o2[k])->ToSend_id
                        == rest[j];
                assert(outgoing[k] == o2[k] && sent[k] == s2[k]);
                assert(ids[j] == rest[j]);
            } else {
                assert(outgoing[n - 1] == outgoing.last());
                assert(ids[j] == outgoing[n - 1]->ToSend_id);
            }
        }
        assert forall|k: int| 0 <= k < outgoing.len() && sent[k] && (#[trigger] outgoing[k]) is ToSend
            implies ids.contains(outgoing[k]->ToSend_id) by {
            if k < n - 1 {
                assert(o2[k] == outgoing[k] && s2[k] == sent[k]);
                assert(rest.contains(o2[k]->ToSend_id));
                let j = choose|j: int| 0 <= j < rest.len() && rest[j] == o2[k]->ToSend_id;
                assert(ids[j] == rest[j]);
            } else {
                assert(ids[ids.len() - 1] == outgoing[k]->ToSend_id);
            }
        }
        if forall|k: int| 0 <= k < outgoing.len() ==> sent[k] && (#[trigger] outgoing[k]) is ToSend {
            assert forall|k: int| 0 <= k < o2.len() implies s2[k] && (#[trigger] o2[k]) is ToSend by {
                assert(o2[k] == outgoing[k] && s2[k] == sent[k]);
            }
            assert(sent[n - 1] && outgoing[n - 1] is ToSend);
            assert forall|k: int| 0 <= k < outgoing.len() implies ids[k] == (
            #[trigger] outgoing[k])->ToSend_id by {
                if k < n - 1 {
                    assert(o2[k] == outgoing[k]);
                }
            }
        }
    }
}

/// The texts to mark delivered after handing out `outgoing`: exactly those
/// whose send succeeded; a text whose send failed keeps waiting.
pub fn delivered_ids(outgoing: &Vec<Message>, sent: &Vec<bool>) -> (ids: Vec<u64>)
    requires
        outgoing@.len() == sent@.len(),
    ensures
        ids@ == sent_ids(outgoing@, sent@),
        forall|j: int| 0 <= j < ids@.len() ==> went_out(outgoing@, sent@, #[trigger] ids@[j]),
        forall|k: int|
            0 <= k < outgoing@.len() && sent@[k] && (#[trigger] outgoing@[k]) is ToSend
                ==> ids@.contains(outgoing@[k]->ToSend_id),
        (forall|k: int| 0 <= k < outgoing@.len() ==> sent@[k] && (#[trigger] outgoing@[k]) is ToSend)
            ==> ids@.len() == outgoing@.len() && forall|k: int|
            0 <= k < outgoing@.len() ==> ids@[k] == (#[trigger] outgoing@[k])->ToSend_id,
{
    proof {
        lemma_sent_ids(outgoing@, sent@);
    }
    let mut ids: Vec<u64> = Vec::new();
    let mut k: usize = 0;
    while k < outgoing.len()
        invariant
            k <= outgoing@.len(),
            outgoing@.len() == sent@.len(),
            ids@ == sent_ids(outgoing@.subrange(0, k as int), sent@.subrange(0, k as int)),
        decreases outgoing@.len() - k,
    {
        proof {
            let o = outgoing@.subrange(0, k + 1);
            let s = sent@.subrange(0, k + 1);
            assert(o.drop_last() =~= outgoing@.subrange(0, k as int));
            assert(s.drop_last() =~= sent@.subrange(0, k as int));
        }
        match &outgoing[k] {
            Message::ToSend { id, .. } => {
                if sent[k] {
                    ids.push(*id);
                }
            },
            _ => {},
        }
        k = k + 1;
    }
    assert(outgoing@.subrange(0, outgoing@.len() as int) =~= outgoing@);
    assert(sent@.subrange(0, sent@.len() as int) =~= sent@);
    proof {
        lemma_sent_ids(outgoing@, sent@);
        assert forall|j: int| 0 <= j < ids@.len() implies went_out(
            outgoing@,
            sent@,
            #[trigger] ids@[j],
        ) by {
            assert(ids@[j] == sent_ids(outgoing@, sent@)[j]);
        }
    }
    ids
}

/// The history entry of one stored text.
pub fn history_entry(row: HistoryRow) -> (e: MessageHistoryInfo)
    ensures
        e == history_entry_of(row),
        e.message_id == row.message_id,
        e.sender == row.sender,
        e.content == row.content,
        e.time == row.time,
        e.delivered == (row.delivered == 1),
        e.reply_id == row.reply_id,
{
    MessageHistoryInfo {
        message_id: row.message_id,
        sender: row.sender,
        content: row.content,
        time: row.time,
        delivered: row.delivered == 1,
        reply_id: row.reply_id,
    }
}

/// The answer to a history request: one entry per stored text, in the
/// store's order (oldest first).
pub fn history_reply(rows: &Vec<HistoryRow>) -> (m: Message)
    ensures
        m matches Message::HistoryData { content } && content@.len() == rows@.len() && forall|
            i: int,
        |
            0 <= i < rows@.len() ==> #[trigger] content@[i] == history_entry_of(rows@[i]),
        m is HistoryData,
        m->HistoryData_content@.len() == rows@.len(),
        forall|i: int|
            0 <= i < rows@.len() ==> {
                let e = #[trigger] m->HistoryData_content@[i];
                &&& e.message_id == rows@[i].message_id
                &&& e.sender == rows@[i].sender
                &&& e.content == rows@[i].content
                &&& e.time == rows@[i].time
                &&& e.delivered == (rows@[i].delivered == 1)
                &&& e.reply_id == rows@[i].reply_id
            },
{
    let mut content: Vec<MessageHistoryInfo> = Vec::new();
    let mut i: usize = 0;
    while i < rows.len()
        invariant
            i <= rows@.len(),
            content@.len() == i,
            forall|j: int| 0 <= j < i ==> #[trigger] content@[j] == history_entry_of(rows@[j]),
        decreases rows@.len() - i,
    {
        let r = &rows[i];
        content.push(
            MessageHistoryInfo {
                message_id: r.message_id,
                sender: r.sender.clone(),
                content: r.content.clone(),
                time: r.time,
                delivered: r.delivered == 1,
                reply_id: r.reply_id,
            },
        );
        i = i + 1;
    }
    Message::HistoryData { content }
}

} // verus!
