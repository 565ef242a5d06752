use vstd::prelude::*;

use crate::bridge::{EventBridge, MessageKind, Sender, TypeKey};
use crate::messages::TableMessage;
use crate::routes::{
    delivered_post, fits, hits, key_of, requested_kinds, routed, routed_post, RowCallback, RowChange,
    RowHook, RowMessage,
};
use crate::tables::TableMessages;

verus! {

/// Asking twice for the channel of one key gives the same sender, and the
/// second request creates no channel: at most one channel is ever built per key.
pub proof fn lemma_one_channel_per_key<M>(
    b0: EventBridge<M>,
    b1: EventBridge<M>,
    b2: EventBridge<M>,
    key: TypeKey,
    s1: Sender,
    s2: Sender,
)
    requires
        b0.wf(),
        EventBridge::get_or_create_post(b0, b1, key, s1),
        EventBridge::get_or_create_post(b1, b2, key, s2),
    ensures
        s1 == s2,
        b2.num_channels() == b1.num_channels(),
        b1.num_channels() <= b0.num_channels() + 1,
        b2.registry() == b1.registry(),
{
}

/// Once a key has a sender, requests for any key, from any caller and in
/// any order, leave that key's sender as it is.
pub proof fn lemma_sender_kept<M>(
    b0: EventBridge<M>,
    b1: EventBridge<M>,
    key: TypeKey,
    other: TypeKey,
    r: Sender,
)
    requires
        b0.wf(),
        b0.registry().contains_key(key),
        EventBridge::get_or_create_post(b0, b1, other, r),
    ensures
        b1.registry().contains_key(key),
        b1.registry()[key] == b0.registry()[key],
{
}

/// A message sent on a sender just handed out by the registry is delivered
/// and is the last message that the next drain of that channel returns,
/// unless the channel's receiver had been torn down before.
pub proof fn lemma_no_lost_send<M>(
    b0: EventBridge<M>,
    b1: EventBridge<M>,
    b2: EventBridge<M>,
    b3: EventBridge<M>,
    key: TypeKey,
    s: Sender,
    msg: M,
    delivered: bool,
    drained: Seq<M>,
)
    requires
        b0.wf(),
        b0.registry().contains_key(key) ==> b0.receivers_open()[b0.registry()[key].channel as int],
        EventBridge::get_or_create_post(b0, b1, key, s),
        EventBridge::send_post(b1, b2, s, msg, delivered),
        EventBridge::drain_post(b2, b3, s, drained),
    ensures
        delivered,
        drained.len() > 0,
        drained.last() == msg,
{
}

/// Two sends on one channel are drained in the order they were sent.
pub proof fn lemma_order_kept<M>(
    b0: EventBridge<M>,
    b1: EventBridge<M>,
    b2: EventBridge<M>,
    b3: EventBridge<M>,
    s: Sender,
    m1: M,
    m2: M,
    d1: bool,
    d2: bool,
    drained: Seq<M>,
)
    requires
        b0.wf(),
        s.channel < b0.num_channels(),
        b0.receivers_open()[s.channel as int],
        EventBridge::send_post(b0, b1, s, m1, d1),
        EventBridge::send_post(b1, b2, s, m2, d2),
        EventBridge::drain_post(b2, b3, s, drained),
    ensures
        drained == b0.pending()[s.channel as int].push(m1).push(m2),
        drained.len() >= 2,
        drained[drained.len() - 2] == m1,
        drained[drained.len() - 1] == m2,
{
}

proof fn lemma_hits_none(cbs: Seq<RowCallback>, hook: RowHook, c: int)
    requires
        forall|i: int| 0 <= i < cbs.len() ==> !((#[trigger] cbs[i]).hook == hook && cbs[i].sender.channel == c),
    ensures
        hits(cbs, hook, c) == 0,
    decreases cbs.len(),
{
    if cbs.len() > 0 {
        let d = cbs.drop_last();
        assert forall|i: int| 0 <= i < d.len() implies !((#[trigger] d[i]).hook == hook && d[i].sender.channel == c) by {
            assert(d[i] == cbs[i]);
        }
        lemma_hits_none(d, hook, c);
        assert(cbs.last() == cbs[cbs.len() - 1]);
    }
}

proof fn lemma_hits_one(cbs: Seq<RowCallback>, hook: RowHook, c: int, i0: int)
    requires
        0 <= i0 < cbs.len(),
        cbs[i0].hook == hook && cbs[i0].sender.channel == c,
        forall|i: int| 0 <= i < cbs.len() && i != i0 ==> !((#[trigger] cbs[i]).hook == hook && cbs[i].sender.channel == c),
    ensures
        hits(cbs, hook, c) == 1,
    decreases cbs.len(),
{
    let d = cbs.drop_last();
    assert(cbs.last() == cbs[cbs.len() - 1]);
    if i0 == cbs.len() - 1 {
        assert forall|i: int| 0 <= i < d.len() implies !((#[trigger] d[i]).hook == hook && d[i].sender.channel == c) by {
            assert(d[i] == cbs[i]);
        }
        lemma_hits_none(d, hook, c);
    } else {
        assert forall|i: int| 0 <= i < d.len() && i != i0 implies !((#[trigger] d[i]).hook == hook && d[i].sender.channel == c) by {
            assert(d[i] == cbs[i]);
        }
        assert(d[i0] == cbs[i0]);
        lemma_hits_one(d, hook, c, i0);
    }
}

proof fn lemma_routed_insert_update(m: TableMessages)
    requires
        m.insert,
        m.update,
    ensures
        m.delete ==> routed(requested_kinds(m)) == seq![
            (RowHook::OnInsert, MessageKind::Insert),
            (RowHook::OnDelete, MessageKind::Delete),
            (RowHook::OnUpdate, MessageKind::Update),
            (RowHook::OnUpdate, MessageKind::InsertUpdate),
            (RowHook::OnInsert, MessageKind::InsertUpdate),
        ],
        !m.delete ==> routed(requested_kinds(m)) == seq![
            (RowHook::OnInsert, MessageKind::Insert),
            (RowHook::OnUpdate, MessageKind::Update),
            (RowHook::OnUpdate, MessageKind::InsertUpdate),
            (RowHook::OnInsert, MessageKind::InsertUpdate),
        ],
{
    let ks = requested_kinds(m);
    let e = Seq::<MessageKind>::empty();
    assert(routed(e) == Seq::<(RowHook, MessageKind)>::empty());
    if m.delete {
        assert(ks =~= seq![MessageKind::Insert, MessageKind::Delete, MessageKind::Update, MessageKind::InsertUpdate]);
        assert(ks.drop_last() =~= seq![MessageKind::Insert, MessageKind::Delete, MessageKind::Update]);
        assert(ks.drop_last().drop_last() =~= seq![MessageKind::Insert, MessageKind::Delete]);
        assert(ks.drop_last().drop_last().drop_last() =~= seq![MessageKind::Insert]);
        assert(ks.drop_last().drop_last().drop_last().drop_last() =~= e);
        assert(routed(seq![MessageKind::Insert]) =~= seq![(RowHook::OnInsert, MessageKind::Insert)]);
        assert(routed(seq![MessageKind::Insert, MessageKind::Delete]) =~= seq![
            (RowHook::OnInsert, MessageKind::Insert),
            (RowHook::OnDelete, MessageKind::Delete),
        ]);
        assert(routed(seq![MessageKind::Insert, MessageKind::Delete, MessageKind::Update]) =~= seq![
            (RowHook::OnInsert, MessageKind::Insert),
            (RowHook::OnDelete, MessageKind::Delete),
            (RowHook::OnUpdate, MessageKind::Update),
        ]);
        assert(routed(ks) =~= seq![
            (RowHook::OnInsert, MessageKind::Insert),
            (RowHook::OnDelete, MessageKind::Delete),
            (RowHook::OnUpdate, MessageKind::Update),
            (RowHook::OnUpdate, MessageKind::InsertUpdate),
            (RowHook::OnInsert, MessageKind::InsertUpdate),
        ]);
    } else {
        assert(ks =~= seq![MessageKind::Insert, MessageKind::Update, MessageKind::InsertUpdate]);
        assert(ks.drop_last() =~= seq![MessageKind::Insert, MessageKind::Update]);
        assert(ks.drop_last().drop_last() =~= seq![MessageKind::Insert]);
        assert(ks.drop_last().drop_last().drop_last() =~= e);
        assert(routed(seq![MessageKind::Insert]) =~= seq![(RowHook::OnInsert, MessageKind::Insert)]);
        assert(routed(seq![MessageKind::Insert, MessageKind::Update]) =~= seq![
            (RowHook::OnInsert, MessageKind::Insert),
            (RowHook::OnUpdate, MessageKind::Update),
        ]);
        assert(routed(ks) =~= seq![
            (RowHook::OnInsert, MessageKind::Insert),
            (RowHook::OnUpdate, MessageKind::Update),
            (RowHook::OnUpdate, MessageKind::InsertUpdate),
            (RowHook::OnInsert, MessageKind::InsertUpdate),
        ]);
    }
}

/// Routing a table with inserts and updates asked for gives three live
/// channels (insert, update, and the combined insert-or-update), and one
/// remote update then yields exactly one update message and exactly one
/// combined message, whose old row is the old row and whose new row the
/// new, while the insert channel receives nothing.
pub proof fn lemma_insert_update_additive<T: TableMessage>(
    b0: EventBridge<RowMessage<T>>,
    b1: EventBridge<RowMessage<T>>,
    b2: EventBridge<RowMessage<T>>,
    cbs: Seq<RowCallback>,
    source: u64,
    m: TableMessages,
    event: T::Event,
    old_row: T::Row,
    new_row: T::Row,
)
    requires
        b0.wf(),
        m.insert,
        m.update,
        forall|k: TypeKey| #[trigger] b0.registry().contains_key(k) ==> k.source != source,
        routed_post(b0, b1, Seq::empty(), cbs, source, requested_kinds(m)),
        delivered_post(b1, b2, cbs, event, RowChange::Updated(old_row, new_row)),
    ensures
        ({
            let ins = b1.registry()[key_of(MessageKind::Insert, source)].channel as int;
            let upd = b1.registry()[key_of(MessageKind::Update, source)].channel as int;
            let both = b1.registry()[key_of(MessageKind::InsertUpdate, source)].channel as int;
            &&& b1.registry().contains_key(key_of(MessageKind::Insert, source))
            &&& b1.registry().contains_key(key_of(MessageKind::Update, source))
            &&& b1.registry().contains_key(key_of(MessageKind::InsertUpdate, source))
            &&& ins != upd && ins != both && upd != both
            &&& b1.receivers_open()[ins] && b1.receivers_open()[upd] && b1.receivers_open()[both]
            &&& b2.pending()[ins].len() == 0
            &&& b2.pending()[upd].len() == 1
            &&& fits(MessageKind::Update, event, RowChange::Updated(old_row, new_row), b2.pending()[upd][0])
            &&& b2.pending()[both].len() == 1
            &&& fits(
                MessageKind::InsertUpdate,
                event,
                RowChange::Updated(old_row, new_row),
                b2.pending()[both][0],
            )
        }),
{
    let change = RowChange::<T>::Updated(old_row, new_row);
    let ki = key_of(MessageKind::Insert, source);
    let ku = key_of(MessageKind::Update, source);
    let kb = key_of(MessageKind::InsertUpdate, source);
    let kinds = requested_kinds(m);
    lemma_routed_insert_update(m);
    assert(kinds.contains(MessageKind::Insert)) by { assert(kinds[0] == MessageKind::Insert); }
    if m.delete {
        assert(kinds[2] == MessageKind::Update);
        assert(kinds[3] == MessageKind::InsertUpdate);
    } else {
        assert(kinds[1] == MessageKind::Update);
        assert(kinds[2] == MessageKind::InsertUpdate);
    }
    assert(b1.registry().contains_key(ki));
    assert(b1.registry().contains_key(ku));
    assert(b1.registry().contains_key(kb));
    assert(!b0.registry().contains_key(ki));
    assert(!b0.registry().contains_key(ku));
    assert(!b0.registry().contains_key(kb));
    let ins = b1.registry()[ki].channel as int;
    let upd = b1.registry()[ku].channel as int;
    let both = b1.registry()[kb].channel as int;
    // Index of each callback in the routed sequence.
    let r = routed(kinds);
    let off: int = if m.delete { 1 } else { 0 };
    assert(cbs.len() == r.len());
    assert forall|i: int| 0 <= i < cbs.len() implies (#[trigger] cbs[i]).hook == r[i].0 && cbs[i].kind == r[i].1
        && cbs[i].sender == b1.registry()[key_of(cbs[i].kind, source)] by {
        assert(cbs[0 + i] == cbs[i]);
    }
    // The three channels are new, so they start empty and open.
    assert(b0.num_channels() <= ins < b1.num_channels());
    assert(b0.num_channels() <= upd < b1.num_channels());
    assert(b0.num_channels() <= both < b1.num_channels());
    assert(b1.pending()[ins] == Seq::<RowMessage<T>>::empty());
    assert(b1.receivers_open()[ins]);
    assert(b1.pending()[upd] == Seq::<RowMessage<T>>::empty());
    assert(b1.receivers_open()[upd]);
    assert(b1.pending()[both] == Seq::<RowMessage<T>>::empty());
    assert(b1.receivers_open()[both]);
    lemma_hits_none(cbs, RowHook::OnUpdate, ins);
    assert(cbs[1 + off].hook == RowHook::OnUpdate && cbs[1 + off].kind == MessageKind::Update);
    lemma_hits_one(cbs, RowHook::OnUpdate, upd, 1 + off);
    assert(cbs[2 + off].hook == RowHook::OnUpdate && cbs[2 + off].kind == MessageKind::InsertUpdate);
    lemma_hits_one(cbs, RowHook::OnUpdate, both, 2 + off);
    assert(fits(cbs[1 + off].kind, event, change, b2.pending()[upd][0]));
    assert(fits(cbs[2 + off].kind, event, change, b2.pending()[both][0]));
}

} // verus!
