use vstd::prelude::*;

use crate::bridge::{EventBridge, MessageKind, Sender, TypeKey};
use crate::messages::{DeleteMessage, InsertMessage, InsertUpdateMessage, TableMessage, UpdateMessage};
use crate::tables::{TableMessages, TableMessagesWithoutPrimaryKey};

verus! {

/// A row notification source of a remote table.
#[derive(Clone, Copy, Debug, PartialEq, Eq, Structural)]
pub enum RowHook {
    OnInsert,
    OnDelete,
    OnUpdate,
}

/// A callback installed on a table: when `hook` fires, a message of shape
/// `kind` is sent on `sender`.
#[derive(Clone, Copy, Debug, PartialEq, Eq, Structural)]
pub struct RowCallback {
    pub hook: RowHook,
    pub kind: MessageKind,
    pub sender: Sender,
}

/// The callbacks installed on one table, whose type has the tag `source`.
///
/// Registering the same kind twice installs its callbacks twice, both
/// feeding the same channel.
pub struct TableRoutes {
    pub source: u64,
    pub callbacks: Vec<RowCallback>,
}

/// Any row message of one table.
pub enum RowMessage<T: TableMessage> {
    Insert(InsertMessage<T>),
    Delete(DeleteMessage<T>),
    Update(UpdateMessage<T>),
    InsertUpdate(InsertUpdateMessage<T>),
}

/// A row change reported by the remote table.
pub enum RowChange<T: TableMessage> {
    Inserted(T::Row),
    Deleted(T::Row),
    /// The old row and the new row.
    Updated(T::Row, T::Row),
}

/// The hook of the table that fires for `change`.
pub open spec fn hook_of<T: TableMessage>(change: RowChange<T>) -> RowHook {
    match change {
        RowChange::Inserted(_) => RowHook::OnInsert,
        RowChange::Deleted(_) => RowHook::OnDelete,
        RowChange::Updated(_, _) => RowHook::OnUpdate,
    }
}

/// `msg` is the message of shape `kind` that a callback builds for `change`
/// caused by `event`: it carries clones of the event and of the rows.
pub open spec fn fits<T: TableMessage>(
    kind: MessageKind,
    event: T::Event,
    change: RowChange<T>,
    msg: RowMessage<T>,
) -> bool {
    match change {
        RowChange::Inserted(row) => match msg {
            RowMessage::Insert(m) => kind == MessageKind::Insert && cloned(event, m.event) && cloned(
                row,
                m.row,
            ),
            RowMessage::InsertUpdate(m) => kind == MessageKind::InsertUpdate && cloned(event, m.event)
                && m.old is None && cloned(row, m.new),
            _ => false,
        },
        RowChange::Deleted(row) => match msg {
            RowMessage::Delete(m) => kind == MessageKind::Delete && cloned(event, m.event) && cloned(
                row,
                m.row,
            ),
            _ => false,
        },
        RowChange::Updated(old_row, new_row) => match msg {
            RowMessage::Update(m) => kind == MessageKind::Update && cloned(event, m.event) && cloned(
                old_row,
                m.old,
            ) && cloned(new_row, m.new),
            RowMessage::InsertUpdate(m) => kind == MessageKind::InsertUpdate && cloned(event, m.event)
                && m.old is Some && cloned(old_row, m.old->Some_0) && cloned(new_row, m.new),
            _ => false,
        },
    }
}

/// How many of `cbs` listen to `hook` and send on channel `c`.
pub open spec fn hits(cbs: Seq<RowCallback>, hook: RowHook, c: int) -> nat
    decreases cbs.len(),
{
    if cbs.len() == 0 {
        0
    } else {
        hits(cbs.drop_last(), hook, c) + if cbs.last().hook == hook && cbs.last().sender.channel == c {
            1nat
        } else {
            0nat
        }
    }
}

/// Message `j` of channel `c` of `post` was not yet there in `pre`.
pub open spec fn fresh_message<M>(pre: EventBridge<M>, post: EventBridge<M>, c: int, j: int) -> bool {
    0 <= c < pre.num_channels() && pre.pending()[c].len() <= j < post.pending()[c].len()
}

/// What firing `change`, caused by `event`, on the callbacks `cbs` does:
/// each callback that listens to the change's hook sends one fitting message
/// on its channel, where that channel's receiver is open; nothing else changes.
pub open spec fn delivered_post<T: TableMessage>(
    pre: EventBridge<RowMessage<T>>,
    post: EventBridge<RowMessage<T>>,
    cbs: Seq<RowCallback>,
    event: T::Event,
    change: RowChange<T>,
) -> bool {
    &&& post.wf()
    &&& post.registry() == pre.registry()
    &&& post.receivers_open() == pre.receivers_open()
    &&& post.num_channels() == pre.num_channels()
    &&& forall|c: int|
        0 <= c < pre.num_channels() ==> (#[trigger] post.pending()[c]).len() == pre.pending()[c].len()
            + if pre.receivers_open()[c] {
            hits(cbs, hook_of(change), c)
        } else {
            0
        }
    &&& forall|c: int|
        0 <= c < pre.num_channels() ==> (#[trigger] post.pending()[c]).subrange(
            0,
            pre.pending()[c].len() as int,
        ) == pre.pending()[c]
    &&& forall|c: int, j: int, i: int|
        0 <= c < pre.num_channels() && pre.pending()[c].len() <= j < post.pending()[c].len() && 0 <= i
            < cbs.len() && (#[trigger] cbs[i]).hook == hook_of(change) && cbs[i].sender.channel == c
            ==> fits(cbs[i].kind, event, change, #[trigger] post.pending()[c][j])
    &&& each_fresh_has_source(pre, post, cbs, event, change)
}

/// Each message of `post` that was not in `pre` fits some callback of `cbs`
/// that listens to the hook of `change` and sends on its channel.
pub open spec fn each_fresh_has_source<T: TableMessage>(
    pre: EventBridge<RowMessage<T>>,
    post: EventBridge<RowMessage<T>>,
    cbs: Seq<RowCallback>,
    event: T::Event,
    change: RowChange<T>,
) -> bool {
    forall|c: int, j: int| #[trigger]
        fresh_message(pre, post, c, j) ==> exists|i: int|
            0 <= i < cbs.len() && (#[trigger] cbs[i]).hook == hook_of(change) && cbs[i].sender.channel
                == c && fits(cbs[i].kind, event, change, post.pending()[c][j])
}

/// The registry key of the channel of shape `kind` for the table tagged `source`.
pub open spec fn key_of(kind: MessageKind, source: u64) -> TypeKey {
    TypeKey { kind, source }
}

/// The callbacks (source, shape) that routing one message shape installs.
///
/// The combined shape listens to both updates and inserts.
pub open spec fn hooks_of(kind: MessageKind) -> Seq<(RowHook, MessageKind)> {
    match kind {
        MessageKind::Insert => seq![(RowHook::OnInsert, kind)],
        MessageKind::Delete => seq![(RowHook::OnDelete, kind)],
        MessageKind::Update => seq![(RowHook::OnUpdate, kind)],
        MessageKind::InsertUpdate => seq![(RowHook::OnUpdate, kind), (RowHook::OnInsert, kind)],
        _ => Seq::empty(),
    }
}

/// The callbacks that routing the shapes `kinds`, in order, installs.
pub open spec fn routed(kinds: Seq<MessageKind>) -> Seq<(RowHook, MessageKind)>
    decreases kinds.len(),
{
    if kinds.len() == 0 {
        Seq::empty()
    } else {
        routed(kinds.drop_last()) + hooks_of(kinds.last())
    }
}

/// Whether a callback of shape `kind` may listen to `hook`.
pub open spec fn listens(hook: RowHook, kind: MessageKind) -> bool {
    hooks_of(kind).contains((hook, kind))
}

/// The message shapes that `m` asks for, for a table with a primary key:
/// the combined shape only when both inserts and updates are asked for.
pub open spec fn requested_kinds(m: TableMessages) -> Seq<MessageKind> {
    (if m.insert { seq![MessageKind::Insert] } else { Seq::empty() })
        + (if m.delete { seq![MessageKind::Delete] } else { Seq::empty() })
        + (if m.update { seq![MessageKind::Update] } else { Seq::empty() })
        + (if m.insert && m.update { seq![MessageKind::InsertUpdate] } else { Seq::empty() })
}

/// The message shapes that `m` asks for, for a table without a primary key.
pub open spec fn requested_kinds_without_pk(m: TableMessagesWithoutPrimaryKey) -> Seq<MessageKind> {
    (if m.insert { seq![MessageKind::Insert] } else { Seq::empty() })
        + (if m.delete { seq![MessageKind::Delete] } else { Seq::empty() })
}

/// Every callback of `routes` sends on the channel that the registry of
/// `bridge` holds for its shape and table, and listens to a fitting hook.
pub open spec fn routes_wf<M>(bridge: EventBridge<M>, routes: Seq<RowCallback>, source: u64) -> bool {
    forall|j: int|
        0 <= j < routes.len() ==> {
            let cb = #[trigger] routes[j];
            &&& bridge.registry().contains_key(key_of(cb.kind, source))
            &&& bridge.registry()[key_of(cb.kind, source)] == cb.sender
            &&& listens(cb.hook, cb.kind)
        }
}

/// Channel `c` of `post` was not yet there in `pre`.
pub open spec fn is_new_channel<M>(pre: EventBridge<M>, post: EventBridge<M>, c: int) -> bool {
    pre.num_channels() <= c < post.num_channels()
}

/// `post` is `pre` with entries and empty open channels added.
pub open spec fn bridge_extends<M>(pre: EventBridge<M>, post: EventBridge<M>) -> bool {
    &&& pre.num_channels() <= post.num_channels()
    &&& forall|k: TypeKey| #[trigger]
        pre.registry().contains_key(k) ==> post.registry().contains_key(k) && post.registry()[k]
            == pre.registry()[k]
    &&& forall|c: int|
        0 <= c < pre.num_channels() ==> #[trigger] post.pending()[c] == pre.pending()[c]
            && post.receivers_open()[c] == pre.receivers_open()[c]
    &&& forall|c: int|
        pre.num_channels() <= c < post.num_channels() ==> #[trigger] post.pending()[c]
            == Seq::<M>::empty() && post.receivers_open()[c]
    &&& forall|k: TypeKey| #[trigger]
        post.registry().contains_key(k) && !pre.registry().contains_key(k) ==> pre.num_channels()
            <= post.registry()[k].channel
    &&& forall|c: int| #[trigger]
        is_new_channel(pre, post, c) ==> exists|k: TypeKey|
            #![trigger post.registry()[k]]
            post.registry().contains_key(k) && !pre.registry().contains_key(k)
                && post.registry()[k].channel == c
}

/// What routing the shapes `kinds` for the table tagged `source` does to the
/// bridge and to the table's callbacks.
pub open spec fn routed_post<M>(
    pre: EventBridge<M>,
    post: EventBridge<M>,
    pre_cbs: Seq<RowCallback>,
    post_cbs: Seq<RowCallback>,
    source: u64,
    kinds: Seq<MessageKind>,
) -> bool {
    &&& post.wf()
    &&& bridge_extends(pre, post)
    &&& forall|k: TypeKey| #[trigger]
        post.registry().contains_key(k) <==> pre.registry().contains_key(k) || (k.source == source
            && kinds.contains(k.kind))
    &&& routes_wf(post, post_cbs, source)
    &&& post_cbs.len() == pre_cbs.len() + routed(kinds).len()
    &&& post_cbs.subrange(0, pre_cbs.len() as int) == pre_cbs
    &&& forall|j: int|
        0 <= j < routed(kinds).len() ==> {
            let cb = #[trigger] post_cbs[pre_cbs.len() + j];
            cb.hook == routed(kinds)[j].0 && cb.kind == routed(kinds)[j].1
        }
}

proof fn lemma_routed_single(kind: MessageKind)
    ensures
        routed(seq![kind]) == hooks_of(kind),
{
    assert(seq![kind].drop_last() =~= Seq::<MessageKind>::empty());
    assert(routed(Seq::<MessageKind>::empty()) == Seq::<(RowHook, MessageKind)>::empty());
    assert(seq![kind].last() == kind);
    assert(routed(seq![kind]) =~= hooks_of(kind));
}

proof fn lemma_get_or_create_extends<M>(pre: EventBridge<M>, post: EventBridge<M>, key: TypeKey, r: Sender)
    requires
        pre.wf(),
        EventBridge::get_or_create_post(pre, post, key, r),
    ensures
        bridge_extends(pre, post),
        post.registry().contains_key(key),
        post.registry()[key] == r,
        forall|k: TypeKey| #[trigger]
            post.registry().contains_key(k) <==> pre.registry().contains_key(k) || k == key,
{
    if !pre.registry().contains_key(key) {
        assert forall|c: int| 0 <= c < pre.num_channels() implies #[trigger] post.pending()[c]
            == pre.pending()[c] && post.receivers_open()[c] == pre.receivers_open()[c] by {
            assert(post.pending()[c] == pre.pending().push(Seq::empty())[c]);
        }
        assert(post.registry()[key].channel == pre.num_channels());
    }
}

proof fn lemma_routes_wf_extends<M>(pre: EventBridge<M>, post: EventBridge<M>, cbs: Seq<RowCallback>, source: u64)
    requires
        routes_wf(pre, cbs, source),
        bridge_extends(pre, post),
    ensures
        routes_wf(post, cbs, source),
{
    assert forall|j: int| 0 <= j < cbs.len() implies {
        let cb = #[trigger] cbs[j];
        &&& post.registry().contains_key(key_of(cb.kind, source))
        &&& post.registry()[key_of(cb.kind, source)] == cb.sender
        &&& listens(cb.hook, cb.kind)
    } by {
        assert(pre.registry().contains_key(key_of(cbs[j].kind, source)));
    }
}

/// Routing `kinds` and then `kind` routes `kinds.push(kind)`.
proof fn lemma_routed_push<M>(
    a: EventBridge<M>,
    b: EventBridge<M>,
    c: EventBridge<M>,
    ca: Seq<RowCallback>,
    cb: Seq<RowCallback>,
    cc: Seq<RowCallback>,
    source: u64,
    kinds: Seq<MessageKind>,
    kind: MessageKind,
)
    requires
        routed_post(a, b, ca, cb, source, kinds),
        routed_post(b, c, cb, cc, source, seq![kind]),
    ensures
        routed_post(a, c, ca, cc, source, kinds.push(kind)),
{
    let ks = kinds.push(kind);
    assert(ks.drop_last() =~= kinds);
    lemma_routed_single(kind);
    assert(ks.last() == kind);
    assert(routed(ks) == routed(kinds) + hooks_of(kind));
    assert forall|k: TypeKey| #[trigger]
        a.registry().contains_key(k) implies c.registry().contains_key(k) && c.registry()[k]
            == a.registry()[k] by {
        assert(b.registry().contains_key(k));
    }
    assert forall|x: int|
        0 <= x < a.num_channels() implies #[trigger] c.pending()[x] == a.pending()[x]
            && c.receivers_open()[x] == a.receivers_open()[x] by {
        assert(b.pending()[x] == a.pending()[x]);
    }
    assert forall|x: int|
        a.num_channels() <= x < c.num_channels() implies #[trigger] c.pending()[x]
            == Seq::<M>::empty() && c.receivers_open()[x] by {
        if x < b.num_channels() {
            assert(b.pending()[x] == Seq::<M>::empty());
        }
    }
    assert forall|k: TypeKey| #[trigger]
        c.registry().contains_key(k) && !a.registry().contains_key(k) implies a.num_channels()
            <= c.registry()[k].channel by {
        if b.registry().contains_key(k) {
            assert(c.registry()[k] == b.registry()[k]);
        }
    }
    assert forall|x: int| #[trigger] is_new_channel(a, c, x) implies exists|k: TypeKey|
        #![trigger c.registry()[k]]
        c.registry().contains_key(k) && !a.registry().contains_key(k) && c.registry()[k].channel == x by {
        if x < b.num_channels() {
            assert(is_new_channel(a, b, x));
            let k = choose|k: TypeKey|
                #![trigger b.registry()[k]]
                b.registry().contains_key(k) && !a.registry().contains_key(k) && b.registry()[k].channel == x;
            assert(c.registry()[k] == b.registry()[k]);
        } else {
            assert(is_new_channel(b, c, x));
            let k = choose|k: TypeKey|
                #![trigger c.registry()[k]]
                c.registry().contains_key(k) && !b.registry().contains_key(k) && c.registry()[k].channel == x;
            assert(!a.registry().contains_key(k));
        }
    }
    assert forall|k: TypeKey| #[trigger]
        c.registry().contains_key(k) <==> a.registry().contains_key(k) || (k.source == source
            && ks.contains(k.kind)) by {
        if ks.contains(k.kind) {
            let i = choose|i: int| 0 <= i < ks.len() && ks[i] == k.kind;
            if i < kinds.len() {
                assert(kinds[i] == k.kind);
            } else {
                assert(seq![kind][0] == k.kind);
            }
        }
        if kinds.contains(k.kind) {
            let i = choose|i: int| 0 <= i < kinds.len() && kinds[i] == k.kind;
            assert(ks[i] == k.kind);
        }
        if seq![kind].contains(k.kind) {
            assert(ks[kinds.len() as int] == k.kind);
        }
    }
    assert(cc.subrange(0, ca.len() as int) =~= cb.subrange(0, ca.len() as int));
    assert forall|j: int| 0 <= j < routed(ks).len() implies {
        let x = #[trigger] cc[ca.len() + j];
        x.hook == routed(ks)[j].0 && x.kind == routed(ks)[j].1
    } by {
        if j < routed(kinds).len() {
            assert(cc[ca.len() + j] == cc.subrange(0, cb.len() as int)[ca.len() + j]);
            assert(cb[ca.len() + j] == cc[ca.len() + j]);
        } else {
            let j2 = j - routed(kinds).len();
            assert(cc[cb.len() + j2] == cc[ca.len() + j]);
        }
    }
}

/// Installs the callbacks of the shape `kind` for the table tagged `source`,
/// all sending on the one channel that the registry holds for that shape.
fn route_kind<M>(bridge: &mut EventBridge<M>, cbs: &mut Vec<RowCallback>, source: u64, kind: MessageKind)
    requires
        old(bridge).wf(),
        routes_wf(*old(bridge), old(cbs)@, source),
        kind == MessageKind::Insert || kind == MessageKind::Delete || kind == MessageKind::Update
            || kind == MessageKind::InsertUpdate,
    ensures
        routed_post(*old(bridge), *final(bridge), old(cbs)@, final(cbs)@, source, seq![kind]),
{
    let ghost pre = *bridge;
    let s = bridge.get_or_create(TypeKey { kind, source });
    proof {
        lemma_get_or_create_extends(pre, *bridge, key_of(kind, source), s);
        lemma_routes_wf_extends(pre, *bridge, cbs@, source);
    }
    let ghost mid = cbs@;
    match kind {
        MessageKind::Insert => {
            cbs.push(RowCallback { hook: RowHook::OnInsert, kind, sender: s });
        },
        MessageKind::Delete => {
            cbs.push(RowCallback { hook: RowHook::OnDelete, kind, sender: s });
        },
        MessageKind::Update => {
            cbs.push(RowCallback { hook: RowHook::OnUpdate, kind, sender: s });
        },
        _ => {
            cbs.push(RowCallback { hook: RowHook::OnUpdate, kind, sender: s });
            cbs.push(RowCallback { hook: RowHook::OnInsert, kind, sender: s });
        },
    }
    proof {
        lemma_routed_single(kind);
        assert(cbs@.subrange(0, mid.len() as int) =~= mid);
        assert forall|k: TypeKey| #[trigger]
            bridge.registry().contains_key(k) <==> pre.registry().contains_key(k) || (k.source == source
                && seq![kind].contains(k.kind)) by {
            if seq![kind].contains(k.kind) {
                assert(seq![kind][0] == k.kind);
            }
            if k == key_of(kind, source) {
                assert(seq![kind][0] == kind);
            }
        }
        assert forall|j: int| 0 <= j < cbs@.len() implies {
            let cb = #[trigger] cbs@[j];
            &&& bridge.registry().contains_key(key_of(cb.kind, source))
            &&& bridge.registry()[key_of(cb.kind, source)] == cb.sender
            &&& listens(cb.hook, cb.kind)
        } by {
            if j >= mid.len() {
                assert(hooks_of(kind)[j - mid.len()] == (cbs@[j].hook, cbs@[j].kind));
            } else {
                assert(cbs@[j] == mid[j]);
            }
        }
    }
}

/// Installs, in order, the callbacks of each shape in `kinds`.
fn route_kinds<M>(bridge: &mut EventBridge<M>, cbs: &mut Vec<RowCallback>, source: u64, kinds: &Vec<MessageKind>)
    requires
        old(bridge).wf(),
        routes_wf(*old(bridge), old(cbs)@, source),
        forall|i: int| 0 <= i < kinds@.len() ==> {
            let k = #[trigger] kinds@[i];
            k == MessageKind::Insert || k == MessageKind::Delete || k == MessageKind::Update
                || k == MessageKind::InsertUpdate
        },
    ensures
        routed_post(*old(bridge), *final(bridge), old(cbs)@, final(cbs)@, source, kinds@),
{
    let ghost b0 = *bridge;
    let ghost c0 = cbs@;
    proof {
        assert(kinds@.subrange(0, 0) =~= Seq::<MessageKind>::empty());
        assert(cbs@.subrange(0, c0.len() as int) =~= c0);
    }
    let mut i: usize = 0;
    while i < kinds.len()
        invariant
            0 <= i <= kinds@.len(),
            forall|j: int| 0 <= j < kinds@.len() ==> {
                let k = #[trigger] kinds@[j];
                k == MessageKind::Insert || k == MessageKind::Delete || k == MessageKind::Update
                    || k == MessageKind::InsertUpdate
            },
            routed_post(b0, *bridge, c0, cbs@, source, kinds@.subrange(0, i as int)),
        decreases kinds@.len() - i,
    {
        let ghost b1 = *bridge;
        let ghost c1 = cbs@;
        let kind = kinds[i];
        route_kind(bridge, cbs, source, kind);
        proof {
            lemma_routed_push(b0, b1, *bridge, c0, c1, cbs@, source, kinds@.subrange(0, i as int), kind);
            assert(kinds@.subrange(0, i as int).push(kind) =~= kinds@.subrange(0, i + 1));
        }
        i = i + 1;
    }
    proof {
        assert(kinds@.subrange(0, kinds@.len() as int) =~= kinds@);
    }
}

fn kinds_for(m: TableMessages) -> (r: Vec<MessageKind>)
    ensures
        r@ == requested_kinds(m),
{
    let mut r: Vec<MessageKind> = Vec::new();
    if m.insert {
        r.push(MessageKind::Insert);
    }
    if m.delete {
        r.push(MessageKind::Delete);
    }
    if m.update {
        r.push(MessageKind::Update);
    }
    if m.insert && m.update {
        r.push(MessageKind::InsertUpdate);
    }
    proof {
        assert(r@ =~= requested_kinds(m));
    }
    r
}

fn kinds_without_pk_for(m: TableMessagesWithoutPrimaryKey) -> (r: Vec<MessageKind>)
    ensures
        r@ == requested_kinds_without_pk(m),
{
    let mut r: Vec<MessageKind> = Vec::new();
    if m.insert {
        r.push(MessageKind::Insert);
    }
    if m.delete {
        r.push(MessageKind::Delete);
    }
    proof {
        assert(r@ =~= requested_kinds_without_pk(m));
    }
    r
}

impl TableRoutes {
    /// A table tagged `source` with no callback installed yet.
    pub fn new(source: u64) -> (r: Self)
        ensures
            r.source == source,
            r.callbacks@ == Seq::<RowCallback>::empty(),
    {
        TableRoutes { source, callbacks: Vec::new() }
    }

    /// Routes every row notification of a table with a primary key.
    pub fn add_table<M>(&mut self, bridge: &mut EventBridge<M>)
        requires
            old(bridge).wf(),
            routes_wf(*old(bridge), old(self).callbacks@, old(self).source),
        ensures
            final(self).source == old(self).source,
            routed_post(
                *old(bridge),
                *final(bridge),
                old(self).callbacks@,
                final(self).callbacks@,
                old(self).source,
                requested_kinds(TableMessages { insert: true, update: true, delete: true }),
            ),
    {
        self.add_partial_table(bridge, TableMessages::all());
    }

    /// Routes the row notifications that `messages` asks for, of a table with
    /// a primary key: for each shape asked for, the callbacks are installed
    /// and the shape's channel is taken from the registry or created.
    pub fn add_partial_table<M>(&mut self, bridge: &mut EventBridge<M>, messages: TableMessages)
        requires
            old(bridge).wf(),
            routes_wf(*old(bridge), old(self).callbacks@, old(self).source),
        ensures
            final(self).source == old(self).source,
            routed_post(
                *old(bridge),
                *final(bridge),
                old(self).callbacks@,
                final(self).callbacks@,
                old(self).source,
                requested_kinds(messages),
            ),
    {
        let kinds = kinds_for(messages);
        route_kinds(bridge, &mut self.callbacks, self.source, &kinds);
    }

    /// Routes every row notification of a table without a primary key.
    pub fn add_table_without_pk<M>(&mut self, bridge: &mut EventBridge<M>)
        requires
            old(bridge).wf(),
            routes_wf(*old(bridge), old(self).callbacks@, old(self).source),
        ensures
            final(self).source == old(self).source,
            routed_post(
                *old(bridge),
                *final(bridge),
                old(self).callbacks@,
                final(self).callbacks@,
                old(self).source,
                requested_kinds_without_pk(TableMessagesWithoutPrimaryKey { insert: true, delete: true }),
            ),
    {
        self.add_partial_table_without_pk(bridge, TableMessagesWithoutPrimaryKey::all());
    }

    /// Routes the row notifications that `messages` asks for, of a table
    /// without a primary key. No update channel or update callback arises.
    pub fn add_partial_table_without_pk<M>(
        &mut self,
        bridge: &mut EventBridge<M>,
        messages: TableMessagesWithoutPrimaryKey,
    )
        requires
            old(bridge).wf(),
            routes_wf(*old(bridge), old(self).callbacks@, old(self).source),
        ensures
            final(self).source == old(self).source,
            routed_post(
                *old(bridge),
                *final(bridge),
                old(self).callbacks@,
                final(self).callbacks@,
                old(self).source,
                requested_kinds_without_pk(messages),
            ),
            forall|k: TypeKey| #[trigger]
                final(bridge).registry().contains_key(k) && !old(bridge).registry().contains_key(k)
                    ==> k.kind == MessageKind::Insert || k.kind == MessageKind::Delete,
            forall|j: int| old(self).callbacks@.len() <= j < final(self).callbacks@.len()
                ==> (#[trigger] final(self).callbacks@[j]).hook != RowHook::OnUpdate,
    {
        let kinds = kinds_without_pk_for(messages);
        route_kinds(bridge, &mut self.callbacks, self.source, &kinds);
        proof {
            let ks = requested_kinds_without_pk(messages);
            let n0 = old(self).callbacks@.len();
            if ks.len() == 0 {
                assert(ks =~= Seq::<MessageKind>::empty());
                assert(routed(ks) =~= Seq::empty());
            } else if ks.len() == 1 {
                assert(ks =~= seq![ks[0]]);
                lemma_routed_single(ks[0]);
            } else {
                assert(ks =~= seq![MessageKind::Insert, MessageKind::Delete]);
                assert(ks.drop_last() =~= seq![MessageKind::Insert]);
                lemma_routed_single(MessageKind::Insert);
            }
            assert forall|j: int| n0 <= j < self.callbacks@.len()
                implies (#[trigger] self.callbacks@[j]).hook != RowHook::OnUpdate by {
                assert(self.callbacks@[n0 + (j - n0)] == self.callbacks@[j]);
            }
            assert forall|k: TypeKey| #[trigger]
                bridge.registry().contains_key(k) && !old(bridge).registry().contains_key(k)
                    implies k.kind == MessageKind::Insert || k.kind == MessageKind::Delete by {
                let i = choose|i: int| 0 <= i < ks.len() && ks[i] == k.kind;
            }
        }
    }
}

/// The message of shape `kind` for `change`, caused by `event`.
fn build_message<T: TableMessage>(kind: MessageKind, event: &T::Event, change: &RowChange<T>) -> (r:
    RowMessage<T>)
    requires
        listens(hook_of(*change), kind),
    ensures
        fits(kind, *event, *change, r),
{
    match change {
        RowChange::Inserted(row) => {
            if kind == MessageKind::Insert {
                RowMessage::Insert(InsertMessage { event: event.clone(), row: row.clone() })
            } else {
                RowMessage::InsertUpdate(
                    InsertUpdateMessage { event: event.clone(), old: None, new: row.clone() },
                )
            }
        },
        RowChange::Deleted(row) => {
            RowMessage::Delete(DeleteMessage { event: event.clone(), row: row.clone() })
        },
        RowChange::Updated(old_row, new_row) => {
            if kind == MessageKind::Update {
                RowMessage::Update(
                    UpdateMessage { event: event.clone(), old: old_row.clone(), new: new_row.clone() },
                )
            } else {
                RowMessage::InsertUpdate(
                    InsertUpdateMessage {
                        event: event.clone(),
                        old: Some(old_row.clone()),
                        new: new_row.clone(),
                    },
                )
            }
        },
    }
}

proof fn lemma_hits_push(cbs: Seq<RowCallback>, cb: RowCallback, hook: RowHook, c: int)
    ensures
        hits(cbs.push(cb), hook, c) == hits(cbs, hook, c) + if cb.hook == hook && cb.sender.channel
            == c {
            1nat
        } else {
            0nat
        },
{
    assert(cbs.push(cb).drop_last() =~= cbs);
}

proof fn lemma_fresh_kept<T: TableMessage>(
    pre: EventBridge<RowMessage<T>>,
    post: EventBridge<RowMessage<T>>,
    cbs: Seq<RowCallback>,
    cb: RowCallback,
    event: T::Event,
    change: RowChange<T>,
)
    requires
        each_fresh_has_source(pre, post, cbs, event, change),
    ensures
        each_fresh_has_source(pre, post, cbs.push(cb), event, change),
{
    let cbs1 = cbs.push(cb);
    assert forall|c: int, j: int| #[trigger] fresh_message(pre, post, c, j) implies exists|i: int|
        0 <= i < cbs1.len() && (#[trigger] cbs1[i]).hook == hook_of(change) && cbs1[i].sender.channel
            == c && fits(cbs1[i].kind, event, change, post.pending()[c][j]) by {
        let w = choose|w: int|
            0 <= w < cbs.len() && (#[trigger] cbs[w]).hook == hook_of(change) && cbs[w].sender.channel
                == c && fits(cbs[w].kind, event, change, post.pending()[c][j]);
        assert(cbs1[w] == cbs[w]);
    }
}

proof fn lemma_fresh_sent<T: TableMessage>(
    pre: EventBridge<RowMessage<T>>,
    mid: EventBridge<RowMessage<T>>,
    post: EventBridge<RowMessage<T>>,
    cbs: Seq<RowCallback>,
    cb: RowCallback,
    event: T::Event,
    change: RowChange<T>,
    msg: RowMessage<T>,
)
    requires
        each_fresh_has_source(pre, mid, cbs, event, change),
        pre.num_channels() == mid.num_channels(),
        cb.sender.channel < mid.num_channels(),
        forall|c: int| 0 <= c < pre.num_channels() ==> pre.pending()[c].len() <= #[trigger] mid.pending()[c].len(),
        EventBridge::send_post(mid, post, cb.sender, msg, mid.receivers_open()[cb.sender.channel as int]),
        cb.hook == hook_of(change),
        fits(cb.kind, event, change, msg),
    ensures
        each_fresh_has_source(pre, post, cbs.push(cb), event, change),
{
    let cbs1 = cbs.push(cb);
    let ch = cb.sender.channel as int;
    assert forall|c: int, j: int| #[trigger] fresh_message(pre, post, c, j) implies exists|i: int|
        0 <= i < cbs1.len() && (#[trigger] cbs1[i]).hook == hook_of(change) && cbs1[i].sender.channel
            == c && fits(cbs1[i].kind, event, change, post.pending()[c][j]) by {
        if c == ch && j == post.pending()[c].len() - 1 && mid.receivers_open()[c] {
            assert(cbs1[cbs.len() as int] == cb);
        } else {
            assert(post.pending()[c][j] == mid.pending()[c][j]);
            assert(fresh_message(pre, mid, c, j));
            let w = choose|w: int|
                0 <= w < cbs.len() && (#[trigger] cbs[w]).hook == hook_of(change) && cbs[w].sender.channel
                    == c && fits(cbs[w].kind, event, change, mid.pending()[c][j]);
            assert(cbs1[w] == cbs[w]);
        }
    }
}

/// Two callbacks of well-formed routes that send on one channel have one shape.
proof fn lemma_same_channel_same_kind<M>(
    bridge: EventBridge<M>,
    cbs: Seq<RowCallback>,
    source: u64,
    a: int,
    b: int,
)
    requires
        bridge.wf(),
        routes_wf(bridge, cbs, source),
        0 <= a < cbs.len(),
        0 <= b < cbs.len(),
        cbs[a].sender.channel == cbs[b].sender.channel,
    ensures
        cbs[a].kind == cbs[b].kind,
{
    let ka = key_of(cbs[a].kind, source);
    let kb = key_of(cbs[b].kind, source);
    assert(bridge.registry().contains_key(ka));
    assert(bridge.registry().contains_key(kb));
    if ka != kb {
        assert(bridge.registry()[ka].channel != bridge.registry()[kb].channel);
    }
}

impl TableRoutes {
    /// Fires `change`, caused by `event`, on the callbacks of this table: each
    /// callback listening to the change's hook builds its message and sends
    /// it without blocking. A send whose receiver is gone is dropped silently.
    pub fn on_row_change<T: TableMessage>(
        &self,
        bridge: &mut EventBridge<RowMessage<T>>,
        event: &T::Event,
        change: &RowChange<T>,
    )
        requires
            old(bridge).wf(),
            routes_wf(*old(bridge), self.callbacks@, self.source),
        ensures
            delivered_post(*old(bridge), *final(bridge), self.callbacks@, *event, *change),
    {
        let ghost pre = *bridge;
        let fired = match change {
            RowChange::Inserted(_) => RowHook::OnInsert,
            RowChange::Deleted(_) => RowHook::OnDelete,
            RowChange::Updated(_, _) => RowHook::OnUpdate,
        };
        let n = self.callbacks.len();
        let mut i: usize = 0;
        proof {
            assert(self.callbacks@.subrange(0, 0) =~= Seq::<RowCallback>::empty());
            assert forall|c: int| 0 <= c < pre.num_channels() implies (#[trigger] bridge.pending()[c]).subrange(
                0,
                pre.pending()[c].len() as int,
            ) == pre.pending()[c] by {
                assert(bridge.pending()[c].subrange(0, pre.pending()[c].len() as int) =~= pre.pending()[c]);
            }
        }
        while i < n
            invariant
                n == self.callbacks@.len(),
                0 <= i <= n,
                fired == hook_of(*change),
                pre.wf(),
                routes_wf(pre, self.callbacks@, self.source),
                delivered_post(pre, *bridge, self.callbacks@.subrange(0, i as int), *event, *change),
            decreases n - i,
        {
            let cb = self.callbacks[i];
            let ghost prefix = self.callbacks@.subrange(0, i as int);
            let ghost mid = *bridge;
            proof {
                assert(self.callbacks@.subrange(0, i + 1) =~= prefix.push(cb));
                assert(pre.registry().contains_key(key_of(cb.kind, self.source)));
            }
            if cb.hook == fired {
                proof {
                    assert(self.callbacks@[i as int] == cb);
                    assert(listens(cb.hook, cb.kind));
                }
                let msg = build_message(cb.kind, event, change);
                let _ = bridge.send(cb.sender, msg);
                proof {
                    let cbs1 = prefix.push(cb);
                    lemma_fresh_sent(pre, mid, *bridge, prefix, cb, *event, *change, msg);
                    assert forall|c: int, j: int, i2: int|
                        0 <= c < pre.num_channels() && pre.pending()[c].len() <= j < bridge.pending()[c].len()
                            && 0 <= i2 < i + 1 && (#[trigger] cbs1[i2]).hook == hook_of(*change)
                            && cbs1[i2].sender.channel == c
                        implies fits(cbs1[i2].kind, *event, *change, #[trigger] bridge.pending()[c][j]) by {
                        assert(fresh_message(pre, *bridge, c, j));
                        let w = choose|w: int|
                            0 <= w < cbs1.len() && (#[trigger] cbs1[w]).hook == hook_of(*change) && cbs1[w].sender.channel
                                == c && fits(cbs1[w].kind, *event, *change, #[trigger] bridge.pending()[c][j]);
                        assert(cbs1[w] == self.callbacks@[w]);
                        assert(cbs1[i2] == self.callbacks@[i2]);
                        lemma_same_channel_same_kind(pre, self.callbacks@, self.source, w, i2);
                    }
                    assert forall|c: int| 0 <= c < pre.num_channels() implies (#[trigger] bridge.pending()[c]).len()
                        == pre.pending()[c].len() + if pre.receivers_open()[c] {
                        hits(prefix.push(cb), hook_of(*change), c)
                    } else {
                        0
                    } by {
                        lemma_hits_push(prefix, cb, hook_of(*change), c);
                    }
                    assert forall|c: int| 0 <= c < pre.num_channels() implies (#[trigger] bridge.pending()[c]).subrange(
                        0,
                        pre.pending()[c].len() as int,
                    ) == pre.pending()[c] by {
                        assert(bridge.pending()[c].subrange(0, pre.pending()[c].len() as int) =~= mid.pending()[c].subrange(
                            0,
                            pre.pending()[c].len() as int,
                        ));
                    }
                    assert(delivered_post(pre, *bridge, prefix.push(cb), *event, *change));
                }
            } else {
                proof {
                    assert(*bridge == mid);
                    lemma_fresh_kept(pre, *bridge, prefix, cb, *event, *change);
                    assert forall|c: int, j: int, i2: int|
                        0 <= c < pre.num_channels() && pre.pending()[c].len() <= j < bridge.pending()[c].len()
                            && 0 <= i2 < i + 1 && (#[trigger] prefix.push(cb)[i2]).hook == hook_of(*change)
                            && prefix.push(cb)[i2].sender.channel == c
                        implies fits(prefix.push(cb)[i2].kind, *event, *change, #[trigger] bridge.pending()[c][j]) by {
                        assert(prefix.push(cb)[i2] == prefix[i2]);
                    }
                    assert forall|c: int| 0 <= c < pre.num_channels() implies (#[trigger] bridge.pending()[c]).len()
                        == pre.pending()[c].len() + if pre.receivers_open()[c] {
                        hits(prefix.push(cb), hook_of(*change), c)
                    } else {
                        0
                    } by {
                        lemma_hits_push(prefix, cb, hook_of(*change), c);
                    }
                    assert forall|c: int| 0 <= c < pre.num_channels() implies (#[trigger] bridge.pending()[c]).subrange(
                        0,
                        pre.pending()[c].len() as int,
                    ) == pre.pending()[c] by {
                        assert(bridge.pending()[c].subrange(0, pre.pending()[c].len() as int) =~= mid.pending()[c].subrange(
                            0,
                            pre.pending()[c].len() as int,
                        ));
                    }
                    assert(delivered_post(pre, *bridge, prefix.push(cb), *event, *change));
                }
            }
            i = i + 1;
        }
        proof {
            assert(self.callbacks@.subrange(0, n as int) =~= self.callbacks@);
        }
    }
}

} // verus!
