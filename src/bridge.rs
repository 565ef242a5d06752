use vstd::prelude::*;

use bevy::platform::collections::HashMap;

verus! {

#[verifier::external_type_specification]
#[verifier::external_body]
#[verifier::reject_recursive_types(K)]
#[verifier::reject_recursive_types(V)]
#[verifier::reject_recursive_types(S)]
pub struct ExHashMap<K, V, S>(HashMap<K, V, S>);

#[verifier::external_type_specification]
#[verifier::external_body]
pub struct ExFixedHasher(bevy::platform::hash::FixedHasher);

/// Where the registry map files a key: the code of its shape and its source tag.
pub type ChannelKey = (u8, u64);

/// The registry map, from the code of a key to the index of its channel.
pub type ChannelMap = HashMap<ChannelKey, usize>;

/// The entries of a registry map: from a (shape code, source tag) pair to a
/// channel index.
pub uninterp spec fn entries(m: ChannelMap) -> Map<ChannelKey, usize>;

/// Relies on `HashMap::new` of bevy_platform: the new map is empty.
#[verifier::external_body]
fn map_new() -> (r: ChannelMap)
    ensures
        entries(r).dom().is_empty(),
{
    HashMap::new()
}

/// Relies on `HashMap::get` of bevy_platform: the value stored under `k`, if any.
#[verifier::external_body]
fn map_get(m: &ChannelMap, k: ChannelKey) -> (r: Option<usize>)
    ensures
        entries(*m).contains_key(k) ==> r == Some(entries(*m)[k]),
        !entries(*m).contains_key(k) ==> r is None,
{
    m.get(&k).copied()
}

/// Relies on `HashMap::insert` of bevy_platform: afterwards `k` maps to `v`
/// and every other entry is as it was.
#[verifier::external_body]
fn map_insert(m: &mut ChannelMap, k: ChannelKey, v: usize)
    ensures
        entries(*final(m)) == entries(*old(m)).insert(k, v),
{
    m.insert(k, v);
}

/// The shape of the messages that one channel carries.
#[derive(Clone, Copy, Debug, PartialEq, Eq, Structural)]
pub enum MessageKind {
    Insert,
    Delete,
    Update,
    InsertUpdate,
    ReducerResult,
    ProcedureResult,
}

/// The code of a message shape in the registry map.
pub open spec fn code(kind: MessageKind) -> u8 {
    match kind {
        MessageKind::Insert => 0,
        MessageKind::Delete => 1,
        MessageKind::Update => 2,
        MessageKind::InsertUpdate => 3,
        MessageKind::ReducerResult => 4,
        MessageKind::ProcedureResult => 5,
    }
}

fn kind_code(kind: MessageKind) -> (r: u8)
    ensures
        r == code(kind),
{
    match kind {
        MessageKind::Insert => 0,
        MessageKind::Delete => 1,
        MessageKind::Update => 2,
        MessageKind::InsertUpdate => 3,
        MessageKind::ReducerResult => 4,
        MessageKind::ProcedureResult => 5,
    }
}

/// Registry key: a message shape together with the tag of the table, reducer
/// or procedure type whose payload it carries.
///
/// Two keys are the same exactly when both parts are equal, so that, for one
/// table, its insert and delete messages have distinct keys.
#[derive(Clone, Copy, Debug, PartialEq, Eq, Structural)]
pub struct TypeKey {
    pub kind: MessageKind,
    pub source: u64,
}

/// Where the registry map files `k`.
pub open spec fn key_code(k: TypeKey) -> ChannelKey {
    (code(k.kind), k.source)
}

proof fn lemma_key_code_injective(k1: TypeKey, k2: TypeKey)
    ensures
        key_code(k1) == key_code(k2) <==> k1 == k2,
{
}

/// The producing end of a channel of an [`EventBridge`].
#[derive(Clone, Copy, Debug, PartialEq, Eq, Structural)]
pub struct Sender {
    /// Index of the channel in its bridge.
    pub channel: usize,
}

/// A registry of channels keyed by [`TypeKey`], together with the consuming
/// ends that the host drains once per tick.
///
/// A channel is created at most once per key, and its receiver is registered
/// with the host (it becomes drainable) before its sender is handed out.
pub struct EventBridge<M> {
    /// The registry: from the code of a key to the index of its channel.
    channels: ChannelMap,
    /// The messages waiting in each channel, oldest first.
    queues: Vec<Vec<M>>,
    /// Whether each channel's receiver is still held by the host.
    open: Vec<bool>,
}

impl<M> EventBridge<M> {
    /// The registry: which sender each key has been given.
    pub closed spec fn registry(&self) -> Map<TypeKey, Sender> {
        Map::new(
            |k: TypeKey| entries(self.channels).contains_key(key_code(k)),
            |k: TypeKey| Sender { channel: entries(self.channels)[key_code(k)] },
        )
    }

    /// The messages waiting in each channel, oldest first.
    pub closed spec fn pending(&self) -> Seq<Seq<M>> {
        self.queues@.map_values(|q: Vec<M>| q@)
    }

    /// For each channel, whether its receiver is still held by the host.
    pub closed spec fn receivers_open(&self) -> Seq<bool> {
        self.open@
    }

    /// How many channels have been created.
    pub open spec fn num_channels(&self) -> nat {
        self.pending().len()
    }

    /// Every registered sender leads to a channel of this bridge, and distinct
    /// keys lead to distinct channels.
    pub open spec fn senders_valid(&self) -> bool {
        &&& forall|k: TypeKey| #[trigger]
            self.registry().contains_key(k) ==> self.registry()[k].channel < self.num_channels()
        &&& forall|k1: TypeKey, k2: TypeKey|
            #![trigger self.registry()[k1], self.registry()[k2]]
            self.registry().contains_key(k1) && self.registry().contains_key(k2) && k1 != k2
                ==> self.registry()[k1].channel != self.registry()[k2].channel
    }

    /// How the fields hold the registry.
    pub closed spec fn inv(&self) -> bool {
        &&& self.queues@.len() == self.open@.len()
        &&& forall|c: ChannelKey| #[trigger]
            entries(self.channels).contains_key(c) ==> entries(self.channels)[c] < self.queues@.len()
        &&& forall|c1: ChannelKey, c2: ChannelKey|
            #![trigger entries(self.channels)[c1], entries(self.channels)[c2]]
            entries(self.channels).contains_key(c1) && entries(self.channels).contains_key(c2) && c1
                != c2 ==> entries(self.channels)[c1] != entries(self.channels)[c2]
    }

    proof fn lemma_inv_senders_valid(&self)
        requires
            self.inv(),
        ensures
            self.senders_valid(),
            self.receivers_open().len() == self.num_channels(),
    {
        assert forall|k: TypeKey| #[trigger]
            self.registry().contains_key(k) implies self.registry()[k].channel < self.num_channels() by {
            assert(entries(self.channels).contains_key(key_code(k)));
        }
        assert forall|k1: TypeKey, k2: TypeKey|
            #![trigger self.registry()[k1], self.registry()[k2]]
            self.registry().contains_key(k1) && self.registry().contains_key(k2) && k1 != k2
            implies self.registry()[k1].channel != self.registry()[k2].channel by {
            lemma_key_code_injective(k1, k2);
        }
    }

    pub open spec fn wf(&self) -> bool {
        &&& self.inv()
        &&& self.senders_valid()
        &&& self.receivers_open().len() == self.num_channels()
    }

    /// What a call of [`EventBridge::get_or_create`] for `key` that returned `r` does.
    pub open spec fn get_or_create_post(pre: Self, post: Self, key: TypeKey, r: Sender) -> bool {
        &&& post.wf()
        &&& if pre.registry().contains_key(key) {
            &&& r == pre.registry()[key]
            &&& post.registry() == pre.registry()
            &&& post.pending() == pre.pending()
            &&& post.receivers_open() == pre.receivers_open()
        } else {
            &&& r.channel == pre.num_channels()
            &&& post.registry() == pre.registry().insert(key, r)
            &&& post.pending() == pre.pending().push(Seq::empty())
            &&& post.receivers_open() == pre.receivers_open().push(true)
        }
    }

    /// What a call of [`EventBridge::send`] of `msg` on `s` that returned `delivered` does.
    pub open spec fn send_post(pre: Self, post: Self, s: Sender, msg: M, delivered: bool) -> bool {
        &&& post.wf()
        &&& post.registry() == pre.registry()
        &&& post.receivers_open() == pre.receivers_open()
        &&& delivered == pre.receivers_open()[s.channel as int]
        &&& post.pending() == if delivered {
            pre.pending().update(s.channel as int, pre.pending()[s.channel as int].push(msg))
        } else {
            pre.pending()
        }
    }

    /// What a call of [`EventBridge::drain`] on `s` that returned `r` does.
    pub open spec fn drain_post(pre: Self, post: Self, s: Sender, r: Seq<M>) -> bool {
        &&& post.wf()
        &&& post.registry() == pre.registry()
        &&& post.receivers_open() == pre.receivers_open()
        &&& r == pre.pending()[s.channel as int]
        &&& post.pending() == pre.pending().update(s.channel as int, Seq::empty())
    }

    /// Changing what waits in the channels, or which receivers are open,
    /// keeps the bridge well formed.
    proof fn lemma_frame(pre: &Self, post: &Self)
        requires
            pre.wf(),
            post.channels == pre.channels,
            post.queues@.len() == pre.queues@.len(),
            post.open@.len() == pre.open@.len(),
        ensures
            post.wf(),
            post.registry() == pre.registry(),
    {
        assert(post.registry() =~= pre.registry());
        post.lemma_inv_senders_valid();
    }

    /// An empty bridge: no key, no channel.
    pub fn new() -> (r: Self)
        ensures
            r.wf(),
            r.registry() == Map::<TypeKey, Sender>::empty(),
            r.num_channels() == 0,
    {
        let r = EventBridge { channels: map_new(), queues: Vec::new(), open: Vec::new() };
        proof {
            assert(entries(r.channels) =~= Map::<ChannelKey, usize>::empty());
            assert(r.pending() =~= Seq::empty());
            assert(r.registry() =~= Map::<TypeKey, Sender>::empty());
            r.lemma_inv_senders_valid();
        }
        r
    }

    /// Returns the sender registered for `key`; where there is none, creates
    /// a channel, registers its receiver with the host and then stores and
    /// returns its sender.
    pub fn get_or_create(&mut self, key: TypeKey) -> (r: Sender)
        requires
            old(self).wf(),
        ensures
            Self::get_or_create_post(*old(self), *final(self), key, r),
    {
        let code = (kind_code(key.kind), key.source);
        match map_get(&self.channels, code) {
            Some(ch) => Sender { channel: ch },
            None => {
                let ch = self.queues.len();
                // The receiver becomes drainable before the sender leaves this call.
                self.queues.push(Vec::new());
                self.open.push(true);
                map_insert(&mut self.channels, code, ch);
                let s = Sender { channel: ch };
                proof {
                    let pre = entries(old(self).channels);
                    let post = entries(self.channels);
                    assert(self.pending() =~= old(self).pending().push(Seq::empty()));
                    assert forall|c: ChannelKey| #[trigger] post.contains_key(c) implies post[c]
                        < self.queues@.len() by {
                        if c != code {
                            assert(pre.contains_key(c));
                        }
                    }
                    assert forall|c1: ChannelKey, c2: ChannelKey|
                        #![trigger post[c1], post[c2]]
                        post.contains_key(c1) && post.contains_key(c2) && c1 != c2 implies post[c1]
                            != post[c2] by {
                        if c1 != code {
                            assert(pre.contains_key(c1));
                        }
                        if c2 != code {
                            assert(pre.contains_key(c2));
                        }
                    }
                    assert forall|k: TypeKey| #[trigger]
                        self.registry().contains_key(k) == old(self).registry().insert(key, s).contains_key(k) by {
                        lemma_key_code_injective(k, key);
                    }
                    assert forall|k: TypeKey| #[trigger]
                        self.registry().contains_key(k) implies self.registry()[k] == old(self).registry().insert(key, s)[k] by {
                        lemma_key_code_injective(k, key);
                    }
                    assert(self.registry() =~= old(self).registry().insert(key, s));
                    self.lemma_inv_senders_valid();
                }
                s
            },
        }
    }

    /// Sends `msg` on `s` without blocking. The message is queued when the
    /// channel's receiver is still held by the host, and dropped otherwise;
    /// the result says which.
    pub fn send(&mut self, s: Sender, msg: M) -> (delivered: bool)
        requires
            old(self).wf(),
            s.channel < old(self).num_channels(),
        ensures
            Self::send_post(*old(self), *final(self), s, msg, delivered),
    {
        let ch = s.channel;
        if !self.open[ch] {
            return false;
        }
        let mut q: Vec<M> = Vec::new();
        self.queues.set_and_swap(ch, &mut q);
        q.push(msg);
        self.queues.set_and_swap(ch, &mut q);
        proof {
            assert(self.pending() =~= old(self).pending().update(
                ch as int,
                old(self).pending()[ch as int].push(msg),
            ));
            Self::lemma_frame(old(self), self);
        }
        true
    }

    /// Takes every message waiting in the channel of `s`, oldest first.
    pub fn drain(&mut self, s: Sender) -> (r: Vec<M>)
        requires
            old(self).wf(),
            s.channel < old(self).num_channels(),
        ensures
            Self::drain_post(*old(self), *final(self), s, r@),
    {
        let mut q: Vec<M> = Vec::new();
        self.queues.set_and_swap(s.channel, &mut q);
        proof {
            assert(self.pending() =~= old(self).pending().update(s.channel as int, Seq::empty()));
            assert(q@ == old(self).pending()[s.channel as int]);
            Self::lemma_frame(old(self), self);
        }
        q
    }

    /// One host tick: takes the waiting messages of every channel, in channel
    /// order, each oldest first, and leaves every channel empty.
    pub fn drain_all(&mut self) -> (r: Vec<Vec<M>>)
        requires
            old(self).wf(),
        ensures
            final(self).wf(),
            final(self).registry() == old(self).registry(),
            final(self).receivers_open() == old(self).receivers_open(),
            final(self).num_channels() == old(self).num_channels(),
            forall|c: int| 0 <= c < final(self).num_channels() ==> #[trigger] final(self).pending()[c]
                == Seq::<M>::empty(),
            r@.len() == old(self).num_channels(),
            forall|c: int| 0 <= c < r@.len() ==> #[trigger] r@[c]@ == old(self).pending()[c],
    {
        let n = self.queues.len();
        let mut out: Vec<Vec<M>> = Vec::new();
        let mut c: usize = 0;
        while c < n
            invariant
                self.wf(),
                self.registry() == old(self).registry(),
                self.receivers_open() == old(self).receivers_open(),
                n == self.num_channels(),
                n == old(self).num_channels(),
                0 <= c <= n,
                out@.len() == c,
                forall|j: int| 0 <= j < c ==> #[trigger] out@[j]@ == old(self).pending()[j],
                forall|j: int| 0 <= j < c ==> #[trigger] self.pending()[j] == Seq::<M>::empty(),
                forall|j: int| c <= j < n ==> #[trigger] self.pending()[j] == old(self).pending()[j],
            decreases n - c,
        {
            let q = self.drain(Sender { channel: c });
            out.push(q);
            c = c + 1;
        }
        out
    }

    /// Tears down the receiver of the channel of `s`: what was waiting is
    /// dropped, and later sends on it deliver nothing.
    pub fn close_receiver(&mut self, s: Sender)
        requires
            old(self).wf(),
            s.channel < old(self).num_channels(),
        ensures
            final(self).wf(),
            final(self).registry() == old(self).registry(),
            final(self).receivers_open() == old(self).receivers_open().update(s.channel as int, false),
            final(self).pending() == old(self).pending().update(s.channel as int, Seq::empty()),
    {
        let mut q: Vec<M> = Vec::new();
        self.queues.set_and_swap(s.channel, &mut q);
        self.open.set(s.channel, false);
        proof {
            assert(self.pending() =~= old(self).pending().update(s.channel as int, Seq::empty()));
            Self::lemma_frame(old(self), self);
        }
    }
}

} // verus!
