//! One collaborative object's in-memory authority: its state, its
//! subscribers, and the bookkeeping that decides when to persist and index.

use vstd::prelude::*;

use vstd::slice::slice_to_vec;

use crate::keymap::KeyMap;
use crate::user::{lists_user, users_distinct, RealtimeUser};

verus! {

/// The kind of a collaborative object.
#[derive(PartialEq, Eq, Structural, Debug, Clone, Copy)]
pub enum CollabType {
    Document,
    Database,
    WorkspaceDatabase,
    Folder,
    DatabaseRow,
    UserAwareness,
    Unknown,
}

/// Only documents have a plain-text extractor, so only they are indexed.
pub open spec fn is_indexable(t: CollabType) -> bool {
    t == CollabType::Document
}

impl CollabType {
    pub fn indexable(&self) -> (r: bool)
        ensures
            r == is_indexable(*self),
    {
        match self {
            CollabType::Document => true,
            _ => false,
        }
    }
}

/// The persistence rule: persist once enough edits piled up or enough time
/// went by since the last persist.
pub open spec fn persist_due(edits: int, max_count: int, secs_since: int, max_secs: int) -> bool {
    edits >= max_count || secs_since >= max_secs
}

/// A group is idle when nobody subscribes and its last activity is older than
/// the threshold.
pub open spec fn idle(subscribers: nat, last_activity: int, now: int, threshold: int) -> bool {
    subscribers == 0 && now - last_activity > threshold
}

/// Decides the persistence rule on machine integers.
pub fn should_persist(edits: u32, max_count: u32, last_persist: i64, now: i64, max_secs: i64) -> (r: bool)
    ensures
        r == persist_due(edits as int, max_count as int, now - last_persist, max_secs as int),
{
    edits >= max_count || (now as i128 - last_persist as i128) >= max_secs as i128
}

/// The applied updates as byte sequences.
pub open spec fn frames_view(v: Seq<Vec<u8>>) -> Seq<Seq<u8>> {
    v.map_values(|m: Vec<u8>| m@)
}

/// What a group tells its subscribers after applying a batch of updates.
pub struct Broadcast {
    /// Every subscriber but the sender.
    pub recipients: Vec<RealtimeUser>,
    /// The applied updates, in order.
    pub frames: Vec<Vec<u8>>,
}

pub struct CollabGroup {
    object_id: String,
    workspace_id: String,
    collab_type: CollabType,
    /// The applied updates in order: the object's state.
    updates: Vec<Vec<u8>>,
    /// Subscribers and the id of the sink each one is served through.
    subscribers: KeyMap<RealtimeUser, u64>,
    /// The state each subscriber holds: the snapshot it was sent on
    /// subscribing and every update applied since.
    observed: Ghost<Map<(i64, Seq<char>, Seq<char>), Seq<Seq<u8>>>>,
    created_at: i64,
    last_activity: i64,
    last_persist: i64,
    edits_since_persist: u32,
    /// How many updates the state held when it was last indexed.
    indexed_len: usize,
}

impl CollabGroup {
    /// Subscribers and observed states agree, and every subscriber holds the
    /// group's state.
    pub closed spec fn wf(&self) -> bool {
        &&& self.subscribers.wf()
        &&& self.observed@.dom() == self.subscribers@.dom()
        &&& forall|u: (i64, Seq<char>, Seq<char>)| #[trigger]
            self.observed@.contains_key(u) ==> self.observed@[u] == self.state()
    }

    /// However edits from several users interleave, every subscriber holds
    /// the same state, and it is the group's.
    pub proof fn lemma_subscribers_converge(&self)
        requires
            self.wf(),
        ensures
            forall|u: (i64, Seq<char>, Seq<char>), v: (i64, Seq<char>, Seq<char>)|
                #[trigger] self.subscribers().contains_key(u) && #[trigger] self.subscribers().contains_key(v)
                    ==> self.observed()[u] == self.observed()[v] && self.observed()[u] == self.state(),
    {
    }

    pub closed spec fn spec_object_id(&self) -> Seq<char> {
        self.object_id@
    }

    pub closed spec fn spec_workspace_id(&self) -> Seq<char> {
        self.workspace_id@
    }

    pub closed spec fn workspace_id_string(&self) -> String {
        self.workspace_id
    }

    pub closed spec fn spec_collab_type(&self) -> CollabType {
        self.collab_type
    }

    /// The object's state: its applied updates in order.
    pub closed spec fn state(&self) -> Seq<Seq<u8>> {
        frames_view(self.updates@)
    }

    /// Each subscriber with its sink id.
    pub closed spec fn subscribers(&self) -> Map<(i64, Seq<char>, Seq<char>), u64> {
        self.subscribers@
    }

    pub closed spec fn subscriber_count(&self) -> nat {
        self.subscribers.spec_len()
    }

    /// The state each subscriber holds.
    pub closed spec fn observed(&self) -> Map<(i64, Seq<char>, Seq<char>), Seq<Seq<u8>>> {
        self.observed@
    }

    pub closed spec fn spec_last_activity(&self) -> i64 {
        self.last_activity
    }

    pub closed spec fn spec_last_persist(&self) -> i64 {
        self.last_persist
    }

    pub closed spec fn spec_created_at(&self) -> i64 {
        self.created_at
    }

    pub closed spec fn spec_edits(&self) -> u32 {
        self.edits_since_persist
    }

    pub closed spec fn spec_indexed_len(&self) -> nat {
        self.indexed_len as nat
    }

    /// The group as `new` makes it.
    pub open spec fn fresh(&self, object_id: Seq<char>, workspace_id: Seq<char>, collab_type: CollabType, now: i64) -> bool {
        &&& self.wf()
        &&& self.spec_object_id() == object_id
        &&& self.spec_workspace_id() == workspace_id
        &&& self.spec_collab_type() == collab_type
        &&& self.state() == Seq::<Seq<u8>>::empty()
        &&& self.subscribers() == Map::<(i64, Seq<char>, Seq<char>), u64>::empty()
        &&& self.subscriber_count() == 0
        &&& self.spec_created_at() == now
        &&& self.spec_last_activity() == now
        &&& self.spec_last_persist() == now
        &&& self.spec_edits() == 0
        &&& self.spec_indexed_len() == 0
    }

    /// Everything but the subscribers is the same in `a` and `b`.
    pub open spec fn same_but_subscribers(a: &CollabGroup, b: &CollabGroup) -> bool {
        &&& a.spec_object_id() == b.spec_object_id()
        &&& a.spec_workspace_id() == b.spec_workspace_id()
        &&& a.spec_collab_type() == b.spec_collab_type()
        &&& a.state() == b.state()
        &&& a.spec_created_at() == b.spec_created_at()
        &&& a.spec_last_activity() == b.spec_last_activity()
        &&& a.spec_last_persist() == b.spec_last_persist()
        &&& a.spec_edits() == b.spec_edits()
        &&& a.spec_indexed_len() == b.spec_indexed_len()
    }

    pub fn new(object_id: String, workspace_id: String, collab_type: CollabType, now: i64) -> (r: Self)
        ensures
            r.fresh(object_id@, workspace_id@, collab_type, now),
    {
        let r = CollabGroup {
            object_id,
            workspace_id,
            collab_type,
            updates: Vec::new(),
            subscribers: KeyMap::new(),
            observed: Ghost(Map::empty()),
            created_at: now,
            last_activity: now,
            last_persist: now,
            edits_since_persist: 0,
            indexed_len: 0,
        };
        assert(r.state() =~= Seq::<Seq<u8>>::empty());
        r
    }

    pub fn object_id(&self) -> (r: &String)
        ensures
            r@ == self.spec_object_id(),
    {
        &self.object_id
    }

    pub fn workspace_id(&self) -> (r: &String)
        ensures
            r@ == self.spec_workspace_id(),
            *r == self.workspace_id_string(),
    {
        &self.workspace_id
    }

    pub fn collab_type(&self) -> (r: CollabType)
        ensures
            r == self.spec_collab_type(),
    {
        self.collab_type
    }

    pub fn number_of_subscribers(&self) -> (r: usize)
        ensures
            r == self.subscriber_count(),
    {
        self.subscribers.len()
    }

    pub fn contains_user(&self, user: &RealtimeUser) -> (r: bool)
        requires
            self.wf(),
        ensures
            r == self.subscribers().contains_key(user@),
    {
        self.subscribers.contains_key(user)
    }

    /// The state as a copy: the snapshot a new subscriber is sent.
    pub fn snapshot(&self) -> (r: Vec<Vec<u8>>)
        ensures
            frames_view(r@) == self.state(),
    {
        let mut r: Vec<Vec<u8>> = Vec::new();
        let mut i: usize = 0;
        while i < self.updates.len()
            invariant
                i <= self.updates@.len(),
                r@.len() == i,
                frames_view(r@) == frames_view(self.updates@).take(i as int),
            decreases self.updates@.len() - i,
        {
            let frame = slice_to_vec(self.updates[i].as_slice());
            assert(frame@ == self.updates@[i as int]@);
            let ghost prev = r@;
            r.push(frame);
            assert forall|j: int| 0 <= j < r@.len() implies frames_view(r@)[j] == frames_view(self.updates@)[j] by {
                if j < i {
                    assert(r@[j] == prev[j]);
                    assert(frames_view(prev)[j] == frames_view(self.updates@).take(i as int)[j]);
                }
            }
            i = i + 1;
            assert(frames_view(r@) =~= frames_view(self.updates@).take(i as int));
        }
        assert(frames_view(self.updates@).take(i as int) =~= frames_view(self.updates@));
        r
    }

    /// Adds `user`, served through sink `sink_id`, and returns the snapshot it
    /// is sent. Subscribing again replaces the sink.
    pub fn subscribe(&mut self, user: RealtimeUser, sink_id: u64, now: i64) -> (r: Vec<Vec<u8>>)
        requires
            old(self).wf(),
        ensures
            final(self).wf(),
            frames_view(r@) == old(self).state(),
            final(self).subscribers() == old(self).subscribers().insert(user@, sink_id),
            final(self).observed()[user@] == frames_view(r@),
            final(self).state() == old(self).state(),
            final(self).spec_object_id() == old(self).spec_object_id(),
            final(self).spec_workspace_id() == old(self).spec_workspace_id(),
            final(self).spec_collab_type() == old(self).spec_collab_type(),
            final(self).spec_created_at() == old(self).spec_created_at(),
            final(self).spec_last_activity() == now,
            final(self).spec_last_persist() == old(self).spec_last_persist(),
            final(self).spec_edits() == old(self).spec_edits(),
            final(self).spec_indexed_len() == old(self).spec_indexed_len(),
    {
        let snapshot = self.snapshot();
        proof {
            self.observed@ = self.observed@.insert(user@, self.state());
        }
        self.subscribers.insert(user, sink_id);
        self.last_activity = now;
        snapshot
    }

    /// Removes `user`; returns whether it was subscribed.
    pub fn remove_user(&mut self, user: &RealtimeUser) -> (r: bool)
        requires
            old(self).wf(),
        ensures
            final(self).wf(),
            r == old(self).subscribers().contains_key(user@),
            final(self).subscribers() == old(self).subscribers().remove(user@),
            CollabGroup::same_but_subscribers(&*final(self), &*old(self)),
    {
        let removed = self.subscribers.remove(user);
        proof {
            self.observed@ = self.observed@.remove(user@);
        }
        removed.is_some()
    }

    /// Applies `frames` from `sender` in order and names the subscribers they
    /// go to: all but the sender, which holds them already.
    pub fn apply_updates(&mut self, sender: &RealtimeUser, frames: Vec<Vec<u8>>, now: i64) -> (r: Broadcast)
        requires
            old(self).wf(),
        ensures
            final(self).wf(),
            final(self).state() == old(self).state() + frames_view(frames@),
            frames_view(r.frames@) == frames_view(frames@),
            forall|u: (i64, Seq<char>, Seq<char>)| #[trigger]
                lists_user(r.recipients@, u) <==> (old(self).subscribers().contains_key(u) && u
                    != sender@),
            users_distinct(r.recipients@),
            final(self).subscribers() == old(self).subscribers(),
            forall|u: (i64, Seq<char>, Seq<char>)| #[trigger]
                old(self).observed().contains_key(u) ==> final(self).observed()[u] == old(
                    self,
                ).observed()[u] + frames_view(frames@),
            final(self).spec_object_id() == old(self).spec_object_id(),
            final(self).spec_workspace_id() == old(self).spec_workspace_id(),
            final(self).spec_collab_type() == old(self).spec_collab_type(),
            final(self).spec_created_at() == old(self).spec_created_at(),
            final(self).spec_last_activity() == now,
            final(self).spec_last_persist() == old(self).spec_last_persist(),
            final(self).spec_edits() as int == if old(self).spec_edits() + frames@.len() <= u32::MAX {
                old(self).spec_edits() + frames@.len()
            } else {
                u32::MAX as int
            },
            final(self).spec_indexed_len() == old(self).spec_indexed_len(),
    {
        let ghost old_state = self.state();
        let mut i: usize = 0;
        while i < frames.len()
            invariant
                self.subscribers == old(self).subscribers,
                self.observed == old(self).observed,
                self.object_id == old(self).object_id,
                self.workspace_id == old(self).workspace_id,
                self.collab_type == old(self).collab_type,
                self.created_at == old(self).created_at,
                self.last_activity == old(self).last_activity,
                self.last_persist == old(self).last_persist,
                self.edits_since_persist == old(self).edits_since_persist,
                self.indexed_len == old(self).indexed_len,
                i <= frames@.len(),
                self.state() == old_state + frames_view(frames@).take(i as int),
            decreases frames@.len() - i,
        {
            let frame = slice_to_vec(frames[i].as_slice());
            let ghost prev = self.updates@;
            self.updates.push(frame);
            proof {
                assert(frames_view(self.updates@) =~= frames_view(prev).push(frames@[i as int]@));
                assert(frames_view(frames@).take(i + 1) =~= frames_view(frames@).take(i as int).push(
                    frames@[i as int]@,
                ));
                assert(old_state + frames_view(frames@).take(i + 1) =~= (old_state + frames_view(
                    frames@,
                ).take(i as int)).push(frames@[i as int]@));
            }
            i = i + 1;
        }
        assert(frames_view(frames@).take(i as int) =~= frames_view(frames@));
        proof {
            let added = frames_view(frames@);
            self.observed@ = self.observed@.map_values(|o: Seq<Seq<u8>>| o + added);
            assert(self.observed@.dom() =~= old(self).observed@.dom());
            assert forall|u: (i64, Seq<char>, Seq<char>)| #[trigger]
                self.observed@.contains_key(u) implies self.observed@[u] == self.state() by {
                assert(old(self).observed@[u] == old_state);
            }
        }
        let n = frames.len();
        if n as u64 > (u32::MAX - self.edits_since_persist) as u64 {
            self.edits_since_persist = u32::MAX;
        } else {
            self.edits_since_persist = self.edits_since_persist + n as u32;
        }
        self.last_activity = now;
        let keys = self.subscribers.keys();
        let mut recipients: Vec<RealtimeUser> = Vec::new();
        let mut j: usize = 0;
        while j < keys.len()
            invariant
                j <= keys@.len(),
                forall|u: (i64, Seq<char>, Seq<char>)| #[trigger]
                    lists_user(recipients@, u) <==> (lists_user(keys@.take(j as int), u) && u != sender@),
                users_distinct(recipients@),
                forall|a: int, b: int|
                    0 <= a < keys@.len() && 0 <= b < keys@.len() && a != b ==> (#[trigger] keys@[a])@ != (#[trigger] keys@[b])@,
            decreases keys@.len() - j,
        {
            let ghost before = recipients@;
            let keep = !keys[j].same_session(sender);
            if keep {
                recipients.push(keys[j].clone());
            }
            proof {
                assert(keep ==> recipients@ == before.push(keys@[j as int]));
                assert(!keep ==> recipients@ == before);
                if keep {
                    assert(!lists_user(keys@.take(j as int), keys@[j as int]@)) by {
                        if lists_user(keys@.take(j as int), keys@[j as int]@) {
                            let b = choose|b: int| 0 <= b < j && (#[trigger] keys@.take(j as int)[b])@ == keys@[j as int]@;
                            assert(keys@.take(j as int)[b] == keys@[b]);
                        }
                    }
                    assert(!lists_user(before, keys@[j as int]@));
                    assert forall|a: int, b: int|
                        0 <= a < recipients@.len() && 0 <= b < recipients@.len() && a != b implies (#[trigger] recipients@[a])@
                            != (#[trigger] recipients@[b])@ by {
                        if a < before.len() && b < before.len() {
                            assert(recipients@[a] == before[a] && recipients@[b] == before[b]);
                        } else if a < before.len() {
                            assert(recipients@[a] == before[a]);
                        } else if b < before.len() {
                            assert(recipients@[b] == before[b]);
                        }
                    }
                }
                assert forall|u: (i64, Seq<char>, Seq<char>)| #[trigger]
                    lists_user(recipients@, u) <==> (lists_user(keys@.take(j + 1), u) && u != sender@) by {
                    if lists_user(recipients@, u) {
                        let a = choose|a: int| 0 <= a < recipients@.len() && (#[trigger] recipients@[a])@ == u;
                        if a < before.len() {
                            assert(before[a] == recipients@[a]);
                            assert(lists_user(before, u));
                            let b = choose|b: int| 0 <= b < j && (#[trigger] keys@.take(j as int)[b])@ == u;
                            assert(keys@.take(j + 1)[b] == keys@.take(j as int)[b]);
                        } else {
                            assert(keep);
                            assert(keys@[j as int]@ == u);
                            assert(keys@.take(j + 1)[j as int] == keys@[j as int]);
                        }
                    }
                    if lists_user(keys@.take(j + 1), u) && u != sender@ {
                        let b = choose|b: int| 0 <= b < j + 1 && (#[trigger] keys@.take(j + 1)[b])@ == u;
                        if b < j {
                            assert(keys@.take(j as int)[b] == keys@.take(j + 1)[b]);
                            assert(lists_user(keys@.take(j as int), u));
                            assert(lists_user(before, u));
                            let a = choose|a: int| 0 <= a < before.len() && (#[trigger] before[a])@ == u;
                            assert(recipients@[a] == before[a]);
                        } else {
                            assert(keep);
                            assert(recipients@[before.len() as int] == keys@[j as int]);
                        }
                    }
                }
            }
            j = j + 1;
        }
        proof {
            assert(keys@.take(j as int) =~= keys@);
            assert forall|u: (i64, Seq<char>, Seq<char>)| #[trigger]
                lists_user(keys@, u) <==> old(self).subscribers().contains_key(u) by {
                if old(self).subscribers().contains_key(u) {
                    let b = choose|b: int| 0 <= b < keys@.len() && (#[trigger] keys@[b])@ == u;
                }
            }
        }
        Broadcast { recipients, frames }
    }

    /// Whether the persistence rule holds now.
    pub fn persist_due(&self, max_count: u32, max_secs: i64, now: i64) -> (r: bool)
        ensures
            r == persist_due(self.spec_edits() as int, max_count as int, now - self.spec_last_persist(), max_secs as int),
    {
        should_persist(self.edits_since_persist, max_count, self.last_persist, now, max_secs)
    }

    /// Records a persist at `now`: the edit counter starts over.
    pub fn mark_persisted(&mut self, now: i64)
        requires
            old(self).wf(),
        ensures
            final(self).wf(),
            final(self).spec_edits() == 0,
            final(self).spec_last_persist() == now,
            final(self).state() == old(self).state(),
            final(self).subscribers() == old(self).subscribers(),
            final(self).spec_object_id() == old(self).spec_object_id(),
            final(self).spec_workspace_id() == old(self).spec_workspace_id(),
            final(self).spec_collab_type() == old(self).spec_collab_type(),
            final(self).spec_created_at() == old(self).spec_created_at(),
            final(self).spec_last_activity() == old(self).spec_last_activity(),
            final(self).spec_indexed_len() == old(self).spec_indexed_len(),
    {
        self.edits_since_persist = 0;
        self.last_persist = now;
    }

    /// Whether the group should hand its content to the indexer: it is of an
    /// indexable type and its state changed since it was last indexed.
    pub fn index_due(&self) -> (r: bool)
        ensures
            r == (is_indexable(self.spec_collab_type()) && self.state().len() != self.spec_indexed_len()),
    {
        self.collab_type.indexable() && self.updates.len() != self.indexed_len
    }

    /// Records that the current state was indexed.
    pub fn mark_indexed(&mut self)
        requires
            old(self).wf(),
        ensures
            final(self).wf(),
            final(self).spec_indexed_len() == old(self).state().len(),
            final(self).state() == old(self).state(),
            final(self).subscribers() == old(self).subscribers(),
            final(self).spec_object_id() == old(self).spec_object_id(),
            final(self).spec_workspace_id() == old(self).spec_workspace_id(),
            final(self).spec_collab_type() == old(self).spec_collab_type(),
            final(self).spec_created_at() == old(self).spec_created_at(),
            final(self).spec_last_activity() == old(self).spec_last_activity(),
            final(self).spec_last_persist() == old(self).spec_last_persist(),
            final(self).spec_edits() == old(self).spec_edits(),
    {
        self.indexed_len = self.updates.len();
    }

    /// Whether the group is idle at `now` for the given threshold in seconds.
    pub fn is_idle(&self, now: i64, threshold: i64) -> (r: bool)
        ensures
            r == idle(self.subscriber_count(), self.spec_last_activity() as int, now as int, threshold as int),
    {
        self.subscribers.len() == 0 && (now as i128 - self.last_activity as i128) > threshold as i128
    }
}

} // verus!
