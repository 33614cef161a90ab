//! The registry of collaboration groups: lazy creation, subscription, user
//! removal, and the idle set that the sweeper evicts.

use vstd::prelude::*;

use crate::error::{CreateGroupFailedReason, RealtimeError};
use crate::group::{Broadcast, CollabGroup, CollabType, frames_view, idle, is_indexable, persist_due};
use crate::keymap::{lists_key, StrMap};
use crate::user::{users_distinct, RealtimeUser};

verus! {

/// The settings a manager runs with, times in seconds.
#[derive(Clone, Copy, Debug)]
pub struct GroupConfig {
    pub persistence_interval_secs: i64,
    pub edit_state_max_count: u32,
    pub edit_state_max_secs: i64,
    /// How long a group without subscribers may go without activity before
    /// it counts as idle.
    pub inactive_secs: i64,
}

pub struct GroupManager {
    groups: StrMap<CollabGroup>,
    config: GroupConfig,
}

impl GroupManager {
    /// The map is well formed, and each group is well formed and stored
    /// under its own object id.
    pub closed spec fn wf(&self) -> bool {
        &&& self.groups.wf()
        &&& forall|k: Seq<char>| #[trigger]
            self.groups@.contains_key(k) ==> self.groups@[k].wf() && self.groups@[k].spec_object_id()
                == k
    }

    /// Each live group by object id.
    pub closed spec fn groups(&self) -> Map<Seq<char>, CollabGroup> {
        self.groups@
    }

    /// The number of live groups.
    pub closed spec fn group_count(&self) -> nat {
        self.groups.spec_len()
    }

    pub closed spec fn spec_config(&self) -> GroupConfig {
        self.config
    }

    /// The object ids of the groups that are idle at `now`.
    pub open spec fn idle_ids(&self, now: i64) -> Set<Seq<char>> {
        Set::new(
            |k: Seq<char>|
                self.groups().contains_key(k) && idle(
                    self.groups()[k].subscriber_count(),
                    self.groups()[k].spec_last_activity() as int,
                    now as int,
                    self.spec_config().inactive_secs as int,
                ),
        )
    }

    /// An object has at most one group: the one stored under its id.
    pub proof fn lemma_single_group_per_object(&self, object_id: Seq<char>)
        requires
            self.wf(),
        ensures
            forall|k: Seq<char>| #[trigger]
                self.groups().contains_key(k) && self.groups()[k].spec_object_id() == object_id ==> k
                    == object_id,
    {
    }

    /// A group with subscribers is never idle, so the sweeper never evicts it.
    pub proof fn lemma_subscribed_group_not_idle(&self, object_id: Seq<char>, now: i64)
        requires
            self.groups().contains_key(object_id),
            self.groups()[object_id].subscriber_count() > 0,
        ensures
            !self.idle_ids(now).contains(object_id),
    {
    }

    /// The object ids of the groups whose persistence rule holds at `now`.
    pub open spec fn persist_ids(&self, now: i64) -> Set<Seq<char>> {
        Set::new(
            |k: Seq<char>|
                self.groups().contains_key(k) && persist_due(
                    self.groups()[k].spec_edits() as int,
                    self.spec_config().edit_state_max_count as int,
                    now - self.groups()[k].spec_last_persist(),
                    self.spec_config().edit_state_max_secs as int,
                ),
        )
    }

    pub fn new(config: GroupConfig) -> (r: Self)
        ensures
            r.wf(),
            r.groups() == Map::<Seq<char>, CollabGroup>::empty(),
            r.spec_config() == config,
    {
        GroupManager { groups: StrMap::new(), config }
    }

    pub fn config(&self) -> (r: GroupConfig)
        ensures
            r == self.spec_config(),
    {
        self.config
    }

    pub fn contains(&self, object_id: &String) -> (r: bool)
        requires
            self.wf(),
        ensures
            r == self.groups().contains_key(object_id@),
    {
        self.groups.contains_key(object_id)
    }

    pub fn number_of_groups(&self) -> (r: usize)
        ensures
            r == self.group_count(),
    {
        self.groups.len()
    }

    /// The group of `object_id`, if it lives.
    pub fn get_group(&self, object_id: &String) -> (r: Option<&CollabGroup>)
        requires
            self.wf(),
        ensures
            match r {
                Some(g) => self.groups().contains_key(object_id@) && *g == self.groups()[object_id@],
                None => !self.groups().contains_key(object_id@),
            },
    {
        self.groups.get(object_id)
    }

    /// Makes sure a group for `object_id` lives, creating an empty one at
    /// `now` if none does. An existing group of another workspace is refused.
    pub fn get_or_create_group(
        &mut self,
        object_id: &String,
        workspace_id: &String,
        collab_type: CollabType,
        now: i64,
    ) -> (r: Result<(), RealtimeError>)
        requires
            old(self).wf(),
        ensures
            final(self).wf(),
            final(self).spec_config() == old(self).spec_config(),
            old(self).groups().contains_key(object_id@) ==> final(self).groups() == old(self).groups(),
            !old(self).groups().contains_key(object_id@) ==> {
                &&& r is Ok
                &&& final(self).groups().dom() == old(self).groups().dom().insert(object_id@)
                &&& final(self).groups()[object_id@].fresh(object_id@, workspace_id@, collab_type, now)
                &&& forall|k: Seq<char>| #[trigger]
                    old(self).groups().contains_key(k) ==> final(self).groups()[k] == old(self).groups()[k]
            },
            r is Ok <==> (!old(self).groups().contains_key(object_id@) || old(self).groups()[object_id@].spec_workspace_id()
                == workspace_id@),
            r matches Err(e) ==> e == RealtimeError::CreateGroupFailed(
                CreateGroupFailedReason::CollabWorkspaceIdNotMatch {
                    expect: old(self).groups()[object_id@].workspace_id_string(),
                    actual: *workspace_id,
                },
            ),
    {
        match self.groups.get(object_id) {
            Some(g) => {
                if *g.workspace_id() == *workspace_id {
                    Ok(())
                } else {
                    Err(
                        RealtimeError::CreateGroupFailed(
                            CreateGroupFailedReason::CollabWorkspaceIdNotMatch {
                                expect: g.workspace_id().clone(),
                                actual: workspace_id.clone(),
                            },
                        ),
                    )
                }
            },
            None => {
                let g = CollabGroup::new(object_id.clone(), workspace_id.clone(), collab_type, now);
                self.groups.insert(object_id.clone(), g);
                assert(self.groups@.dom() =~= old(self).groups@.dom().insert(object_id@));
                Ok(())
            },
        }
    }

    /// Subscribes `user`, served through sink `sink_id`, to the group of
    /// `object_id` and returns the snapshot it is sent; `None` when no such
    /// group lives.
    pub fn subscribe(&mut self, user: RealtimeUser, sink_id: u64, object_id: &String, now: i64) -> (r:
        Option<Vec<Vec<u8>>>)
        requires
            old(self).wf(),
        ensures
            final(self).wf(),
            final(self).spec_config() == old(self).spec_config(),
            final(self).groups().dom() == old(self).groups().dom(),
            forall|k: Seq<char>| #[trigger]
                final(self).groups().contains_key(k) && k != object_id@ ==> final(self).groups()[k]
                    == old(self).groups()[k],
            match r {
                Some(snapshot) => {
                    &&& old(self).groups().contains_key(object_id@)
                    &&& frames_view(snapshot@) == old(self).groups()[object_id@].state()
                    &&& final(self).groups()[object_id@].subscribers() == old(self).groups()[object_id@].subscribers().insert(
                        user@,
                        sink_id,
                    )
                    &&& final(self).groups()[object_id@].state() == old(self).groups()[object_id@].state()
                    &&& final(self).groups()[object_id@].spec_last_activity() == now
                },
                None => !old(self).groups().contains_key(object_id@) && final(self).groups() == old(
                    self,
                ).groups(),
            },
    {
        let mut g = match self.groups.remove(object_id) {
            Some(g) => g,
            None => {
                return None;
            },
        };
        let snapshot = g.subscribe(user, sink_id, now);
        self.groups.insert(object_id.clone(), g);
        assert(self.groups@.dom() =~= old(self).groups@.dom());
        Some(snapshot)
    }

    /// Applies `frames` from `user` to the group of `object_id`, creating the
    /// group first if it does not live; refused when an existing group
    /// belongs to another workspace.
    pub fn handle_client_messages(
        &mut self,
        user: &RealtimeUser,
        object_id: &String,
        workspace_id: &String,
        collab_type: CollabType,
        frames: Vec<Vec<u8>>,
        now: i64,
    ) -> (r: Result<Broadcast, RealtimeError>)
        requires
            old(self).wf(),
        ensures
            final(self).wf(),
            final(self).spec_config() == old(self).spec_config(),
            r is Ok <==> (!old(self).groups().contains_key(object_id@) || old(self).groups()[object_id@].spec_workspace_id()
                == workspace_id@),
            r is Err ==> final(self).groups() == old(self).groups(),
            r is Ok ==> {
                &&& final(self).groups().dom() == old(self).groups().dom().insert(object_id@)
                &&& forall|k: Seq<char>| #[trigger]
                    old(self).groups().contains_key(k) && k != object_id@ ==> final(self).groups()[k]
                        == old(self).groups()[k]
                &&& final(self).groups()[object_id@].state() == (if old(self).groups().contains_key(object_id@) {
                    old(self).groups()[object_id@].state()
                } else {
                    Seq::<Seq<u8>>::empty()
                }) + frames_view(frames@)
                &&& final(self).groups()[object_id@].subscribers() == (if old(self).groups().contains_key(object_id@) {
                    old(self).groups()[object_id@].subscribers()
                } else {
                    Map::<(i64, Seq<char>, Seq<char>), u64>::empty()
                })
                &&& final(self).groups()[object_id@].spec_last_activity() == now
            },
            r matches Ok(b) ==> users_distinct(b.recipients@),
            r matches Ok(b) ==> frames_view(b.frames@) == frames_view(frames@) && forall|u: (i64, Seq<char>, Seq<char>)| #[trigger]
                crate::user::lists_user(b.recipients@, u) <==> (final(self).groups()[object_id@].subscribers().contains_key(u)
                    && u != user@),
    {
        match self.get_or_create_group(object_id, workspace_id, collab_type, now) {
            Ok(()) => {},
            Err(e) => {
                return Err(e);
            },
        }
        let ghost mid = self.groups@;
        let mut g = match self.groups.remove(object_id) {
            Some(g) => g,
            None => {
                assert(false);
                return Err(RealtimeError::GroupNotFound);
            },
        };
        let b = g.apply_updates(user, frames, now);
        self.groups.insert(object_id.clone(), g);
        assert(self.groups@.dom() =~= mid.dom());
        Ok(b)
    }

    /// Removes `user` from every group; never fails.
    pub fn remove_user(&mut self, user: &RealtimeUser)
        requires
            old(self).wf(),
        ensures
            final(self).wf(),
            final(self).spec_config() == old(self).spec_config(),
            final(self).groups().dom() == old(self).groups().dom(),
            forall|k: Seq<char>| #[trigger]
                final(self).groups().contains_key(k) ==> final(self).groups()[k].subscribers() == old(
                    self,
                ).groups()[k].subscribers().remove(user@) && CollabGroup::same_but_subscribers(
                    &final(self).groups()[k],
                    &old(self).groups()[k],
                ),
    {
        let keys = self.groups.keys();
        let mut i: usize = 0;
        while i < keys.len()
            invariant
                self.wf(),
                self.config == old(self).config,
                i <= keys@.len(),
                forall|k: Seq<char>| #[trigger] old(self).groups@.contains_key(k) <==> lists_key(keys@, k),
                self.groups@.dom() == old(self).groups@.dom(),
                forall|k: Seq<char>| #[trigger]
                    self.groups@.contains_key(k) ==> (if lists_key(keys@.take(i as int), k) {
                        self.groups@[k].subscribers() == old(self).groups@[k].subscribers().remove(user@)
                            && CollabGroup::same_but_subscribers(&self.groups@[k], &old(self).groups@[k])
                    } else {
                        self.groups@[k] == old(self).groups@[k]
                    }),
            decreases keys@.len() - i,
        {
            let key = &keys[i];
            let ghost before = self.groups@;
            proof {
                assert(keys@[i as int]@ == key@);
                assert(lists_key(keys@, key@));
            }
            let mut g = match self.groups.remove(key) {
                Some(g) => g,
                None => {
                    assert(false);
                    return;
                },
            };
            g.remove_user(user);
            self.groups.insert(key.clone(), g);
            proof {
                assert(self.groups@.dom() =~= before.dom());
                assert forall|k: Seq<char>| #[trigger]
                    self.groups@.contains_key(k) implies (if lists_key(keys@.take(i + 1), k) {
                        self.groups@[k].subscribers() == old(self).groups@[k].subscribers().remove(user@)
                            && CollabGroup::same_but_subscribers(&self.groups@[k], &old(self).groups@[k])
                    } else {
                        self.groups@[k] == old(self).groups@[k]
                    }) by {
                    if k == key@ {
                        assert(keys@.take(i + 1)[i as int] == keys@[i as int]);
                        assert(lists_key(keys@.take(i + 1), k));
                        if lists_key(keys@.take(i as int), k) {
                            assert(before[k].subscribers() == old(self).groups@[k].subscribers().remove(user@));
                            assert(self.groups@[k].subscribers() =~= old(self).groups@[k].subscribers().remove(user@));
                        }
                    } else {
                        if lists_key(keys@.take(i + 1), k) {
                            let b = choose|b: int| 0 <= b < i + 1 && (#[trigger] keys@.take(i + 1)[b])@ == k;
                            assert(b != i);
                            assert(keys@.take(i as int)[b] == keys@.take(i + 1)[b]);
                        }
                        if lists_key(keys@.take(i as int), k) {
                            let b = choose|b: int| 0 <= b < i && (#[trigger] keys@.take(i as int)[b])@ == k;
                            assert(keys@.take(i as int)[b] == keys@.take(i + 1)[b]);
                        }
                    }
                }
            }
            i = i + 1;
        }
        proof {
            assert(keys@.take(i as int) =~= keys@);
        }
    }

    /// The object ids of the groups that are idle at `now`: no subscribers
    /// and no activity for longer than the configured threshold. Their order
    /// is unspecified.
    pub fn get_inactive_groups(&self, now: i64) -> (r: Vec<String>)
        requires
            self.wf(),
        ensures
            forall|k: Seq<char>| #[trigger] lists_key(r@, k) <==> self.idle_ids(now).contains(k),
    {
        let keys = self.groups.keys();
        let mut r: Vec<String> = Vec::new();
        let mut i: usize = 0;
        while i < keys.len()
            invariant
                self.wf(),
                i <= keys@.len(),
                forall|k: Seq<char>| #[trigger] self.groups@.contains_key(k) <==> lists_key(keys@, k),
                forall|k: Seq<char>| #[trigger]
                    lists_key(r@, k) <==> (lists_key(keys@.take(i as int), k) && self.idle_ids(now).contains(k)),
            decreases keys@.len() - i,
        {
            let key = &keys[i];
            proof {
                assert(keys@[i as int]@ == key@);
                assert(lists_key(keys@, key@));
            }
            let ghost before = r@;
            let keep = match self.groups.get(key) {
                Some(g) => g.is_idle(now, self.config.inactive_secs),
                None => false,
            };
            if keep {
                r.push(key.clone());
            }
            proof {
                assert(keep == self.idle_ids(now).contains(key@));
                assert(keep ==> r@ == before.push(keys@[i as int]));
                assert(!keep ==> r@ == before);
                assert forall|k: Seq<char>| #[trigger]
                    lists_key(r@, k) <==> (lists_key(keys@.take(i + 1), k) && self.idle_ids(now).contains(k)) by {
                    if lists_key(r@, k) {
                        let a = choose|a: int| 0 <= a < r@.len() && (#[trigger] r@[a])@ == k;
                        if a < before.len() {
                            assert(before[a] == r@[a]);
                            assert(lists_key(before, k));
                            let b = choose|b: int| 0 <= b < i && (#[trigger] keys@.take(i as int)[b])@ == k;
                            assert(keys@.take(i + 1)[b] == keys@.take(i as int)[b]);
                        } else {
                            assert(keys@.take(i + 1)[i as int] == keys@[i as int]);
                        }
                    }
                    if lists_key(keys@.take(i + 1), k) && self.idle_ids(now).contains(k) {
                        let b = choose|b: int| 0 <= b < i + 1 && (#[trigger] keys@.take(i + 1)[b])@ == k;
                        if b < i {
                            assert(keys@.take(i as int)[b] == keys@.take(i + 1)[b]);
                            assert(lists_key(keys@.take(i as int), k));
                            assert(lists_key(before, k));
                            let a = choose|a: int| 0 <= a < before.len() && (#[trigger] before[a])@ == k;
                            assert(r@[a] == before[a]);
                        } else {
                            assert(keys@.take(i + 1)[i as int] == keys@[i as int]);
                            assert(r@[before.len() as int] == keys@[i as int]);
                        }
                    }
                }
            }
            i = i + 1;
        }
        proof {
            assert(keys@.take(i as int) =~= keys@);
            assert forall|k: Seq<char>| #[trigger] lists_key(r@, k) implies self.idle_ids(now).contains(k) by {}
            assert forall|k: Seq<char>| #[trigger] self.idle_ids(now).contains(k) implies lists_key(r@, k) by {
                assert(self.groups@.contains_key(k));
                assert(lists_key(keys@, k));
            }
        }
        r
    }

    /// Detaches `user` from the group of `object_id`; returns whether it was
    /// subscribed there.
    pub fn unsubscribe(&mut self, user: &RealtimeUser, object_id: &String) -> (r: bool)
        requires
            old(self).wf(),
        ensures
            final(self).wf(),
            final(self).spec_config() == old(self).spec_config(),
            final(self).groups().dom() == old(self).groups().dom(),
            forall|k: Seq<char>| #[trigger]
                final(self).groups().contains_key(k) && k != object_id@ ==> final(self).groups()[k]
                    == old(self).groups()[k],
            old(self).groups().contains_key(object_id@) ==> {
                &&& final(self).groups()[object_id@].subscribers() == old(self).groups()[object_id@].subscribers().remove(user@)
                &&& CollabGroup::same_but_subscribers(&final(self).groups()[object_id@], &old(self).groups()[object_id@])
            },
            r == (old(self).groups().contains_key(object_id@) && old(self).groups()[object_id@].subscribers().contains_key(user@)),
    {
        let mut g = match self.groups.remove(object_id) {
            Some(g) => g,
            None => {
                assert(self.groups@ =~= old(self).groups@);
                return false;
            },
        };
        let r = g.remove_user(user);
        self.groups.insert(object_id.clone(), g);
        assert(self.groups@.dom() =~= old(self).groups@.dom());
        r
    }

    /// Drops the group of `object_id`; returns whether one lived.
    pub fn remove_group(&mut self, object_id: &String) -> (r: bool)
        requires
            old(self).wf(),
        ensures
            final(self).wf(),
            final(self).spec_config() == old(self).spec_config(),
            r == old(self).groups().contains_key(object_id@),
            final(self).groups() == old(self).groups().remove(object_id@),
    {
        self.groups.remove(object_id).is_some()
    }

    /// The object ids of the groups to persist on the periodic tick at `now`:
    /// enough edits since the last persist, or enough time. Their order is
    /// unspecified.
    pub fn groups_due_for_persist(&self, now: i64) -> (r: Vec<String>)
        requires
            self.wf(),
        ensures
            forall|k: Seq<char>| #[trigger] lists_key(r@, k) <==> self.persist_ids(now).contains(k),
    {
        let keys = self.groups.keys();
        let mut r: Vec<String> = Vec::new();
        let mut i: usize = 0;
        while i < keys.len()
            invariant
                self.wf(),
                i <= keys@.len(),
                forall|k: Seq<char>| #[trigger] self.groups@.contains_key(k) <==> lists_key(keys@, k),
                forall|k: Seq<char>| #[trigger]
                    lists_key(r@, k) <==> (lists_key(keys@.take(i as int), k) && self.persist_ids(now).contains(k)),
            decreases keys@.len() - i,
        {
            let key = &keys[i];
            proof {
                assert(keys@[i as int]@ == key@);
                assert(lists_key(keys@, key@));
            }
            let ghost before = r@;
            let keep = match self.groups.get(key) {
                Some(g) => g.persist_due(self.config.edit_state_max_count, self.config.edit_state_max_secs, now),
                None => false,
            };
            if keep {
                r.push(key.clone());
            }
            proof {
                assert(keep == self.persist_ids(now).contains(key@));
                assert(keep ==> r@ == before.push(keys@[i as int]));
                assert(!keep ==> r@ == before);
                assert forall|k: Seq<char>| #[trigger]
                    lists_key(r@, k) <==> (lists_key(keys@.take(i + 1), k) && self.persist_ids(now).contains(k)) by {
                    if lists_key(r@, k) {
                        let a = choose|a: int| 0 <= a < r@.len() && (#[trigger] r@[a])@ == k;
                        if a < before.len() {
                            assert(before[a] == r@[a]);
                            assert(lists_key(before, k));
                            let b = choose|b: int| 0 <= b < i && (#[trigger] keys@.take(i as int)[b])@ == k;
                            assert(keys@.take(i + 1)[b] == keys@.take(i as int)[b]);
                        } else {
                            assert(keys@.take(i + 1)[i as int] == keys@[i as int]);
                        }
                    }
                    if lists_key(keys@.take(i + 1), k) && self.persist_ids(now).contains(k) {
                        let b = choose|b: int| 0 <= b < i + 1 && (#[trigger] keys@.take(i + 1)[b])@ == k;
                        if b < i {
                            assert(keys@.take(i as int)[b] == keys@.take(i + 1)[b]);
                            assert(lists_key(keys@.take(i as int), k));
                            assert(lists_key(before, k));
                            let a = choose|a: int| 0 <= a < before.len() && (#[trigger] before[a])@ == k;
                            assert(r@[a] == before[a]);
                        } else {
                            assert(keys@.take(i + 1)[i as int] == keys@[i as int]);
                            assert(r@[before.len() as int] == keys@[i as int]);
                        }
                    }
                }
            }
            i = i + 1;
        }
        proof {
            assert(keys@.take(i as int) =~= keys@);
            assert forall|k: Seq<char>| #[trigger] self.persist_ids(now).contains(k) implies lists_key(r@, k) by {
                assert(self.groups@.contains_key(k));
                assert(lists_key(keys@, k));
            }
        }
        r
    }

    /// Records that the group of `object_id` was persisted at `now`. Returns
    /// whether its content should now go to the indexer: the group is of an
    /// indexable type and changed since it was last indexed. `false` when no
    /// such group lives.
    pub fn mark_persisted(&mut self, object_id: &String, now: i64) -> (r: bool)
        requires
            old(self).wf(),
        ensures
            final(self).wf(),
            final(self).spec_config() == old(self).spec_config(),
            final(self).groups().dom() == old(self).groups().dom(),
            forall|k: Seq<char>| #[trigger]
                final(self).groups().contains_key(k) && k != object_id@ ==> final(self).groups()[k]
                    == old(self).groups()[k],
            old(self).groups().contains_key(object_id@) ==> {
                let (g, h) = (old(self).groups()[object_id@], final(self).groups()[object_id@]);
                &&& h.spec_edits() == 0
                &&& h.spec_last_persist() == now
                &&& h.state() == g.state()
                &&& h.subscribers() == g.subscribers()
                &&& h.spec_last_activity() == g.spec_last_activity()
                &&& h.spec_indexed_len() == g.spec_indexed_len()
                &&& r == (is_indexable(g.spec_collab_type()) && g.state().len() != g.spec_indexed_len())
            },
            !old(self).groups().contains_key(object_id@) ==> !r,
    {
        let mut g = match self.groups.remove(object_id) {
            Some(g) => g,
            None => {
                assert(self.groups@ =~= old(self).groups@);
                return false;
            },
        };
        g.mark_persisted(now);
        let r = g.index_due();
        self.groups.insert(object_id.clone(), g);
        assert(self.groups@.dom() =~= old(self).groups@.dom());
        r
    }

    /// Records that the group of `object_id` handed its current content to
    /// the indexer; returns whether such a group lives.
    pub fn mark_indexed(&mut self, object_id: &String) -> (r: bool)
        requires
            old(self).wf(),
        ensures
            final(self).wf(),
            final(self).spec_config() == old(self).spec_config(),
            final(self).groups().dom() == old(self).groups().dom(),
            forall|k: Seq<char>| #[trigger]
                final(self).groups().contains_key(k) && k != object_id@ ==> final(self).groups()[k]
                    == old(self).groups()[k],
            r == old(self).groups().contains_key(object_id@),
            r ==> final(self).groups()[object_id@].spec_indexed_len() == old(self).groups()[object_id@].state().len()
                && final(self).groups()[object_id@].state() == old(self).groups()[object_id@].state()
                && final(self).groups()[object_id@].subscribers() == old(self).groups()[object_id@].subscribers(),
    {
        let mut g = match self.groups.remove(object_id) {
            Some(g) => g,
            None => {
                assert(self.groups@ =~= old(self).groups@);
                return false;
            },
        };
        g.mark_indexed();
        self.groups.insert(object_id.clone(), g);
        assert(self.groups@.dom() =~= old(self).groups@.dom());
        true
    }
}

} // verus!
