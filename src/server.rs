//! The top-level façade: connections, disconnections and client messages,
//! the object-to-channel registry, and the idle sweep.

use vstd::prelude::*;

use crate::channel::{GROUP_CHANNEL_CAPACITY, GroupCommand, GroupCommandChannel};
use crate::connect_state::ConnectState;
use crate::error::RealtimeError;
use crate::control::CollabControlEvent;
use crate::group::{frames_view, is_indexable, Broadcast, CollabGroup, CollabType};
use crate::keymap::{lists_key, StrMap};
use crate::manager::{GroupConfig, GroupManager};
use crate::router::{received, ClientMessageRouter};
use crate::user::{device_of, lists_user, users_distinct, RealtimeUser, UserDevice};

verus! {

/// Seconds the idle sweeper waits after start: no group can be idle sooner.
pub const SWEEP_WARMUP_SECS: u64 = 60;

/// Seconds between two ticks of the idle sweeper.
pub const SWEEP_INTERVAL_SECS: u64 = 20;

/// The edits a client sent for one object.
pub struct ObjectMessages {
    pub object_id: String,
    pub workspace_id: String,
    pub collab_type: CollabType,
    pub messages: Vec<Vec<u8>>,
}

/// The command that carries `m` from `user` to its group.
pub open spec fn message_command(user: RealtimeUser, m: ObjectMessages) -> GroupCommand {
    GroupCommand::HandleClientCollabMessage {
        user,
        object_id: m.object_id,
        workspace_id: m.workspace_id,
        collab_type: m.collab_type,
        collab_messages: m.messages,
    }
}

/// The queues and the dropped-command counter after enqueueing `cmd` for
/// `oid`: an object without a channel gets an empty one first; a full
/// channel drops the command and counts it (saturating).
pub open spec fn enqueue(
    reg: Map<Seq<char>, Seq<GroupCommand>>,
    dropped: u64,
    oid: Seq<char>,
    cmd: GroupCommand,
) -> (Map<Seq<char>, Seq<GroupCommand>>, u64) {
    let q = if reg.contains_key(oid) {
        reg[oid]
    } else {
        Seq::<GroupCommand>::empty()
    };
    if q.len() < GROUP_CHANNEL_CAPACITY {
        (reg.insert(oid, q.push(cmd)), dropped)
    } else {
        (reg, if dropped < u64::MAX { (dropped + 1) as u64 } else { dropped })
    }
}

/// The queues and the counter after enqueueing each object's edits in order.
pub open spec fn dispatch(
    reg: Map<Seq<char>, Seq<GroupCommand>>,
    dropped: u64,
    user: RealtimeUser,
    ms: Seq<ObjectMessages>,
) -> (Map<Seq<char>, Seq<GroupCommand>>, u64)
    decreases ms.len(),
{
    if ms.len() == 0 {
        (reg, dropped)
    } else {
        let (r, d) = dispatch(reg, dropped, user, ms.drop_last());
        enqueue(r, d, ms.last().object_id@, message_command(user, ms.last()))
    }
}

/// Each router that `chosen` picks was handed `frames` in order; every
/// other router is as it was.
pub open spec fn delivered(
    before: Map<(i64, Seq<char>, Seq<char>), ClientMessageRouter>,
    after: Map<(i64, Seq<char>, Seq<char>), ClientMessageRouter>,
    chosen: spec_fn((i64, Seq<char>, Seq<char>)) -> bool,
    frames: Seq<Seq<u8>>,
) -> bool {
    &&& after.dom() == before.dom()
    &&& forall|u: (i64, Seq<char>, Seq<char>)| #[trigger]
        after.contains_key(u) ==> if chosen(u) {
            &&& after[u].pending() == received(before[u].pending(), before[u].spec_closed(), before[u].spec_capacity(), frames)
            &&& after[u].spec_closed() == before[u].spec_closed()
            &&& after[u].spec_capacity() == before[u].spec_capacity()
            &&& after[u].spec_sink_id() == before[u].spec_sink_id()
        } else {
            after[u] == before[u]
        }
}

/// What carrying out `cmd` hands to the routers: the edits of a message go
/// to every other subscriber of the object's group; a new subscriber gets
/// the group's state; nothing else reaches a router.
pub open spec fn command_delivered(
    groups_before: Map<Seq<char>, CollabGroup>,
    groups_after: Map<Seq<char>, CollabGroup>,
    before: Map<(i64, Seq<char>, Seq<char>), ClientMessageRouter>,
    after: Map<(i64, Seq<char>, Seq<char>), ClientMessageRouter>,
    cmd: GroupCommand,
    res: Result<(), RealtimeError>,
) -> bool {
    match cmd {
        GroupCommand::HandleClientCollabMessage { user, object_id, collab_messages, .. } => if res is Ok {
            delivered(
                before,
                after,
                |u: (i64, Seq<char>, Seq<char>)| groups_after[object_id@].subscribers().contains_key(u) && u != user@,
                frames_view(collab_messages@),
            )
        } else {
            after == before
        },
        GroupCommand::Subscribe { user, object_id, .. } => if res is Ok {
            delivered(before, after, |u: (i64, Seq<char>, Seq<char>)| u == user@, groups_before[object_id@].state())
        } else {
            after == before
        },
        _ => after == before,
    }
}

/// How carrying out `cmd` at `now` relates the groups before and after, and
/// its result; `connected` holds the users with a connection. Only a
/// connected user can subscribe.
pub open spec fn command_applied(
    before: Map<Seq<char>, CollabGroup>,
    after: Map<Seq<char>, CollabGroup>,
    connected: Set<(i64, Seq<char>, Seq<char>)>,
    cmd: GroupCommand,
    now: i64,
    res: Result<(), RealtimeError>,
) -> bool {
    match cmd {
        GroupCommand::HandleClientCollabMessage { user, object_id, workspace_id, collab_type, collab_messages } => {
            let k = object_id@;
            let ok = !before.contains_key(k) || before[k].spec_workspace_id() == workspace_id@;
            &&& (res is Ok <==> ok)
            &&& !ok ==> after == before
            &&& ok ==> {
                &&& after.dom() == before.dom().insert(k)
                &&& forall|o: Seq<char>| #[trigger] before.contains_key(o) && o != k ==> after[o] == before[o]
                &&& after[k].state() == (if before.contains_key(k) {
                    before[k].state()
                } else {
                    Seq::<Seq<u8>>::empty()
                }) + frames_view(collab_messages@)
                &&& after[k].subscribers() == (if before.contains_key(k) {
                    before[k].subscribers()
                } else {
                    Map::<(i64, Seq<char>, Seq<char>), u64>::empty()
                })
                &&& after[k].spec_last_activity() == now
            }
        },
        GroupCommand::Subscribe { user, object_id, sink_id } => {
            let k = object_id@;
            let attached = before.contains_key(k) && connected.contains(user@);
            &&& (res is Ok <==> attached)
            &&& !before.contains_key(k) ==> res == Err::<(), RealtimeError>(RealtimeError::GroupNotFound)
            &&& before.contains_key(k) && !connected.contains(user@) ==> res == Err::<(), RealtimeError>(
                RealtimeError::NotConnected,
            )
            &&& after.dom() == before.dom()
            &&& forall|o: Seq<char>| #[trigger] after.contains_key(o) && o != k ==> after[o] == before[o]
            &&& attached ==> after[k].subscribers() == before[k].subscribers().insert(user@, sink_id)
                && after[k].state() == before[k].state()
            &&& !attached ==> after == before
        },
        GroupCommand::Unsubscribe { user, object_id } => {
            let k = object_id@;
            &&& res is Ok
            &&& after.dom() == before.dom()
            &&& forall|o: Seq<char>| #[trigger] after.contains_key(o) && o != k ==> after[o] == before[o]
            &&& before.contains_key(k) ==> after[k].subscribers() == before[k].subscribers().remove(user@)
                && CollabGroup::same_but_subscribers(&after[k], &before[k])
        },
        GroupCommand::HandleControlEvent { event } => match event {
            CollabControlEvent::Open { workspace_id, object_id, collab_type, .. } => {
                let k = object_id@;
                let ok = !before.contains_key(k) || before[k].spec_workspace_id() == workspace_id@;
                &&& (res is Ok <==> ok)
                &&& before.contains_key(k) ==> after == before
                &&& !before.contains_key(k) ==> after.dom() == before.dom().insert(k) && after[k].fresh(
                    k,
                    workspace_id@,
                    collab_type,
                    now,
                ) && forall|o: Seq<char>| #[trigger] before.contains_key(o) ==> after[o] == before[o]
            },
            CollabControlEvent::Close { object_id } => res is Ok && after == before.remove(object_id@),
        },
    }
}

pub struct CollaborationServer {
    group_manager: GroupManager,
    connect_state: ConnectState,
    group_sender_by_object_id: StrMap<GroupCommandChannel>,
    /// The connected-users gauge.
    connected_users: usize,
    /// Commands dropped on a full channel.
    dropped_commands: u64,
    enable_custom_runtime: bool,
}

impl CollaborationServer {
    pub closed spec fn wf(&self) -> bool {
        &&& self.group_manager.wf()
        &&& self.connect_state.wf()
        &&& self.group_sender_by_object_id.wf()
        &&& self.connected_users == self.connect_state.user_count()
        &&& forall|k: Seq<char>, u: (i64, Seq<char>, Seq<char>)|
            #[trigger] self.group_manager.groups().contains_key(k) && #[trigger] self.group_manager.groups()[k].subscribers().contains_key(u)
                ==> self.connect_state.routers().contains_key(u)
    }

    /// Every subscriber of every group is a connected user.
    pub proof fn lemma_subscribers_connected(&self)
        requires
            self.wf(),
        ensures
            forall|k: Seq<char>, u: (i64, Seq<char>, Seq<char>)|
                #[trigger] self.groups().contains_key(k) && #[trigger] self.groups()[k].subscribers().contains_key(u)
                    ==> self.routers().contains_key(u),
    {
    }

    /// Each registered object's waiting commands.
    pub closed spec fn registry(&self) -> Map<Seq<char>, Seq<GroupCommand>> {
        self.group_sender_by_object_id@.map_values(|c: GroupCommandChannel| c.pending())
    }

    pub closed spec fn users(&self) -> Map<(i64, Seq<char>), (i64, Seq<char>, Seq<char>)> {
        self.connect_state.users()
    }

    pub closed spec fn routers(&self) -> Map<(i64, Seq<char>, Seq<char>), ClientMessageRouter> {
        self.connect_state.routers()
    }

    pub closed spec fn user_count(&self) -> nat {
        self.connect_state.user_count()
    }

    pub closed spec fn groups(&self) -> Map<Seq<char>, CollabGroup> {
        self.group_manager.groups()
    }

    pub closed spec fn idle_ids(&self, now: i64) -> Set<Seq<char>> {
        self.group_manager.idle_ids(now)
    }

    pub closed spec fn spec_config(&self) -> GroupConfig {
        self.group_manager.spec_config()
    }

    pub closed spec fn gauge(&self) -> nat {
        self.connected_users as nat
    }

    pub closed spec fn spec_dropped_commands(&self) -> u64 {
        self.dropped_commands
    }

    pub closed spec fn spec_custom_runtime(&self) -> bool {
        self.enable_custom_runtime
    }

    /// The parts of the state that message handling leaves alone.
    pub open spec fn same_connections(a: &CollaborationServer, b: &CollaborationServer) -> bool {
        &&& a.users() == b.users()
        &&& a.routers() == b.routers()
        &&& a.user_count() == b.user_count()
        &&& a.gauge() == b.gauge()
        &&& a.spec_custom_runtime() == b.spec_custom_runtime()
        &&& a.spec_config() == b.spec_config()
    }

    pub fn new(config: GroupConfig, enable_custom_runtime: bool) -> (r: Self)
        ensures
            r.wf(),
            r.registry() == Map::<Seq<char>, Seq<GroupCommand>>::empty(),
            r.users() == Map::<(i64, Seq<char>), (i64, Seq<char>, Seq<char>)>::empty(),
            r.groups() == Map::<Seq<char>, CollabGroup>::empty(),
            r.gauge() == 0,
            r.spec_dropped_commands() == 0,
            r.spec_custom_runtime() == enable_custom_runtime,
            r.spec_config() == config,
    {
        let r = CollaborationServer {
            group_manager: GroupManager::new(config),
            connect_state: ConnectState::new(),
            group_sender_by_object_id: StrMap::new(),
            connected_users: 0,
            dropped_commands: 0,
            enable_custom_runtime,
        };
        assert(r.registry() =~= Map::<Seq<char>, Seq<GroupCommand>>::empty());
        r
    }

    /// The connected-users gauge.
    pub fn connected_users(&self) -> (r: usize)
        ensures
            r == self.gauge(),
    {
        self.connected_users
    }

    pub fn dropped_commands(&self) -> (r: u64)
        ensures
            r == self.spec_dropped_commands(),
    {
        self.dropped_commands
    }

    /// Whether runners go to a dedicated multi-threaded scheduler.
    pub fn enable_custom_runtime(&self) -> (r: bool)
        ensures
            r == self.spec_custom_runtime(),
    {
        self.enable_custom_runtime
    }

    pub fn contains_group_sender(&self, object_id: &String) -> (r: bool)
        requires
            self.wf(),
        ensures
            r == self.registry().contains_key(object_id@),
    {
        self.group_sender_by_object_id.contains_key(object_id)
    }

    pub fn group_manager(&self) -> (r: &GroupManager)
        requires
            self.wf(),
        ensures
            r.wf(),
            r.groups() == self.groups(),
            r.spec_config() == self.spec_config(),
    {
        &self.group_manager
    }

    /// Connects `user` through `router`, replacing the connection of the same
    /// uid and device. The replaced user leaves every group, and its router
    /// is closed and handed back, so that its sink is closed exactly once.
    pub fn handle_new_connection(&mut self, user: RealtimeUser, router: ClientMessageRouter) -> (r: Result<
        Option<ClientMessageRouter>,
        RealtimeError,
    >)
        requires
            old(self).wf(),
        ensures
            final(self).wf(),
            r is Ok,
            final(self).users() == old(self).users().insert(device_of(user@), user@),
            final(self).gauge() == final(self).user_count(),
            final(self).registry() == old(self).registry(),
            final(self).spec_dropped_commands() == old(self).spec_dropped_commands(),
            final(self).spec_custom_runtime() == old(self).spec_custom_runtime(),
            final(self).spec_config() == old(self).spec_config(),
            final(self).groups().dom() == old(self).groups().dom(),
            forall|k: Seq<char>| #[trigger]
                final(self).groups().contains_key(k) ==> !final(self).groups()[k].subscribers().contains_key(user@),
            match r {
                Ok(Some(closed)) => {
                    let prev = old(self).users()[device_of(user@)];
                    &&& old(self).users().contains_key(device_of(user@))
                    &&& closed.spec_closed()
                    &&& closed.spec_sink_id() == old(self).routers()[prev].spec_sink_id()
                    &&& final(self).routers() == old(self).routers().remove(prev).insert(user@, router)
                    &&& final(self).gauge() == old(self).gauge()
                    &&& forall|k: Seq<char>| #[trigger]
                        final(self).groups().contains_key(k) ==> final(self).groups()[k].subscribers()
                            == old(self).groups()[k].subscribers().remove(prev)
                            && CollabGroup::same_but_subscribers(&final(self).groups()[k], &old(self).groups()[k])
                },
                _ => {
                    &&& !old(self).users().contains_key(device_of(user@))
                    &&& final(self).routers() == old(self).routers().insert(user@, router)
                    &&& final(self).gauge() == old(self).gauge() + 1
                    &&& final(self).groups() == old(self).groups()
                },
            },
    {
        proof {
            self.connect_state.lemma_users_have_routers();
        }
        let replaced = self.connect_state.handle_user_connect(user, router);
        let r = match replaced {
            Some((old_user, mut old_router)) => {
                self.group_manager.remove_user(&old_user);
                old_router.close();
                Some(old_router)
            },
            None => None,
        };
        self.connected_users = self.connect_state.number_of_connected_users();
        Ok(r)
    }

    /// Disconnects `user` if its session is still the current one for its
    /// uid and device, and removes it from every group; a disconnect from a
    /// superseded session changes nothing.
    pub fn handle_disconnect(&mut self, user: RealtimeUser) -> (r: Result<(), RealtimeError>)
        requires
            old(self).wf(),
        ensures
            final(self).wf(),
            r is Ok,
            final(self).registry() == old(self).registry(),
            final(self).spec_dropped_commands() == old(self).spec_dropped_commands(),
            final(self).spec_custom_runtime() == old(self).spec_custom_runtime(),
            final(self).spec_config() == old(self).spec_config(),
            final(self).gauge() == final(self).user_count(),
            if old(self).users().contains_key(device_of(user@)) && old(self).users()[device_of(user@)]
                == user@ {
                &&& final(self).users() == old(self).users().remove(device_of(user@))
                &&& final(self).routers() == old(self).routers().remove(user@)
                &&& final(self).gauge() + 1 == old(self).gauge()
                &&& final(self).groups().dom() == old(self).groups().dom()
                &&& forall|k: Seq<char>| #[trigger]
                    final(self).groups().contains_key(k) ==> final(self).groups()[k].subscribers()
                        == old(self).groups()[k].subscribers().remove(user@)
                        && CollabGroup::same_but_subscribers(&final(self).groups()[k], &old(self).groups()[k])
            } else {
                &&& final(self).users() == old(self).users()
                &&& final(self).routers() == old(self).routers()
                &&& final(self).groups() == old(self).groups()
                &&& final(self).gauge() == old(self).gauge()
            },
    {
        let was_removed = self.connect_state.handle_user_disconnect(&user);
        if was_removed.is_some() {
            self.connected_users = self.connect_state.number_of_connected_users();
            self.group_manager.remove_user(&user);
        }
        Ok(())
    }

    /// The user connected from `user_device`, if any.
    pub fn get_user_by_device(&self, user_device: &UserDevice) -> (r: Option<RealtimeUser>)
        requires
            self.wf(),
        ensures
            match r {
                Some(u) => self.users().contains_key(user_device@) && u@ == self.users()[user_device@],
                None => !self.users().contains_key(user_device@),
            },
    {
        self.connect_state.user_by_device(user_device)
    }

    /// Routes each object's edits to its group's channel in batch order: an
    /// object without a channel gets one, and its runner must be started; a
    /// full channel drops the edits and counts them. Returns the objects
    /// whose runners are new.
    pub fn handle_client_message(&mut self, user: &RealtimeUser, message_by_oid: Vec<ObjectMessages>) -> (r:
        Result<Vec<String>, RealtimeError>)
        requires
            old(self).wf(),
        ensures
            final(self).wf(),
            (final(self).registry(), final(self).spec_dropped_commands()) == dispatch(
                old(self).registry(),
                old(self).spec_dropped_commands(),
                *user,
                message_by_oid@,
            ),
            r matches Ok(spawned) && forall|k: Seq<char>| #[trigger]
                lists_key(spawned@, k) <==> (!old(self).registry().contains_key(k) && final(self).registry().contains_key(k)),
            CollaborationServer::same_connections(&*final(self), &*old(self)),
            final(self).groups() == old(self).groups(),
    {
        let mut msgs = message_by_oid;
        let ghost all = msgs@;
        let n = msgs.len();
        let mut spawned: Vec<String> = Vec::new();
        let mut i: usize = 0;
        while msgs.len() > 0
            invariant
                self.wf(),
                all.len() == n,
                i + msgs@.len() == n,
                msgs@ == all.skip(i as int),
                (self.registry(), self.dropped_commands) == dispatch(
                    old(self).registry(),
                    old(self).dropped_commands,
                    *user,
                    all.take(i as int),
                ),
                CollaborationServer::same_connections(&*self, &*old(self)),
                self.group_manager == old(self).group_manager,
                forall|k: Seq<char>| #[trigger]
                    old(self).registry().contains_key(k) ==> self.registry().contains_key(k),
                forall|k: Seq<char>| #[trigger]
                    lists_key(spawned@, k) <==> (!old(self).registry().contains_key(k) && self.registry().contains_key(k)),
            decreases msgs@.len(),
        {
            let m = msgs.remove(0);
            let ghost before = self.registry();
            let ghost before_spawned = spawned@;
            proof {
                assert(all.take(i + 1).drop_last() =~= all.take(i as int));
                assert(all.take(i + 1).last() == m);
            }
            let ObjectMessages { object_id, workspace_id, collab_type, messages } = m;
            let existed = self.group_sender_by_object_id.contains_key(&object_id);
            if !existed {
                spawned.push(object_id.clone());
            }
            let mut ch = match self.group_sender_by_object_id.remove(&object_id) {
                Some(ch) => ch,
                None => GroupCommandChannel::new(),
            };
            let cmd = GroupCommand::HandleClientCollabMessage {
                user: user.clone(),
                object_id: object_id.clone(),
                workspace_id,
                collab_type,
                collab_messages: messages,
            };
            assert(cmd == message_command(*user, m));
            match ch.try_send(cmd) {
                Ok(()) => {},
                Err(_) => {
                    if self.dropped_commands < u64::MAX {
                        self.dropped_commands = self.dropped_commands + 1;
                    }
                },
            }
            let ghost key = object_id@;
            self.group_sender_by_object_id.insert(object_id, ch);
            proof {
                assert(existed == before.contains_key(key));
                assert(self.registry() =~= before.insert(key, ch.pending()));
                assert forall|k: Seq<char>| #[trigger]
                    lists_key(spawned@, k) <==> (!old(self).registry().contains_key(k) && self.registry().contains_key(k)) by {
                    if lists_key(spawned@, k) && !lists_key(before_spawned, k) {
                        let a = choose|a: int| 0 <= a < spawned@.len() && (#[trigger] spawned@[a])@ == k;
                        assert(a == before_spawned.len());
                    }
                    if lists_key(before_spawned, k) {
                        let a = choose|a: int| 0 <= a < before_spawned.len() && (#[trigger] before_spawned[a])@ == k;
                        assert(spawned@[a] == before_spawned[a]);
                    }
                    if !before.contains_key(k) && k == key {
                        assert(spawned@[before_spawned.len() as int]@ == k);
                    }
                    if k == key && lists_key(spawned@, k) {
                        assert(self.registry().contains_key(k));
                    }
                }
            }
            i = i + 1;
            proof {
                assert(msgs@ =~= all.skip(i as int));
            }
        }
        proof {
            assert(all.take(i as int) =~= all);
        }
        Ok(spawned)
    }

    /// Forwards a command from the command bus to the channel of `object_id`,
    /// creating the channel as client messages do. Returns whether the
    /// channel, and so its runner, is new; a full channel drops the command,
    /// counts it, and reports `ChannelFull`.
    pub fn handle_command(&mut self, object_id: String, cmd: GroupCommand) -> (r: Result<bool, RealtimeError>)
        requires
            old(self).wf(),
        ensures
            final(self).wf(),
            (final(self).registry(), final(self).spec_dropped_commands()) == enqueue(
                old(self).registry(),
                old(self).spec_dropped_commands(),
                object_id@,
                cmd,
            ),
            match r {
                Ok(spawned) => spawned == !old(self).registry().contains_key(object_id@),
                Err(e) => e == RealtimeError::ChannelFull && old(self).registry().contains_key(object_id@)
                    && old(self).registry()[object_id@].len() >= GROUP_CHANNEL_CAPACITY,
            },
            CollaborationServer::same_connections(&*final(self), &*old(self)),
            final(self).groups() == old(self).groups(),
    {
        let existed = self.group_sender_by_object_id.contains_key(&object_id);
        let mut ch = match self.group_sender_by_object_id.remove(&object_id) {
            Some(ch) => ch,
            None => GroupCommandChannel::new(),
        };
        let ghost before = old(self).registry();
        let sent = ch.try_send(cmd);
        if sent.is_err() && self.dropped_commands < u64::MAX {
            self.dropped_commands = self.dropped_commands + 1;
        }
        let ghost key = object_id@;
        self.group_sender_by_object_id.insert(object_id, ch);
        assert(self.registry() =~= before.insert(key, ch.pending()));
        match sent {
            Ok(()) => Ok(!existed),
            Err(e) => Err(e),
        }
    }

    /// One tick of the idle sweeper: drops the channel and the group of every
    /// object that is idle at `now`, and returns their ids. An object whose
    /// group has subscribers is never idle, so its channel stays.
    pub fn sweep_inactive_groups(&mut self, now: i64) -> (r: Vec<String>)
        requires
            old(self).wf(),
        ensures
            final(self).wf(),
            forall|k: Seq<char>| #[trigger] lists_key(r@, k) <==> old(self).idle_ids(now).contains(k),
            final(self).registry() == old(self).registry().remove_keys(old(self).idle_ids(now)),
            final(self).groups() == old(self).groups().remove_keys(old(self).idle_ids(now)),
            forall|k: Seq<char>| #[trigger]
                old(self).registry().contains_key(k) && old(self).groups().contains_key(k) && old(self).groups()[k].subscriber_count()
                    > 0 ==> final(self).registry().contains_key(k),
            CollaborationServer::same_connections(&*final(self), &*old(self)),
            final(self).spec_dropped_commands() == old(self).spec_dropped_commands(),
    {
        let ids = self.group_manager.get_inactive_groups(now);
        let ghost idle = old(self).idle_ids(now);
        let mut i: usize = 0;
        while i < ids.len()
            invariant
                self.wf(),
                i <= ids@.len(),
                forall|k: Seq<char>| #[trigger] lists_key(ids@, k) <==> idle.contains(k),
                self.registry() == old(self).registry().remove_keys(Set::new(|k: Seq<char>| lists_key(ids@.take(i as int), k))),
                self.groups() == old(self).groups().remove_keys(Set::new(|k: Seq<char>| lists_key(ids@.take(i as int), k))),
                CollaborationServer::same_connections(&*self, &*old(self)),
                self.dropped_commands == old(self).dropped_commands,
            decreases ids@.len() - i,
        {
            let ghost reg_before = self.registry();
            let ghost groups_before = self.groups();
            self.group_sender_by_object_id.remove(&ids[i]);
            self.group_manager.remove_group(&ids[i]);
            proof {
                let key = ids@[i as int]@;
                let done = Set::new(|k: Seq<char>| lists_key(ids@.take(i as int), k));
                let next = Set::new(|k: Seq<char>| lists_key(ids@.take(i + 1), k));
                assert forall|k: Seq<char>| #[trigger] next.contains(k) <==> (done.contains(k) || k == key) by {
                    if lists_key(ids@.take(i + 1), k) {
                        let b = choose|b: int| 0 <= b < i + 1 && (#[trigger] ids@.take(i + 1)[b])@ == k;
                        if b < i {
                            assert(ids@.take(i as int)[b] == ids@.take(i + 1)[b]);
                        }
                    }
                    if lists_key(ids@.take(i as int), k) {
                        let b = choose|b: int| 0 <= b < i && (#[trigger] ids@.take(i as int)[b])@ == k;
                        assert(ids@.take(i as int)[b] == ids@.take(i + 1)[b]);
                    }
                    if k == key {
                        assert(ids@.take(i + 1)[i as int] == ids@[i as int]);
                    }
                }
                assert(self.registry() =~= reg_before.remove(key));
                assert(self.groups() =~= groups_before.remove(key));
                assert(self.registry() =~= old(self).registry().remove_keys(next));
                assert(self.groups() =~= old(self).groups().remove_keys(next));
            }
            i = i + 1;
        }
        proof {
            assert(ids@.take(i as int) =~= ids@);
            let done = Set::new(|k: Seq<char>| lists_key(ids@.take(i as int), k));
            assert(done =~= idle);
        }
        ids
    }

    /// Takes the messages waiting for the connection of `user`, oldest first,
    /// for the host to write out; `None` when `user` is not connected.
    pub fn take_outbound(&mut self, user: &RealtimeUser) -> (r: Option<Vec<Vec<u8>>>)
        requires
            old(self).wf(),
        ensures
            final(self).wf(),
            final(self).users() == old(self).users(),
            final(self).routers().dom() == old(self).routers().dom(),
            final(self).registry() == old(self).registry(),
            final(self).groups() == old(self).groups(),
            final(self).gauge() == old(self).gauge(),
            match r {
                Some(msgs) => old(self).routers().contains_key(user@) && msgs@.map_values(|m: Vec<u8>| m@)
                    == old(self).routers()[user@].pending() && final(self).routers()[user@].pending()
                    == Seq::<Seq<u8>>::empty(),
                None => !old(self).routers().contains_key(user@),
            },
    {
        self.connect_state.take_pending(user)
    }

    /// Records that the group of `object_id` was persisted at `now`; returns
    /// whether its content should now go to the indexer.
    pub fn mark_persisted(&mut self, object_id: &String, now: i64) -> (r: bool)
        requires
            old(self).wf(),
        ensures
            final(self).wf(),
            final(self).groups().dom() == old(self).groups().dom(),
            forall|k: Seq<char>| #[trigger]
                final(self).groups().contains_key(k) && k != object_id@ ==> final(self).groups()[k]
                    == old(self).groups()[k],
            old(self).groups().contains_key(object_id@) ==> {
                let (g, h) = (old(self).groups()[object_id@], final(self).groups()[object_id@]);
                &&& h.spec_edits() == 0
                &&& h.spec_last_persist() == now
                &&& h.state() == g.state()
                &&& h.subscribers() == g.subscribers()
                &&& r == (is_indexable(g.spec_collab_type()) && g.state().len() != g.spec_indexed_len())
            },
            !old(self).groups().contains_key(object_id@) ==> !r,
            CollaborationServer::same_connections(&*final(self), &*old(self)),
            final(self).registry() == old(self).registry(),
            final(self).spec_dropped_commands() == old(self).spec_dropped_commands(),
    {
        self.group_manager.mark_persisted(object_id, now)
    }

    /// Records that the group of `object_id` handed its content to the indexer.
    pub fn mark_indexed(&mut self, object_id: &String) -> (r: bool)
        requires
            old(self).wf(),
        ensures
            final(self).wf(),
            final(self).groups().dom() == old(self).groups().dom(),
            forall|k: Seq<char>| #[trigger]
                final(self).groups().contains_key(k) && k != object_id@ ==> final(self).groups()[k]
                    == old(self).groups()[k],
            r == old(self).groups().contains_key(object_id@),
            r ==> final(self).groups()[object_id@].spec_indexed_len() == old(self).groups()[object_id@].state().len(),
            CollaborationServer::same_connections(&*final(self), &*old(self)),
            final(self).registry() == old(self).registry(),
            final(self).spec_dropped_commands() == old(self).spec_dropped_commands(),
    {
        self.group_manager.mark_indexed(object_id)
    }

    /// Hands each frame of `b`, in order, to the router of each recipient.
    fn fan_out(&mut self, b: &Broadcast)
        requires
            old(self).wf(),
            users_distinct(b.recipients@),
        ensures
            final(self).wf(),
            final(self).users() == old(self).users(),
            final(self).routers().dom() == old(self).routers().dom(),
            final(self).user_count() == old(self).user_count(),
            final(self).group_manager == old(self).group_manager,
            final(self).group_sender_by_object_id == old(self).group_sender_by_object_id,
            final(self).dropped_commands == old(self).dropped_commands,
            final(self).enable_custom_runtime == old(self).enable_custom_runtime,
            delivered(old(self).routers(), final(self).routers(), |u: (i64, Seq<char>, Seq<char>)| lists_user(b.recipients@, u), frames_view(b.frames@)),
    {
        let mut i: usize = 0;
        while i < b.recipients.len()
            invariant
                self.wf(),
                users_distinct(b.recipients@),
                i <= b.recipients@.len(),
                self.users() == old(self).users(),
                self.routers().dom() == old(self).routers().dom(),
                self.user_count() == old(self).user_count(),
                self.group_manager == old(self).group_manager,
                self.group_sender_by_object_id == old(self).group_sender_by_object_id,
                self.dropped_commands == old(self).dropped_commands,
                self.enable_custom_runtime == old(self).enable_custom_runtime,
                delivered(old(self).routers(), self.routers(), |u: (i64, Seq<char>, Seq<char>)| lists_user(b.recipients@.take(i as int), u), frames_view(b.frames@)),
            decreases b.recipients@.len() - i,
        {
            let ghost target = b.recipients@[i as int]@;
            self.send_frames(&b.recipients[i], &b.frames);
            proof {
                let now_listed = |u: (i64, Seq<char>, Seq<char>)| lists_user(b.recipients@.take(i + 1), u);
                let was_listed = |u: (i64, Seq<char>, Seq<char>)| lists_user(b.recipients@.take(i as int), u);
                assert(!was_listed(target)) by {
                    if was_listed(target) {
                        let a = choose|a: int| 0 <= a < i && (#[trigger] b.recipients@.take(i as int)[a])@ == target;
                        assert(b.recipients@.take(i as int)[a] == b.recipients@[a]);
                    }
                }
                assert forall|u: (i64, Seq<char>, Seq<char>)| #[trigger] now_listed(u) <==> (was_listed(u) || u == target) by {
                    if now_listed(u) {
                        let a = choose|a: int| 0 <= a < i + 1 && (#[trigger] b.recipients@.take(i + 1)[a])@ == u;
                        if a < i {
                            assert(b.recipients@.take(i as int)[a] == b.recipients@.take(i + 1)[a]);
                        }
                    }
                    if was_listed(u) {
                        let a = choose|a: int| 0 <= a < i && (#[trigger] b.recipients@.take(i as int)[a])@ == u;
                        assert(b.recipients@.take(i as int)[a] == b.recipients@.take(i + 1)[a]);
                    }
                    if u == target {
                        assert(b.recipients@.take(i + 1)[i as int] == b.recipients@[i as int]);
                    }
                }
            }
            i = i + 1;
        }
        proof {
            assert(b.recipients@.take(i as int) =~= b.recipients@);
        }
    }

    /// Hands `frames`, in order, to the router of `user`.
    fn send_frames(&mut self, user: &RealtimeUser, frames: &Vec<Vec<u8>>)
        requires
            old(self).wf(),
        ensures
            final(self).wf(),
            final(self).users() == old(self).users(),
            final(self).routers().dom() == old(self).routers().dom(),
            final(self).user_count() == old(self).user_count(),
            final(self).group_manager == old(self).group_manager,
            final(self).group_sender_by_object_id == old(self).group_sender_by_object_id,
            final(self).dropped_commands == old(self).dropped_commands,
            final(self).enable_custom_runtime == old(self).enable_custom_runtime,
            delivered(old(self).routers(), final(self).routers(), |u: (i64, Seq<char>, Seq<char>)| u == user@, frames_view(frames@)),
    {
        let ghost fs = frames_view(frames@);
        let mut j: usize = 0;
        while j < frames.len()
            invariant
                self.wf(),
                j <= frames@.len(),
                fs == frames_view(frames@),
                self.users() == old(self).users(),
                self.routers().dom() == old(self).routers().dom(),
                self.user_count() == old(self).user_count(),
                self.group_manager == old(self).group_manager,
                self.group_sender_by_object_id == old(self).group_sender_by_object_id,
                self.dropped_commands == old(self).dropped_commands,
                self.enable_custom_runtime == old(self).enable_custom_runtime,
                delivered(old(self).routers(), self.routers(), |u: (i64, Seq<char>, Seq<char>)| u == user@, fs.take(j as int)),
            decreases frames@.len() - j,
        {
            let frame = vstd::slice::slice_to_vec(frames[j].as_slice());
            self.connect_state.send_to(user, frame);
            proof {
                assert(fs.take(j + 1).drop_last() =~= fs.take(j as int));
                assert(fs.take(j + 1).last() == frame@);
                if old(self).routers().contains_key(user@) {
                    let a = old(self).routers()[user@];
                    let mid = received(a.pending(), a.spec_closed(), a.spec_capacity(), fs.take(j as int));
                    assert(seq![frame@].drop_last() =~= Seq::<Seq<u8>>::empty());
                    assert(received(mid, a.spec_closed(), a.spec_capacity(), seq![frame@].drop_last()) == mid);
                }
            }
            j = j + 1;
        }
        proof {
            assert(fs.take(j as int) =~= fs);
        }
    }

    /// Carries out one command for a group and fans its result out.
    fn process(&mut self, cmd: GroupCommand, now: i64) -> (r: Result<(), RealtimeError>)
        requires
            old(self).wf(),
        ensures
            final(self).wf(),
            command_applied(old(self).groups(), final(self).groups(), old(self).routers().dom(), cmd, now, r),
            command_delivered(old(self).groups(), final(self).groups(), old(self).routers(), final(self).routers(), cmd, r),
            final(self).users() == old(self).users(),
            final(self).routers().dom() == old(self).routers().dom(),
            final(self).user_count() == old(self).user_count(),
            final(self).spec_config() == old(self).spec_config(),
            final(self).group_sender_by_object_id == old(self).group_sender_by_object_id,
            final(self).dropped_commands == old(self).dropped_commands,
            final(self).enable_custom_runtime == old(self).enable_custom_runtime,
    {
        match cmd {
            GroupCommand::HandleClientCollabMessage { user, object_id, workspace_id, collab_type, collab_messages } => {
                let res = self.group_manager.handle_client_messages(
                    &user,
                    &object_id,
                    &workspace_id,
                    collab_type,
                    collab_messages,
                    now,
                );
                match res {
                    Ok(b) => {
                        self.fan_out(&b);
                        proof {
                            let k = object_id@;
                            let listed = |u: (i64, Seq<char>, Seq<char>)| lists_user(b.recipients@, u);
                            let subscribed = |u: (i64, Seq<char>, Seq<char>)|
                                self.group_manager.groups()[k].subscribers().contains_key(u) && u != user@;
                            assert(listed =~= subscribed);
                        }
                        Ok(())
                    },
                    Err(e) => Err(e),
                }
            },
            GroupCommand::Subscribe { user, object_id, sink_id } => {
                if !self.group_manager.contains(&object_id) {
                    return Err(RealtimeError::GroupNotFound);
                }
                if !self.connect_state.is_connected(&user) {
                    return Err(RealtimeError::NotConnected);
                }
                let target = user.clone();
                match self.group_manager.subscribe(user, sink_id, &object_id, now) {
                    Some(snapshot) => {
                        self.send_frames(&target, &snapshot);
                        Ok(())
                    },
                    None => Err(RealtimeError::GroupNotFound),
                }
            },
            GroupCommand::Unsubscribe { user, object_id } => {
                self.group_manager.unsubscribe(&user, &object_id);
                Ok(())
            },
            GroupCommand::HandleControlEvent { event } => match event {
                CollabControlEvent::Open { workspace_id, object_id, collab_type, .. } => {
                    self.group_manager.get_or_create_group(&object_id, &workspace_id, collab_type, now)
                },
                CollabControlEvent::Close { object_id } => {
                    self.group_manager.remove_group(&object_id);
                    Ok(())
                },
            },
        }
    }

    /// The runner of `object_id` takes the oldest waiting command from the
    /// group's channel and carries it out; `None` when nothing waits.
    pub fn run_next(&mut self, object_id: &String, now: i64) -> (r: Option<Result<(), RealtimeError>>)
        requires
            old(self).wf(),
        ensures
            final(self).wf(),
            r is None <==> !(old(self).registry().contains_key(object_id@) && old(self).registry()[object_id@].len() > 0),
            r is None ==> final(self).registry() == old(self).registry() && final(self).groups() == old(self).groups()
                && final(self).routers() == old(self).routers(),
            r matches Some(res) ==> {
                &&& final(self).registry() == old(self).registry().insert(
                    object_id@,
                    old(self).registry()[object_id@].drop_first(),
                )
                &&& command_applied(
                    old(self).groups(),
                    final(self).groups(),
                    old(self).routers().dom(),
                    old(self).registry()[object_id@][0],
                    now,
                    res,
                )
                &&& command_delivered(
                    old(self).groups(),
                    final(self).groups(),
                    old(self).routers(),
                    final(self).routers(),
                    old(self).registry()[object_id@][0],
                    res,
                )
            },
            final(self).users() == old(self).users(),
            final(self).routers().dom() == old(self).routers().dom(),
            final(self).user_count() == old(self).user_count(),
            final(self).gauge() == old(self).gauge(),
            final(self).spec_config() == old(self).spec_config(),
            final(self).spec_dropped_commands() == old(self).spec_dropped_commands(),
            final(self).spec_custom_runtime() == old(self).spec_custom_runtime(),
    {
        let mut ch = match self.group_sender_by_object_id.remove(object_id) {
            Some(ch) => ch,
            None => {
                assert(self.registry() =~= old(self).registry());
                return None;
            },
        };
        let cmd = ch.recv();
        self.group_sender_by_object_id.insert(object_id.clone(), ch);
        match cmd {
            None => {
                assert(self.registry() =~= old(self).registry());
                None
            },
            Some(c) => {
                assert(self.registry() =~= old(self).registry().insert(
                    object_id@,
                    old(self).registry()[object_id@].drop_first(),
                ));
                Some(self.process(c, now))
            },
        }
    }
}

} // verus!
