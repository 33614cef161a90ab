//! The authoritative record of connected users and their outbound routers.

use vstd::prelude::*;

use crate::keymap::KeyMap;
use crate::router::{received, ClientMessageRouter, SendOutcome};
use crate::user::{device_of, RealtimeUser, UserDevice};

verus! {

/// Two maps updated together: each connected user to its router, and each
/// connection key to the user connected under it.
pub struct ConnectState {
    by_user: KeyMap<RealtimeUser, ClientMessageRouter>,
    by_device: KeyMap<UserDevice, RealtimeUser>,
}

impl ConnectState {
    /// Both maps are well formed and each is the mirror of the other: a user
    /// has a router exactly when its connection key points back to it.
    pub closed spec fn wf(&self) -> bool {
        &&& self.by_user.wf()
        &&& self.by_device.wf()
        &&& self.by_user.spec_len() == self.by_device.spec_len()
        &&& forall|u: (i64, Seq<char>, Seq<char>)| #[trigger]
            self.by_user@.contains_key(u) ==> self.by_device@.contains_key(device_of(u))
                && self.by_device@[device_of(u)]@ == u
        &&& forall|d: (i64, Seq<char>)| #[trigger]
            self.by_device@.contains_key(d) ==> self.by_user@.contains_key(self.by_device@[d]@)
                && device_of(self.by_device@[d]@) == d
    }

    /// The user connected under each connection key.
    pub closed spec fn users(&self) -> Map<(i64, Seq<char>), (i64, Seq<char>, Seq<char>)> {
        self.by_device@.map_values(|u: RealtimeUser| u@)
    }

    /// The router of each connected user.
    pub closed spec fn routers(&self) -> Map<(i64, Seq<char>, Seq<char>), ClientMessageRouter> {
        self.by_user@
    }

    /// The number of entries of the user-to-router map.
    pub closed spec fn user_count(&self) -> nat {
        self.by_user.spec_len()
    }

    /// The number of entries of the connection-key map.
    pub closed spec fn device_count(&self) -> nat {
        self.by_device.spec_len()
    }

    /// In any state that connects and disconnects reach, the user-to-router
    /// map and the connection-key map have the same number of entries.
    pub proof fn lemma_maps_same_size(&self)
        requires
            self.wf(),
        ensures
            self.user_count() == self.device_count(),
    {
    }

    /// In a well-formed state every connected user has a router and every
    /// router belongs to a connected user.
    pub proof fn lemma_users_have_routers(&self)
        requires
            self.wf(),
        ensures
            forall|d: (i64, Seq<char>)| #[trigger]
                self.users().contains_key(d) ==> self.routers().contains_key(self.users()[d])
                    && device_of(self.users()[d]) == d,
            forall|u: (i64, Seq<char>, Seq<char>)| #[trigger]
                self.routers().contains_key(u) ==> self.users().contains_key(device_of(u))
                    && self.users()[device_of(u)] == u,
    {
    }

    pub fn new() -> (r: Self)
        ensures
            r.wf(),
            r.users() == Map::<(i64, Seq<char>), (i64, Seq<char>, Seq<char>)>::empty(),
            r.routers() == Map::<(i64, Seq<char>, Seq<char>), ClientMessageRouter>::empty(),
            r.user_count() == 0,
    {
        let r = ConnectState { by_user: KeyMap::new(), by_device: KeyMap::new() };
        assert(r.users() =~= Map::<(i64, Seq<char>), (i64, Seq<char>, Seq<char>)>::empty());
        r
    }

    /// Connects `new_user` through `new_router`, replacing whoever was
    /// connected under the same connection key. The replaced user and its
    /// router are handed back so that the caller can close that connection.
    pub fn handle_user_connect(&mut self, new_user: RealtimeUser, new_router: ClientMessageRouter) -> (r:
        Option<(RealtimeUser, ClientMessageRouter)>)
        requires
            old(self).wf(),
        ensures
            final(self).wf(),
            final(self).users() == old(self).users().insert(device_of(new_user@), new_user@),
            match r {
                Some((u, router)) => {
                    &&& old(self).users().contains_key(device_of(new_user@))
                    &&& u@ == old(self).users()[device_of(new_user@)]
                    &&& router == old(self).routers()[u@]
                    &&& final(self).routers() == old(self).routers().remove(u@).insert(
                        new_user@,
                        new_router,
                    )
                    &&& final(self).user_count() == old(self).user_count()
                },
                None => {
                    &&& !old(self).users().contains_key(device_of(new_user@))
                    &&& final(self).routers() == old(self).routers().insert(new_user@, new_router)
                    &&& final(self).user_count() == old(self).user_count() + 1
                },
            },
    {
        let device = new_user.user_device();
        let prev = match self.by_device.get(&device) {
            Some(u) => Some(u.clone()),
            None => None,
        };
        let r = match prev {
            Some(old_user) => {
                let removed = self.by_user.remove(&old_user);
                match removed {
                    Some(router) => Some((old_user, router)),
                    None => {
                        assert(false);
                        None
                    },
                }
            },
            None => None,
        };
        self.by_device.insert(device, new_user.clone());
        self.by_user.insert(new_user, new_router);
        proof {
            let nu = new_user@;
            let d = device_of(nu);
            assert(self.users() =~= old(self).users().insert(d, nu));
            match &r {
                Some((u, _)) => {
                    assert(final(self).routers() =~= old(self).routers().remove(u@).insert(nu, new_router));
                },
                None => {},
            }
            assert forall|u: (i64, Seq<char>, Seq<char>)| #[trigger]
                self.by_user@.contains_key(u) implies self.by_device@.contains_key(device_of(u))
                    && self.by_device@[device_of(u)]@ == u by {
                if u != nu {
                    assert(old(self).by_user@.contains_key(u));
                }
            }
            assert forall|dd: (i64, Seq<char>)| #[trigger]
                self.by_device@.contains_key(dd) implies self.by_user@.contains_key(self.by_device@[dd]@)
                    && device_of(self.by_device@[dd]@) == dd by {
                if dd != d {
                    assert(old(self).by_device@.contains_key(dd));
                }
            }
        }
        r
    }

    /// Disconnects `user` if it is still the one connected under its
    /// connection key with the same session; a disconnect from a session that
    /// a newer connection replaced changes nothing.
    pub fn handle_user_disconnect(&mut self, user: &RealtimeUser) -> (r: Option<RealtimeUser>)
        requires
            old(self).wf(),
        ensures
            final(self).wf(),
            match r {
                Some(u) => {
                    &&& old(self).users().contains_key(device_of(user@))
                    &&& old(self).users()[device_of(user@)] == user@
                    &&& u@ == user@
                    &&& final(self).users() == old(self).users().remove(device_of(user@))
                    &&& final(self).routers() == old(self).routers().remove(user@)
                    &&& final(self).user_count() + 1 == old(self).user_count()
                },
                None => {
                    &&& !(old(self).users().contains_key(device_of(user@))
                        && old(self).users()[device_of(user@)] == user@)
                    &&& final(self).users() == old(self).users()
                    &&& final(self).routers() == old(self).routers()
                    &&& final(self).user_count() == old(self).user_count()
                },
            },
    {
        let device = user.user_device();
        let same = match self.by_device.get(&device) {
            Some(stored) => stored.session_id == user.session_id,
            None => false,
        };
        if !same {
            return None;
        }
        let removed = self.by_device.remove(&device);
        let _router = self.by_user.remove(user);
        proof {
            let d = device_of(user@);
            assert(self.users() =~= old(self).users().remove(d));
            assert forall|u: (i64, Seq<char>, Seq<char>)| #[trigger]
                self.by_user@.contains_key(u) implies self.by_device@.contains_key(device_of(u))
                    && self.by_device@[device_of(u)]@ == u by {
                assert(old(self).by_user@.contains_key(u));
            }
            assert forall|dd: (i64, Seq<char>)| #[trigger]
                self.by_device@.contains_key(dd) implies self.by_user@.contains_key(self.by_device@[dd]@)
                    && device_of(self.by_device@[dd]@) == dd by {
                assert(old(self).by_device@.contains_key(dd));
            }
        }
        removed
    }

    /// The number of connected users.
    pub fn number_of_connected_users(&self) -> (r: usize)
        ensures
            r == self.user_count(),
    {
        self.by_user.len()
    }

    /// Whether `user`, with this very session, is connected.
    pub fn is_connected(&self, user: &RealtimeUser) -> (r: bool)
        requires
            self.wf(),
        ensures
            r == self.routers().contains_key(user@),
    {
        self.by_user.contains_key(user)
    }

    /// The user connected under `device`, if any.
    pub fn user_by_device(&self, device: &UserDevice) -> (r: Option<RealtimeUser>)
        requires
            self.wf(),
        ensures
            match r {
                Some(u) => self.users().contains_key(device@) && u@ == self.users()[device@],
                None => !self.users().contains_key(device@),
            },
    {
        match self.by_device.get(device) {
            Some(u) => Some(u.clone()),
            None => None,
        }
    }

    /// Hands `msg` to the router of `user`; `None` when `user` is not connected.
    pub fn send_to(&mut self, user: &RealtimeUser, msg: Vec<u8>) -> (r: Option<SendOutcome>)
        requires
            old(self).wf(),
        ensures
            final(self).wf(),
            final(self).users() == old(self).users(),
            final(self).user_count() == old(self).user_count(),
            final(self).routers().dom() == old(self).routers().dom(),
            forall|u: (i64, Seq<char>, Seq<char>)| #[trigger]
                final(self).routers().contains_key(u) && u != user@ ==> final(self).routers()[u]
                    == old(self).routers()[u],
            r is None <==> !old(self).routers().contains_key(user@),
            old(self).routers().contains_key(user@) ==> {
                let (a, b) = (old(self).routers()[user@], final(self).routers()[user@]);
                &&& b.pending() == received(a.pending(), a.spec_closed(), a.spec_capacity(), seq![msg@])
                &&& b.spec_closed() == a.spec_closed()
                &&& b.spec_capacity() == a.spec_capacity()
                &&& b.spec_sink_id() == a.spec_sink_id()
                &&& r == Some(if a.spec_closed() {
                    SendOutcome::Closed
                } else if a.pending().len() < a.spec_capacity() {
                    SendOutcome::Queued
                } else {
                    SendOutcome::Dropped
                })
            },
    {
        match self.by_user.remove(user) {
            Some(mut router) => {
                let ghost before = router;
                let outcome = router.send(msg);
                proof {
                    let frames = seq![msg@];
                    assert(frames.drop_last() =~= Seq::<Seq<u8>>::empty());
                    assert(frames.last() == msg@);
                    assert(received(before.pending(), before.spec_closed(), before.spec_capacity(), frames.drop_last())
                        == before.pending());
                }
                self.by_user.insert(user.clone(), router);
                proof {
                    assert(self.by_user@.dom() =~= old(self).by_user@.dom());
                }
                Some(outcome)
            },
            None => None,
        }
    }

    /// Takes the messages waiting in the router of `user`, oldest first, for
    /// the host to write to the connection; `None` when `user` is not connected.
    pub fn take_pending(&mut self, user: &RealtimeUser) -> (r: Option<Vec<Vec<u8>>>)
        requires
            old(self).wf(),
        ensures
            final(self).wf(),
            final(self).users() == old(self).users(),
            final(self).user_count() == old(self).user_count(),
            final(self).routers().dom() == old(self).routers().dom(),
            forall|u: (i64, Seq<char>, Seq<char>)| #[trigger]
                final(self).routers().contains_key(u) && u != user@ ==> final(self).routers()[u]
                    == old(self).routers()[u],
            match r {
                Some(msgs) => {
                    &&& old(self).routers().contains_key(user@)
                    &&& msgs@.map_values(|m: Vec<u8>| m@) == old(self).routers()[user@].pending()
                    &&& final(self).routers()[user@].pending() == Seq::<Seq<u8>>::empty()
                    &&& final(self).routers()[user@].spec_closed() == old(self).routers()[user@].spec_closed()
                    &&& final(self).routers()[user@].spec_sink_id() == old(self).routers()[user@].spec_sink_id()
                },
                None => !old(self).routers().contains_key(user@),
            },
    {
        match self.by_user.remove(user) {
            Some(mut router) => {
                let msgs = router.take_pending();
                self.by_user.insert(user.clone(), router);
                proof {
                    assert(self.by_user@.dom() =~= old(self).by_user@.dom());
                }
                Some(msgs)
            },
            None => None,
        }
    }
}

} // verus!
