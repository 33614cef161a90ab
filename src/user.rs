//! Connected users and the devices they connect from.

use vstd::prelude::*;

use crate::keymap::MapKey;

verus! {

/// The connection key of a user: its uid and the device it connects from.
pub struct UserDevice {
    pub uid: i64,
    pub device_id: String,
}

impl View for UserDevice {
    type V = (i64, Seq<char>);

    open spec fn view(&self) -> (i64, Seq<char>) {
        (self.uid, self.device_id@)
    }
}

impl UserDevice {
    pub fn new(uid: i64, device_id: String) -> (r: Self)
        ensures
            r.uid == uid,
            r.device_id == device_id,
    {
        UserDevice { uid, device_id }
    }
}

impl Clone for UserDevice {
    fn clone(&self) -> (r: Self)
        ensures
            r == *self,
    {
        UserDevice { uid: self.uid, device_id: self.device_id.clone() }
    }
}

impl MapKey for UserDevice {
    fn key_eq(&self, other: &Self) -> (r: bool) {
        self.uid == other.uid && self.device_id == other.device_id
    }

    fn key_clone(&self) -> (r: Self) {
        self.clone()
    }
}

/// A user connected over one session; `session_id` tells successive
/// connections from the same uid and device apart.
pub struct RealtimeUser {
    pub uid: i64,
    pub device_id: String,
    pub session_id: String,
}

impl View for RealtimeUser {
    type V = (i64, Seq<char>, Seq<char>);

    open spec fn view(&self) -> (i64, Seq<char>, Seq<char>) {
        (self.uid, self.device_id@, self.session_id@)
    }
}

/// The connection key of a user's view.
pub open spec fn device_of(u: (i64, Seq<char>, Seq<char>)) -> (i64, Seq<char>) {
    (u.0, u.1)
}

/// True when some user of `s` has view `u`.
pub open spec fn lists_user(s: Seq<RealtimeUser>, u: (i64, Seq<char>, Seq<char>)) -> bool {
    exists|i: int| 0 <= i < s.len() && (#[trigger] s[i])@ == u
}

/// True when no two users of `s` have the same view.
pub open spec fn users_distinct(s: Seq<RealtimeUser>) -> bool {
    forall|i: int, j: int| 0 <= i < s.len() && 0 <= j < s.len() && i != j ==> (#[trigger] s[i])@ != (#[trigger] s[j])@
}

impl RealtimeUser {
    pub fn new(uid: i64, device_id: String, session_id: String) -> (r: Self)
        ensures
            r.uid == uid,
            r.device_id == device_id,
            r.session_id == session_id,
    {
        RealtimeUser { uid, device_id, session_id }
    }

    /// The connection key of this user.
    pub fn user_device(&self) -> (r: UserDevice)
        ensures
            r@ == device_of(self@),
    {
        UserDevice { uid: self.uid, device_id: self.device_id.clone() }
    }

    /// Whether `other` is the same connection key and session.
    pub fn same_session(&self, other: &RealtimeUser) -> (r: bool)
        ensures
            r == (self@ == other@),
    {
        self.uid == other.uid && self.device_id == other.device_id && self.session_id == other.session_id
    }
}

impl Clone for RealtimeUser {
    fn clone(&self) -> (r: Self)
        ensures
            r == *self,
    {
        RealtimeUser {
            uid: self.uid,
            device_id: self.device_id.clone(),
            session_id: self.session_id.clone(),
        }
    }
}

impl MapKey for RealtimeUser {
    fn key_eq(&self, other: &Self) -> (r: bool) {
        self.same_session(other)
    }

    fn key_clone(&self) -> (r: Self) {
        self.clone()
    }
}

} // verus!
