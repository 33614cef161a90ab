//! The bounded, first-in-first-out command channel of one group.

use vstd::prelude::*;

use crate::control::CollabControlEvent;
use crate::error::RealtimeError;
use crate::group::CollabType;
use crate::user::RealtimeUser;

verus! {

/// How many commands a group's channel holds before it refuses more.
pub const GROUP_CHANNEL_CAPACITY: usize = 2000;

/// A command for the runner of one group.
pub enum GroupCommand {
    /// Attach `user`, served through sink `sink_id`, to the group.
    Subscribe { user: RealtimeUser, object_id: String, sink_id: u64 },
    /// Detach `user` from the group.
    Unsubscribe { user: RealtimeUser, object_id: String },
    /// Apply edits from `user`, creating the group first if needed.
    HandleClientCollabMessage {
        user: RealtimeUser,
        object_id: String,
        workspace_id: String,
        collab_type: CollabType,
        collab_messages: Vec<Vec<u8>>,
    },
    /// Open or close the group on behalf of the control stream.
    HandleControlEvent { event: CollabControlEvent },
}

/// The queue of commands waiting for a group's runner.
pub struct GroupCommandChannel {
    queue: Vec<GroupCommand>,
}

impl GroupCommandChannel {
    /// The waiting commands, oldest first.
    pub closed spec fn pending(&self) -> Seq<GroupCommand> {
        self.queue@
    }

    pub fn new() -> (r: Self)
        ensures
            r.pending() == Seq::<GroupCommand>::empty(),
    {
        GroupCommandChannel { queue: Vec::new() }
    }

    pub fn len(&self) -> (r: usize)
        ensures
            r == self.pending().len(),
    {
        self.queue.len()
    }

    /// Enqueues `cmd` unless the channel is full; a full channel drops it.
    pub fn try_send(&mut self, cmd: GroupCommand) -> (r: Result<(), RealtimeError>)
        ensures
            old(self).pending().len() < GROUP_CHANNEL_CAPACITY ==> r is Ok && final(self).pending()
                == old(self).pending().push(cmd),
            old(self).pending().len() >= GROUP_CHANNEL_CAPACITY ==> r == Err::<(), RealtimeError>(
                RealtimeError::ChannelFull,
            ) && final(self).pending() == old(self).pending(),
    {
        if self.queue.len() < GROUP_CHANNEL_CAPACITY {
            self.queue.push(cmd);
            Ok(())
        } else {
            Err(RealtimeError::ChannelFull)
        }
    }

    /// Takes the oldest waiting command.
    pub fn recv(&mut self) -> (r: Option<GroupCommand>)
        ensures
            old(self).pending().len() == 0 ==> r is None && final(self).pending() == old(self).pending(),
            old(self).pending().len() > 0 ==> r == Some(old(self).pending()[0]) && final(self).pending()
                == old(self).pending().drop_first(),
    {
        if self.queue.len() == 0 {
            None
        } else {
            let c = self.queue.remove(0);
            assert(self.queue@ =~= old(self).queue@.drop_first());
            Some(c)
        }
    }
}

} // verus!
