//! The consumer of the durable open/close control stream: which objects
//! have a live handle, and what the host must do for each event.

use vstd::prelude::*;

use crate::group::{is_indexable, CollabType};
use crate::keymap::StrMap;

verus! {

/// The consumer group that reads the control stream.
pub const CONSUMER_GROUP: &'static str = "indexer";

/// This consumer's name within its group.
pub const CONSUMER_NAME: &'static str = "open_collab";

/// How many fresh messages one tick reads at most.
pub const READ_COUNT: usize = 10;

/// Milliseconds between two reads of the control stream.
pub const READ_INTERVAL_MS: u64 = 1000;

/// An event of the control stream.
pub enum CollabControlEvent {
    Open { workspace_id: String, object_id: String, collab_type: CollabType, doc_state: Vec<u8> },
    Close { object_id: String },
}

/// The life of a handle in the map: `Opening -> Live`. A `Close` takes the
/// handle out of the map, which starts its shutdown; a later `Open` makes a
/// new handle.
#[derive(PartialEq, Eq, Structural, Debug, Clone, Copy)]
pub enum HandleState {
    Opening,
    Live,
}

/// A handle on one object, driven by the control stream.
pub struct CollabHandle {
    pub workspace_id: String,
    pub collab_type: CollabType,
    pub state: HandleState,
}

/// What the host does for an event.
pub enum ControlAction {
    /// Nothing: a duplicate `Open`, an `Open` of a type that is not indexed,
    /// or a `Close` of an object with no handle.
    Nothing,
    /// Open a handle: subscribe to the object's update stream, starting from
    /// `doc_state`, and report back through `handle_opened`.
    OpenHandle { workspace_id: String, object_id: String, collab_type: CollabType, doc_state: Vec<u8> },
    /// Signal the handle's shutdown and await it.
    Shutdown { object_id: String },
}

/// A handle's view: its workspace, type and state.
pub type HandleView = (Seq<char>, CollabType, HandleState);

pub open spec fn handle_view(h: CollabHandle) -> HandleView {
    (h.workspace_id@, h.collab_type, h.state)
}

/// The handles after `e`: an `Open` of an indexable object without a handle
/// adds one that is opening; a `Close` removes the object's handle.
pub open spec fn event_step(h: Map<Seq<char>, HandleView>, e: CollabControlEvent) -> Map<Seq<char>, HandleView> {
    match e {
        CollabControlEvent::Open { workspace_id, object_id, collab_type, .. } => {
            if !h.contains_key(object_id@) && is_indexable(collab_type) {
                h.insert(object_id@, (workspace_id@, collab_type, HandleState::Opening))
            } else {
                h
            }
        },
        CollabControlEvent::Close { object_id } => h.remove(object_id@),
    }
}

/// An `Open` handled twice leaves the handles as handling it once does.
pub proof fn lemma_open_idempotent(h: Map<Seq<char>, HandleView>, e: CollabControlEvent)
    requires
        e is Open,
    ensures
        event_step(event_step(h, e), e) == event_step(h, e),
{
}

/// A `Close` of an object without a handle changes nothing.
pub proof fn lemma_close_without_open(h: Map<Seq<char>, HandleView>, object_id: String)
    requires
        !h.contains_key(object_id@),
    ensures
        event_step(h, CollabControlEvent::Close { object_id }) == h,
{
    assert(h.remove(object_id@) =~= h);
}

/// A message read from the control stream: its id, and its event when the
/// payload decoded.
pub struct ControlMessage {
    pub id: String,
    pub event: Option<CollabControlEvent>,
}

/// The events of a batch that decoded, in order.
pub open spec fn decoded_events(ms: Seq<ControlMessage>) -> Seq<CollabControlEvent>
    decreases ms.len(),
{
    if ms.len() == 0 {
        Seq::empty()
    } else {
        match ms.last().event {
            Some(e) => decoded_events(ms.drop_last()).push(e),
            None => decoded_events(ms.drop_last()),
        }
    }
}

/// What handling a batch of messages asks of the host.
pub struct ControlBatch {
    /// One action per decoded event, in order.
    pub actions: Vec<ControlAction>,
    /// The ids to acknowledge: every message of the batch, decoded or not.
    pub acks: Vec<String>,
}

pub struct OpenCollabConsumer {
    handles: StrMap<CollabHandle>,
}

impl OpenCollabConsumer {
    pub closed spec fn wf(&self) -> bool {
        self.handles.wf()
    }

    /// Each object's handle.
    pub closed spec fn handles(&self) -> Map<Seq<char>, HandleView> {
        self.handles@.map_values(|h: CollabHandle| handle_view(h))
    }

    /// The number of handles.
    pub closed spec fn handle_count(&self) -> nat {
        self.handles.spec_len()
    }

    pub fn new() -> (r: Self)
        ensures
            r.wf(),
            r.handles() == Map::<Seq<char>, HandleView>::empty(),
    {
        let r = OpenCollabConsumer { handles: StrMap::new() };
        assert(r.handles() =~= Map::<Seq<char>, HandleView>::empty());
        r
    }

    pub fn contains_handle(&self, object_id: &String) -> (r: bool)
        requires
            self.wf(),
        ensures
            r == self.handles().contains_key(object_id@),
    {
        self.handles.contains_key(object_id)
    }

    pub fn number_of_handles(&self) -> (r: usize)
        ensures
            r == self.handle_count(),
    {
        self.handles.len()
    }

    /// Handles one control event and says what the host must do.
    pub fn handle_event(&mut self, event: CollabControlEvent) -> (r: ControlAction)
        requires
            old(self).wf(),
        ensures
            final(self).wf(),
            final(self).handles() == event_step(old(self).handles(), event),
            match event {
                CollabControlEvent::Open { workspace_id, object_id, collab_type, doc_state } => if !old(
                    self,
                ).handles().contains_key(object_id@) && is_indexable(collab_type) {
                    r == ControlAction::OpenHandle { workspace_id, object_id, collab_type, doc_state }
                } else {
                    r is Nothing
                },
                CollabControlEvent::Close { object_id } => if old(self).handles().contains_key(object_id@) {
                    r == ControlAction::Shutdown { object_id }
                } else {
                    r is Nothing
                },
            },
    {
        match event {
            CollabControlEvent::Open { workspace_id, object_id, collab_type, doc_state } => {
                if self.handles.contains_key(&object_id) || !collab_type.indexable() {
                    return ControlAction::Nothing;
                }
                let h = CollabHandle {
                    workspace_id: workspace_id.clone(),
                    collab_type,
                    state: HandleState::Opening,
                };
                self.handles.insert(object_id.clone(), h);
                assert(self.handles() =~= old(self).handles().insert(
                    object_id@,
                    (workspace_id@, collab_type, HandleState::Opening),
                ));
                ControlAction::OpenHandle { workspace_id, object_id, collab_type, doc_state }
            },
            CollabControlEvent::Close { object_id } => {
                let removed = self.handles.remove(&object_id);
                assert(self.handles() =~= old(self).handles().remove(object_id@));
                match removed {
                    Some(_) => ControlAction::Shutdown { object_id },
                    None => ControlAction::Nothing,
                }
            },
        }
    }

    /// Handles a batch of messages in order: each decoded event is handled,
    /// a message that did not decode is skipped, and every message is
    /// acknowledged.
    pub fn handle_messages(&mut self, messages: Vec<ControlMessage>) -> (r: ControlBatch)
        requires
            old(self).wf(),
        ensures
            final(self).wf(),
            final(self).handles() == events_step(old(self).handles(), decoded_events(messages@)),
            r.actions@.len() == decoded_events(messages@).len(),
            r.acks@.len() == messages@.len(),
            forall|i: int| 0 <= i < messages@.len() ==> (#[trigger] r.acks@[i]) == messages@[i].id,
    {
        let mut messages = messages;
        let ghost all = messages@;
        let n = messages.len();
        let mut actions: Vec<ControlAction> = Vec::new();
        let mut acks: Vec<String> = Vec::new();
        let mut i: usize = 0;
        while messages.len() > 0
            invariant
                self.wf(),
                all.len() == n,
                i + messages@.len() == n,
                messages@ == all.skip(i as int),
                actions@.len() == decoded_events(all.take(i as int)).len(),
                acks@.len() == i,
                forall|j: int| 0 <= j < i ==> (#[trigger] acks@[j]) == all[j].id,
                self.handles() == events_step(old(self).handles(), decoded_events(all.take(i as int))),
            decreases messages@.len(),
        {
            let m = messages.remove(0);
            proof {
                assert(all.take(i + 1).drop_last() =~= all.take(i as int));
                assert(all.take(i + 1).last() == m);
            }
            let ControlMessage { id, event } = m;
            match event {
                Some(e) => {
                    proof {
                        assert(decoded_events(all.take(i + 1)) == decoded_events(all.take(i as int)).push(e));
                        assert(decoded_events(all.take(i + 1)).drop_last() =~= decoded_events(all.take(i as int)));
                    }
                    let a = self.handle_event(e);
                    actions.push(a);
                },
                None => {},
            }
            acks.push(id);
            i = i + 1;
            proof {
                assert(messages@ =~= all.skip(i as int));
            }
        }
        proof {
            assert(all.take(i as int) =~= all);
        }
        ControlBatch { actions, acks }
    }

    /// Records how opening a handle went: on success the handle is live;
    /// on failure it is dropped. An object with no opening handle is left alone.
    pub fn handle_opened(&mut self, object_id: &String, opened: bool) -> (r: bool)
        requires
            old(self).wf(),
        ensures
            final(self).wf(),
            r == (old(self).handles().contains_key(object_id@) && old(self).handles()[object_id@].2
                == HandleState::Opening),
            r && opened ==> final(self).handles() == old(self).handles().insert(
                object_id@,
                (old(self).handles()[object_id@].0, old(self).handles()[object_id@].1, HandleState::Live),
            ),
            r && !opened ==> final(self).handles() == old(self).handles().remove(object_id@),
            !r ==> final(self).handles() == old(self).handles(),
    {
        let h = match self.handles.remove(object_id) {
            Some(h) => h,
            None => {
                assert(self.handles() =~= old(self).handles());
                return false;
            },
        };
        if h.state != HandleState::Opening {
            self.handles.insert(object_id.clone(), h);
            assert(self.handles() =~= old(self).handles());
            return false;
        }
        if opened {
            let live = CollabHandle { workspace_id: h.workspace_id, collab_type: h.collab_type, state: HandleState::Live };
            self.handles.insert(object_id.clone(), live);
            assert(self.handles() =~= old(self).handles().insert(
                object_id@,
                (old(self).handles()[object_id@].0, old(self).handles()[object_id@].1, HandleState::Live),
            ));
        } else {
            assert(self.handles() =~= old(self).handles().remove(object_id@));
        }
        true
    }
}

/// The handles after a sequence of events, handled in order.
pub open spec fn events_step(h: Map<Seq<char>, HandleView>, es: Seq<CollabControlEvent>) -> Map<Seq<char>, HandleView>
    decreases es.len(),
{
    if es.len() == 0 {
        h
    } else {
        event_step(events_step(h, es.drop_last()), es.last())
    }
}

} // verus!
