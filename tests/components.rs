use appflowy_collaborate::billing::Client;
use appflowy_collaborate::connect_state::ConnectState;
use appflowy_collaborate::control::{CollabControlEvent, ControlAction, ControlMessage, OpenCollabConsumer};
use appflowy_collaborate::embedder::{Embedder, EmbeddingModel, OpenAIEmbedder};
use appflowy_collaborate::error::{CreateGroupFailedReason, RealtimeError};
use appflowy_collaborate::group::{should_persist, CollabGroup, CollabType};
use appflowy_collaborate::indexer::{handle_unindexed_collabs, index_fragment, EmbeddingContentType, UnindexedCollab};
use appflowy_collaborate::manager::{GroupConfig, GroupManager};
use appflowy_collaborate::router::{ClientMessageRouter, SendOutcome};
use appflowy_collaborate::user::{RealtimeUser, UserDevice};

fn user(uid: i64, device: &str, session: &str) -> RealtimeUser {
    RealtimeUser::new(uid, device.to_string(), session.to_string())
}

fn open_event(object_id: &str, collab_type: CollabType) -> CollabControlEvent {
    CollabControlEvent::Open {
        workspace_id: "W".to_string(),
        object_id: object_id.to_string(),
        collab_type,
        doc_state: vec![1, 2, 3],
    }
}

fn unindexed(object_id: &str, collab_type: CollabType) -> UnindexedCollab {
    UnindexedCollab {
        workspace_id: "W".to_string(),
        object_id: object_id.to_string(),
        collab_type,
        doc_state: vec![],
    }
}

#[test]
fn connect_disconnect_sequence_keeps_counts() {
    let mut state = ConnectState::new();
    assert!(state.handle_user_connect(user(1, "a", "s1"), ClientMessageRouter::new(1, 4)).is_none());
    assert!(state.handle_user_connect(user(1, "b", "s1"), ClientMessageRouter::new(2, 4)).is_none());
    assert!(state.handle_user_connect(user(2, "a", "s1"), ClientMessageRouter::new(3, 4)).is_none());
    assert_eq!(state.number_of_connected_users(), 3);
    let (old_user, old_router) = state.handle_user_connect(user(1, "a", "s2"), ClientMessageRouter::new(4, 4)).unwrap();
    assert_eq!(old_user.session_id, "s1");
    assert_eq!(old_router.sink_id(), 1);
    assert_eq!(state.number_of_connected_users(), 3);
    assert!(state.handle_user_disconnect(&user(1, "a", "s1")).is_none());
    assert_eq!(state.number_of_connected_users(), 3);
    assert_eq!(state.handle_user_disconnect(&user(1, "a", "s2")).unwrap().session_id, "s2");
    assert_eq!(state.number_of_connected_users(), 2);
    assert!(state.user_by_device(&UserDevice::new(1, "a".to_string())).is_none());
    assert_eq!(state.user_by_device(&UserDevice::new(1, "b".to_string())).unwrap().uid, 1);
    assert!(state.handle_user_disconnect(&user(9, "z", "s")).is_none());
    assert_eq!(state.number_of_connected_users(), 2);
}

#[test]
fn send_to_unknown_user_is_none() {
    let mut state = ConnectState::new();
    assert_eq!(state.send_to(&user(1, "a", "s"), vec![1]), None);
    state.handle_user_connect(user(1, "a", "s"), ClientMessageRouter::new(1, 1));
    assert_eq!(state.send_to(&user(1, "a", "s"), vec![1]), Some(SendOutcome::Queued));
    assert_eq!(state.send_to(&user(1, "a", "s"), vec![2]), Some(SendOutcome::Dropped));
    assert_eq!(state.take_pending(&user(1, "a", "s")), Some(vec![vec![1u8]]));
    assert_eq!(state.take_pending(&user(1, "a", "other")), None);
}

#[test]
fn router_buffers_drops_and_closes_once() {
    let mut router = ClientMessageRouter::new(5, 2);
    assert_eq!(router.send(vec![1]), SendOutcome::Queued);
    assert_eq!(router.send(vec![2]), SendOutcome::Queued);
    assert_eq!(router.send(vec![3]), SendOutcome::Dropped);
    assert_eq!(router.dropped(), 1);
    assert_eq!(router.take_pending(), vec![vec![1u8], vec![2u8]]);
    assert_eq!(router.send(vec![4]), SendOutcome::Queued);
    assert!(router.close());
    assert!(router.is_closed());
    assert!(!router.close());
    assert_eq!(router.send(vec![5]), SendOutcome::Closed);
    assert!(router.take_pending().is_empty());
    assert_eq!(router.sink_id(), 5);
}

#[test]
fn open_then_close_handle() {
    let mut consumer = OpenCollabConsumer::new();
    let o = "O".to_string();
    match consumer.handle_event(open_event("O", CollabType::Document)) {
        ControlAction::OpenHandle { workspace_id, object_id, collab_type, doc_state } => {
            assert_eq!(workspace_id, "W");
            assert_eq!(object_id, "O");
            assert_eq!(collab_type, CollabType::Document);
            assert_eq!(doc_state, vec![1, 2, 3]);
        },
        _ => panic!("an open of a new document opens a handle"),
    }
    assert!(consumer.contains_handle(&o));
    assert!(consumer.handle_opened(&o, true));
    assert!(consumer.contains_handle(&o));
    assert!(!consumer.handle_opened(&o, true));

    match consumer.handle_event(CollabControlEvent::Close { object_id: "O".to_string() }) {
        ControlAction::Shutdown { object_id } => assert_eq!(object_id, "O"),
        _ => panic!("a close of an open handle shuts it down"),
    }
    assert!(!consumer.contains_handle(&o));

    // The text inserted before the close is what gets embedded.
    let fragment = index_fragment(&unindexed("O", CollabType::Document), "test-value ".to_string()).unwrap();
    assert_eq!(fragment.content, "test-value ");
    assert_eq!(fragment.object_id, "O");
}

#[test]
fn repeated_open_makes_one_handle() {
    let mut consumer = OpenCollabConsumer::new();
    let first = consumer.handle_event(open_event("O", CollabType::Document));
    assert!(matches!(first, ControlAction::OpenHandle { .. }));
    let second = consumer.handle_event(open_event("O", CollabType::Document));
    assert!(matches!(second, ControlAction::Nothing));
    assert_eq!(consumer.number_of_handles(), 1);
}

#[test]
fn close_without_open_is_noop() {
    let mut consumer = OpenCollabConsumer::new();
    let action = consumer.handle_event(CollabControlEvent::Close { object_id: "O".to_string() });
    assert!(matches!(action, ControlAction::Nothing));
    assert_eq!(consumer.number_of_handles(), 0);
}

#[test]
fn open_of_unindexed_type_and_failed_open() {
    let mut consumer = OpenCollabConsumer::new();
    let message = |id: &str, event: Option<CollabControlEvent>| ControlMessage { id: id.to_string(), event };
    let batch = consumer.handle_messages(vec![
        message("1-0", Some(open_event("F", CollabType::Folder))),
        message("2-0", None),
        message("3-0", Some(open_event("D", CollabType::Document))),
        message("4-0", Some(open_event("D", CollabType::Document))),
    ]);
    assert_eq!(batch.acks, vec!["1-0".to_string(), "2-0".to_string(), "3-0".to_string(), "4-0".to_string()]);
    let actions = batch.actions;
    assert_eq!(actions.len(), 3);
    assert!(matches!(actions[0], ControlAction::Nothing));
    assert!(matches!(actions[1], ControlAction::OpenHandle { .. }));
    assert!(matches!(actions[2], ControlAction::Nothing));
    assert_eq!(consumer.number_of_handles(), 1);
    assert!(consumer.handle_opened(&"D".to_string(), false));
    assert_eq!(consumer.number_of_handles(), 0);
}

#[test]
fn unindexed_backfill_yields_fragment() {
    let collabs = vec![unindexed("doc", CollabType::Document)];
    let fragments = handle_unindexed_collabs(&collabs, vec![Some("hello".to_string())]);
    assert_eq!(fragments.len(), 1);
    assert_eq!(fragments[0].content, "hello");
    assert_eq!(fragments[0].fragment_id, "doc");
    assert_eq!(fragments[0].collab_type, CollabType::Document);
    assert_eq!(fragments[0].content_type, EmbeddingContentType::PlainText);
}

#[test]
fn backfill_skips_failures_empty_and_unsupported() {
    let collabs = vec![
        unindexed("a", CollabType::Document),
        unindexed("b", CollabType::Document),
        unindexed("c", CollabType::Database),
        unindexed("d", CollabType::Document),
    ];
    let contents = vec![None, Some(String::new()), Some("rows".to_string()), Some("text".to_string())];
    let fragments = handle_unindexed_collabs(&collabs, contents);
    assert_eq!(fragments.len(), 1);
    assert_eq!(fragments[0].object_id, "d");
    assert_eq!(fragments[0].content, "text");
}

#[test]
fn persistence_rule() {
    assert!(should_persist(100, 100, 0, 1, 60));
    assert!(!should_persist(99, 100, 0, 59, 60));
    assert!(should_persist(0, 100, 0, 60, 60));
    assert!(should_persist(0, 100, i64::MIN, i64::MAX, i64::MAX));
}

#[test]
fn group_tracks_edits_activity_and_indexing() {
    let mut g = CollabGroup::new("o".to_string(), "w".to_string(), CollabType::Document, 10);
    assert!(!g.index_due());
    let a = user(1, "a", "s");
    let b = user(2, "b", "s");
    assert!(g.subscribe(a.clone(), 1, 11).is_empty());
    g.subscribe(b.clone(), 2, 12);
    let out = g.apply_updates(&a, vec![vec![1], vec![2]], 20);
    assert_eq!(out.recipients.len(), 1);
    assert_eq!(out.recipients[0].uid, 2);
    assert_eq!(out.frames, vec![vec![1u8], vec![2u8]]);
    assert!(g.persist_due(2, 60, 20));
    assert!(!g.persist_due(3, 60, 20));
    assert!(g.persist_due(3, 10, 20));
    g.mark_persisted(20);
    assert!(!g.persist_due(1, 60, 20));
    assert!(g.index_due());
    g.mark_indexed();
    assert!(!g.index_due());
    assert!(!g.is_idle(1000, 60));
    assert!(g.remove_user(&a));
    assert!(!g.remove_user(&a));
    assert!(g.remove_user(&b));
    assert!(!g.is_idle(80, 60));
    assert!(g.is_idle(81, 60));
    assert_eq!(g.snapshot(), vec![vec![1u8], vec![2u8]]);
}

#[test]
fn database_groups_are_not_indexed() {
    let mut g = CollabGroup::new("o".to_string(), "w".to_string(), CollabType::Database, 0);
    g.apply_updates(&user(1, "a", "s"), vec![vec![1]], 1);
    assert!(!g.index_due());
}

#[test]
fn manager_creates_once_and_refuses_other_workspace() {
    let config = GroupConfig {
        persistence_interval_secs: 60,
        edit_state_max_count: 10,
        edit_state_max_secs: 60,
        inactive_secs: 60,
    };
    let mut m = GroupManager::new(config);
    let o = "o".to_string();
    assert!(m.get_or_create_group(&o, &"w".to_string(), CollabType::Document, 0).is_ok());
    assert!(m.get_or_create_group(&o, &"w".to_string(), CollabType::Document, 5).is_ok());
    assert_eq!(m.number_of_groups(), 1);
    assert_eq!(
        m.get_or_create_group(&o, &"v".to_string(), CollabType::Document, 5),
        Err(RealtimeError::CreateGroupFailed(CreateGroupFailedReason::CollabWorkspaceIdNotMatch {
            expect: "w".to_string(),
            actual: "v".to_string(),
        }))
    );
    assert!(m.subscribe(user(1, "a", "s"), 1, &"missing".to_string(), 0).is_none());
    assert!(m.remove_group(&o));
    assert!(!m.remove_group(&o));
    assert!(!m.contains(&o));
}

#[test]
fn error_kinds() {
    assert!(!RealtimeError::ChannelFull.is_workspace_mismatch());
    assert!(!RealtimeError::CreateGroupFailed(CreateGroupFailedReason::Unauthorized).is_workspace_mismatch());
    assert!(!RealtimeError::NotConnected.is_workspace_mismatch());
}

#[test]
fn billing_url_prefers_override() {
    let plain = Client::new("https://base".to_string(), None);
    assert_eq!(plain.base_billing_url(), "https://base");
    let overridden = Client::new("https://base".to_string(), Some("https://billing".to_string()));
    assert_eq!(overridden.base_billing_url(), "https://billing");
}

#[test]
fn embedder_model() {
    let e = Embedder::OpenAI(OpenAIEmbedder { api_key: "k".to_string() });
    assert_eq!(e.model(), EmbeddingModel::TextEmbedding3Small);
}
