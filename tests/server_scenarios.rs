use appflowy_collaborate::channel::{GroupCommand, GroupCommandChannel, GROUP_CHANNEL_CAPACITY};
use appflowy_collaborate::error::{CreateGroupFailedReason, RealtimeError};
use appflowy_collaborate::group::CollabType;
use appflowy_collaborate::manager::GroupConfig;
use appflowy_collaborate::router::ClientMessageRouter;
use appflowy_collaborate::server::{CollaborationServer, ObjectMessages, SWEEP_INTERVAL_SECS, SWEEP_WARMUP_SECS};
use appflowy_collaborate::user::{RealtimeUser, UserDevice};

fn config() -> GroupConfig {
    GroupConfig {
        persistence_interval_secs: 60,
        edit_state_max_count: 100,
        edit_state_max_secs: 60,
        inactive_secs: 60,
    }
}

fn user(uid: i64, device: &str, session: &str) -> RealtimeUser {
    RealtimeUser::new(uid, device.to_string(), session.to_string())
}

fn edits(object_id: &str, frames: Vec<Vec<u8>>) -> ObjectMessages {
    ObjectMessages {
        object_id: object_id.to_string(),
        workspace_id: "w1".to_string(),
        collab_type: CollabType::Document,
        messages: frames,
    }
}

fn subscribe_command(u: &RealtimeUser, object_id: &str, sink_id: u64) -> GroupCommand {
    GroupCommand::Subscribe { user: u.clone(), object_id: object_id.to_string(), sink_id }
}

#[test]
fn reconnect_supersedes_older_session() {
    let mut server = CollaborationServer::new(config(), false);
    let s1 = user(7, "d", "s1");
    let s2 = user(7, "d", "s2");
    let first = server.handle_new_connection(s1.clone(), ClientMessageRouter::new(1, 16));
    assert!(matches!(first, Ok(None)));
    assert_eq!(server.connected_users(), 1);

    let second = server.handle_new_connection(s2.clone(), ClientMessageRouter::new(2, 16));
    let closed = second.unwrap().expect("the older connection is handed back");
    assert_eq!(closed.sink_id(), 1);
    assert!(closed.is_closed());
    assert_eq!(server.connected_users(), 1);

    // A disconnect carrying the superseded session is a no-op.
    assert!(server.handle_disconnect(s1).is_ok());
    assert_eq!(server.connected_users(), 1);
    let current = server.get_user_by_device(&UserDevice::new(7, "d".to_string())).unwrap();
    assert_eq!(current.session_id, "s2");

    assert!(server.handle_disconnect(s2).is_ok());
    assert_eq!(server.connected_users(), 0);
    assert!(server.get_user_by_device(&UserDevice::new(7, "d".to_string())).is_none());
}

#[test]
fn reconnect_removes_old_session_from_groups() {
    let mut server = CollaborationServer::new(config(), false);
    let s1 = user(7, "d", "s1");
    let x = "X".to_string();
    server.handle_new_connection(s1.clone(), ClientMessageRouter::new(1, 16)).unwrap();
    server.handle_client_message(&s1, vec![edits("X", vec![vec![1]])]).unwrap();
    assert_eq!(server.run_next(&x, 0), Some(Ok(())));
    assert_eq!(server.handle_command(x.clone(), subscribe_command(&s1, "X", 1)), Ok(false));
    assert_eq!(server.run_next(&x, 1), Some(Ok(())));
    assert!(server.group_manager().get_group(&x).unwrap().contains_user(&s1));
    // The subscriber was sent the snapshot.
    assert_eq!(server.take_outbound(&s1), Some(vec![vec![1u8]]));

    let s2 = user(7, "d", "s2");
    let closed = server.handle_new_connection(s2.clone(), ClientMessageRouter::new(2, 16)).unwrap();
    assert!(closed.unwrap().is_closed());
    let g = server.group_manager().get_group(&x).unwrap();
    assert!(!g.contains_user(&s1));
    assert_eq!(g.number_of_subscribers(), 0);
    assert_eq!(server.take_outbound(&s1), None);
    assert_eq!(server.take_outbound(&s2), Some(vec![]));
}

#[test]
fn idle_group_is_evicted_and_recreated() {
    let mut server = CollaborationServer::new(config(), false);
    let a = user(1, "a", "sa");
    let g = "G".to_string();
    let spawned = server.handle_client_message(&a, vec![edits("G", vec![])]).unwrap();
    assert_eq!(spawned, vec![g.clone()]);
    assert_eq!(server.run_next(&g, 0), Some(Ok(())));
    assert!(server.contains_group_sender(&g));
    assert!(server.group_manager().contains(&g));

    // Not idle yet at the warm-up's end.
    assert!(server.sweep_inactive_groups(60).is_empty());
    assert!(server.contains_group_sender(&g));

    // At the first tick after the warm-up, 60 s + 20 s, the group is idle
    // and its channel goes.
    assert_eq!(SWEEP_WARMUP_SECS, 60);
    assert_eq!(SWEEP_INTERVAL_SECS, 20);
    let first_tick = (SWEEP_WARMUP_SECS + SWEEP_INTERVAL_SECS) as i64;
    let evicted = server.sweep_inactive_groups(first_tick);
    assert_eq!(evicted, vec![g.clone()]);
    assert!(!server.contains_group_sender(&g));
    assert!(!server.group_manager().contains(&g));

    // A new message brings the channel and the runner back.
    let spawned = server.handle_client_message(&a, vec![edits("G", vec![vec![9]])]).unwrap();
    assert_eq!(spawned, vec![g.clone()]);
    assert!(server.contains_group_sender(&g));
    assert_eq!(server.run_next(&g, 81), Some(Ok(())));
    assert!(server.group_manager().contains(&g));
}

#[test]
fn sweeper_keeps_groups_with_subscribers() {
    let mut server = CollaborationServer::new(config(), false);
    let a = user(1, "a", "sa");
    server.handle_new_connection(a.clone(), ClientMessageRouter::new(1, 16)).unwrap();
    let g = "G".to_string();
    let idle = "I".to_string();
    server.handle_client_message(&a, vec![edits("G", vec![]), edits("I", vec![])]).unwrap();
    assert_eq!(server.run_next(&g, 0), Some(Ok(())));
    assert_eq!(server.run_next(&idle, 0), Some(Ok(())));
    let mut before = server.group_manager().get_inactive_groups(1000);
    before.sort();
    assert_eq!(before, vec![g.clone(), idle.clone()]);

    assert_eq!(server.handle_command(g.clone(), subscribe_command(&a, "G", 1)), Ok(false));
    assert_eq!(server.run_next(&g, 0), Some(Ok(())));
    assert_eq!(server.sweep_inactive_groups(1000), vec![idle.clone()]);
    assert!(server.contains_group_sender(&g));
    assert!(server.group_manager().contains(&g));
    assert!(!server.contains_group_sender(&idle));
}

#[test]
fn channel_full_drops_exactly_one_command() {
    let mut server = CollaborationServer::new(config(), false);
    let a = user(1, "a", "sa");
    let x = "X".to_string();
    // The runner of X is frozen: nothing drains its channel.
    for i in 0..2000u32 {
        server.handle_client_message(&a, vec![edits("X", vec![vec![(i % 256) as u8]])]).unwrap();
    }
    assert_eq!(server.dropped_commands(), 0);
    server.handle_client_message(&a, vec![edits("X", vec![vec![1]])]).unwrap();
    assert_eq!(server.dropped_commands(), 1);
    assert!(server.contains_group_sender(&x));
}

#[test]
fn channel_refuses_command_past_capacity() {
    let a = user(1, "a", "sa");
    let mut ch = GroupCommandChannel::new();
    assert_eq!(GROUP_CHANNEL_CAPACITY, 2000);
    for _ in 0..2000 {
        assert!(ch.try_send(subscribe_command(&a, "X", 1)).is_ok());
    }
    assert_eq!(ch.try_send(subscribe_command(&a, "X", 1)), Err(RealtimeError::ChannelFull));
    assert_eq!(ch.len(), 2000);
}

#[test]
fn two_subscribers_converge() {
    let mut server = CollaborationServer::new(config(), false);
    let a = user(1, "a", "sa");
    let b = user(2, "b", "sb");
    server.handle_new_connection(a.clone(), ClientMessageRouter::new(1, 16)).unwrap();
    server.handle_new_connection(b.clone(), ClientMessageRouter::new(2, 16)).unwrap();
    let x = "X".to_string();
    server.handle_client_message(&a, vec![edits("X", vec![])]).unwrap();
    server.handle_command(x.clone(), subscribe_command(&a, "X", 1)).unwrap();
    server.handle_command(x.clone(), subscribe_command(&b, "X", 2)).unwrap();
    while server.run_next(&x, 0).is_some() {}
    assert_eq!(server.group_manager().get_group(&x).unwrap().number_of_subscribers(), 2);

    server.handle_client_message(&a, vec![edits("X", vec![b"u1".to_vec()])]).unwrap();
    server.handle_client_message(&b, vec![edits("X", vec![b"u2".to_vec()])]).unwrap();
    while server.run_next(&x, 1).is_some() {}

    // Each holds its own edit and receives the other's.
    let to_a = server.take_outbound(&a).unwrap();
    let to_b = server.take_outbound(&b).unwrap();
    assert_eq!(to_a, vec![b"u2".to_vec()]);
    assert_eq!(to_b, vec![b"u1".to_vec()]);
    let state = server.group_manager().get_group(&x).unwrap().snapshot();
    assert_eq!(state, vec![b"u1".to_vec(), b"u2".to_vec()]);

    // A late subscriber's snapshot is byte-equal to the merged state.
    let c = user(3, "c", "sc");
    server.handle_new_connection(c.clone(), ClientMessageRouter::new(3, 16)).unwrap();
    server.handle_command(x.clone(), subscribe_command(&c, "X", 3)).unwrap();
    assert_eq!(server.run_next(&x, 2), Some(Ok(())));
    assert_eq!(server.take_outbound(&c), Some(state));
}

#[test]
fn full_router_drops_broadcast_frames() {
    let mut server = CollaborationServer::new(config(), false);
    let a = user(1, "a", "sa");
    let b = user(2, "b", "sb");
    server.handle_new_connection(a.clone(), ClientMessageRouter::new(1, 16)).unwrap();
    server.handle_new_connection(b.clone(), ClientMessageRouter::new(2, 2)).unwrap();
    let x = "X".to_string();
    server.handle_client_message(&a, vec![edits("X", vec![])]).unwrap();
    server.handle_command(x.clone(), subscribe_command(&b, "X", 2)).unwrap();
    while server.run_next(&x, 0).is_some() {}
    server.handle_client_message(&a, vec![edits("X", vec![vec![1], vec![2], vec![3]])]).unwrap();
    assert_eq!(server.run_next(&x, 1), Some(Ok(())));
    // B's buffer holds two messages: the third is dropped, the state keeps all.
    assert_eq!(server.take_outbound(&b), Some(vec![vec![1u8], vec![2u8]]));
    assert_eq!(server.group_manager().get_group(&x).unwrap().snapshot().len(), 3);
    // The sender is not sent its own edits.
    assert_eq!(server.take_outbound(&a), Some(vec![]));
}

#[test]
fn unsubscribe_and_close_commands() {
    let mut server = CollaborationServer::new(config(), false);
    let a = user(1, "a", "sa");
    let x = "X".to_string();
    server.handle_new_connection(a.clone(), ClientMessageRouter::new(1, 16)).unwrap();
    server.handle_client_message(&a, vec![edits("X", vec![])]).unwrap();
    server.handle_command(x.clone(), subscribe_command(&a, "X", 1)).unwrap();
    assert_eq!(server.run_next(&x, 0), Some(Ok(())));
    assert_eq!(server.run_next(&x, 0), Some(Ok(())));
    assert_eq!(server.group_manager().get_group(&x).unwrap().number_of_subscribers(), 1);
    server
        .handle_command(x.clone(), GroupCommand::Unsubscribe { user: a.clone(), object_id: x.clone() })
        .unwrap();
    assert_eq!(server.run_next(&x, 0), Some(Ok(())));
    assert_eq!(server.group_manager().get_group(&x).unwrap().number_of_subscribers(), 0);

    let close = GroupCommand::HandleControlEvent {
        event: appflowy_collaborate::control::CollabControlEvent::Close { object_id: x.clone() },
    };
    server.handle_command(x.clone(), close).unwrap();
    assert_eq!(server.run_next(&x, 1), Some(Ok(())));
    assert!(!server.group_manager().contains(&x));
}

#[test]
fn subscribe_to_missing_group_fails() {
    let mut server = CollaborationServer::new(config(), false);
    let a = user(1, "a", "sa");
    let x = "X".to_string();
    assert_eq!(server.handle_command(x.clone(), subscribe_command(&a, "X", 1)), Ok(true));
    assert_eq!(server.run_next(&x, 0), Some(Err(RealtimeError::GroupNotFound)));
}

#[test]
fn subscribe_without_connection_fails() {
    let mut server = CollaborationServer::new(config(), false);
    let a = user(1, "a", "sa");
    let x = "X".to_string();
    server.handle_client_message(&a, vec![edits("X", vec![])]).unwrap();
    assert_eq!(server.run_next(&x, 0), Some(Ok(())));
    server.handle_command(x.clone(), subscribe_command(&a, "X", 1)).unwrap();
    assert_eq!(server.run_next(&x, 0), Some(Err(RealtimeError::NotConnected)));
    assert_eq!(server.group_manager().get_group(&x).unwrap().number_of_subscribers(), 0);
}

#[test]
fn handle_command_reports_full_channel() {
    let mut server = CollaborationServer::new(config(), false);
    let a = user(1, "a", "sa");
    let x = "X".to_string();
    assert_eq!(server.handle_command(x.clone(), subscribe_command(&a, "X", 1)), Ok(true));
    for _ in 1..2000 {
        assert_eq!(server.handle_command(x.clone(), subscribe_command(&a, "X", 1)), Ok(false));
    }
    assert_eq!(server.handle_command(x.clone(), subscribe_command(&a, "X", 1)), Err(RealtimeError::ChannelFull));
    assert_eq!(server.dropped_commands(), 1);
}

#[test]
fn persist_marks_and_index_due() {
    let mut server = CollaborationServer::new(config(), false);
    let a = user(1, "a", "sa");
    let x = "X".to_string();
    server.handle_client_message(&a, vec![edits("X", vec![vec![1], vec![2]])]).unwrap();
    assert_eq!(server.run_next(&x, 0), Some(Ok(())));
    assert!(server.group_manager().groups_due_for_persist(0).is_empty());
    assert_eq!(server.group_manager().groups_due_for_persist(60), vec![x.clone()]);
    assert!(server.mark_persisted(&x, 60));
    assert!(server.mark_indexed(&x));
    assert!(!server.mark_persisted(&x, 61));
    assert!(!server.mark_persisted(&"missing".to_string(), 61));
    assert!(server.group_manager().groups_due_for_persist(61).is_empty());
}

#[test]
fn workspace_mismatch_is_refused() {
    let mut server = CollaborationServer::new(config(), false);
    let a = user(1, "a", "sa");
    let x = "X".to_string();
    server.handle_client_message(&a, vec![edits("X", vec![vec![1]])]).unwrap();
    assert_eq!(server.run_next(&x, 0), Some(Ok(())));
    let other = ObjectMessages {
        object_id: "X".to_string(),
        workspace_id: "w2".to_string(),
        collab_type: CollabType::Document,
        messages: vec![vec![2]],
    };
    server.handle_client_message(&a, vec![other]).unwrap();
    let res = server.run_next(&x, 1).unwrap();
    let err = res.unwrap_err();
    assert!(err.is_workspace_mismatch());
    assert_eq!(
        err,
        RealtimeError::CreateGroupFailed(CreateGroupFailedReason::CollabWorkspaceIdNotMatch {
            expect: "w1".to_string(),
            actual: "w2".to_string(),
        })
    );
    assert_eq!(server.group_manager().get_group(&x).unwrap().snapshot(), vec![vec![1u8]]);
}

#[test]
fn run_next_without_commands_is_none() {
    let mut server = CollaborationServer::new(config(), true);
    assert!(server.enable_custom_runtime());
    assert_eq!(server.run_next(&"nothing".to_string(), 0), None);
}
