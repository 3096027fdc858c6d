use waterwheel::messages::{MessageError, TaskPriority, TaskResult, Token};
use waterwheel::progress::{
    children_tokens, process_progress, process_token, threshold_of, EdgeKind, ProcessToken, TaskEdge,
};
use waterwheel::schedule::{Catchup, Trigger};
use waterwheel::tokens::{TokenState, TokenTable};
use waterwheel::triggers::{do_activate_trigger, TriggerEdge};
use waterwheel::util::{after_heartbeat, format_duration_approx, is_pg_integrity_error, CircuitBreaker, HeartbeatStep};

const T0: i64 = 1_704_067_200;

fn edge(parent: u128, child: u128) -> TaskEdge {
    TaskEdge { parent_task_id: parent, child_task_id: child, kind: EdgeKind::Success }
}

fn tok(task: u128) -> Token {
    Token { task_id: task, trigger_datetime: T0 }
}

fn increment_and_check(table: &mut TokenTable, edges: &Vec<TaskEdge>, t: Token) -> Option<(Token, TaskPriority)> {
    table.increment(t, threshold_of(edges, t.task_id));
    process_token(table, edges, ProcessToken::Increment(t, TaskPriority::Normal))
}

#[test]
fn linear_chain() {
    let (a, b, c) = (1u128, 2u128, 3u128);
    let edges = vec![edge(a, b), edge(b, c)];
    let mut table = TokenTable::new();
    assert_eq!(increment_and_check(&mut table, &edges, tok(a)), Some((tok(a), TaskPriority::Normal)));
    let children = process_progress(&mut table, &edges, tok(a), EdgeKind::Success);
    assert_eq!(children, vec![tok(b)]);
    let row = table.get(tok(b)).expect("row for b");
    assert_eq!((row.count, row.threshold, row.state), (1, 1, TokenState::Waiting));
    assert_eq!(
        process_token(&mut table, &edges, ProcessToken::Increment(tok(b), TaskPriority::Normal)),
        Some((tok(b), TaskPriority::Normal))
    );
    assert_eq!(table.get(tok(b)).unwrap().state, TokenState::Active);
    assert_eq!(table.get(tok(a)).unwrap().state, TokenState::Success);
    assert!(table.mark_running(tok(b)));
    let children = process_progress(&mut table, &edges, tok(b), EdgeKind::Success);
    assert_eq!(children, vec![tok(c)]);
    assert_eq!(
        process_token(&mut table, &edges, ProcessToken::Increment(tok(c), TaskPriority::Normal)),
        Some((tok(c), TaskPriority::Normal))
    );
}

#[test]
fn fan_in_threshold() {
    let (a, b, c) = (1u128, 2u128, 3u128);
    let edges = vec![edge(a, c), edge(b, c)];
    let mut table = TokenTable::new();
    assert!(increment_and_check(&mut table, &edges, tok(a)).is_some());
    assert!(increment_and_check(&mut table, &edges, tok(b)).is_some());
    let children = process_progress(&mut table, &edges, tok(a), EdgeKind::Success);
    assert_eq!(children, vec![tok(c)]);
    assert_eq!(process_token(&mut table, &edges, ProcessToken::Increment(tok(c), TaskPriority::Normal)), None);
    let row = table.get(tok(c)).unwrap();
    assert_eq!((row.count, row.state), (1, TokenState::Waiting));
    process_progress(&mut table, &edges, tok(b), EdgeKind::Success);
    assert!(process_token(&mut table, &edges, ProcessToken::Increment(tok(c), TaskPriority::Normal)).is_some());
    let row = table.get(tok(c)).unwrap();
    assert_eq!((row.count, row.state), (2, TokenState::Active));
    // a redelivered result for a finished parent is absorbed: the count stays 2
    assert!(process_progress(&mut table, &edges, tok(a), EdgeKind::Success).is_empty());
    assert_eq!(process_token(&mut table, &edges, ProcessToken::Increment(tok(c), TaskPriority::Normal)), None);
    assert_eq!(table.get(tok(c)).unwrap().count, 2);
}

#[test]
fn failure_follows_failure_edges() {
    let edges = vec![
        edge(1, 2),
        TaskEdge { parent_task_id: 1, child_task_id: 3, kind: EdgeKind::Failure },
    ];
    let mut table = TokenTable::new();
    increment_and_check(&mut table, &edges, tok(1));
    assert_eq!(children_tokens(&edges, tok(1), EdgeKind::Failure), vec![tok(3)]);
    assert_eq!(process_progress(&mut table, &edges, tok(1), EdgeKind::Failure), vec![tok(3)]);
    assert_eq!(table.get(tok(1)).unwrap().state, TokenState::Failure);
    assert!(table.get(tok(2)).is_none());
}

#[test]
fn count_stays_within_threshold() {
    let edges = vec![edge(1, 3), edge(2, 3)];
    let mut table = TokenTable::new();
    for _ in 0..2 {
        table.increment(tok(3), threshold_of(&edges, 3));
        let row = table.get(tok(3)).unwrap();
        assert!(row.count <= row.threshold);
    }
    assert_eq!(threshold_of(&edges, 3), 2);
}

#[test]
fn activation_happens_once_per_epoch() {
    let edges: Vec<TaskEdge> = vec![];
    let mut table = TokenTable::new();
    table.increment(tok(1), 0);
    assert!(table.check_threshold(tok(1)));
    assert!(!table.check_threshold(tok(1)));
    table.increment(tok(1), 0);
    assert!(!table.check_threshold(tok(1)));
    assert_eq!(process_token(&mut table, &edges, ProcessToken::Clear(tok(1))), None);
    let row = table.get(tok(1)).unwrap();
    assert_eq!((row.count, row.state), (0, TokenState::Waiting));
    assert!(table.check_threshold(tok(1)));
}

#[test]
fn manual_activation_dispatches() {
    let edges = vec![edge(1, 2)];
    let mut table = TokenTable::new();
    assert_eq!(
        process_token(&mut table, &edges, ProcessToken::Activate(tok(2), TaskPriority::High)),
        Some((tok(2), TaskPriority::High))
    );
    let row = table.get(tok(2)).unwrap();
    assert_eq!((row.count, row.threshold, row.state), (0, 1, TokenState::Active));
    assert!(!table.complete(tok(9), true));
}

fn result(task_id: &str, when: &str, outcome: &str) -> TaskResult {
    TaskResult {
        task_id: task_id.to_string(),
        trigger_datetime: when.to_string(),
        result: outcome.to_string(),
        worker_id: 1,
    }
}

#[test]
fn task_result_names_its_token() {
    let r = result("67e55044-10b1-426f-9247-bb680e5fe0c8", "2024-01-01T00:00:00Z", "success");
    assert_eq!(
        r.get_token(),
        Ok(Token { task_id: 0x67e55044_10b1_426f_9247_bb680e5fe0c8, trigger_datetime: T0 })
    );
    assert_eq!(r.outcome(), Ok(EdgeKind::Success));
    let r = result("67e55044-10b1-426f-9247-bb680e5fe0c8", "2024-01-01T01:00:00+01:00", "failure");
    assert_eq!(r.get_token().map(|t| t.trigger_datetime), Ok(T0));
    assert_eq!(r.outcome(), Ok(EdgeKind::Failure));
}

#[test]
fn task_result_errors() {
    assert_eq!(result("nope", "2024-01-01T00:00:00Z", "success").get_token(), Err(MessageError::InvalidTaskId));
    assert_eq!(
        result("67e55044-10b1-426f-9247-bb680e5fe0c8", "yesterday", "success").get_token(),
        Err(MessageError::InvalidDatetime)
    );
    assert_eq!(result("x", "y", "done").outcome(), Err(MessageError::InvalidResult));
}

#[test]
fn durations_read_approximately() {
    assert_eq!(format_duration_approx(-90), "1m 30s");
    assert_eq!(format_duration_approx(3661), "1h 1m 1s");
    assert_eq!(format_duration_approx(0), "0s");
}

#[test]
fn integrity_error_codes() {
    assert!(is_pg_integrity_error("23505"));
    assert!(is_pg_integrity_error("23503"));
    assert!(!is_pg_integrity_error("42P01"));
    assert!(!is_pg_integrity_error("2"));
}

#[test]
fn circuit_breaker_trips_after_five_quick_failures() {
    let mut cb = CircuitBreaker::new(5, 60);
    for i in 0..5 {
        assert!(cb.retry(1000 + i), "start {}", i);
    }
    assert!(!cb.retry(1010));
    let mut cb = CircuitBreaker::new(5, 60);
    for i in 0..10 {
        assert!(cb.retry(1000 + 30 * i), "start {}", i);
    }
}

#[test]
fn heartbeat_retries_then_gives_up() {
    assert_eq!(after_heartbeat(true, 5), HeartbeatStep::Ready);
    assert_eq!(after_heartbeat(false, 5), HeartbeatStep::Retry(4));
    assert_eq!(after_heartbeat(false, 1), HeartbeatStep::GiveUp);
}

#[test]
fn trigger_activation_increments_and_widens() {
    let task_edges = vec![edge(1, 2)];
    let mut tr = Trigger {
        id: 9,
        start_datetime: T0,
        end_datetime: None,
        earliest_trigger_datetime: Some(T0 + 60),
        latest_trigger_datetime: Some(T0 + 60),
        period: Some(60),
        cron: None,
        trigger_offset: None,
        catchup: Catchup::Disabled,
    };
    let edges = vec![TriggerEdge { task_id: 1, edge_offset: None }, TriggerEdge { task_id: 2, edge_offset: Some(60) }];
    let mut table = TokenTable::new();
    let tokens = do_activate_trigger(&mut table, &task_edges, &mut tr, &edges, T0);
    assert_eq!(tokens, vec![tok(1), Token { task_id: 2, trigger_datetime: T0 + 60 }]);
    let a = table.get(tok(1)).unwrap();
    assert_eq!((a.count, a.threshold, a.state), (1, 0, TokenState::Waiting));
    let b = table.get(Token { task_id: 2, trigger_datetime: T0 + 60 }).unwrap();
    assert_eq!((b.count, b.threshold), (1, 1));
    assert_eq!(tr.earliest_trigger_datetime, Some(T0));
    assert_eq!(tr.latest_trigger_datetime, Some(T0 + 60));
}

#[test]
fn result_for_cleared_token_still_finishes_it() {
    let edges = vec![edge(1, 2)];
    let mut table = TokenTable::new();
    increment_and_check(&mut table, &edges, tok(1));
    assert!(table.mark_running(tok(1)));
    assert_eq!(process_token(&mut table, &edges, ProcessToken::Clear(tok(1))), None);
    assert_eq!(table.get(tok(1)).unwrap().state, TokenState::Waiting);
    assert_eq!(process_progress(&mut table, &edges, tok(1), EdgeKind::Success), vec![tok(2)]);
    assert_eq!(table.get(tok(1)).unwrap().state, TokenState::Success);
    assert_eq!(table.get(tok(2)).unwrap().count, 1);
    assert!(process_progress(&mut table, &edges, tok(1), EdgeKind::Success).is_empty());
    assert_eq!(table.get(tok(2)).unwrap().count, 1);
}
