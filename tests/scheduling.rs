use waterwheel::messages::{TaskPriority, Token};
use waterwheel::progress::{send_to_token_processor, ProcessToken};
use waterwheel::schedule::{advance, walk, Catchup, Period, ScheduleError, Trigger, TriggerTime};
use waterwheel::scheduler::{Scheduler, SchedulerAction};
use waterwheel::tokens::TokenTable;
use waterwheel::triggers::{
    activation_tokens, catchup_trigger, order_backfill, record_firing, requeue_next_triggertime,
    TriggerEdge,
};

const JAN1: i64 = 1_704_067_200; // 2024-01-01T00:00:00Z
const HOUR: i64 = 3600;

fn trigger(period: i64, catchup: Catchup) -> Trigger {
    Trigger {
        id: 7,
        start_datetime: JAN1,
        end_datetime: None,
        earliest_trigger_datetime: None,
        latest_trigger_datetime: None,
        period: Some(period),
        cron: None,
        trigger_offset: None,
        catchup,
    }
}

fn duration(tr: &Trigger) -> Period {
    match tr.period() {
        Ok(p) => p,
        Err(e) => panic!("unexpected {:?}", e),
    }
}

#[test]
fn single_trigger_no_deps() {
    let mut tr = trigger(60, Catchup::Disabled);
    let period = duration(&tr);
    let mut sched = Scheduler::new();
    sched.push(tr.at(JAN1));
    let now = JAN1 + 30;
    let t = match sched.next_action(now) {
        SchedulerAction::Fire(t) => t,
        other => panic!("expected a firing, got {:?}", other),
    };
    assert_eq!(t.trigger_datetime, JAN1);
    let next = sched.requeue_next(&tr, &period, &t).expect("successor");
    assert_eq!(next.trigger_datetime, JAN1 + 60);
    let tokens = activation_tokens(&vec![], t.trigger_datetime);
    assert!(tokens.is_empty());
    record_firing(&mut tr, t.trigger_datetime);
    assert_eq!(tr.latest_trigger_datetime, Some(JAN1));
    assert_eq!(tr.earliest_trigger_datetime, Some(JAN1));
    assert_eq!(sched.queued(), 1);
    match sched.next_action(now) {
        SchedulerAction::Sleep(t) => assert_eq!(t.scheduled_datetime, JAN1 + 60),
        other => panic!("expected to sleep, got {:?}", other),
    }
}

#[test]
fn catchup_earliest() {
    let mut tr = trigger(HOUR, Catchup::Earliest);
    let period = duration(&tr);
    let now = JAN1 + 5 * HOUR + 30 * 60;
    let mut sched = Scheduler::new();
    let mut table = TokenTable::new();
    let edges = vec![TriggerEdge { task_id: 1, edge_offset: None }];
    let outcome = sched.catchup_activate(&mut table, &vec![], &mut tr, &edges, &period, now);
    let expected: Vec<i64> = (0..6).map(|i| JAN1 + i * HOUR).collect();
    assert_eq!(outcome.fired, expected);
    let msgs: Vec<ProcessToken> = expected
        .iter()
        .map(|t| ProcessToken::Increment(Token { task_id: 1, trigger_datetime: *t }, TaskPriority::BackFill))
        .collect();
    assert_eq!(outcome.messages, msgs);
    assert_eq!(tr.earliest_trigger_datetime, Some(JAN1));
    assert_eq!(tr.latest_trigger_datetime, Some(JAN1 + 5 * HOUR));
    assert_eq!(table.get(Token { task_id: 1, trigger_datetime: JAN1 + 2 * HOUR }).map(|r| r.count), Some(1));
    let direct = send_to_token_processor(&vec![Token { task_id: 1, trigger_datetime: JAN1 }], TaskPriority::BackFill);
    assert_eq!(direct[0], msgs[0]);
    match sched.next_action(now) {
        SchedulerAction::Sleep(t) => assert_eq!(t.trigger_datetime, JAN1 + 6 * HOUR),
        other => panic!("expected to sleep, got {:?}", other),
    }
    assert_eq!(sched.queued(), 0);
}

#[test]
fn pause_during_sleep() {
    let tr = trigger(60, Catchup::Disabled);
    let mut sched = Scheduler::new();
    sched.push(tr.at(JAN1 + 60));
    sched.push(TriggerTime { trigger_id: 8, trigger_datetime: JAN1 + 600, scheduled_datetime: JAN1 + 600 });
    let slept = match sched.next_action(JAN1) {
        SchedulerAction::Sleep(t) => t,
        other => panic!("expected to sleep, got {:?}", other),
    };
    assert_eq!(slept.trigger_id, 7);
    // an update arrives at t+10: put the firing back, then handle it
    sched.push(slept);
    let backfill = sched.update_trigger(7, None, JAN1 + 10).expect("no schedule error");
    assert!(backfill.is_empty());
    assert_eq!(sched.queued(), 1);
    match sched.next_action(JAN1 + 60) {
        SchedulerAction::Sleep(t) => assert_eq!(t.trigger_id, 8),
        other => panic!("expected the other trigger, got {:?}", other),
    }
    assert_eq!(sched.next_action(JAN1 + 60), SchedulerAction::Idle);
}

#[test]
fn overslept_latest() {
    let p = 600;
    let t = JAN1 + 100 * p;
    let mut tr = trigger(p, Catchup::Latest);
    tr.latest_trigger_datetime = Some(t - p);
    tr.earliest_trigger_datetime = Some(JAN1);
    let period = duration(&tr);
    let mut sched = Scheduler::new();
    let mut table = TokenTable::new();
    let edges = vec![TriggerEdge { task_id: 3, edge_offset: Some(5) }];
    let outcome = sched.catchup_activate(&mut table, &vec![], &mut tr, &edges, &period, t + 10 * p);
    assert_eq!(outcome.fired.len(), 10);
    let got: Vec<i64> = outcome
        .messages
        .iter()
        .map(|m| match m {
            ProcessToken::Increment(tok, TaskPriority::BackFill) => tok.trigger_datetime,
            other => panic!("unexpected message {:?}", other),
        })
        .collect();
    let expected: Vec<i64> = (0..10).rev().map(|i| t + i * p + 5).collect();
    assert_eq!(got, expected);
    assert_eq!(tr.latest_trigger_datetime, Some(t + 9 * p));
    assert_eq!(tr.earliest_trigger_datetime, Some(JAN1));
    assert_eq!(sched.queued(), 1);
    match sched.next_action(t + 10 * p) {
        SchedulerAction::Fire(n) => assert_eq!(n.trigger_datetime, t + 10 * p),
        other => panic!("expected a firing, got {:?}", other),
    }
}

#[test]
fn catchup_activate_disabled_posts_nothing() {
    let mut tr = trigger(HOUR, Catchup::Disabled);
    let period = duration(&tr);
    let mut sched = Scheduler::new();
    let mut table = TokenTable::new();
    let edges = vec![TriggerEdge { task_id: 1, edge_offset: None }];
    let outcome = sched.catchup_activate(&mut table, &vec![], &mut tr, &edges, &period, JAN1 + 3 * HOUR + 1);
    assert!(outcome.fired.is_empty());
    assert!(outcome.messages.is_empty());
    assert_eq!(tr.latest_trigger_datetime, None);
    assert_eq!(table.get(Token { task_id: 1, trigger_datetime: JAN1 }), None);
    assert_eq!(sched.queued(), 1);
}

#[test]
fn catchup_activate_start_moved_back_lowers_earliest() {
    let mut tr = trigger(HOUR, Catchup::Random);
    tr.earliest_trigger_datetime = Some(JAN1 + 2 * HOUR);
    tr.latest_trigger_datetime = Some(JAN1 + 3 * HOUR);
    let period = duration(&tr);
    let mut sched = Scheduler::new();
    let mut table = TokenTable::new();
    let edges = vec![TriggerEdge { task_id: 1, edge_offset: None }, TriggerEdge { task_id: 2, edge_offset: None }];
    let outcome = sched.catchup_activate(&mut table, &vec![], &mut tr, &edges, &period, JAN1 + 4 * HOUR + 5);
    assert_eq!(outcome.fired, vec![JAN1, JAN1 + HOUR, JAN1 + 4 * HOUR]);
    assert_eq!(outcome.messages.len(), 6);
    assert_eq!(tr.earliest_trigger_datetime, Some(JAN1));
    assert_eq!(tr.latest_trigger_datetime, Some(JAN1 + 4 * HOUR));
}

#[test]
fn catchup_disabled_skips_but_queues() {
    let mut tr = trigger(HOUR, Catchup::Disabled);
    tr.latest_trigger_datetime = Some(JAN1);
    let period = duration(&tr);
    let plan = catchup_trigger(&tr, &period, JAN1 + 3 * HOUR + 1);
    assert!(plan.backfill.is_empty());
    assert_eq!(plan.next.map(|n| n.trigger_datetime), Some(JAN1 + 4 * HOUR));
}

#[test]
fn catchup_count_matches_ceiling() {
    for (gap, period) in [(1, 7), (7, 7), (8, 7), (100, 7), (3600, 60), (3599, 60)] {
        let tr = trigger(period, Catchup::Random);
        let p = duration(&tr);
        let plan = catchup_trigger(&tr, &p, JAN1 + gap);
        let expected = (gap + period - 1) / period;
        assert_eq!(plan.backfill.len() as i64, expected, "gap {} period {}", gap, period);
    }
    let tr = trigger(60, Catchup::Random);
    let p = duration(&tr);
    assert!(catchup_trigger(&tr, &p, JAN1).backfill.is_empty());
}

#[test]
fn catchup_fills_start_moved_backwards() {
    let mut tr = trigger(HOUR, Catchup::Earliest);
    tr.earliest_trigger_datetime = Some(JAN1 + 2 * HOUR);
    tr.latest_trigger_datetime = Some(JAN1 + 3 * HOUR);
    let period = duration(&tr);
    let plan = catchup_trigger(&tr, &period, JAN1 + 4 * HOUR + 5);
    assert_eq!(plan.backfill, vec![JAN1, JAN1 + HOUR, JAN1 + 4 * HOUR]);
    assert_eq!(plan.next.map(|n| n.trigger_datetime), Some(JAN1 + 5 * HOUR));
}

#[test]
fn random_catchup_keeps_tokens() {
    let tokens: Vec<Token> = (0..20).map(|i| Token { task_id: i, trigger_datetime: JAN1 + i as i64 }).collect();
    let mut shuffled = order_backfill(tokens.clone(), Catchup::Random);
    shuffled.sort_by_key(|t| t.task_id);
    assert_eq!(shuffled, tokens);
}

#[test]
fn end_datetime_limits_successor() {
    let mut tr = trigger(60, Catchup::Disabled);
    let period = duration(&tr);
    let cur = tr.at(JAN1 + 1_000_000 * 60);
    assert!(requeue_next_triggertime(&tr, &period, &cur).is_some());
    tr.end_datetime = Some(JAN1 + 120);
    assert_eq!(
        requeue_next_triggertime(&tr, &period, &tr.at(JAN1)).map(|t| t.trigger_datetime),
        Some(JAN1 + 60)
    );
    assert_eq!(requeue_next_triggertime(&tr, &period, &tr.at(JAN1 + 60)), None);
}

#[test]
fn offsets_default_to_zero() {
    let mut tr = trigger(60, Catchup::Disabled);
    assert_eq!(tr.offset_duration(), 0);
    assert_eq!(tr.at(JAN1).scheduled_datetime, JAN1);
    tr.trigger_offset = Some(90);
    assert_eq!(tr.at(JAN1).scheduled_datetime, JAN1 + 90);
    let edges = vec![
        TriggerEdge { task_id: 1, edge_offset: None },
        TriggerEdge { task_id: 2, edge_offset: Some(-30) },
    ];
    let tokens = activation_tokens(&edges, JAN1);
    assert_eq!(
        tokens,
        vec![Token { task_id: 1, trigger_datetime: JAN1 }, Token { task_id: 2, trigger_datetime: JAN1 - 30 }]
    );
}

#[test]
fn activation_emits_one_token_per_edge() {
    let edges: Vec<TriggerEdge> = (0..4).map(|i| TriggerEdge { task_id: i, edge_offset: Some(i as i64) }).collect();
    assert_eq!(activation_tokens(&edges, JAN1).len(), edges.len());
}

#[test]
fn watermarks_bracket_firings() {
    let mut tr = trigger(60, Catchup::Disabled);
    for t in [JAN1 + 120, JAN1, JAN1 + 60, JAN1 + 600] {
        record_firing(&mut tr, t);
    }
    assert_eq!(tr.earliest_trigger_datetime, Some(JAN1));
    assert_eq!(tr.latest_trigger_datetime, Some(JAN1 + 600));
}

#[test]
fn period_rejects_malformed_schedules() {
    let mut tr = trigger(0, Catchup::Disabled);
    assert!(matches!(tr.period(), Err(ScheduleError::InvalidPeriod)));
    tr.period = None;
    assert!(matches!(tr.period(), Err(ScheduleError::InvalidPeriod)));
    tr.cron = Some("not a cron line".to_string());
    assert!(matches!(tr.period(), Err(ScheduleError::InvalidCron)));
}

#[test]
fn cron_period_advances_to_next_firing() {
    let mut tr = trigger(60, Catchup::Disabled);
    tr.cron = Some("0 0 * * * *".to_string());
    let period = duration(&tr);
    assert!(matches!(period, Period::Cron(_)));
    assert_eq!(advance(JAN1, &period), Some(JAN1 + HOUR));
    assert_eq!(advance(JAN1 + 1, &period), Some(JAN1 + HOUR));
    let (times, next) = walk(JAN1, JAN1 + 3 * HOUR, &period);
    assert_eq!(times, vec![JAN1, JAN1 + HOUR, JAN1 + 2 * HOUR]);
    assert_eq!(next, Some(JAN1 + 3 * HOUR));
}

#[test]
fn queue_wakes_on_earliest_due() {
    let mut sched = Scheduler::new();
    for (i, s) in [500, 100, 300].iter().enumerate() {
        sched.push(TriggerTime { trigger_id: i as u128, trigger_datetime: JAN1 + s, scheduled_datetime: JAN1 + s });
    }
    match sched.next_action(JAN1 + 200) {
        SchedulerAction::Fire(t) => assert_eq!(t.scheduled_datetime, JAN1 + 100),
        other => panic!("expected a firing, got {:?}", other),
    }
    match sched.next_action(JAN1 + 200) {
        SchedulerAction::Sleep(t) => assert_eq!(t.scheduled_datetime, JAN1 + 300),
        other => panic!("expected to sleep, got {:?}", other),
    }
    assert_eq!(sched.queued(), 1);
}

#[test]
fn update_requeues_reloaded_trigger() {
    let tr = trigger(60, Catchup::Disabled);
    let mut sched = Scheduler::new();
    sched.push(tr.at(JAN1));
    sched.push(tr.at(JAN1 + 60));
    let backfill = sched.update_trigger(7, Some(&tr), JAN1 + 90).expect("no schedule error");
    assert!(backfill.is_empty());
    assert_eq!(sched.queued(), 1);
    match sched.next_action(JAN1 + 90) {
        SchedulerAction::Sleep(t) => assert_eq!(t.trigger_datetime, JAN1 + 120),
        other => panic!("expected to sleep, got {:?}", other),
    }
    let mut broken = tr.clone();
    broken.period = None;
    assert_eq!(sched.update_trigger(7, Some(&broken), JAN1).err(), Some(ScheduleError::InvalidPeriod));
}

#[test]
fn cron_schedule_can_run_out() {
    let mut tr = trigger(60, Catchup::Disabled);
    tr.cron = Some("0 0 0 1 1 * 2020".to_string());
    let period = duration(&tr);
    assert_eq!(advance(JAN1, &period), None);
    assert_eq!(requeue_next_triggertime(&tr, &period, &tr.at(JAN1)), None);
}

#[test]
fn open_ended_trigger_always_requeues() {
    let tr = trigger(HOUR, Catchup::Earliest);
    let period = duration(&tr);
    let mut sched = Scheduler::new();
    for i in 0..50 {
        let t = tr.at(JAN1 + i * 1000 * HOUR);
        assert!(sched.requeue_next(&tr, &period, &t).is_some());
    }
    assert_eq!(sched.queued(), 50);
}

#[test]
fn cron_catchup_activates_each_missed_firing() {
    let mut tr = trigger(60, Catchup::Earliest);
    tr.cron = Some("0 0 * * * *".to_string());
    let period = duration(&tr);
    let mut sched = Scheduler::new();
    let mut table = TokenTable::new();
    let edges = vec![TriggerEdge { task_id: 4, edge_offset: None }];
    let outcome = sched.catchup_activate(&mut table, &vec![], &mut tr, &edges, &period, JAN1 + 2 * HOUR + 1800);
    assert_eq!(outcome.fired, vec![JAN1, JAN1 + HOUR, JAN1 + 2 * HOUR]);
    assert_eq!(outcome.messages.len(), 3);
    assert_eq!(tr.latest_trigger_datetime, Some(JAN1 + 2 * HOUR));
    match sched.next_action(JAN1 + 2 * HOUR + 1800) {
        SchedulerAction::Sleep(t) => assert_eq!(t.trigger_datetime, JAN1 + 3 * HOUR),
        other => panic!("expected to sleep, got {:?}", other),
    }
}
