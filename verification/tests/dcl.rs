use sybl::dcl::control::{child_beat, echoed, port_response_at, ControlState, MAX_FAILED_CHILD_BEATS};
use sybl::dcl::health::{health_step, heartbeat_answered, MAX_FAILED_HEARTBEATS};
use sybl::dcl::job_end::{average_job_time, countdown, Config};
use sybl::dcl::messages::{ClientMessage as FirstClientMessage, InterfaceMessage};
use sybl::dcl::node_pool::NodePool;
use sybl::dcl::predictions::{parse_predictions, same_record_ids};
use sybl::dcl::validation::separate_answer;
use sybl::messages::{ClientMessage, ControlMessage};
use sybl::models::ObjectId;

#[test]
fn heartbeats_answered_within_the_window_are_alive() {
    let reply = ClientMessage::Alive { timestamp: 100 };
    assert!(heartbeat_answered(100, Some(&reply)));
    let reply = ClientMessage::Alive { timestamp: 102 };
    assert!(heartbeat_answered(100, Some(&reply)));
}

#[test]
fn late_early_or_missing_heartbeats_are_not_alive() {
    let late = ClientMessage::Alive { timestamp: 103 };
    assert!(!heartbeat_answered(100, Some(&late)));
    let early = ClientMessage::Alive { timestamp: 99 };
    assert!(!heartbeat_answered(100, Some(&early)));
    let other = ClientMessage::ConfigResponse { accept: true };
    assert!(!heartbeat_answered(100, Some(&other)));
    assert!(!heartbeat_answered(100, None));
    let far = ClientMessage::Alive { timestamp: u64::MAX };
    assert!(!heartbeat_answered(u64::MAX - 3, Some(&far)));
}

#[test]
fn a_node_is_dead_after_ten_failed_heartbeats_in_a_row() {
    let mut failures = 0;
    for beat in 1..MAX_FAILED_HEARTBEATS {
        let (next, dead) = health_step(failures, false);
        assert_eq!(next, beat);
        assert!(!dead);
        failures = next;
    }
    assert_eq!(health_step(failures, false), (10, true));
}

#[test]
fn an_answered_heartbeat_clears_the_failures() {
    assert_eq!(health_step(7, true), (0, false));
    assert_eq!(health_step(0, true), (0, false));
}

#[test]
fn child_nodes_are_dropped_after_ten_missed_echoes() {
    let mut failed = 0;
    let mut dropped = false;
    let mut beats = 0;
    while !dropped {
        let (next, stop) = child_beat(failed, false);
        failed = next;
        dropped = stop;
        beats += 1;
    }
    assert_eq!(beats, MAX_FAILED_CHILD_BEATS);
    assert_eq!(child_beat(5, true), (0, false));
}

#[test]
fn echoes_must_repeat_the_heartbeat() {
    let sent = ControlMessage::Alive { timestamp: 5 };
    assert!(echoed(&sent, &ControlMessage::Alive { timestamp: 5 }));
    assert!(!echoed(&sent, &ControlMessage::Alive { timestamp: 6 }));
    assert!(!echoed(&sent, &ControlMessage::PortRequest));
}

#[test]
fn port_queries_are_answered_with_a_registered_port() {
    let mut state = ControlState::new();
    assert_eq!(state.answer_port_query(), ControlMessage::PortResponse { port: None });
    state.register(4000);
    state.register(4001);
    state.register(4000);
    let mut ports = state.ports();
    ports.sort();
    assert_eq!(ports, vec![4000, 4001]);
    for _ in 0..20 {
        match state.answer_port_query() {
            ControlMessage::PortResponse { port: Some(p) } => assert!(p == 4000 || p == 4001),
            other => panic!("unexpected answer {:?}", other),
        }
    }
    state.deregister(4000);
    assert!(!state.contains(4000));
    assert_eq!(state.answer_port_query(), ControlMessage::PortResponse { port: Some(4001) });
    state.deregister(4001);
    assert_eq!(state.answer_port_query(), ControlMessage::PortResponse { port: None });
}

#[test]
fn port_responses_pick_the_indexed_port() {
    assert_eq!(port_response_at(&[7, 8, 9], 1), ControlMessage::PortResponse { port: Some(8) });
    assert_eq!(port_response_at(&[], 0), ControlMessage::PortResponse { port: None });
}

#[test]
fn average_job_times_round_towards_zero() {
    assert_eq!(average_job_time(&[]), 0);
    assert_eq!(average_job_time(&[10, 20, 31]), 20);
    assert_eq!(average_job_time(&[-7, 0]), -3);
    assert_eq!(average_job_time(&[5]), 5);
}

#[test]
fn the_last_model_to_finish_wakes_the_cluster() {
    assert_eq!(countdown(3), (2, false));
    assert_eq!(countdown(1), (0, true));
}

#[test]
fn email_configuration_holds_its_fields() {
    let config = Config {
        from_address: String::from("sybl@example.com"),
        from_name: String::from("Sybl"),
        app_password: String::from("SECRET-REDACTED"),
    };
    assert_eq!(config.from_name, "Sybl");
    assert_eq!(config.from_address, "sybl@example.com");
}

#[test]
fn raw_json_is_sent_as_it_is() {
    let raw = FirstClientMessage::RawJSON { content: String::from("{\"a\":1}") };
    assert_eq!(raw.as_bytes(b"ignored"), b"\x00\x00\x00\x07{\"a\":1}".to_vec());
    let alive = FirstClientMessage::Alive { timestamp: 1 };
    assert_eq!(alive.as_bytes(b"{}"), b"\x00\x00\x00\x02{}".to_vec());
    let config = InterfaceMessage::Config {
        id: ObjectId::from_bytes([0; 12]),
        timeout: 10,
        column_types: vec![],
    };
    assert_eq!(config.as_bytes(b"xyz"), b"\x00\x00\x00\x03xyz".to_vec());
    let raw = InterfaceMessage::RawJSON { content: String::new() };
    assert_eq!(raw.as_bytes(b"xyz"), b"\x00\x00\x00\x00".to_vec());
}

#[test]
fn node_pools_count_the_nodes_free_for_a_cluster() {
    let mut pool = NodePool::new();
    pool.add(String::from("a"));
    pool.add(String::from("b"));
    assert_eq!(pool.active_count(), 2);
    assert!(pool.can_build_cluster(2));
    assert!(!pool.can_build_cluster(3));

    let chosen = pool.get();
    assert_eq!(chosen, Some(String::from("a")));
    assert!(pool.is_using("a"));
    assert_eq!(pool.available_ids(), vec![String::from("b")]);

    pool.mark_accepted("b");
    assert_eq!(pool.active_count(), 1);
    assert_eq!(pool.get(), None);

    pool.end("b");
    assert_eq!(pool.active_count(), 2);
    assert!(!pool.is_using("b"));

    pool.update_node_alive("b", false);
    assert_eq!(pool.active_count(), 1);
    pool.add(String::from("b"));
    assert_eq!(pool.active_count(), 2);
    pool.add(String::from("b"));
    assert_eq!(pool.active_count(), 2);
}

#[test]
fn validation_answers_are_taken_out_of_records() {
    let separated = separate_answer("abc123,20,Coventry", "age,location", "location");
    assert_eq!(separated, Some(("Coventry", String::from("abc123,20,"))));
    let separated = separate_answer("abc123,20,Coventry", "age,location", "age");
    assert_eq!(separated, Some(("20", String::from("abc123,,Coventry"))));
}

#[test]
fn records_without_the_prediction_column_have_no_answer() {
    assert_eq!(separate_answer("abc123,20", "age,location", "location"), None);
    assert_eq!(separate_answer("abc123,20,x", "age,location", "height"), None);
    assert_eq!(
        separate_answer("id1,5", "x", "record_id"),
        Some(("id1", String::from(",5")))
    );
}

#[test]
fn predictions_are_read_as_identifier_and_value() {
    assert_eq!(
        parse_predictions("record_id,age\nab12,20\ncd34,21"),
        Some(vec![("ab12", "20"), ("cd34", "21")])
    );
    assert_eq!(parse_predictions("ab12,20"), Some(vec![("ab12", "20")]));
}

#[test]
fn malformed_predictions_are_refused() {
    assert_eq!(parse_predictions("ab12,20,extra"), None);
    assert_eq!(parse_predictions("record_id,age\nab12"), None);
    assert_eq!(parse_predictions("record_id,age\nab12,1\n"), None);
}

#[test]
fn nodes_left_out_of_a_cluster_are_released() {
    let mut pool = NodePool::new();
    for id in ["a", "b", "c"] {
        pool.add(String::from(id));
    }
    pool.mark_accepted("a");
    pool.mark_accepted("b");
    pool.mark_accepted("c");
    assert_eq!(pool.active_count(), 0);
    pool.release_all(&vec![String::from("a"), String::from("c")]);
    assert_eq!(pool.active_count(), 2);
    assert!(!pool.is_using("a"));
    assert!(pool.is_using("b"));
    assert!(!pool.is_using("c"));
    assert_eq!(pool.available_ids(), vec![String::from("a"), String::from("c")]);
}

#[test]
fn updating_liveness_inverts_the_alive_flag() {
    let mut pool = NodePool::new();
    pool.add(String::from("a"));
    assert!(pool.is_alive("a"));
    assert_eq!(pool.active_count(), 1);
    pool.update_node_alive("a", true);
    assert!(!pool.is_alive("a"));
    assert_eq!(pool.active_count(), 0);
    pool.update_node_alive("a", true);
    assert!(pool.is_alive("a"));
    assert_eq!(pool.active_count(), 1);
}

#[test]
fn answers_must_cover_exactly_the_records_sent() {
    assert!(same_record_ids(&vec!["a", "b", "a"], &vec!["b", "a"]));
    assert!(same_record_ids(&vec![], &vec![]));
    assert!(!same_record_ids(&vec!["a"], &vec!["a", "b"]));
    assert!(!same_record_ids(&vec!["a", "c"], &vec!["a"]));
}
