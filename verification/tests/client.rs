use chrono::Utc;
use x_influx::client::{Action, InfluxClient, Message, Phase, Record};
use x_influx::error::ConvertError;
use x_influx::mapper::{Csv, Layout};

// start the test background client
fn start_client() -> InfluxClient {
    InfluxClient::new(
        "http://localhost:8086".into(),
        "testuser".into(),
        "testpass".into(),
        "test".into(),
        "try".into(),
    )
}

fn written(client: &mut InfluxClient) -> Record {
    match client.poll() {
        Action::Write(record) => record,
        other => panic!("unexpected: {:?}", other),
    }
}

// check if a message is correctly handed to the worker
fn validate(client: &mut InfluxClient, msg: &Message) {
    let record = written(client);
    assert_eq!(record.series, "try");
    assert_eq!(&record.field, msg.value());
    assert_eq!(record.timestamp, msg.time() * 1000000000);
    assert_eq!(&record.tags, msg.tags());
}

fn message(time: i64, value: &str) -> Message {
    Message::new(time, ("power".into(), value.into()), vec![])
}

#[test]
fn test_simple_import() {
    let mut client = start_client();
    let msg = Message::new(Utc::now().timestamp(), ("power".into(), "1".into()), vec![]);
    assert!(client.send(msg.clone()).is_ok());
    validate(&mut client, &msg);

    let msg = Message::new(Utc::now().timestamp(), ("power".into(), "2".into()), vec![]);
    assert!(client.send(msg.clone()).is_ok());
    validate(&mut client, &msg);

    assert!(client.join().is_ok());
}

#[test]
fn a_message_keeps_what_it_was_made_with() {
    let tags = vec![("host".to_string(), "web".to_string())];
    let msg = Message::new(-5, ("power".into(), "1".into()), tags.clone());
    assert_eq!(msg.time(), -5);
    assert_eq!(msg.value(), &("power".to_string(), "1".to_string()));
    assert_eq!(msg.tags(), &tags);
    let copy = msg.clone();
    assert_eq!(copy.time(), -5);
    assert_eq!(copy.value(), msg.value());
    assert_eq!(copy.tags(), msg.tags());
}

#[test]
fn a_record_holds_nanoseconds() {
    let tags = vec![
        ("host".to_string(), "web".to_string()),
        ("unit".to_string(), "kWh".to_string()),
    ];
    let record = Message::new(1507593600, ("power".into(), "0.5".into()), tags.clone())
        .into_record("series")
        .unwrap();
    assert_eq!(record.series, "series");
    assert_eq!(record.field, ("power".to_string(), "0.5".to_string()));
    assert_eq!(record.timestamp, 1507593600000000000);
    assert_eq!(record.tags, tags);
    let early = message(-1, "1").into_record("s").unwrap();
    assert_eq!(early.timestamp, -1000000000);
    let epoch = message(0, "1").into_record("s").unwrap();
    assert_eq!(epoch.timestamp, 0);
}

#[test]
fn an_instant_beyond_the_database_range_is_not_rendered() {
    let last = message(9223372036, "1").into_record("s").unwrap();
    assert_eq!(last.timestamp, 9223372036000000000);
    let first = message(-9223372036, "1").into_record("s").unwrap();
    assert_eq!(first.timestamp, -9223372036000000000);
    let late = message(9223372037, "late").into_record("s").unwrap_err();
    assert_eq!(late.time(), 9223372037);
    assert_eq!(late.value().1, "late");
    assert!(message(-9223372037, "1").into_record("s").is_err());
    assert!(message(i64::MAX, "1").into_record("s").is_err());
    assert!(message(i64::MIN, "1").into_record("s").is_err());
}

#[test]
fn a_row_reaches_the_database_unchanged() {
    let mut layout = Layout::default();
    layout.tags = vec!["host".into(), "unit".into()];
    let csv = Csv::new(vec![], false, ',', 0);
    let header: Vec<String> = vec!["timestamp".into(), "unit".into(), "data".into(), "host".into()];
    let found = layout.resolve(&header).unwrap();
    let msg = csv
        .convert_row(&layout, &found, "2017-10-10 00:00:00, kWh ,0.50 ,wéb")
        .unwrap();
    let mut client = start_client();
    assert!(client.send(msg).is_ok());
    let record = written(&mut client);
    assert_eq!(record.field, ("data".to_string(), "0.50 ".to_string()));
    assert_eq!(
        record.tags,
        vec![
            ("host".to_string(), "wéb".to_string()),
            ("unit".to_string(), " kWh ".to_string())
        ]
    );
    assert_eq!(record.timestamp, 1507593600000000000);
}

#[test]
fn a_new_writer_waits_for_its_worker() {
    let client = start_client();
    assert_eq!(client.phase(), Phase::Created);
    assert_eq!(client.pending(), 0);
    assert!(!client.is_closed());
    assert_eq!(client.hosts(), "http://localhost:8086");
    assert_eq!(client.user(), "testuser");
    assert_eq!(client.pass(), "testpass");
    assert_eq!(client.db(), "test");
    assert_eq!(client.series(), "try");
}

#[test]
fn the_worker_goes_through_its_phases() {
    let mut client = start_client();
    assert!(matches!(client.poll(), Action::Wait));
    assert_eq!(client.phase(), Phase::Running);
    assert!(client.send(message(1, "a")).is_ok());
    assert!(client.send(message(2, "b")).is_ok());
    assert_eq!(client.pending(), 2);
    assert_eq!(written(&mut client).timestamp, 1000000000);
    assert_eq!(client.phase(), Phase::Writing);
    assert_eq!(written(&mut client).timestamp, 2000000000);
    assert_eq!(client.phase(), Phase::Writing);
    assert!(matches!(client.poll(), Action::Wait));
    assert_eq!(client.phase(), Phase::Running);
    assert!(client.join().is_ok());
    assert_eq!(client.phase(), Phase::Running);
    assert!(matches!(client.poll(), Action::Stop));
    assert_eq!(client.phase(), Phase::Draining);
    client.exited();
    assert_eq!(client.phase(), Phase::Terminated);
    assert!(matches!(client.poll(), Action::Stop));
    assert_eq!(client.phase(), Phase::Terminated);
}

#[test]
fn messages_are_served_in_the_order_sent() {
    let mut client = start_client();
    for n in 0..50 {
        assert!(client.send(message(n, &n.to_string())).is_ok());
    }
    assert!(client.join().is_ok());
    for n in 0..50 {
        let record = written(&mut client);
        assert_eq!(record.timestamp, n * 1000000000);
        assert_eq!(record.field.1, n.to_string());
    }
    assert!(matches!(client.poll(), Action::Stop));
    assert_eq!(client.pending(), 0);
}

#[test]
fn everything_sent_before_the_signal_is_served() {
    let mut client = start_client();
    assert!(client.send(message(1, "a")).is_ok());
    assert!(client.join().is_ok());
    assert_eq!(client.pending(), 2);
    assert_eq!(written(&mut client).field.1, "a");
    assert!(matches!(client.poll(), Action::Stop));
    assert!(matches!(client.poll(), Action::Stop));
}

#[test]
fn join_twice_fails_the_second_time() {
    let mut client = start_client();
    assert!(client.join().is_ok());
    match client.join() {
        Err(ConvertError::Send(None)) => {}
        other => panic!("unexpected: {:?}", other),
    }
    assert_eq!(client.pending(), 1);
    assert!(matches!(client.poll(), Action::Stop));
    match client.join() {
        Err(ConvertError::Send(None)) => {}
        other => panic!("unexpected: {:?}", other),
    }
    client.exited();
    assert!(client.join().is_err());
}

#[test]
fn send_after_join_fails() {
    let mut client = start_client();
    assert!(client.send(message(1, "kept")).is_ok());
    assert!(client.join().is_ok());
    assert!(client.is_closed());
    match client.send(message(2, "late")) {
        Err(ConvertError::Send(Some(back))) => {
            assert_eq!(back.time(), 2);
            assert_eq!(back.value().1, "late");
        }
        other => panic!("unexpected: {:?}", other),
    }
    assert_eq!(client.pending(), 2);
    assert_eq!(written(&mut client).field.1, "kept");
    assert!(matches!(client.poll(), Action::Stop));
    assert!(client.send(message(3, "later")).is_err());
    client.exited();
    assert!(client.send(message(4, "latest")).is_err());
    assert_eq!(client.pending(), 0);
}

#[test]
fn a_failed_write_does_not_stop_the_worker() {
    let mut client = start_client();
    assert!(client.send(message(1, "a")).is_ok());
    assert!(client.send(message(i64::MAX, "b")).is_ok());
    assert!(client.send(message(3, "c")).is_ok());
    assert_eq!(written(&mut client).field.1, "a");
    match client.poll() {
        Action::Reject(back) => assert_eq!(back.value().1, "b"),
        other => panic!("unexpected: {:?}", other),
    }
    assert_eq!(client.phase(), Phase::Running);
    assert_eq!(written(&mut client).field.1, "c");
}

#[test]
fn a_worker_that_is_gone_takes_nothing() {
    let mut client = start_client();
    assert!(client.send(message(1, "lost")).is_ok());
    client.exited();
    assert_eq!(client.phase(), Phase::Terminated);
    assert_eq!(client.pending(), 0);
    assert!(client.is_closed());
    assert!(client.send(message(2, "late")).is_err());
    assert!(client.join().is_err());
    assert!(matches!(client.poll(), Action::Stop));
}
