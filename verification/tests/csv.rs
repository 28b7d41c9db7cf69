use std::io::{BufRead, BufReader};
use x_influx::client::Message;
use x_influx::error::ConvertError;
use x_influx::mapper::csv::{Imported, Line, Source};
use x_influx::mapper::{Csv, Layout};

fn lines_of(text: &str) -> Vec<Line> {
    BufReader::new(text.as_bytes())
        .lines()
        .map(|line| line.map_err(|e| format!("{:?}", e)))
        .collect()
}

fn owned(fields: &[&str]) -> Vec<String> {
    fields.iter().map(|f| f.to_string()).collect()
}

fn pair(name: &str, value: &str) -> (String, String) {
    (name.to_string(), value.to_string())
}

fn check(message: &Message, time: i64, value: (&str, &str), tags: &[(&str, &str)]) {
    assert_eq!(message.time(), time);
    assert_eq!(message.value(), &pair(value.0, value.1));
    let expected: Vec<(String, String)> = tags.iter().map(|t| pair(t.0, t.1)).collect();
    assert_eq!(message.tags(), &expected);
}

#[test]
fn test_get_header_positions() {
    let layout = Layout::default();
    let csv = Csv::new(vec![], false, ',', 2);
    let data = lines_of("dsf\nnsdfsdf\ntimestamp,data");

    let header = csv.read_header(&layout, &data);
    assert!(header.is_ok());
    assert_eq!(header.unwrap(), (1, 0, vec![]));
}

#[test]
fn test_no_header() {
    let layout = Layout::default();
    let csv = Csv::new(vec![], false, ',', 2);
    let data = lines_of("");

    let header = csv.read_header(&layout, &data);
    assert!(header.is_err());
    assert_eq!(header.err().unwrap().to_string(), "Header not found.");
}

#[test]
fn test_import() {
    let mut text = String::new();
    for n in 0..10 {
        text.push_str(&format!("Kopfzeile {}\n", n));
    }
    text.push_str("Datum;Profilwert kWh;Status\n");
    text.push_str("01.01.2017 00:15;0,5;W\n");
    text.push_str("01.01.2017 00:30;0,25;W\n");
    text.push_str("01.01.2017 00:45;0,75;G\n");
    let sources = vec![Source {
        name: "assets/test.csv".into(),
        lines: Ok(lines_of(&text)),
    }];

    let mut layout = Layout::default();
    layout.measure = "Profilwert kWh".into();
    layout.time = "Datum".into();
    layout.tformat = "%d.%m.%Y %H:%M".into();
    let csv = Csv::new(vec!["assets/test.csv".into()], false, ';', 10);

    let res = csv.import(&layout, &sources);
    assert!(res.iter().all(|r| r.failure.is_none()));
    assert_eq!(res[0].messages.len(), 3);
    check(&res[0].messages[0], 1483229700, ("Profilwert kWh", "0,5"), &[]);
    layout.tags = vec!["Status".into()];
    let res = csv.import(&layout, &sources);
    assert!(res.iter().all(|r| r.failure.is_none()));
    assert_eq!(res[0].messages.len(), 3);
    check(
        &res[0].messages[2],
        1483231500,
        ("Profilwert kWh", "0,75"),
        &[("Status", "G")],
    );
}

#[test]
fn test_get_single_col() {
    let csv = Csv::new(vec![], false, ',', 2);
    let data: Vec<String> = vec![
        "a".into(),
        "b".into(),
        "c".into(),
        "d".into(),
        "".into(),
        "f".into(),
    ];

    let mut layout = "a";
    assert_eq!(csv.find_pos(&layout, &data).unwrap(), 0);
    layout = "f";
    assert_eq!(csv.find_pos(&layout, &data).unwrap(), 5);
    layout = "data";
    assert!(csv.find_pos(&layout, &data).is_err());
}

#[test]
fn test_get_multiple_cols() {
    let csv = Csv::new(vec![], false, ',', 2);
    let data: Vec<String> = vec![
        "a".into(),
        "b".into(),
        "c".into(),
        "d".into(),
        "".into(),
        "f".into(),
    ];

    let mut layout: Vec<String> = vec!["data".into()];
    assert_eq!(csv.find_positions(&layout, &data), vec![]);
    layout = vec!["f".into()];
    assert_eq!(csv.find_positions(&layout, &data), vec![5]);
    layout = vec!["f".into(), "a".into()];
    assert_eq!(csv.find_positions(&layout, &data), vec![5, 0]);
}

#[test]
fn a_csv_keeps_what_it_was_made_with() {
    let csv = Csv::new(vec!["a.csv".into(), "b.csv".into()], true, ';', 7);
    assert_eq!(csv.files(), &owned(&["a.csv", "b.csv"]));
    assert!(csv.batch());
    assert_eq!(csv.delimiter(), ';');
    assert_eq!(csv.first_row(), 7);
}

#[test]
fn find_pos_names_what_it_missed() {
    let csv = Csv::new(vec![], false, ',', 0);
    let data = owned(&["a", "b"]);
    match csv.find_pos("data", &data) {
        Err(ConvertError::NotFound(name)) => assert_eq!(name, "data"),
        other => panic!("unexpected: {:?}", other),
    }
}

#[test]
fn find_pos_takes_the_first_of_repeated_names() {
    let csv = Csv::new(vec![], false, ',', 0);
    let data = owned(&["b", "a", "b", "a"]);
    assert_eq!(csv.find_pos("a", &data).unwrap(), 1);
    assert_eq!(csv.find_pos("b", &data).unwrap(), 0);
}

#[test]
fn split_cuts_at_every_delimiter() {
    let csv = Csv::new(vec![], false, ',', 0);
    assert_eq!(csv.split("a,b,c"), owned(&["a", "b", "c"]));
    assert_eq!(csv.split(""), owned(&[""]));
    assert_eq!(csv.split(","), owned(&["", ""]));
    assert_eq!(csv.split("a,,b,"), owned(&["a", "", "b", ""]));
    assert_eq!(csv.split("no delimiter"), owned(&["no delimiter"]));
    assert_eq!(csv.split("grüße,çé,日本"), owned(&["grüße", "çé", "日本"]));
    let semi = Csv::new(vec![], false, ';', 0);
    assert_eq!(semi.split("a,b;c"), owned(&["a,b", "c"]));
}

#[test]
fn split_and_join_undo_each_other() {
    let csv = Csv::new(vec![], false, ';', 0);
    for line in ["", ";", "a;b", ";a;;b;", "2017;x y;ü"] {
        let fields = csv.split(line);
        assert!(!fields.is_empty());
        assert!(fields.iter().all(|f| !f.contains(';')));
        assert_eq!(fields.join(";"), line);
    }
}

#[test]
fn skip_gives_the_line_behind_the_skipped_rows() {
    let csv = Csv::new(vec![], false, ',', 1);
    let data = lines_of("first\nsecond\nthird");
    assert_eq!(csv.skip(&data).unwrap(), "second");
    let at_start = Csv::new(vec![], false, ',', 0);
    assert_eq!(at_start.skip(&data).unwrap(), "first");
    let beyond = Csv::new(vec![], false, ',', 3);
    match beyond.skip(&data) {
        Err(ConvertError::Import(reason)) => assert_eq!(reason, "Header not found"),
        other => panic!("unexpected: {:?}", other),
    }
}

#[test]
fn skip_reports_a_header_that_could_not_be_read() {
    let csv = Csv::new(vec![], false, ',', 1);
    let data: Vec<Line> = vec![Err("ignored".into()), Err("broken pipe".into())];
    match csv.skip(&data) {
        Err(ConvertError::Import(reason)) => assert_eq!(reason, "broken pipe"),
        other => panic!("unexpected: {:?}", other),
    }
}

#[test]
fn read_header_reports_the_missing_column() {
    let layout = Layout::default();
    let csv = Csv::new(vec![], false, ',', 0);
    match csv.read_header(&layout, &lines_of("timestamp,value")) {
        Err(ConvertError::NotFound(name)) => assert_eq!(name, "data"),
        other => panic!("unexpected: {:?}", other),
    }
    match csv.read_header(&layout, &lines_of("time,data")) {
        Err(ConvertError::NotFound(name)) => assert_eq!(name, "timestamp"),
        other => panic!("unexpected: {:?}", other),
    }
}

#[test]
fn read_header_gives_the_tag_columns() {
    let mut layout = Layout::default();
    layout.tags = vec!["unit".into(), "gone".into(), "host".into()];
    let csv = Csv::new(vec![], false, ';', 1);
    let data = lines_of("skipped\nhost;timestamp;unit;data");
    assert_eq!(csv.read_header(&layout, &data).unwrap(), (3, 1, vec![2, 0]));
    let found = csv.read_columns(&layout, &data).unwrap();
    assert_eq!(
        found.tags,
        vec![("unit".to_string(), 2), ("host".to_string(), 0)]
    );
}

#[test]
fn two_rows_give_two_messages() {
    let layout = Layout::default();
    let csv = Csv::new(vec![], false, ',', 0);
    let data = lines_of("timestamp,data\n2017-10-10 00:00:00,0\n2017-10-10 00:01:00,1");
    let Imported { messages, failure } = csv.import_lines(&layout, &data);
    assert!(failure.is_none());
    assert_eq!(messages.len(), 2);
    check(&messages[0], 1507593600, ("data", "0"), &[]);
    check(&messages[1], 1507593660, ("data", "1"), &[]);
}

#[test]
fn a_source_without_the_measure_is_skipped() {
    let layout = Layout::default();
    let csv = Csv::new(vec!["one.csv".into(), "two.csv".into()], false, ',', 0);
    let sources = vec![
        Source {
            name: "one.csv".into(),
            lines: Ok(lines_of("timestamp,value\n2017-10-10 00:00:00,0")),
        },
        Source {
            name: "two.csv".into(),
            lines: Ok(lines_of("timestamp,data\n2017-10-10 00:00:00,7")),
        },
    ];
    let imported = csv.import(&layout, &sources);
    assert_eq!(imported.len(), 2);
    assert!(imported[0].messages.is_empty());
    match &imported[0].failure {
        Some(ConvertError::NotFound(name)) => assert_eq!(name, "data"),
        other => panic!("unexpected: {:?}", other),
    }
    assert!(imported[1].failure.is_none());
    assert_eq!(imported[1].messages.len(), 1);
    check(&imported[1].messages[0], 1507593600, ("data", "7"), &[]);
}

#[test]
fn a_row_with_an_unreadable_timestamp_is_dropped() {
    let layout = Layout::default();
    let csv = Csv::new(vec![], false, ',', 0);
    let data = lines_of(
        "timestamp,data\n2017-10-10 00:00:00,0\nyesterday,1\n2017-10-10 00:02:00,2\n2017-13-10 00:00:00,3",
    );
    let imported = csv.import_lines(&layout, &data);
    assert!(imported.failure.is_none());
    assert_eq!(imported.messages.len(), 2);
    check(&imported.messages[0], 1507593600, ("data", "0"), &[]);
    check(&imported.messages[1], 1507593720, ("data", "2"), &[]);
}

#[test]
fn a_row_that_lacks_a_column_is_dropped() {
    let mut layout = Layout::default();
    layout.tags = vec!["host".into()];
    let csv = Csv::new(vec![], false, ',', 0);
    let data = lines_of(
        "timestamp,data,host\n2017-10-10 00:00:00,0,a\n2017-10-10 00:01:00,1\n\n2017-10-10 00:02:00\n2017-10-10 00:03:00,3,b,extra",
    );
    let imported = csv.import_lines(&layout, &data);
    assert!(imported.failure.is_none());
    assert_eq!(imported.messages.len(), 2);
    check(&imported.messages[0], 1507593600, ("data", "0"), &[("host", "a")]);
    check(&imported.messages[1], 1507593780, ("data", "3"), &[("host", "b")]);
}

#[test]
fn tags_go_by_their_own_names() {
    let mut layout = Layout::default();
    layout.tags = vec!["gone".into(), "unit".into(), "host".into()];
    let csv = Csv::new(vec![], false, ',', 0);
    let data = lines_of("host,timestamp,data,unit\nweb,2017-10-10 00:00:00,5,kWh");
    let imported = csv.import_lines(&layout, &data);
    assert!(imported.failure.is_none());
    assert_eq!(imported.messages.len(), 1);
    check(
        &imported.messages[0],
        1507593600,
        ("data", "5"),
        &[("unit", "kWh"), ("host", "web")],
    );
}

#[test]
fn a_line_that_cannot_be_read_ends_the_source() {
    let layout = Layout::default();
    let csv = Csv::new(vec![], false, ',', 0);
    let data: Vec<Line> = vec![
        Ok("timestamp,data".into()),
        Ok("2017-10-10 00:00:00,0".into()),
        Err("stream did not contain valid UTF-8".into()),
        Ok("2017-10-10 00:02:00,2".into()),
    ];
    let imported = csv.import_lines(&layout, &data);
    assert_eq!(imported.messages.len(), 1);
    check(&imported.messages[0], 1507593600, ("data", "0"), &[]);
    match imported.failure {
        Some(ConvertError::Import(reason)) => {
            assert_eq!(reason, "stream did not contain valid UTF-8")
        }
        other => panic!("unexpected: {:?}", other),
    }
}

#[test]
fn a_source_that_cannot_be_opened_does_not_stop_the_others() {
    let layout = Layout::default();
    let csv = Csv::new(vec![], false, ',', 0);
    let sources = vec![
        Source {
            name: "gone.csv".into(),
            lines: Err("No such file or directory (os error 2)".into()),
        },
        Source {
            name: "empty.csv".into(),
            lines: Ok(vec![]),
        },
        Source {
            name: "here.csv".into(),
            lines: Ok(lines_of("timestamp,data\n2017-10-10 00:00:00,9")),
        },
    ];
    let imported = csv.import(&layout, &sources);
    assert_eq!(imported.len(), 3);
    assert!(imported[0].messages.is_empty());
    assert_eq!(
        imported[0].failure.as_ref().unwrap().to_string(),
        "Failed to import file gone.csv : No such file or directory (os error 2)."
    );
    assert!(imported[1].messages.is_empty());
    assert_eq!(
        imported[1].failure.as_ref().unwrap().to_string(),
        "Header not found."
    );
    assert!(imported[2].failure.is_none());
    assert_eq!(imported[2].messages.len(), 1);
    check(&imported[2].messages[0], 1507593600, ("data", "9"), &[]);
}

#[test]
fn timestamps_are_read_under_the_layout_format() {
    let mut layout = Layout::default();
    layout.tformat = "%d.%m.%Y %H:%M".into();
    let csv = Csv::new(vec![], false, ';', 0);
    let found = layout.resolve(&owned(&["timestamp", "data"])).unwrap();
    let message = csv.convert_row(&layout, &found, "10.10.2017 00:01;4").unwrap();
    check(&message, 1507593660, ("data", "4"), &[]);
    assert!(csv
        .convert_row(&layout, &found, "2017-10-10 00:01:00;4")
        .is_none());
    let epoch = csv.convert_row(&layout, &found, "01.01.1970 00:00;0").unwrap();
    assert_eq!(epoch.time(), 0);
    let before = csv.convert_row(&layout, &found, "31.12.1969 23:59;0").unwrap();
    assert_eq!(before.time(), -60);
}

#[test]
fn a_row_message_needs_its_columns_and_its_timestamp() {
    let mut layout = Layout::default();
    layout.tags = vec!["host".into()];
    let csv = Csv::new(vec![], false, ',', 0);
    let found = layout
        .resolve(&owned(&["timestamp", "data", "host"]))
        .unwrap();
    let row = owned(&["whenever", "3", "web"]);
    let message = csv.row_message(&layout, &found, &row, Some(42)).unwrap();
    check(&message, 42, ("data", "3"), &[("host", "web")]);
    assert!(csv.row_message(&layout, &found, &row, None).is_none());
    let short = owned(&["whenever", "3"]);
    assert!(csv.row_message(&layout, &found, &short, Some(42)).is_none());
    let empty: Vec<String> = Vec::new();
    assert!(csv.row_message(&layout, &found, &empty, Some(42)).is_none());
}

#[test]
fn a_year_before_the_first_drops_the_row() {
    let mut layout = Layout::default();
    layout.tformat = "%G %V %u %H:%M".into();
    let csv = Csv::new(vec![], false, ',', 0);
    let data = lines_of(
        "timestamp,data\n2017 41 2 00:00,0\n-2147483648 1 1 00:00,1\n-02147483648 1 1 00:00,2\n2017 41 2 00:01,3",
    );
    let imported = csv.import_lines(&layout, &data);
    assert!(imported.failure.is_none());
    assert_eq!(imported.messages.len(), 2);
    check(&imported.messages[0], 1507593600, ("data", "0"), &[]);
    check(&imported.messages[1], 1507593660, ("data", "3"), &[]);
}

#[test]
fn reading_ends_at_the_first_failure_behind_the_skipped_rows() {
    let csv = Csv::new(vec![], false, ',', 1);
    let ok = |text: &str| -> Line { Ok(text.to_string()) };
    let failed = || -> Line { Err("Is a directory (os error 21)".to_string()) };
    assert!(!csv.read_enough(&[]));
    assert!(!csv.read_enough(&[failed()]));
    assert!(!csv.read_enough(&[ok("skipped")]));
    assert!(csv.read_enough(&[failed(), failed()]));
    assert!(csv.read_enough(&[ok("skipped"), failed()]));
    assert!(!csv.read_enough(&[failed(), ok("timestamp,data")]));
    assert!(!csv.read_enough(&[ok("skipped"), ok("timestamp,data"), ok("x,1")]));
    assert!(csv.read_enough(&[ok("skipped"), ok("timestamp,data"), failed()]));
    assert!(!csv.read_enough(&[ok("skipped"), ok("timestamp,data"), failed(), ok("x,1")]));
}

#[test]
fn what_follows_a_failure_changes_nothing() {
    let layout = Layout::default();
    let csv = Csv::new(vec![], false, ',', 1);
    let all: Vec<Line> = vec![
        Err("skipped all the same".into()),
        Ok("timestamp,data".into()),
        Ok("2017-10-10 00:00:00,0".into()),
        Err("broken pipe".into()),
        Ok("2017-10-10 00:02:00,2".into()),
        Err("broken pipe".into()),
    ];
    let whole = csv.import_lines(&layout, &all);
    let read = csv.import_lines(&layout, &all[..4]);
    assert!(csv.read_enough(&all[..4]));
    assert_eq!(whole.messages.len(), 1);
    assert_eq!(read.messages.len(), 1);
    check(&read.messages[0], 1507593600, ("data", "0"), &[]);
    assert_eq!(
        whole.failure.unwrap().to_string(),
        read.failure.unwrap().to_string()
    );
}
