use chatlog::archive::MonthArchive;
use chatlog::reader::{
    channel_day_lines, ordered, read_channel_day, read_channel_month, read_record, read_user_day,
    read_user_month, reversed,
};
use chatlog::record::{encode_index, IndexRecord};
use chatlog::reindexer::{
    pending_logins, rebuild_month, reindex_channel, reindex_month, resolve_owners, run, scan_day, ChannelLogs,
    DayLog, MonthLogs,
};
use chatlog::responders::{
    chunked, join_messages, respond, LogsBody, LogsResponse, LogsResponseType, ProcessedLogs, ProcessedLogsType,
};
use chatlog::users::UserKey;

fn privmsg(user_id: &str, text: &str) -> String {
    format!(
        "@display-name=U{user_id};id=m-{user_id};room-id=11;tmi-sent-ts=1686947117960;user-id={user_id} :u{user_id}!u{user_id}@u{user_id}.tmi.twitch.tv PRIVMSG #chan :{text}"
    )
}

fn file_of(lines: &[String]) -> Vec<u8> {
    lines.iter().flat_map(|l| format!("{l}\n").into_bytes()).collect()
}

fn strings(v: &[&str]) -> Vec<String> {
    v.iter().map(|s| s.to_string()).collect()
}

#[test]
fn reversal_twice_restores_order() {
    let lines = strings(&["a", "b", "c", "b"]);
    assert_eq!(reversed(lines.clone()), strings(&["b", "c", "b", "a"]));
    assert_eq!(reversed(reversed(lines.clone())), lines);
    assert_eq!(ordered(ordered(lines.clone(), true), true), lines);
    assert_eq!(ordered(lines.clone(), false), lines);
    assert_eq!(reversed(Vec::<String>::new()), Vec::<String>::new());
    assert_eq!(reversed(vec![1, 2, 3]), vec![3, 2, 1]);
}

#[test]
fn channel_day_is_read_line_by_line() {
    let bytes = b"one\ntwo\n\nfour";
    assert_eq!(channel_day_lines(bytes), strings(&["one", "two", "", "four"]));
    assert_eq!(read_channel_day(bytes, true), strings(&["four", "", "two", "one"]));
    assert_eq!(read_channel_day(b"", false), Vec::<String>::new());
    assert_eq!(read_channel_day(b"ok\n\xff\xfe\nfine\n", false), strings(&["ok", "fine"]));
}

#[test]
fn record_beyond_the_file_is_left_out() {
    let file = b"first\nsecond\nthird\n";
    let records = vec![
        IndexRecord { day: 3, offset: 0, length: 5 },
        IndexRecord { day: 3, offset: 13, length: 15 },
        IndexRecord { day: 3, offset: 6, length: 6 },
        IndexRecord { day: 3, offset: 19, length: 1 },
        IndexRecord { day: 3, offset: u64::MAX, length: u32::MAX },
        IndexRecord { day: 3, offset: 20, length: 0 },
        IndexRecord { day: 3, offset: 13, length: 5 },
    ];
    let index = encode_index(&records);
    let days = vec![DayLog { day: 3, bytes: file.to_vec() }];
    assert_eq!(read_user_month(&index, &days, false), strings(&["first", "second", "third"]));
    assert_eq!(read_user_month(&index, &days, true), strings(&["third", "second", "first"]));
    assert_eq!(read_record(file, &records[0]), Some("first"));
    assert_eq!(read_record(file, &records[1]), None);
    assert_eq!(read_record(file, &records[3]), None);
    assert_eq!(read_record(file, &records[4]), None);
    assert_eq!(read_record(file, &IndexRecord { day: 3, offset: 19, length: 0 }), Some(""));
}

#[test]
fn user_month_goes_day_by_day() {
    let records = vec![
        IndexRecord { day: 2, offset: 0, length: 2 },
        IndexRecord { day: 1, offset: 0, length: 2 },
        IndexRecord { day: 2, offset: 3, length: 2 },
        IndexRecord { day: 9, offset: 0, length: 2 },
        IndexRecord { day: 1, offset: 3, length: 2 },
    ];
    let mut index = encode_index(&records);
    index.extend_from_slice(&[1, 2, 3]);
    let days = vec![
        DayLog { day: 1, bytes: b"a1\na2\n".to_vec() },
        DayLog { day: 2, bytes: b"b1\nb2\n".to_vec() },
    ];
    assert_eq!(read_user_month(&index, &days, false), strings(&["a1", "a2", "b1", "b2"]));
    assert_eq!(read_user_month(&index, &days, true), strings(&["b2", "b1", "a2", "a1"]));
    assert_eq!(read_user_day(&index, 2, &days[1].bytes, false), strings(&["b1", "b2"]));
    assert_eq!(read_user_day(&index, 2, &days[1].bytes, true), strings(&["b2", "b1"]));
    assert_eq!(read_user_day(&index, 5, &days[1].bytes, false), Vec::<String>::new());
    assert_eq!(read_user_month(&index, &Vec::new(), false), Vec::<String>::new());
}

#[test]
fn record_that_cuts_a_character_is_left_out() {
    let file = "h\u{e9}\n".as_bytes();
    assert_eq!(read_record(file, &IndexRecord { day: 1, offset: 0, length: 2 }), None);
    assert_eq!(read_record(file, &IndexRecord { day: 1, offset: 0, length: 3 }), Some("h\u{e9}"));
}

#[test]
fn reindex_passes_over_a_malformed_line() {
    let lines = vec![privmsg("1", "before"), String::new(), privmsg("2", "after")];
    let file = file_of(&lines);
    let owners = scan_day(16, &file);
    assert_eq!(owners.len(), 2);
    let first = lines[0].len();
    assert!(matches!(&owners[0].user, UserKey::Id(id) if id == "1"));
    assert_eq!(owners[0].record, IndexRecord { day: 16, offset: 0, length: first as u32 });
    assert!(matches!(&owners[1].user, UserKey::Id(id) if id == "2"));
    assert_eq!(
        owners[1].record,
        IndexRecord { day: 16, offset: first as u64 + 2, length: lines[2].len() as u32 }
    );
    for owner in &owners {
        let start = owner.record.offset as usize;
        let end = start + owner.record.length as usize;
        assert!(start == 0 || file[start - 1] == b'\n');
        assert_eq!(file[end], b'\n');
        assert!(!file[start..end].contains(&b'\n'));
    }
}

#[test]
fn reindex_passes_over_lines_that_are_no_messages() {
    let lines = vec![
        "PING :tmi.twitch.tv".to_owned(),
        privmsg("1", "kept"),
        "@room-id=11 :tmi.twitch.tv ROOMSTATE #chan".to_owned(),
        "@a=b".to_owned(),
        "\u{fffd}".to_owned(),
    ];
    let mut file = file_of(&lines);
    file.extend_from_slice(b"\xff\xff\n");
    file.extend_from_slice(privmsg("1", "last, not closed").as_bytes());
    let owners = scan_day(1, &file);
    assert_eq!(owners.len(), 2);
    assert_eq!(owners[0].record.offset as usize, lines[0].len() + 1);
    assert_eq!(owners[1].record.offset as usize + owners[1].record.length as usize, file.len());
}

#[test]
fn reindex_counts_carriage_returns_in() {
    let line = privmsg("1", "dos");
    let file = format!("{line}\r\n").into_bytes();
    let owners = scan_day(1, &file);
    assert_eq!(owners.len(), 1);
    assert_eq!(owners[0].record, IndexRecord { day: 1, offset: 0, length: line.len() as u32 + 1 });
}

#[test]
fn logins_are_resolved_through_the_directory() {
    let lines = vec![
        "@login=dave;room-id=11;target-msg-id=x;tmi-sent-ts=1 :tmi.twitch.tv CLEARMSG #chan :bye".to_owned(),
        privmsg("1", "hi"),
        "@login=erin;room-id=11;target-msg-id=y;tmi-sent-ts=1 :tmi.twitch.tv CLEARMSG #chan :bye".to_owned(),
    ];
    let file = file_of(&lines);
    let owners = scan_day(4, &file);
    assert_eq!(owners.len(), 3);
    assert_eq!(pending_logins(&owners), vec!["dave", "erin"]);
    let directory = vec![("dave".to_owned(), "77".to_owned())];
    let entries = resolve_owners(&owners, &directory);
    let ids: Vec<&str> = entries.iter().map(|e| e.user_id.as_str()).collect();
    assert_eq!(ids, vec!["77", "1"]);
    assert_eq!(entries[0].record.offset, 0);
    assert_eq!(entries[1].record.offset as usize, lines[0].len() + 1);
    assert_eq!(resolve_owners(&owners, &Vec::new()).len(), 1);
}

fn two_days() -> Vec<DayLog> {
    vec![
        DayLog { day: 1, bytes: file_of(&[privmsg("1", "a"), privmsg("2", "b"), privmsg("1", "c")]) },
        DayLog { day: 2, bytes: file_of(&[privmsg("2", "d"), "broken".to_owned(), privmsg("1", "e")]) },
    ]
}

#[test]
fn reindex_builds_the_same_indexes_every_time() {
    let days = two_days();
    let first = rebuild_month(&days, &Vec::new());
    let second = rebuild_month(&days, &Vec::new());
    assert_eq!(first.users.len(), 2);
    for (a, b) in first.users.iter().zip(second.users.iter()) {
        assert_eq!(a.user_id, b.user_id);
        assert_eq!(encode_index(&a.records), encode_index(&b.records));
    }
    let mut archive = MonthArchive { days: two_days(), index: first };
    archive.index.add("stale", IndexRecord { day: 9, offset: 9, length: 9 });
    archive.reindex(&Vec::new());
    let once: Vec<(String, Vec<u8>)> =
        archive.index.users.iter().map(|u| (u.user_id.clone(), encode_index(&u.records))).collect();
    archive.reindex(&Vec::new());
    archive.reindex(&Vec::new());
    let thrice: Vec<(String, Vec<u8>)> =
        archive.index.users.iter().map(|u| (u.user_id.clone(), encode_index(&u.records))).collect();
    assert_eq!(once, thrice);
    assert_eq!(once.len(), 2);
    assert_eq!(once[0].0, "1");
    assert_eq!(once[0].1.len(), 48);
    assert_eq!(once[1].1.len(), 32);
}

#[test]
fn rebuilt_index_matches_live_index() {
    let mut live = MonthArchive::new();
    for (day, user, text) in [(1, "1", "a"), (1, "2", "b"), (1, "1", "c"), (2, "2", "d"), (2, "1", "e")] {
        live.ingest(day, &privmsg(user, text), Some(user)).unwrap();
    }
    let rebuilt = rebuild_month(&live.days, &Vec::new());
    assert_eq!(rebuilt.users.len(), live.index.users.len());
    for (a, b) in rebuilt.users.iter().zip(live.index.users.iter()) {
        assert_eq!(a.user_id, b.user_id);
        assert_eq!(a.records, b.records);
    }
}

#[test]
fn user_lines_are_channel_lines() {
    let mut archive = MonthArchive { days: two_days(), index: chatlog::index::MonthIndex::new() };
    archive.reindex(&Vec::new());
    let channel = read_channel_month(&archive.days, false);
    assert_eq!(channel.len(), 6);
    assert_eq!(channel[4], "broken");
    let mut backwards = read_channel_month(&archive.days, true);
    backwards.reverse();
    assert_eq!(backwards, channel);
    for user in ["1", "2"] {
        let lines = archive.read_user(user, false);
        assert!(!lines.is_empty());
        for line in &lines {
            assert!(channel.contains(line));
        }
    }
    assert_eq!(
        archive.read_user("1", false),
        vec![privmsg("1", "a"), privmsg("1", "c"), privmsg("1", "e")]
    );
    assert_eq!(archive.read_user("2", true), vec![privmsg("2", "d"), privmsg("2", "b")]);
}

#[test]
fn same_day_offsets_rise_in_every_index() {
    let index = rebuild_month(&two_days(), &Vec::new());
    for user in &index.users {
        for pair in user.records.windows(2) {
            if pair[0].day == pair[1].day {
                assert!(pair[0].offset < pair[1].offset);
            }
        }
    }
}

#[test]
fn reindex_names_the_files_to_write() {
    let logs = ChannelLogs {
        channel_id: "11".to_owned(),
        months: vec![
            MonthLogs { year: 2023, month: 6, days: two_days() },
            MonthLogs { year: 2023, month: 7, days: Vec::new() },
        ],
    };
    let rebuilt = reindex_channel("/logs", &logs, &Vec::new());
    assert_eq!(rebuilt.len(), 2);
    assert_eq!(rebuilt[0].users_path, "/logs/11/2023/6/users/");
    let paths: Vec<&str> = rebuilt[0].files.iter().map(|f| f.path.as_str()).collect();
    assert_eq!(paths, vec!["/logs/11/2023/6/users/1.indexes", "/logs/11/2023/6/users/2.indexes"]);
    assert_eq!(rebuilt[0].files[0].bytes.len(), 48);
    assert_eq!(rebuilt[0].files[1].bytes.len(), 32);
    assert_eq!(rebuilt[1].users_path, "/logs/11/2023/7/users/");
    assert!(rebuilt[1].files.is_empty());
    let month = reindex_month("/logs", "11", &logs.months[0], &Vec::new());
    assert_eq!(month.files[0].bytes, rebuilt[0].files[0].bytes);
    let all = run("/logs", &vec![None, Some(logs)], &Vec::new());
    assert_eq!(all.len(), 2);
    assert!(all[0].is_none());
    assert_eq!(all[1].as_ref().unwrap().len(), 2);
    assert_eq!(all[1].as_ref().unwrap()[0].files[1].bytes, rebuilt[0].files[1].bytes);
}

#[test]
fn raw_answer_has_a_newline_behind_each_line() {
    let lines = strings(&["a", "b"]);
    assert_eq!(chunked(lines.clone()), strings(&["a", "\n", "b", "\n"]));
    match respond(lines.clone(), None, true) {
        LogsBody::Chunks(c) => assert_eq!(c, strings(&["b", "\n", "a", "\n"])),
        _ => panic!("not raw"),
    }
    match respond(Vec::new(), None, false) {
        LogsBody::Chunks(c) => assert!(c.is_empty()),
        _ => panic!("not raw"),
    }
}

#[test]
fn text_answer_joins_the_messages() {
    let lines = vec![privmsg("1", "a"), "broken".to_owned(), privmsg("2", "b")];
    match respond(lines.clone(), Some(ProcessedLogsType::Text), false) {
        LogsBody::Text(t) => assert_eq!(
            t,
            "[2023-06-16 20:25:17] #chan u1: a\n[2023-06-16 20:25:17] #chan u2: b"
        ),
        _ => panic!("not text"),
    }
    match respond(lines.clone(), Some(ProcessedLogsType::Text), true) {
        LogsBody::Text(t) => assert_eq!(
            t,
            "[2023-06-16 20:25:17] #chan u2: b\n[2023-06-16 20:25:17] #chan u1: a"
        ),
        _ => panic!("not text"),
    }
    match respond(vec!["broken".to_owned()], Some(ProcessedLogsType::Text), false) {
        LogsBody::Text(t) => assert_eq!(t, ""),
        _ => panic!("not text"),
    }
}

#[test]
fn json_answer_keeps_the_messages() {
    let lines = vec![privmsg("1", "a"), "broken".to_owned(), privmsg("2", "b")];
    let processed = ProcessedLogs::parse_raw(lines.clone(), ProcessedLogsType::Json);
    assert_eq!(processed.logs_type, ProcessedLogsType::Json);
    assert_eq!(processed.messages.len(), 2);
    assert_eq!(processed.messages[0].text, "a");
    assert_eq!(processed.messages[1].username, "u2");
    assert_eq!(join_messages(&processed.messages).lines().count(), 2);
    let response = LogsResponse { response_type: LogsResponseType::Processed(processed), reverse: true };
    match response.into_body() {
        LogsBody::Json(m) => {
            assert_eq!(m.len(), 2);
            assert_eq!(m[0].text, "b");
            assert_eq!(m[1].text, "a");
        },
        _ => panic!("not json"),
    }
    let response = LogsResponse::from_lines(lines, Some(ProcessedLogsType::Json), false);
    assert!(!response.reverse);
    assert!(matches!(response.response_type, LogsResponseType::Processed(_)));
}
