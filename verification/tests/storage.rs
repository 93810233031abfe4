use chatlog::archive::MonthArchive;
use chatlog::index::{IndexEntry, MonthIndex};
use chatlog::indexer::{date_of_frame, message_date, plan_ingest, Indexer, IndexerError, SkipReason, StoreStep};
use chatlog::frame::read_frame;
use chatlog::record::IndexRecord;
use chatlog::schema::{ChannelIdentifier, ChannelLogDate, UserIdentifier, UserLogDate};
use chatlog::store::{
    has_newline, place_line, AppendError, ChannelStore, HandleCache, Placement, UserIndexStore,
};
use chatlog::users::{extract_channel_and_user, extract_user, strip_hash, UserKey};

fn privmsg(user_id: &str, text: &str) -> String {
    format!(
        "@display-name=U{user_id};id=m-{user_id};room-id=11;tmi-sent-ts=1686947117960;user-id={user_id} :u{user_id}!u{user_id}@u{user_id}.tmi.twitch.tv PRIVMSG #chan :{text}"
    )
}

fn line_of_120_bytes() -> String {
    let base = privmsg("22", "");
    let line = privmsg("22", &"x".repeat(120 - base.len()));
    assert_eq!(line.len(), 120);
    line
}

#[test]
fn append_to_empty_day_file() {
    let date = ChannelLogDate { year: 2023, month: 6, day: 16 };
    let mut store = ChannelStore::open("11".to_owned(), date, 0);
    let line = line_of_120_bytes();
    let (placement, written) = store.append(&line).unwrap();
    assert_eq!(placement, Placement { offset: 0, length: 120 });
    assert_eq!(store.record_for(&placement), IndexRecord { day: 16, offset: 0, length: 120 });
    assert_eq!(store.size, 121);
    assert_eq!(written.len(), 121);
    assert_eq!(&written[..120], line.as_bytes());
    assert_eq!(written[120], b'\n');
}

#[test]
fn three_messages_of_two_users() {
    let mut archive = MonthArchive::new();
    let lines = [privmsg("1", "first"), privmsg("2", "second"), privmsg("1", "third")];
    let mut offsets = Vec::new();
    for line in &lines {
        let plan = plan_ingest(line).unwrap();
        assert_eq!(plan.channel_id, "11");
        assert_eq!(plan.date, ChannelLogDate { year: 2023, month: 6, day: 16 });
        let user = match &plan.user {
            Some(UserKey::Id(id)) => id.clone(),
            _ => panic!("no user id"),
        };
        let record = archive.ingest(plan.date.day, &plan.line, Some(&user)).unwrap();
        offsets.push(record.offset);
    }
    let file = &archive.days[0].bytes;
    let expected: Vec<u8> = lines.iter().flat_map(|l| format!("{l}\n").into_bytes()).collect();
    assert_eq!(file, &expected);
    let first = lines[0].len() as u64;
    let second = lines[1].len() as u64;
    assert_eq!(offsets, vec![0, first + 1, first + second + 2]);
    assert_eq!(
        archive.index.records("1"),
        vec![
            IndexRecord { day: 16, offset: 0, length: lines[0].len() as u32 },
            IndexRecord { day: 16, offset: first + second + 2, length: lines[2].len() as u32 },
        ]
    );
    assert_eq!(
        archive.index.records("2"),
        vec![IndexRecord { day: 16, offset: first + 1, length: lines[1].len() as u32 }]
    );
    for (user, wanted) in [("1", vec![0usize, 2]), ("2", vec![1])] {
        for (record, which) in archive.index.records(user).iter().zip(wanted) {
            let start = record.offset as usize;
            let end = start + record.length as usize;
            assert_eq!(&file[start..end], lines[which].as_bytes());
            assert_eq!(file[end], b'\n');
        }
    }
    assert_eq!(archive.read_user("1", false), vec![lines[0].clone(), lines[2].clone()]);
    assert_eq!(archive.read_user("1", true), vec![lines[2].clone(), lines[0].clone()]);
    assert_eq!(archive.read_user("2", false), vec![lines[1].clone()]);
    assert_eq!(archive.read_user("3", false), Vec::<String>::new());
}

#[test]
fn offsets_of_successive_appends_rise() {
    let date = ChannelLogDate { year: 2023, month: 6, day: 16 };
    let mut store = ChannelStore::open("11".to_owned(), date, 0);
    let mut last: Option<u64> = None;
    for text in ["a", "", "ccc", "h\u{e9}"] {
        let (placement, written) = store.append(text).unwrap();
        assert_eq!(placement.length as usize, text.len());
        assert_eq!(written.len(), text.len() + 1);
        if let Some(before) = last {
            assert!(placement.offset > before);
        }
        last = Some(placement.offset);
    }
    assert_eq!(store.size, 2 + 1 + 4 + 4);
}

#[test]
fn append_errors() {
    let date = ChannelLogDate { year: 2023, month: 6, day: 16 };
    let mut store = ChannelStore::open("11".to_owned(), date, 7);
    assert_eq!(store.append("a\nb").unwrap_err(), AppendError::LineBreak);
    assert_eq!(store.size, 7);
    let mut full = ChannelStore::open("11".to_owned(), date, u64::MAX - 3);
    assert_eq!(full.append("abc").unwrap_err(), AppendError::Full);
    assert_eq!(full.size, u64::MAX - 3);
    let (placement, _) = full.append("ab").unwrap();
    assert_eq!(placement, Placement { offset: u64::MAX - 3, length: 2 });
    assert_eq!(full.size, u64::MAX);
    assert_eq!(place_line(0, "x\n").unwrap_err(), AppendError::LineBreak);
    assert!(has_newline(b"a\n"));
    assert!(!has_newline(b"a\r"));
}

#[test]
fn ingest_that_fails_leaves_the_archive() {
    let mut archive = MonthArchive::new();
    archive.ingest(1, "one", Some("u")).unwrap();
    assert_eq!(archive.ingest(1, "t\nwo", Some("u")).unwrap_err(), AppendError::LineBreak);
    assert_eq!(archive.ingest(2, "t\nwo", Some("u")).unwrap_err(), AppendError::LineBreak);
    assert_eq!(archive.days.len(), 1);
    assert_eq!(archive.days[0].bytes, b"one\n");
    assert_eq!(archive.index.records("u"), vec![IndexRecord { day: 1, offset: 0, length: 3 }]);
    archive.ingest(2, "nobody", None).unwrap();
    assert_eq!(archive.days.len(), 2);
    assert_eq!(archive.days[1].bytes, b"nobody\n");
    assert_eq!(archive.index.users.len(), 1);
    assert_eq!(archive.find_day(2), 1);
    assert_eq!(archive.find_day(3), 2);
}

#[test]
fn month_index_groups_by_user() {
    let mut index = MonthIndex::new();
    let r = |day, offset| IndexRecord { day, offset, length: 1 };
    index.add("b", r(1, 0));
    index.add("a", r(1, 2));
    index.add("b", r(1, 4));
    index.add_all(&vec![
        IndexEntry { user_id: "c".to_owned(), record: r(2, 0) },
        IndexEntry { user_id: "a".to_owned(), record: r(2, 2) },
    ]);
    let ids: Vec<&str> = index.users.iter().map(|u| u.user_id.as_str()).collect();
    assert_eq!(ids, vec!["b", "a", "c"]);
    assert_eq!(index.records("b"), vec![r(1, 0), r(1, 4)]);
    assert_eq!(index.records("a"), vec![r(1, 2), r(2, 2)]);
    assert_eq!(index.records("c"), vec![r(2, 0)]);
    assert_eq!(index.records("d"), vec![]);
}

#[test]
fn handle_cache_evicts_least_recently_used() {
    let mut cache = HandleCache::new(2);
    let t = cache.touch("a");
    assert!(!t.was_open && t.evicted.is_none());
    let t = cache.touch("b");
    assert!(!t.was_open && t.evicted.is_none());
    let t = cache.touch("a");
    assert!(t.was_open && t.evicted.is_none());
    assert_eq!(cache.open, vec!["b", "a"]);
    let t = cache.touch("c");
    assert!(!t.was_open);
    assert_eq!(t.evicted.as_deref(), Some("b"));
    assert_eq!(cache.open, vec!["a", "c"]);
    assert_eq!(cache.find("c"), 1);
    assert_eq!(cache.find("zz"), 2);
    assert_eq!(cache.close_all(), vec!["a", "c"]);
    assert!(cache.open.is_empty());
    assert_eq!(cache.capacity, 2);
}

#[test]
fn handle_cache_of_no_room_holds_one() {
    let mut cache = HandleCache::new(0);
    assert_eq!(cache.capacity, 1);
    assert!(cache.touch("a").evicted.is_none());
    assert_eq!(cache.touch("b").evicted.as_deref(), Some("a"));
    assert_eq!(cache.open, vec!["b"]);
}

#[test]
fn user_index_store_hands_out_record_bytes() {
    let month = UserLogDate { year: 2023, month: 6 };
    let mut store = UserIndexStore::new("11".to_owned(), month, 1);
    let record = IndexRecord { day: 16, offset: 121, length: 120 };
    let w = store.append("22", &record);
    assert_eq!(w.bytes, record.as_bytes());
    assert!(w.open_first);
    assert!(w.evicted.is_none());
    let w = store.append("22", &record);
    assert!(!w.open_first);
    let w = store.append("23", &record);
    assert!(w.open_first);
    assert_eq!(w.evicted.as_deref(), Some("22"));
    assert_eq!(store.channel_id, "11");
    assert_eq!(store.month, month);
}

#[test]
fn plan_skips() {
    assert_eq!(plan_ingest("").unwrap_err(), SkipReason::Malformed);
    assert_eq!(
        plan_ingest("@room-id=11;tmi-sent-ts=0 :tmi.twitch.tv ROOMSTATE #chan").unwrap_err(),
        SkipReason::NotArchivable
    );
    assert_eq!(
        plan_ingest("@tmi-sent-ts=0;user-id=1 :a!a@a PRIVMSG #chan :hi").unwrap_err(),
        SkipReason::NoChannel
    );
    assert_eq!(
        plan_ingest("@room-id=;tmi-sent-ts=0;user-id=1 :a!a@a PRIVMSG #chan :hi").unwrap_err(),
        SkipReason::NoChannel
    );
    assert_eq!(plan_ingest("@room-id=11;user-id=1 :a!a@a PRIVMSG #chan :hi").unwrap_err(), SkipReason::NoDate);
    assert_eq!(
        plan_ingest("@room-id=11;tmi-sent-ts=x;user-id=1 :a!a@a PRIVMSG #chan :hi").unwrap_err(),
        SkipReason::NoDate
    );
    assert_eq!(
        plan_ingest("@room-id=11;tmi-sent-ts=9223372036854775807;user-id=1 :a!a@a PRIVMSG #chan :hi").unwrap_err(),
        SkipReason::NoDate
    );
    assert_eq!(
        plan_ingest("@room-id=11;tmi-sent-ts=-99999999999999999;user-id=1 :a!a@a PRIVMSG #chan :hi").unwrap_err(),
        SkipReason::NoDate
    );
    assert_eq!(
        plan_ingest("@room-id=11;tmi-sent-ts=0;user-id=1 :a!a@a PRIVMSG #chan :h\ni").unwrap_err(),
        SkipReason::LineBreak
    );
}

#[test]
fn line_with_two_spaces_is_no_protocol_message() {
    let line = "@room-id=11;tmi-sent-ts=0;user-id=1 :a!a@a PRIVMSG  #chan :hi";
    assert!(chatlog::frame::read_frame(line).is_some());
    assert!(chatlog::frame::read_archive_frame(line).is_none());
    assert_eq!(plan_ingest(line).unwrap_err(), SkipReason::Malformed);
    assert_eq!(plan_ingest("@room-id=11 PRIV-MSG #chan :hi").unwrap_err(), SkipReason::Malformed);
    let good = "@room-id=11;tmi-sent-ts=0;user-id=1 :a!a@a PRIVMSG #chan :hi";
    assert!(chatlog::frame::read_archive_frame(good).is_some());
    let file = format!("{line}\n{good}\n").into_bytes();
    let owners = chatlog::reindexer::scan_day(1, &file);
    assert_eq!(owners.len(), 1);
    assert_eq!(owners[0].record.offset as usize, line.len() + 1);
}

#[test]
fn plan_of_a_line_with_white_space_at_its_end() {
    let line = privmsg("1", "hi");
    let plan = plan_ingest(&format!("{line}\r\n")).unwrap();
    assert_eq!(plan.line, line);
}

#[test]
fn clearchat_is_filed_under_its_target() {
    let line = "@ban-duration=600;room-id=11;target-user-id=42;tmi-sent-ts=1686947117960;user-id=7 :tmi.twitch.tv CLEARCHAT #chan :someone";
    let plan = plan_ingest(line).unwrap();
    assert!(matches!(&plan.user, Some(UserKey::Id(id)) if id == "42"));
    let line = "@room-id=11;tmi-sent-ts=1686947117960 :tmi.twitch.tv CLEARCHAT #chan :someone";
    let plan = plan_ingest(line).unwrap();
    assert!(matches!(&plan.user, Some(UserKey::Login(l)) if l == "someone"));
    let line = "@room-id=11;tmi-sent-ts=1686947117960 :tmi.twitch.tv CLEARCHAT #chan";
    let plan = plan_ingest(line).unwrap();
    assert!(plan.user.is_none());
}

#[test]
fn dates_of_instants() {
    assert_eq!(message_date(0), Some(ChannelLogDate { year: 1970, month: 1, day: 1 }));
    assert_eq!(message_date(-1), Some(ChannelLogDate { year: 1969, month: 12, day: 31 }));
    assert_eq!(message_date(951782400000), Some(ChannelLogDate { year: 2000, month: 2, day: 29 }));
    assert_eq!(message_date(1686947117960), Some(ChannelLogDate { year: 2023, month: 6, day: 16 }));
    assert_eq!(message_date(i64::MAX), None);
    assert_eq!(message_date(i64::MIN), None);
    assert_eq!(message_date(-62_167_219_200_000), Some(ChannelLogDate { year: 0, month: 1, day: 1 }));
    assert_eq!(message_date(-62_167_219_200_001), None);
    let f = read_frame("@tmi-sent-ts=951782400000 :a!a@a PRIVMSG #c :x").unwrap();
    assert_eq!(date_of_frame(&f), Some(ChannelLogDate { year: 2000, month: 2, day: 29 }));
}

#[test]
fn users_and_channels_of_frames() {
    let f = read_frame("@room-id=11;user-id=22 :alice!alice@a PRIVMSG #chan :x").unwrap();
    assert!(matches!(
        extract_channel_and_user(&f),
        Some((ChannelIdentifier::ChannelId("11"), Some(UserIdentifier::UserId("22"))))
    ));
    let f = read_frame("@k=v :alice!alice@a PRIVMSG #chan :x").unwrap();
    assert!(matches!(
        extract_channel_and_user(&f),
        Some((ChannelIdentifier::Channel("chan"), Some(UserIdentifier::User("alice"))))
    ));
    let f = read_frame("@login=carol;room-id=11 :tmi.twitch.tv USERNOTICE #chan").unwrap();
    assert!(matches!(extract_user(&f), Some(UserIdentifier::User("carol"))));
    let f = read_frame("@login=carol;room-id=11;user-id= :tmi.twitch.tv USERNOTICE #chan").unwrap();
    assert!(matches!(extract_user(&f), Some(UserIdentifier::User("carol"))));
    let f = read_frame("@login=dave;room-id=;target-msg-id=x :tmi.twitch.tv CLEARMSG #chan :bye").unwrap();
    assert!(matches!(
        extract_channel_and_user(&f),
        Some((ChannelIdentifier::Channel("chan"), Some(UserIdentifier::User("dave"))))
    ));
    let f = read_frame("@room-id=11 :tmi.twitch.tv CLEARCHAT #chan").unwrap();
    assert!(matches!(extract_channel_and_user(&f), Some((ChannelIdentifier::ChannelId("11"), None))));
    let f = read_frame("@room-id=11;user-id=22 :tmi.twitch.tv ROOMSTATE #chan").unwrap();
    assert!(extract_channel_and_user(&f).is_none());
    assert!(extract_user(&f).is_none());
    assert_eq!(strip_hash("#chan"), "chan");
    assert_eq!(strip_hash("chan"), "chan");
    assert_eq!(strip_hash(""), "");
    assert!(matches!(UserIdentifier::User("x").to_key(), UserKey::Login(l) if l == "x"));
    assert!(matches!(UserIdentifier::UserId("7").to_key(), UserKey::Id(l) if l == "7"));
}

#[test]
fn indexer_opens_rolls_over_and_closes() {
    let day16 = ChannelLogDate { year: 2023, month: 6, day: 16 };
    let day17 = ChannelLogDate { year: 2023, month: 6, day: 17 };
    let july = ChannelLogDate { year: 2023, month: 7, day: 1 };
    let mut indexer = Indexer::new(2);
    assert_eq!(indexer.step_for("11", &day16), StoreStep::Open);
    assert_eq!(indexer.append("11", "x").unwrap_err(), IndexerError::NotOpen);
    assert!(indexer.index("11", "1", &IndexRecord { day: 16, offset: 0, length: 1 }).is_none());
    assert!(indexer.close("11").is_none());

    assert!(indexer.install(ChannelStore::open("11".to_owned(), day16, 0)).is_empty());
    assert!(indexer.install(ChannelStore::open("12".to_owned(), day16, 50)).is_empty());
    assert_eq!(indexer.position("11"), 0);
    assert_eq!(indexer.position("12"), 1);
    assert_eq!(indexer.position("13"), 2);
    assert_eq!(indexer.step_for("11", &day16), StoreStep::Ready);
    assert_eq!(indexer.step_for("11", &day17), StoreStep::Rollover);

    let w = indexer.append("11", "first").unwrap();
    assert_eq!(w.placement, Placement { offset: 0, length: 5 });
    assert_eq!(w.bytes, b"first\n");
    assert_eq!(w.record, IndexRecord { day: 16, offset: 0, length: 5 });
    let w = indexer.append("11", "second").unwrap();
    assert_eq!(w.record, IndexRecord { day: 16, offset: 6, length: 6 });
    let other = indexer.append("12", "x").unwrap();
    assert_eq!(other.record, IndexRecord { day: 16, offset: 50, length: 1 });
    assert_eq!(indexer.append("11", "a\nb").unwrap_err(), IndexerError::Append(AppendError::LineBreak));
    assert_eq!(indexer.channels[0].store.size, 13);

    let i = indexer.index("11", "u1", &w.record).unwrap();
    assert_eq!(i.bytes, w.record.as_bytes());
    assert!(i.open_first && i.evicted.is_none());
    assert!(indexer.index("11", "u2", &w.record).unwrap().evicted.is_none());
    assert_eq!(indexer.index("11", "u3", &w.record).unwrap().evicted.as_deref(), Some("u1"));
    assert!(!indexer.index("11", "u2", &w.record).unwrap().open_first);

    assert!(indexer.install(ChannelStore::open("11".to_owned(), day17, 0)).is_empty());
    assert_eq!(indexer.channels.len(), 2);
    assert_eq!(indexer.channels[0].indexes.handles.open, vec!["u3", "u2"]);
    assert_eq!(indexer.append("11", "next").unwrap().record, IndexRecord { day: 17, offset: 0, length: 4 });

    assert_eq!(indexer.install(ChannelStore::open("11".to_owned(), july, 9)), vec!["u3", "u2"]);
    assert!(indexer.channels[0].indexes.handles.open.is_empty());
    assert_eq!(indexer.channels[0].indexes.month, UserLogDate { year: 2023, month: 7 });
    assert_eq!(indexer.append("11", "july").unwrap().record, IndexRecord { day: 1, offset: 9, length: 4 });

    indexer.index("12", "u9", &other.record).unwrap();
    assert_eq!(indexer.close("12"), Some(vec!["u9".to_owned()]));
    assert_eq!(indexer.channels.len(), 1);
    assert_eq!(indexer.step_for("12", &day16), StoreStep::Open);
    assert_eq!(indexer.capacity, 2);
}
