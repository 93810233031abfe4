use chatlog::lines::{find_lines, LineSpan};
use chatlog::paths::{
    channel_day_path, get_channel_path, get_user_index_path, get_users_path, user_month_path,
};
use chatlog::record::{decode_index, encode_index, le32_at, push_le32, IndexRecord, RECORD_LEN};
use chatlog::schema::{ChannelLogDate, UserLogDate};

#[test]
fn record_bytes_are_little_endian() {
    let r = IndexRecord { day: 0x04030201, offset: 0x0C0B0A0908070605, length: 0x100F0E0D };
    assert_eq!(r.as_bytes(), vec![1, 2, 3, 4, 5, 6, 7, 8, 9, 10, 11, 12, 13, 14, 15, 16]);
    let r = IndexRecord { day: 16, offset: 300, length: 120 };
    assert_eq!(r.as_bytes(), vec![16, 0, 0, 0, 44, 1, 0, 0, 0, 0, 0, 0, 120, 0, 0, 0]);
    assert_eq!(r.as_bytes().len(), RECORD_LEN);
}

#[test]
fn record_round_trip() {
    for r in [
        IndexRecord { day: 0, offset: 0, length: 0 },
        IndexRecord { day: 31, offset: 121, length: 120 },
        IndexRecord { day: u32::MAX, offset: u64::MAX, length: u32::MAX },
        IndexRecord { day: 1, offset: 1 << 40, length: 1 << 20 },
    ] {
        assert_eq!(IndexRecord::from_bytes(&r.as_bytes()), Some(r));
        assert_eq!(IndexRecord::read_at(&r.as_bytes(), 0), r);
    }
    let bytes: Vec<u8> = (100u8..116).collect();
    let r = IndexRecord::from_bytes(&bytes).unwrap();
    assert_eq!(r.as_bytes(), bytes);
    assert_eq!(r.day, u32::from_le_bytes([100, 101, 102, 103]));
    assert_eq!(r.offset, u64::from_le_bytes([104, 105, 106, 107, 108, 109, 110, 111]));
    assert_eq!(r.length, u32::from_le_bytes([112, 113, 114, 115]));
}

#[test]
fn record_of_wrong_size_is_none() {
    assert_eq!(IndexRecord::from_bytes(&[0u8; 15]), None);
    assert_eq!(IndexRecord::from_bytes(&[0u8; 17]), None);
    assert_eq!(IndexRecord::from_bytes(&[]), None);
}

#[test]
fn four_byte_numbers() {
    let mut out = vec![9u8];
    push_le32(&mut out, 0xAABBCCDD);
    assert_eq!(out, vec![9, 0xDD, 0xCC, 0xBB, 0xAA]);
    assert_eq!(le32_at(&out, 1), 0xAABBCCDD);
}

#[test]
fn index_file_round_trip_and_cut_tail() {
    let records = vec![
        IndexRecord { day: 1, offset: 0, length: 10 },
        IndexRecord { day: 1, offset: 11, length: 5 },
        IndexRecord { day: 2, offset: 0, length: 7 },
    ];
    let bytes = encode_index(&records);
    assert_eq!(bytes.len(), 48);
    assert_eq!(decode_index(&bytes), records);
    let mut cut = bytes.clone();
    cut.truncate(40);
    assert_eq!(decode_index(&cut), records[..2].to_vec());
    cut.truncate(15);
    assert_eq!(decode_index(&cut), Vec::<IndexRecord>::new());
    assert_eq!(decode_index(&[]), Vec::<IndexRecord>::new());
    assert_eq!(encode_index(&Vec::new()), Vec::<u8>::new());
}

fn span(offset: usize, length: usize) -> LineSpan {
    LineSpan { offset, length }
}

#[test]
fn lines_of_a_file() {
    assert_eq!(find_lines(b""), vec![]);
    assert_eq!(find_lines(b"abc\n"), vec![span(0, 3)]);
    assert_eq!(find_lines(b"abc"), vec![span(0, 3)]);
    assert_eq!(find_lines(b"abc\nde\n"), vec![span(0, 3), span(4, 2)]);
    assert_eq!(find_lines(b"abc\nde"), vec![span(0, 3), span(4, 2)]);
    assert_eq!(find_lines(b"\n"), vec![span(0, 0)]);
    assert_eq!(find_lines(b"\n\nx\n"), vec![span(0, 0), span(1, 0), span(2, 1)]);
    assert_eq!(find_lines(b"a\r\nb\r\n"), vec![span(0, 2), span(3, 2)]);
}

#[test]
fn paths_have_no_padding() {
    assert_eq!(get_channel_path("/logs", "11", "2023", "6", "5", false), "/logs/11/2023/6/5.txt");
    assert_eq!(get_channel_path("/logs", "11", "2023", "6", "5", true), "/logs/11/2023/6/5.txt.gz");
    assert_eq!(get_users_path("/logs", "11", "2023", "6"), "/logs/11/2023/6/users/");
    assert_eq!(get_user_index_path("/logs", "11", "2023", "6", "22"), "/logs/11/2023/6/users/22.indexes");
    let date = ChannelLogDate { year: 2023, month: 6, day: 5 };
    assert_eq!(channel_day_path("logs", "11", &date, false), "logs/11/2023/6/5.txt");
    assert_eq!(channel_day_path("logs", "11", &date, true), "logs/11/2023/6/5.txt.gz");
    let month = UserLogDate { year: 2023, month: 12 };
    assert_eq!(user_month_path("logs", "11", &month, "22"), "logs/11/2023/12/users/22.indexes");
}
