use chatlog::frame::{parser_takes, read_archive_frame, read_frame};
use chatlog::indexer::plan_ingest;
use chatlog::lines::find_lines;
use chatlog::message::{format_line, Message};
use chatlog::reader::read_channel_day;
use chatlog::reindexer::scan_day;
use chatlog::schema::extract_message_text;

fn words(alphabet: &[&str], length: usize) -> Vec<String> {
    let mut all = vec![String::new()];
    let mut last = vec![String::new()];
    for _ in 0..length {
        let mut next = Vec::with_capacity(last.len() * alphabet.len());
        for w in &last {
            for a in alphabet {
                next.push(format!("{w}{a}"));
            }
        }
        all.extend(next.iter().cloned());
        last = next;
    }
    all
}

#[test]
fn every_short_line_is_read_without_fault() {
    let alphabet = ["@", " ", ";", "=", ":", "!", "#", "a", "\u{e9}"];
    let mut frames = 0usize;
    for line in words(&alphabet, 6) {
        let takes = parser_takes(&line);
        let frame = read_frame(&line);
        if !takes {
            assert!(frame.is_none());
        }
        if let Some(f) = &frame {
            frames += 1;
            assert_eq!(f.raw, line.trim_end());
            assert!(!f.command.is_empty());
        }
        let archived = read_archive_frame(&line);
        assert!(archived.is_none() || frame.is_some());
    }
    assert!(frames > 0);
}

#[test]
fn every_short_tagged_line_is_handled_without_fault() {
    let alphabet = ["a=b", ";", " ", "=", "\\s", "\\", "tmi-sent-ts=1", "id=", "x"];
    for tags in words(&alphabet, 4) {
        for rest in [" :n!u@h PRIVMSG #c :t", " USERNOTICE #c", " :h CLEARCHAT #c :l", ""] {
            let line = format!("@{tags}{rest}");
            let _ = Message::parse_from_raw_irc(line.clone());
            let _ = format_line(line.clone());
            let _ = plan_ingest(&line);
        }
    }
}

#[test]
fn lines_of_every_small_file() {
    let alphabet = ["a", "\n", "\r"];
    for file in words(&alphabet, 8) {
        let spans = find_lines(file.as_bytes());
        let mut expected: Vec<&str> = file.split('\n').collect();
        if expected.last() == Some(&"") {
            expected.pop();
        }
        let found: Vec<&str> = spans.iter().map(|s| &file[s.offset..s.offset + s.length]).collect();
        assert_eq!(found, expected);
        let mut at = 0;
        for span in &spans {
            assert_eq!(span.offset, at);
            at = span.offset + span.length + 1;
        }
        assert_eq!(read_channel_day(file.as_bytes(), false), expected);
        assert!(scan_day(1, file.as_bytes()).is_empty());
    }
}

#[test]
fn message_text_of_every_short_parameter() {
    let alphabet = [" ", ":", "\u{1}", "ACTION ", "x", "\u{e9}"];
    for params in words(&alphabet, 5) {
        let t = params.trim_start();
        let u = t.strip_prefix(':').unwrap_or(t);
        let expected = if u.starts_with("\u{1}ACTION ") && u.ends_with('\u{1}') {
            &u[8..u.len() - 1]
        } else {
            u
        };
        assert_eq!(extract_message_text(&params), expected);
    }
}
