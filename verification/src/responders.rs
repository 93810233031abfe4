use crate::message::{line_outcome, message_line, Message, MessageView};
use crate::reader::{in_order, ordered, reversed};
use crate::reindexer::texts_of;
use vstd::prelude::*;
use vstd::string::StringExecFns;

verus! {

/// How messages are written out.
#[derive(Clone, Copy, Debug, PartialEq, Eq, Structural)]
pub enum ProcessedLogsType {
    Text,
    Json,
}

/// Messages that were read from lines, and how to write them out.
#[derive(Debug, Clone)]
pub struct ProcessedLogs {
    pub messages: Vec<Message>,
    pub logs_type: ProcessedLogsType,
}

/// What is answered: the lines as they are, or messages read from them.
#[derive(Debug, Clone)]
pub enum LogsResponseType {
    Raw(Vec<String>),
    Processed(ProcessedLogs),
}

/// An answer to a query, and whether it is wanted newest first.
#[derive(Debug, Clone)]
pub struct LogsResponse {
    pub response_type: LogsResponseType,
    pub reverse: bool,
}

/// The body of an answer.
#[derive(Debug, Clone)]
pub enum LogsBody {
    /// Pieces to send one after the other: each line, and a newline behind it.
    Chunks(Vec<String>),
    /// One text with a line for each message.
    Text(String),
    /// The messages to send under `messages`.
    Json(Vec<Message>),
}

/// What a list of messages holds.
pub open spec fn messages_of(v: Seq<Message>) -> Seq<MessageView> {
    Seq::new(v.len(), |i: int| v[i]@)
}

/// The time of every message can be written as a date.
pub open spec fn all_timed(v: Seq<Message>) -> bool {
    forall|i: int| 0 <= i < v.len() ==> crate::clock::utc_accepts((#[trigger] v[i]).timestamp as int)
}

/// The messages that lines make, in the order of the lines. A line that makes
/// none is left out.
pub open spec fn messages_among(lines: Seq<Seq<char>>) -> Seq<MessageView>
    decreases lines.len(),
{
    if lines.len() == 0 {
        Seq::empty()
    } else {
        let before = messages_among(lines.drop_last());
        match line_outcome(lines.last()) {
            Ok(m) => before.push(m),
            Err(_) => before,
        }
    }
}

/// Each line with a newline behind it, as pieces.
pub open spec fn with_newlines(lines: Seq<Seq<char>>) -> Seq<Seq<char>> {
    Seq::new(
        2 * lines.len(),
        |i: int|
            if i % 2 == 0 {
                lines[i / 2]
            } else {
                "\n"@
            },
    )
}

/// The lines in one text, with `sep` between them.
pub open spec fn joined(lines: Seq<Seq<char>>, sep: Seq<char>) -> Seq<char>
    decreases lines.len(),
{
    if lines.len() == 0 {
        Seq::empty()
    } else if lines.len() == 1 {
        lines[0]
    } else {
        joined(lines.drop_last(), sep) + sep + lines.last()
    }
}

/// The lines of text that show a list of messages.
pub open spec fn shown(messages: Seq<MessageView>) -> Seq<Seq<char>> {
    Seq::new(messages.len(), |i: int| message_line(messages[i]))
}

/// What a body holds.
pub ghost enum BodyView {
    Chunks(Seq<Seq<char>>),
    Text(Seq<char>),
    Json(Seq<MessageView>),
}

impl View for LogsBody {
    type V = BodyView;

    open spec fn view(&self) -> BodyView {
        match *self {
            LogsBody::Chunks(v) => BodyView::Chunks(texts_of(v@)),
            LogsBody::Text(t) => BodyView::Text(t@),
            LogsBody::Json(m) => BodyView::Json(messages_of(m@)),
        }
    }
}

/// The body that answers with raw lines.
pub open spec fn raw_body(lines: Seq<Seq<char>>, reverse: bool) -> BodyView {
    BodyView::Chunks(with_newlines(in_order(lines, reverse)))
}

/// The body that answers with messages.
pub open spec fn processed_body(messages: Seq<MessageView>, t: ProcessedLogsType, reverse: bool) -> BodyView {
    match t {
        ProcessedLogsType::Text => BodyView::Text(joined(shown(in_order(messages, reverse)), "\n"@)),
        ProcessedLogsType::Json => BodyView::Json(in_order(messages, reverse)),
    }
}

/// The body that answers a query over the given lines: raw where no form is
/// asked for, else the messages that the lines make in the form asked for.
pub open spec fn body_of(lines: Seq<Seq<char>>, t: Option<ProcessedLogsType>, reverse: bool) -> BodyView {
    match t {
        None => raw_body(lines, reverse),
        Some(p) => processed_body(messages_among(lines), p, reverse),
    }
}

impl ProcessedLogs {
    /// Reads a message from each line, keeps those that are messages, in the
    /// order of the lines.
    pub fn parse_raw(lines: Vec<String>, logs_type: ProcessedLogsType) -> (r: ProcessedLogs)
        ensures
            messages_of(r.messages@) == messages_among(texts_of(lines@)),
            all_timed(r.messages@),
            r.logs_type == logs_type,
    {
        let n: usize = lines.len();
        let mut messages: Vec<Message> = Vec::new();
        let mut i: usize = 0;
        let ghost all = texts_of(lines@);
        assert(all.take(0) =~= Seq::empty());
        assert(messages_of(messages@) =~= messages_among(all.take(0)));
        while i < n
            invariant
                i <= n,
                n == lines@.len(),
                all == texts_of(lines@),
                messages_of(messages@) == messages_among(all.take(i as int)),
                all_timed(messages@),
            decreases n - i,
        {
            assert(all.take(i + 1).drop_last() == all.take(i as int));
            assert(all.take(i + 1).last() == all[i as int]);
            let ghost before = messages_of(messages@);
            match Message::parse_from_raw_irc(lines[i].clone()) {
                Ok(m) => {
                    let ghost shown = m@;
                    messages.push(m);
                    assert(messages_of(messages@) =~= before.push(shown));
                },
                Err(_) => {},
            }
            i += 1;
        }
        assert(all.take(n as int) == all);
        ProcessedLogs { messages, logs_type }
    }
}

/// Puts a newline behind each line.
pub fn chunked(lines: Vec<String>) -> (r: Vec<String>)
    ensures
        texts_of(r@) == with_newlines(texts_of(lines@)),
{
    let n: usize = lines.len();
    let mut out: Vec<String> = Vec::new();
    let mut i: usize = 0;
    while i < n
        invariant
            i <= n,
            n == lines@.len(),
            out@.len() == 2 * i,
            forall|j: int| 0 <= j < 2 * i ==> (#[trigger] out@[j])@ == with_newlines(texts_of(lines@))[j],
        decreases n - i,
    {
        out.push(lines[i].clone());
        out.push(String::from_str("\n"));
        i += 1;
    }
    assert(texts_of(out@) =~= with_newlines(texts_of(lines@)));
    out
}

/// Writes the lines that show the messages into one text, a newline between
/// them.
pub fn join_messages(messages: &Vec<Message>) -> (r: String)
    requires
        all_timed(messages@),
    ensures
        r@ == joined(shown(messages_of(messages@)), "\n"@),
{
    let n: usize = messages.len();
    let mut out = String::new();
    let mut i: usize = 0;
    let ghost all = shown(messages_of(messages@));
    assert(all.take(0) =~= Seq::empty());
    while i < n
        invariant
            i <= n,
            n == messages@.len(),
            all == shown(messages_of(messages@)),
            all_timed(messages@),
            out@ == joined(all.take(i as int), "\n"@),
        decreases n - i,
    {
        assert(all.take(i + 1).drop_last() == all.take(i as int));
        assert(all.take(i + 1).last() == all[i as int]);
        if i > 0 {
            out.append("\n");
        }
        let line = messages[i].to_string();
        out.append(line.as_str());
        assert(out@ =~= joined(all.take(i + 1), "\n"@));
        i += 1;
    }
    assert(all.take(n as int) == all);
    out
}

/// The time of every message of the answer can be written as a date.
pub open spec fn response_timed(r: LogsResponse) -> bool {
    match r.response_type {
        LogsResponseType::Raw(_) => true,
        LogsResponseType::Processed(p) => all_timed(p.messages@),
    }
}

/// The body that an answer makes.
pub open spec fn response_body(r: LogsResponse) -> BodyView {
    match r.response_type {
        LogsResponseType::Raw(lines) => raw_body(texts_of(lines@), r.reverse),
        LogsResponseType::Processed(p) => processed_body(messages_of(p.messages@), p.logs_type, r.reverse),
    }
}

impl LogsResponse {
    /// Makes the answer to a query over the given lines.
    pub fn from_lines(lines: Vec<String>, logs_type: Option<ProcessedLogsType>, reverse: bool) -> (r:
        LogsResponse)
        ensures
            response_timed(r),
            r.reverse == reverse,
            match logs_type {
                None => r.response_type matches LogsResponseType::Raw(l) && l@ == lines@,
                Some(t) => r.response_type matches LogsResponseType::Processed(p) && p.logs_type == t
                    && messages_of(p.messages@) == messages_among(texts_of(lines@)),
            },
            response_body(r) == body_of(texts_of(lines@), logs_type, reverse),
    {
        match logs_type {
            None => LogsResponse { response_type: LogsResponseType::Raw(lines), reverse },
            Some(t) => LogsResponse {
                response_type: LogsResponseType::Processed(ProcessedLogs::parse_raw(lines, t)),
                reverse,
            },
        }
    }

    /// Makes the body of the answer.
    pub fn into_body(self) -> (r: LogsBody)
        requires
            response_timed(self),
        ensures
            r@ == response_body(self),
    {
        let reverse = self.reverse;
        match self.response_type {
            LogsResponseType::Raw(lines) => LogsBody::Chunks(chunked(ordered(lines, reverse))),
            LogsResponseType::Processed(processed) => {
                let logs_type = processed.logs_type;
                let ghost given = processed.messages@;
                let messages = if reverse {
                    reversed(processed.messages)
                } else {
                    processed.messages
                };
                assert(messages_of(messages@) =~= in_order(messages_of(given), reverse));
                match logs_type {
                    ProcessedLogsType::Text => LogsBody::Text(join_messages(&messages)),
                    ProcessedLogsType::Json => LogsBody::Json(messages),
                }
            },
        }
    }
}

/// Answers a query over the given lines.
pub fn respond(lines: Vec<String>, logs_type: Option<ProcessedLogsType>, reverse: bool) -> (r: LogsBody)
    ensures
        r@ == body_of(texts_of(lines@), logs_type, reverse),
{
    LogsResponse::from_lines(lines, logs_type, reverse).into_body()
}

} // verus!
