use crate::clock::{timestamp_format, timestamp_pattern, utc_accepts, utc_format, utc_millis_valid, utc_text};
use crate::decimal::{decimal_i64, parse_i64};
use crate::frame::{frame_of_line, pairs_of, read_frame, tag_value, unescape, unescaped, FrameView, IrcFrame};
use crate::schema::{extract_message_text, message_text_of, type_of_keyword, MessageType};
use crate::text::{str_eq, trim_end_of};
use vstd::prelude::*;
use vstd::string::StringExecFns;

verus! {

/// One chat message in the form in which it is handed out.
#[derive(Debug, Clone)]
pub struct Message {
    pub text: String,
    pub username: String,
    pub display_name: String,
    pub channel: String,
    /// Milliseconds since the start of 1970 in UTC.
    pub timestamp: i64,
    pub id: String,
    pub raw: String,
    pub kind: MessageType,
    /// The tags of the line, in its order.
    pub tags: Vec<(String, String)>,
}

/// What a `Message` holds.
pub ghost struct MessageView {
    pub text: Seq<char>,
    pub username: Seq<char>,
    pub display_name: Seq<char>,
    pub channel: Seq<char>,
    pub timestamp: i64,
    pub id: Seq<char>,
    pub raw: Seq<char>,
    pub kind: MessageType,
    pub tags: Seq<(Seq<char>, Seq<char>)>,
}

impl View for Message {
    type V = MessageView;

    open spec fn view(&self) -> MessageView {
        MessageView {
            text: self.text@,
            username: self.username@,
            display_name: self.display_name@,
            channel: self.channel@,
            timestamp: self.timestamp,
            id: self.id@,
            raw: self.raw@,
            kind: self.kind,
            tags: pairs_of(self.tags@),
        }
    }
}

/// Why a line gives no message.
#[derive(Clone, Copy, Debug, PartialEq, Eq, Structural)]
pub enum MessageError {
    /// The line is no protocol frame.
    Malformed,
    NoTags,
    MissingChannel,
    MissingTimestamp,
    InvalidTimestamp,
    NoParams,
    MissingDisplayName,
    NoPrefix,
    MissingNickname,
    MissingId,
    MissingSystemMsg,
    MissingLogin,
    /// The command is none of those that make a message.
    Unsupported,
}

/// The words that name an error.
pub open spec fn error_text(e: MessageError) -> Seq<char> {
    match e {
        MessageError::Malformed => "Malformed message"@,
        MessageError::NoTags => "Message has no tags"@,
        MessageError::MissingChannel => "Missing channel"@,
        MessageError::MissingTimestamp => "Missing timestamp tag"@,
        MessageError::InvalidTimestamp => "Invalid timestamp"@,
        MessageError::NoParams => "Privmsg has no params"@,
        MessageError::MissingDisplayName => "Missing display name tag"@,
        MessageError::NoPrefix => "Message has no prefix"@,
        MessageError::MissingNickname => "Missing nickname"@,
        MessageError::MissingId => "Missing message id tag"@,
        MessageError::MissingSystemMsg => "System message tag missing"@,
        MessageError::MissingLogin => "Missing login tag"@,
        MessageError::Unsupported => "Unsupported message type"@,
    }
}

impl MessageError {
    /// The words that name this error.
    pub fn message(&self) -> (r: &'static str)
        ensures
            r@ == error_text(*self),
    {
        match self {
            MessageError::Malformed => "Malformed message",
            MessageError::NoTags => "Message has no tags",
            MessageError::MissingChannel => "Missing channel",
            MessageError::MissingTimestamp => "Missing timestamp tag",
            MessageError::InvalidTimestamp => "Invalid timestamp",
            MessageError::NoParams => "Privmsg has no params",
            MessageError::MissingDisplayName => "Missing display name tag",
            MessageError::NoPrefix => "Message has no prefix",
            MessageError::MissingNickname => "Missing nickname",
            MessageError::MissingId => "Missing message id tag",
            MessageError::MissingSystemMsg => "System message tag missing",
            MessageError::MissingLogin => "Missing login tag",
            MessageError::Unsupported => "Unsupported message type",
        }
    }
}

/// The tags with each value decoded.
pub open spec fn decoded_pairs(tags: Seq<(Seq<char>, Seq<char>)>) -> Seq<(Seq<char>, Seq<char>)> {
    Seq::new(tags.len(), |i: int| (tags[i].0, unescaped(tags[i].1)))
}

/// The time that a frame was sent at, in milliseconds, or why it has none.
pub open spec fn sent_stamp(f: FrameView) -> Result<i64, MessageError> {
    if f.tags.len() == 0 {
        Err(MessageError::NoTags)
    } else if f.channel is None {
        Err(MessageError::MissingChannel)
    } else {
        match tag_value(f.tags, "tmi-sent-ts"@) {
            None => Err(MessageError::MissingTimestamp),
            Some(v) => match decimal_i64(v) {
                None => Err(MessageError::InvalidTimestamp),
                Some(ms) => Ok(ms),
            },
        }
    }
}

/// Whether the time of a frame is one that can be written as a date.
pub open spec fn stamp_accepted(f: FrameView) -> bool {
    match sent_stamp(f) {
        Ok(ms) => utc_accepts(ms as int),
        Err(_) => false,
    }
}

/// The message that a chat line makes.
pub open spec fn privmsg_of(f: FrameView, ms: i64) -> Result<MessageView, MessageError> {
    if f.params is None {
        Err(MessageError::NoParams)
    } else if tag_value(f.tags, "display-name"@) is None {
        Err(MessageError::MissingDisplayName)
    } else if f.prefix is None {
        Err(MessageError::NoPrefix)
    } else if f.prefix->0.nick is None {
        Err(MessageError::MissingNickname)
    } else if tag_value(f.tags, "id"@) is None {
        Err(MessageError::MissingId)
    } else {
        Ok(
            MessageView {
                text: message_text_of(f.params->0),
                username: f.prefix->0.nick->0,
                display_name: tag_value(f.tags, "display-name"@)->0,
                channel: f.channel->0,
                timestamp: ms,
                id: tag_value(f.tags, "id"@)->0,
                raw: f.raw,
                kind: MessageType::PrivMsg,
                tags: f.tags,
            },
        )
    }
}

/// The words that tell of a cleared chat, a ban or a timeout.
pub open spec fn clearchat_text(f: FrameView) -> Seq<char> {
    match f.params {
        None => "Chat has been cleared"@,
        Some(login) => match tag_value(f.tags, "ban-duration"@) {
            Some(duration) => login + " has been timed out for "@ + duration + " seconds"@,
            None => login + " has been banned"@,
        },
    }
}

/// The message that a moderation line makes.
pub open spec fn clearchat_of(f: FrameView, ms: i64) -> MessageView {
    let login = match f.params {
        Some(l) => l,
        None => Seq::<char>::empty(),
    };
    MessageView {
        text: clearchat_text(f),
        username: login,
        display_name: login,
        channel: f.channel->0,
        timestamp: ms,
        id: Seq::<char>::empty(),
        raw: f.raw,
        kind: MessageType::ClearChat,
        tags: f.tags,
    }
}

/// The message that a notice line makes, given its tags with decoded values.
pub open spec fn usernotice_of(f: FrameView, ms: i64, decoded: Seq<(Seq<char>, Seq<char>)>) -> Result<
    MessageView,
    MessageError,
> {
    if tag_value(decoded, "system-msg"@) is None {
        Err(MessageError::MissingSystemMsg)
    } else if tag_value(f.tags, "display-name"@) is None {
        Err(MessageError::MissingDisplayName)
    } else if tag_value(f.tags, "login"@) is None {
        Err(MessageError::MissingLogin)
    } else if tag_value(f.tags, "id"@) is None {
        Err(MessageError::MissingId)
    } else {
        let system = tag_value(decoded, "system-msg"@)->0;
        Ok(
            MessageView {
                text: match f.params {
                    Some(p) => system + " "@ + message_text_of(p),
                    None => system,
                },
                username: tag_value(f.tags, "login"@)->0,
                display_name: tag_value(f.tags, "display-name"@)->0,
                channel: f.channel->0,
                timestamp: ms,
                id: tag_value(f.tags, "id"@)->0,
                raw: f.raw,
                kind: MessageType::UserNotice,
                tags: decoded,
            },
        )
    }
}

/// The message that a frame makes or the reason why it makes none, given
/// whether its time can be written as a date and its tags with decoded values.
pub open spec fn message_outcome(f: FrameView, accepted: bool, decoded: Seq<(Seq<char>, Seq<char>)>) -> Result<
    MessageView,
    MessageError,
> {
    match sent_stamp(f) {
        Err(e) => Err(e),
        Ok(ms) => if !accepted {
            Err(MessageError::InvalidTimestamp)
        } else {
            match type_of_keyword(f.command) {
                Some(MessageType::PrivMsg) => privmsg_of(f, ms),
                Some(MessageType::ClearChat) => Ok(clearchat_of(f, ms)),
                Some(MessageType::UserNotice) => usernotice_of(f, ms, decoded),
                _ => Err(MessageError::Unsupported),
            }
        },
    }
}

/// What the result of reading a message holds.
pub open spec fn outcome_of(r: Result<Message, MessageError>) -> Result<MessageView, MessageError> {
    match r {
        Ok(m) => Ok(m@),
        Err(e) => Err(e),
    }
}

/// The message that a frame makes or the reason why it makes none.
pub open spec fn frame_outcome(f: FrameView) -> Result<MessageView, MessageError> {
    message_outcome(f, stamp_accepted(f), decoded_pairs(f.tags))
}

/// The message that a raw line makes or the reason why it makes none.
pub open spec fn line_outcome(raw: Seq<char>) -> Result<MessageView, MessageError> {
    match frame_of_line(raw) {
        None => Err(MessageError::Malformed),
        Some(f) => frame_outcome(f),
    }
}

/// The line of text that shows a message.
pub open spec fn message_line(m: MessageView) -> Seq<char> {
    let head = "["@ + utc_text(m.timestamp as int, timestamp_pattern()) + "] "@ + m.channel + " "@;
    if m.username.len() > 0 {
        head + m.username + ": "@ + m.text
    } else {
        head + m.text
    }
}

/// Finds the value of the first tag whose key is `key`.
pub fn find_tag<'a>(tags: &'a Vec<(String, String)>, key: &str) -> (r: Option<&'a String>)
    ensures
        match r {
            Some(v) => tag_value(pairs_of(tags@), key@) == Some(v@),
            None => tag_value(pairs_of(tags@), key@) is None,
        },
{
    let ghost pairs = pairs_of(tags@);
    let n: usize = tags.len();
    let mut i: usize = 0;
    assert(pairs.skip(0) == pairs);
    while i < n
        invariant
            i <= n,
            n == tags@.len(),
            pairs == pairs_of(tags@),
            tag_value(pairs, key@) == tag_value(pairs.skip(i as int), key@),
        decreases n - i,
    {
        assert(pairs.skip(i as int).drop_first() == pairs.skip(i as int + 1));
        assert(pairs.skip(i as int)[0] == pairs[i as int]);
        if str_eq(tags[i].0.as_str(), key) {
            return Some(&tags[i].1);
        }
        i += 1;
    }
    None
}

/// Copies a list of tags.
pub fn clone_tags(tags: &Vec<(String, String)>) -> (r: Vec<(String, String)>)
    ensures
        pairs_of(r@) == pairs_of(tags@),
{
    let n: usize = tags.len();
    let mut out: Vec<(String, String)> = Vec::new();
    let mut i: usize = 0;
    while i < n
        invariant
            i <= n,
            n == tags@.len(),
            out@.len() == i,
            forall|j: int| 0 <= j < i ==> pairs_of(out@)[j] == #[trigger] pairs_of(tags@)[j],
        decreases n - i,
    {
        out.push((tags[i].0.clone(), tags[i].1.clone()));
        i += 1;
    }
    assert(pairs_of(out@) =~= pairs_of(tags@));
    out
}

/// Decodes the value of every tag.
pub fn decode_tags(tags: &Vec<(String, String)>) -> (r: Vec<(String, String)>)
    ensures
        pairs_of(r@) == decoded_pairs(pairs_of(tags@)),
{
    let n: usize = tags.len();
    let mut out: Vec<(String, String)> = Vec::new();
    let mut i: usize = 0;
    while i < n
        invariant
            i <= n,
            n == tags@.len(),
            out@.len() == i,
            forall|j: int| 0 <= j < i ==> pairs_of(out@)[j] == #[trigger] decoded_pairs(pairs_of(tags@))[j],
        decreases n - i,
    {
        out.push((tags[i].0.clone(), unescape(tags[i].1.as_str())));
        i += 1;
    }
    assert(pairs_of(out@) =~= decoded_pairs(pairs_of(tags@)));
    out
}

/// Reads the time that a frame was sent at.
pub fn sent_millis(frame: &IrcFrame) -> (r: Result<i64, MessageError>)
    ensures
        r == sent_stamp(frame@),
{
    if frame.tags.len() == 0 {
        return Err(MessageError::NoTags);
    }
    if frame.channel.is_none() {
        return Err(MessageError::MissingChannel);
    }
    match find_tag(&frame.tags, "tmi-sent-ts") {
        None => Err(MessageError::MissingTimestamp),
        Some(v) => match parse_i64(v.as_str()) {
            None => Err(MessageError::InvalidTimestamp),
            Some(ms) => Ok(ms),
        },
    }
}

/// The text of an optional string, empty where there is none.
fn owned_or_empty(s: &Option<String>) -> (r: String)
    ensures
        r@ == match *s {
            Some(t) => t@,
            None => Seq::<char>::empty(),
        },
{
    match s {
        Some(t) => t.clone(),
        None => String::new(),
    }
}

/// Writes the words that tell of a cleared chat, a ban or a timeout.
fn clearchat_words(frame: &IrcFrame) -> (r: String)
    ensures
        r@ == clearchat_text(frame@),
{
    match &frame.params {
        None => String::from_str("Chat has been cleared"),
        Some(login) => {
            let mut out = login.clone();
            match find_tag(&frame.tags, "ban-duration") {
                Some(duration) => {
                    out.append(" has been timed out for ");
                    out.append(duration.as_str());
                    out.append(" seconds");
                },
                None => {
                    out.append(" has been banned");
                },
            }
            out
        },
    }
}

impl Message {
    /// Builds the message of a frame from the frame, from whether its time can
    /// be written as a date, and from its tags with decoded values, which only
    /// a notice reads.
    pub fn assemble(frame: &IrcFrame, accepted: bool, decoded: Vec<(String, String)>) -> (r: Result<
        Message,
        MessageError,
    >)
        ensures
            outcome_of(r) == message_outcome(frame@, accepted, pairs_of(decoded@)),
    {
        let timestamp = match sent_millis(frame) {
            Err(e) => {
                return Err(e);
            },
            Ok(ms) => ms,
        };
        if !accepted {
            return Err(MessageError::InvalidTimestamp);
        }
        let channel = match &frame.channel {
            Some(c) => c.clone(),
            None => {
                return Err(MessageError::MissingChannel);
            },
        };
        match MessageType::from_keyword(frame.command.as_str()) {
            Some(MessageType::PrivMsg) => {
                let params = match &frame.params {
                    Some(p) => p,
                    None => {
                        return Err(MessageError::NoParams);
                    },
                };
                let text = extract_message_text(params.as_str());
                let display_name = match find_tag(&frame.tags, "display-name") {
                    Some(v) => v,
                    None => {
                        return Err(MessageError::MissingDisplayName);
                    },
                };
                let prefix = match &frame.prefix {
                    Some(p) => p,
                    None => {
                        return Err(MessageError::NoPrefix);
                    },
                };
                let username = match &prefix.nick {
                    Some(n) => n,
                    None => {
                        return Err(MessageError::MissingNickname);
                    },
                };
                let id = match find_tag(&frame.tags, "id") {
                    Some(v) => v,
                    None => {
                        return Err(MessageError::MissingId);
                    },
                };
                Ok(
                    Message {
                        text: String::from_str(text),
                        username: username.clone(),
                        display_name: display_name.clone(),
                        channel,
                        timestamp,
                        id: id.clone(),
                        raw: frame.raw.clone(),
                        kind: MessageType::PrivMsg,
                        tags: clone_tags(&frame.tags),
                    },
                )
            },
            Some(MessageType::ClearChat) => {
                Ok(
                    Message {
                        text: clearchat_words(frame),
                        username: owned_or_empty(&frame.params),
                        display_name: owned_or_empty(&frame.params),
                        channel,
                        timestamp,
                        id: String::new(),
                        raw: frame.raw.clone(),
                        kind: MessageType::ClearChat,
                        tags: clone_tags(&frame.tags),
                    },
                )
            },
            Some(MessageType::UserNotice) => {
                let mut text = match find_tag(&decoded, "system-msg") {
                    Some(v) => v.clone(),
                    None => {
                        return Err(MessageError::MissingSystemMsg);
                    },
                };
                match &frame.params {
                    Some(p) => {
                        text.append(" ");
                        text.append(extract_message_text(p.as_str()));
                    },
                    None => {},
                }
                let display_name = match find_tag(&frame.tags, "display-name") {
                    Some(v) => v,
                    None => {
                        return Err(MessageError::MissingDisplayName);
                    },
                };
                let username = match find_tag(&frame.tags, "login") {
                    Some(v) => v,
                    None => {
                        return Err(MessageError::MissingLogin);
                    },
                };
                let id = match find_tag(&frame.tags, "id") {
                    Some(v) => v,
                    None => {
                        return Err(MessageError::MissingId);
                    },
                };
                Ok(
                    Message {
                        text,
                        username: username.clone(),
                        display_name: display_name.clone(),
                        channel,
                        timestamp,
                        id: id.clone(),
                        raw: frame.raw.clone(),
                        kind: MessageType::UserNotice,
                        tags: decoded,
                    },
                )
            },
            _ => Err(MessageError::Unsupported),
        }
    }

    /// Builds the message of a frame.
    pub fn from_irc_message(frame: &IrcFrame) -> (r: Result<Message, MessageError>)
        ensures
            outcome_of(r) == frame_outcome(frame@),
            r matches Ok(m) ==> utc_accepts(m.timestamp as int) && m.raw@ == frame.raw@,
    {
        let accepted = match sent_millis(frame) {
            Ok(ms) => utc_millis_valid(ms),
            Err(_) => false,
        };
        let decoded = match MessageType::from_keyword(frame.command.as_str()) {
            Some(MessageType::UserNotice) => decode_tags(&frame.tags),
            _ => Vec::new(),
        };
        Message::assemble(frame, accepted, decoded)
    }

    /// Reads a message from a raw line. White space at the end of the line
    /// does not count.
    pub fn parse_from_raw_irc(raw: String) -> (r: Result<Message, MessageError>)
        ensures
            outcome_of(r) == line_outcome(raw@),
            r matches Ok(m) ==> utc_accepts(m.timestamp as int) && m.raw@ == trim_end_of(raw@),
    {
        match read_frame(raw.as_str()) {
            None => Err(MessageError::Malformed),
            Some(frame) => Message::from_irc_message(&frame),
        }
    }

    /// Decides whether the time of this message can be written as a date.
    pub fn is_timed(&self) -> (r: bool)
        ensures
            r == utc_accepts(self.timestamp as int),
    {
        utc_millis_valid(self.timestamp)
    }

    /// Writes the line of text that shows this message.
    pub fn to_string(&self) -> (r: String)
        requires
            utc_accepts(self.timestamp as int),
        ensures
            r@ == message_line(self@),
    {
        let mut out = String::from_str("[");
        out.append(utc_format(self.timestamp, timestamp_format()).as_str());
        out.append("] ");
        out.append(self.channel.as_str());
        out.append(" ");
        if !self.username.as_str().is_empty() {
            out.append(self.username.as_str());
            out.append(": ");
        }
        out.append(self.text.as_str());
        out
    }
}

/// Reads a message from a raw line and writes the line of text that shows it;
/// nothing where the line makes no message.
pub fn format_line(raw: String) -> (r: Option<String>)
    ensures
        match line_outcome(raw@) {
            Ok(m) => r matches Some(t) && t@ == message_line(m),
            Err(_) => r is None,
        },
{
    match Message::parse_from_raw_irc(raw) {
        Ok(m) => Some(m.to_string()),
        Err(_) => None,
    }
}

} // verus!
