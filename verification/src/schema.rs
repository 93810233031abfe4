use crate::decimal::{decimal, digits_of, two_digits, two_digits_of};
use crate::text::{has_prefix, starts_with, to_chars, trim_start, trim_start_of};
use vstd::prelude::*;
use vstd::string::StringExecFns;

verus! {

/// The day that one channel file covers.
#[derive(Clone, Copy, Debug, PartialEq, Eq, Structural)]
pub struct ChannelLogDate {
    pub year: u32,
    pub month: u32,
    pub day: u32,
}

/// The month that one user index covers.
#[derive(Clone, Copy, Debug, PartialEq, Eq, Structural)]
pub struct UserLogDate {
    pub year: u32,
    pub month: u32,
}

/// A user, named by login or by id.
#[derive(Debug, Clone, Copy)]
pub enum UserIdentifier<'a> {
    User(&'a str),
    UserId(&'a str),
}

/// A channel, named by login or by id.
#[derive(Debug, Clone, Copy)]
pub enum ChannelIdentifier<'a> {
    Channel(&'a str),
    ChannelId(&'a str),
}

/// The kinds of message that are kept.
#[derive(Clone, Copy, Debug, PartialEq, Eq, Structural)]
pub enum MessageType {
    PrivMsg,
    ClearChat,
    UserNotice,
    ClearMsg,
}

/// The text form of a day: the year, then month and day with two digits each.
pub open spec fn date_text(d: ChannelLogDate) -> Seq<char> {
    digits_of(d.year as nat) + seq!['-'] + two_digits_of(d.month as nat) + seq!['-']
        + two_digits_of(d.day as nat)
}

impl ChannelLogDate {
    /// Writes the day as `YYYY-MM-DD`.
    pub fn to_string(&self) -> (r: String)
        ensures
            r@ == date_text(*self),
    {
        proof {
            reveal_strlit("-");
        }
        let mut out = decimal(self.year as u64);
        out.append("-");
        out.append(two_digits(self.month).as_str());
        out.append("-");
        out.append(two_digits(self.day).as_str());
        assert(out@ =~= date_text(*self));
        out
    }
}

/// The number that stands for a kind of message on the wire.
pub open spec fn type_code(t: MessageType) -> int {
    match t {
        MessageType::PrivMsg => 1,
        MessageType::ClearChat => 2,
        MessageType::UserNotice => 4,
        MessageType::ClearMsg => 13,
    }
}

/// The kind of message that a command keyword names, if it names one.
pub open spec fn type_of_keyword(k: Seq<char>) -> Option<MessageType> {
    if k == "PRIVMSG"@ {
        Some(MessageType::PrivMsg)
    } else if k == "CLEARCHAT"@ {
        Some(MessageType::ClearChat)
    } else if k == "USERNOTICE"@ {
        Some(MessageType::UserNotice)
    } else if k == "CLEARMSG"@ {
        Some(MessageType::ClearMsg)
    } else {
        None
    }
}

impl MessageType {
    /// The number that stands for this kind on the wire.
    pub fn code(&self) -> (r: i8)
        ensures
            r == type_code(*self),
    {
        match self {
            MessageType::PrivMsg => 1,
            MessageType::ClearChat => 2,
            MessageType::UserNotice => 4,
            MessageType::ClearMsg => 13,
        }
    }

    /// Reads a kind from its command keyword, in upper case.
    pub fn from_keyword(k: &str) -> (r: Option<MessageType>)
        ensures
            r == type_of_keyword(k@),
    {
        if crate::text::str_eq(k, "PRIVMSG") {
            Some(MessageType::PrivMsg)
        } else if crate::text::str_eq(k, "CLEARCHAT") {
            Some(MessageType::ClearChat)
        } else if crate::text::str_eq(k, "USERNOTICE") {
            Some(MessageType::UserNotice)
        } else if crate::text::str_eq(k, "CLEARMSG") {
            Some(MessageType::ClearMsg)
        } else {
            None
        }
    }
}

/// Whether messages under the command keyword `k` are kept.
pub open spec fn is_archivable(k: Seq<char>) -> bool {
    type_of_keyword(k) is Some
}

/// Decides whether messages under the command keyword `k` are kept.
pub fn archivable(k: &str) -> (r: bool)
    ensures
        r == is_archivable(k@),
{
    MessageType::from_keyword(k).is_some()
}

/// The opening of an action message.
pub open spec fn action_prefix() -> Seq<char> {
    "\u{1}ACTION "@
}

/// The text that a message's parameters carry: leading white space and one
/// leading colon are dropped, and so is the frame of an action where the text
/// has both its opening and its closing mark.
pub open spec fn message_text_of(s: Seq<char>) -> Seq<char> {
    let t = trim_start_of(s);
    let u = if t.len() > 0 && t[0] == ':' {
        t.skip(1)
    } else {
        t
    };
    if has_prefix(u, action_prefix()) && u.last() == '\u{1}' {
        u.subrange(8, u.len() - 1)
    } else {
        u
    }
}

/// Takes the text out of a message's parameters.
pub fn extract_message_text(message_text: &str) -> (r: &str)
    ensures
        r@ == message_text_of(message_text@),
{
    let t = trim_start(message_text);
    let chars = to_chars(t);
    let n: usize = chars.len();
    let (u, m): (&str, usize) = if n > 0 && chars[0] == ':' {
        (t.substring_char(1, n), (n - 1) as usize)
    } else {
        assert(t@.subrange(0, n as int) == t@);
        (t.substring_char(0, n), n)
    };
    assert(u@ == if t@.len() > 0 && t@[0] == ':' {
        t@.skip(1)
    } else {
        t@
    });
    assert(m == u@.len());
    proof {
        reveal_strlit("\u{1}ACTION ");
    }
    if starts_with(u, "\u{1}ACTION ") {
        assert(u@[7] == u@.subrange(0, 8)[7]);
        assert(u@.last() == chars@[n - 1]);
        if chars[n - 1] == '\u{1}' {
            return u.substring_char(8, m - 1);
        }
    }
    u
}

} // verus!
