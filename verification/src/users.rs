use crate::frame::{pairs_of, tag_value, FrameView, IrcFrame};
use crate::message::find_tag;
use crate::schema::{
    extract_message_text, message_text_of, type_of_keyword, ChannelIdentifier, MessageType, UserIdentifier,
};
use crate::text::to_chars;
use vstd::prelude::*;
use vstd::string::StringExecFns;

verus! {

/// Who or what a name stands for: a login, or the id that files are kept under.
pub ghost enum NameView {
    Login(Seq<char>),
    Id(Seq<char>),
}

impl<'a> View for UserIdentifier<'a> {
    type V = NameView;

    open spec fn view(&self) -> NameView {
        match *self {
            UserIdentifier::User(s) => NameView::Login(s@),
            UserIdentifier::UserId(s) => NameView::Id(s@),
        }
    }
}

impl<'a> View for ChannelIdentifier<'a> {
    type V = NameView;

    open spec fn view(&self) -> NameView {
        match *self {
            ChannelIdentifier::Channel(s) => NameView::Login(s@),
            ChannelIdentifier::ChannelId(s) => NameView::Id(s@),
        }
    }
}

/// A user, named by login or by id, as a value that owns its text.
#[derive(Debug, Clone)]
pub enum UserKey {
    Login(String),
    Id(String),
}

impl View for UserKey {
    type V = NameView;

    open spec fn view(&self) -> NameView {
        match *self {
            UserKey::Login(s) => NameView::Login(s@),
            UserKey::Id(s) => NameView::Id(s@),
        }
    }
}

impl<'a> UserIdentifier<'a> {
    /// The same name as a value that owns its text.
    pub fn to_key(&self) -> (r: UserKey)
        ensures
            r@ == self@,
    {
        match self {
            UserIdentifier::User(s) => UserKey::Login(String::from_str(s)),
            UserIdentifier::UserId(s) => UserKey::Id(String::from_str(s)),
        }
    }
}

/// The value of a tag, where the tag is there and its value is not empty.
pub open spec fn filled_tag(tags: Seq<(Seq<char>, Seq<char>)>, key: Seq<char>) -> Option<Seq<char>> {
    match tag_value(tags, key) {
        Some(v) => if v.len() > 0 {
            Some(v)
        } else {
            None
        },
        None => None,
    }
}

/// A name taken from an id where there is one, else from a login where there
/// is one.
pub open spec fn id_or_login(id: Option<Seq<char>>, login: Option<Seq<char>>) -> Option<NameView> {
    match id {
        Some(i) => Some(NameView::Id(i)),
        None => match login {
            Some(l) => Some(NameView::Login(l)),
            None => None,
        },
    }
}

/// A text, unless it is empty.
pub open spec fn filled(s: Seq<char>) -> Option<Seq<char>> {
    if s.len() > 0 {
        Some(s)
    } else {
        None
    }
}

/// The login that speaks in a frame, where its sender part names one.
pub open spec fn sender_login(f: FrameView) -> Option<Seq<char>> {
    match f.prefix {
        Some(p) => match p.nick {
            Some(n) => filled(n),
            None => None,
        },
        None => None,
    }
}

/// The login that a frame's parameters carry, where they carry one.
pub open spec fn target_login(f: FrameView) -> Option<Seq<char>> {
    match f.params {
        Some(p) => filled(message_text_of(p)),
        None => None,
    }
}

/// The user under whom a frame is filed. A chat line and a notice belong to
/// the user of their `user-id` tag; a moderation line to that of its
/// `target-user-id` tag. Where the tag is missing the login stands in: the
/// sender's, that of the `login` tag, or the one in the parameters. A deleted
/// message is known by its `login` tag alone. Frames of other commands belong
/// to nobody.
pub open spec fn frame_user(f: FrameView) -> Option<NameView> {
    match type_of_keyword(f.command) {
        Some(MessageType::PrivMsg) => id_or_login(filled_tag(f.tags, "user-id"@), sender_login(f)),
        Some(MessageType::UserNotice) => id_or_login(
            filled_tag(f.tags, "user-id"@),
            filled_tag(f.tags, "login"@),
        ),
        Some(MessageType::ClearChat) => id_or_login(
            filled_tag(f.tags, "target-user-id"@),
            target_login(f),
        ),
        Some(MessageType::ClearMsg) => id_or_login(None, filled_tag(f.tags, "login"@)),
        None => None,
    }
}

/// A channel name without the `#` in front of it.
pub open spec fn bare_channel(c: Seq<char>) -> Seq<char> {
    if c.len() > 0 && c[0] == '#' {
        c.skip(1)
    } else {
        c
    }
}

/// The channel under which a frame is filed: that of its `room-id` tag, else
/// the channel it names by login. Frames of commands that are not kept belong
/// to no channel.
pub open spec fn frame_channel(f: FrameView) -> Option<NameView> {
    if type_of_keyword(f.command) is None {
        None
    } else {
        id_or_login(
            filled_tag(f.tags, "room-id"@),
            match f.channel {
                Some(c) => filled(bare_channel(c)),
                None => None,
            },
        )
    }
}

/// The channel and the user of a frame: none where the frame has no channel,
/// the user beside it where it has one.
pub open spec fn channel_and_user(f: FrameView) -> Option<(NameView, Option<NameView>)> {
    match frame_channel(f) {
        Some(c) => Some((c, frame_user(f))),
        None => None,
    }
}

/// Finds the value of a tag that is there and not empty.
pub fn find_filled_tag<'a>(tags: &'a Vec<(String, String)>, key: &str) -> (r: Option<&'a str>)
    ensures
        match r {
            Some(v) => filled_tag(pairs_of(tags@), key@) == Some(v@),
            None => filled_tag(pairs_of(tags@), key@) is None,
        },
{
    match find_tag(tags, key) {
        Some(v) => if v.as_str().is_empty() {
            None
        } else {
            Some(v.as_str())
        },
        None => None,
    }
}

/// A text, unless it is empty.
fn non_empty<'a>(s: &'a str) -> (r: Option<&'a str>)
    ensures
        match r {
            Some(v) => filled(s@) == Some(v@),
            None => filled(s@) is None,
        },
{
    if s.is_empty() {
        None
    } else {
        Some(s)
    }
}

/// What an optional name holds.
pub open spec fn user_of(u: Option<UserIdentifier>) -> Option<NameView> {
    match u {
        Some(x) => Some(x@),
        None => None,
    }
}

/// What an optional text holds.
pub open spec fn str_of(s: Option<&str>) -> Option<Seq<char>> {
    match s {
        Some(x) => Some(x@),
        None => None,
    }
}

/// Picks the id where there is one, else the login where there is one.
fn pick_user<'a>(id: Option<&'a str>, login: Option<&'a str>) -> (r: Option<UserIdentifier<'a>>)
    ensures
        user_of(r) == id_or_login(str_of(id), str_of(login)),
{
    match id {
        Some(i) => Some(UserIdentifier::UserId(i)),
        None => match login {
            Some(l) => Some(UserIdentifier::User(l)),
            None => None,
        },
    }
}

/// Finds the user under whom a frame is filed.
pub fn extract_user<'a>(frame: &'a IrcFrame) -> (r: Option<UserIdentifier<'a>>)
    ensures
        user_of(r) == frame_user(frame@),
{
    match MessageType::from_keyword(frame.command.as_str()) {
        Some(MessageType::PrivMsg) => {
            let login = match &frame.prefix {
                Some(p) => match &p.nick {
                    Some(n) => non_empty(n.as_str()),
                    None => None,
                },
                None => None,
            };
            pick_user(find_filled_tag(&frame.tags, "user-id"), login)
        },
        Some(MessageType::UserNotice) => pick_user(
            find_filled_tag(&frame.tags, "user-id"),
            find_filled_tag(&frame.tags, "login"),
        ),
        Some(MessageType::ClearChat) => {
            let login = match &frame.params {
                Some(p) => non_empty(extract_message_text(p.as_str())),
                None => None,
            };
            pick_user(find_filled_tag(&frame.tags, "target-user-id"), login)
        },
        Some(MessageType::ClearMsg) => pick_user(None, find_filled_tag(&frame.tags, "login")),
        None => None,
    }
}

/// Takes the `#` from the front of a channel name.
pub fn strip_hash(channel: &str) -> (r: &str)
    ensures
        r@ == bare_channel(channel@),
{
    let chars = to_chars(channel);
    let n: usize = chars.len();
    if n > 0 && chars[0] == '#' {
        channel.substring_char(1, n)
    } else {
        channel
    }
}

/// Finds the channel and the user under which a frame is filed.
pub fn extract_channel_and_user<'a>(frame: &'a IrcFrame) -> (r: Option<
    (ChannelIdentifier<'a>, Option<UserIdentifier<'a>>),
>)
    ensures
        match r {
            Some((c, u)) => channel_and_user(frame@) == Some((c@, user_of(u))),
            None => channel_and_user(frame@) is None,
        },
{
    if MessageType::from_keyword(frame.command.as_str()).is_none() {
        return None;
    }
    let channel = match find_filled_tag(&frame.tags, "room-id") {
        Some(id) => ChannelIdentifier::ChannelId(id),
        None => {
            let login = match &frame.channel {
                Some(c) => non_empty(strip_hash(c.as_str())),
                None => None,
            };
            match login {
                Some(l) => ChannelIdentifier::Channel(l),
                None => {
                    return None;
                },
            }
        },
    };
    Some((channel, extract_user(frame)))
}

} // verus!
