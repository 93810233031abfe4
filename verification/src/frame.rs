use crate::text::{trim_end, trim_end_of};
use vstd::prelude::*;
use vstd::string::StringSliceAdditionalSpecFns;
use vstd::utf8::encode_utf8;

verus! {

/// The sender part of a protocol line, `nick!user@host`.
#[derive(Debug, Clone)]
pub struct IrcPrefix {
    pub nick: Option<String>,
    pub user: Option<String>,
    pub host: String,
}

/// One protocol line taken apart: its tags in the order of the line, its
/// sender, its command keyword, its channel and the rest of its parameters.
#[derive(Debug, Clone)]
pub struct IrcFrame {
    pub raw: String,
    pub tags: Vec<(String, String)>,
    pub prefix: Option<IrcPrefix>,
    pub command: String,
    pub channel: Option<String>,
    pub params: Option<String>,
}

/// What an `IrcPrefix` holds.
pub ghost struct PrefixView {
    pub nick: Option<Seq<char>>,
    pub user: Option<Seq<char>>,
    pub host: Seq<char>,
}

/// What an `IrcFrame` holds.
pub ghost struct FrameView {
    pub raw: Seq<char>,
    pub tags: Seq<(Seq<char>, Seq<char>)>,
    pub prefix: Option<PrefixView>,
    pub command: Seq<char>,
    pub channel: Option<Seq<char>>,
    pub params: Option<Seq<char>>,
}

/// The characters of an optional string.
pub open spec fn text_of(s: Option<String>) -> Option<Seq<char>> {
    match s {
        Some(t) => Some(t@),
        None => None,
    }
}

/// The characters of each key and value of a list of tags.
pub open spec fn pairs_of(tags: Seq<(String, String)>) -> Seq<(Seq<char>, Seq<char>)> {
    Seq::new(tags.len(), |i: int| (tags[i].0@, tags[i].1@))
}

impl View for IrcPrefix {
    type V = PrefixView;

    open spec fn view(&self) -> PrefixView {
        PrefixView { nick: text_of(self.nick), user: text_of(self.user), host: self.host@ }
    }
}

impl View for IrcFrame {
    type V = FrameView;

    open spec fn view(&self) -> FrameView {
        FrameView {
            raw: self.raw@,
            tags: pairs_of(self.tags@),
            prefix: match self.prefix {
                Some(p) => Some(p@),
                None => None,
            },
            command: self.command@,
            channel: text_of(self.channel),
            params: text_of(self.params),
        }
    }
}

/// What an optional frame holds.
pub open spec fn frame_of(f: Option<IrcFrame>) -> Option<FrameView> {
    match f {
        Some(x) => Some(x@),
        None => None,
    }
}

/// The value of the first tag of `tags` whose key is `key`.
pub open spec fn tag_value(tags: Seq<(Seq<char>, Seq<char>)>, key: Seq<char>) -> Option<Seq<char>>
    decreases tags.len(),
{
    if tags.len() == 0 {
        None
    } else if tags[0].0 == key {
        Some(tags[0].1)
    } else {
        tag_value(tags.drop_first(), key)
    }
}

/// A space is met in `b` before more than `budget` semicolons.
pub open spec fn tag_block_closed(b: Seq<u8>, budget: int) -> bool
    decreases b.len(),
{
    if b.len() == 0 {
        false
    } else if b[0] == 0x20 {
        true
    } else if b[0] == 0x3B {
        budget > 0 && tag_block_closed(b.drop_first(), budget - 1)
    } else {
        tag_block_closed(b.drop_first(), budget)
    }
}

/// The lines that the frame parser takes: at most 65535 bytes, and where the
/// line opens a tag block with `@`, the block ends in a space and holds at most
/// 128 tags.
pub open spec fn within_parser_limits(b: Seq<u8>) -> bool {
    b.len() <= 65535 && (b.len() > 0 && b[0] == 0x40 ==> tag_block_closed(b.drop_first(), 127))
}

/// The frame that the parser of the `tmi` crate reads from a line, where it
/// reads one.
pub uninterp spec fn irc_frame_of(line: Seq<char>) -> Option<FrameView>;

/// The value that the `tmi` crate decodes from an escaped tag value.
pub uninterp spec fn unescaped(value: Seq<char>) -> Seq<char>;

/// Calls `tmi::IrcMessageRef::parse` and copies out what its accessors `raw`,
/// `tags`, `prefix`, `command`, `channel` and `params` give. Believed of it:
/// the outcome depends on the line alone, and a frame keeps the line it was
/// read from. The parser indexes past the end of a tag block that no space
/// closes, keeps at most 128 tags and measures tags in 16 bits, so such lines
/// are kept away from it.
#[verifier::external_body]
pub(crate) fn parse_frame(line: &str) -> (r: Option<IrcFrame>)
    requires
        within_parser_limits(line.spec_bytes()),
    ensures
        frame_of(r) == irc_frame_of(line@),
        r matches Some(f) ==> f.raw@ == line@,
{
    let m = tmi::IrcMessageRef::parse(line)?;
    Some(IrcFrame {
        raw: m.raw().to_owned(),
        tags: m.tags().map(|(k, v)| (k.to_owned(), v.to_owned())).collect(),
        prefix: m.prefix().map(|p| IrcPrefix {
            nick: p.nick.map(str::to_owned),
            user: p.user.map(str::to_owned),
            host: p.host.to_owned(),
        }),
        command: m.command().as_str().to_owned(),
        channel: m.channel().map(str::to_owned),
        params: m.params().map(str::to_owned),
    })
}

/// Calls `tmi::unescape`. Believed of it: the decoded value depends on the
/// escaped value alone.
#[verifier::external_body]
pub(crate) fn unescape(value: &str) -> (r: String)
    ensures
        r@ == unescaped(value@),
{
    tmi::unescape(value)
}

/// The parser of the `twitch_irc` crate reads a protocol message from the line.
pub uninterp spec fn irc_well_formed(line: Seq<char>) -> bool;

/// Calls `twitch_irc::message::IRCMessage::parse` and asks whether it gave a
/// message. Believed of it: the answer depends on the line alone.
#[verifier::external_body]
pub(crate) fn irc_accepts(line: &str) -> (r: bool)
    ensures
        r == irc_well_formed(line@),
{
    twitch_irc::message::IRCMessage::parse(line).is_ok()
}

/// Decides whether the frame parser takes `line`.
pub fn parser_takes(line: &str) -> (r: bool)
    ensures
        r == within_parser_limits(line.spec_bytes()),
{
    let b = line.as_bytes();
    let n: usize = b.len();
    if n > 65535 {
        return false;
    }
    if n == 0 || b[0] != 0x40 {
        return true;
    }
    let mut budget: usize = 127;
    let mut i: usize = 1;
    assert(b@.drop_first() == b@.skip(1));
    while i < n
        invariant
            1 <= i <= n,
            n == b@.len(),
            n <= 65535,
            b@ == line.spec_bytes(),
            b@[0] == 0x40,
            b@.drop_first() == b@.skip(1),
            budget <= 127,
            tag_block_closed(b@.skip(1), 127) == tag_block_closed(b@.skip(i as int), budget as int),
        decreases n - i,
    {
        assert(b@.skip(i as int).drop_first() == b@.skip(i as int + 1));
        assert(b@.skip(i as int)[0] == b@[i as int]);
        if b[i] == 0x20 {
            return true;
        }
        if b[i] == 0x3B {
            if budget == 0 {
                return false;
            }
            budget -= 1;
        }
        i += 1;
    }
    false
}

/// The frame of a raw line: white space at its end does not count, and a line
/// that the parser does not take has no frame.
pub open spec fn frame_of_line(raw: Seq<char>) -> Option<FrameView> {
    let line = trim_end_of(raw);
    if within_parser_limits(encode_utf8(line)) {
        irc_frame_of(line)
    } else {
        None
    }
}

/// Reads the frame of a raw line.
pub fn read_frame(raw: &str) -> (r: Option<IrcFrame>)
    ensures
        frame_of(r) == frame_of_line(raw@),
        r matches Some(f) ==> f.raw@ == trim_end_of(raw@),
{
    let line = trim_end(raw);
    if parser_takes(line) {
        parse_frame(line)
    } else {
        None
    }
}

/// The frame under which a raw line is archived: the frame of the line, where
/// the line without the white space at its end is a well-formed protocol
/// message.
pub open spec fn archive_frame_of(raw: Seq<char>) -> Option<FrameView> {
    if irc_well_formed(trim_end_of(raw)) {
        frame_of_line(raw)
    } else {
        None
    }
}

/// Reads the frame under which a raw line is archived.
pub fn read_archive_frame(raw: &str) -> (r: Option<IrcFrame>)
    ensures
        frame_of(r) == archive_frame_of(raw@),
        r matches Some(f) ==> f.raw@ == trim_end_of(raw@),
{
    if irc_accepts(trim_end(raw)) {
        read_frame(raw)
    } else {
        None
    }
}

} // verus!
