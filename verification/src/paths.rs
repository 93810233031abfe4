use crate::decimal::{decimal, digits_of};
use crate::schema::{ChannelLogDate, UserLogDate};
use vstd::prelude::*;
use vstd::string::StringExecFns;

verus! {

/// The directory of one month of a channel, with the slash behind it.
pub open spec fn month_dir(root: Seq<char>, channel_id: Seq<char>, year: Seq<char>, month: Seq<char>) -> Seq<
    char,
> {
    root + "/"@ + channel_id + "/"@ + year + "/"@ + month + "/"@
}

/// The path of the file of one day of a channel; that of its compressed
/// sibling where that is asked for.
pub open spec fn channel_path(
    root: Seq<char>,
    channel_id: Seq<char>,
    year: Seq<char>,
    month: Seq<char>,
    day: Seq<char>,
    compressed: bool,
) -> Seq<char> {
    let plain = month_dir(root, channel_id, year, month) + day + ".txt"@;
    if compressed {
        plain + ".gz"@
    } else {
        plain
    }
}

/// The path of the directory that holds the user indexes of one month of a
/// channel.
pub open spec fn users_path(root: Seq<char>, channel_id: Seq<char>, year: Seq<char>, month: Seq<char>) -> Seq<
    char,
> {
    month_dir(root, channel_id, year, month) + "users/"@
}

/// The path of the index of one user for one month of a channel.
pub open spec fn user_index_path(
    root: Seq<char>,
    channel_id: Seq<char>,
    year: Seq<char>,
    month: Seq<char>,
    user_id: Seq<char>,
) -> Seq<char> {
    users_path(root, channel_id, year, month) + user_id + ".indexes"@
}

/// Writes the directory of one month of a channel.
fn get_month_dir(root: &str, channel_id: &str, year: &str, month: &str) -> (r: String)
    ensures
        r@ == month_dir(root@, channel_id@, year@, month@),
{
    let mut out = String::from_str(root);
    out.append("/");
    out.append(channel_id);
    out.append("/");
    out.append(year);
    out.append("/");
    out.append(month);
    out.append("/");
    out
}

/// Writes the path of the file of one day of a channel.
pub fn get_channel_path(root: &str, channel_id: &str, year: &str, month: &str, day: &str, compressed: bool) -> (r:
    String)
    ensures
        r@ == channel_path(root@, channel_id@, year@, month@, day@, compressed),
{
    let mut out = get_month_dir(root, channel_id, year, month);
    out.append(day);
    out.append(".txt");
    if compressed {
        out.append(".gz");
    }
    out
}

/// Writes the path of the directory of the user indexes of one month.
pub fn get_users_path(root: &str, channel_id: &str, year: &str, month: &str) -> (r: String)
    ensures
        r@ == users_path(root@, channel_id@, year@, month@),
{
    let mut out = get_month_dir(root, channel_id, year, month);
    out.append("users/");
    out
}

/// Writes the path of the index of one user for one month.
pub fn get_user_index_path(root: &str, channel_id: &str, year: &str, month: &str, user_id: &str) -> (r: String)
    ensures
        r@ == user_index_path(root@, channel_id@, year@, month@, user_id@),
{
    let mut out = get_users_path(root, channel_id, year, month);
    out.append(user_id);
    out.append(".indexes");
    out
}

/// Writes the path of the file of a day; year, month and day stand in it as
/// plain numbers.
pub fn channel_day_path(root: &str, channel_id: &str, date: &ChannelLogDate, compressed: bool) -> (r: String)
    ensures
        r@ == channel_path(
            root@,
            channel_id@,
            digits_of(date.year as nat),
            digits_of(date.month as nat),
            digits_of(date.day as nat),
            compressed,
        ),
{
    get_channel_path(
        root,
        channel_id,
        decimal(date.year as u64).as_str(),
        decimal(date.month as u64).as_str(),
        decimal(date.day as u64).as_str(),
        compressed,
    )
}

/// Writes the path of the index of a user for a month; year and month stand in
/// it as plain numbers.
pub fn user_month_path(root: &str, channel_id: &str, date: &UserLogDate, user_id: &str) -> (r: String)
    ensures
        r@ == user_index_path(
            root@,
            channel_id@,
            digits_of(date.year as nat),
            digits_of(date.month as nat),
            user_id@,
        ),
{
    get_user_index_path(
        root,
        channel_id,
        decimal(date.year as u64).as_str(),
        decimal(date.month as u64).as_str(),
        user_id,
    )
}

} // verus!
