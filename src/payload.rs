//! The content of a notification message.

use vstd::prelude::*;

use crate::matcher::IncomingMessage;
use crate::watch::Candidate;

verus! {

/// The character of a decimal digit.
pub open spec fn digit_char(d: nat) -> char {
    if d == 0 {
        '0'
    } else if d == 1 {
        '1'
    } else if d == 2 {
        '2'
    } else if d == 3 {
        '3'
    } else if d == 4 {
        '4'
    } else if d == 5 {
        '5'
    } else if d == 6 {
        '6'
    } else if d == 7 {
        '7'
    } else if d == 8 {
        '8'
    } else {
        '9'
    }
}

/// The decimal digits of `n`, without leading zeros.
pub open spec fn decimal_spec(n: nat) -> Seq<char>
    decreases n,
{
    if n < 10 {
        seq![digit_char(n)]
    } else {
        decimal_spec(n / 10).push(digit_char(n % 10))
    }
}

fn digit_str(d: u64) -> (r: &'static str)
    requires
        d < 10,
    ensures
        r@ == seq![digit_char(d as nat)],
{
    proof {
        reveal_strlit("0");
        reveal_strlit("1");
        reveal_strlit("2");
        reveal_strlit("3");
        reveal_strlit("4");
        reveal_strlit("5");
        reveal_strlit("6");
        reveal_strlit("7");
        reveal_strlit("8");
        reveal_strlit("9");
    }
    if d == 0 {
        "0"
    } else if d == 1 {
        "1"
    } else if d == 2 {
        "2"
    } else if d == 3 {
        "3"
    } else if d == 4 {
        "4"
    } else if d == 5 {
        "5"
    } else if d == 6 {
        "6"
    } else if d == 7 {
        "7"
    } else if d == 8 {
        "8"
    } else {
        "9"
    }
}

/// `n` written in decimal.
pub fn decimal(n: u64) -> (r: String)
    ensures
        r@ == decimal_spec(n as nat),
    decreases n,
{
    if n < 10 {
        digit_str(n).to_owned()
    } else {
        let mut s = decimal(n / 10);
        s.append(digit_str(n % 10));
        s
    }
}

/// The link to a message: guild, channel and message ID.
pub open spec fn link_spec(guild_id: u64, channel_id: u64, message_id: u64) -> Seq<char> {
    "https://discord.com/channels/"@ + decimal_spec(guild_id as nat) + "/"@ + decimal_spec(
        channel_id as nat,
    ) + "/"@ + decimal_spec(message_id as nat)
}

/// The link to a message.
pub fn message_link(guild_id: u64, channel_id: u64, message_id: u64) -> (r: String)
    ensures
        r@ == link_spec(guild_id, channel_id, message_id),
{
    let mut s = "https://discord.com/channels/".to_owned();
    s.append(decimal(guild_id).as_str());
    s.append("/");
    s.append(decimal(channel_id).as_str());
    s.append("/");
    s.append(decimal(message_id).as_str());
    s
}

/// A notification's title.
pub open spec fn title_spec(keyword: Seq<char>, channel_name: Seq<char>, guild_name: Seq<char>) -> Seq<
    char,
> {
    "Keyword \""@ + keyword + "\" seen in #"@ + channel_name + " ("@ + guild_name + ")"@
}

/// The title of a notification: the keyword, the channel and the guild.
pub fn notification_title(keyword: &str, channel_name: &str, guild_name: &str) -> (r: String)
    ensures
        r@ == title_spec(keyword@, channel_name@, guild_name@),
{
    let mut s = "Keyword \"".to_owned();
    s.append(keyword);
    s.append("\" seen in #");
    s.append(channel_name);
    s.append(" (");
    s.append(guild_name);
    s.append(")");
    s
}

/// What a notification shows.
#[derive(Debug, Clone)]
pub struct NotificationContent {
    /// The title, naming the keyword, the channel and the guild.
    pub title: String,
    /// The link back to the source message.
    pub link: String,
    /// The quoted content of the source message.
    pub description: String,
    /// When the source message was sent.
    pub timestamp: u64,
    /// The source message's author.
    pub author_name: String,
    /// The author's avatar.
    pub author_avatar: String,
}

/// Composes the notification for a candidate. The author's own avatar is
/// shown if the author has one, else `default_avatar`.
pub fn compose_notification(
    candidate: &Candidate,
    message: &IncomingMessage,
    formatted_content: String,
    channel_name: &str,
    guild_name: &str,
    author_name: String,
    author_avatar: Option<String>,
    default_avatar: String,
) -> (r: NotificationContent)
    ensures
        r.title@ == title_spec(candidate.keyword@, channel_name@, guild_name@),
        r.link@ == link_spec(message.guild_id, message.channel_id, message.id),
        r.description == formatted_content,
        r.timestamp == message.timestamp,
        r.author_name == author_name,
        r.author_avatar == (match author_avatar {
            Some(a) => a,
            None => default_avatar,
        }),
{
    NotificationContent {
        title: notification_title(candidate.keyword.as_str(), channel_name, guild_name),
        link: message_link(message.guild_id, message.channel_id, message.id),
        description: formatted_content,
        timestamp: message.timestamp,
        author_name,
        author_avatar: match author_avatar {
            Some(a) => a,
            None => default_avatar,
        },
    }
}

/// The text of an error report.
pub open spec fn error_report_spec(channel_id: u64, user_id: u64, error: Seq<char>) -> Seq<char> {
    "Error in "@ + decimal_spec(channel_id as nat) + " by "@ + decimal_spec(user_id as nat)
        + ": "@ + error
}

/// The text that reports a failure in a channel on behalf of a user.
pub fn error_report_text(channel_id: u64, user_id: u64, error: &str) -> (r: String)
    ensures
        r@ == error_report_spec(channel_id, user_id, error@),
{
    let mut s = "Error in ".to_owned();
    s.append(decimal(channel_id).as_str());
    s.append(" by ");
    s.append(decimal(user_id).as_str());
    s.append(": ");
    s.append(error);
    s
}

} // verus!
