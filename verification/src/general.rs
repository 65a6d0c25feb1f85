//! The general commands' decisions and replies: `avatar`, `serverinfo`,
//! `ping`, `user`, `uptime`, and the owner's `usage`.
use vstd::prelude::*;

use crate::external::{push_safe, safe_text};
use crate::text::{append, append_str, chars_of, decimal, render_u64, signed_decimal, render_i64, string_of};

verus! {

/// What the commands know of a Discord user.
pub struct Profile {
    pub id: u64,
    pub name: String,
    /// `name#discriminator`, as Discord shows it.
    pub tag: String,
    /// The user's own avatar, if they set one.
    pub avatar_url: Option<String>,
    /// The avatar Discord gives users without one.
    pub default_avatar_url: String,
    pub bot: bool,
}

/// The avatar shown for `user`: their own, or else the default one.
pub open spec fn avatar_of(user: Profile) -> Seq<char> {
    match user.avatar_url {
        Some(u) => u@,
        None => user.default_avatar_url@,
    }
}

/// The avatar shown for `user`.
pub fn avatar_url(user: &Profile) -> (r: String)
    ensures
        r@ == avatar_of(*user),
{
    match &user.avatar_url {
        Some(u) => u.clone(),
        None => user.default_avatar_url.clone(),
    }
}

/// The embed the `avatar` command sends.
pub struct AvatarCard {
    pub title: String,
    pub image: String,
    pub author_icon: String,
    pub author_name: String,
}

/// The `avatar` command's embed for `user`: titled "Avatar", showing their
/// avatar, under their avatar and tag.
pub fn avatar(user: &Profile) -> (r: AvatarCard)
    ensures
        r.title@ == "Avatar"@,
        r.image@ == avatar_of(*user),
        r.author_icon@ == avatar_of(*user),
        r.author_name@ == user.tag@,
{
    let url = avatar_url(user);
    AvatarCard {
        title: String::from_str("Avatar"),
        image: url.clone(),
        author_icon: url,
        author_name: user.tag.clone(),
    }
}

/// Whose avatar the `avatar` command shows.
#[derive(PartialEq, Eq, Structural, Clone, Copy, Debug)]
pub enum Target {
    /// The first user the message mentions.
    Mentioned,
    /// The user with this id, to be looked up.
    ById(u64),
    /// The author of the message.
    Author,
}

/// Picks the user a command is about: the first one mentioned, else the one
/// whose id is the first argument, else the author.
pub fn get_mentioned_user_or_sender(mentions: usize, id_argument: Option<u64>) -> (r: Target)
    ensures
        mentions > 0 ==> r == Target::Mentioned,
        mentions == 0 ==> r == (match id_argument {
            Some(id) => Target::ById(id),
            None => Target::Author,
        }),
{
    if mentions > 0 {
        Target::Mentioned
    } else {
        match id_argument {
            Some(id) => Target::ById(id),
            None => Target::Author,
        }
    }
}

/// The reply when no user has the id given.
pub fn unknown_user_reply(id: u64) -> (r: String)
    ensures
        r@ == "I'm sorry, but I couldn't find a user by the id "@ + decimal(id as nat),
{
    let mut out = chars_of("I'm sorry, but I couldn't find a user by the id ");
    let d = render_u64(id);
    append(&mut out, &d);
    string_of(&out)
}

/// The number of bots among `members`.
pub open spec fn bot_count(members: Seq<bool>) -> nat
    decreases members.len(),
{
    if members.len() == 0 {
        0
    } else {
        bot_count(members.drop_last()) + if members.last() {
            1nat
        } else {
            0nat
        }
    }
}

/// The member counts the `serverinfo` command shows.
pub struct ServerInfo {
    pub users: u64,
    pub bots: u64,
    /// "N (U users, B bots)".
    pub members: String,
}

/// Counts the members of a server, given whether each is a bot.
pub fn serverinfo(members: &Vec<bool>) -> (r: ServerInfo)
    ensures
        r.bots == bot_count(members@),
        r.users + r.bots == members@.len(),
        r.members@ == decimal(members@.len() as nat) + " ("@ + decimal(r.users as nat) + " users, "@
            + decimal(r.bots as nat) + " bots)"@,
{
    let mut users: u64 = 0;
    let mut bots: u64 = 0;
    for i in 0..members.len()
        invariant
            bots == bot_count(members@.take(i as int)),
            users + bots == i,
    {
        assert(members@.take(i + 1).drop_last() == members@.take(i as int));
        if members[i] {
            bots = bots + 1;
        } else {
            users = users + 1;
        }
    }
    assert(members@.take(members@.len() as int) == members@);
    let mut out = render_u64(users + bots);
    append_str(&mut out, " (");
    let u = render_u64(users);
    append(&mut out, &u);
    append_str(&mut out, " users, ");
    let b = render_u64(bots);
    append(&mut out, &b);
    append_str(&mut out, " bots)");
    ServerInfo { users, bots, members: string_of(&out) }
}

/// The `ping` command's reply: the shard's latency in milliseconds, or
/// that it is not known yet.
pub fn ping(bot_name: &str, latency_ms: Option<u64>) -> (r: String)
    ensures
        r@ == (match latency_ms {
            Some(ms) => bot_name@ + "'s ping is "@ + decimal(ms as nat) + "ms"@,
            None => "Unable to get latency, try again later"@,
        }),
{
    match latency_ms {
        Some(ms) => {
            let mut out = chars_of(bot_name);
            append_str(&mut out, "'s ping is ");
            let d = render_u64(ms);
            append(&mut out, &d);
            append_str(&mut out, "ms");
            string_of(&out)
        },
        None => String::from_str("Unable to get latency, try again later"),
    }
}

/// The link to a message, which exists only for messages in a server.
pub fn message_link(guild: Option<u64>, channel: u64, message: u64) -> (r: Result<String, &'static str>)
    ensures
        match guild {
            Some(g) => r matches Ok(s) && s@ == "https://discordapp.com/channels/"@ + decimal(g as nat)
                + "/"@ + decimal(channel as nat) + "/"@ + decimal(message as nat),
            None => r matches Err(e) && e@ == "Message not received over gateway"@,
        },
{
    match guild {
        Some(g) => {
            let mut out = chars_of("https://discordapp.com/channels/");
            let a = render_u64(g);
            append(&mut out, &a);
            append_str(&mut out, "/");
            let b = render_u64(channel);
            append(&mut out, &b);
            append_str(&mut out, "/");
            let c = render_u64(message);
            append(&mut out, &c);
            Ok(string_of(&out))
        },
        None => Err("Message not received over gateway"),
    }
}

/// Whom the `user` command describes.
#[derive(PartialEq, Eq, Structural, Clone, Copy, Debug)]
pub enum Subject {
    Author,
    FirstMention,
}

/// The `user` command describes the author when given no arguments, and
/// otherwise the first user mentioned, of whom there must be one.
pub fn user(args_empty: bool, mentions: usize) -> (r: Subject)
    requires
        args_empty || mentions > 0,
    ensures
        r == (if args_empty {
            Subject::Author
        } else {
            Subject::FirstMention
        }),
{
    if args_empty {
        Subject::Author
    } else {
        Subject::FirstMention
    }
}

/// How a member is named at the head of their description: their
/// nickname and name, made safe, or their name alone.
pub fn member_info(nick: Option<&str>, name: &str) -> (r: String)
    ensures
        r@ == (match nick {
            Some(n) => safe_text(n@) + " ("@ + safe_text(name@) + ")"@,
            None => name@,
        }),
{
    match nick {
        Some(n) => {
            let a = push_safe(n);
            let mut out = chars_of(a.as_str());
            append_str(&mut out, " (");
            let b = push_safe(name);
            append_str(&mut out, b.as_str());
            append_str(&mut out, ")");
            string_of(&out)
        },
        None => String::from_str(name),
    }
}

/// Integer division rounding toward zero, as Rust's `/` does.
pub open spec fn div_trunc(a: int, b: int) -> int {
    if a >= 0 {
        a / b
    } else {
        -((-a) / b)
    }
}

fn div_trunc_i64(a: i64, b: i64) -> (r: i64)
    requires
        b > 0,
    ensures
        r == div_trunc(a as int, b as int),
{
    let wide = a as i128;
    if wide >= 0 {
        (wide / (b as i128)) as i64
    } else {
        let q = (-wide) / (b as i128);
        proof {
            assert(q <= -wide);
        }
        (-q) as i64
    }
}

/// The days, hours, minutes and seconds of `total` seconds: each unit
/// counted whole, toward zero, from what the larger ones leave.
pub open spec fn split_duration(total: int) -> (int, int, int, int) {
    let days = div_trunc(total, 86400);
    let r1 = total - days * 86400;
    let hours = div_trunc(r1, 3600);
    let r2 = r1 - hours * 3600;
    let minutes = div_trunc(r2, 60);
    (days, hours, minutes, r2 - minutes * 60)
}

/// The `uptime` command's reply for a bot named `bot_name` that has been
/// up for `total` whole seconds.
pub fn uptime(total: i64, bot_name: &str) -> (r: String)
    ensures
        ({
            let (d, h, m, s) = split_duration(total as int);
            r@ == bot_name@ + " has been online for "@ + signed_decimal(d) + " days, "@
                + signed_decimal(h) + " hours, "@ + signed_decimal(m) + " minutes and "@
                + signed_decimal(s) + " seconds"@
        }),
{
    let days = div_trunc_i64(total, 86400);
    assert(-106751991167301 <= days <= 106751991167300) by (nonlinear_arith)
        requires
            days == div_trunc(total as int, 86400),
            i64::MIN <= total <= i64::MAX,
    {
    }
    let r1 = total - days * 86400;
    let hours = div_trunc_i64(r1, 3600);
    assert(-2000000 <= hours <= 2000000) by (nonlinear_arith)
        requires
            hours == div_trunc(r1 as int, 3600),
            -86400 < r1 < 86400,
    {
    }
    let r2 = r1 - hours * 3600;
    let minutes = div_trunc_i64(r2, 60);
    let seconds = r2 - minutes * 60;
    let mut out = chars_of(bot_name);
    append_str(&mut out, " has been online for ");
    let a = render_i64(days);
    append(&mut out, &a);
    append_str(&mut out, " days, ");
    let b = render_i64(hours);
    append(&mut out, &b);
    append_str(&mut out, " hours, ");
    let c = render_i64(minutes);
    append(&mut out, &c);
    append_str(&mut out, " minutes and ");
    let d = render_i64(seconds);
    append(&mut out, &d);
    append_str(&mut out, " seconds");
    string_of(&out)
}

/// A size in bytes as the `usage` command words it: in bytes under a
/// kilobyte, then whole kilobytes, megabytes and gigabytes, and terabytes
/// beyond; singular for exactly one of a unit below terabytes.
pub open spec fn usage_words(bytes: int) -> Seq<char> {
    if bytes < 1000 {
        if bytes == 1 {
            "1 byte"@
        } else {
            decimal(bytes as nat) + " bytes"@
        }
    } else if bytes < 1000000 {
        let k = bytes / 1000;
        if k == 1 {
            "1 kilobyte"@
        } else {
            decimal(k as nat) + " kilobytes"@
        }
    } else if bytes < 1000000000 {
        let m = bytes / 1000000;
        if m == 1 {
            "1 megabyte"@
        } else {
            decimal(m as nat) + " megabytes"@
        }
    } else if bytes < 1000000000000 {
        let g = bytes / 1000000000;
        if g == 1 {
            "1 gigabyte"@
        } else {
            decimal(g as nat) + " gigabytes"@
        }
    } else {
        decimal((bytes / 1000000000000) as nat) + " terabytes"@
    }
}

/// An amount of a unit as a reply words it: singular for exactly one.
pub open spec fn unit_words(n: int, unit: Seq<char>) -> Seq<char> {
    if n == 1 {
        "1 "@ + unit
    } else {
        decimal(n as nat) + " "@ + unit + "s"@
    }
}

/// A size is worded in the largest of bytes, kilobytes, megabytes and
/// gigabytes (each a thousand of the one before) that it reaches, so the
/// amount shown is between 1 and 999 for every size from one byte to below
/// a terabyte; from a terabyte on it is worded in terabytes.
pub proof fn law_usage_units(b: int)
    requires
        b >= 0,
    ensures
        b < 1000 ==> usage_words(b) == unit_words(b, "byte"@),
        1000 <= b < 1000000 ==> usage_words(b) == unit_words(b / 1000, "kilobyte"@) && 1 <= b
            / 1000 <= 999,
        1000000 <= b < 1000000000 ==> usage_words(b) == unit_words(b / 1000000, "megabyte"@) && 1
            <= b / 1000000 <= 999,
        1000000000 <= b < 1000000000000 ==> usage_words(b) == unit_words(
            b / 1000000000,
            "gigabyte"@,
        ) && 1 <= b / 1000000000 <= 999,
        1000000000000 <= b ==> usage_words(b) == decimal((b / 1000000000000) as nat)
            + " terabytes"@,
{
    reveal_strlit("1 byte");
    reveal_strlit(" bytes");
    reveal_strlit("1 kilobyte");
    reveal_strlit(" kilobytes");
    reveal_strlit("1 megabyte");
    reveal_strlit(" megabytes");
    reveal_strlit("1 gigabyte");
    reveal_strlit(" gigabytes");
    reveal_strlit("byte");
    reveal_strlit("kilobyte");
    reveal_strlit("megabyte");
    reveal_strlit("gigabyte");
    reveal_strlit("1 ");
    reveal_strlit(" ");
    reveal_strlit("s");
    assert("1 byte"@ =~= "1 "@ + "byte"@);
    assert(" bytes"@ =~= " "@ + "byte"@ + "s"@);
    assert("1 kilobyte"@ =~= "1 "@ + "kilobyte"@);
    assert(" kilobytes"@ =~= " "@ + "kilobyte"@ + "s"@);
    assert("1 megabyte"@ =~= "1 "@ + "megabyte"@);
    assert(" megabytes"@ =~= " "@ + "megabyte"@ + "s"@);
    assert("1 gigabyte"@ =~= "1 "@ + "gigabyte"@);
    assert(" gigabytes"@ =~= " "@ + "gigabyte"@ + "s"@);
    let n = decimal(b as nat);
    assert(n + " "@ + "byte"@ + "s"@ =~= n + (" "@ + "byte"@ + "s"@));
    let k = decimal((b / 1000) as nat);
    assert(k + " "@ + "kilobyte"@ + "s"@ =~= k + (" "@ + "kilobyte"@ + "s"@));
    let m = decimal((b / 1000000) as nat);
    assert(m + " "@ + "megabyte"@ + "s"@ =~= m + (" "@ + "megabyte"@ + "s"@));
    let g = decimal((b / 1000000000) as nat);
    assert(g + " "@ + "gigabyte"@ + "s"@ =~= g + (" "@ + "gigabyte"@ + "s"@));
}

fn amount(n: u64, one: &str, many: &str) -> (r: Vec<char>)
    ensures
        r@ == (if n == 1 {
            one@
        } else {
            decimal(n as nat) + many@
        }),
{
    if n == 1 {
        chars_of(one)
    } else {
        let mut out = render_u64(n);
        append_str(&mut out, many);
        out
    }
}

/// The `usage` command's reply for a database of `bytes` bytes on disk.
pub fn usage(bytes: u64) -> (r: String)
    ensures
        r@ == "Current database disk usage: "@ + usage_words(bytes as int),
{
    let words = if bytes < 1000 {
        amount(bytes, "1 byte", " bytes")
    } else if bytes < 1000000 {
        amount(bytes / 1000, "1 kilobyte", " kilobytes")
    } else if bytes < 1000000000 {
        amount(bytes / 1000 / 1000, "1 megabyte", " megabytes")
    } else if bytes < 1000000000000 {
        amount(bytes / 1000 / 1000 / 1000, "1 gigabyte", " gigabytes")
    } else {
        let mut out = render_u64(bytes / 1000 / 1000 / 1000 / 1000);
        append_str(&mut out, " terabytes");
        out
    };
    let mut out = chars_of("Current database disk usage: ");
    append(&mut out, &words);
    string_of(&out)
}

/// Where the owner's `avatar` command takes the new avatar from.
#[derive(PartialEq, Eq, Structural, Clone, Copy, Debug)]
pub enum AvatarSource {
    /// The first file attached to the message.
    Attachment,
    /// Nowhere: the avatar is taken away.
    Remove,
    /// The URL given as the first argument.
    Url,
}

/// The owner's `avatar` command takes an attachment first, removes the
/// avatar when there is neither an attachment nor an argument, and
/// otherwise takes the URL argument.
pub fn avatar_source(has_attachment: bool, args_empty: bool) -> (r: AvatarSource)
    ensures
        r == (if has_attachment {
            AvatarSource::Attachment
        } else if args_empty {
            AvatarSource::Remove
        } else {
            AvatarSource::Url
        }),
{
    if has_attachment {
        AvatarSource::Attachment
    } else if args_empty {
        AvatarSource::Remove
    } else {
        AvatarSource::Url
    }
}

/// The file name a downloaded avatar is saved under: the last segment of
/// the URL's path, which must not be empty.
pub fn avatar_file_name(segments: Option<&Vec<String>>) -> (r: Result<String, &'static str>)
    ensures
        match segments {
            Some(s) => if s@.len() > 0 && s@.last()@.len() > 0 {
                r matches Ok(n) && n@ == s@.last()@
            } else {
                r matches Err(e) && e@ == "Failed to get filename from url."@
            },
            None => r matches Err(e) && e@ == "Failed to get filename from url."@,
        },
{
    match segments {
        Some(s) => {
            if s.len() > 0 && s[s.len() - 1].as_str().is_empty() == false {
                Ok(s[s.len() - 1].clone())
            } else {
                Err("Failed to get filename from url.")
            }
        },
        None => Err("Failed to get filename from url."),
    }
}

/// The log file the `logs` command uploads: the first, in the order the
/// directory lists them, whose name ends in `_rCURRENT.log`.
pub fn current_log(names: &Vec<String>) -> (r: Option<usize>)
    ensures
        match r {
            Some(i) => i < names@.len() && crate::text::ends_with(names@[i as int]@, "_rCURRENT.log"@)
                && forall|k: int| 0 <= k < i ==> !crate::text::ends_with(names@[k]@, "_rCURRENT.log"@),
            None => forall|k: int| 0 <= k < names@.len() ==> !crate::text::ends_with(
                names@[k]@,
                "_rCURRENT.log"@,
            ),
        },
{
    let suffix = chars_of("_rCURRENT.log");
    for i in 0..names.len()
        invariant
            suffix@ == "_rCURRENT.log"@,
            forall|k: int| 0 <= k < i ==> !crate::text::ends_with(names@[k]@, "_rCURRENT.log"@),
    {
        let name = chars_of(names[i].as_str());
        if name.len() >= suffix.len() && crate::text::matches_at(&name, &suffix, name.len() - suffix.len()) {
            return Some(i);
        }
        proof {
            if name@.len() < suffix@.len() {
                assert(!crate::text::ends_with(names@[i as int]@, "_rCURRENT.log"@));
            }
        }
    }
    None
}

} // verus!
