//! `kick` and `ban`: the ban options, who may not be removed, and what the
//! channel is told of the outcome.
use vstd::prelude::*;

use crate::text::{append, append_str, chars_of, decimal, render_u64, string_of};

verus! {

/// The options a ban is made with.
pub struct InternBanOptions {
    days_to_delete: u8,
    reason: String,
}

impl InternBanOptions {
    /// Options deleting `days_to_delete` days of messages, for `reason`.
    pub fn new(days_to_delete: u8, reason: String) -> (r: Self)
        ensures
            r.dmd_spec() == days_to_delete,
            r.reason_view() == reason@,
    {
        Self { days_to_delete, reason }
    }

    /// The days of messages to delete.
    pub closed spec fn dmd_spec(&self) -> u8 {
        self.days_to_delete
    }

    /// The reason given.
    pub closed spec fn reason_view(&self) -> Seq<char> {
        self.reason@
    }

    /// The days of messages to delete.
    pub fn dmd(&self) -> (r: u8)
        ensures
            r == self.dmd_spec(),
    {
        self.days_to_delete
    }

    /// The reason given.
    pub fn reason(&self) -> (r: &str)
        ensures
            r@ == self.reason_view(),
    {
        self.reason.as_str()
    }
}

/// The days of messages a ban deletes, from its third argument: at most
/// seven, none when the argument is not a small number.
pub fn ban_days(argument: Option<u8>) -> (r: u8)
    ensures
        r == (match argument {
            Some(d) => if d >= 7 {
                7
            } else {
                d
            },
            None => 0,
        }),
{
    match argument {
        Some(days) => if days >= 7 {
            7
        } else {
            days
        },
        None => 0,
    }
}

/// Removing a member from a server.
#[derive(PartialEq, Eq, Structural, Clone, Copy, Debug)]
pub enum Removal {
    Kick,
    Ban,
}

/// What became of a kick or a ban.
pub enum Outcome {
    Done,
    /// The server was not found.
    GuildNotFound,
    /// The bot lacks these permissions, as `Debug` writes them.
    InvalidPermissions(String),
    /// The member's role is above the bot's.
    Hierarchy,
    /// Discord refused the request for missing permissions.
    MissingPermissions,
    /// Anything else.
    Failed,
}

/// The verb for a removal.
pub open spec fn verb(r: Removal) -> Seq<char> {
    match r {
        Removal::Kick => "kick"@,
        Removal::Ban => "ban"@,
    }
}

/// What the channel is told when the mention is missing, the command
/// ending with the same text as its error.
pub fn no_mention(r: Removal) -> (m: &'static str)
    ensures
        m@ == "You have to mention a member to "@ + verb(r) + " them"@,
{
    proof {
        reveal_strlit("You have to mention a member to kick them");
        reveal_strlit("You have to mention a member to ban them");
        reveal_strlit("You have to mention a member to ");
        reveal_strlit(" them");
        reveal_strlit("kick");
        reveal_strlit("ban");
    }
    match r {
        Removal::Kick => "You have to mention a member to kick them",
        Removal::Ban => "You have to mention a member to ban them",
    }
}

/// Why a removal is refused outright: nobody removes themselves, and the
/// bot does not remove itself.
pub open spec fn refusal_text(r: Removal, target: u64, author: u64, bot: u64) -> Option<Seq<char>> {
    if target == author {
        Some("I can't let you "@ + verb(r) + " yourself!"@)
    } else if target == bot {
        Some("I refuse to "@ + verb(r) + " myself!"@)
    } else {
        None
    }
}

fn verb_of(r: Removal) -> (v: &'static str)
    ensures
        v@ == verb(r),
{
    match r {
        Removal::Kick => "kick",
        Removal::Ban => "ban",
    }
}

/// Why the removal of `target` by `author` is refused, if it is.
pub fn refusal(r: Removal, target: u64, author: u64, bot: u64) -> (m: Option<String>)
    ensures
        match m {
            Some(s) => refusal_text(r, target, author, bot) == Some(s@),
            None => refusal_text(r, target, author, bot) is None,
        },
{
    if target == author {
        let mut out = chars_of("I can't let you ");
        append_str(&mut out, verb_of(r));
        append_str(&mut out, " yourself!");
        Some(string_of(&out))
    } else if target == bot {
        let mut out = chars_of("I refuse to ");
        append_str(&mut out, verb_of(r));
        append_str(&mut out, " myself!");
        Some(string_of(&out))
    } else {
        None
    }
}

/// A member as the replies name them: name, `#`, discriminator.
pub open spec fn member_name(name: Seq<char>, discriminator: u16) -> Seq<char> {
    name + "#"@ + decimal(discriminator as nat)
}

/// What the channel is told of the outcome of removing the member
/// `name#discriminator`. Only a ban reads Discord's refusal for missing
/// permissions apart from other failures.
pub open spec fn outcome_text(r: Removal, name: Seq<char>, discriminator: u16, o: Outcome) -> Seq<char> {
    let who = member_name(name, discriminator);
    match o {
        Outcome::Done => (match r {
            Removal::Kick => "Kicked "@,
            Removal::Ban => "Banned "@,
        }) + who,
        Outcome::GuildNotFound => who + " was not found in this server"@,
        Outcome::InvalidPermissions(p) => "I don't have enough permissions to "@ + verb(r) + " "@
            + who + ". Try giving me the following permissions: `"@ + p@ + "`"@,
        Outcome::Hierarchy => "Failed to "@ + verb(r) + " "@ + who
            + ", they have a higher role than I do, try lowering them or boosting me"@,
        Outcome::MissingPermissions => match r {
            Removal::Ban => "I don't have enough permissions to ban "@ + who
                + ". Try giving me the `BAN_MEMBERS` permission"@,
            Removal::Kick => "Failed to kick "@ + who,
        },
        Outcome::Failed => "Failed to "@ + verb(r) + " "@ + who,
    }
}

/// What the channel is told of the outcome of a removal.
pub fn outcome_message(r: Removal, name: &str, discriminator: u16, o: &Outcome) -> (m: String)
    ensures
        m@ == outcome_text(r, name@, discriminator, *o),
{
    let mut who = chars_of(name);
    append_str(&mut who, "#");
    let d = render_u64(discriminator as u64);
    append(&mut who, &d);
    let out = match o {
        Outcome::Done => {
            let mut out = match r {
                Removal::Kick => chars_of("Kicked "),
                Removal::Ban => chars_of("Banned "),
            };
            append(&mut out, &who);
            out
        },
        Outcome::GuildNotFound => {
            let mut out = who;
            append_str(&mut out, " was not found in this server");
            out
        },
        Outcome::InvalidPermissions(p) => {
            let mut out = chars_of("I don't have enough permissions to ");
            append_str(&mut out, verb_of(r));
            append_str(&mut out, " ");
            append(&mut out, &who);
            append_str(&mut out, ". Try giving me the following permissions: `");
            append_str(&mut out, p.as_str());
            append_str(&mut out, "`");
            out
        },
        Outcome::Hierarchy => {
            let mut out = chars_of("Failed to ");
            append_str(&mut out, verb_of(r));
            append_str(&mut out, " ");
            append(&mut out, &who);
            append_str(
                &mut out,
                ", they have a higher role than I do, try lowering them or boosting me",
            );
            out
        },
        Outcome::MissingPermissions => match r {
            Removal::Ban => {
                let mut out = chars_of("I don't have enough permissions to ban ");
                append(&mut out, &who);
                append_str(&mut out, ". Try giving me the `BAN_MEMBERS` permission");
                out
            },
            Removal::Kick => {
                let mut out = chars_of("Failed to kick ");
                append(&mut out, &who);
                out
            },
        },
        Outcome::Failed => {
            let mut out = chars_of("Failed to ");
            append_str(&mut out, verb_of(r));
            append_str(&mut out, " ");
            append(&mut out, &who);
            out
        },
    };
    string_of(&out)
}

/// What the author is told when the mentioned user is not a member of the
/// server.
pub fn not_in_guild(name: &str, discriminator: u16) -> (m: String)
    ensures
        m@ == member_name(name@, discriminator) + " is not in this guild!"@,
{
    let mut out = chars_of(name);
    append_str(&mut out, "#");
    let d = render_u64(discriminator as u64);
    append(&mut out, &d);
    append_str(&mut out, " is not in this guild!");
    string_of(&out)
}

/// What the author is told when the command came from outside a server.
pub fn outside_guild(r: Removal) -> (m: String)
    ensures
        m@ == "There was an error "@ + (match r {
            Removal::Kick => "kicking"@,
            Removal::Ban => "banning"@,
        }) + ", try again later"@,
{
    let mut out = chars_of("There was an error ");
    match r {
        Removal::Kick => append_str(&mut out, "kicking"),
        Removal::Ban => append_str(&mut out, "banning"),
    }
    append_str(&mut out, ", try again later");
    string_of(&out)
}

} // verus!
