//! The owner's presence commands: `online`, `idle`, `dnd`, `invisible`,
//! `reset_status` and `status`.
use vstd::prelude::*;

use crate::external::{lowercase, to_lowercase};
use crate::text::{append_str, ascii_lowercase, ascii_text, chars_of, string_of, trim, trim_chars};

verus! {

/// A presence the bot can show.
#[derive(PartialEq, Eq, Structural, Clone, Copy, Debug)]
pub enum OnlineStatus {
    Online,
    Idle,
    DoNotDisturb,
    Invisible,
    Offline,
}

/// What the shard is told to change.
#[derive(PartialEq, Eq, Structural, Clone, Copy, Debug)]
pub enum PresenceUpdate {
    /// Show this status and keep the current activity.
    Status(OnlineStatus),
    /// Show this status and drop the activity.
    Presence(OnlineStatus),
}

/// `online`: show the bot online.
pub fn online() -> (r: PresenceUpdate)
    ensures
        r == PresenceUpdate::Status(OnlineStatus::Online),
{
    PresenceUpdate::Status(OnlineStatus::Online)
}

/// `idle`: show the bot idle.
pub fn idle() -> (r: PresenceUpdate)
    ensures
        r == PresenceUpdate::Status(OnlineStatus::Idle),
{
    PresenceUpdate::Status(OnlineStatus::Idle)
}

/// `dnd`: show the bot as not to be disturbed.
pub fn dnd() -> (r: PresenceUpdate)
    ensures
        r == PresenceUpdate::Status(OnlineStatus::DoNotDisturb),
{
    PresenceUpdate::Status(OnlineStatus::DoNotDisturb)
}

/// `invisible`: hide the bot.
pub fn invisible() -> (r: PresenceUpdate)
    ensures
        r == PresenceUpdate::Status(OnlineStatus::Invisible),
{
    PresenceUpdate::Status(OnlineStatus::Invisible)
}

/// `reset_status`: online, with no activity.
pub fn reset_status() -> (r: PresenceUpdate)
    ensures
        r == PresenceUpdate::Presence(OnlineStatus::Online),
{
    PresenceUpdate::Presence(OnlineStatus::Online)
}

/// The status a word names, once trimmed and lowercased.
pub open spec fn status_named(word: Seq<char>) -> Option<OnlineStatus> {
    let w = lowercase(trim(word));
    if w == "online"@ {
        Some(OnlineStatus::Online)
    } else if w == "idle"@ {
        Some(OnlineStatus::Idle)
    } else if w == "dnd"@ {
        Some(OnlineStatus::DoNotDisturb)
    } else if w == "invisible"@ {
        Some(OnlineStatus::Invisible)
    } else if w == "offline"@ {
        Some(OnlineStatus::Offline)
    } else {
        None
    }
}

fn same(a: &String, b: &str) -> (r: bool)
    ensures
        r == (a@ == b@),
{
    let x = String::from_str(b);
    *a == x
}

/// Whether `word` spells the status word `name`, whatever its ASCII case
/// and the whitespace around it: every status the refusal lists is taken
/// when spelt so.
pub open spec fn spelt_status(word: Seq<char>, name: Seq<char>) -> bool {
    ascii_text(trim(word)) && ascii_lowercase(trim(word)) == name
}

/// The reply when no status is given.
pub open spec fn missing_status_text() -> Seq<char> {
    "You need to supply a valid status, try `online`, `idle`, `dnd`, `invisible` or `offline`"@
}

/// The reply when the word names no status.
pub open spec fn unknown_status_text() -> Seq<char> {
    "That's not a valid status, try `online`, `idle`, `dnd`, `invisible` or `offline`"@
}

/// The `status` command: the presence to show, with no activity, from its
/// first argument, or the reply that refuses it.
pub fn status(word: Option<&str>) -> (r: Result<PresenceUpdate, &'static str>)
    ensures
        match word {
            None => r matches Err(e) && e@ == missing_status_text(),
            Some(w) => match status_named(w@) {
                Some(s) => r == Ok::<PresenceUpdate, &'static str>(PresenceUpdate::Presence(s)),
                None => r matches Err(e) && e@ == unknown_status_text(),
            },
        },
        (word matches Some(w) && spelt_status(w@, "online"@)) ==> r == Ok::<
            PresenceUpdate,
            &'static str,
        >(PresenceUpdate::Presence(OnlineStatus::Online)),
        (word matches Some(w) && spelt_status(w@, "idle"@)) ==> r == Ok::<
            PresenceUpdate,
            &'static str,
        >(PresenceUpdate::Presence(OnlineStatus::Idle)),
        (word matches Some(w) && spelt_status(w@, "dnd"@)) ==> r == Ok::<
            PresenceUpdate,
            &'static str,
        >(PresenceUpdate::Presence(OnlineStatus::DoNotDisturb)),
        (word matches Some(w) && spelt_status(w@, "invisible"@)) ==> r == Ok::<
            PresenceUpdate,
            &'static str,
        >(PresenceUpdate::Presence(OnlineStatus::Invisible)),
        (word matches Some(w) && spelt_status(w@, "offline"@)) ==> r == Ok::<
            PresenceUpdate,
            &'static str,
        >(PresenceUpdate::Presence(OnlineStatus::Offline)),
{
    proof {
        reveal_strlit("online");
        reveal_strlit("idle");
        reveal_strlit("dnd");
        reveal_strlit("invisible");
        reveal_strlit("offline");
    }
    match word {
        None => Err("You need to supply a valid status, try `online`, `idle`, `dnd`, `invisible` or `offline`"),
        Some(w) => {
            let chars = chars_of(w);
            let t = trim_chars(&chars);
            let ts = string_of(&t);
            let lower = to_lowercase(ts.as_str());
            proof {
                assert(ts@ == trim(w@));
                if ascii_text(trim(w@)) {
                    assert(lower@ == ascii_lowercase(trim(w@)));
                }
                assert("idle"@ != "online"@) by {
                    assert("idle"@.len() != "online"@.len());
                }
                assert("dnd"@ != "online"@ && "dnd"@ != "idle"@) by {
                    assert("dnd"@.len() != "online"@.len());
                    assert("dnd"@.len() != "idle"@.len());
                }
                assert("invisible"@ != "online"@ && "invisible"@ != "idle"@ && "invisible"@
                    != "dnd"@) by {
                    assert("invisible"@.len() == 9);
                }
                assert("offline"@ != "online"@ && "offline"@ != "idle"@ && "offline"@ != "dnd"@
                    && "offline"@ != "invisible"@) by {
                    assert("offline"@.len() == 7);
                    assert("offline"@[1] != "online"@[1]);
                }
            }
            if same(&lower, "online") {
                Ok(PresenceUpdate::Presence(OnlineStatus::Online))
            } else if same(&lower, "idle") {
                Ok(PresenceUpdate::Presence(OnlineStatus::Idle))
            } else if same(&lower, "dnd") {
                Ok(PresenceUpdate::Presence(OnlineStatus::DoNotDisturb))
            } else if same(&lower, "invisible") {
                Ok(PresenceUpdate::Presence(OnlineStatus::Invisible))
            } else if same(&lower, "offline") {
                Ok(PresenceUpdate::Presence(OnlineStatus::Offline))
            } else {
                Err("That's not a valid status, try `online`, `idle`, `dnd`, `invisible` or `offline`")
            }
        },
    }
}

impl OnlineStatus {
    /// The status as it is named in the reply, as `Debug` writes it.
    pub fn name(&self) -> (r: &'static str)
        ensures
            r@ == status_name(*self),
    {
        match self {
            OnlineStatus::Online => "Online",
            OnlineStatus::Idle => "Idle",
            OnlineStatus::DoNotDisturb => "DoNotDisturb",
            OnlineStatus::Invisible => "Invisible",
            OnlineStatus::Offline => "Offline",
        }
    }
}

/// The name of each status.
pub open spec fn status_name(s: OnlineStatus) -> Seq<char> {
    match s {
        OnlineStatus::Online => "Online"@,
        OnlineStatus::Idle => "Idle"@,
        OnlineStatus::DoNotDisturb => "DoNotDisturb"@,
        OnlineStatus::Invisible => "Invisible"@,
        OnlineStatus::Offline => "Offline"@,
    }
}

/// The reply once the status is set.
pub fn status_set_reply(s: OnlineStatus) -> (r: String)
    ensures
        r@ == "Set status to `"@ + status_name(s) + "`"@,
{
    let mut out = chars_of("Set status to `");
    append_str(&mut out, s.name());
    append_str(&mut out, "`");
    string_of(&out)
}

} // verus!
