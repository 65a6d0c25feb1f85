//! What the bot does on gateway events and on commands that fail before
//! they run: the restart notice, the name correction, and the replies to
//! dispatch errors.
use vstd::prelude::*;

use crate::external::{lowercase, to_lowercase};
use crate::text::{
    append, append_str, char_views, chars_of, contains_chars, contains_text, decimal,
    parse_u64, parse_u64_chars, render_i64, render_u64, signed_decimal, split_chars, split_on,
    string_of,
};

verus! {

/// The server whose members get their name corrected.
pub const SPECIAL_GUILD: u64 = 511_254_259_753_418_763;

/// Reacts to gateway events.
pub struct Handler;

/// What a shard does once it is ready.
#[derive(PartialEq, Eq, Structural, Clone, Copy, Debug)]
pub enum Ready {
    /// A plain start: it only says so.
    Connected,
    /// A restart that left a notice to edit, at this message in this
    /// channel.
    Restarted(u64, u64),
    /// A restart whose notice could not be read.
    Unreadable,
}

/// An id read as `str::parse::<u64>` reads it, zero when that fails.
pub open spec fn id_or_zero(s: Seq<char>) -> int {
    match parse_u64(s) {
        Some(v) => v,
        None => 0,
    }
}

/// What the restart marker `marker` (the environment's
/// `DISCORD_BOT_RESTART_MESSAGE`, when set) asks of a shard that is ready.
pub open spec fn ready_action(marker: Option<Seq<char>>) -> Ready {
    match marker {
        None => Ready::Connected,
        Some(m) => if m.len() == 0 {
            Ready::Connected
        } else {
            let parts = split_on(m, ',');
            let message = id_or_zero(parts[0]);
            let channel = id_or_zero(parts[1]);
            if message != 0 && channel != 0 {
                Ready::Restarted(message as u64, channel as u64)
            } else {
                Ready::Unreadable
            }
        },
    }
}

/// The restart marker left for the next start: the notice's message and
/// channel ids joined by a comma, or nothing when no notice was sent.
pub open spec fn marker_text(notice: Option<(u64, u64)>) -> Seq<char> {
    match notice {
        Some((m, c)) => decimal(m as nat) + seq![','] + decimal(c as nat),
        None => Seq::empty(),
    }
}

fn id_from(s: &Vec<char>) -> (r: u64)
    ensures
        r == id_or_zero(s@),
{
    match parse_u64_chars(s) {
        Some(v) => v,
        None => 0,
    }
}

impl Handler {
    /// What a shard does once it is ready, from the restart marker. A
    /// non-empty marker holds a comma, as the restart commands write it.
    pub fn ready(marker: Option<&str>) -> (r: Ready)
        requires
            marker matches Some(m) ==> (m@.len() > 0 ==> m@.contains(',')),
        ensures
            r == ready_action(
                match marker {
                    Some(m) => Some(m@),
                    None => None,
                },
            ),
    {
        match marker {
            None => Ready::Connected,
            Some(m) => {
                let chars = chars_of(m);
                if chars.len() == 0 {
                    return Ready::Connected;
                }
                let parts = split_chars(&chars, ',');
                proof {
                    lemma_split_two(m@, ',');
                }
                let message = id_from(&parts[0]);
                let channel = id_from(&parts[1]);
                if message != 0 && channel != 0 {
                    Ready::Restarted(message, channel)
                } else {
                    Ready::Unreadable
                }
            },
        }
    }

    /// Whether a message deserves the name correction: sent in the special
    /// server, and saying "sean" in any case.
    pub fn corrects(guild: Option<u64>, content: &str) -> (r: bool)
        ensures
            r == (guild == Some(SPECIAL_GUILD) && contains_text(lowercase(content@), "sean"@)),
    {
        match guild {
            Some(g) => {
                if g == SPECIAL_GUILD {
                    let lower = to_lowercase(content);
                    let l = chars_of(lower.as_str());
                    let pat = chars_of("sean");
                    contains_chars(&l, &pat)
                } else {
                    false
                }
            },
            None => false,
        }
    }

    /// The correction the bot replies with.
    pub fn correction() -> (r: &'static str)
        ensures
            r@ == "*Saevyn"@,
    {
        "*Saevyn"
    }
}

/// A string holding `c` splits on it into at least two pieces.
proof fn lemma_split_two(s: Seq<char>, c: char)
    requires
        s.contains(c),
    ensures
        split_on(s, c).len() >= 2,
    decreases s.len(),
{
    if s[0] == c {
        lemma_split_len(s.drop_first(), c);
    } else {
        let k = choose|k: int| 0 <= k < s.len() && s[k] == c;
        assert(s.drop_first()[k - 1] == c);
        lemma_split_two(s.drop_first(), c);
    }
}

proof fn lemma_split_len(s: Seq<char>, c: char)
    ensures
        split_on(s, c).len() >= 1,
    decreases s.len(),
{
    if s.len() > 0 {
        lemma_split_len(s.drop_first(), c);
    }
}

/// The restart marker for a notice sent at message `notice.0` in channel
/// `notice.1`, or the empty marker when the notice could not be sent.
pub fn restart(notice: Option<(u64, u64)>) -> (r: String)
    ensures
        r@ == marker_text(notice),
{
    match notice {
        Some((m, c)) => {
            let mut out = render_u64(m);
            out.push(',');
            let cs = render_u64(c);
            append(&mut out, &cs);
            string_of(&out)
        },
        None => String::new(),
    }
}

/// Why a check refused a command.
pub enum Reason {
    Unknown,
    User(String),
    Log(String),
    UserAndLog { user: String, log: String },
    Other,
}

/// Why a command did not run.
pub enum DispatchError {
    CheckFailed(Reason),
    CommandDisabled(String),
    BlockedUser,
    BlockedGuild,
    BlockedChannel,
    OnlyForDM,
    OnlyForGuilds,
    OnlyForOwners,
    LackingRole,
    /// The permissions, as `Debug` writes them.
    LackingPermissions(String),
    NotEnoughArguments { min: u16, given: usize },
    TooManyArguments { max: u16, given: usize },
    Ratelimited(i64),
    IgnoredBot,
    WebhookAuthor,
    Other,
}

/// What the channel is told when a check refuses a command.
pub open spec fn check_failed_text(reason: Reason) -> Seq<char> {
    match reason {
        Reason::Unknown => "That command doesn't exist, try"@,
        Reason::User(s) => "You're not allowed to use that command because "@ + s@,
        Reason::UserAndLog { user, log } => "You're not allowed to use that command because "@
            + user@,
        _ => "You're not allowed to use that command"@,
    }
}

/// The reply to a command a check refused.
pub fn check_failed(reason: &Reason) -> (r: String)
    ensures
        r@ == check_failed_text(*reason),
{
    match reason {
        Reason::Unknown => String::from_str("That command doesn't exist, try"),
        Reason::User(s) => {
            let mut out = chars_of("You're not allowed to use that command because ");
            append_str(&mut out, s.as_str());
            string_of(&out)
        },
        Reason::UserAndLog { user, log } => {
            let mut out = chars_of("You're not allowed to use that command because ");
            append_str(&mut out, user.as_str());
            string_of(&out)
        },
        _ => String::from_str("You're not allowed to use that command"),
    }
}

/// The reply the event handler gives to a command that did not run, if
/// any.
pub open spec fn dispatch_reply(e: DispatchError) -> Option<Seq<char>> {
    match e {
        DispatchError::Ratelimited(s) => Some(
            "Try this again in "@ + signed_decimal(s as int) + " seconds."@,
        ),
        DispatchError::CommandDisabled(_) => Some("I'm sorry, but that command is disabled"@),
        DispatchError::OnlyForDM => Some("I'm sorry, but that command is only enabled in dms"@),
        DispatchError::OnlyForGuilds => Some(
            "I'm sorry, but that command is only enabled in servers"@,
        ),
        DispatchError::LackingRole => Some(
            "I'm sorry, but you don't have the correct role to use that command"@,
        ),
        DispatchError::NotEnoughArguments { min, given } => Some(
            "I'm sorry, but this command requires at least "@ + decimal(min as nat)
                + " arguments, but you gave "@ + decimal(given as nat),
        ),
        DispatchError::TooManyArguments { max, given } => Some(
            "I'm sorry, but this command takes at most "@ + decimal(max as nat)
                + " arguments, but you gave "@ + decimal(given as nat),
        ),
        DispatchError::CheckFailed(reason) => Some(check_failed_text(reason)),
        DispatchError::LackingPermissions(p) => Some(
            "I lack the permissions `"@ + p@ + "` to do that"@,
        ),
        _ => None,
    }
}

/// The reply the event handler gives to a command that did not run.
pub fn configure_dispatch_error(e: &DispatchError) -> (r: Option<String>)
    ensures
        match r {
            Some(s) => dispatch_reply(*e) == Some(s@),
            None => dispatch_reply(*e) is None,
        },
{
    match e {
        DispatchError::Ratelimited(s) => {
            let mut out = chars_of("Try this again in ");
            let n = render_i64(*s);
            append(&mut out, &n);
            append_str(&mut out, " seconds.");
            Some(string_of(&out))
        },
        DispatchError::CommandDisabled(_) => Some(
            String::from_str("I'm sorry, but that command is disabled"),
        ),
        DispatchError::OnlyForDM => Some(
            String::from_str("I'm sorry, but that command is only enabled in dms"),
        ),
        DispatchError::OnlyForGuilds => Some(
            String::from_str("I'm sorry, but that command is only enabled in servers"),
        ),
        DispatchError::LackingRole => Some(
            String::from_str("I'm sorry, but you don't have the correct role to use that command"),
        ),
        DispatchError::NotEnoughArguments { min, given } => {
            let mut out = chars_of("I'm sorry, but this command requires at least ");
            let a = render_u64(*min as u64);
            append(&mut out, &a);
            append_str(&mut out, " arguments, but you gave ");
            let b = render_u64(*given as u64);
            append(&mut out, &b);
            Some(string_of(&out))
        },
        DispatchError::TooManyArguments { max, given } => {
            let mut out = chars_of("I'm sorry, but this command takes at most ");
            let a = render_u64(*max as u64);
            append(&mut out, &a);
            append_str(&mut out, " arguments, but you gave ");
            let b = render_u64(*given as u64);
            append(&mut out, &b);
            Some(string_of(&out))
        },
        DispatchError::CheckFailed(reason) => Some(check_failed(reason)),
        DispatchError::LackingPermissions(p) => {
            let mut out = chars_of("I lack the permissions `");
            append_str(&mut out, p.as_str());
            append_str(&mut out, "` to do that");
            Some(string_of(&out))
        },
        _ => None,
    }
}

/// The reply the command framework gives to a command that did not run, if
/// any.
pub open spec fn framework_reply(e: DispatchError) -> Option<Seq<char>> {
    match e {
        DispatchError::CommandDisabled(name) => Some(
            "I'm sorry, but "@ + name@ + " is disabled"@,
        ),
        DispatchError::NotEnoughArguments { min, given } => Some(
            "Need "@ + decimal(min as nat) + " arguments, but only got "@ + decimal(given as nat)
                + "."@,
        ),
        DispatchError::TooManyArguments { max, given } => Some(
            "Max arguments allowed is "@ + decimal(max as nat) + ", but got "@ + decimal(
                given as nat,
            ) + "."@,
        ),
        _ => None,
    }
}

/// The reply the command framework gives to a command that did not run.
pub fn dispatch_error_reply(e: &DispatchError) -> (r: Option<String>)
    ensures
        match r {
            Some(s) => framework_reply(*e) == Some(s@),
            None => framework_reply(*e) is None,
        },
{
    match e {
        DispatchError::CommandDisabled(name) => {
            let mut out = chars_of("I'm sorry, but ");
            append_str(&mut out, name.as_str());
            append_str(&mut out, " is disabled");
            Some(string_of(&out))
        },
        DispatchError::NotEnoughArguments { min, given } => {
            let mut out = chars_of("Need ");
            let a = render_u64(*min as u64);
            append(&mut out, &a);
            append_str(&mut out, " arguments, but only got ");
            let b = render_u64(*given as u64);
            append(&mut out, &b);
            append_str(&mut out, ".");
            Some(string_of(&out))
        },
        DispatchError::TooManyArguments { max, given } => {
            let mut out = chars_of("Max arguments allowed is ");
            let a = render_u64(*max as u64);
            append(&mut out, &a);
            append_str(&mut out, ", but got ");
            let b = render_u64(*given as u64);
            append(&mut out, &b);
            append_str(&mut out, ".");
            Some(string_of(&out))
        },
        _ => None,
    }
}

/// The reply to a command the bot does not have.
pub fn unrecognised_command(name: &str) -> (r: String)
    ensures
        r@ == "I'm sorry, but I don't have a command called '"@ + name@ + "'"@,
{
    let mut out = chars_of("I'm sorry, but I don't have a command called '");
    append_str(&mut out, name);
    append_str(&mut out, "'");
    string_of(&out)
}

} // verus!

verus! {

proof fn lemma_digit_char(d: int)
    requires
        0 <= d <= 9,
    ensures
        crate::text::digit_char(d) as int - '0' as int == d,
        crate::text::is_digit(crate::text::digit_char(d)),
{
}

proof fn lemma_decimal(n: nat)
    ensures
        decimal(n).len() >= 1,
        crate::text::all_digits(decimal(n)),
        crate::text::digits_value(decimal(n)) == n,
    decreases n,
{
    lemma_digit_char((n % 10) as int);
    if n < 10 {
        let s = decimal(n);
        assert(s.drop_last() == Seq::<char>::empty());
        lemma_digit_char(n as int);
        assert(s.last() == crate::text::digit_char(n as int));
        assert(crate::text::digits_value(s.drop_last()) == 0);
        assert(crate::text::digits_value(s) == n);
    }
    if n >= 10 {
        lemma_decimal(n / 10);
        let d = decimal(n / 10);
        let s = d.push(crate::text::digit_char((n % 10) as int));
        assert(s.drop_last() == d);
        assert(s == decimal(n));
        assert(s.last() == crate::text::digit_char((n % 10) as int));
        assert(crate::text::digits_value(s) == crate::text::digits_value(d) * 10 + (n % 10));
        assert((n / 10) * 10 + n % 10 == n) by (nonlinear_arith);
        assert forall|i: int| 0 <= i < s.len() implies crate::text::is_digit(s[i]) by {
            if i < d.len() {
                assert(s[i] == d[i]);
            }
        }
    }
}

proof fn lemma_split_plain(s: Seq<char>, c: char)
    requires
        !s.contains(c),
    ensures
        split_on(s, c) == seq![s],
    decreases s.len(),
{
    if s.len() > 0 {
        assert(!s.drop_first().contains(c)) by {
            if s.drop_first().contains(c) {
                let k = choose|k: int| 0 <= k < s.drop_first().len() && s.drop_first()[k] == c;
                assert(s[k + 1] == c);
            }
        }
        lemma_split_plain(s.drop_first(), c);
        assert(s[0] != c);
        assert(seq![s[0]] + s.drop_first() == s);
    } else {
        assert(s == Seq::<char>::empty());
    }
}

proof fn lemma_split_join(a: Seq<char>, b: Seq<char>, c: char)
    requires
        !a.contains(c),
    ensures
        split_on(a + seq![c] + b, c) == seq![a] + split_on(b, c),
    decreases a.len(),
{
    let s = a + seq![c] + b;
    if a.len() == 0 {
        assert(s[0] == c);
        assert(s.drop_first() == b);
        assert(a == Seq::<char>::empty());
    } else {
        assert(s.drop_first() == a.drop_first() + seq![c] + b);
        assert(!a.drop_first().contains(c)) by {
            if a.drop_first().contains(c) {
                let k = choose|k: int| 0 <= k < a.drop_first().len() && a.drop_first()[k] == c;
                assert(a[k + 1] == c);
            }
        }
        lemma_split_join(a.drop_first(), b, c);
        assert(s[0] == a[0]);
        assert(a[0] != c);
        assert(seq![a[0]] + a.drop_first() == a);
        assert((seq![a.drop_first()] + split_on(b, c)).update(0, seq![a[0]] + a.drop_first()) =~= seq![a]
            + split_on(b, c));
    }
}

proof fn lemma_no_comma(n: nat)
    ensures
        !decimal(n).contains(','),
{
    lemma_decimal(n);
    if decimal(n).contains(',') {
        let k = choose|k: int| 0 <= k < decimal(n).len() && decimal(n)[k] == ',';
        assert(crate::text::is_digit(decimal(n)[k]));
    }
}

proof fn lemma_parse_decimal(n: u64)
    ensures
        parse_u64(decimal(n as nat)) == Some(n as int),
{
    lemma_decimal(n as nat);
    let s = decimal(n as nat);
    assert(crate::text::is_digit(s[0]));
}

/// The marker a restart leaves is read back by the next start: a notice at
/// message `m` in channel `c`, both non-zero ids, is found again.
pub proof fn law_restart_round_trip(m: u64, c: u64)
    requires
        m != 0,
        c != 0,
    ensures
        ready_action(Some(marker_text(Some((m, c))))) == Ready::Restarted(m, c),
{
    let a = decimal(m as nat);
    let b = decimal(c as nat);
    lemma_no_comma(m as nat);
    lemma_no_comma(c as nat);
    lemma_decimal(m as nat);
    lemma_split_join(a, b, ',');
    lemma_split_plain(b, ',');
    let parts = split_on(marker_text(Some((m, c))), ',');
    assert(parts == seq![a, b]);
    lemma_parse_decimal(m);
    lemma_parse_decimal(c);
}

/// With no notice sent, the next start is a plain one.
pub proof fn law_restart_without_notice()
    ensures
        ready_action(Some(marker_text(None))) == Ready::Connected,
{
}

} // verus!
