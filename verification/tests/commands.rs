use kugelblitz::counter::{command_counter, Database};
use kugelblitz::events::{
    check_failed, configure_dispatch_error, dispatch_error_reply, restart, unrecognised_command,
    DispatchError, Handler, Ready, Reason,
};
use kugelblitz::general::{
    avatar, avatar_file_name, avatar_source, avatar_url, current_log, get_mentioned_user_or_sender, member_info,
    message_link, ping, serverinfo, unknown_user_reply, uptime, usage, user, AvatarSource,
    Profile, Subject, Target,
};
use kugelblitz::lists::{accepted, confirmed, id_names, prompt, server_target, too_late, Listing};
use kugelblitz::moderation::{
    ban_days, no_mention, not_in_guild, outcome_message, outside_guild, refusal, InternBanOptions,
    Outcome, Removal,
};
use kugelblitz::sentences::Markov;
use kugelblitz::status::{
    dnd, idle, invisible, online, reset_status, status, status_set_reply, OnlineStatus,
    PresenceUpdate,
};

fn profile(avatar: Option<&str>) -> Profile {
    Profile {
        id: 1,
        name: "name".to_string(),
        tag: "name#0001".to_string(),
        avatar_url: avatar.map(|a| a.to_string()),
        default_avatar_url: "default.png".to_string(),
        bot: false,
    }
}

#[test]
fn avatar_prefers_the_users_own() {
    assert_eq!(avatar_url(&profile(Some("own.png"))), "own.png");
    assert_eq!(avatar_url(&profile(None)), "default.png");
    let card = avatar(&profile(None));
    assert_eq!(card.title, "Avatar");
    assert_eq!(card.image, "default.png");
    assert_eq!(card.author_icon, "default.png");
    assert_eq!(card.author_name, "name#0001");
}

#[test]
fn target_choice() {
    assert_eq!(get_mentioned_user_or_sender(2, Some(5)), Target::Mentioned);
    assert_eq!(get_mentioned_user_or_sender(0, Some(5)), Target::ById(5));
    assert_eq!(get_mentioned_user_or_sender(0, None), Target::Author);
    assert_eq!(unknown_user_reply(42), "I'm sorry, but I couldn't find a user by the id 42");
    assert_eq!(user(true, 0), Subject::Author);
    assert_eq!(user(false, 1), Subject::FirstMention);
}

#[test]
fn serverinfo_counts_members() {
    let info = serverinfo(&vec![true, false, false]);
    assert_eq!(info.users, 2);
    assert_eq!(info.bots, 1);
    assert_eq!(info.members, "3 (2 users, 1 bots)");
    assert_eq!(serverinfo(&vec![]).members, "0 (0 users, 0 bots)");
}

#[test]
fn small_replies() {
    assert_eq!(ping("Bot", Some(37)), "Bot's ping is 37ms");
    assert_eq!(ping("Bot", None), "Unable to get latency, try again later");
    assert_eq!(
        message_link(Some(1), 2, 3),
        Ok("https://discordapp.com/channels/1/2/3".to_string())
    );
    assert_eq!(message_link(None, 2, 3), Err("Message not received over gateway"));
    assert_eq!(member_info(Some("Ni*ck"), "Na_me"), "Ni\\*ck (Na\\_me)");
    assert_eq!(member_info(None, "Na_me"), "Na_me");
    assert_eq!(unrecognised_command("foo"), "I'm sorry, but I don't have a command called 'foo'");
}

#[test]
fn uptime_splits_units() {
    assert_eq!(
        uptime(90061, "Bot"),
        "Bot has been online for 1 days, 1 hours, 1 minutes and 1 seconds"
    );
    assert_eq!(
        uptime(59, "Bot"),
        "Bot has been online for 0 days, 0 hours, 0 minutes and 59 seconds"
    );
    assert_eq!(
        uptime(-3661, "Bot"),
        "Bot has been online for 0 days, -1 hours, -1 minutes and -1 seconds"
    );
}

#[test]
fn usage_words() {
    assert_eq!(usage(1), "Current database disk usage: 1 byte");
    assert_eq!(usage(999), "Current database disk usage: 999 bytes");
    assert_eq!(usage(1000), "Current database disk usage: 1 kilobyte");
    assert_eq!(usage(2_500_000), "Current database disk usage: 2 megabytes");
    assert_eq!(usage(1_999_999_999), "Current database disk usage: 1 gigabyte");
    assert_eq!(usage(3_000_000_000_000), "Current database disk usage: 3 terabytes");
    assert_eq!(usage(0), "Current database disk usage: 0 bytes");
}

#[test]
fn owner_file_choices() {
    assert_eq!(avatar_source(true, false), AvatarSource::Attachment);
    assert_eq!(avatar_source(true, true), AvatarSource::Attachment);
    assert_eq!(avatar_source(false, true), AvatarSource::Remove);
    assert_eq!(avatar_source(false, false), AvatarSource::Url);
    let segs = vec!["a".to_string(), "pic.png".to_string()];
    assert_eq!(avatar_file_name(Some(&segs)), Ok("pic.png".to_string()));
    let segs = vec!["a".to_string(), String::new()];
    assert_eq!(avatar_file_name(Some(&segs)), Err("Failed to get filename from url."));
    assert_eq!(avatar_file_name(None), Err("Failed to get filename from url."));
    let names = vec![
        "old_r1.log".to_string(),
        "bot_rCURRENT.log".to_string(),
        "x_rCURRENT.log".to_string(),
    ];
    assert_eq!(current_log(&names), Some(1));
    assert_eq!(current_log(&vec!["a.log".to_string()]), None);
}

#[test]
fn listing_prompts() {
    let names = id_names(&vec![3, 41]);
    assert_eq!(prompt(Listing::Blacklist, &names), "Are you sure you want to blacklist 3, 41?");
    assert_eq!(accepted(Listing::Unblacklist, &names), "Ok, unblacklisting 3, 41");
    assert!(confirmed(&vec![1, 2, 3], 2));
    assert!(!confirmed(&vec![1, 3], 2));
    assert_eq!(server_target(Listing::Blacklist, Some(5), Some(6)), Ok(5));
    assert_eq!(server_target(Listing::Blacklist, None, Some(6)), Ok(6));
    assert_eq!(
        server_target(Listing::Unblacklist, None, None),
        Err("You must either mention a server or be in one to unblacklist it".to_string())
    );
    assert_eq!(too_late(), "You took to much time to respond, canceling");
}

#[test]
fn presence_commands() {
    assert_eq!(online(), PresenceUpdate::Status(OnlineStatus::Online));
    assert_eq!(idle(), PresenceUpdate::Status(OnlineStatus::Idle));
    assert_eq!(dnd(), PresenceUpdate::Status(OnlineStatus::DoNotDisturb));
    assert_eq!(invisible(), PresenceUpdate::Status(OnlineStatus::Invisible));
    assert_eq!(reset_status(), PresenceUpdate::Presence(OnlineStatus::Online));
}

#[test]
fn status_command() {
    assert_eq!(status(Some("  DND ")), Ok(PresenceUpdate::Presence(OnlineStatus::DoNotDisturb)));
    assert_eq!(status(Some("Offline")), Ok(PresenceUpdate::Presence(OnlineStatus::Offline)));
    assert_eq!(
        status(Some("\u{3000}idle\u{85}\t")),
        Ok(PresenceUpdate::Presence(OnlineStatus::Idle))
    );
    assert_eq!(
        status(Some("busy")),
        Err("That's not a valid status, try `online`, `idle`, `dnd`, `invisible` or `offline`")
    );
    assert_eq!(
        status(None),
        Err("You need to supply a valid status, try `online`, `idle`, `dnd`, `invisible` or `offline`")
    );
    assert_eq!(status_set_reply(OnlineStatus::DoNotDisturb), "Set status to `DoNotDisturb`");
}

#[test]
fn restart_marker_round_trip() {
    assert_eq!(restart(Some((12, 34))), "12,34");
    assert_eq!(restart(None), "");
    assert_eq!(Handler::ready(Some("12,34")), Ready::Restarted(12, 34));
    assert_eq!(Handler::ready(Some(&restart(Some((7, 9))))), Ready::Restarted(7, 9));
    assert_eq!(Handler::ready(Some("")), Ready::Connected);
    assert_eq!(Handler::ready(None), Ready::Connected);
    assert_eq!(Handler::ready(Some("0,5")), Ready::Unreadable);
    assert_eq!(Handler::ready(Some("x,5,9")), Ready::Unreadable);
}

#[test]
fn name_correction() {
    assert!(Handler::corrects(Some(511_254_259_753_418_763), "Hi SEAN!"));
    assert!(!Handler::corrects(Some(511_254_259_753_418_763), "Hi Sam"));
    assert!(!Handler::corrects(Some(1), "sean"));
    assert!(!Handler::corrects(None, "sean"));
    assert_eq!(Handler::correction(), "*Saevyn");
}

#[test]
fn dispatch_error_replies() {
    assert_eq!(
        configure_dispatch_error(&DispatchError::Ratelimited(-3)),
        Some("Try this again in -3 seconds.".to_string())
    );
    assert_eq!(
        configure_dispatch_error(&DispatchError::NotEnoughArguments { min: 2, given: 1 }),
        Some("I'm sorry, but this command requires at least 2 arguments, but you gave 1".to_string())
    );
    assert_eq!(
        configure_dispatch_error(&DispatchError::LackingPermissions("BAN_MEMBERS".to_string())),
        Some("I lack the permissions `BAN_MEMBERS` to do that".to_string())
    );
    assert_eq!(configure_dispatch_error(&DispatchError::BlockedUser), None);
    assert_eq!(
        dispatch_error_reply(&DispatchError::TooManyArguments { max: 1, given: 3 }),
        Some("Max arguments allowed is 1, but got 3.".to_string())
    );
    assert_eq!(
        dispatch_error_reply(&DispatchError::CommandDisabled("ping".to_string())),
        Some("I'm sorry, but ping is disabled".to_string())
    );
    assert_eq!(dispatch_error_reply(&DispatchError::OnlyForDM), None);
    assert_eq!(
        check_failed(&Reason::UserAndLog { user: "u".to_string(), log: "l".to_string() }),
        "You're not allowed to use that command because u"
    );
    assert_eq!(check_failed(&Reason::Log("l".to_string())), "You're not allowed to use that command");
    assert_eq!(check_failed(&Reason::Unknown), "That command doesn't exist, try");
}

#[test]
fn moderation_decisions() {
    assert_eq!(ban_days(Some(9)), 7);
    assert_eq!(ban_days(Some(7)), 7);
    assert_eq!(ban_days(Some(3)), 3);
    assert_eq!(ban_days(None), 0);
    let o = InternBanOptions::new(3, "spam".to_string());
    assert_eq!(o.dmd(), 3);
    assert_eq!(o.reason(), "spam");
    assert_eq!(refusal(Removal::Kick, 1, 1, 2), Some("I can't let you kick yourself!".to_string()));
    assert_eq!(refusal(Removal::Ban, 2, 1, 2), Some("I refuse to ban myself!".to_string()));
    assert_eq!(refusal(Removal::Ban, 3, 1, 2), None);
    assert_eq!(no_mention(Removal::Ban), "You have to mention a member to ban them");
    assert_eq!(outcome_message(Removal::Kick, "bob", 42, &Outcome::Done), "Kicked bob#42");
    assert_eq!(
        outcome_message(Removal::Ban, "bob", 42, &Outcome::MissingPermissions),
        "I don't have enough permissions to ban bob#42. Try giving me the `BAN_MEMBERS` permission"
    );
    assert_eq!(
        outcome_message(Removal::Kick, "bob", 42, &Outcome::MissingPermissions),
        "Failed to kick bob#42"
    );
    assert_eq!(
        outcome_message(Removal::Kick, "bob", 42, &Outcome::Hierarchy),
        "Failed to kick bob#42, they have a higher role than I do, try lowering them or boosting me"
    );
    assert_eq!(
        outcome_message(Removal::Ban, "bob", 42, &Outcome::InvalidPermissions("X".to_string())),
        "I don't have enough permissions to ban bob#42. Try giving me the following permissions: `X`"
    );
    assert_eq!(
        outcome_message(Removal::Ban, "bob", 42, &Outcome::GuildNotFound),
        "bob#42 was not found in this server"
    );
    assert_eq!(not_in_guild("bob", 7), "bob#7 is not in this guild!");
    assert_eq!(outside_guild(Removal::Kick), "There was an error kicking, try again later");
}

#[test]
fn counters() {
    assert_eq!(Database::increment(None), Some(vec![0; 8]));
    let five = 5u64.to_be_bytes();
    assert_eq!(Database::increment(Some(&five)), Some(6u64.to_be_bytes().to_vec()));
    let big = 0x0102_0304_0506_07FFu64.to_be_bytes();
    assert_eq!(
        Database::increment(Some(&big)),
        Some(0x0102_0304_0506_0800u64.to_be_bytes().to_vec())
    );
    let entries = vec![
        (b"command_counter".to_vec(), 3u64.to_be_bytes().to_vec()),
        (b"ping".to_vec(), 0u64.to_be_bytes().to_vec()),
        (vec![0xff], 1u64.to_be_bytes().to_vec()),
        (b"remind".to_vec(), vec![1, 2]),
    ];
    assert_eq!(command_counter(&entries), vec![("Command Counter".to_string(), 3)]);
}

#[test]
fn markov_learns_a_sentence() {
    let mut m = Markov::new(None);
    assert!(m.is_empty());
    assert_eq!(m.try_generate_str(), None);
    m.feed_str("hello world");
    assert!(!m.is_empty());
    assert_eq!(m.generate_str(), "hello world");
    assert_eq!(m.generate_str_from_token("world"), "world");
    assert_eq!(m.generate_str_from_token("hello"), "hello world");
    assert_eq!(m.generate_str_from_token("nope"), "");
    let saved = m.save().unwrap();
    assert!(saved.starts_with("---\nmap:"));
    assert!(saved.ends_with("\norder: 1\n"));
    let loaded = Markov::new(Some(&saved));
    assert!(Markov::try_new(Some(&saved)).is_some());
    assert!(!loaded.is_empty());
    assert_eq!(loaded.generate_str(), "hello world");
    assert!(Markov::try_new(Some("order: [")).is_none());
    assert!(Markov::try_new(None).is_some());
    let mut odd = Markov::new(None);
    odd.feed_str("a: ~ null 1 #x \u{7}b -c 0x1 .5 yes");
    let back = Markov::new(Some(&odd.save().unwrap()));
    assert_eq!(back.generate_str(), "a: ~ null 1 #x \u{7}b -c 0x1 .5 yes");
}
