use kugelblitz::reminder::{
    after_attempt, confirmation, reminder_colour, reminder_heading, reminder_name, remind,
    ReminderError, Retry,
};

#[test]
fn remind_reads_hours_and_minutes() {
    let r = remind("1h15m", "Get your hot pocket").unwrap().unwrap();
    assert_eq!(r.seconds, 4500);
    assert_eq!(
        r.confirmation,
        "I'll remind you in 1 hours, 75 minutes, 4500 seconds: `Get your hot pocket`\n"
    );
}

#[test]
fn remind_caps_each_unit() {
    let r = remind("10d", "x").unwrap().unwrap();
    assert_eq!(r.seconds, 7 * 86400);
    let r = remind("500h", "x").unwrap().unwrap();
    assert_eq!(r.seconds, 168 * 3600);
    let r = remind("9999m9999s", "x").unwrap().unwrap();
    assert_eq!(r.seconds, 2880 * 60 + 3600);
}

#[test]
fn remind_counts_each_unit_once() {
    let r = remind("1h2h30s", "x").unwrap().unwrap();
    assert_eq!(r.seconds, 3630);
}

#[test]
fn remind_without_a_delay_is_refused() {
    let e = remind("soon", "x").unwrap().err().unwrap();
    assert_eq!(e, ReminderError::NoDuration);
    assert_eq!(e.reply(), "You must specify a valid time for a reminder");
    assert_eq!(e.reason(), "No reminder duration");
    let e = remind("0s", "x").unwrap().err().unwrap();
    assert_eq!(e, ReminderError::NoDuration);
}

#[test]
fn remind_with_an_unreadable_amount_is_refused() {
    // An amount too large for an i64.
    let e = remind("99999999999999999999d", "x").unwrap().err().unwrap();
    assert_eq!(e, ReminderError::BadFormat);
    assert_eq!(e.reason(), "Incorrect reminder timestamp");
    // Digits that are not ASCII are found by the pattern but not parsed.
    let e = remind("\u{0663}h", "x").unwrap().err().unwrap();
    assert_eq!(e, ReminderError::BadFormat);
}

#[test]
fn confirmation_lists_positive_units() {
    assert_eq!(confirmation(59, "a"), "I'll remind you in 59 seconds: `a`\n");
    assert_eq!(
        confirmation(90061, "b"),
        "I'll remind you in 1 days, 25 hours, 1501 minutes, 90061 seconds: `b`\n"
    );
}

#[test]
fn confirmation_defuses_the_note() {
    assert_eq!(confirmation(1, "`@everyone`"), "I'll remind you in 1 seconds: `'@\u{200B}everyone'`\n");
}

#[test]
fn retries_stop_after_six() {
    let mut attempts = 0u32;
    for _ in 0..6 {
        assert_eq!(after_attempt(false, &mut attempts), Retry::After(5000));
    }
    assert_eq!(attempts, 6);
    assert_eq!(after_attempt(false, &mut attempts), Retry::Done);
    assert_eq!(attempts, 6);
    let mut fresh = 0u32;
    assert_eq!(after_attempt(true, &mut fresh), Retry::Done);
    assert_eq!(fresh, 0);
}

#[test]
fn reminder_addressing() {
    assert_eq!(reminder_name(Some("Nick".to_string()), "name"), "Nick");
    assert_eq!(reminder_name(None, "name"), "name");
    assert_eq!(reminder_heading("a_b"), "Reminder for a\\_b");
    assert_eq!(
        reminder_heading("*discord.gg* `x` @here\u{202E}"),
        "Reminder for \\*discord\u{2024}gg\\* \\`x\\` @\u{200B}here "
    );
    assert_eq!(reminder_colour(None), 0x5125B5);
    assert_eq!(reminder_colour(Some(7)), 7);
}
