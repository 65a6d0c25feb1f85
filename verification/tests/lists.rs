use kugelblitz::blacklist;
use kugelblitz::config::{Config, ConfigError};
use kugelblitz::lists::{blacklists_from_config, search, Blacklist, Owner};
use kugelblitz::unblacklist;

#[test]
fn search_finds_ids_in_a_sorted_list() {
    let ids = vec![3, 8, 15, 42];
    assert_eq!(search(&ids, 15), Ok(2));
    assert_eq!(search(&ids, 3), Ok(0));
    assert_eq!(search(&ids, 1), Err(0));
    assert_eq!(search(&ids, 20), Err(3));
    assert_eq!(search(&ids, 50), Err(4));
}

#[test]
fn owner_is_never_blocked() {
    let owner = Owner { id: 7 };
    let servers = Blacklist::new(vec![100]);
    let users = Blacklist::new(vec![7, 9]);
    assert!(owner.permits(7, Some(100), &servers, &users));
    assert!(!owner.permits(9, None, &servers, &users));
    assert!(!owner.permits(5, Some(100), &servers, &users));
    assert!(owner.permits(5, Some(101), &servers, &users));
    assert!(owner.permits(5, None, &servers, &users));
}

#[test]
fn config_load_sorts_both_lists() {
    let raw = Config {
        discord_token: "token".to_string(),
        blacklisted_users: vec![9, 2, 5, 2],
        blacklisted_servers: vec![30, 10, 20],
    };
    let c = Config::load(Ok(raw)).unwrap();
    assert_eq!(c.blacklisted_users, vec![2, 2, 5, 9]);
    assert_eq!(c.blacklisted_servers, vec![10, 20, 30]);
    assert_eq!(c.discord_token, "token");
    let e = Config::load(Err(ConfigError::Missing)).err().unwrap();
    assert_eq!(e.message(), "Could not find a config file, make sure Config.toml exists");
}

#[test]
fn blacklisting_one_user_keeps_order() {
    let mut memory = Blacklist::new(vec![1, 5, 9]);
    let mut config = vec![9, 1];
    let ids = blacklist::user(&mut memory, &mut config, vec![6]);
    assert_eq!(ids, vec![6]);
    assert_eq!(memory.ids, vec![1, 5, 6, 9]);
    assert_eq!(config, vec![9, 1, 6]);
    blacklist::user(&mut memory, &mut config, vec![6]);
    assert_eq!(memory.ids, vec![1, 5, 6, 9]);
    assert_eq!(config, vec![9, 1, 6]);
}

#[test]
fn blacklisting_several_users_splices_them_in() {
    let mut memory = Blacklist::new(vec![1, 5]);
    let mut config = vec![];
    let ids = blacklist::user(&mut memory, &mut config, vec![7, 2]);
    assert_eq!(ids, vec![2, 7]);
    assert_eq!(memory.ids, vec![1, 2, 7, 5]);
    assert_eq!(config, vec![2, 7]);
}

#[test]
fn server_blacklist_round_trip() {
    let mut memory = Blacklist::new(vec![10, 30]);
    let mut config = vec![10, 30];
    assert!(blacklist::server(&mut memory, &mut config, 20));
    assert_eq!(memory.ids, vec![10, 20, 30]);
    assert_eq!(config, vec![10, 20, 30]);
    assert!(!blacklist::server(&mut memory, &mut config, 20));
    unblacklist::server(&mut memory, &mut config, 20);
    assert_eq!(memory.ids, vec![10, 30]);
    assert_eq!(config, vec![10, 30]);
}

#[test]
fn user_blacklist_round_trip() {
    let mut memory = Blacklist::new(vec![10, 30]);
    let mut config = vec![30, 10];
    assert_eq!(blacklist::user(&mut memory, &mut config, vec![20]), vec![20]);
    assert_eq!(memory.ids, vec![10, 20, 30]);
    assert_eq!(config, vec![30, 10, 20]);
    assert_eq!(unblacklist::user(&mut memory, &mut config, vec![20]), vec![20]);
    assert_eq!(memory.ids, vec![10, 30]);
    assert_eq!(config, vec![30, 10]);
}

#[test]
fn unblacklisting_users() {
    let mut memory = Blacklist::new(vec![4, 1, 4, 8]);
    let mut config = vec![1, 4, 8, 4];
    let ids = unblacklist::user(&mut memory, &mut config, vec![4, 1]);
    assert_eq!(ids, vec![1, 4]);
    assert_eq!(memory.ids, vec![4, 8]);
    assert_eq!(config, vec![8]);
    assert_eq!(unblacklist::unblacklist(&vec![3, 4, 5], &vec![4]), vec![3, 5]);
}

#[test]
fn blacklists_come_from_the_config() {
    let c = Config {
        discord_token: String::new(),
        blacklisted_users: vec![1],
        blacklisted_servers: vec![2, 3],
    };
    let (users, servers) = blacklists_from_config(c);
    assert_eq!(users.ids, vec![1]);
    assert_eq!(servers.ids, vec![2, 3]);
}
