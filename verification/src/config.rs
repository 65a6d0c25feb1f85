//! The bot's configuration and how a freshly read one is put in order.
use vstd::prelude::*;

use crate::lists::{lemma_search_sorted, search, search_index, sorted};

verus! {

/// What `Config.toml` holds.
pub struct Config {
    pub discord_token: String,
    pub blacklisted_users: Vec<u64>,
    pub blacklisted_servers: Vec<u64>,
}

/// Why no configuration could be had.
#[derive(PartialEq, Eq, Structural, Clone, Copy, Debug)]
pub enum ConfigError {
    /// There is no `Config.toml`.
    Missing,
    /// `Config.toml` could not be read.
    Unreadable,
    /// `Config.toml` is not a configuration.
    Malformed,
}

impl ConfigError {
    /// The text that reports the error.
    pub fn message(&self) -> (r: &'static str)
        ensures
            r@ == config_error_text(*self),
    {
        match self {
            ConfigError::Missing => "Could not find a config file, make sure Config.toml exists",
            ConfigError::Unreadable => "Failed to read the contents of Config.toml",
            ConfigError::Malformed => "Failed to read Config.toml, make sure that the format is correct",
        }
    }
}

/// The report of each configuration error.
pub open spec fn config_error_text(e: ConfigError) -> Seq<char> {
    match e {
        ConfigError::Missing => "Could not find a config file, make sure Config.toml exists"@,
        ConfigError::Unreadable => "Failed to read the contents of Config.toml"@,
        ConfigError::Malformed => "Failed to read Config.toml, make sure that the format is correct"@,
    }
}

/// `r` is `s` in ascending order.
pub open spec fn sorted_from(r: Seq<u64>, s: Seq<u64>) -> bool {
    sorted(r) && r.to_multiset() == s.to_multiset()
}

/// The order of ids.
pub open spec fn id_leq(a: u64, b: u64) -> bool {
    a <= b
}

/// The ids of `s` in ascending order.
pub open spec fn ascending(s: Seq<u64>) -> Seq<u64> {
    s.sort_by(|a: u64, b: u64| id_leq(a, b))
}

/// A sorted rearrangement of `s` is `ascending(s)`: there is only one.
pub proof fn lemma_ascending_unique(r: Seq<u64>, s: Seq<u64>)
    requires
        sorted_from(r, s),
    ensures
        r == ascending(s),
{
    let leq = |a: u64, b: u64| id_leq(a, b);
    assert(vstd::relations::total_ordering(leq));
    s.lemma_sort_by_ensures(leq);
    assert(vstd::relations::sorted_by(r, leq)) by {
        assert forall|i: int, j: int| 0 <= i < j < r.len() implies leq(r[i], r[j]) by {}
    }
    vstd::seq_lib::lemma_sorted_unique(r, ascending(s), leq);
}

/// `ascending(s)` is sorted and holds what `s` holds.
pub proof fn lemma_ascending_sorted(s: Seq<u64>)
    ensures
        sorted_from(ascending(s), s),
{
    let leq = |a: u64, b: u64| id_leq(a, b);
    assert(vstd::relations::total_ordering(leq));
    s.lemma_sort_by_ensures(leq);
    let r = ascending(s);
    assert forall|i: int, j: int| 0 <= i <= j < r.len() implies r[i] <= r[j] by {
        if i < j {
            assert(vstd::relations::sorted_by(r, leq));
            assert(leq(r[i], r[j]));
        }
    }
}

/// The ids of `v` in ascending order.
pub fn sort_ids(v: Vec<u64>) -> (r: Vec<u64>)
    ensures
        r@ == ascending(v@),
        sorted_from(r@, v@),
{
    broadcast use vstd::seq_lib::group_to_multiset_ensures;

    let mut out: Vec<u64> = Vec::new();
    for i in 0..v.len()
        invariant
            sorted(out@),
            out@.to_multiset() == v@.take(i as int).to_multiset(),
    {
        let x = v[i];
        let p = match search(&out, x) {
            Ok(p) => p,
            Err(p) => p,
        };
        proof {
            lemma_search_sorted(out@, x);
            assert(p == search_index(out@, x));
        }
        let ghost before = out@;
        out.insert(p, x);
        proof {
            assert(out@ == before.insert(p as int, x));
            assert forall|a: int, b: int| 0 <= a <= b < out@.len() implies out@[a] <= out@[b] by {
                if a < p && b > p {
                    assert(out@[a] == before[a]);
                    assert(out@[b] == before[b - 1]);
                } else if a < p && b == p {
                    assert(out@[a] == before[a]);
                } else if a == p && b > p {
                    assert(out@[b] == before[b - 1]);
                } else if a > p {
                    assert(out@[a] == before[a - 1]);
                    assert(out@[b] == before[b - 1]);
                } else if b < p {
                    assert(out@[a] == before[a]);
                    assert(out@[b] == before[b]);
                }
            }
            assert(v@.take(i + 1) == v@.take(i as int).push(x));
            vstd::seq_lib::to_multiset_insert(before, p as int, x);
            vstd::seq_lib::to_multiset_build(v@.take(i as int), x);
        }
    }
    assert(v@.take(v.len() as int) == v@);
    proof {
        lemma_ascending_unique(out@, v@);
    }
    out
}

impl Config {
    /// The configuration to run with, from the outcome of reading and
    /// parsing `Config.toml`: both blacklists are put in ascending order,
    /// and an error is passed on as it is.
    pub fn load(read: Result<Config, ConfigError>) -> (r: Result<Config, ConfigError>)
        ensures
            match (read, r) {
                (Ok(c), Ok(d)) => {
                    &&& d.discord_token@ == c.discord_token@
                    &&& d.blacklisted_users@ == ascending(c.blacklisted_users@)
                    &&& d.blacklisted_servers@ == ascending(c.blacklisted_servers@)
                },
                (Err(e), Err(f)) => e == f,
                _ => false,
            },
    {
        match read {
            Ok(c) => {
                let Config { discord_token, blacklisted_users, blacklisted_servers } = c;
                Ok(
                    Config {
                        discord_token,
                        blacklisted_users: sort_ids(blacklisted_users),
                        blacklisted_servers: sort_ids(blacklisted_servers),
                    },
                )
            },
            Err(e) => Err(e),
        }
    }
}

} // verus!
