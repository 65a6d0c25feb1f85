//! `blacklist user` and `blacklist server`: what a confirmed request does to
//! the running blacklist and to the list kept in `Config.toml`.
use vstd::prelude::*;

use crate::config::{ascending, sort_ids};
use crate::lists::{dedup, search, search_found, search_index, Blacklist};

verus! {

/// `s` followed by `xs`, with each run of equal neighbours kept once.
pub fn extend_dedup(s: &mut Vec<u64>, xs: &Vec<u64>)
    ensures
        final(s)@ == dedup(old(s)@ + xs@),
{
    let ghost all = old(s)@ + xs@;
    let mut joined: Vec<u64> = Vec::new();
    for i in 0..s.len()
        invariant
            joined@ == s@.take(i as int),
    {
        joined.push(s[i]);
        assert(s@.take(i + 1) == s@.take(i as int).push(s@[i as int]));
    }
    for i in 0..xs.len()
        invariant
            joined@ == s@ + xs@.take(i as int),
    {
        joined.push(xs[i]);
        assert(xs@.take(i + 1) == xs@.take(i as int).push(xs@[i as int]));
    }
    assert(xs@.take(xs@.len() as int) == xs@);
    assert(joined@ == all);
    let mut out: Vec<u64> = Vec::new();
    for i in 0..joined.len()
        invariant
            out@ == dedup(joined@.take(i as int)),
    {
        let x = joined[i];
        proof {
            let t = joined@.take(i + 1);
            assert(t.drop_last() == joined@.take(i as int));
            lemma_dedup_last(joined@.take(i as int));
        }
        if i == 0 || joined[i - 1] != x {
            out.push(x);
        }
    }
    assert(joined@.take(joined@.len() as int) == joined@);
    *s = out;
}

/// The last element of a deduplicated non-empty sequence is its own last
/// element, and the deduplicated sequence is empty only for the empty one.
pub proof fn lemma_dedup_last(s: Seq<u64>)
    ensures
        s.len() > 0 ==> dedup(s).len() > 0 && dedup(s).last() == s.last(),
        s.len() == 0 ==> dedup(s).len() == 0,
    decreases s.len(),
{
    if s.len() > 1 {
        lemma_dedup_last(s.drop_last());
    }
}

/// Blacklists the users `requested` (at least one), once the owner has
/// confirmed: the ids are put in ascending order; one id goes where the
/// search places it unless it is found already, several go in together at
/// the place of the first; the configuration's list gets them appended with
/// neighbouring repeats dropped. Gives the ids in the order used.
pub fn user(memory: &mut Blacklist, config: &mut Vec<u64>, requested: Vec<u64>) -> (ids: Vec<u64>)
    requires
        requested@.len() >= 1,
    ensures
        ids@ == ascending(requested@),
        ids@.len() == 1 ==> final(memory)@ == (if search_found(old(memory)@, ids@[0]) {
            old(memory)@
        } else {
            old(memory)@.insert(search_index(old(memory)@, ids@[0]), ids@[0])
        }),
        ids@.len() > 1 ==> final(memory)@ == old(memory)@.take(search_index(old(memory)@, ids@[0]))
            + ids@ + old(memory)@.skip(search_index(old(memory)@, ids@[0])),
        final(config)@ == dedup(old(config)@ + ids@),
{
    broadcast use vstd::seq_lib::group_to_multiset_ensures;

    let ids = sort_ids(requested);
    assert(ids@.to_multiset().len() == requested@.len());
    if ids.len() == 1 {
        memory.add(ids[0]);
    } else {
        memory.splice(&ids);
    }
    extend_dedup(config, &ids);
    ids
}

/// Blacklists the server `guild`, once the owner has confirmed: it goes
/// into the running list where the search places it unless it is found
/// already, and likewise into the configuration's list. Says whether the
/// configuration's list changed, which is when it is written back.
pub fn server(memory: &mut Blacklist, config: &mut Vec<u64>, guild: u64) -> (changed: bool)
    ensures
        final(memory)@ == (if search_found(old(memory)@, guild) {
            old(memory)@
        } else {
            old(memory)@.insert(search_index(old(memory)@, guild), guild)
        }),
        changed == !search_found(old(config)@, guild),
        final(config)@ == (if changed {
            old(config)@.insert(search_index(old(config)@, guild), guild)
        } else {
            old(config)@
        }),
{
    memory.add(guild);
    let mut taken: Vec<u64> = Vec::new();
    std::mem::swap(&mut taken, config);
    let mut list = Blacklist::new(taken);
    let changed = list.add(guild);
    *config = list.ids;
    changed
}

} // verus!
