//! `unblacklist user` and `unblacklist server`: what a confirmed request
//! does to the running blacklist and to the list kept in `Config.toml`.
use vstd::prelude::*;

use crate::config::{ascending, lemma_ascending_unique, sort_ids};
use crate::lists::{
    dedup, lemma_remove_first_at, lemma_search_sorted, remove_each, search_found, search_index,
    strictly_sorted, without, Blacklist,
};

verus! {

/// The ids of `list` that are not among `ids`, in their order: what is
/// written back to the configuration after an unblacklisting.
pub fn unblacklist(list: &Vec<u64>, ids: &Vec<u64>) -> (r: Vec<u64>)
    ensures
        r@ == without(list@, ids@),
{
    let mut out: Vec<u64> = Vec::new();
    for i in 0..list.len()
        invariant
            out@ == without(list@.take(i as int), ids@),
    {
        let x = list[i];
        let mut found = false;
        for j in 0..ids.len()
            invariant
                found <==> ids@.take(j as int).contains(x),
        {
            proof {
                broadcast use vstd::seq_lib::group_seq_properties;

                assert(ids@.take(j + 1) == ids@.take(j as int).push(ids@[j as int]));
            }
            if ids[j] == x {
                found = true;
            }
        }
        assert(ids@.take(ids@.len() as int) == ids@);
        proof {
            let t = list@.take(i + 1);
            assert(t.drop_last() == list@.take(i as int));
            assert(t.last() == x);
            list@.take(i as int).lemma_filter_push(x, |v: u64| !ids@.contains(v));
            assert(list@.take(i as int).push(x) == t);
        }
        if !found {
            out.push(x);
        }
    }
    assert(list@.take(list@.len() as int) == list@);
    out
}

/// Unblacklists the users `requested`, once the owner has confirmed: in
/// ascending order of the ids, the first occurrence of each in the running
/// list is taken out; the configuration's list keeps only ids not
/// requested. Gives the ids in the order used. This is the `unblacklist
/// user` command: it takes users off the blacklists, as its name, its
/// confirmation prompt and its `server` sibling say, so its help text
/// reads "Unblacklist users".
pub fn user(memory: &mut Blacklist, config: &mut Vec<u64>, requested: Vec<u64>) -> (ids: Vec<u64>)
    ensures
        ids@ == ascending(requested@),
        final(memory)@ == remove_each(old(memory)@, ids@),
        final(config)@ == without(old(config)@, ids@),
{
    let ids = sort_ids(requested);
    for i in 0..ids.len()
        invariant
            memory@ == remove_each(old(memory)@, ids@.take(i as int)),
    {
        memory.remove_first(ids[i]);
        proof {
            lemma_remove_each_push(old(memory)@, ids@.take(i as int), ids@[i as int]);
            assert(ids@.take(i + 1) == ids@.take(i as int).push(ids@[i as int]));
        }
    }
    assert(ids@.take(ids@.len() as int) == ids@);
    let kept = unblacklist(config, &ids);
    *config = kept;
    ids
}

/// Taking out one more id after a run of removals.
pub proof fn lemma_remove_each_push(s: Seq<u64>, xs: Seq<u64>, x: u64)
    ensures
        remove_each(s, xs.push(x)) == crate::lists::remove_first(remove_each(s, xs), x),
    decreases xs.len(),
{
    if xs.len() > 0 {
        assert(xs.push(x).drop_first() == xs.drop_first().push(x));
        assert(xs.push(x)[0] == xs[0]);
        lemma_remove_each_push(crate::lists::remove_first(s, xs[0]), xs.drop_first(), x);
    } else {
        assert(xs.push(x).drop_first() =~= xs);
        assert(xs.push(x)[0] == x);
        assert(remove_each(crate::lists::remove_first(s, x), xs) == crate::lists::remove_first(s, x));
    }
}

/// Unblacklists the server `guild`, once the owner has confirmed: the
/// element the search finds for it leaves the running list, and the
/// configuration's list keeps every id but `guild`.
pub fn server(memory: &mut Blacklist, config: &mut Vec<u64>, guild: u64)
    ensures
        final(memory)@ == (if search_found(old(memory)@, guild) {
            old(memory)@.remove(search_index(old(memory)@, guild))
        } else {
            old(memory)@
        }),
        final(config)@ == without(old(config)@, seq![guild]),
{
    memory.remove(guild);
    let mut one: Vec<u64> = Vec::new();
    one.push(guild);
    let kept = unblacklist(config, &one);
    *config = kept;
}

/// Taking an id out of a list that does not hold it changes nothing.
proof fn lemma_without_absent(c: Seq<u64>, x: u64)
    requires
        !c.contains(x),
    ensures
        without(c, seq![x]) == c,
    decreases c.len(),
{
    if c.len() > 0 {
        let d = c.drop_last();
        assert(!d.contains(x)) by {
            if d.contains(x) {
                let k = choose|k: int| 0 <= k < d.len() && d[k] == x;
                assert(c[k] == x);
            }
        }
        lemma_without_absent(d, x);
        assert(c.last() != x) by {
            assert(c[c.len() - 1] == c.last());
        }
        assert(!seq![x].contains(c.last())) by {
            if seq![x].contains(c.last()) {
                let k = choose|k: int| 0 <= k < 1 && seq![x][k] == c.last();
            }
        }
        let pred = |v: u64| !seq![x].contains(v);
        assert(d.push(c.last()) =~= c);
        d.lemma_filter_push(c.last(), pred);
    }
}

/// Blacklisting one user who is on neither list, then unblacklisting them,
/// gives back both lists as they were: the running list in order without
/// repeats, and the configuration's list without neighbouring repeats.
pub proof fn law_user_round_trip(m: Seq<u64>, c: Seq<u64>, x: u64)
    requires
        strictly_sorted(m),
        !m.contains(x),
        !c.contains(x),
        dedup(c) == c,
    ensures
        ascending(seq![x]) == seq![x],
        ({
            let m1 = if search_found(m, x) {
                m
            } else {
                m.insert(search_index(m, x), x)
            };
            let c1 = dedup(c + seq![x]);
            &&& remove_each(m1, seq![x]) == m
            &&& without(c1, seq![x]) == c
        }),
{
    lemma_ascending_unique(seq![x], seq![x]);
    lemma_search_sorted(m, x);
    let p = search_index(m, x);
    let m1 = m.insert(p, x);
    assert forall|k: int| 0 <= k < p implies m1[k] != x by {
        assert(m1[k] == m[k]);
    }
    lemma_remove_first_at(m1, x, p);
    assert(m1.remove(p) =~= m);
    assert(seq![x].drop_first() =~= Seq::<u64>::empty());
    assert(remove_each(m1, seq![x]) == remove_each(crate::lists::remove_first(m1, x), seq![x].drop_first()));
    let s = c + seq![x];
    if c.len() == 0 {
        assert(s =~= seq![x]);
    } else {
        assert(s.drop_last() =~= c);
        assert(s[s.len() - 2] == c.last());
        assert(c.last() != x) by {
            assert(c[c.len() - 1] == c.last());
        }
        assert(dedup(s) == dedup(c).push(x));
    }
    assert(dedup(s) =~= c.push(x));
    lemma_without_absent(c, x);
    let pred = |v: u64| !seq![x].contains(v);
    assert(seq![x].contains(x)) by {
        assert(seq![x][0] == x);
    }
    c.lemma_filter_push(x, pred);
}

} // verus!
