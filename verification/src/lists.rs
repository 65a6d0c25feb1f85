//! The user and server blacklists: ordered id lists searched by bisection,
//! the owner who is exempt from them, and the check made before each command.
use vstd::prelude::*;

use crate::config::Config;
use crate::text::{append, append_str, char_views, chars_of, decimal, join, join_chars, render_u64, string_of};

verus! {

/// Every element is at most every later one.
pub open spec fn sorted(s: Seq<u64>) -> bool {
    forall|i: int, j: int| 0 <= i <= j < s.len() ==> s[i] <= s[j]
}

/// Where bisection over `s[lo..hi]` for `x` comes to rest: halve the range,
/// keep the upper half while the middle element is below `x`.
pub open spec fn probe(s: Seq<u64>, x: u64, lo: int, hi: int) -> int
    decreases hi - lo,
{
    if lo >= hi {
        lo
    } else {
        let mid = lo + (hi - lo) / 2;
        if s[mid] < x {
            probe(s, x, mid + 1, hi)
        } else {
            probe(s, x, lo, mid)
        }
    }
}

/// The index a search of `s` for `x` reports.
pub open spec fn search_index(s: Seq<u64>, x: u64) -> int {
    probe(s, x, 0, s.len() as int)
}

/// Whether a search of `s` for `x` reports a hit.
pub open spec fn search_found(s: Seq<u64>, x: u64) -> bool {
    let i = search_index(s, x);
    0 <= i < s.len() && s[i] == x
}

proof fn lemma_probe_bounds(s: Seq<u64>, x: u64, lo: int, hi: int)
    requires
        0 <= lo <= hi <= s.len(),
    ensures
        lo <= probe(s, x, lo, hi) <= hi,
    decreases hi - lo,
{
    if lo < hi {
        let mid = lo + (hi - lo) / 2;
        if s[mid] < x {
            lemma_probe_bounds(s, x, mid + 1, hi);
        } else {
            lemma_probe_bounds(s, x, lo, mid);
        }
    }
}

proof fn lemma_probe_sorted(s: Seq<u64>, x: u64, lo: int, hi: int)
    requires
        0 <= lo <= hi <= s.len(),
        sorted(s),
        forall|k: int| 0 <= k < lo ==> s[k] < x,
        forall|k: int| hi <= k < s.len() ==> s[k] >= x,
    ensures
        forall|k: int| 0 <= k < probe(s, x, lo, hi) ==> s[k] < x,
        forall|k: int| probe(s, x, lo, hi) <= k < s.len() ==> s[k] >= x,
    decreases hi - lo,
{
    if lo < hi {
        let mid = lo + (hi - lo) / 2;
        if s[mid] < x {
            lemma_probe_sorted(s, x, mid + 1, hi);
        } else {
            lemma_probe_sorted(s, x, lo, mid);
        }
    }
}

/// In a sorted list the search reports the first position whose element is
/// not below `x`, and it reports a hit exactly when `x` is in the list.
pub proof fn lemma_search_sorted(s: Seq<u64>, x: u64)
    requires
        sorted(s),
    ensures
        0 <= search_index(s, x) <= s.len(),
        forall|k: int| 0 <= k < search_index(s, x) ==> s[k] < x,
        forall|k: int| search_index(s, x) <= k < s.len() ==> s[k] >= x,
        search_found(s, x) <==> s.contains(x),
{
    lemma_probe_bounds(s, x, 0, s.len() as int);
    lemma_probe_sorted(s, x, 0, s.len() as int);
    let i = search_index(s, x);
    if s.contains(x) {
        let j = choose|j: int| 0 <= j < s.len() && s[j] == x;
        assert(i <= j);
        assert(s[i] <= s[j]);
    }
}

/// Searches `ids` for `id` by bisection: `Ok` with the index of a hit, or
/// `Err` with the place where `id` would go.
pub fn search(ids: &Vec<u64>, id: u64) -> (r: Result<usize, usize>)
    ensures
        r is Ok <==> search_found(ids@, id),
        match r {
            Ok(i) => i == search_index(ids@, id),
            Err(i) => i == search_index(ids@, id),
        },
{
    let mut lo: usize = 0;
    let mut hi: usize = ids.len();
    while lo < hi
        invariant
            0 <= lo <= hi <= ids@.len(),
            probe(ids@, id, lo as int, hi as int) == search_index(ids@, id),
        decreases hi - lo,
    {
        let mid = lo + (hi - lo) / 2;
        if ids[mid] < id {
            lo = mid + 1;
        } else {
            hi = mid;
        }
    }
    if lo < ids.len() && ids[lo] == id {
        Ok(lo)
    } else {
        Err(lo)
    }
}

/// An ordered list of blacklisted ids, users or servers.
pub struct Blacklist {
    pub ids: Vec<u64>,
}

impl View for Blacklist {
    type V = Seq<u64>;

    open spec fn view(&self) -> Seq<u64> {
        self.ids@
    }
}

/// The `s` with the first occurrence of `x` taken out, if there is one.
pub open spec fn remove_first(s: Seq<u64>, x: u64) -> Seq<u64>
    decreases s.len(),
{
    if s.len() == 0 {
        s
    } else if s[0] == x {
        s.drop_first()
    } else {
        seq![s[0]].add(remove_first(s.drop_first(), x))
    }
}

/// `remove_first` applied for each of `xs` in turn.
pub open spec fn remove_each(s: Seq<u64>, xs: Seq<u64>) -> Seq<u64>
    decreases xs.len(),
{
    if xs.len() == 0 {
        s
    } else {
        remove_each(remove_first(s, xs[0]), xs.drop_first())
    }
}

/// The elements of `s` that are not among `xs`, in order.
pub open spec fn without(s: Seq<u64>, xs: Seq<u64>) -> Seq<u64> {
    s.filter(|v: u64| !xs.contains(v))
}

/// `s` with each run of equal neighbours shortened to one element.
pub open spec fn dedup(s: Seq<u64>) -> Seq<u64>
    decreases s.len(),
{
    if s.len() <= 1 {
        s
    } else if s[s.len() - 1] == s[s.len() - 2] {
        dedup(s.drop_last())
    } else {
        dedup(s.drop_last()).push(s[s.len() - 1])
    }
}

impl Blacklist {
    /// A blacklist holding `ids` as they are.
    pub fn new(ids: Vec<u64>) -> (r: Blacklist)
        ensures
            r@ == ids@,
    {
        Blacklist { ids }
    }

    /// Whether a search of the list finds `id`.
    pub fn contains(&self, id: u64) -> (r: bool)
        ensures
            r == search_found(self@, id),
            sorted(self@) ==> (r <==> self@.contains(id)),
    {
        proof {
            if sorted(self@) {
                lemma_search_sorted(self@, id);
            }
        }
        match search(&self.ids, id) {
            Ok(_) => true,
            Err(_) => false,
        }
    }

    /// Adds `id` where the search places it, unless the search finds it
    /// already; says whether it was added.
    pub fn add(&mut self, id: u64) -> (added: bool)
        ensures
            added == !search_found(old(self)@, id),
            added ==> final(self)@ == old(self)@.insert(search_index(old(self)@, id), id),
            !added ==> final(self)@ == old(self)@,
    {
        match search(&self.ids, id) {
            Ok(_) => false,
            Err(i) => {
                proof {
                    lemma_probe_bounds(self@, id, 0, self@.len() as int);
                }
                self.ids.insert(i, id);
                true
            },
        }
    }

    /// Puts the whole of `ids` in at the place the search gives for its
    /// first element, ahead of what was there.
    pub fn splice(&mut self, ids: &Vec<u64>)
        requires
            ids@.len() >= 1,
        ensures
            final(self)@ == old(self)@.take(search_index(old(self)@, ids@[0])) + ids@ + old(
                self,
            )@.skip(search_index(old(self)@, ids@[0])),
    {
        let start = match search(&self.ids, ids[0]) {
            Ok(i) => i,
            Err(i) => i,
        };
        proof {
            lemma_probe_bounds(self@, ids@[0], 0, self@.len() as int);
        }
        let mut out: Vec<u64> = Vec::new();
        for i in 0..start
            invariant
                start <= self.ids@.len(),
                out@ == self.ids@.take(i as int),
        {
            out.push(self.ids[i]);
            assert(self.ids@.take(i + 1) == self.ids@.take(i as int).push(self.ids@[i as int]));
        }
        for i in 0..ids.len()
            invariant
                start <= self.ids@.len(),
                out@ == self.ids@.take(start as int) + ids@.take(i as int),
        {
            out.push(ids[i]);
            assert(ids@.take(i + 1) == ids@.take(i as int).push(ids@[i as int]));
        }
        assert(ids@.take(ids@.len() as int) == ids@);
        let n = self.ids.len();
        for i in start..n
            invariant
                start <= n == self.ids@.len(),
                out@ == self.ids@.take(start as int) + ids@ + self.ids@.subrange(start as int, i as int),
        {
            out.push(self.ids[i]);
            assert(self.ids@.subrange(start as int, i + 1) == self.ids@.subrange(
                start as int,
                i as int,
            ).push(self.ids@[i as int]));
        }
        assert(self.ids@.subrange(start as int, n as int) == self.ids@.skip(start as int));
        self.ids = out;
    }

    /// Takes out the element the search finds for `id`, if it finds one;
    /// says whether it did.
    pub fn remove(&mut self, id: u64) -> (removed: bool)
        ensures
            removed == search_found(old(self)@, id),
            removed ==> final(self)@ == old(self)@.remove(search_index(old(self)@, id)),
            !removed ==> final(self)@ == old(self)@,
    {
        match search(&self.ids, id) {
            Ok(i) => {
                self.ids.remove(i);
                true
            },
            Err(_) => false,
        }
    }

    /// Takes out the first occurrence of `id`, if there is one.
    pub fn remove_first(&mut self, id: u64) -> (removed: bool)
        ensures
            final(self)@ == remove_first(old(self)@, id),
            removed == old(self)@.contains(id),
    {
        let n = self.ids.len();
        let mut i: usize = 0;
        while i < n
            invariant
                n == self.ids@.len(),
                i <= n,
                forall|k: int| 0 <= k < i ==> self.ids@[k] != id,
            ensures
                i <= n,
                forall|k: int| 0 <= k < i ==> self.ids@[k] != id,
                i < n ==> self.ids@[i as int] == id,
            decreases n - i,
        {
            if self.ids[i] == id {
                break ;
            }
            i = i + 1;
        }
        proof {
            lemma_remove_first_at(self@, id, i as int);
        }
        if i < n {
            self.ids.remove(i);
            true
        } else {
            false
        }
    }
}

pub(crate) proof fn lemma_remove_first_at(s: Seq<u64>, x: u64, i: int)
    requires
        0 <= i <= s.len(),
        forall|k: int| 0 <= k < i ==> s[k] != x,
        i < s.len() ==> s[i] == x,
    ensures
        i < s.len() ==> remove_first(s, x) == s.remove(i),
        i == s.len() ==> remove_first(s, x) == s,
        s.contains(x) <==> i < s.len(),
    decreases s.len(),
{
    if s.len() > 0 {
        if s[0] != x {
            lemma_remove_first_at(s.drop_first(), x, i - 1);
            if i < s.len() {
                assert(seq![s[0]].add(s.drop_first().remove(i - 1)) == s.remove(i));
            } else {
                assert(seq![s[0]].add(s.drop_first()) == s);
            }
            if s.contains(x) {
                let j = choose|j: int| 0 <= j < s.len() && s[j] == x;
                assert(s.drop_first()[j - 1] == x);
            }
            if s.drop_first().contains(x) {
                let j = choose|j: int| 0 <= j < s.drop_first().len() && s.drop_first()[j] == x;
                assert(s[j + 1] == x);
            }
        } else {
            assert(s.drop_first() == s.remove(0));
        }
    }
}

/// The two blacklists that the configuration names, users first.
pub fn blacklists_from_config(config: Config) -> (r: (Blacklist, Blacklist))
    ensures
        r.0@ == config.blacklisted_users@,
        r.1@ == config.blacklisted_servers@,
{
    (Blacklist::new(config.blacklisted_users), Blacklist::new(config.blacklisted_servers))
}

/// The owner of the application: blacklists never stop them.
pub struct Owner {
    pub id: u64,
}

/// Whether a command from `author`, sent in `guild` (none for a direct
/// message), goes ahead: it does not when the server or the author is found
/// in its blacklist, unless the author is the owner.
pub open spec fn permitted(
    owner: u64,
    author: u64,
    guild: Option<u64>,
    servers: Seq<u64>,
    users: Seq<u64>,
) -> bool {
    author == owner || (!(guild matches Some(g) && search_found(servers, g)) && !search_found(
        users,
        author,
    ))
}

impl Owner {
    /// Decides whether a command goes ahead, as the framework asks before
    /// each one.
    pub fn permits(&self, author: u64, guild: Option<u64>, servers: &Blacklist, users: &Blacklist) -> (r:
        bool)
        ensures
            r == permitted(self.id, author, guild, servers@, users@),
    {
        if let Some(g) = guild {
            if servers.contains(g) && author != self.id {
                return false;
            }
        }
        if users.contains(author) && author != self.id {
            return false;
        }
        true
    }
}

} // verus!

verus! {

/// Strictly ascending: sorted with no id twice.
pub open spec fn strictly_sorted(s: Seq<u64>) -> bool {
    forall|i: int, j: int| 0 <= i < j < s.len() ==> s[i] < s[j]
}

/// The owner is never stopped by a blacklist.
pub proof fn law_owner_always_permitted(
    owner: u64,
    guild: Option<u64>,
    servers: Seq<u64>,
    users: Seq<u64>,
)
    ensures
        permitted(owner, owner, guild, servers, users),
{
}

/// With both lists in order, a command is refused exactly when its server
/// or its author is on a blacklist and the author is not the owner.
pub proof fn law_permitted_sorted(
    owner: u64,
    author: u64,
    guild: Option<u64>,
    servers: Seq<u64>,
    users: Seq<u64>,
)
    requires
        sorted(servers),
        sorted(users),
    ensures
        permitted(owner, author, guild, servers, users) <==> (author == owner || (!(guild matches Some(
            g,
        ) && servers.contains(g)) && !users.contains(author))),
{
    lemma_search_sorted(users, author);
    if let Some(g) = guild {
        lemma_search_sorted(servers, g);
    }
}

/// Adding an id to a list in order keeps it in order, puts the id in, and
/// changes nothing else about which ids are there.
pub proof fn law_add_keeps_order(s: Seq<u64>, x: u64)
    requires
        sorted(s),
    ensures
        ({
            let t = if search_found(s, x) {
                s
            } else {
                s.insert(search_index(s, x), x)
            };
            &&& sorted(t)
            &&& t.contains(x)
            &&& forall|y: u64| t.contains(y) <==> (s.contains(y) || y == x)
        }),
{
    lemma_search_sorted(s, x);
    let p = search_index(s, x);
    if !search_found(s, x) {
        let t = s.insert(p, x);
        assert(t[p] == x);
        assert forall|a: int, b: int| 0 <= a <= b < t.len() implies t[a] <= t[b] by {
            if a < p {
                assert(t[a] == s[a]);
            }
            if a > p {
                assert(t[a] == s[a - 1]);
            }
            if b < p {
                assert(t[b] == s[b]);
            }
            if b > p {
                assert(t[b] == s[b - 1]);
            }
        }
        assert forall|y: u64| t.contains(y) <==> (s.contains(y) || y == x) by {
            if t.contains(y) {
                let k = choose|k: int| 0 <= k < t.len() && t[k] == y;
                if k < p {
                    assert(s[k] == y);
                } else if k > p {
                    assert(s[k - 1] == y);
                }
            }
            if s.contains(y) {
                let k = choose|k: int| 0 <= k < s.len() && s[k] == y;
                if k < p {
                    assert(t[k] == y);
                } else {
                    assert(t[k + 1] == y);
                }
            }
        }
    }
}

/// In a list in order without repeats, taking out what the search finds
/// for an id leaves the id absent and the list still in order.
pub proof fn law_remove_strict(s: Seq<u64>, x: u64)
    requires
        strictly_sorted(s),
    ensures
        ({
            let t = if search_found(s, x) {
                s.remove(search_index(s, x))
            } else {
                s
            };
            &&& strictly_sorted(t)
            &&& !t.contains(x)
            &&& forall|y: u64| y != x ==> (t.contains(y) <==> s.contains(y))
        }),
{
    assert(sorted(s));
    lemma_search_sorted(s, x);
    let p = search_index(s, x);
    if search_found(s, x) {
        let t = s.remove(p);
        assert forall|a: int, b: int| 0 <= a < b < t.len() implies t[a] < t[b] by {
            if a >= p {
                assert(t[a] == s[a + 1]);
            } else {
                assert(t[a] == s[a]);
            }
            if b >= p {
                assert(t[b] == s[b + 1]);
            } else {
                assert(t[b] == s[b]);
            }
        }
        assert forall|y: u64| #![auto] t.contains(y) ==> y != x && s.contains(y) by {
            if t.contains(y) {
                let k = choose|k: int| 0 <= k < t.len() && t[k] == y;
                if k < p {
                    assert(s[k] == y);
                    assert(s[k] < s[p]);
                } else {
                    assert(s[k + 1] == y);
                    assert(s[p] < s[k + 1]);
                }
            }
        }
        assert forall|y: u64| y != x && s.contains(y) implies t.contains(y) by {
            let k = choose|k: int| 0 <= k < s.len() && s[k] == y;
            if k < p {
                assert(t[k] == y);
            } else {
                assert(k != p);
                assert(t[k - 1] == y);
            }
        }
    }
}

/// Blacklisting a server that is not on a list in order without repeats,
/// then unblacklisting it, gives back the list as it was.
pub proof fn law_server_round_trip(s: Seq<u64>, x: u64)
    requires
        strictly_sorted(s),
        !s.contains(x),
    ensures
        ({
            let t = if search_found(s, x) {
                s
            } else {
                s.insert(search_index(s, x), x)
            };
            let u = if search_found(t, x) {
                t.remove(search_index(t, x))
            } else {
                t
            };
            u == s
        }),
{
    assert(sorted(s));
    lemma_search_sorted(s, x);
    let p = search_index(s, x);
    let t = s.insert(p, x);
    law_add_keeps_order(s, x);
    assert(!search_found(s, x));
    assert forall|a: int, b: int| 0 <= a < b < t.len() implies t[a] < t[b] by {
        if a < p {
            assert(t[a] == s[a]);
        }
        if a > p {
            assert(t[a] == s[a - 1]);
        }
        if b < p {
            assert(t[b] == s[b]);
        }
        if b > p {
            assert(t[b] == s[b - 1]);
        }
    }
    assert(strictly_sorted(t));
    assert(sorted(t));
    lemma_search_sorted(t, x);
    let q = search_index(t, x);
    assert(t[p] == x);
    assert(q <= p);
    assert(q == p) by {
        if q < p {
            assert(t[q] >= x);
            assert(t[q] < t[p]);
        }
    }
    assert(t.remove(p) =~= s);
}

/// Putting ids on a blacklist, or taking them off.
#[derive(PartialEq, Eq, Structural, Clone, Copy, Debug)]
pub enum Listing {
    Blacklist,
    Unblacklist,
}

/// The verb of a listing.
pub open spec fn listing_verb(l: Listing) -> Seq<char> {
    match l {
        Listing::Blacklist => "blacklist"@,
        Listing::Unblacklist => "unblacklist"@,
    }
}

fn verb_of(l: Listing) -> (r: &'static str)
    ensures
        r@ == listing_verb(l),
{
    match l {
        Listing::Blacklist => "blacklist",
        Listing::Unblacklist => "unblacklist",
    }
}

/// The owner is asked to confirm a listing of `names` with a reaction.
pub fn prompt(l: Listing, names: &Vec<String>) -> (r: String)
    ensures
        r@ == "Are you sure you want to "@ + listing_verb(l) + " "@ + join(
            names@.map_values(|n: String| n@),
            ", "@,
        ) + "?"@,
{
    let mut out = chars_of("Are you sure you want to ");
    append_str(&mut out, verb_of(l));
    append_str(&mut out, " ");
    let joined = join_names(names);
    append(&mut out, &joined);
    append_str(&mut out, "?");
    string_of(&out)
}

/// What the channel is told once the owner confirmed a listing.
pub fn accepted(l: Listing, names: &Vec<String>) -> (r: String)
    ensures
        r@ == "Ok, "@ + listing_verb(l) + "ing "@ + join(names@.map_values(|n: String| n@), ", "@),
{
    let mut out = chars_of("Ok, ");
    append_str(&mut out, verb_of(l));
    append_str(&mut out, "ing ");
    let joined = join_names(names);
    append(&mut out, &joined);
    string_of(&out)
}

fn join_names(names: &Vec<String>) -> (r: Vec<char>)
    ensures
        r@ == join(names@.map_values(|n: String| n@), ", "@),
{
    let mut parts: Vec<Vec<char>> = Vec::new();
    for i in 0..names.len()
        invariant
            parts@.len() == i,
            forall|k: int| 0 <= k < i ==> #[trigger] parts@[k]@ == names@[k]@,
    {
        parts.push(chars_of(names[i].as_str()));
    }
    assert(char_views(parts@) =~= names@.map_values(|n: String| n@));
    join_chars(&parts, ", ")
}

/// The ids of `ids`, written in decimal, for the prompts.
pub fn id_names(ids: &Vec<u64>) -> (r: Vec<String>)
    ensures
        r@.len() == ids@.len(),
        forall|k: int| 0 <= k < ids@.len() ==> #[trigger] r@[k]@ == decimal(ids@[k] as nat),
{
    let mut out: Vec<String> = Vec::new();
    for i in 0..ids.len()
        invariant
            out@.len() == i,
            forall|k: int| 0 <= k < i ==> #[trigger] out@[k]@ == decimal(ids@[k] as nat),
    {
        let d = render_u64(ids[i]);
        out.push(string_of(&d));
    }
    out
}

/// Whether the owner confirmed: the author is among those who reacted.
pub fn confirmed(reactors: &Vec<u64>, author: u64) -> (r: bool)
    ensures
        r == reactors@.contains(author),
{
    for i in 0..reactors.len()
        invariant
            forall|k: int| 0 <= k < i ==> reactors@[k] != author,
    {
        if reactors[i] == author {
            return true;
        }
    }
    false
}

/// The server a listing is about: the id given, else the server the
/// command came from, else the reply that refuses it.
pub fn server_target(l: Listing, argument: Option<u64>, guild: Option<u64>) -> (r: Result<u64, String>)
    ensures
        match argument {
            Some(a) => r == Ok::<u64, String>(a),
            None => match guild {
                Some(g) => r == Ok::<u64, String>(g),
                None => r matches Err(e) && e@ == "You must either mention a server or be in one to "@
                    + listing_verb(l) + " it"@,
            },
        },
{
    match argument {
        Some(a) => Ok(a),
        None => match guild {
            Some(g) => Ok(g),
            None => {
                let mut out = chars_of("You must either mention a server or be in one to ");
                append_str(&mut out, verb_of(l));
                append_str(&mut out, " it");
                Err(string_of(&out))
            },
        },
    }
}

/// What the channel is told when the owner does not confirm in time.
pub fn too_late() -> (r: &'static str)
    ensures
        r@ == "You took to much time to respond, canceling"@,
{
    "You took to much time to respond, canceling"
}

} // verus!
