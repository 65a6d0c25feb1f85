//! The Markov chain that the bot learns sentences into and generates
//! text from.
use vstd::multiset::Multiset;
use vstd::prelude::*;

use crate::text::{decimal, join, split_on};

verus! {

/// A state of the chain: the last tokens seen, `None` before the start.
pub type State = Seq<Option<Seq<char>>>;

/// A word chain of the `markov` crate, learning whole words.
#[verifier::external_body]
pub struct WordChain {
    chain: ::markov::Chain<String>,
}

/// What the chain has learnt: each pair a state and the token that
/// followed it (`None` for the end of a sentence), counted as often as the
/// chain's count for it says.
pub uninterp spec fn chain_transitions(c: WordChain) -> Multiset<(State, Option<Seq<char>>)>;

/// The number of tokens a state of the chain holds, fixed when the chain
/// is made.
pub uninterp spec fn chain_order(c: WordChain) -> nat;

/// The states the chain keeps a list of following tokens for, empty or
/// not.
pub uninterp spec fn chain_states(c: WordChain) -> Set<State>;

/// The pairs of a state and a following token that the chain keeps a
/// count for, whatever the count.
pub uninterp spec fn chain_entries(c: WordChain) -> Set<(State, Option<Seq<char>>)>;

/// The state before any token: `order` times nothing.
pub open spec fn start_state(order: nat) -> State {
    Seq::new(order, |i: int| None::<Seq<char>>)
}

/// The tokens of a sentence as the chain is fed them: `order` times
/// nothing, each word, and nothing for the end.
pub open spec fn padded(words: Seq<Seq<char>>, order: nat) -> State {
    start_state(order) + words.map_values(|w: Seq<char>| Some(w)) + seq![None::<Seq<char>>]
}

/// Each run of `order` tokens in `toks` with the token after it.
pub open spec fn windows(toks: State, order: nat) -> Multiset<(State, Option<Seq<char>>)>
    decreases toks.len(),
{
    if toks.len() <= order {
        Multiset::empty()
    } else {
        windows(toks.drop_last(), order).insert(
            (toks.subrange(toks.len() - 1 - order, toks.len() - 1), toks.last()),
        )
    }
}

/// What feeding the sentence `s` teaches a chain of the given order: its
/// words are the pieces between single spaces.
pub open spec fn lesson(s: Seq<char>, order: nat) -> Multiset<(State, Option<Seq<char>>)> {
    windows(padded(split_on(s, ' '), order), order)
}

/// The states that feeding the sentence `s` gives something to follow.
pub open spec fn lesson_states(s: Seq<char>, order: nat) -> Set<State> {
    Set::new(|st: State| exists|n: Option<Seq<char>>| lesson(s, order).count((st, n)) > 0)
}

/// Whether the chain has learnt what follows its start.
pub open spec fn has_start(c: WordChain) -> bool {
    exists|n: Option<Seq<char>>| chain_transitions(c).count((start_state(chain_order(c)), n)) > 0
}

/// Whether the chain has learnt anything after the state `s`.
pub open spec fn knows_state(c: WordChain, s: State) -> bool {
    exists|n: Option<Seq<char>>| chain_transitions(c).count((s, n)) > 0
}

/// Whether a walk over the transitions `t` from the state `s` can take the
/// words of `path` one after the other and then reach the end of a
/// sentence.
pub open spec fn ends_along(t: Multiset<(State, Option<Seq<char>>)>, s: State, path: Seq<Seq<char>>) -> bool
    decreases path.len(),
{
    if path.len() == 0 {
        t.count((s, None)) > 0
    } else {
        t.count((s, Some(path[0]))) > 0 && ends_along(
            t,
            s.drop_first().push(Some(path[0])),
            path.drop_first(),
        )
    }
}

/// Whether the chain can be walked to the end of a sentence without
/// running out of states: it has an order; it keeps a list for its start;
/// every state it keeps has the order's length, and has learnt something
/// unless it is the start; it keeps a count exactly for what it learnt,
/// under a state it keeps; every word it learnt after a state leads to a
/// state it learnt something after; the end of a sentence can be reached
/// from every state it learnt something after; and its counts add up to
/// no more than a `usize` holds.
pub open spec fn consistent(c: WordChain) -> bool {
    let t = chain_transitions(c);
    let order = chain_order(c);
    let states = chain_states(c);
    &&& order >= 1
    &&& t.len() <= usize::MAX
    &&& states.contains(start_state(order))
    &&& forall|s: State| #[trigger] states.contains(s) ==> s.len() == order
    &&& forall|s: State| #[trigger]
        states.contains(s) && s != start_state(order) ==> knows_state(c, s)
    &&& forall|p: (State, Option<Seq<char>>)|
        #![trigger chain_entries(c).contains(p)]
        #![trigger t.count(p)]
        chain_entries(c).contains(p) <==> t.count(p) > 0
    &&& forall|p: (State, Option<Seq<char>>)| #[trigger] t.count(p) > 0 ==> states.contains(p.0)
    &&& forall|s: State, w: Seq<char>|
        #[trigger] t.count((s, Some(w))) > 0 ==> knows_state(c, s.drop_first().push(Some(w)))
    &&& forall|s: State| #[trigger] knows_state(c, s) ==> exists|path: Seq<Seq<char>>| ends_along(t, s, path)
}

/// `markov::Chain::new`. Claimed, as the crate's source shows: a chain of
/// order one that keeps an empty list for its start and nothing else.
#[verifier::external_body]
fn word_chain_new() -> (r: WordChain)
    ensures
        chain_order(r) == 1,
        chain_transitions(r) == Multiset::<(State, Option<Seq<char>>)>::empty(),
        chain_entries(r) == Set::<(State, Option<Seq<char>>)>::empty(),
        chain_states(r) == set![start_state(1)],
{
    WordChain { chain: ::markov::Chain::new() }
}

/// `markov::Chain::feed_str`. Claimed, as the crate's source shows: the
/// text is cut at every space, and the chain counts each run of `order`
/// tokens of the padded sentence with the token after it, keeping a list
/// and a count for each; its order stays. A count past the largest `usize`
/// would overflow, so the counts must have room for the sentence.
#[verifier::external_body]
fn word_chain_feed_str(c: &mut WordChain, s: &str)
    requires
        chain_transitions(*old(c)).len() + split_on(s@, ' ').len() + 1 <= usize::MAX,
    ensures
        chain_order(*final(c)) == chain_order(*old(c)),
        chain_transitions(*final(c)) == chain_transitions(*old(c)).add(
            lesson(s@, chain_order(*old(c))),
        ),
        chain_entries(*final(c)) == chain_entries(*old(c)).union(
            lesson(s@, chain_order(*old(c))).dom(),
        ),
        chain_states(*final(c)) == chain_states(*old(c)).union(
            lesson_states(s@, chain_order(*old(c))),
        ),
{
    c.chain.feed_str(s);
}

/// What a chain holds, as the four names give it: what it learnt, its
/// order, the states it keeps and the entries it keeps.
pub type Contents = (Multiset<(State, Option<Seq<char>>)>, nat, Set<State>, Set<(State, Option<Seq<char>>)>);

/// The contents of a chain.
pub open spec fn chain_contents(c: WordChain) -> Contents {
    (chain_transitions(c), chain_order(c), chain_states(c), chain_entries(c))
}

/// The contents of the word chain of the `markov` crate that
/// `serde_yaml::from_str` reads from `text`, or `None` when it reads none.
pub uninterp spec fn saved_chain(text: Seq<char>) -> Option<Contents>;

/// `serde_yaml::from_str` for a `markov::Chain<String>`, the format that
/// `markov::Chain::save` writes and `markov::Chain::load` reads. Claimed:
/// whether it succeeds, and what the chain read holds, depend on the text
/// alone, named `saved_chain`.
#[verifier::external_body]
fn word_chain_from_yaml(text: &str) -> (r: Option<WordChain>)
    ensures
        match r {
            Some(c) => saved_chain(text@) == Some(chain_contents(c)),
            None => saved_chain(text@) is None,
        },
{
    match serde_yaml::from_str::<::markov::Chain<String>>(text) {
        Ok(chain) => Some(WordChain { chain }),
        Err(_) => None,
    }
}

/// `serde_yaml::to_string` of the chain, the text `markov::Chain::save`
/// writes. Claimed, as the crates' sources show: writing into memory never
/// fails; the text is a document marker, the chain's `map` field and
/// then its `order` field in decimal, each on a line of its own; and
/// `serde_yaml::from_str` reads the text back as a chain holding what this
/// one holds, both sides being derived on the same struct (the writer
/// quotes every word that would read back otherwise). Which text it is
/// between those lines is not claimed: the order of its entries follows
/// how the chain's hash maps are walked.
#[verifier::external_body]
fn word_chain_to_yaml(c: &WordChain) -> (r: Option<String>)
    ensures
        match r {
            Some(t) => saved_text(t@, chain_order(*c)) && saved_chain(t@) == Some(
                chain_contents(*c),
            ),
            None => false,
        },
{
    serde_yaml::to_string(&c.chain).ok()
}

/// Whether `text` is the words of a path the chain learnt from the state
/// `s` to the end of a sentence, joined by spaces.
pub open spec fn walked_from(c: WordChain, s: State, text: Seq<char>) -> bool {
    exists|path: Seq<Seq<char>>| ends_along(chain_transitions(c), s, path) && text == join(path, " "@)
}

/// Whether `text` is the word `w` followed by the words of a path the
/// chain learnt from the state that ends in `w` to the end of a sentence,
/// joined by spaces.
pub open spec fn walked_from_token(c: WordChain, w: Seq<char>, text: Seq<char>) -> bool {
    exists|path: Seq<Seq<char>>|
        ends_along(chain_transitions(c), token_state(w, chain_order(c)), path) && text == join(
            seq![w] + path,
            " "@,
        )
}

/// Whether `t` is a saved chain's text for a chain of the given order:
/// `---`, a line that starts with the `map` field, and the last line
/// holding the `order` field.
pub open spec fn saved_text(t: Seq<char>, order: nat) -> bool {
    exists|middle: Seq<char>|
        t == "---\nmap:"@ + middle + "\norder: "@ + decimal(order) + "\n"@
}

/// `markov::Chain::is_empty`. Claimed, as the crate's source shows: the
/// chain is empty when the list it keeps for its start is; the list must
/// be there.
#[verifier::external_body]
fn word_chain_is_empty(c: &WordChain) -> (r: bool)
    requires
        chain_states(*c).contains(start_state(chain_order(*c))),
    ensures
        r == (forall|n: Option<Seq<char>>|
            !chain_entries(*c).contains((start_state(chain_order(*c)), n))),
{
    c.chain.is_empty()
}

/// `markov::Chain::generate_str`: a random walk from the start, the words
/// joined by spaces. Claimed, as the crate's source shows: the words are
/// a path the chain learnt from its start to the end of a sentence, each
/// word picked among those counted after the state before it. Which path
/// is taken rests on chance and is not claimed. The walk needs somewhere
/// to start, a state for every word it takes and a way to the end from
/// each.
#[verifier::external_body]
fn word_chain_generate_str(c: &WordChain) -> (r: String)
    requires
        consistent(*c),
        has_start(*c),
    ensures
        walked_from(*c, start_state(chain_order(*c)), r@),
{
    c.chain.generate_str()
}

/// `markov::Chain::generate_str_from_token`: a random walk from the
/// state that ends in the word `s`, the words joined by spaces. Claimed,
/// as the crate's source shows: the text is empty when the chain keeps no
/// list for that state; otherwise it is `s` followed by the words of a
/// path the chain learnt from that state to the end of a sentence. Which
/// path is taken rests on chance and is not claimed.
#[verifier::external_body]
fn word_chain_generate_str_from_token(c: &WordChain, s: &str) -> (r: String)
    requires
        consistent(*c),
    ensures
        !chain_states(*c).contains(token_state(s@, chain_order(*c))) ==> r@.len() == 0,
        chain_states(*c).contains(token_state(s@, chain_order(*c))) ==> walked_from_token(
            *c,
            s@,
            r@,
        ),
{
    c.chain.generate_str_from_token(s)
}

/// The state a walk from the word `w` starts at.
pub open spec fn token_state(w: Seq<char>, order: nat) -> State {
    start_state((order - 1) as nat).push(Some(w))
}

/// Learns sentences and makes up new ones.
pub struct Markov {
    pub chain: WordChain,
}

impl Markov {
    /// The chain saved as the text `saved`, holding what the text says, or
    /// a fresh one when nothing was saved. A text that is not a saved chain
    /// is not taken.
    pub fn new(saved: Option<&str>) -> (m: Markov)
        requires
            saved matches Some(text) ==> saved_chain(text@) is Some,
        ensures
            match saved {
                Some(text) => saved_chain(text@) == Some(chain_contents(m.chain)),
                None => {
                    &&& chain_order(m.chain) == 1
                    &&& chain_transitions(m.chain) == Multiset::<(State, Option<Seq<char>>)>::empty()
                    &&& chain_entries(m.chain) == Set::<(State, Option<Seq<char>>)>::empty()
                    &&& chain_states(m.chain) == set![start_state(1)]
                },
            },
    {
        match saved {
            Some(text) => match word_chain_from_yaml(text) {
                Some(chain) => Markov { chain },
                None => Markov { chain: word_chain_new() },
            },
            None => Markov { chain: word_chain_new() },
        }
    }

    /// `Markov::new`, after finding out whether the saved text is a saved
    /// chain: `None` when it is not.
    pub fn try_new(saved: Option<&str>) -> (r: Option<Markov>)
        ensures
            match saved {
                Some(text) => match r {
                    Some(m) => saved_chain(text@) == Some(chain_contents(m.chain)),
                    None => saved_chain(text@) is None,
                },
                None => r matches Some(m) && {
                    &&& chain_order(m.chain) == 1
                    &&& chain_transitions(m.chain) == Multiset::<(State, Option<Seq<char>>)>::empty()
                    &&& chain_entries(m.chain) == Set::<(State, Option<Seq<char>>)>::empty()
                    &&& chain_states(m.chain) == set![start_state(1)]
                },
            },
    {
        if let Some(text) = saved {
            if word_chain_from_yaml(text).is_none() {
                return None;
            }
        }
        Some(Markov::new(saved))
    }

    /// The text the chain is saved as: it can always be written out, it
    /// ends with the chain's order, and it reads back as this chain.
    pub fn save(&self) -> (r: Option<String>)
        ensures
            match r {
                Some(t) => saved_text(t@, chain_order(self.chain)) && saved_chain(t@) == Some(
                    chain_contents(self.chain),
                ),
                None => false,
            },
    {
        word_chain_to_yaml(&self.chain)
    }

    /// Learns the sentence `string`, as long as the counts have room for
    /// it.
    pub fn feed_str(&mut self, string: &str)
        requires
            chain_transitions(old(self).chain).len() + split_on(string@, ' ').len() + 1
                <= usize::MAX,
        ensures
            chain_order(final(self).chain) == chain_order(old(self).chain),
            chain_transitions(final(self).chain) == chain_transitions(old(self).chain).add(
                lesson(string@, chain_order(old(self).chain)),
            ),
            chain_entries(final(self).chain) == chain_entries(old(self).chain).union(
                lesson(string@, chain_order(old(self).chain)).dom(),
            ),
            chain_states(final(self).chain) == chain_states(old(self).chain).union(
                lesson_states(string@, chain_order(old(self).chain)),
            ),
    {
        word_chain_feed_str(&mut self.chain, string);
    }

    /// Whether nothing has been learnt after the start: for a chain that
    /// can be walked, whether it has learnt nothing at all.
    pub fn is_empty(&self) -> (r: bool)
        requires
            chain_states(self.chain).contains(start_state(chain_order(self.chain))),
        ensures
            r == (forall|n: Option<Seq<char>>|
                !chain_entries(self.chain).contains((start_state(chain_order(self.chain)), n))),
            consistent(self.chain) ==> (r == !has_start(self.chain)),
    {
        let r = word_chain_is_empty(&self.chain);
        proof {
            if consistent(self.chain) {
                let start = start_state(chain_order(self.chain));
                if has_start(self.chain) {
                    let n = choose|n: Option<Seq<char>>|
                        chain_transitions(self.chain).count((start, n)) > 0;
                    assert(chain_entries(self.chain).contains((start, n)));
                }
            }
        }
        r
    }

    /// A made-up sentence: the words of a path the chain learnt from its
    /// start to the end of a sentence, joined by spaces.
    pub fn generate_str(&self) -> (r: String)
        requires
            consistent(self.chain),
            has_start(self.chain),
        ensures
            walked_from(self.chain, start_state(chain_order(self.chain)), r@),
    {
        word_chain_generate_str(&self.chain)
    }

    /// A made-up sentence, when something has been learnt.
    pub fn try_generate_str(&self) -> (r: Option<String>)
        requires
            consistent(self.chain),
        ensures
            r is Some <==> has_start(self.chain),
            r matches Some(t) ==> walked_from(self.chain, start_state(chain_order(self.chain)), t@),
    {
        if self.is_empty() {
            None
        } else {
            Some(word_chain_generate_str(&self.chain))
        }
    }

    /// A made-up sentence that starts with the word `string`: empty when
    /// that word never started a state, and otherwise the word followed by
    /// the words of a path the chain learnt from its state to the end of a
    /// sentence, joined by spaces.
    pub fn generate_str_from_token(&self, string: &str) -> (r: String)
        requires
            consistent(self.chain),
        ensures
            !knows_state(self.chain, token_state(string@, chain_order(self.chain))) ==> r@.len()
                == 0,
            knows_state(self.chain, token_state(string@, chain_order(self.chain)))
                ==> walked_from_token(self.chain, string@, r@),
    {
        let r = word_chain_generate_str_from_token(&self.chain, string);
        proof {
            let order = chain_order(self.chain);
            let ts = token_state(string@, order);
            let start = start_state(order);
            assert(ts.len() == order);
            assert(ts[order - 1] == Some(string@));
            assert(start[order - 1] == None::<Seq<char>>);
            assert(ts != start);
            if knows_state(self.chain, ts) {
                let n = choose|n: Option<Seq<char>>| chain_transitions(self.chain).count((ts, n)) > 0;
                assert(chain_transitions(self.chain).count((ts, n)) > 0);
                assert(chain_states(self.chain).contains((ts, n).0));
            }
        }
        r
    }
}

proof fn lemma_windows_member(toks: State, order: nat, x: (State, Option<Seq<char>>))
    ensures
        windows(toks, order).count(x) > 0 <==> exists|i: int|
            0 <= i && i + order < toks.len() && x == (toks.subrange(i, i + order), #[trigger] toks[i
                + order]),
    decreases toks.len(),
{
    broadcast use vstd::multiset::group_multiset_axioms;

    if toks.len() > order {
        let d = toks.drop_last();
        lemma_windows_member(d, order, x);
        let last = (toks.subrange(toks.len() - 1 - order, toks.len() - 1), toks.last());
        if windows(toks, order).count(x) > 0 {
            if x == last {
                let i = toks.len() - 1 - order;
                assert(toks[i + order] == toks.last());
            } else {
                let i = choose|i: int|
                    0 <= i && i + order < d.len() && x == (d.subrange(i, i + order), #[trigger] d[i
                        + order]);
                assert(d.subrange(i, i + order) == toks.subrange(i, i + order));
                assert(d[i + order] == toks[i + order]);
            }
        }
        if exists|i: int|
            0 <= i && i + order < toks.len() && x == (toks.subrange(i, i + order), #[trigger] toks[i
                + order]) {
            let i = choose|i: int|
                0 <= i && i + order < toks.len() && x == (toks.subrange(i, i + order), #[trigger] toks[i
                    + order]);
            if i + order < d.len() {
                assert(d.subrange(i, i + order) == toks.subrange(i, i + order));
                assert(d[i + order] == toks[i + order]);
            } else {
                assert(x == last);
            }
        }
    }
}

proof fn lemma_windows_len(toks: State, order: nat)
    ensures
        windows(toks, order).len() == if toks.len() > order {
            toks.len() - order
        } else {
            0
        },
    decreases toks.len(),
{
    broadcast use vstd::multiset::group_multiset_axioms;

    if toks.len() > order {
        lemma_windows_len(toks.drop_last(), order);
    }
}

proof fn lemma_padded(words: Seq<Seq<char>>, order: nat)
    requires
        words.len() >= 1,
    ensures
        padded(words, order).len() == order + words.len() + 1,
        padded(words, order).subrange(0, order as int) == start_state(order),
        padded(words, order).last() == None::<Seq<char>>,
{
    let p = padded(words, order);
    assert(p.subrange(0, order as int) =~= start_state(order));
}

/// What one sentence teaches can be walked: every word learnt after a
/// state leads to a state learnt too, every state has the order's length,
/// and the start is learnt.
proof fn lemma_lesson_closed(s: Seq<char>, order: nat)
    requires
        order >= 1,
    ensures
        forall|st: State, n: Option<Seq<char>>| #[trigger] lesson(s, order).count((st, n)) > 0
            ==> st.len() == order,
        forall|st: State, w: Seq<char>|
            #[trigger] lesson(s, order).count((st, Some(w))) > 0 ==> exists|n: Option<Seq<char>>|
                lesson(s, order).count((st.drop_first().push(Some(w)), n)) > 0,
        exists|n: Option<Seq<char>>| lesson(s, order).count((start_state(order), n)) > 0,
        lesson(s, order).len() == split_on(s, ' ').len() + 1,
{
    let words = split_on(s, ' ');
    crate::text::lemma_split_nonempty(s, ' ');
    let toks = padded(words, order);
    lemma_padded(words, order);
    lemma_windows_len(toks, order);
    assert forall|st: State, n: Option<Seq<char>>| #[trigger] lesson(s, order).count((st, n)) > 0
        implies st.len() == order by {
        lemma_windows_member(toks, order, (st, n));
    }
    assert forall|st: State, w: Seq<char>| #[trigger] lesson(s, order).count((st, Some(w))) > 0
        implies exists|n: Option<Seq<char>>|
        lesson(s, order).count((st.drop_first().push(Some(w)), n)) > 0 by {
        lemma_windows_member(toks, order, (st, Some(w)));
        let i = choose|i: int|
            0 <= i && i + order < toks.len() && (st, Some(w)) == (toks.subrange(i, i + order),
                #[trigger] toks[i + order]);
        assert(i + order < toks.len() - 1);
        assert(st == toks.subrange(i, i + order));
        assert(st.len() == order);
        let next = (toks.subrange(i + 1, i + 1 + order), toks[i + 1 + order]);
        assert(toks.subrange(i + 1, i + 1 + order) =~= st.drop_first().push(Some(w)));
        lemma_windows_member(toks, order, next);
        assert(lesson(s, order).count(next) > 0);
    }
    let first = (toks.subrange(0, order as int), toks[order as int]);
    lemma_windows_member(toks, order, first);
    assert(toks[0int + order] == toks[order as int]);
    assert(first == (toks.subrange(0, 0int + order), toks[0int + order]));
    assert(lesson(s, order).count((start_state(order), toks[order as int])) > 0);
}

/// More transitions never make the end of a sentence harder to reach.
proof fn lemma_ends_grow(
    t1: Multiset<(State, Option<Seq<char>>)>,
    t2: Multiset<(State, Option<Seq<char>>)>,
    s: State,
    path: Seq<Seq<char>>,
)
    requires
        forall|p: (State, Option<Seq<char>>)| t1.count(p) <= #[trigger] t2.count(p),
        ends_along(t1, s, path),
    ensures
        ends_along(t2, s, path),
    decreases path.len(),
{
    if path.len() > 0 {
        lemma_ends_grow(t1, t2, s.drop_first().push(Some(path[0])), path.drop_first());
        assert(t2.count((s, Some(path[0]))) >= t1.count((s, Some(path[0]))));
    } else {
        assert(t2.count((s, None)) >= t1.count((s, None)));
    }
}

/// From the state at position `i` of a fed sentence, the rest of its
/// words lead to its end.
proof fn lemma_sentence_ends(words: Seq<Seq<char>>, order: nat, i: int)
    requires
        words.len() >= 1,
        order >= 1,
        0 <= i <= words.len(),
    ensures
        ends_along(
            windows(padded(words, order), order),
            padded(words, order).subrange(i, i + order),
            words.subrange(i, words.len() as int),
        ),
    decreases words.len() - i,
{
    let toks = padded(words, order);
    let t = windows(toks, order);
    let st = toks.subrange(i, i + order);
    let path = words.subrange(i, words.len() as int);
    lemma_padded(words, order);
    lemma_windows_member(toks, order, (st, toks[i + order]));
    assert(t.count((st, toks[i + order])) > 0);
    if i == words.len() {
        assert(toks[i + order] == None::<Seq<char>>);
        assert(path.len() == 0);
    } else {
        let w = words[i];
        assert(toks[i + order] == Some(w));
        lemma_sentence_ends(words, order, i + 1);
        assert(toks.subrange(i + 1, i + 1 + order) =~= st.drop_first().push(Some(w)));
        assert(path[0] == w);
        assert(path.drop_first() =~= words.subrange(i + 1, words.len() as int));
    }
}

/// The end of a fed sentence can be reached from every state it teaches
/// something after.
proof fn lemma_lesson_ends(s: Seq<char>, order: nat, st: State)
    requires
        order >= 1,
        exists|n: Option<Seq<char>>| lesson(s, order).count((st, n)) > 0,
    ensures
        exists|path: Seq<Seq<char>>| ends_along(lesson(s, order), st, path),
{
    let words = split_on(s, ' ');
    crate::text::lemma_split_nonempty(s, ' ');
    let toks = padded(words, order);
    let n = choose|n: Option<Seq<char>>| lesson(s, order).count((st, n)) > 0;
    lemma_windows_member(toks, order, (st, n));
    let i = choose|i: int|
        0 <= i && i + order < toks.len() && (st, n) == (toks.subrange(i, i + order), #[trigger] toks[i
            + order]);
    lemma_padded(words, order);
    lemma_sentence_ends(words, order, i);
    assert(ends_along(lesson(s, order), st, words.subrange(i, words.len() as int)));
}

/// A fresh chain can be walked, and has learnt nothing.
pub proof fn law_fresh_chain(c: WordChain)
    requires
        chain_order(c) == 1,
        chain_transitions(c) == Multiset::<(State, Option<Seq<char>>)>::empty(),
        chain_entries(c) == Set::<(State, Option<Seq<char>>)>::empty(),
        chain_states(c) == set![start_state(1)],
    ensures
        consistent(c),
        !has_start(c),
{
    broadcast use vstd::multiset::group_multiset_axioms;

    assert(start_state(1).len() == 1);
}

/// Feeding a sentence to a chain that can be walked leaves one that can be
/// walked, and that has learnt what follows its start, as long as its
/// counts still fit.
pub proof fn law_feed_keeps_consistent(before: WordChain, after: WordChain, s: Seq<char>)
    requires
        consistent(before),
        chain_order(after) == chain_order(before),
        chain_transitions(after) == chain_transitions(before).add(lesson(s, chain_order(before))),
        chain_entries(after) == chain_entries(before).union(lesson(s, chain_order(before)).dom()),
        chain_states(after) == chain_states(before).union(lesson_states(s, chain_order(before))),
        chain_transitions(before).len() + split_on(s, ' ').len() + 1 <= usize::MAX,
    ensures
        consistent(after),
        has_start(after),
{
    broadcast use vstd::multiset::group_multiset_axioms;

    let order = chain_order(before);
    let old_t = chain_transitions(before);
    let l = lesson(s, order);
    let t = chain_transitions(after);
    let start = start_state(order);
    lemma_lesson_closed(s, order);
    assert forall|st: State| #[trigger] chain_states(after).contains(st) implies st.len() == order by {
        if !chain_states(before).contains(st) {
            assert(lesson_states(s, order).contains(st));
            let n = choose|n: Option<Seq<char>>| l.count((st, n)) > 0;
        }
    }
    assert forall|st: State| #[trigger] chain_states(after).contains(st) && st != start implies knows_state(
        after,
        st,
    ) by {
        if chain_states(before).contains(st) {
            let n = choose|n: Option<Seq<char>>| old_t.count((st, n)) > 0;
            assert(t.count((st, n)) > 0);
        } else {
            assert(lesson_states(s, order).contains(st));
            let n = choose|n: Option<Seq<char>>| l.count((st, n)) > 0;
            assert(t.count((st, n)) > 0);
        }
    }
    assert forall|p: (State, Option<Seq<char>>)| #[trigger] t.count(p) > 0 implies chain_states(
        after,
    ).contains(p.0) by {
        if old_t.count(p) > 0 {
        } else {
            assert(l.count((p.0, p.1)) > 0);
            assert(lesson_states(s, order).contains(p.0));
        }
    }
    assert forall|p: (State, Option<Seq<char>>)|
        #![trigger chain_entries(after).contains(p)]
        #![trigger t.count(p)]
        chain_entries(after).contains(p) <==> t.count(p) > 0 by {
        if l.count(p) > 0 {
            assert(l.dom().contains(p));
        }
    }
    assert forall|st: State, w: Seq<char>| #[trigger] t.count((st, Some(w))) > 0 implies knows_state(
        after,
        st.drop_first().push(Some(w)),
    ) by {
        let nx = st.drop_first().push(Some(w));
        if old_t.count((st, Some(w))) > 0 {
            assert(knows_state(before, nx));
            let n = choose|n: Option<Seq<char>>| old_t.count((nx, n)) > 0;
            assert(t.count((nx, n)) > 0);
        } else {
            assert(l.count((st, Some(w))) > 0);
            let n = choose|n: Option<Seq<char>>| l.count((nx, n)) > 0;
            assert(t.count((nx, n)) > 0);
        }
    }
    assert forall|st: State| #[trigger] knows_state(after, st) implies exists|path: Seq<Seq<char>>|
        ends_along(t, st, path) by {
        let n = choose|n: Option<Seq<char>>| t.count((st, n)) > 0;
        if old_t.count((st, n)) > 0 {
            assert(knows_state(before, st));
            let path = choose|path: Seq<Seq<char>>| ends_along(old_t, st, path);
            lemma_ends_grow(old_t, t, st, path);
        } else {
            assert(l.count((st, n)) > 0);
            lemma_lesson_ends(s, order, st);
            let path = choose|path: Seq<Seq<char>>| ends_along(l, st, path);
            lemma_ends_grow(l, t, st, path);
        }
    }
    let n = choose|n: Option<Seq<char>>| l.count((start, n)) > 0;
    assert(t.count((start, n)) > 0);
}

/// Positions of a sentence fed to an order-one chain, its words all
/// different, are told apart by their token: the start by nothing, each
/// word by itself.
proof fn lemma_distinct_positions(words: Seq<Seq<char>>, i: int, m: int)
    requires
        words.len() >= 1,
        forall|a: int, b: int| 0 <= a < b < words.len() ==> words[a] != words[b],
        0 <= i <= words.len(),
        0 <= m <= words.len(),
        padded(words, 1)[i] == padded(words, 1)[m],
    ensures
        i == m,
{
    let toks = padded(words, 1);
    lemma_padded(words, 1);
    assert forall|j: int| 1 <= j <= words.len() implies toks[j] == Some(words[j - 1]) by {}
    assert(toks[0] == None::<Seq<char>>);
    if i != m {
        if i == 0 {
            assert(toks[m] == Some(words[m - 1]));
        } else if m == 0 {
            assert(toks[i] == Some(words[i - 1]));
        } else if i < m {
            assert(words[i - 1] != words[m - 1]);
        } else {
            assert(words[m - 1] != words[i - 1]);
        }
    }
}

/// In an order-one chain that learnt one sentence with words all
/// different, the only way to the end of the sentence from the state at
/// position `i` is the rest of its words.
proof fn lemma_only_path(words: Seq<Seq<char>>, i: int, path: Seq<Seq<char>>)
    requires
        words.len() >= 1,
        forall|a: int, b: int| 0 <= a < b < words.len() ==> words[a] != words[b],
        0 <= i <= words.len(),
        ends_along(windows(padded(words, 1), 1), padded(words, 1).subrange(i, i + 1), path),
    ensures
        path == words.subrange(i, words.len() as int),
    decreases path.len(),
{
    let toks = padded(words, 1);
    let t = windows(toks, 1);
    let st = toks.subrange(i, i + 1);
    lemma_padded(words, 1);
    let next = if path.len() == 0 {
        None::<Seq<char>>
    } else {
        Some(path[0])
    };
    assert(t.count((st, next)) > 0);
    lemma_windows_member(toks, 1, (st, next));
    let m = choose|m: int|
        0 <= m && m + 1 < toks.len() && (st, next) == (toks.subrange(m, m + 1), #[trigger] toks[m
            + 1]);
    assert(toks[m] == toks.subrange(m, m + 1)[0]);
    assert(toks[i] == st[0]);
    lemma_distinct_positions(words, i, m);
    if path.len() == 0 {
        if i < words.len() {
            assert(toks[i + 1] == Some(words[i]));
        }
        assert(words.subrange(i, words.len() as int) =~= path);
    } else {
        assert(toks[i + 1] == Some(path[0]));
        assert(i < words.len());
        assert(toks[i + 1] == Some(words[i]));
        assert(toks.subrange(i + 1, i + 2) =~= st.drop_first().push(Some(path[0])));
        lemma_only_path(words, i + 1, path.drop_first());
        assert(path[0] == words[i]);
        assert forall|k: int| 0 <= k < path.len() implies path[k] == words.subrange(
            i,
            words.len() as int,
        )[k] by {
            if k > 0 {
                assert(path[k] == path.drop_first()[k - 1]);
            }
        }
        assert(path.len() == words.len() - i);
        assert(path =~= words.subrange(i, words.len() as int));
    }
}

/// A fresh chain fed one sentence whose words are all different gives the
/// sentence back: every walk from its start, and only such a walk, spells
/// the sentence; a walk from any of its words spells the sentence from
/// that word on.
pub proof fn law_fed_sentence_comes_back(before: WordChain, after: WordChain, s: Seq<char>)
    requires
        chain_order(before) == 1,
        chain_transitions(before) == Multiset::<(State, Option<Seq<char>>)>::empty(),
        chain_order(after) == chain_order(before),
        chain_transitions(after) == chain_transitions(before).add(lesson(s, chain_order(before))),
        forall|a: int, b: int|
            0 <= a < b < split_on(s, ' ').len() ==> split_on(s, ' ')[a] != split_on(s, ' ')[b],
    ensures
        walked_from(after, start_state(1), s),
        forall|text: Seq<char>| walked_from(after, start_state(1), text) ==> text == s,
        forall|j: int|
            0 <= j < split_on(s, ' ').len() ==> knows_state(after, token_state(split_on(s, ' ')[j], 1)),
        forall|j: int, text: Seq<char>|
            0 <= j < split_on(s, ' ').len() && walked_from_token(after, split_on(s, ' ')[j], text)
                ==> text == join(split_on(s, ' ').subrange(j, split_on(s, ' ').len() as int), " "@),
{
    broadcast use vstd::multiset::group_multiset_axioms;

    let words = split_on(s, ' ');
    crate::text::lemma_split_nonempty(s, ' ');
    let toks = padded(words, 1);
    let l = lesson(s, 1);
    lemma_padded(words, 1);
    assert(chain_transitions(after) =~= l);
    reveal_strlit(" ");
    assert(" "@ =~= seq![' ']);
    crate::text::lemma_join_split(s, ' ');
    assert(toks.subrange(0, 1) =~= start_state(1));
    lemma_sentence_ends(words, 1, 0);
    assert(words.subrange(0, words.len() as int) =~= words);
    assert forall|text: Seq<char>| walked_from(after, start_state(1), text) implies text == s by {
        let path = choose|path: Seq<Seq<char>>|
            ends_along(chain_transitions(after), start_state(1), path) && text == join(path, " "@);
        lemma_only_path(words, 0, path);
    }
    assert forall|j: int| 0 <= j < words.len() implies knows_state(
        after,
        token_state(#[trigger] words[j], 1),
    ) by {
        assert(toks.subrange(j + 1, j + 2) =~= token_state(words[j], 1));
        assert(toks[j + 1] == Some(words[j]));
        let next = toks[j + 2];
        assert(toks.subrange(j + 1, j + 1 + 1) == token_state(words[j], 1));
        lemma_windows_member(toks, 1, (token_state(words[j], 1), next));
        assert(l.count((token_state(words[j], 1), next)) > 0);
    }
    assert forall|j: int, text: Seq<char>|
        0 <= j < words.len() && #[trigger] walked_from_token(after, words[j], text) implies text
        == join(words.subrange(j, words.len() as int), " "@) by {
        let path = choose|path: Seq<Seq<char>>|
            ends_along(chain_transitions(after), token_state(words[j], 1), path) && text == join(
                seq![words[j]] + path,
                " "@,
            );
        assert(toks.subrange(j + 1, j + 2) =~= token_state(words[j], 1));
        lemma_only_path(words, j + 1, path);
        assert(seq![words[j]] + words.subrange(j + 1, words.len() as int) =~= words.subrange(
            j,
            words.len() as int,
        ));
    }
}

/// Saving a chain and loading the text gives back a chain holding what it
/// held, which can be walked exactly when the saved one could.
pub proof fn law_save_then_load(c: WordChain, t: Seq<char>, loaded: WordChain)
    requires
        saved_chain(t) == Some(chain_contents(c)),
        saved_chain(t) == Some(chain_contents(loaded)),
    ensures
        chain_transitions(loaded) == chain_transitions(c),
        chain_order(loaded) == chain_order(c),
        chain_states(loaded) == chain_states(c),
        chain_entries(loaded) == chain_entries(c),
        consistent(loaded) <==> consistent(c),
        has_start(loaded) <==> has_start(c),
{
    assert(chain_contents(loaded) == chain_contents(c));
    assert forall|s: State| knows_state(loaded, s) <==> knows_state(c, s) by {}
}

} // verus!
