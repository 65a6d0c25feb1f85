//! Command usage counters: how a count is kept in the database, and how
//! the `command_counter` command lists them.
use vstd::prelude::*;

use crate::external::{title_case, to_title_case, utf8_string};

verus! {

/// The number that the big-endian bytes `b` write.
pub open spec fn be_value(b: Seq<u8>) -> nat
    decreases b.len(),
{
    if b.len() == 0 {
        0
    } else {
        be_value(b.drop_last()) * 256 + (b.last() as nat)
    }
}

/// The `k` big-endian bytes of `n`, dropping higher ones.
pub open spec fn be_bytes(n: nat, k: nat) -> Seq<u8>
    decreases k,
{
    if k == 0 {
        Seq::empty()
    } else {
        be_bytes(n / 256, (k - 1) as nat).push((n % 256) as u8)
    }
}

/// `256` to the power `k`.
pub open spec fn pow256(k: nat) -> nat
    decreases k,
{
    if k == 0 {
        1
    } else {
        pow256((k - 1) as nat) * 256
    }
}

fn be_encode(n: u64, k: usize) -> (r: Vec<u8>)
    ensures
        r@ == be_bytes(n as nat, k as nat),
    decreases k,
{
    if k == 0 {
        Vec::new()
    } else {
        let mut v = be_encode(n / 256, k - 1);
        v.push((n % 256) as u8);
        v
    }
}

proof fn lemma_be_value_bound(b: Seq<u8>)
    ensures
        be_value(b) < pow256(b.len()),
    decreases b.len(),
{
    if b.len() > 0 {
        lemma_be_value_bound(b.drop_last());
        let v = be_value(b.drop_last());
        let p = pow256(b.drop_last().len());
        assert(v * 256 + b.last() < p * 256) by (nonlinear_arith)
            requires
                v < p,
                b.last() < 256,
        ;
    }
}

fn be_decode(b: &[u8]) -> (r: u64)
    requires
        b@.len() == 8,
    ensures
        r == be_value(b@),
{
    let mut acc: u64 = 0;
    let mut i: usize = 0;
    while i < 8
        invariant
            i <= 8,
            b@.len() == 8,
            acc == be_value(b@.take(i as int)),
        decreases 8 - i,
    {
        proof {
            lemma_be_value_bound(b@.take(i as int));
            assert(pow256(7) == 72057594037927936) by {
                reveal_with_fuel(pow256, 8);
            }
            lemma_pow_mono(i as nat, 7);
            assert(b@.take(i + 1).drop_last() == b@.take(i as int));
        }
        acc = acc * 256 + b[i] as u64;
        i = i + 1;
    }
    assert(b@.take(8) == b@);
    acc
}

proof fn lemma_pow_mono(a: nat, b: nat)
    requires
        a <= b,
    ensures
        pow256(a) <= pow256(b),
    decreases b,
{
    if a < b {
        lemma_pow_mono(a, (b - 1) as nat);
    }
}

/// Keeps the command counters in the database.
pub struct Database;

impl Database {
    /// The counter after one more use: a stored count goes up by one, and
    /// a counter not yet stored starts at zero. A stored count is eight
    /// big-endian bytes below the largest `u64`.
    pub fn increment(old: Option<&[u8]>) -> (r: Option<Vec<u8>>)
        requires
            old matches Some(b) ==> b@.len() == 8 && be_value(b@) < u64::MAX,
        ensures
            r matches Some(v) && v@ == be_bytes(
                match old {
                    Some(b) => be_value(b@) + 1,
                    None => 0,
                },
                8,
            ),
    {
        let number: u64 = match old {
            Some(bytes) => be_decode(bytes) + 1,
            None => 0,
        };
        Some(be_encode(number, 8))
    }
}

/// A stored count reads back as the number it was made from.
pub proof fn law_count_round_trip(n: u64)
    ensures
        be_value(be_bytes(n as nat, 8)) == n,
        be_bytes(n as nat, 8).len() == 8,
{
    lemma_round_trip(n as nat, 8);
    assert(pow256(8) == 18446744073709551616) by {
        reveal_with_fuel(pow256, 9);
    }
}

proof fn lemma_round_trip(n: nat, k: nat)
    ensures
        be_value(be_bytes(n, k)) == n % pow256(k),
        be_bytes(n, k).len() == k,
    decreases k,
{
    if k > 0 {
        lemma_round_trip(n / 256, (k - 1) as nat);
        let s = be_bytes(n, k);
        assert(s.drop_last() == be_bytes(n / 256, (k - 1) as nat));
        let p = pow256((k - 1) as nat);
        assert(p > 0) by {
            lemma_pow_mono(0, (k - 1) as nat);
        }
        assert(((n / 256) % p) * 256 + n % 256 == n % (p * 256)) by (nonlinear_arith)
            requires
                p > 0,
        {
            vstd::arithmetic::div_mod::lemma_breakdown(n as int, 256, p as int);
        }
    }
}

/// Counting a use of a command that was used `n` times before leaves it
/// at `n + 1`; the first use of a command leaves it at zero.
pub proof fn law_increment_counts(n: u64)
    requires
        n < u64::MAX,
    ensures
        be_value(be_bytes((n + 1) as nat, 8)) == n + 1,
        be_value(be_bytes(0, 8)) == 0,
{
    law_count_round_trip((n + 1) as u64);
    law_count_round_trip(0);
}

/// A counter as the `command_counter` command lists it: its name, when it
/// is UTF-8, in title case, and its count, when that is eight bytes and
/// not zero.
pub open spec fn counter_field(name: Seq<u8>, count: Seq<u8>) -> Option<(Seq<char>, nat)> {
    if vstd::utf8::valid_utf8(name) && count.len() == 8 && be_value(count) != 0 {
        Some((title_case(vstd::utf8::decode_utf8(name)), be_value(count)))
    } else {
        None
    }
}

/// The fields listed for the stored counters `entries`, in order.
pub open spec fn counter_fields(entries: Seq<(Seq<u8>, Seq<u8>)>) -> Seq<(Seq<char>, nat)>
    decreases entries.len(),
{
    if entries.len() == 0 {
        Seq::empty()
    } else {
        let rest = counter_fields(entries.drop_last());
        match counter_field(entries.last().0, entries.last().1) {
            Some(f) => rest.push(f),
            None => rest,
        }
    }
}

/// Whether a stored counter is listed depends on that counter alone: the
/// fields listed for two runs of counters one after the other are those of
/// the first run followed by those of the second, and a single counter is
/// listed exactly when its name is UTF-8 and its count is eight bytes and
/// not zero.
pub proof fn law_counters_listed_one_by_one(
    a: Seq<(Seq<u8>, Seq<u8>)>,
    b: Seq<(Seq<u8>, Seq<u8>)>,
    x: (Seq<u8>, Seq<u8>),
)
    ensures
        counter_fields(a + b) == counter_fields(a) + counter_fields(b),
        counter_fields(seq![x]) == (if vstd::utf8::valid_utf8(x.0) && x.1.len() == 8 && be_value(
            x.1,
        ) != 0 {
            seq![(title_case(vstd::utf8::decode_utf8(x.0)), be_value(x.1))]
        } else {
            Seq::<(Seq<char>, nat)>::empty()
        }),
    decreases b.len(),
{
    assert(seq![x].drop_last() =~= Seq::<(Seq<u8>, Seq<u8>)>::empty());
    assert(seq![x].last() == x);
    assert(counter_fields(Seq::<(Seq<u8>, Seq<u8>)>::empty()) == Seq::<(Seq<char>, nat)>::empty());
    assert(counter_fields(seq![x]) == match counter_field(x.0, x.1) {
        Some(f) => counter_fields(seq![x].drop_last()).push(f),
        None => counter_fields(seq![x].drop_last()),
    });
    assert(Seq::<(Seq<char>, nat)>::empty().push(
        (title_case(vstd::utf8::decode_utf8(x.0)), be_value(x.1)),
    ) =~= seq![(title_case(vstd::utf8::decode_utf8(x.0)), be_value(x.1))]);
    if b.len() == 0 {
        assert(a + b =~= a);
        assert(counter_fields(a) + counter_fields(b) =~= counter_fields(a));
    } else {
        law_counters_listed_one_by_one(a, b.drop_last(), x);
        assert((a + b).drop_last() =~= a + b.drop_last());
        assert((a + b).last() == b.last());
        let l = b.last();
        match counter_field(l.0, l.1) {
            Some(f) => {
                assert(counter_fields(a) + counter_fields(b.drop_last()).push(f) =~= (counter_fields(
                    a,
                ) + counter_fields(b.drop_last())).push(f));
            },
            None => {},
        }
    }
}

/// The byte strings of stored entries.
pub open spec fn entry_views(entries: Seq<(Vec<u8>, Vec<u8>)>) -> Seq<(Seq<u8>, Seq<u8>)> {
    entries.map_values(|e: (Vec<u8>, Vec<u8>)| (e.0@, e.1@))
}

/// The text and number of listed fields.
pub open spec fn field_views(fields: Seq<(String, u64)>) -> Seq<(Seq<char>, nat)> {
    fields.map_values(|f: (String, u64)| (f.0@, f.1 as nat))
}

/// The `command_counter` command's fields for the stored counters
/// `entries`: name and count of each one that is readable and used.
pub fn command_counter(entries: &Vec<(Vec<u8>, Vec<u8>)>) -> (r: Vec<(String, u64)>)
    ensures
        field_views(r@) == counter_fields(entry_views(entries@)),
{
    let mut out: Vec<(String, u64)> = Vec::new();
    for i in 0..entries.len()
        invariant
            field_views(out@) == counter_fields(entry_views(entries@.take(i as int))),
    {
        let ghost before = out@;
        let (name, count) = &entries[i];
        let ghost e = entry_views(entries@.take(i + 1));
        assert(e.drop_last() == entry_views(entries@.take(i as int)));
        assert(e.last() == (name@, count@));
        if count.len() == 8 {
            let value = be_decode(count.as_slice());
            if value != 0 {
                let copied = name.clone();
                match utf8_string(copied) {
                    Some(text) => {
                        let title = to_title_case(text.as_str());
                        out.push((title, value));
                        assert(field_views(out@) =~= field_views(before).push((title@, value as nat)));
                    },
                    None => {},
                }
            }
        }
    }
    assert(entries@.take(entries@.len() as int) == entries@);
    out
}

} // verus!
