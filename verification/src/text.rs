//! Character-level text helpers: decimal rendering, integer parsing and
//! the small string operations the commands build their replies from.
use vstd::prelude::*;


verus! {

/// Whether `c` has the Unicode `White_Space` property, as
/// `char::is_whitespace` reports: the ASCII tab, line feed, vertical tab,
/// form feed, carriage return and space, next line, no-break space, the
/// Ogham space mark, the spaces from en quad to hair space, the line and
/// paragraph separators, the narrow no-break space, the medium
/// mathematical space and the ideographic space.
pub open spec fn unicode_whitespace(c: char) -> bool {
    ||| ('\u{9}' <= c && c <= '\u{d}')
    ||| c == ' '
    ||| c == '\u{85}'
    ||| c == '\u{a0}'
    ||| c == '\u{1680}'
    ||| ('\u{2000}' <= c && c <= '\u{200a}')
    ||| c == '\u{2028}'
    ||| c == '\u{2029}'
    ||| c == '\u{202f}'
    ||| c == '\u{205f}'
    ||| c == '\u{3000}'
}

/// Whether `c` is white space.
pub(crate) fn is_whitespace(c: char) -> (r: bool)
    ensures
        r == unicode_whitespace(c),
{
    ('\u{9}' <= c && c <= '\u{d}') || c == ' ' || c == '\u{85}' || c == '\u{a0}' || c
        == '\u{1680}' || ('\u{2000}' <= c && c <= '\u{200a}') || c == '\u{2028}' || c
        == '\u{2029}' || c == '\u{202f}' || c == '\u{205f}' || c == '\u{3000}'
}

/// Whether every character of `s` is ASCII.
pub open spec fn ascii_text(s: Seq<char>) -> bool {
    forall|i: int| 0 <= i < s.len() ==> s[i] <= '\u{7f}'
}

/// The ASCII lowercase of `c`: `A` to `Z` become `a` to `z`, anything
/// else stays.
pub open spec fn ascii_lower(c: char) -> char {
    if 'A' <= c && c <= 'Z' {
        ((c as int) + 32) as char
    } else {
        c
    }
}

/// `s` with each character in ASCII lowercase.
pub open spec fn ascii_lowercase(s: Seq<char>) -> Seq<char> {
    s.map_values(|c: char| ascii_lower(c))
}

/// The characters of `s`, in order.
pub fn chars_of(s: &str) -> (r: Vec<char>)
    ensures
        r@ == s@,
{
    broadcast use vstd::string::group_string_axioms;
    let mut out: Vec<char> = Vec::new();
    let mut iter = s.chars();
    loop
        invariant
            out@ + vstd::std_specs::iter::IteratorSpec::remaining(&iter) == s@,
            vstd::std_specs::iter::IteratorSpec::decrease(&iter) is Some,
        ensures
            out@ == s@,
        decreases vstd::std_specs::iter::IteratorSpec::decrease(&iter)->0,
    {
        match iter.next() {
            Some(c) => {
                out.push(c);
            },
            None => {
                break ;
            },
        }
    }
    out
}

/// The characters held by each of `v`.
pub open spec fn char_views(v: Seq<Vec<char>>) -> Seq<Seq<char>> {
    v.map_values(|s: Vec<char>| s@)
}

/// `String::push`: appends one character, as its documentation says.
#[verifier::external_body]
pub(crate) fn push_char(s: &mut String, c: char)
    ensures
        final(s)@ == old(s)@.push(c),
{
    s.push(c);
}

/// The string holding exactly the characters of `v`.
pub fn string_of(v: &Vec<char>) -> (r: String)
    ensures
        r@ == v@,
{
    let mut s = String::new();
    for i in 0..v.len()
        invariant
            s@ == v@.take(i as int),
    {
        push_char(&mut s, v[i]);
        assert(v@.take(i + 1) == v@.take(i as int).push(v@[i as int]));
    }
    assert(v@.take(v.len() as int) == v@);
    s
}

} // verus!

verus! {

/// The character that writes the digit `d`.
pub open spec fn digit_char(d: int) -> char {
    if d == 0 {
        '0'
    } else if d == 1 {
        '1'
    } else if d == 2 {
        '2'
    } else if d == 3 {
        '3'
    } else if d == 4 {
        '4'
    } else if d == 5 {
        '5'
    } else if d == 6 {
        '6'
    } else if d == 7 {
        '7'
    } else if d == 8 {
        '8'
    } else {
        '9'
    }
}

/// `n` written in decimal, as `Display` writes it.
pub open spec fn decimal(n: nat) -> Seq<char>
    decreases n,
{
    if n < 10 {
        seq![digit_char(n as int)]
    } else {
        decimal(n / 10).push(digit_char((n % 10) as int))
    }
}

/// `n` written in decimal with a minus sign when negative, as `Display`
/// writes it.
pub open spec fn signed_decimal(n: int) -> Seq<char> {
    if n < 0 {
        seq!['-'] + decimal((-n) as nat)
    } else {
        decimal(n as nat)
    }
}

fn digit_of(d: u64) -> (c: char)
    requires
        d < 10,
    ensures
        c == digit_char(d as int),
{
    match d {
        0 => '0',
        1 => '1',
        2 => '2',
        3 => '3',
        4 => '4',
        5 => '5',
        6 => '6',
        7 => '7',
        8 => '8',
        _ => '9',
    }
}

/// `n` written in decimal.
pub fn render_u64(n: u64) -> (r: Vec<char>)
    ensures
        r@ == decimal(n as nat),
    decreases n,
{
    if n < 10 {
        let mut v: Vec<char> = Vec::new();
        v.push(digit_of(n));
        v
    } else {
        let mut v = render_u64(n / 10);
        v.push(digit_of(n % 10));
        v
    }
}

/// `n` written in decimal, with a minus sign when negative.
pub fn render_i64(n: i64) -> (r: Vec<char>)
    ensures
        r@ == signed_decimal(n as int),
{
    if n < 0 {
        let m: u64 = ((-(n + 1)) as u64) + 1;
        let mut v: Vec<char> = Vec::new();
        v.push('-');
        let d = render_u64(m);
        append(&mut v, &d);
        v
    } else {
        render_u64(n as u64)
    }
}

/// Appends the characters of `b` to `a`.
pub fn append(a: &mut Vec<char>, b: &Vec<char>)
    ensures
        final(a)@ == old(a)@ + b@,
{
    for i in 0..b.len()
        invariant
            a@ == old(a)@ + b@.take(i as int),
    {
        a.push(b[i]);
        assert(b@.take(i + 1) == b@.take(i as int).push(b@[i as int]));
    }
    assert(b@.take(b@.len() as int) == b@);
}

/// Appends the characters of `s` to `a`.
pub fn append_str(a: &mut Vec<char>, s: &str)
    ensures
        final(a)@ == old(a)@ + s@,
{
    let b = chars_of(s);
    append(a, &b);
}

/// Whether `c` is an ASCII decimal digit.
pub open spec fn is_digit(c: char) -> bool {
    '0' <= c && c <= '9'
}

/// Whether every character of `s` is a decimal digit.
pub open spec fn all_digits(s: Seq<char>) -> bool {
    forall|i: int| 0 <= i < s.len() ==> is_digit(s[i])
}

/// The value of the decimal digits `s`, most significant first.
pub open spec fn digits_value(s: Seq<char>) -> int
    decreases s.len(),
{
    if s.len() == 0 {
        0
    } else {
        digits_value(s.drop_last()) * 10 + (s.last() as int - '0' as int)
    }
}

/// The optional sign of `s` and the rest: a leading `+` or `-` is taken
/// off, `true` standing for `-`.
pub open spec fn sign_split(s: Seq<char>) -> (bool, Seq<char>) {
    if s.len() > 0 && (s[0] == '+' || s[0] == '-') {
        (s[0] == '-', s.drop_first())
    } else {
        (false, s)
    }
}

/// What `str::parse::<i64>` gives for `s`: an optional sign, then one or
/// more decimal digits, with a value that fits.
pub open spec fn parse_i64(s: Seq<char>) -> Option<int> {
    let (neg, body) = sign_split(s);
    if body.len() == 0 || !all_digits(body) {
        None
    } else {
        let v = if neg {
            -digits_value(body)
        } else {
            digits_value(body)
        };
        if i64::MIN <= v <= i64::MAX {
            Some(v)
        } else {
            None
        }
    }
}

/// What `str::parse::<u64>` gives for `s`: an optional `+`, then one or
/// more decimal digits, with a value that fits.
pub open spec fn parse_u64(s: Seq<char>) -> Option<int> {
    let body = if s.len() > 0 && s[0] == '+' {
        s.drop_first()
    } else {
        s
    };
    if body.len() == 0 || !all_digits(body) {
        None
    } else if digits_value(body) <= u64::MAX {
        Some(digits_value(body))
    } else {
        None
    }
}

pub(crate) proof fn lemma_digits_prefix(s: Seq<char>, i: int)
    requires
        0 <= i <= s.len(),
        forall|k: int| 0 <= k < s.len() ==> is_digit(s[k]),
    ensures
        digits_value(s.take(i)) <= digits_value(s),
        0 <= digits_value(s.take(i)),
    decreases s.len(),
{
    if i < s.len() {
        lemma_digits_prefix(s.drop_last(), i);
        assert(s.drop_last().take(i) == s.take(i));
        assert(s.drop_last().take(s.len() - 1) == s.drop_last());
        lemma_digits_prefix(s.drop_last(), s.len() - 1);
    } else {
        assert(s.take(i) == s);
        if s.len() > 0 {
            lemma_digits_prefix(s.drop_last(), s.len() - 1);
            assert(s.drop_last().take(s.len() - 1) == s.drop_last());
        }
    }
}

/// The magnitude of the digits `s[from..]`, when they are all decimal
/// digits and the value is at most `limit`.
fn magnitude(s: &Vec<char>, from: usize, limit: u64) -> (r: Option<u64>)
    requires
        from <= s@.len(),
        limit >= 9,
    ensures
        ({
            let body = s@.skip(from as int);
            match r {
                Some(v) => (forall|i: int| 0 <= i < body.len() ==> is_digit(body[i]))
                    && v == digits_value(body) && v <= limit,
                None => !all_digits(body)
                    || digits_value(body) > limit,
            }
        }),
{
    let ghost body = s@.skip(from as int);
    let mut acc: u64 = 0;
    let mut i = from;
    while i < s.len()
        invariant
            from <= i <= s@.len(),
            body == s@.skip(from as int),
            forall|k: int| 0 <= k < i - from ==> is_digit(body[k]),
            acc == digits_value(body.take(i - from)),
            acc <= limit,
            limit >= 9,
        decreases s@.len() - i,
    {
        let c = s[i];
        if !('0' <= c && c <= '9') {
            assert(!is_digit(body[i - from]));
            return None;
        }
        let d: u64 = (c as u32 - '0' as u32) as u64;
        assert(body.take(i - from + 1).drop_last() == body.take(i - from));
        assert(body.take(i - from + 1).last() == c);
        if acc > (limit - d) / 10 {
            proof {
                assert(acc * 10 + d > limit) by (nonlinear_arith)
                    requires
                        acc > (limit - d) / 10,
                        d <= 9,
                        d <= limit,
                ;
            }
            proof {
                if forall|k: int| 0 <= k < body.len() ==> is_digit(body[k]) {
                    lemma_digits_prefix(body, i - from + 1);
                }
            }
            return None;
        }
        proof {
            assert(acc * 10 + d <= limit) by (nonlinear_arith)
                requires
                    acc <= (limit - d) / 10,
                    d <= 9,
            ;
        }
        acc = acc * 10 + d;
        i = i + 1;
    }
    assert(body.take(i - from) == body);
    Some(acc)
}

/// Whether `s[from..]` is all decimal digits.
fn forall_digits(s: &Vec<char>, from: usize) -> (r: bool)
    requires
        from <= s@.len(),
    ensures
        r == (forall|k: int| from <= k < s@.len() ==> is_digit(s@[k])),
{
    let mut i = from;
    while i < s.len()
        invariant
            from <= i <= s@.len(),
            forall|k: int| from <= k < i ==> is_digit(s@[k]),
        decreases s@.len() - i,
    {
        if !('0' <= s[i] && s[i] <= '9') {
            return false;
        }
        i = i + 1;
    }
    true
}

/// Parses `s` as `str::parse::<i64>` does.
pub fn parse_i64_chars(s: &Vec<char>) -> (r: Option<i64>)
    ensures
        r matches Some(v) ==> parse_i64(s@) == Some(v as int),
        r is None ==> parse_i64(s@) is None,
{
    let (neg, from) = if s.len() > 0 && (s[0] == '+' || s[0] == '-') {
        (s[0] == '-', 1)
    } else {
        (false, 0)
    };
    assert(sign_split(s@).1 =~= s@.skip(from as int));
    if from == s.len() {
        return None;
    }
    if neg {
        match magnitude(s, from, 9223372036854775808) {
            Some(m) => {
                if m == 9223372036854775808 {
                    Some(i64::MIN)
                } else {
                    Some(-(m as i64))
                }
            },
            None => None,
        }
    } else {
        match magnitude(s, from, 9223372036854775807) {
            Some(m) => Some(m as i64),
            None => None,
        }
    }
}

/// Parses `s` as `str::parse::<u64>` does.
pub fn parse_u64_chars(s: &Vec<char>) -> (r: Option<u64>)
    ensures
        r matches Some(v) ==> parse_u64(s@) == Some(v as int),
        r is None ==> parse_u64(s@) is None,
{
    let from: usize = if s.len() > 0 && s[0] == '+' {
        1
    } else {
        0
    };
    let ghost b = if s@.len() > 0 && s@[0] == '+' {
        s@.drop_first()
    } else {
        s@
    };
    assert(s@.skip(from as int) =~= b);
    if from == s.len() {
        return None;
    }
    let m = magnitude(s, from, u64::MAX);
    proof {
        if m is None {
            assert(!all_digits(b) || digits_value(b) > u64::MAX);
        }
    }
    m
}

/// `parts` with `sep` between neighbours.
pub open spec fn join(parts: Seq<Seq<char>>, sep: Seq<char>) -> Seq<char>
    decreases parts.len(),
{
    if parts.len() == 0 {
        Seq::empty()
    } else if parts.len() == 1 {
        parts[0]
    } else {
        join(parts.drop_last(), sep) + sep + parts.last()
    }
}

/// Joining a first part to the rest puts the separator between them.
pub proof fn lemma_join_front(a: Seq<char>, xs: Seq<Seq<char>>, sep: Seq<char>)
    ensures
        join(seq![a] + xs, sep) == (if xs.len() == 0 {
            a
        } else {
            a + sep + join(xs, sep)
        }),
    decreases xs.len(),
{
    let all = seq![a] + xs;
    if xs.len() == 0 {
        assert(all =~= seq![a]);
    } else if xs.len() == 1 {
        assert(all.drop_last() =~= seq![a]);
        assert(all.last() == xs[0]);
        assert(join(all.drop_last(), sep) == a);
        assert(join(xs, sep) == xs[0]);
        assert(join(all, sep) == join(all.drop_last(), sep) + sep + all.last());
    } else {
        assert(all.drop_last() =~= seq![a] + xs.drop_last());
        lemma_join_front(a, xs.drop_last(), sep);
        assert(all.last() == xs.last());
        assert(join(all, sep) == join(all.drop_last(), sep) + sep + all.last());
        assert(join(xs, sep) == join(xs.drop_last(), sep) + sep + xs.last());
        assert(join(all, sep) =~= a + sep + join(xs, sep));
    }
}

/// Joining the pieces of `s` cut at `c` with `c` gives back `s`.
pub proof fn lemma_join_split(s: Seq<char>, c: char)
    ensures
        join(split_on(s, c), seq![c]) == s,
    decreases s.len(),
{
    if s.len() == 0 {
        assert(split_on(s, c) =~= seq![Seq::<char>::empty()]);
        assert(s =~= Seq::<char>::empty());
    } else {
        let rest = split_on(s.drop_first(), c);
        lemma_join_split(s.drop_first(), c);
        lemma_split_nonempty(s.drop_first(), c);
        let tail = rest.drop_first();
        assert(rest =~= seq![rest[0]] + tail);
        lemma_join_front(rest[0], tail, seq![c]);
        if s[0] == c {
            lemma_join_front(Seq::<char>::empty(), rest, seq![c]);
            assert(s =~= seq![c] + s.drop_first());
        } else {
            let first = seq![s[0]] + rest[0];
            assert(rest.update(0, first) =~= seq![first] + tail);
            lemma_join_front(first, tail, seq![c]);
            assert(s =~= seq![s[0]] + s.drop_first());
        }
    }
}

/// The characters of `parts` with `sep` between neighbours.
pub fn join_chars(parts: &Vec<Vec<char>>, sep: &str) -> (r: Vec<char>)
    ensures
        r@ == join(char_views(parts@), sep@),
{
    let ghost all = char_views(parts@);
    let mut out: Vec<char> = Vec::new();
    for i in 0..parts.len()
        invariant
            all == char_views(parts@),
            out@ == join(all.take(i as int), sep@),
    {
        assert(all.take(i + 1).drop_last() == all.take(i as int));
        assert(all.take(i + 1).last() == parts@[i as int]@);
        if i > 0 {
            append_str(&mut out, sep);
        }
        append(&mut out, &parts[i]);
        proof {
            if i == 0 {
                assert(all.take(1).len() == 1);
                assert(out@ == Seq::<char>::empty() + parts@[0]@);
                assert(out@ == parts@[0]@);
            }
        }
    }
    assert(all.take(parts@.len() as int) == all);
    out
}

/// Whether `pat` occurs in `s` starting at `i`.
pub open spec fn occurs_at(s: Seq<char>, pat: Seq<char>, i: int) -> bool {
    0 <= i && i + pat.len() <= s.len() && s.subrange(i, i + pat.len()) == pat
}

/// Whether `pat` occurs somewhere in `s`, as `str::contains` asks.
pub open spec fn contains_text(s: Seq<char>, pat: Seq<char>) -> bool {
    exists|i: int| occurs_at(s, pat, i)
}

/// Whether `s` begins with `pat`.
pub open spec fn starts_with(s: Seq<char>, pat: Seq<char>) -> bool {
    occurs_at(s, pat, 0)
}

/// Whether `s` ends with `pat`.
pub open spec fn ends_with(s: Seq<char>, pat: Seq<char>) -> bool {
    occurs_at(s, pat, s.len() - pat.len())
}

/// Whether `pat` occurs in `s` at `i`.
pub fn matches_at(s: &Vec<char>, pat: &Vec<char>, i: usize) -> (r: bool)
    ensures
        r == occurs_at(s@, pat@, i as int),
{
    let n = s.len();
    if i > n || pat.len() > n - i {
        return false;
    }
    let mut k: usize = 0;
    while k < pat.len()
        invariant
            n == s@.len(),
            i + pat@.len() <= s@.len(),
            k <= pat@.len(),
            forall|j: int| 0 <= j < k ==> s@[i + j] == pat@[j],
        decreases pat@.len() - k,
    {
        assert(i + k < s@.len());
        if s[i + k] != pat[k] {
            assert(s@.subrange(i as int, i + pat@.len())[k as int] != pat@[k as int]);
            return false;
        }
        k = k + 1;
    }
    assert(s@.subrange(i as int, i + pat@.len()) =~= pat@);
    true
}

/// Whether `pat` occurs in `s`.
pub fn contains_chars(s: &Vec<char>, pat: &Vec<char>) -> (r: bool)
    ensures
        r == contains_text(s@, pat@),
{
    let mut i: usize = 0;
    loop
        invariant
            i <= s@.len(),
            forall|j: int| 0 <= j < i ==> !occurs_at(s@, pat@, j),
        ensures
            i == s@.len(),
            forall|j: int| 0 <= j <= i ==> !occurs_at(s@, pat@, j),
        decreases s@.len() - i,
    {
        if matches_at(s, pat, i) {
            return true;
        }
        if i == s.len() {
            break ;
        }
        i = i + 1;
    }
    assert forall|j: int| !occurs_at(s@, pat@, j) by {
        if 0 <= j < i {
        }
    }
    false
}

/// `s` with each occurrence of the non-empty `pat` replaced by `rep`,
/// leftmost first and without overlaps, as `str::replace` does.
pub open spec fn replace_all(s: Seq<char>, pat: Seq<char>, rep: Seq<char>) -> Seq<char>
    decreases s.len(),
{
    if pat.len() == 0 || s.len() < pat.len() {
        s
    } else if s.take(pat.len() as int) == pat {
        rep + replace_all(s.skip(pat.len() as int), pat, rep)
    } else {
        seq![s[0]] + replace_all(s.drop_first(), pat, rep)
    }
}

/// Replaces each occurrence of the non-empty `pat` in `s` by `rep`.
pub fn replace_chars(s: &Vec<char>, pat: &Vec<char>, rep: &Vec<char>) -> (r: Vec<char>)
    requires
        pat@.len() > 0,
    ensures
        r@ == replace_all(s@, pat@, rep@),
{
    let mut out: Vec<char> = Vec::new();
    let mut i: usize = 0;
    assert(s@.skip(0) == s@);
    while i < s.len()
        invariant
            i <= s@.len(),
            pat@.len() > 0,
            replace_all(s@, pat@, rep@) == out@ + replace_all(s@.skip(i as int), pat@, rep@),
        decreases s@.len() - i,
    {
        let ghost rest = s@.skip(i as int);
        if matches_at(s, pat, i) {
            proof {
                assert(rest.take(pat@.len() as int) == s@.subrange(i as int, i + pat@.len()));
                assert(rest.skip(pat@.len() as int) == s@.skip(i + pat@.len()));
            }
            append(&mut out, rep);
            i = i + pat.len();
        } else {
            proof {
                if rest.len() >= pat@.len() {
                    assert(rest.take(pat@.len() as int) == s@.subrange(i as int, i + pat@.len()));
                }
                assert(rest.drop_first() == s@.skip(i + 1));
                assert(rest[0] == s@[i as int]);
                if rest.len() < pat@.len() {
                    let tail = replace_all(rest, pat@, rep@);
                    assert(tail == rest);
                    assert(replace_all(rest.drop_first(), pat@, rep@) == rest.drop_first());
                    assert(rest == seq![rest[0]] + rest.drop_first());
                }
            }
            out.push(s[i]);
            i = i + 1;
        }
    }
    assert(s@.skip(i as int).len() == 0);
    out
}

/// `s` with `pat` taken off its front as many times as it is there, as
/// `str::trim_start_matches` does for a non-empty `pat`.
pub open spec fn strip_prefixes(s: Seq<char>, pat: Seq<char>) -> Seq<char>
    decreases s.len(),
{
    if pat.len() > 0 && starts_with(s, pat) {
        strip_prefixes(s.skip(pat.len() as int), pat)
    } else {
        s
    }
}

/// `s` with `pat` taken off its end as many times as it is there, as
/// `str::trim_end_matches` does for a non-empty `pat`.
pub open spec fn strip_suffixes(s: Seq<char>, pat: Seq<char>) -> Seq<char>
    decreases s.len(),
{
    if pat.len() > 0 && ends_with(s, pat) {
        strip_suffixes(s.take(s.len() - pat.len()), pat)
    } else {
        s
    }
}

/// The characters of `s` from `from` to `to`.
pub fn slice_chars(s: &Vec<char>, from: usize, to: usize) -> (r: Vec<char>)
    requires
        from <= to <= s@.len(),
    ensures
        r@ == s@.subrange(from as int, to as int),
{
    let mut out: Vec<char> = Vec::new();
    for i in from..to
        invariant
            to <= s@.len(),
            out@ == s@.subrange(from as int, i as int),
    {
        out.push(s[i]);
        assert(s@.subrange(from as int, i + 1) == s@.subrange(from as int, i as int).push(
            s@[i as int],
        ));
    }
    out
}

/// Takes `pat` off the front of `s` as many times as it is there.
pub fn strip_prefixes_chars(s: &Vec<char>, pat: &Vec<char>) -> (r: Vec<char>)
    requires
        pat@.len() > 0,
    ensures
        r@ == strip_prefixes(s@, pat@),
{
    let mut i: usize = 0;
    let n = s.len();
    assert(s@.skip(0) == s@);
    loop
        invariant
            n == s@.len(),
            i <= s@.len(),
            pat@.len() > 0,
            strip_prefixes(s@, pat@) == strip_prefixes(s@.skip(i as int), pat@),
        ensures
            i <= s@.len(),
            strip_prefixes(s@, pat@) == strip_prefixes(s@.skip(i as int), pat@),
            !occurs_at(s@, pat@, i as int),
        decreases s@.len() - i,
    {
        if !matches_at(s, pat, i) {
            break ;
        }
        assert(s@.skip(i as int).subrange(0, pat@.len() as int) == s@.subrange(
            i as int,
            i + pat@.len(),
        ));
        assert(s@.skip(i as int).skip(pat@.len() as int) == s@.skip(i + pat@.len()));
        i = i + pat.len();
    }
    proof {
        if s@.skip(i as int).len() >= pat@.len() {
            assert(s@.skip(i as int).subrange(0, pat@.len() as int) == s@.subrange(
                i as int,
                i + pat@.len(),
            ));
        }
    }
    slice_chars(s, i, s.len())
}

/// Takes `pat` off the end of `s` as many times as it is there.
pub fn strip_suffixes_chars(s: &Vec<char>, pat: &Vec<char>) -> (r: Vec<char>)
    requires
        pat@.len() > 0,
    ensures
        r@ == strip_suffixes(s@, pat@),
{
    let mut n: usize = s.len();
    assert(s@.take(n as int) == s@);
    loop
        invariant
            n <= s@.len(),
            pat@.len() > 0,
            strip_suffixes(s@, pat@) == strip_suffixes(s@.take(n as int), pat@),
        ensures
            n <= s@.len(),
            strip_suffixes(s@, pat@) == strip_suffixes(s@.take(n as int), pat@),
            n >= pat@.len() ==> !occurs_at(s@, pat@, n - pat@.len()),
        decreases n,
    {
        if n < pat.len() || !matches_at(s, pat, n - pat.len()) {
            break ;
        }
        let ghost t = s@.take(n as int);
        assert(t.subrange(t.len() - pat@.len(), t.len() as int) == s@.subrange(
            n - pat@.len(),
            n as int,
        ));
        assert(t.take(t.len() - pat@.len()) == s@.take(n - pat@.len()));
        n = n - pat.len();
    }
    proof {
        let t = s@.take(n as int);
        if n >= pat@.len() {
            assert(t.subrange(t.len() - pat@.len(), t.len() as int) == s@.subrange(
                n - pat@.len(),
                n as int,
            ));
        }
    }
    slice_chars(s, 0, n)
}

/// The pieces of `s` between occurrences of `c`, as `str::split` gives
/// them for a character.
pub open spec fn split_on(s: Seq<char>, c: char) -> Seq<Seq<char>>
    decreases s.len(),
{
    if s.len() == 0 {
        seq![Seq::empty()]
    } else {
        let rest = split_on(s.drop_first(), c);
        if s[0] == c {
            seq![Seq::<char>::empty()] + rest
        } else {
            rest.update(0, seq![s[0]] + rest[0])
        }
    }
}

pub proof fn lemma_split_nonempty(s: Seq<char>, c: char)
    ensures
        split_on(s, c).len() >= 1,
    decreases s.len(),
{
    if s.len() > 0 {
        lemma_split_nonempty(s.drop_first(), c);
    }
}

/// The pieces of `s` between occurrences of `c`.
pub fn split_chars(s: &Vec<char>, c: char) -> (r: Vec<Vec<char>>)
    ensures
        char_views(r@) == split_on(s@, c),
        r@.len() >= 1,
{
    let mut pieces: Vec<Vec<char>> = Vec::new();
    let mut cur: Vec<char> = Vec::new();
    let n = s.len();
    let mut i: usize = n;
    proof {
        lemma_split_nonempty(s@, c);
    }
    while i > 0
        invariant
            i <= n == s@.len(),
            ({
                let rest = split_on(s@.skip(i as int), c);
                rest.len() >= 1 && rest[0] == cur@ && char_views(pieces@) == rest.drop_first()
            }),
        decreases i,
    {
        let ghost before = split_on(s@.skip(i as int), c);
        assert(s@.skip(i - 1).drop_first() == s@.skip(i as int));
        assert(s@.skip(i - 1)[0] == s@[i - 1]);
        proof {
            lemma_split_nonempty(s@.skip(i - 1), c);
        }
        if s[i - 1] == c {
            let ghost old_pieces = pieces@;
            let mut finished: Vec<char> = Vec::new();
            std::mem::swap(&mut finished, &mut cur);
            let mut rev: Vec<Vec<char>> = Vec::new();
            rev.push(finished);
            let mut k: usize = 0;
            while k < pieces.len()
                invariant
                    pieces@ == old_pieces,
                    before.len() >= 1,
                    char_views(old_pieces) == before.drop_first(),
                    k <= pieces@.len(),
                    rev@.len() == k + 1,
                    rev@[0]@ == before[0],
                    forall|j: int| 0 <= j < k ==> rev@[j + 1]@ == pieces@[j]@,
                decreases pieces@.len() - k,
            {
                let p = slice_chars(&pieces[k], 0, pieces[k].len());
                assert(pieces@[k as int]@.subrange(0, pieces@[k as int]@.len() as int) == pieces@[k as int]@);
                rev.push(p);
                k = k + 1;
            }
            assert(char_views(old_pieces).len() == old_pieces.len());
            assert(rev@.len() == before.len());
            assert forall|j: int| 0 <= j < before.len() implies #[trigger] char_views(rev@)[j]
                == before[j] by {
                if j > 0 {
                    assert(rev@[j]@ == old_pieces[j - 1]@);
                    assert(char_views(old_pieces)[j - 1] == before.drop_first()[j - 1]);
                }
            }
            pieces = rev;
            assert(char_views(pieces@) =~= before);
        } else {
            let mut grown: Vec<char> = Vec::new();
            grown.push(s[i - 1]);
            append(&mut grown, &cur);
            cur = grown;
            assert(char_views(pieces@) =~= before.update(0, seq![s@[i - 1]] + before[0]).drop_first());
        }
        i = i - 1;
    }
    assert(s@.skip(0) == s@);
    let mut all: Vec<Vec<char>> = Vec::new();
    all.push(cur);
    let ghost rest = split_on(s@, c);
    let mut k: usize = 0;
    while k < pieces.len()
        invariant
            k <= pieces@.len(),
            all@.len() == k + 1,
            all@[0]@ == rest[0],
            char_views(pieces@) == rest.drop_first(),
            rest.len() >= 1,
            forall|j: int| 0 <= j < k ==> all@[j + 1]@ == pieces@[j]@,
        decreases pieces@.len() - k,
    {
        let p = slice_chars(&pieces[k], 0, pieces[k].len());
        assert(pieces@[k as int]@.subrange(0, pieces@[k as int]@.len() as int) == pieces@[k as int]@);
        all.push(p);
        k = k + 1;
    }
    assert(char_views(pieces@).len() == pieces@.len());
    assert(all@.len() == rest.len());
    assert forall|j: int| 0 <= j < rest.len() implies #[trigger] char_views(all@)[j] == rest[j] by {
        if j > 0 {
            assert(all@[j]@ == pieces@[j - 1]@);
            assert(char_views(pieces@)[j - 1] == rest.drop_first()[j - 1]);
        }
    }
    assert(char_views(all@) =~= rest);
    all
}

/// `s` without its leading whitespace.
pub open spec fn trim_start(s: Seq<char>) -> Seq<char>
    decreases s.len(),
{
    if s.len() > 0 && unicode_whitespace(s[0]) {
        trim_start(s.drop_first())
    } else {
        s
    }
}

/// `s` without its trailing whitespace.
pub open spec fn trim_end(s: Seq<char>) -> Seq<char>
    decreases s.len(),
{
    if s.len() > 0 && unicode_whitespace(s.last()) {
        trim_end(s.drop_last())
    } else {
        s
    }
}

/// `s` without leading and trailing whitespace, as `str::trim` gives it.
pub open spec fn trim(s: Seq<char>) -> Seq<char> {
    trim_end(trim_start(s))
}

proof fn lemma_trim_start_push(t: Seq<char>, w: char)
    requires
        unicode_whitespace(w),
    ensures
        trim_start(t.push(w)) == (if trim_start(t).len() == 0 {
            Seq::<char>::empty()
        } else {
            trim_start(t).push(w)
        }),
    decreases t.len(),
{
    if t.len() == 0 {
        assert(t.push(w).drop_first() =~= Seq::<char>::empty());
        assert(trim_start(t.push(w)) == trim_start(t.push(w).drop_first()));
        assert(trim_start(Seq::<char>::empty()) == Seq::<char>::empty());
    } else {
        assert(t.push(w)[0] == t[0]);
        if unicode_whitespace(t[0]) {
            assert(t.push(w).drop_first() =~= t.drop_first().push(w));
            lemma_trim_start_push(t.drop_first(), w);
            assert(trim_start(t.push(w)) == trim_start(t.push(w).drop_first()));
            assert(trim_start(t) == trim_start(t.drop_first()));
        } else {
            assert(trim_start(t) == t);
            assert(trim_start(t.push(w)) == t.push(w));
        }
    }
}

/// Whitespace before or after a text never changes what trimming leaves.
pub proof fn law_trim_ignores_whitespace(t: Seq<char>, w: char)
    requires
        unicode_whitespace(w),
    ensures
        trim(seq![w] + t) == trim(t),
        trim(t + seq![w]) == trim(t),
{
    assert((seq![w] + t).drop_first() =~= t);
    assert(t + seq![w] =~= t.push(w));
    lemma_trim_start_push(t, w);
    if trim_start(t).len() > 0 {
        assert(trim_start(t).push(w).drop_last() =~= trim_start(t));
    }
}

/// `s` without leading and trailing whitespace.
pub fn trim_chars(s: &Vec<char>) -> (r: Vec<char>)
    ensures
        r@ == trim(s@),
{
    let n = s.len();
    let mut i: usize = 0;
    assert(s@.skip(0) == s@);
    while i < n && is_whitespace(s[i])
        invariant
            i <= n == s@.len(),
            trim_start(s@) == trim_start(s@.skip(i as int)),
        decreases n - i,
    {
        assert(s@.skip(i as int).drop_first() == s@.skip(i + 1));
        i = i + 1;
    }
    let head = slice_chars(s, i, n);
    assert(head@ == s@.skip(i as int));
    let m = head.len();
    let mut j: usize = m;
    assert(head@.take(m as int) == head@);
    while j > 0 && is_whitespace(head[j - 1])
        invariant
            j <= m == head@.len(),
            trim_end(head@) == trim_end(head@.take(j as int)),
        decreases j,
    {
        assert(head@.take(j as int).drop_last() == head@.take(j - 1));
        j = j - 1;
    }
    let r = slice_chars(&head, 0, j);
    assert(r@ == head@.take(j as int));
    r
}

/// The number of bytes in the UTF-8 encoding of one character.
pub open spec fn char_width(c: char) -> nat {
    if (c as u32) <= 0x7F {
        1
    } else if (c as u32) <= 0x7FF {
        2
    } else if (c as u32) <= 0xFFFF {
        3
    } else {
        4
    }
}

/// The number of bytes of `s` in UTF-8.
pub open spec fn byte_len(s: Seq<char>) -> nat {
    vstd::utf8::encode_utf8(s).len()
}

proof fn lemma_scalar_width(c: char)
    ensures
        vstd::utf8::encode_scalar(c as u32).len() == char_width(c),
{
}

/// The number of bytes of `s` in UTF-8, or `cap` if that is larger.
pub fn byte_len_capped(s: &Vec<char>, cap: u64) -> (r: u64)
    ensures
        byte_len(s@) < cap ==> r == byte_len(s@),
        byte_len(s@) >= cap ==> r == cap,
{
    if cap == 0 {
        return 0;
    }
    let mut acc: u64 = 0;
    let mut i: usize = s.len();
    assert(s@.skip(i as int).len() == 0);
    while i > 0
        invariant
            i <= s@.len(),
            acc == byte_len(s@.skip(i as int)),
            acc < cap,
        decreases i,
    {
        let c = s[i - 1];
        let w: u64 = if (c as u32) <= 0x7F {
            1
        } else if (c as u32) <= 0x7FF {
            2
        } else if (c as u32) <= 0xFFFF {
            3
        } else {
            4
        };
        proof {
            lemma_scalar_width(c);
            assert(s@.skip(i - 1)[0] == c);
            assert(s@.skip(i - 1).drop_first() == s@.skip(i as int));
            assert(byte_len(s@.skip(i - 1)) == w + acc);
        }
        if w >= cap - acc {
            proof {
                lemma_byte_len_suffix(s@, i - 1);
            }
            return cap;
        }
        acc = acc + w;
        i = i - 1;
    }
    assert(s@.skip(0) == s@);
    acc
}

proof fn lemma_byte_len_suffix(s: Seq<char>, i: int)
    requires
        0 <= i <= s.len(),
    ensures
        byte_len(s) >= byte_len(s.skip(i)),
    decreases i,
{
    if i > 0 {
        lemma_byte_len_suffix(s, i - 1);
        assert(s.skip(i - 1).drop_first() == s.skip(i));
    } else {
        assert(s.skip(0) == s);
    }
}

/// The pieces of `v` after the first.
pub fn tail_pieces(v: &Vec<Vec<char>>) -> (r: Vec<Vec<char>>)
    requires
        v@.len() >= 1,
    ensures
        char_views(r@) == char_views(v@).drop_first(),
{
    let mut out: Vec<Vec<char>> = Vec::new();
    for i in 1..v.len()
        invariant
            v@.len() >= 1,
            out@.len() == i - 1,
            forall|j: int| 0 <= j < i - 1 ==> #[trigger] out@[j]@ == v@[j + 1]@,
    {
        let piece = slice_chars(&v[i], 0, v[i].len());
        assert(v@[i as int]@.subrange(0, v@[i as int]@.len() as int) == v@[i as int]@);
        out.push(piece);
    }
    assert forall|j: int| 0 <= j < v@.len() - 1 implies #[trigger] char_views(out@)[j] == char_views(
        v@,
    ).drop_first()[j] by {
        assert(out@[j]@ == v@[j + 1]@);
    }
    assert(char_views(out@) =~= char_views(v@).drop_first());
    out
}

} // verus!
