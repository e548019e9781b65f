//! Character-level helpers on strings: splitting on a separator, searching
//! for a pattern and reading decimal numbers.

use vstd::prelude::*;
use vstd::string::*;

verus! {

/// Position of the first `sep` in `s`, or `s.len()` where there is none.
pub open spec fn first_index(s: Seq<char>, sep: char) -> int
    decreases s.len(),
{
    if s.len() == 0 {
        0
    } else if s[0] == sep {
        0
    } else {
        1 + first_index(s.subrange(1, s.len() as int), sep)
    }
}

/// The `n`-th piece (counted from zero) of `s` cut at every `sep`, or `None`
/// where `s` has fewer pieces.
pub open spec fn segment(s: Seq<char>, sep: char, n: nat) -> Option<Seq<char>>
    decreases n,
{
    let i = first_index(s, sep);
    if n == 0 {
        Some(s.subrange(0, i))
    } else if i >= s.len() {
        None
    } else {
        segment(s.subrange(i + 1, s.len() as int), sep, (n - 1) as nat)
    }
}

/// `first_index` lies within `s`, holds `sep` where it is inside, and has no
/// `sep` before it.
pub proof fn lemma_first_index_bounds(s: Seq<char>, sep: char)
    ensures
        0 <= first_index(s, sep) <= s.len(),
        first_index(s, sep) < s.len() ==> s[first_index(s, sep)] == sep,
        forall|j: int| 0 <= j < first_index(s, sep) ==> s[j] != sep,
    decreases s.len(),
{
    if s.len() > 0 && s[0] != sep {
        let t = s.subrange(1, s.len() as int);
        lemma_first_index_bounds(t, sep);
        assert forall|j: int| 0 <= j < first_index(s, sep) implies s[j] != sep by {
            if j > 0 {
                assert(t[j - 1] == s[j]);
            }
        }
    }
}

/// `first_index` is the one position that holds `sep` with none before it.
pub proof fn lemma_first_index_unique(s: Seq<char>, sep: char, i: int)
    requires
        0 <= i <= s.len(),
        i < s.len() ==> s[i] == sep,
        forall|j: int| 0 <= j < i ==> s[j] != sep,
    ensures
        first_index(s, sep) == i,
{
    lemma_first_index_bounds(s, sep);
}

/// Scans `s` from `from` for `sep`.
pub fn find_from(s: &str, sep: char, from: usize) -> (at: usize)
    requires
        from <= s@.len(),
    ensures
        at == from + first_index(s@.subrange(from as int, s@.len() as int), sep),
        from <= at <= s@.len(),
{
    let n: usize = s.unicode_len();
    let mut i: usize = from;
    let ghost tail = s@.subrange(from as int, n as int);
    while i < n && s.get_char(i) != sep
        invariant
            from <= i <= n,
            n == s@.len(),
            tail == s@.subrange(from as int, n as int),
            forall|j: int| 0 <= j < i - from ==> tail[j] != sep,
        decreases n - i,
    {
        i = i + 1;
    }
    proof {
        lemma_first_index_unique(tail, sep, i - from);
    }
    i
}

/// Bounds, in characters, of the `n`-th piece of `s` cut at every `sep`.
pub fn nth_segment(s: &str, sep: char, n: usize) -> (r: Option<(usize, usize)>)
    ensures
        match r {
            Some((from, to)) => from <= to <= s@.len() && segment(s@, sep, n as nat) == Some(
                s@.subrange(from as int, to as int),
            ),
            None => segment(s@, sep, n as nat) is None,
        },
{
    let len: usize = s.unicode_len();
    let mut start: usize = 0;
    let mut k: usize = 0;
    assert(s@.subrange(0, len as int) =~= s@);
    loop
        invariant
            len == s@.len(),
            start <= len,
            k <= n,
            segment(s@, sep, n as nat) == segment(
                s@.subrange(start as int, len as int),
                sep,
                (n - k) as nat,
            ),
        decreases n - k,
    {
        let end: usize = find_from(s, sep, start);
        let ghost tail = s@.subrange(start as int, len as int);
        if k == n {
            assert(tail.subrange(0, end - start) == s@.subrange(start as int, end as int));
            return Some((start, end));
        }
        if end >= len {
            return None;
        }
        assert(tail.subrange(end - start + 1, tail.len() as int) == s@.subrange(
            end + 1,
            len as int,
        ));
        start = end + 1;
        k = k + 1;
    }
}

/// Whether `pat` stands in `s` at position `at`.
pub open spec fn occurs_at(s: Seq<char>, pat: Seq<char>, at: int) -> bool {
    0 <= at && at + pat.len() <= s.len() && s.subrange(at, at + pat.len()) == pat
}

/// Whether `pat` stands somewhere in `s`.
pub open spec fn contains_pattern(s: Seq<char>, pat: Seq<char>) -> bool {
    exists|at: int| occurs_at(s, pat, at)
}

/// Compares the characters of `s` from `at` on with `pat`.
pub fn matches_at(s: &str, pat: &str, at: usize) -> (r: bool)
    requires
        at + pat@.len() <= s@.len(),
    ensures
        r == occurs_at(s@, pat@, at as int),
{
    let m: usize = pat.unicode_len();
    let n: usize = s.unicode_len();
    let mut j: usize = 0;
    while j < m
        invariant
            j <= m,
            n == s@.len(),
            m == pat@.len(),
            at + m <= s@.len(),
            forall|t: int| 0 <= t < j ==> s@[at + t] == pat@[t],
        decreases m - j,
    {
        if s.get_char(at + j) != pat.get_char(j) {
            proof {
                let w = s@.subrange(at as int, at + m);
                assert(w[j as int] == s@[at + j]);
            }
            return false;
        }
        j = j + 1;
    }
    assert(s@.subrange(at as int, at + m) =~= pat@);
    true
}

/// Whether two strings hold the same characters.
pub fn same_text(a: &str, b: &str) -> (r: bool)
    ensures
        r == (a@ == b@),
{
    let n: usize = a.unicode_len();
    let m: usize = b.unicode_len();
    if n != m {
        return false;
    }
    let r = matches_at(a, b, 0);
    assert(a@.subrange(0, n as int) =~= a@);
    r
}

/// Whether `pat` stands somewhere between `from` and `to` in `s`.
pub fn range_contains(s: &str, from: usize, to: usize, pat: &str) -> (r: bool)
    requires
        from <= to <= s@.len(),
    ensures
        r == contains_pattern(s@.subrange(from as int, to as int), pat@),
{
    let m: usize = pat.unicode_len();
    let ghost part = s@.subrange(from as int, to as int);
    if to - from < m {
        return false;
    }
    let span: usize = to - from - m;
    let mut d: usize = 0;
    loop
        invariant
            d <= span,
            from + span + m == to,
            to <= s@.len(),
            m == pat@.len(),
            part == s@.subrange(from as int, to as int),
            forall|at: int| 0 <= at < d ==> !occurs_at(part, pat@, at),
        decreases span - d,
    {
        proof {
            assert(part.subrange(d as int, d + m) =~= s@.subrange(from + d, from + d + m));
        }
        if matches_at(s, pat, from + d) {
            assert(occurs_at(part, pat@, d as int));
            return true;
        }
        if d == span {
            return false;
        }
        d = d + 1;
    }
}

/// Position of the last `sep` in `s`, or 0 where there is none.
pub open spec fn last_index(s: Seq<char>, sep: char) -> int
    decreases s.len(),
{
    if s.len() == 0 {
        0
    } else if s.last() == sep {
        s.len() - 1
    } else {
        last_index(s.drop_last(), sep)
    }
}

/// `last_index` lies within `s`, and holds `sep` where `s` has one.
pub proof fn lemma_last_index_bounds(s: Seq<char>, sep: char)
    ensures
        0 <= last_index(s, sep) <= s.len(),
        s.contains(sep) ==> last_index(s, sep) < s.len() && s[last_index(s, sep)] == sep,
        !s.contains(sep) ==> last_index(s, sep) == 0,
    decreases s.len(),
{
    if s.len() > 0 {
        let shorter = s.drop_last();
        lemma_last_index_bounds(shorter, sep);
        if s.last() == sep {
            assert(s[s.len() - 1] == sep);
        } else {
            if s.contains(sep) {
                let i = choose|i: int| 0 <= i < s.len() && s[i] == sep;
                assert(shorter[i] == sep);
            }
            if shorter.contains(sep) {
                let i = choose|i: int| 0 <= i < shorter.len() && shorter[i] == sep;
                assert(s[i] == sep);
            }
        }
    }
}

/// Scans `s` from its end for `sep`.
pub fn find_last(s: &str, sep: char) -> (r: Option<usize>)
    ensures
        match r {
            Some(at) => s@.contains(sep) && at == last_index(s@, sep),
            None => !s@.contains(sep),
        },
{
    let n: usize = s.unicode_len();
    let mut end: usize = n;
    assert(s@.subrange(0, n as int) =~= s@);
    while end > 0
        invariant
            end <= n,
            n == s@.len(),
            last_index(s@, sep) == last_index(s@.subrange(0, end as int), sep),
            forall|j: int| end <= j < n ==> s@[j] != sep,
        decreases end,
    {
        let ghost part = s@.subrange(0, end as int);
        if s.get_char(end - 1) == sep {
            assert(part.last() == sep);
            assert(s@[end - 1] == sep);
            return Some(end - 1);
        }
        proof {
            assert(part.drop_last() =~= s@.subrange(0, end - 1));
        }
        end = end - 1;
    }
    None
}

/// Whether `c` is one of the ten decimal digits.
pub open spec fn is_digit(c: char) -> bool {
    '0' <= c && c <= '9'
}

/// Whether every character of `s` is a decimal digit.
pub open spec fn all_digits(s: Seq<char>) -> bool {
    forall|i: int| 0 <= i < s.len() ==> is_digit(#[trigger] s[i])
}

/// The number that the digits of `s` write in base ten.
pub open spec fn decimal_value(s: Seq<char>) -> nat
    decreases s.len(),
{
    if s.len() == 0 {
        0
    } else {
        10 * decimal_value(s.drop_last()) + (s.last() as u32 - '0' as u32) as nat
    }
}

/// The digits of `s` once one leading plus sign is taken off.
pub open spec fn unsigned_part(s: Seq<char>) -> Seq<char> {
    if s.len() > 0 && s[0] == '+' {
        s.subrange(1, s.len() as int)
    } else {
        s
    }
}

/// The unsigned number that `s` writes: digits only, at least one, after an
/// optional plus sign, and no more than 64 bits.
pub open spec fn parsed_number(s: Seq<char>) -> Option<u64> {
    let body = unsigned_part(s);
    if body.len() > 0 && all_digits(body) && decimal_value(body) <= u64::MAX {
        Some(decimal_value(body) as u64)
    } else {
        None
    }
}

/// A number never shrinks when more digits follow.
pub proof fn lemma_decimal_prefix(s: Seq<char>, k: int)
    requires
        0 <= k <= s.len(),
        all_digits(s),
    ensures
        decimal_value(s.subrange(0, k)) <= decimal_value(s),
    decreases s.len() - k,
{
    if k == s.len() {
        assert(s.subrange(0, k) =~= s);
    } else {
        lemma_decimal_prefix(s, k + 1);
        let longer = s.subrange(0, k + 1);
        assert(longer.drop_last() =~= s.subrange(0, k));
        assert(is_digit(longer.last()));
    }
}

/// Reads the characters of `s` between `from` and `to` as an unsigned number.
pub fn parse_number(s: &str, from: usize, to: usize) -> (r: Option<u64>)
    requires
        from <= to <= s@.len(),
    ensures
        r == parsed_number(s@.subrange(from as int, to as int)),
{
    let n: usize = s.unicode_len();
    let ghost whole = s@.subrange(from as int, to as int);
    let mut i: usize = from;
    if i < to && s.get_char(i) == '+' {
        i = i + 1;
    }
    let first: usize = i;
    let ghost body = unsigned_part(whole);
    assert(body =~= s@.subrange(first as int, to as int));
    if first == to {
        return None;
    }
    let mut acc: u64 = 0;
    assert(body.subrange(0, 0) =~= Seq::<char>::empty());
    while i < to
        invariant
            first <= i <= to,
            to <= n,
            n == s@.len(),
            from <= to,
            whole == s@.subrange(from as int, to as int),
            body == unsigned_part(whole),
            body == s@.subrange(first as int, to as int),
            all_digits(body.subrange(0, i - first)),
            acc == decimal_value(body.subrange(0, i - first)),
        decreases to - i,
    {
        let c: char = s.get_char(i);
        let ghost seen = body.subrange(0, i - first);
        let ghost next = body.subrange(0, i - first + 1);
        proof {
            assert(next.drop_last() =~= seen);
            assert(next.last() == c);
        }
        if !('0' <= c && c <= '9') {
            proof {
                assert(body[i - first] == c);
            }
            return None;
        }
        let d: u64 = (c as u32 - '0' as u32) as u64;
        proof {
            assert forall|j: int| 0 <= j < next.len() implies is_digit(#[trigger] next[j]) by {
                if j < seen.len() {
                    assert(seen[j] == next[j]);
                }
            }
        }
        if acc > 1844674407370955161u64 || (acc == 1844674407370955161u64 && d > 5) {
            proof {
                assert(decimal_value(next) > u64::MAX);
                if all_digits(body) {
                    lemma_decimal_prefix(body, i - first + 1);
                }
            }
            return None;
        }
        acc = acc * 10 + d;
        i = i + 1;
    }
    assert(body.subrange(0, to - first) =~= body);
    Some(acc)
}

/// The character that writes the digit `d`.
pub open spec fn digit_char(d: nat) -> char {
    if d == 0 {
        '0'
    } else if d == 1 {
        '1'
    } else if d == 2 {
        '2'
    } else if d == 3 {
        '3'
    } else if d == 4 {
        '4'
    } else if d == 5 {
        '5'
    } else if d == 6 {
        '6'
    } else if d == 7 {
        '7'
    } else if d == 8 {
        '8'
    } else {
        '9'
    }
}

/// The digits that write `n` in base ten, without leading zeros.
pub open spec fn decimal_digits(n: nat) -> Seq<char>
    decreases n,
{
    if n < 10 {
        seq![digit_char(n)]
    } else {
        decimal_digits(n / 10).push(digit_char(n % 10))
    }
}

fn digit_text(d: u64) -> (r: &'static str)
    requires
        d < 10,
    ensures
        r@ == seq![digit_char(d as nat)],
{
    proof {
        reveal_strlit("0");
        reveal_strlit("1");
        reveal_strlit("2");
        reveal_strlit("3");
        reveal_strlit("4");
        reveal_strlit("5");
        reveal_strlit("6");
        reveal_strlit("7");
        reveal_strlit("8");
        reveal_strlit("9");
    }
    let r = if d == 0 {
        "0"
    } else if d == 1 {
        "1"
    } else if d == 2 {
        "2"
    } else if d == 3 {
        "3"
    } else if d == 4 {
        "4"
    } else if d == 5 {
        "5"
    } else if d == 6 {
        "6"
    } else if d == 7 {
        "7"
    } else if d == 8 {
        "8"
    } else {
        "9"
    };
    assert(r@ =~= seq![digit_char(d as nat)]);
    r
}

/// Writes `n` in base ten.
pub fn decimal_text(n: u64) -> (r: String)
    ensures
        r@ == decimal_digits(n as nat),
    decreases n,
{
    if n < 10 {
        String::from_str(digit_text(n))
    } else {
        let mut r = decimal_text(n / 10);
        r.append(digit_text(n % 10));
        assert(r@ =~= decimal_digits((n / 10) as nat).push(digit_char((n % 10) as nat)));
        r
    }
}

/// What is written in base ten is all digits and writes the number it came
/// from.
pub proof fn lemma_decimal_digits_value(n: nat)
    ensures
        decimal_digits(n).len() > 0,
        all_digits(decimal_digits(n)),
        decimal_value(decimal_digits(n)) == n,
        decimal_digits(n)[0] != '+',
    decreases n,
{
    let digits = decimal_digits(n);
    if n >= 10 {
        lemma_decimal_digits_value(n / 10);
        assert(digits.drop_last() =~= decimal_digits(n / 10));
        assert(digits.last() == digit_char(n % 10));
        assert((digit_char(n % 10) as u32 - '0' as u32) as nat == n % 10);
        assert(digits[0] == decimal_digits(n / 10)[0]);
    } else {
        assert(digits.drop_last() =~= Seq::<char>::empty());
        assert(decimal_value(digits.drop_last()) == 0);
        assert(digits.last() == digit_char(n));
        assert((digit_char(n) as u32 - '0' as u32) as nat == n);
    }
}

/// A number written in base ten reads back as itself.
pub proof fn lemma_decimal_round_trip(n: u64)
    ensures
        parsed_number(decimal_digits(n as nat)) == Some(n),
{
    lemma_decimal_digits_value(n as nat);
}

} // verus!
