//! Character-sequence utilities.
//!
//! All string algorithms in this crate work on `Vec<char>` so that every
//! step is verified against `Seq<char>` views; `String` values appear only
//! at the crate boundary.

use vstd::prelude::*;

verus! {

/// Relies on `String::from_iter` over `char`: collecting characters
/// yields a string whose character sequence is exactly the input.
#[verifier::external_body]
pub fn chars_to_string(v: Vec<char>) -> (s: String)
    ensures
        s@ == v@,
{
    v.into_iter().collect()
}

/// The characters of a string, as a vector (verified via vstd's
/// `unicode_len` and `get_char`).
pub fn string_to_chars(s: &str) -> (v: Vec<char>)
    ensures
        v@ == s@,
{
    let n = s.unicode_len();
    let mut v: Vec<char> = Vec::new();
    let mut i: usize = 0;
    while i < n
        invariant
            n == s@.len(),
            i <= n,
            v@ == s@.take(i as int),
        decreases n - i,
    {
        v.push(s.get_char(i));
        proof {
            assert(v@ =~= s@.take(i + 1));
        }
        i = i + 1;
    }
    proof {
        assert(s@.take(n as int) =~= s@);
    }
    v
}

/// `p` occurs in `s` starting at index `i`.
pub open spec fn occurs_at(s: Seq<char>, p: Seq<char>, i: int) -> bool {
    0 <= i && i + p.len() <= s.len() && s.subrange(i, i + p.len()) == p
}

/// `p` occurs somewhere in `s`.
pub open spec fn contains_seq(s: Seq<char>, p: Seq<char>) -> bool {
    exists|i: int| occurs_at(s, p, i)
}

/// `p` is a prefix of `s`.
pub open spec fn is_prefix_of(p: Seq<char>, s: Seq<char>) -> bool {
    p.len() <= s.len() && s.take(p.len() as int) == p
}

/// `p` is a suffix of `s`.
pub open spec fn is_suffix_of(p: Seq<char>, s: Seq<char>) -> bool {
    p.len() <= s.len() && s.skip(s.len() - p.len()) == p
}

/// Index of the first occurrence of `p` in `s`, if any.
pub open spec fn spec_find(s: Seq<char>, p: Seq<char>) -> Option<int>
    decreases s.len(),
    via spec_find_decreases
{
    if p.len() > s.len() {
        None
    } else if s.take(p.len() as int) == p {
        Some(0)
    } else {
        match spec_find(s.drop_first(), p) {
            None => None,
            Some(i) => Some(i + 1),
        }
    }
}

#[via_fn]
proof fn spec_find_decreases(s: Seq<char>, p: Seq<char>) {
    if p.len() <= s.len() && s.take(p.len() as int) != p && s.len() == 0 {
        assert(s.take(p.len() as int) =~= p);
    }
}

/// Shifting by one position: an occurrence in the tail is an occurrence
/// one later in the whole sequence.
proof fn lemma_occurs_shift(s: Seq<char>, p: Seq<char>, j: int)
    requires
        s.len() > 0,
        j >= 0,
    ensures
        occurs_at(s.drop_first(), p, j) == occurs_at(s, p, j + 1),
{
    if 0 <= j && j + p.len() <= s.drop_first().len() {
        assert(s.drop_first().subrange(j, j + p.len() as int) =~= s.subrange(
            j + 1,
            j + 1 + p.len(),
        ));
    }
}

/// `spec_find` returns exactly the first occurrence.
pub proof fn lemma_spec_find(s: Seq<char>, p: Seq<char>)
    ensures
        match spec_find(s, p) {
            Some(i) => occurs_at(s, p, i) && forall|j: int| 0 <= j < i ==> !occurs_at(s, p, j),
            None => forall|j: int| !occurs_at(s, p, j),
        },
    decreases s.len(),
{
    if p.len() > s.len() {
        assert(forall|j: int| !occurs_at(s, p, j));
    } else if s.take(p.len() as int) == p {
        assert(s.subrange(0, p.len() as int) =~= s.take(p.len() as int));
    } else {
        assert(s.len() > 0) by {
            if s.len() == 0 {
                assert(s.take(p.len() as int) =~= p);
            }
        }
        lemma_spec_find(s.drop_first(), p);
        assert(!occurs_at(s, p, 0)) by {
            if occurs_at(s, p, 0) {
                assert(s.subrange(0, p.len() as int) =~= s.take(p.len() as int));
            }
        }
        match spec_find(s.drop_first(), p) {
            None => {
                assert forall|j: int| !occurs_at(s, p, j) by {
                    if j >= 1 {
                        lemma_occurs_shift(s, p, j - 1);
                        assert(!occurs_at(s.drop_first(), p, j - 1));
                    }
                }
            },
            Some(i) => {
                lemma_occurs_shift(s, p, i);
                assert forall|j: int| 0 <= j < i + 1 implies !occurs_at(s, p, j) by {
                    if j >= 1 {
                        lemma_occurs_shift(s, p, j - 1);
                        assert(!occurs_at(s.drop_first(), p, j - 1));
                    }
                }
            },
        }
    }
}

/// Do `a` and `b` hold the same characters?
pub fn chars_eq(a: &[char], b: &[char]) -> (r: bool)
    ensures
        r == (a@ == b@),
{
    if a.len() != b.len() {
        proof {
            assert(a@.len() != b@.len());
        }
        return false;
    }
    let n = a.len();
    let mut i: usize = 0;
    while i < n
        invariant
            n == a@.len() == b@.len(),
            i <= n,
            forall|k: int| 0 <= k < i ==> a@[k] == b@[k],
        decreases n - i,
    {
        if a[i] != b[i] {
            return false;
        }
        i = i + 1;
    }
    proof {
        assert(a@ =~= b@);
    }
    true
}

/// Does `p` occur in `s` at index `i`?
fn matches_at(s: &[char], p: &[char], i: usize) -> (r: bool)
    requires
        i + p@.len() <= s@.len(),
    ensures
        r == occurs_at(s@, p@, i as int),
{
    let n = s.len();
    let m = p.len();
    let mut j: usize = 0;
    while j < m
        invariant
            n == s@.len(),
            m == p@.len(),
            i + m <= n,
            j <= m,
            forall|k: int| 0 <= k < j ==> s@[i + k] == p@[k],
        decreases m - j,
    {
        if s[i + j] != p[j] {
            proof {
                assert(s@.subrange(i as int, i + m) != p@) by {
                    assert(s@.subrange(i as int, i + m)[j as int] == s@[i + j]);
                }
            }
            return false;
        }
        j = j + 1;
    }
    proof {
        assert(s@.subrange(i as int, i + m) =~= p@);
    }
    true
}

/// Index of the first occurrence of `p` in `s`, or `None`.
pub fn find_sub(s: &[char], p: &[char]) -> (r: Option<usize>)
    ensures
        match r {
            Some(i) => spec_find(s@, p@) == Some(i as int),
            None => spec_find(s@, p@) is None,
        },
{
    proof {
        lemma_spec_find(s@, p@);
    }
    let n = s.len();
    let m = p.len();
    if m > n {
        return None;
    }
    if m == 0 {
        proof {
            assert(s@.take(0) =~= p@);
        }
        return Some(0);
    }
    let mut i: usize = 0;
    while i <= n - m
        invariant
            n == s@.len(),
            m == p@.len(),
            0 < m <= n,
            i <= n - m + 1,
            forall|j: int| 0 <= j < i ==> !occurs_at(s@, p@, j),
        decreases n - i,
    {
        if matches_at(s, p, i) {
            proof {
                lemma_spec_find(s@, p@);
                match spec_find(s@, p@) {
                    Some(k) => {
                        if k < i {
                            assert(!occurs_at(s@, p@, k));
                        }
                        if k > i {
                            assert(!occurs_at(s@, p@, i as int));
                        }
                    },
                    None => {
                        assert(!occurs_at(s@, p@, i as int));
                    },
                }
            }
            return Some(i);
        }
        i = i + 1;
    }
    proof {
        assert forall|j: int| !occurs_at(s@, p@, j) by {
            if j > n - m {
                assert(!occurs_at(s@, p@, j));
            }
        }
        lemma_spec_find(s@, p@);
    }
    None
}

/// Does `s` contain `p` anywhere?
pub fn contains_sub(s: &[char], p: &[char]) -> (r: bool)
    ensures
        r == contains_seq(s@, p@),
{
    proof {
        lemma_spec_find(s@, p@);
    }
    match find_sub(s, p) {
        Some(_) => true,
        None => false,
    }
}

/// Does `s` start with `p`?
pub fn starts_with(s: &[char], p: &[char]) -> (r: bool)
    ensures
        r == is_prefix_of(p@, s@),
{
    if p.len() > s.len() {
        return false;
    }
    let r = matches_at(s, p, 0);
    proof {
        assert(s@.subrange(0, p@.len() as int) =~= s@.take(p@.len() as int));
    }
    r
}

/// Does `s` end with `p`?
pub fn ends_with(s: &[char], p: &[char]) -> (r: bool)
    ensures
        r == is_suffix_of(p@, s@),
{
    if p.len() > s.len() {
        return false;
    }
    let r = matches_at(s, p, s.len() - p.len());
    proof {
        assert(s@.subrange(s@.len() - p@.len(), s@.len() - p@.len() + p@.len()) =~= s@.skip(
            s@.len() - p@.len(),
        ));
    }
    r
}

/// The characters of `s` from `a` (inclusive) to `b` (exclusive).
pub fn slice_range(s: &[char], a: usize, b: usize) -> (r: Vec<char>)
    requires
        a <= b <= s@.len(),
    ensures
        r@ == s@.subrange(a as int, b as int),
{
    let mut r: Vec<char> = Vec::new();
    let mut i: usize = a;
    while i < b
        invariant
            a <= i <= b <= s@.len(),
            r@ == s@.subrange(a as int, i as int),
        decreases b - i,
    {
        r.push(s[i]);
        proof {
            assert(r@ =~= s@.subrange(a as int, i + 1));
        }
        i = i + 1;
    }
    r
}

/// A whitespace character, for trimming.
pub open spec fn is_space(c: char) -> bool {
    c == ' ' || c == '\t' || c == '\n' || c == '\r'
}

/// `s` without leading whitespace.
pub open spec fn spec_trim_front(s: Seq<char>) -> Seq<char>
    decreases s.len(),
{
    if s.len() > 0 && is_space(s[0]) {
        spec_trim_front(s.drop_first())
    } else {
        s
    }
}

/// `s` without trailing whitespace.
pub open spec fn spec_trim_back(s: Seq<char>) -> Seq<char>
    decreases s.len(),
{
    if s.len() > 0 && is_space(s[s.len() - 1]) {
        spec_trim_back(s.drop_last())
    } else {
        s
    }
}

/// `s` without leading or trailing whitespace.
pub open spec fn spec_trim(s: Seq<char>) -> Seq<char> {
    spec_trim_back(spec_trim_front(s))
}

proof fn lemma_trim_front_skip(s: Seq<char>, i: int)
    requires
        0 <= i <= s.len(),
        forall|k: int| 0 <= k < i ==> is_space(s[k]),
    ensures
        spec_trim_front(s) == spec_trim_front(s.skip(i)),
    decreases i,
{
    if i > 0 {
        assert(spec_trim_front(s) == spec_trim_front(s.drop_first()));
        assert(s.drop_first().skip(i - 1) =~= s.skip(i));
        lemma_trim_front_skip(s.drop_first(), i - 1);
    } else {
        assert(s.skip(0) =~= s);
    }
}

proof fn lemma_trim_back_take(s: Seq<char>, i: int)
    requires
        0 <= i <= s.len(),
        forall|k: int| i <= k < s.len() ==> is_space(s[k]),
    ensures
        spec_trim_back(s) == spec_trim_back(s.take(i)),
    decreases s.len() - i,
{
    if i < s.len() {
        assert(spec_trim_back(s) == spec_trim_back(s.drop_last()));
        assert(s.drop_last().take(i) =~= s.take(i));
        lemma_trim_back_take(s.drop_last(), i);
    } else {
        assert(s.take(i) =~= s);
    }
}

/// Remove leading and trailing whitespace.
pub fn trim(s: &[char]) -> (r: Vec<char>)
    ensures
        r@ == spec_trim(s@),
{
    let n = s.len();
    let mut a: usize = 0;
    while a < n && (s[a] == ' ' || s[a] == '\t' || s[a] == '\n' || s[a] == '\r')
        invariant
            n == s@.len(),
            a <= n,
            forall|k: int| 0 <= k < a ==> is_space(s@[k]),
        decreases n - a,
    {
        a = a + 1;
    }
    let mut b: usize = n;
    while b > a && (s[b - 1] == ' ' || s[b - 1] == '\t' || s[b - 1] == '\n' || s[b - 1] == '\r')
        invariant
            n == s@.len(),
            a <= b <= n,
            forall|k: int| 0 <= k < a ==> is_space(s@[k]),
            forall|k: int| b <= k < n ==> is_space(s@[k]),
        decreases b,
    {
        b = b - 1;
    }
    let r = slice_range(s, a, b);
    proof {
        lemma_trim_front_skip(s@, a as int);
        let t = s@.skip(a as int);
        if a < b {
            assert(!is_space(t[0]));
            assert(spec_trim_front(t) == t);
        } else {
            assert(t.len() == n - a);
            if a == b && b < n {
                assert(is_space(s@[b as int]));
            }
            if t.len() > 0 {
                assert(is_space(t[0])) by {
                    assert(t[0] == s@[a as int]);
                }
            }
        }
        if a == b {
            // everything is whitespace: trimming yields the empty sequence
            assert(forall|k: int| 0 <= k < t.len() ==> is_space(t[k])) by {
                assert(forall|k: int| 0 <= k < t.len() ==> t[k] == s@[a + k]);
            }
            lemma_all_space_trims_empty(t);
            assert(r@ =~= Seq::<char>::empty());
        } else {
            assert(spec_trim(s@) == spec_trim_back(t));
            lemma_trim_back_take(t, b - a);
            let u = t.take(b - a);
            assert(u.len() > 0 && !is_space(u[u.len() - 1])) by {
                assert(u[u.len() - 1] == s@[b - 1]);
            }
            assert(spec_trim_back(u) == u);
            assert(r@ =~= u);
        }
    }
    r
}

proof fn lemma_all_space_trims_empty(s: Seq<char>)
    requires
        forall|k: int| 0 <= k < s.len() ==> is_space(s[k]),
    ensures
        spec_trim_front(s) == Seq::<char>::empty(),
        spec_trim_back(s) == Seq::<char>::empty(),
        spec_trim(s) == Seq::<char>::empty(),
    decreases s.len(),
{
    if s.len() > 0 {
        lemma_all_space_trims_empty(s.drop_first());
        lemma_all_space_trims_empty(s.drop_last());
    }
}

/// The pieces of `s` between occurrences of the separator `sep`.
pub open spec fn spec_split(s: Seq<char>, sep: Seq<char>) -> Seq<Seq<char>>
    decreases s.len(),
    via spec_split_decreases
{
    if sep.len() == 0 {
        seq![s]
    } else {
        match spec_find(s, sep) {
            None => seq![s],
            Some(i) => seq![s.take(i)] + spec_split(s.skip(i + sep.len()), sep),
        }
    }
}

#[via_fn]
proof fn spec_split_decreases(s: Seq<char>, sep: Seq<char>) {
    if sep.len() > 0 {
        lemma_spec_find(s, sep);
    }
}

/// Split `s` on every occurrence of `sep`.
pub fn split_on(s: &[char], sep: &[char]) -> (r: Vec<Vec<char>>)
    requires
        sep@.len() > 0,
    ensures
        r@.len() == spec_split(s@, sep@).len(),
        forall|i: int| 0 <= i < r@.len() ==> r@[i]@ == spec_split(s@, sep@)[i],
{
    let mut parts: Vec<Vec<char>> = Vec::new();
    let mut rest: Vec<char> = slice_range(s, 0, s.len());
    proof {
        assert(rest@ =~= s@);
    }
    loop
        invariant
            sep@.len() > 0,
            spec_split(s@, sep@).len() == parts@.len() + spec_split(rest@, sep@).len(),
            forall|i: int|
                0 <= i < parts@.len() ==> parts@[i]@ == spec_split(s@, sep@)[i],
            forall|i: int|
                0 <= i < spec_split(rest@, sep@).len() ==> spec_split(rest@, sep@)[i]
                    == spec_split(s@, sep@)[parts@.len() + i],
        decreases rest@.len() + 1,
    {
        match find_sub(rest.as_slice(), sep) {
            Some(i) => {
                proof {
                    lemma_spec_find(rest@, sep@);
                }
                let rl = rest.len();
                let piece = slice_range(rest.as_slice(), 0, i);
                let new_rest = slice_range(rest.as_slice(), i + sep.len(), rl);
                let ghost full = spec_split(s@, sep@);
                let ghost cur = spec_split(rest@, sep@);
                let ghost nxt = spec_split(new_rest@, sep@);
                let ghost done = parts@.len() as int;
                proof {
                    assert(piece@ =~= rest@.take(i as int));
                    assert(new_rest@ =~= rest@.skip(i + sep@.len()));
                    assert(cur == seq![rest@.take(i as int)] + nxt);
                    assert(cur[0] == piece@);
                    assert(forall|k: int| 0 <= k < nxt.len() ==> cur[k + 1] == #[trigger] nxt[k]);
                }
                parts.push(piece);
                rest = new_rest;
                proof {
                    assert(parts@[done]@ == cur[0]);
                    assert(cur[0] == full[done]);
                    assert(forall|k: int|
                        0 <= k < nxt.len() ==> #[trigger] nxt[k] == full[done + 1 + k]);
                }
            },
            None => {
                proof {
                    assert(spec_split(rest@, sep@) =~= seq![rest@]);
                    assert(spec_split(rest@, sep@)[0] == rest@);
                }
                let ghost done = parts@.len() as int;
                let ghost full = spec_split(s@, sep@);
                let ghost last = rest@;
                parts.push(rest);
                proof {
                    assert(parts@[done]@ == last);
                    assert(last == full[done]);
                }
                return parts;
            },
        }
    }
}

} // verus!

verus! {

/// How many times `c` occurs in `s`.
pub open spec fn count_char(s: Seq<char>, c: char) -> nat
    decreases s.len(),
{
    if s.len() == 0 {
        0
    } else {
        count_char(s.drop_last(), c) + if s.last() == c {
            1nat
        } else {
            0nat
        }
    }
}

/// Count the occurrences of `c` in `s`.
pub fn count_char_in(s: &[char], c: char) -> (r: usize)
    ensures
        r == count_char(s@, c),
{
    let n = s.len();
    let mut i: usize = 0;
    let mut cnt: usize = 0;
    while i < n
        invariant
            n == s@.len(),
            i <= n,
            cnt == count_char(s@.take(i as int), c),
            cnt <= i,
        decreases n - i,
    {
        proof {
            assert(s@.take(i + 1).drop_last() =~= s@.take(i as int));
            assert(s@.take(i + 1).last() == s@[i as int]);
        }
        if s[i] == c {
            cnt = cnt + 1;
        }
        i = i + 1;
    }
    proof {
        assert(s@.take(n as int) =~= s@);
    }
    cnt
}

/// Ten to the `k`.
pub open spec fn pow10(k: nat) -> nat
    decreases k,
{
    if k == 0 {
        1
    } else {
        10 * pow10((k - 1) as nat)
    }
}

/// A decimal digit.
pub open spec fn is_dec_digit(c: char) -> bool {
    '0' <= c && c <= '9'
}

/// A decimal digit's value lies between 0 and 9, and is 0 exactly for '0'.
pub proof fn lemma_digit_facts(c: char)
    requires
        is_dec_digit(c),
    ensures
        0 <= digit_val(c) <= 9,
        (c == '0') == (digit_val(c) == 0),
{
    assert(('0' as u32) == 48);
    assert(('9' as u32) == 57);
    assert(48 <= c as u32 <= 57);
}

/// The value of a decimal digit.
pub open spec fn digit_val(c: char) -> int {
    (c as u32) - 48
}

/// Every character of `s` is a decimal digit.
pub open spec fn all_dec_digits(s: Seq<char>) -> bool {
    forall|i: int| 0 <= i < s.len() ==> is_dec_digit(s[i])
}

/// The number denoted by a sequence of decimal digits.
pub open spec fn digits_to_nat(s: Seq<char>) -> nat
    decreases s.len(),
{
    if s.len() == 0 {
        0
    } else {
        digits_to_nat(s.drop_last()) * 10 + if 0 <= digit_val(s.last()) <= 9 {
            digit_val(s.last()) as nat
        } else {
            0nat
        }
    }
}

/// A digit string denotes a number below ten to its length.
pub proof fn lemma_digits_bound(s: Seq<char>)
    ensures
        digits_to_nat(s) < pow10(s.len()),
    decreases s.len(),
{
    if s.len() > 0 {
        lemma_digits_bound(s.drop_last());
    }
}

/// The character for a single decimal digit.
pub open spec fn digit_char(d: int) -> char {
    if d == 0 { '0' }
    else if d == 1 { '1' }
    else if d == 2 { '2' }
    else if d == 3 { '3' }
    else if d == 4 { '4' }
    else if d == 5 { '5' }
    else if d == 6 { '6' }
    else if d == 7 { '7' }
    else if d == 8 { '8' }
    else { '9' }
}

/// The decimal digit string of `n`, most significant digit first.
pub open spec fn spec_dec_digits(n: nat) -> Seq<char>
    decreases n,
{
    if n < 10 {
        seq![digit_char(n as int)]
    } else {
        spec_dec_digits(n / 10) + seq![digit_char((n % 10) as int)]
    }
}

fn digit_char_exec(d: u64) -> (c: char)
    requires
        d <= 9,
    ensures
        c == digit_char(d as int),
{
    match d {
        0 => '0',
        1 => '1',
        2 => '2',
        3 => '3',
        4 => '4',
        5 => '5',
        6 => '6',
        7 => '7',
        8 => '8',
        _ => '9',
    }
}

/// The decimal representation of `n`, as characters.
pub fn u64_to_dec_chars(n: u64) -> (r: Vec<char>)
    ensures
        r@ == spec_dec_digits(n as nat),
    decreases n,
{
    if n < 10 {
        let mut v: Vec<char> = Vec::new();
        v.push(digit_char_exec(n));
        proof {
            assert(v@ =~= spec_dec_digits(n as nat));
        }
        v
    } else {
        let mut v = u64_to_dec_chars(n / 10);
        v.push(digit_char_exec(n % 10));
        proof {
            assert(v@ =~= spec_dec_digits(n as nat));
        }
        v
    }
}

/// The digit characters carry their values.
proof fn lemma_digit_char_val(d: int)
    requires
        0 <= d <= 9,
    ensures
        is_dec_digit(digit_char(d)),
        digit_val(digit_char(d)) == d,
{
    assert(('0' as u32) == 48);
    assert(('1' as u32) == 49);
    assert(('2' as u32) == 50);
    assert(('3' as u32) == 51);
    assert(('4' as u32) == 52);
    assert(('5' as u32) == 53);
    assert(('6' as u32) == 54);
    assert(('7' as u32) == 55);
    assert(('8' as u32) == 56);
    assert(('9' as u32) == 57);
}

/// Digit strings denote their value: formatting then reading a number
/// is the identity.
pub proof fn lemma_dec_digits_value(n: nat)
    ensures
        spec_dec_digits(n).len() >= 1,
        all_dec_digits(spec_dec_digits(n)),
        digits_to_nat(spec_dec_digits(n)) == n,
    decreases n,
{
    if n < 10 {
        lemma_digit_char_val(n as int);
        let s = spec_dec_digits(n);
        assert(s =~= seq![digit_char(n as int)]);
        assert(s.drop_last() =~= Seq::<char>::empty());
        assert(digits_to_nat(s.drop_last()) == 0);
        assert(s.last() == digit_char(n as int));
        assert(digits_to_nat(s) == digits_to_nat(s.drop_last()) * 10 + digit_val(s.last()));
        assert(digits_to_nat(s) == n);
        assert(all_dec_digits(s));
    } else {
        lemma_dec_digits_value(n / 10);
        lemma_digit_char_val((n % 10) as int);
        let s = spec_dec_digits(n);
        let hd = spec_dec_digits(n / 10);
        assert(s =~= hd + seq![digit_char((n % 10) as int)]);
        assert(s.drop_last() =~= hd);
        assert(s.last() == digit_char((n % 10) as int));
        assert(digits_to_nat(s) == digits_to_nat(hd) * 10 + digit_val(s.last()));
        assert(digits_to_nat(s) == (n / 10) * 10 + (n % 10));
        assert(n == (n / 10) * 10 + (n % 10));
        assert(all_dec_digits(s)) by {
            assert(forall|i: int| 0 <= i < hd.len() ==> s[i] == hd[i]);
            assert(is_dec_digit(s[s.len() - 1]));
        }
    }
}

} // verus!

verus! {

/// Useful powers of ten.
pub proof fn lemma_pow10_vals()
    ensures
        pow10(9) == 1_000_000_000,
        pow10(19) == 10_000_000_000_000_000_000,
        pow10(20) == 100_000_000_000_000_000_000,
        pow10(21) == 1_000_000_000_000_000_000_000,
{
    assert(pow10(0) == 1);
    assert(pow10(1) == 10);
    assert(pow10(2) == 100);
    assert(pow10(3) == 1000);
    assert(pow10(4) == 10000);
    assert(pow10(5) == 100000);
    assert(pow10(6) == 1000000);
    assert(pow10(7) == 10000000);
    assert(pow10(8) == 100000000);
    assert(pow10(9) == 1000000000);
    assert(pow10(10) == 10000000000);
    assert(pow10(11) == 100000000000);
    assert(pow10(12) == 1000000000000);
    assert(pow10(13) == 10000000000000);
    assert(pow10(14) == 100000000000000);
    assert(pow10(15) == 1000000000000000);
    assert(pow10(16) == 10000000000000000);
    assert(pow10(17) == 100000000000000000);
    assert(pow10(18) == 1000000000000000000);
    assert(pow10(19) == 10000000000000000000);
    assert(pow10(20) == 100000000000000000000);
    assert(pow10(21) == 1000000000000000000000);
}

/// A leading zero does not change the value of a digit string.
proof fn lemma_leading_zero(s: Seq<char>)
    requires
        s.len() > 0,
        digit_val(s[0]) == 0,
    ensures
        digits_to_nat(s) == digits_to_nat(s.drop_first()),
    decreases s.len(),
{
    if s.len() == 1 {
        assert(s.drop_last() =~= Seq::<char>::empty());
        assert(s.drop_first() =~= Seq::<char>::empty());
        assert(digit_val(s.last()) == 0);
    } else {
        let dl = s.drop_last();
        lemma_leading_zero(dl);
        assert(s.drop_first().drop_last() =~= dl.drop_first());
        assert(s.drop_first().last() == s.last());
        assert(s.drop_first().len() > 0);
    }
}

/// Leading zeros do not change the value of a digit string.
pub proof fn lemma_leading_zeros(s: Seq<char>, k: int)
    requires
        0 <= k <= s.len(),
        forall|i: int| 0 <= i < k ==> digit_val(s[i]) == 0,
    ensures
        digits_to_nat(s) == digits_to_nat(s.skip(k)),
    decreases k,
{
    if k > 0 {
        lemma_leading_zero(s);
        assert(s.drop_first().skip(k - 1) =~= s.skip(k));
        lemma_leading_zeros(s.drop_first(), k - 1);
    } else {
        assert(s.skip(0) =~= s);
    }
}

/// A digit string with a nonzero first digit is at least ten to one
/// less than its length.
proof fn lemma_digits_lower(s: Seq<char>)
    requires
        s.len() > 0,
        all_dec_digits(s),
        digit_val(s[0]) >= 1,
    ensures
        digits_to_nat(s) >= pow10((s.len() - 1) as nat),
    decreases s.len(),
{
    if s.len() == 1 {
        assert(digits_to_nat(s.drop_last()) == 0);
    } else {
        let dl = s.drop_last();
        assert(dl[0] == s[0]);
        assert(all_dec_digits(dl));
        lemma_digits_lower(dl);
        assert(digits_to_nat(s) == digits_to_nat(dl) * 10 + digit_val(s.last()));
        assert(digits_to_nat(dl) * 10 >= pow10((dl.len() - 1) as nat) * 10);
        assert(pow10((dl.len() - 1) as nat) * 10 == pow10((s.len() - 1) as nat));
    }
}

/// The number denoted by `s`: an optional leading `+`, then decimal
/// digits; `None` when the text is not a number or the value does not
/// fit in a `u64`.
pub open spec fn spec_parse_u64(s: Seq<char>) -> Option<u64> {
    let d = if s.len() > 0 && s[0] == '+' {
        s.drop_first()
    } else {
        s
    };
    if d.len() > 0 && all_dec_digits(d) && digits_to_nat(d) <= u64::MAX {
        Some(digits_to_nat(d) as u64)
    } else {
        None
    }
}

/// Parse an unsigned decimal number, as `str::parse::<u64>` reads it.
pub fn parse_u64_chars(s: &[char]) -> (r: Option<u64>)
    ensures
        r == spec_parse_u64(s@),
{
    let n = s.len();
    let start: usize = if n > 0 && s[0] == '+' {
        1
    } else {
        0
    };
    let ghost d = if s@.len() > 0 && s@[0] == '+' {
        s@.drop_first()
    } else {
        s@
    };
    proof {
        assert(s@.drop_first() =~= s@.skip(1));
        assert(s@.skip(0) =~= s@);
        assert(d == s@.skip(start as int));
    }
    if start == n {
        return None;
    }
    // every character must be a digit
    let mut i: usize = start;
    while i < n
        invariant
            n == s@.len(),
            start <= i <= n,
            start < n,
            d == s@.skip(start as int),
            d == (if s@.len() > 0 && s@[0] == '+' { s@.drop_first() } else { s@ }),
            forall|k: int| start <= k < i ==> is_dec_digit(s@[k]),
        decreases n - i,
    {
        let c = s[i];
        if !('0' <= c && c <= '9') {
            proof {
                assert(d[i - start] == s@[i as int]);
                assert(!all_dec_digits(d));
            }
            return None;
        }
        i = i + 1;
    }
    proof {
        assert(all_dec_digits(d)) by {
            assert(forall|k: int| 0 <= k < d.len() ==> d[k] == s@[start + k]);
        }
    }
    // skip leading zeros
    let mut z: usize = start;
    while z < n && s[z] == '0'
        invariant
            n == s@.len(),
            start <= z <= n,
            start < n,
            d == s@.skip(start as int),
            d == (if s@.len() > 0 && s@[0] == '+' { s@.drop_first() } else { s@ }),
            all_dec_digits(d),
            forall|k: int| start <= k < z ==> s@[k] == '0',
        decreases n - z,
    {
        z = z + 1;
    }
    let ghost sig = s@.skip(z as int);
    proof {
        assert forall|k: int| 0 <= k < z - start implies digit_val(d[k]) == 0 by {
            assert(d[k] == s@[start + k]);
            lemma_digit_facts(d[k]);
        }
        lemma_leading_zeros(d, z - start);
        assert(d.skip(z - start) =~= sig);
        assert(digits_to_nat(d) == digits_to_nat(sig));
        assert(all_dec_digits(sig)) by {
            assert(forall|k: int| 0 <= k < sig.len() ==> sig[k] == s@[z + k]);
        }
        lemma_pow10_vals();
    }
    if n - z > 20 {
        proof {
            assert(digit_val(sig[0]) >= 1) by {
                assert(sig[0] == s@[z as int]);
                lemma_digit_facts(sig[0]);
            }
            lemma_digits_lower(sig);
            assert(pow10((sig.len() - 1) as nat) >= pow10(20)) by {
                lemma_pow10_increases(20, (sig.len() - 1) as nat);
            }
        }
        return None;
    }
    let mut acc: u128 = 0;
    let mut i: usize = z;
    while i < n
        invariant
            n == s@.len(),
            start <= z <= i <= n,
            start < n,
            n - z <= 20,
            d == s@.skip(start as int),
            d == (if s@.len() > 0 && s@[0] == '+' { s@.drop_first() } else { s@ }),
            all_dec_digits(d),
            sig == s@.skip(z as int),
            all_dec_digits(sig),
            digits_to_nat(d) == digits_to_nat(sig),
            acc == digits_to_nat(sig.take(i - z)),
            acc < pow10(20),
            pow10(20) == 100_000_000_000_000_000_000,
        decreases n - i,
    {
        proof {
            assert(is_dec_digit(s@[i as int])) by {
                assert(sig[i - z] == s@[i as int]);
            }
            lemma_digit_facts(s@[i as int]);
            assert(48 <= (s@[i as int] as u32) <= 57) by {
                assert(('0' as u32) == 48);
                assert(('9' as u32) == 57);
            }
        }
        let dv = (s[i] as u32 - 48) as u128;
        proof {
            let t = sig.take(i + 1 - z);
            assert(t.drop_last() =~= sig.take(i - z));
            assert(t.last() == sig[i - z] == s@[i as int]);
            lemma_digits_bound(t);
            assert(pow10(t.len() as nat) <= pow10(20)) by {
                lemma_pow10_increases(t.len() as nat, 20);
            }
        }
        acc = acc * 10 + dv;
        i = i + 1;
    }
    proof {
        assert(sig.take(n - z) =~= sig);
        assert(d.len() > 0);
    }
    if acc <= u64::MAX as u128 {
        Some(acc as u64)
    } else {
        None
    }
}

/// `pow10` is monotone.
pub proof fn lemma_pow10_increases(a: nat, b: nat)
    requires
        a <= b,
    ensures
        pow10(a) <= pow10(b),
    decreases b,
{
    if a < b {
        lemma_pow10_increases(a, (b - 1) as nat);
        assert(pow10(b) == 10 * pow10((b - 1) as nat));
    }
}

/// Lower-case form of an ASCII letter; other characters are unchanged.
pub open spec fn lower_char(c: char) -> char {
    if c == 'A' { 'a' }
    else if c == 'B' { 'b' }
    else if c == 'C' { 'c' }
    else if c == 'D' { 'd' }
    else if c == 'E' { 'e' }
    else if c == 'F' { 'f' }
    else if c == 'G' { 'g' }
    else if c == 'H' { 'h' }
    else if c == 'I' { 'i' }
    else if c == 'J' { 'j' }
    else if c == 'K' { 'k' }
    else if c == 'L' { 'l' }
    else if c == 'M' { 'm' }
    else if c == 'N' { 'n' }
    else if c == 'O' { 'o' }
    else if c == 'P' { 'p' }
    else if c == 'Q' { 'q' }
    else if c == 'R' { 'r' }
    else if c == 'S' { 's' }
    else if c == 'T' { 't' }
    else if c == 'U' { 'u' }
    else if c == 'V' { 'v' }
    else if c == 'W' { 'w' }
    else if c == 'X' { 'x' }
    else if c == 'Y' { 'y' }
    else if c == 'Z' { 'z' }
    else { c }
}

/// The ASCII-lower-cased form of a sequence.
pub open spec fn lower_seq(s: Seq<char>) -> Seq<char> {
    s.map_values(|c: char| lower_char(c))
}

/// Lower-case every ASCII letter of `s`.
pub fn to_lower_chars(s: &[char]) -> (r: Vec<char>)
    ensures
        r@ == lower_seq(s@),
{
    let n = s.len();
    let mut r: Vec<char> = Vec::new();
    let mut i: usize = 0;
    while i < n
        invariant
            n == s@.len(),
            i <= n,
            r@ == lower_seq(s@.take(i as int)),
        decreases n - i,
    {
        let c = s[i];
        let lc = match c {
            'A' => 'a',
            'B' => 'b',
            'C' => 'c',
            'D' => 'd',
            'E' => 'e',
            'F' => 'f',
            'G' => 'g',
            'H' => 'h',
            'I' => 'i',
            'J' => 'j',
            'K' => 'k',
            'L' => 'l',
            'M' => 'm',
            'N' => 'n',
            'O' => 'o',
            'P' => 'p',
            'Q' => 'q',
            'R' => 'r',
            'S' => 's',
            'T' => 't',
            'U' => 'u',
            'V' => 'v',
            'W' => 'w',
            'X' => 'x',
            'Y' => 'y',
            'Z' => 'z',
            other => other,
        };
        proof {
            assert(lc == lower_char(c));
        }
        r.push(lc);
        proof {
            assert(r@ =~= lower_seq(s@.take(i + 1)));
        }
        i = i + 1;
    }
    proof {
        assert(s@.take(n as int) =~= s@);
    }
    r
}

/// The parts joined with the separator between them.
pub open spec fn spec_join(parts: Seq<Seq<char>>, sep: Seq<char>) -> Seq<char>
    decreases parts.len(),
{
    if parts.len() == 0 {
        Seq::empty()
    } else if parts.len() == 1 {
        parts[0]
    } else {
        parts[0] + sep + spec_join(parts.drop_first(), sep)
    }
}

/// Append all of `src` to `dst`.
pub fn append_chars(dst: &mut Vec<char>, src: &[char])
    ensures
        final(dst)@ == old(dst)@ + src@,
{
    let n = src.len();
    let mut i: usize = 0;
    while i < n
        invariant
            n == src@.len(),
            i <= n,
            dst@ == old(dst)@ + src@.take(i as int),
        decreases n - i,
    {
        dst.push(src[i]);
        proof {
            assert(dst@ =~= old(dst)@ + src@.take(i + 1));
        }
        i = i + 1;
    }
    proof {
        assert(old(dst)@ + src@.take(n as int) =~= old(dst)@ + src@);
    }
}

/// Appending one more part extends the join by a separator and the part.
proof fn lemma_join_push(parts: Seq<Seq<char>>, x: Seq<char>, sep: Seq<char>)
    ensures
        spec_join(parts.push(x), sep) == if parts.len() == 0 {
            x
        } else {
            spec_join(parts, sep) + sep + x
        },
    decreases parts.len(),
{
    let p = parts.push(x);
    if parts.len() == 0 {
        assert(p.len() == 1);
        assert(p[0] == x);
    } else if parts.len() == 1 {
        assert(p.len() == 2);
        assert(p[0] == parts[0]);
        assert(p.drop_first() =~= seq![x]);
        assert(spec_join(p.drop_first(), sep) == x);
    } else {
        assert(p[0] == parts[0]);
        assert(p.drop_first() =~= parts.drop_first().push(x));
        lemma_join_push(parts.drop_first(), x, sep);
        assert(spec_join(p, sep) == parts[0] + sep + (spec_join(parts.drop_first(), sep) + sep
            + x));
        assert(parts[0] + sep + (spec_join(parts.drop_first(), sep) + sep + x) =~= (parts[0] + sep
            + spec_join(parts.drop_first(), sep)) + sep + x);
    }
}

/// Join the parts with `sep` between consecutive parts.
pub fn join_chars(parts: &Vec<Vec<char>>, sep: &[char]) -> (r: Vec<char>)
    ensures
        r@ == spec_join(parts@.map_values(|p: Vec<char>| p@), sep@),
{
    let ghost views = parts@.map_values(|p: Vec<char>| p@);
    let mut r: Vec<char> = Vec::new();
    let n = parts.len();
    let mut i: usize = 0;
    while i < n
        invariant
            n == parts@.len(),
            views == parts@.map_values(|p: Vec<char>| p@),
            i <= n,
            r@ == spec_join(views.take(i as int), sep@),
        decreases n - i,
    {
        let ghost prefix = views.take(i as int);
        if i > 0 {
            append_chars(&mut r, sep);
        }
        append_chars(&mut r, parts[i].as_slice());
        proof {
            assert(views[i as int] == parts@[i as int]@);
            lemma_join_push(prefix, views[i as int], sep@);
            assert(prefix.push(views[i as int]) =~= views.take(i + 1));
            if i == 0 {
                assert(r@ =~= views[i as int]);
            }
        }
        i = i + 1;
    }
    proof {
        assert(views.take(n as int) =~= views);
    }
    r
}

} // verus!

verus! {

/// Remove leading whitespace only.
pub fn trim_front(s: &[char]) -> (r: Vec<char>)
    ensures
        r@ == spec_trim_front(s@),
{
    let n = s.len();
    let mut a: usize = 0;
    while a < n && (s[a] == ' ' || s[a] == '\t' || s[a] == '\n' || s[a] == '\r')
        invariant
            n == s@.len(),
            a <= n,
            forall|k: int| 0 <= k < a ==> is_space(s@[k]),
        decreases n - a,
    {
        a = a + 1;
    }
    let r = slice_range(s, a, n);
    proof {
        lemma_trim_front_skip(s@, a as int);
        let t = s@.skip(a as int);
        if a < n {
            assert(!is_space(t[0])) by {
                assert(t[0] == s@[a as int]);
            }
            assert(spec_trim_front(t) == t);
        } else {
            assert(t.len() == 0);
        }
        assert(r@ =~= t);
    }
    r
}

} // verus!

verus! {

/// Trimming the end keeps every remaining character in place.
proof fn lemma_trim_back_keeps(s: Seq<char>)
    ensures
        spec_trim_back(s).len() <= s.len(),
        forall|k: int| 0 <= k < spec_trim_back(s).len() ==> spec_trim_back(s)[k] == s[k],
    decreases s.len(),
{
    if s.len() > 0 && is_space(s[s.len() - 1]) {
        lemma_trim_back_keeps(s.drop_last());
        assert forall|k: int| 0 <= k < spec_trim_back(s).len() implies spec_trim_back(s)[k]
            == s[k] by {
            assert(spec_trim_back(s)[k] == spec_trim_back(s.drop_last())[k]);
            assert(s.drop_last()[k] == s[k]);
        }
    }
}

/// Trimming is idempotent.
pub proof fn lemma_trim_idem(s: Seq<char>)
    ensures
        spec_trim(spec_trim(s)) == spec_trim(s),
{
    let f = spec_trim_front(s);
    let t = spec_trim_back(f);
    lemma_trim_front_no_lead(s);
    lemma_trim_back_keeps(f);
    if t.len() > 0 {
        assert(t[0] == f[0]);
        assert(!is_space(t[0]));
    }
    assert(spec_trim_front(t) == t);
    lemma_trim_back_no_trail(f);
    assert(spec_trim_back(t) == t);
}

/// The front-trimmed form has no leading whitespace.
proof fn lemma_trim_front_no_lead(s: Seq<char>)
    ensures
        spec_trim_front(s).len() > 0 ==> !is_space(spec_trim_front(s)[0]),
    decreases s.len(),
{
    if s.len() > 0 && is_space(s[0]) {
        lemma_trim_front_no_lead(s.drop_first());
    }
}

/// The back-trimmed form has no trailing whitespace.
proof fn lemma_trim_back_no_trail(s: Seq<char>)
    ensures
        spec_trim_back(s).len() > 0 ==> !is_space(spec_trim_back(s)[spec_trim_back(s).len() - 1]),
    decreases s.len(),
{
    if s.len() > 0 && is_space(s[s.len() - 1]) {
        lemma_trim_back_no_trail(s.drop_last());
    }
}

} // verus!

verus! {

/// The decimal representation of a wide count, as characters.
pub fn u128_to_dec_chars(n: u128) -> (r: Vec<char>)
    ensures
        r@ == spec_dec_digits(n as nat),
    decreases n,
{
    if n < 10 {
        let mut v: Vec<char> = Vec::new();
        let d: u64 = n as u64;
        v.push(digit_char_exec(d));
        proof {
            assert(v@ =~= spec_dec_digits(n as nat));
        }
        v
    } else {
        let mut v = u128_to_dec_chars(n / 10);
        v.push(digit_char_exec((n % 10) as u64));
        proof {
            assert(v@ =~= spec_dec_digits(n as nat));
        }
        v
    }
}

} // verus!
