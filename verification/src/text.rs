//! Character-sequence helpers: decimal numbers, whitespace trimming and
//! line splitting, each specified over `Seq<char>`.

use vstd::prelude::*;

verus! {

/// The ASCII digit character that stands for `d` (`0 <= d <= 9`).
pub open spec fn digit_char(d: int) -> char {
    (d + 48) as char
}

/// Whether `c` is one of the ASCII digits `0`..`9`.
pub open spec fn is_digit(c: char) -> bool {
    '0' <= c && c <= '9'
}

/// The value of an ASCII digit character.
pub open spec fn digit_value(c: char) -> int {
    c as int - 48
}

/// The shortest decimal spelling of `n`, as `Display` writes it.
pub open spec fn nat_decimal(n: nat) -> Seq<char>
    decreases n,
{
    if n < 10 {
        seq![digit_char(n as int)]
    } else {
        nat_decimal(n / 10).push(digit_char((n % 10) as int))
    }
}

/// The decimal spelling of a signed integer, with a leading `-` when negative.
pub open spec fn int_decimal(n: int) -> Seq<char> {
    if n < 0 {
        seq!['-'] + nat_decimal((-n) as nat)
    } else {
        nat_decimal(n as nat)
    }
}

/// Appends the decimal spelling of `n` to `out`.
pub fn push_decimal_u64(out: &mut Vec<char>, n: u64)
    ensures
        final(out)@ == old(out)@ + nat_decimal(n as nat),
    decreases n,
{
    if n >= 10 {
        push_decimal_u64(out, n / 10);
    }
    let d: u64 = n % 10;
    let c: char = if d == 0 { '0' } else if d == 1 { '1' } else if d == 2 { '2' } else if d == 3 {
        '3'
    } else if d == 4 { '4' } else if d == 5 { '5' } else if d == 6 { '6' } else if d == 7 {
        '7'
    } else if d == 8 { '8' } else { '9' };
    out.push(c);
    proof {
        if n >= 10 {
            assert(nat_decimal(n as nat) == nat_decimal((n / 10) as nat).push(
                digit_char((n % 10) as int),
            ));
        }
    }
    assert(c == digit_char(d as int));
}


/// Appends the decimal spelling of a signed 32-bit integer to `out`.
pub fn push_decimal_i32(out: &mut Vec<char>, n: i32)
    ensures
        final(out)@ == old(out)@ + int_decimal(n as int),
{
    if n < 0 {
        out.push('-');
        let m: i64 = n as i64;
        let mag: u64 = (0i64 - m) as u64;
        push_decimal_u64(out, mag);
        assert(final(out)@ == old(out)@ + (seq!['-'] + nat_decimal(mag as nat)));
    } else {
        push_decimal_u64(out, n as u64);
    }
}

/// The decimal spelling of a signed 32-bit integer.
pub fn i32_decimal(n: i32) -> (r: Vec<char>)
    ensures
        r@ == int_decimal(n as int),
{
    let mut r: Vec<char> = Vec::new();
    push_decimal_i32(&mut r, n);
    assert(r@ == Seq::<char>::empty() + int_decimal(n as int));
    r
}

/// Whether every character of `s` is an ASCII digit.
pub open spec fn all_digits(s: Seq<char>) -> bool {
    forall|i: int| 0 <= i < s.len() ==> is_digit(#[trigger] s[i])
}

/// The value of a run of ASCII digits read in base ten.
pub open spec fn digits_value(s: Seq<char>) -> nat
    decreases s.len(),
{
    if s.len() == 0 {
        0
    } else {
        (digits_value(s.drop_last()) * 10 + digit_value(s.last())) as nat
    }
}

/// What `str::parse::<iN>` / `str::parse::<uN>` accepts as a number:
/// an optional sign (`-` only when `signed`), then at least one ASCII digit.
/// The result is the mathematical value, before any range check.
pub open spec fn parse_integer(s: Seq<char>, signed: bool) -> Option<int> {
    if s.len() == 0 {
        None
    } else if (s[0] == '+' || s[0] == '-') && s.len() == 1 {
        None
    } else if s[0] == '+' {
        if all_digits(s.drop_first()) { Some(digits_value(s.drop_first()) as int) } else { None }
    } else if s[0] == '-' && signed {
        if all_digits(s.drop_first()) { Some(-(digits_value(s.drop_first()) as int)) } else { None }
    } else {
        if all_digits(s) { Some(digits_value(s) as int) } else { None }
    }
}

/// `str::parse::<i32>().ok()`.
pub open spec fn parse_i32(s: Seq<char>) -> Option<i32> {
    match parse_integer(s, true) {
        Some(v) => if i32::MIN <= v <= i32::MAX { Some(v as i32) } else { None },
        None => None,
    }
}

/// `str::parse::<u32>().ok()`.
pub open spec fn parse_u32(s: Seq<char>) -> Option<u32> {
    match parse_integer(s, false) {
        Some(v) => if 0 <= v <= u32::MAX { Some(v as u32) } else { None },
        None => None,
    }
}

/// `str::parse::<u64>().ok()`.
pub open spec fn parse_u64(s: Seq<char>) -> Option<u64> {
    match parse_integer(s, false) {
        Some(v) => if 0 <= v <= u64::MAX { Some(v as u64) } else { None },
        None => None,
    }
}

/// Appending a digit multiplies the value by ten and adds the digit.
pub proof fn lemma_digits_value_push(s: Seq<char>, c: char)
    requires
        is_digit(c),
    ensures
        digits_value(s.push(c)) == digits_value(s) * 10 + digit_value(c),
{
    assert(s.push(c).drop_last() == s);
}

/// A longer run of digits is worth at least as much as its prefix.
pub proof fn lemma_digits_value_prefix(s: Seq<char>, k: int)
    requires
        0 <= k <= s.len(),
        all_digits(s),
    ensures
        digits_value(s.subrange(0, k)) <= digits_value(s),
    decreases s.len() - k,
{
    if k < s.len() {
        lemma_digits_value_prefix(s, k + 1);
        let p = s.subrange(0, k);
        assert(s.subrange(0, k + 1) == p.push(s[k]));
        lemma_digits_value_push(p, s[k]);
        assert(is_digit(s[k]));
    } else {
        assert(s.subrange(0, k) == s);
    }
}

/// Reads the digits `s[lo..hi]` in base ten, giving `None` as soon as the
/// value passes `bound` or a non-digit appears.
fn digits_upto(s: &Vec<char>, lo: usize, hi: usize, bound: u64) -> (r: Option<u64>)
    requires
        lo <= hi <= s@.len(),
    ensures
        match r {
            Some(v) => all_digits(s@.subrange(lo as int, hi as int)) && v == digits_value(
                s@.subrange(lo as int, hi as int),
            ) && v <= bound,
            None => !all_digits(s@.subrange(lo as int, hi as int)) || digits_value(
                s@.subrange(lo as int, hi as int),
            ) > bound,
        },
{
    let mut acc: u64 = 0;
    let mut i: usize = lo;
    let ghost full = s@.subrange(lo as int, hi as int);
    while i < hi
        invariant
            lo <= i <= hi <= s@.len(),
            full == s@.subrange(lo as int, hi as int),
            all_digits(s@.subrange(lo as int, i as int)),
            acc == digits_value(s@.subrange(lo as int, i as int)),
            acc <= bound,
        decreases hi - i,
    {
        let c = s[i];
        let ghost pre = s@.subrange(lo as int, i as int);
        assert(s@.subrange(lo as int, i + 1) == pre.push(c));
        if !('0' <= c && c <= '9') {
            assert(full[i - lo] == c);
            return None;
        }
        proof {
            lemma_digits_value_push(pre, c);
        }
        let d: u64 = (c as u32 - 48) as u64;
        let next: u128 = acc as u128 * 10 + d as u128;
        if next > bound as u128 {
            proof {
                assert(all_digits(s@.subrange(lo as int, i + 1)));
                if all_digits(full) {
                    assert(full.subrange(0, i + 1 - lo) == s@.subrange(lo as int, i + 1));
                    lemma_digits_value_prefix(full, i + 1 - lo);
                }
            }
            return None;
        }
        acc = next as u64;
        i = i + 1;
    }
    Some(acc)
}


/// The integer spelled by `s` when `parse_integer` accepts it and it lies in
/// `-neg_bound ..= pos_bound`.
pub open spec fn parse_bounded(s: Seq<char>, signed: bool, pos_bound: int, neg_bound: int) -> Option<int> {
    match parse_integer(s, signed) {
        Some(v) => if -neg_bound <= v <= pos_bound { Some(v) } else { None },
        None => None,
    }
}

fn parse_bounded_range(
    s: &Vec<char>,
    lo: usize,
    hi: usize,
    signed: bool,
    pos_bound: u64,
    neg_bound: u64,
) -> (r: Option<i128>)
    requires
        lo <= hi <= s@.len(),
    ensures
        match r {
            Some(v) => parse_bounded(s@.subrange(lo as int, hi as int), signed, pos_bound as int, neg_bound as int) == Some(v as int),
            None => parse_bounded(s@.subrange(lo as int, hi as int), signed, pos_bound as int, neg_bound as int) is None,
        },
{
    let ghost sub = s@.subrange(lo as int, hi as int);
    if lo == hi {
        return None;
    }
    let c0 = s[lo];
    assert(sub[0] == c0);
    if (c0 == '+' || c0 == '-') && hi - lo == 1 {
        return None;
    }
    assert(sub.drop_first() == s@.subrange(lo + 1, hi as int));
    if c0 == '+' {
        match digits_upto(s, lo + 1, hi, pos_bound) {
            Some(v) => Some(v as i128),
            None => None,
        }
    } else if c0 == '-' && signed {
        match digits_upto(s, lo + 1, hi, neg_bound) {
            Some(v) => Some(0i128 - v as i128),
            None => None,
        }
    } else {
        match digits_upto(s, lo, hi, pos_bound) {
            Some(v) => Some(v as i128),
            None => None,
        }
    }
}

/// `s[lo..hi].parse::<i32>().ok()`.
pub fn parse_i32_range(s: &Vec<char>, lo: usize, hi: usize) -> (r: Option<i32>)
    requires
        lo <= hi <= s@.len(),
    ensures
        r == parse_i32(s@.subrange(lo as int, hi as int)),
{
    let ghost sub = s@.subrange(lo as int, hi as int);
    let p = parse_bounded_range(s, lo, hi, true, 2147483647, 2147483648);
    match p {
        Some(v) => Some(v as i32),
        None => {
            assert(parse_i32(sub) is None);
            None
        },
    }
}

/// `s[lo..hi].parse::<u32>().ok()`.
pub fn parse_u32_range(s: &Vec<char>, lo: usize, hi: usize) -> (r: Option<u32>)
    requires
        lo <= hi <= s@.len(),
    ensures
        r == parse_u32(s@.subrange(lo as int, hi as int)),
{
    let p = parse_bounded_range(s, lo, hi, false, 4294967295, 0);
    match p {
        Some(v) => Some(v as u32),
        None => None,
    }
}

/// `s[lo..hi].parse::<u64>().ok()`.
pub fn parse_u64_range(s: &Vec<char>, lo: usize, hi: usize) -> (r: Option<u64>)
    requires
        lo <= hi <= s@.len(),
    ensures
        r == parse_u64(s@.subrange(lo as int, hi as int)),
{
    let p = parse_bounded_range(s, lo, hi, false, 18446744073709551615, 0);
    match p {
        Some(v) => Some(v as u64),
        None => None,
    }
}


/// The decimal spelling of `n` is a non-empty run of digits worth `n`.
pub proof fn lemma_nat_decimal(n: nat)
    ensures
        nat_decimal(n).len() >= 1,
        all_digits(nat_decimal(n)),
        digits_value(nat_decimal(n)) == n,
    decreases n,
{
    if n < 10 {
        let s = nat_decimal(n);
        assert(s == seq![digit_char(n as int)]);
        assert(s.drop_last() == Seq::<char>::empty());
        assert(digit_value(digit_char(n as int)) == n);
        assert(digits_value(s) == digits_value(s.drop_last()) * 10 + digit_value(s.last()));
    } else {
        lemma_nat_decimal(n / 10);
        let p = nat_decimal(n / 10);
        let c = digit_char((n % 10) as int);
        lemma_digits_value_push(p, c);
        assert(digit_value(c) == n % 10);
        assert(nat_decimal(n) == p.push(c));
        assert(n == (n / 10) * 10 + n % 10);
        assert forall|i: int| 0 <= i < p.push(c).len() implies is_digit(#[trigger] p.push(c)[i]) by {
            if i < p.len() {
                assert(p.push(c)[i] == p[i]);
            }
        }
    }
}

/// Reading back the decimal spelling of an `i32` gives the same `i32`.
pub proof fn lemma_parse_i32_decimal(n: i32)
    ensures
        parse_i32(int_decimal(n as int)) == Some(n),
{
    if n < 0 {
        let m = (-n) as nat;
        lemma_nat_decimal(m);
        let s = seq!['-'] + nat_decimal(m);
        assert(s.drop_first() == nat_decimal(m));
        assert(s[0] == '-');
    } else {
        lemma_nat_decimal(n as nat);
        let s = nat_decimal(n as nat);
        assert(is_digit(s[0]));
    }
}

/// Reading back the decimal spelling of a `u32` gives the same `u32`.
pub proof fn lemma_parse_u32_decimal(n: u32)
    ensures
        parse_u32(nat_decimal(n as nat)) == Some(n),
{
    lemma_nat_decimal(n as nat);
    assert(is_digit(nat_decimal(n as nat)[0]));
}

/// `char::is_whitespace`: the Unicode `White_Space` property.
pub open spec fn is_whitespace(c: char) -> bool {
    ('\u{9}' <= c && c <= '\u{d}') || c == ' ' || c == '\u{85}' || c == '\u{a0}' || c == '\u{1680}'
        || ('\u{2000}' <= c && c <= '\u{200a}') || c == '\u{2028}' || c == '\u{2029}'
        || c == '\u{202f}' || c == '\u{205f}' || c == '\u{3000}'
}

/// Executable `char::is_whitespace`.
pub fn char_is_whitespace(c: char) -> (r: bool)
    ensures
        r == is_whitespace(c),
{
    ('\u{9}' <= c && c <= '\u{d}') || c == ' ' || c == '\u{85}' || c == '\u{a0}' || c == '\u{1680}'
        || ('\u{2000}' <= c && c <= '\u{200a}') || c == '\u{2028}' || c == '\u{2029}'
        || c == '\u{202f}' || c == '\u{205f}' || c == '\u{3000}'
}

/// `s` without its leading whitespace.
pub open spec fn trim_start(s: Seq<char>) -> Seq<char>
    decreases s.len(),
{
    if s.len() > 0 && is_whitespace(s[0]) {
        trim_start(s.drop_first())
    } else {
        s
    }
}

/// `s` without its trailing whitespace.
pub open spec fn trim_end(s: Seq<char>) -> Seq<char>
    decreases s.len(),
{
    if s.len() > 0 && is_whitespace(s.last()) {
        trim_end(s.drop_last())
    } else {
        s
    }
}

/// `str::trim`: `s` without leading and trailing whitespace.
pub open spec fn trim(s: Seq<char>) -> Seq<char> {
    trim_end(trim_start(s))
}

/// Bounds of `trim(s[lo..hi])` within `s`.
pub fn trim_range(s: &Vec<char>, lo: usize, hi: usize) -> (r: (usize, usize))
    requires
        lo <= hi <= s@.len(),
    ensures
        lo <= r.0 <= r.1 <= hi,
        s@.subrange(r.0 as int, r.1 as int) == trim(s@.subrange(lo as int, hi as int)),
{
    let mut a: usize = lo;
    while a < hi && char_is_whitespace(s[a])
        invariant
            lo <= a <= hi <= s@.len(),
            trim_start(s@.subrange(lo as int, hi as int)) == trim_start(s@.subrange(a as int, hi as int)),
        decreases hi - a,
    {
        assert(s@.subrange(a as int, hi as int).drop_first() == s@.subrange(a + 1, hi as int));
        a = a + 1;
    }
    assert(trim_start(s@.subrange(a as int, hi as int)) == s@.subrange(a as int, hi as int)) by {
        if a < hi {
            assert(s@.subrange(a as int, hi as int)[0] == s@[a as int]);
        }
    }
    let mut b: usize = hi;
    while b > a && char_is_whitespace(s[b - 1])
        invariant
            lo <= a <= b <= hi <= s@.len(),
            trim_end(s@.subrange(a as int, hi as int)) == trim_end(s@.subrange(a as int, b as int)),
        decreases b - a,
    {
        assert(s@.subrange(a as int, b as int).drop_last() == s@.subrange(a as int, b - 1));
        b = b - 1;
    }
    assert(trim_end(s@.subrange(a as int, b as int)) == s@.subrange(a as int, b as int)) by {
        if b > a {
            assert(s@.subrange(a as int, b as int).last() == s@[b - 1]);
        }
    }
    (a, b)
}


/// `i` is the position of the first line feed in `s`.
pub open spec fn first_newline(s: Seq<char>, i: int) -> bool {
    0 <= i < s.len() && s[i] == '\n' && forall|j: int| 0 <= j < i ==> s[j] != '\n'
}

/// `s` without one trailing carriage return.
pub open spec fn strip_cr(s: Seq<char>) -> Seq<char> {
    if s.len() > 0 && s.last() == '\r' {
        s.drop_last()
    } else {
        s
    }
}

/// `str::lines`: the pieces of `s` between line feeds, each without the
/// carriage return that may precede its line feed; a trailing line feed
/// does not start an empty last line.
pub open spec fn lines(s: Seq<char>) -> Seq<Seq<char>>
    decreases s.len(),
{
    if s.len() == 0 {
        Seq::empty()
    } else if exists|i: int| first_newline(s, i) {
        let i = choose|i: int| first_newline(s, i);
        seq![strip_cr(s.subrange(0, i))] + lines(s.subrange(i + 1, s.len() as int))
    } else {
        seq![s]
    }
}

/// The first line of `s[pos..]`: returns the end of its text and the
/// position where the next line starts.
pub fn next_line(s: &Vec<char>, pos: usize) -> (r: (usize, usize))
    requires
        pos < s@.len(),
    ensures
        pos <= r.0 <= r.1 <= s@.len(),
        pos < r.1,
        lines(s@.subrange(pos as int, s@.len() as int)) == seq![s@.subrange(pos as int, r.0 as int)]
            + lines(s@.subrange(r.1 as int, s@.len() as int)),
{
    let n = s.len();
    let ghost rest = s@.subrange(pos as int, n as int);
    let mut j: usize = pos;
    while j < n && s[j] != '\n'
        invariant
            pos <= j <= n == s@.len(),
            rest == s@.subrange(pos as int, n as int),
            forall|k: int| pos <= k < j ==> s@[k] != '\n',
        decreases n - j,
    {
        j = j + 1;
    }
    if j < n {
        let ghost i = j - pos;
        assert(first_newline(rest, i));
        assert forall|i2: int| first_newline(rest, i2) implies i2 == i by {
            if i2 < i {
                assert(rest[i2] == s@[pos + i2]);
            } else if i2 > i {
                assert(rest[i] == '\n');
            }
        }
        let end: usize = if j > pos && s[j - 1] == '\r' { j - 1 } else { j };
        proof {
            let ch = choose|i2: int| first_newline(rest, i2);
            assert(ch == i);
            assert(rest.subrange(0, i) == s@.subrange(pos as int, j as int));
            assert(rest.subrange(i + 1, rest.len() as int) == s@.subrange(j + 1, n as int));
            if j > pos && s@[j - 1] == '\r' {
                assert(s@.subrange(pos as int, j as int).drop_last() == s@.subrange(
                    pos as int,
                    j - 1,
                ));
            }
        }
        (end, j + 1)
    } else {
        assert(!exists|i: int| first_newline(rest, i)) by {
            if exists|i: int| first_newline(rest, i) {
                let i = choose|i: int| first_newline(rest, i);
                assert(rest[i] == s@[pos + i]);
            }
        }
        assert(s@.subrange(n as int, n as int) == Seq::<char>::empty());
        assert(lines(Seq::<char>::empty()) == Seq::<Seq<char>>::empty());
        assert(seq![rest] + Seq::<Seq<char>>::empty() == seq![rest]);
        (n, n)
    }
}


/// The characters of `s`, in order.
pub fn str_chars(s: &str) -> (r: Vec<char>)
    ensures
        r@ == s@,
{
    broadcast use vstd::string::group_string_axioms;
    let mut r: Vec<char> = Vec::new();
    for c in it: s.chars()
        invariant
            r@ == it.seq().take(it.index() as int),
            it.seq() == s@,
    {
        r.push(c);
        assert(it.seq().take(it.index() + 1) == it.seq().take(it.index() as int).push(c));
    }
    assert(s@.take(s@.len() as int) == s@);
    r
}


/// Calls `String::from_iter` on the characters: the string holds exactly
/// the characters of `v`, in order.
#[verifier::external_body]
pub(crate) fn string_from_chars(v: Vec<char>) -> (s: String)
    ensures
        s@ == v@,
{
    String::from_iter(v)
}

/// Appends the characters of `s` to `out`.
pub fn push_str(out: &mut Vec<char>, s: &str)
    ensures
        final(out)@ == old(out)@ + s@,
{
    let cs = str_chars(s);
    let mut i: usize = 0;
    while i < cs.len()
        invariant
            0 <= i <= cs@.len(),
            cs@ == s@,
            out@ == old(out)@ + cs@.take(i as int),
        decreases cs@.len() - i,
    {
        out.push(cs[i]);
        assert(cs@.take(i + 1) == cs@.take(i as int).push(cs@[i as int]));
        i = i + 1;
    }
    assert(cs@.take(cs@.len() as int) == cs@);
}

/// Appends `v` to `out`.
pub fn push_chars(out: &mut Vec<char>, v: &Vec<char>)
    ensures
        final(out)@ == old(out)@ + v@,
{
    let mut i: usize = 0;
    while i < v.len()
        invariant
            0 <= i <= v@.len(),
            out@ == old(out)@ + v@.take(i as int),
        decreases v@.len() - i,
    {
        out.push(v[i]);
        assert(v@.take(i + 1) == v@.take(i as int).push(v@[i as int]));
        i = i + 1;
    }
    assert(v@.take(v@.len() as int) == v@);
}

/// A copy of `s[lo..hi]`.
pub fn copy_range(s: &Vec<char>, lo: usize, hi: usize) -> (r: Vec<char>)
    requires
        lo <= hi <= s@.len(),
    ensures
        r@ == s@.subrange(lo as int, hi as int),
{
    let mut r: Vec<char> = Vec::new();
    let mut i: usize = lo;
    while i < hi
        invariant
            lo <= i <= hi <= s@.len(),
            r@ == s@.subrange(lo as int, i as int),
        decreases hi - i,
    {
        r.push(s[i]);
        assert(s@.subrange(lo as int, i + 1) == s@.subrange(lo as int, i as int).push(s@[i as int]));
        i = i + 1;
    }
    r
}

/// `p` occurs in `s` starting at position `i`.
pub open spec fn occurs_at(s: Seq<char>, p: Seq<char>, i: int) -> bool {
    0 <= i && i + p.len() <= s.len() && s.subrange(i, i + p.len()) == p
}

/// `str::contains` with a string pattern.
pub open spec fn contains(s: Seq<char>, p: Seq<char>) -> bool {
    exists|i: int| occurs_at(s, p, i)
}

/// `str::starts_with` with a string pattern.
pub open spec fn starts_with(s: Seq<char>, p: Seq<char>) -> bool {
    occurs_at(s, p, 0)
}

/// `str::ends_with` with a string pattern.
pub open spec fn ends_with(s: Seq<char>, p: Seq<char>) -> bool {
    p.len() <= s.len() && occurs_at(s, p, s.len() - p.len())
}

/// Whether `p` occurs in `s` at position `i`.
pub fn occurs_at_exec(s: &Vec<char>, p: &Vec<char>, i: usize) -> (r: bool)
    ensures
        r == occurs_at(s@, p@, i as int),
{
    if i > s.len() || p.len() > s.len() - i {
        return false;
    }
    let mut k: usize = 0;
    while k < p.len()
        invariant
            i + p@.len() <= s@.len(),
            s@.len() == s.len(),
            0 <= k <= p@.len(),
            forall|m: int| 0 <= m < k ==> s@[i + m] == p@[m],
        decreases p@.len() - k,
    {
        if s[i + k] != p[k] {
            assert(s@.subrange(i as int, i + p@.len())[k as int] != p@[k as int]);
            return false;
        }
        k = k + 1;
    }
    assert(s@.subrange(i as int, i + p@.len()) == p@);
    true
}

/// Whether `s` contains `p`.
pub fn contains_exec(s: &Vec<char>, p: &Vec<char>) -> (r: bool)
    ensures
        r == contains(s@, p@),
{
    if p.len() > s.len() {
        assert forall|i: int| !occurs_at(s@, p@, i) by {}
        return false;
    }
    let last: usize = s.len() - p.len();
    let mut i: usize = 0;
    while i < last
        invariant
            p@.len() <= s@.len(),
            last == s@.len() - p@.len(),
            0 <= i <= last,
            forall|j: int| 0 <= j < i ==> !occurs_at(s@, p@, j),
        decreases last - i,
    {
        if occurs_at_exec(s, p, i) {
            return true;
        }
        i = i + 1;
    }
    if occurs_at_exec(s, p, last) {
        return true;
    }
    assert forall|j: int| !occurs_at(s@, p@, j) by {}
    false
}

/// Whether `s` contains the literal `p`.
pub fn contains_str(s: &Vec<char>, p: &str) -> (r: bool)
    ensures
        r == contains(s@, p@),
{
    let pv = str_chars(p);
    contains_exec(s, &pv)
}

/// Whether `s` starts with the literal `p`.
pub fn starts_with_str(s: &Vec<char>, p: &str) -> (r: bool)
    ensures
        r == starts_with(s@, p@),
{
    let pv = str_chars(p);
    occurs_at_exec(s, &pv, 0)
}

/// Whether `s` ends with the literal `p`.
pub fn ends_with_str(s: &Vec<char>, p: &str) -> (r: bool)
    ensures
        r == ends_with(s@, p@),
{
    let pv = str_chars(p);
    if pv.len() > s.len() {
        return false;
    }
    occurs_at_exec(s, &pv, s.len() - pv.len())
}

/// Whether `a` and `b` hold the same characters.
pub fn chars_eq(a: &Vec<char>, b: &Vec<char>) -> (r: bool)
    ensures
        r == (a@ == b@),
{
    if a.len() != b.len() {
        return false;
    }
    let r = occurs_at_exec(a, b, 0);
    assert(a@.subrange(0, b@.len() as int) == a@ ==> r == (a@ == b@));
    assert(a@.subrange(0, a@.len() as int) == a@);
    r
}

/// Whether `a` holds exactly the characters of the literal `b`.
pub fn chars_eq_str(a: &Vec<char>, b: &str) -> (r: bool)
    ensures
        r == (a@ == b@),
{
    let bv = str_chars(b);
    chars_eq(a, &bv)
}


/// Whether two strings hold the same characters.
pub fn str_eq(a: &str, b: &str) -> (r: bool)
    ensures
        r == (a@ == b@),
{
    let av = str_chars(a);
    let bv = str_chars(b);
    chars_eq(&av, &bv)
}

/// Removing the last element of `s.take(i + 1)` gives `s.take(i)`, so a
/// filter over a growing prefix either keeps or drops the new element.
pub proof fn lemma_filter_take_step<A>(s: Seq<A>, pred: spec_fn(A) -> bool, i: int)
    requires
        0 <= i < s.len(),
    ensures
        s.take(i + 1).filter(pred) == (if pred(s[i]) {
            s.take(i).filter(pred).push(s[i])
        } else {
            s.take(i).filter(pred)
        }),
{
    reveal_with_fuel(Seq::<_>::filter, 1);
    assert(s.take(i + 1).drop_last() == s.take(i));
    assert(s.take(i + 1).last() == s[i]);
}

/// Filtering keeps a sequence whose elements all pass.
pub proof fn lemma_filter_all<A>(s: Seq<A>, pred: spec_fn(A) -> bool)
    requires
        forall|i: int| 0 <= i < s.len() ==> pred(#[trigger] s[i]),
    ensures
        s.filter(pred) == s,
    decreases s.len(),
{
    reveal_with_fuel(Seq::<_>::filter, 1);
    if s.len() > 0 {
        assert forall|i: int| 0 <= i < s.drop_last().len() implies pred(#[trigger] s.drop_last()[i]) by {
            assert(s.drop_last()[i] == s[i]);
        }
        lemma_filter_all(s.drop_last(), pred);
        assert(pred(s[s.len() - 1]));
        assert(s.drop_last().push(s.last()) == s);
    }
}

/// Filtering empties a sequence whose elements all fail.
pub proof fn lemma_filter_none<A>(s: Seq<A>, pred: spec_fn(A) -> bool)
    requires
        forall|i: int| 0 <= i < s.len() ==> !pred(#[trigger] s[i]),
    ensures
        s.filter(pred) == Seq::<A>::empty(),
    decreases s.len(),
{
    reveal_with_fuel(Seq::<_>::filter, 1);
    if s.len() > 0 {
        assert forall|i: int| 0 <= i < s.drop_last().len() implies !pred(#[trigger] s.drop_last()[i]) by {
            assert(s.drop_last()[i] == s[i]);
        }
        lemma_filter_none(s.drop_last(), pred);
        assert(!pred(s[s.len() - 1]));
    }
}

/// `i` is the position of the first `c` in `s`.
pub open spec fn first_at(s: Seq<char>, c: char, i: int) -> bool {
    0 <= i < s.len() && s[i] == c && forall|j: int| 0 <= j < i ==> s[j] != c
}

/// There is at most one first position.
pub proof fn lemma_first_at_unique(s: Seq<char>, c: char, i: int, j: int)
    requires
        first_at(s, c, i),
        first_at(s, c, j),
    ensures
        i == j,
{
    if i < j {
        assert(s[i] == c);
    } else if j < i {
        assert(s[j] == c);
    }
}

/// `str::find` with a character pattern.
pub open spec fn find_char(s: Seq<char>, c: char) -> Option<int> {
    if exists|i: int| first_at(s, c, i) {
        Some(choose|i: int| first_at(s, c, i))
    } else {
        None
    }
}

/// Position of the first `c` in `s[lo..hi]`, relative to `lo`.
pub fn find_char_range(s: &Vec<char>, lo: usize, hi: usize, c: char) -> (r: Option<usize>)
    requires
        lo <= hi <= s@.len(),
    ensures
        match r {
            Some(i) => find_char(s@.subrange(lo as int, hi as int), c) == Some(i as int) && lo + i < hi,
            None => find_char(s@.subrange(lo as int, hi as int), c) is None,
        },
{
    let ghost sub = s@.subrange(lo as int, hi as int);
    let mut i: usize = lo;
    while i < hi && s[i] != c
        invariant
            lo <= i <= hi <= s@.len(),
            sub == s@.subrange(lo as int, hi as int),
            forall|j: int| lo <= j < i ==> s@[j] != c,
        decreases hi - i,
    {
        i = i + 1;
    }
    if i < hi {
        let ghost k = i - lo;
        assert(first_at(sub, c, k)) by {
            assert forall|j: int| 0 <= j < k implies sub[j] != c by {
                assert(sub[j] == s@[lo + j]);
            }
        }
        proof {
            let ch = choose|j: int| first_at(sub, c, j);
            lemma_first_at_unique(sub, c, ch, k);
        }
        Some(i - lo)
    } else {
        assert(!exists|j: int| first_at(sub, c, j)) by {
            if exists|j: int| first_at(sub, c, j) {
                let j = choose|j: int| first_at(sub, c, j);
                assert(sub[j] == s@[lo + j]);
            }
        }
        None
    }
}

/// Whether `s[lo..hi]` is exactly the literal `lit`.
pub fn range_eq_str(s: &Vec<char>, lo: usize, hi: usize, lit: &str) -> (r: bool)
    requires
        lo <= hi <= s@.len(),
    ensures
        r == (s@.subrange(lo as int, hi as int) == lit@),
{
    let v = copy_range(s, lo, hi);
    chars_eq_str(&v, lit)
}

/// Whether `s[lo..hi]` starts with the literal `lit`.
pub fn range_starts_with_str(s: &Vec<char>, lo: usize, hi: usize, lit: &str) -> (r: bool)
    requires
        lo <= hi <= s@.len(),
    ensures
        r == starts_with(s@.subrange(lo as int, hi as int), lit@),
{
    let v = copy_range(s, lo, hi);
    starts_with_str(&v, lit)
}

/// `str::split(',')`: the pieces between commas (one piece when there is
/// no comma; an empty piece after a trailing comma).
pub open spec fn split_commas(s: Seq<char>) -> Seq<Seq<char>>
    decreases s.len(),
{
    if exists|i: int| first_at(s, ',', i) {
        let i = choose|i: int| first_at(s, ',', i);
        seq![s.subrange(0, i)] + split_commas(s.subrange(i + 1, s.len() as int))
    } else {
        seq![s]
    }
}

/// The first piece of `s[pos..]` split at commas: returns the end of the
/// piece and, when a comma follows it, the start of the next piece.
pub fn next_comma_piece(s: &Vec<char>, pos: usize) -> (r: (usize, Option<usize>))
    requires
        pos <= s@.len(),
    ensures
        pos <= r.0 <= s@.len(),
        match r.1 {
            Some(next) => next == r.0 + 1 && next <= s@.len() && split_commas(
                s@.subrange(pos as int, s@.len() as int),
            ) == seq![s@.subrange(pos as int, r.0 as int)] + split_commas(
                s@.subrange(next as int, s@.len() as int),
            ),
            None => r.0 == s@.len() && split_commas(s@.subrange(pos as int, s@.len() as int))
                == seq![s@.subrange(pos as int, s@.len() as int)],
        },
{
    let n = s.len();
    let ghost rest = s@.subrange(pos as int, n as int);
    match find_char_range(s, pos, n, ',') {
        Some(i) => {
            proof {
                let ch = choose|j: int| first_at(rest, ',', j);
                assert(rest.subrange(0, i as int) == s@.subrange(pos as int, pos + i));
                assert(rest.subrange(i + 1, rest.len() as int) == s@.subrange(pos + i + 1, n as int));
            }
            (pos + i, Some(pos + i + 1))
        },
        None => (n, None),
    }
}

/// `str::replace`: every non-overlapping occurrence of `from` (found left
/// to right) replaced by `to`.
pub open spec fn replace_all(s: Seq<char>, from: Seq<char>, to: Seq<char>) -> Seq<char>
    recommends
        from.len() > 0,
    decreases s.len(),
{
    if s.len() == 0 || from.len() == 0 {
        s
    } else if starts_with(s, from) {
        to + replace_all(s.subrange(from.len() as int, s.len() as int), from, to)
    } else {
        seq![s[0]] + replace_all(s.drop_first(), from, to)
    }
}

/// `s.replace(from, to)` for a non-empty pattern.
pub fn replace_str(s: &str, from: &str, to: &str) -> (r: String)
    requires
        from@.len() > 0,
    ensures
        r@ == replace_all(s@, from@, to@),
{
    let c = str_chars(s);
    let f = str_chars(from);
    let t = str_chars(to);
    let n = c.len();
    let mut out: Vec<char> = Vec::new();
    let mut i: usize = 0;
    assert(c@.subrange(0, n as int) == c@);
    while i < n
        invariant
            i <= n == c@.len(),
            c@ == s@,
            f@ == from@,
            t@ == to@,
            f@.len() > 0,
            out@ + replace_all(c@.subrange(i as int, n as int), f@, t@) == replace_all(s@, from@, to@),
        decreases n - i,
    {
        let ghost rest = c@.subrange(i as int, n as int);
        let ghost prev = out@;
        if occurs_at_exec(&c, &f, i) {
            assert(starts_with(rest, f@)) by {
                assert(rest.subrange(0, f@.len() as int) == c@.subrange(i as int, i + f@.len()));
            }
            assert(rest.subrange(f@.len() as int, rest.len() as int) == c@.subrange(i + f@.len(), n as int));
            push_chars(&mut out, &t);
            assert(out@ + replace_all(c@.subrange(i + f@.len(), n as int), f@, t@) == prev + replace_all(rest, f@, t@));
            i = i + f.len();
        } else {
            assert(!starts_with(rest, f@)) by {
                if starts_with(rest, f@) {
                    assert(rest.subrange(0, f@.len() as int) == c@.subrange(i as int, i + f@.len()));
                }
            }
            out.push(c[i]);
            assert(rest.drop_first() == c@.subrange(i + 1, n as int));
            assert(rest[0] == c@[i as int]);
            assert(out@ + replace_all(c@.subrange(i + 1, n as int), f@, t@) == prev + replace_all(rest, f@, t@));
            i = i + 1;
        }
    }
    assert(replace_all(c@.subrange(n as int, n as int), f@, t@) == Seq::<char>::empty());
    assert(out@ + Seq::<char>::empty() == out@);
    string_from_chars(out)
}

/// Splitting `piece + "," + rest` at commas, when `piece` holds no comma,
/// gives `piece` and the pieces of `rest`.
pub proof fn lemma_split_after_piece(piece: Seq<char>, rest: Seq<char>)
    requires
        forall|i: int| 0 <= i < piece.len() ==> piece[i] != ',',
    ensures
        split_commas(piece + seq![','] + rest) == seq![piece] + split_commas(rest),
{
    let s = piece + seq![','] + rest;
    let k = piece.len() as int;
    assert(first_at(s, ',', k)) by {
        assert forall|j: int| 0 <= j < k implies s[j] != ',' by {
            assert(s[j] == piece[j]);
        }
    }
    let ch = choose|i: int| first_at(s, ',', i);
    lemma_first_at_unique(s, ',', ch, k);
    assert(s.subrange(0, k) == piece);
    assert(s.subrange(k + 1, s.len() as int) == rest);
}

/// A text with no comma is a single piece.
pub proof fn lemma_split_single(piece: Seq<char>)
    requires
        forall|i: int| 0 <= i < piece.len() ==> piece[i] != ',',
    ensures
        split_commas(piece) == seq![piece],
{
    assert(!exists|i: int| first_at(piece, ',', i));
}

/// The pieces joined by commas.
pub open spec fn comma_joined(ps: Seq<Seq<char>>) -> Seq<char>
    decreases ps.len(),
{
    if ps.len() <= 1 {
        if ps.len() == 0 {
            Seq::empty()
        } else {
            ps[0]
        }
    } else {
        ps[0] + seq![','] + comma_joined(ps.drop_first())
    }
}

/// Text with no comma.
pub open spec fn no_comma(s: Seq<char>) -> bool {
    forall|i: int| 0 <= i < s.len() ==> s[i] != ','
}

/// Pieces that hold no comma, joined by commas, split back into the same
/// pieces.
pub proof fn lemma_split_comma_joined(ps: Seq<Seq<char>>)
    requires
        ps.len() > 0,
        forall|k: int| 0 <= k < ps.len() ==> no_comma(#[trigger] ps[k]),
    ensures
        split_commas(comma_joined(ps)) == ps,
    decreases ps.len(),
{
    if ps.len() == 1 {
        assert(no_comma(ps[0]));
        lemma_split_single(ps[0]);
        assert(seq![ps[0]] =~= ps);
    } else {
        let rest = ps.drop_first();
        assert forall|k: int| 0 <= k < rest.len() implies no_comma(#[trigger] rest[k]) by {
            assert(rest[k] == ps[k + 1]);
        }
        lemma_split_comma_joined(rest);
        assert(no_comma(ps[0]));
        lemma_split_after_piece(ps[0], comma_joined(rest));
        assert(seq![ps[0]] + rest =~= ps);
    }
}


proof fn lemma_trim_start_prefix(w: Seq<char>, s: Seq<char>)
    requires
        forall|i: int| 0 <= i < w.len() ==> is_whitespace(w[i]),
        s.len() == 0 || !is_whitespace(s[0]),
    ensures
        trim_start(w + s) == s,
    decreases w.len(),
{
    if w.len() == 0 {
        assert(w + s =~= s);
    } else {
        assert((w + s)[0] == w[0]);
        assert((w + s).drop_first() =~= w.drop_first() + s);
        lemma_trim_start_prefix(w.drop_first(), s);
    }
}

proof fn lemma_trim_end_suffix(s: Seq<char>, w: Seq<char>)
    requires
        forall|i: int| 0 <= i < w.len() ==> is_whitespace(w[i]),
        s.len() == 0 || !is_whitespace(s.last()),
    ensures
        trim_end(s + w) == s,
    decreases w.len(),
{
    if w.len() == 0 {
        assert(s + w =~= s);
    } else {
        assert((s + w).last() == w.last());
        assert((s + w).drop_last() =~= s + w.drop_last());
        lemma_trim_end_suffix(s, w.drop_last());
    }
}

/// Trimming removes exactly the surrounding whitespace: text whose first
/// and last characters are not whitespace, with whitespace around it,
/// trims to that text.
pub proof fn lemma_trim_removes_surrounding_whitespace(before: Seq<char>, s: Seq<char>, after: Seq<char>)
    requires
        forall|i: int| 0 <= i < before.len() ==> is_whitespace(before[i]),
        forall|i: int| 0 <= i < after.len() ==> is_whitespace(after[i]),
        s.len() == 0 || (!is_whitespace(s[0]) && !is_whitespace(s.last())),
    ensures
        trim(before + s + after) == s,
{
    if s.len() == 0 {
        assert(before + s + after =~= before + after);
        lemma_trim_start_prefix(before + after, Seq::empty());
        assert(before + after + Seq::<char>::empty() =~= before + after);
        assert forall|i: int| 0 <= i < (before + after).len() implies is_whitespace((before + after)[i]) by {
            if i < before.len() {
                assert((before + after)[i] == before[i]);
            } else {
                assert((before + after)[i] == after[i - before.len()]);
            }
        }
        lemma_trim_start_prefix(before + after, Seq::empty());
        assert(trim_end(Seq::<char>::empty()) == Seq::<char>::empty());
    } else {
        assert(before + s + after =~= before + (s + after));
        lemma_trim_start_prefix(before, s + after);
        lemma_trim_end_suffix(s, after);
    }
}

/// Line splitting: a line with no line feed, followed by a line feed and
/// more text, is the first line (without a carriage return ending it),
/// and the rest splits into the following lines.
pub proof fn lemma_lines_first(line: Seq<char>, rest: Seq<char>)
    requires
        forall|i: int| 0 <= i < line.len() ==> line[i] != '\n',
    ensures
        lines(line + seq!['\n'] + rest) == seq![strip_cr(line)] + lines(rest),
{
    let s = line + seq!['\n'] + rest;
    let k = line.len() as int;
    assert(first_newline(s, k)) by {
        assert forall|j: int| 0 <= j < k implies s[j] != '\n' by {
            assert(s[j] == line[j]);
        }
    }
    let c = choose|i: int| first_newline(s, i);
    if c != k {
        if c < k {
            assert(s[c] == line[c]);
        } else {
            assert(s[k] == '\n');
        }
    }
    assert(s.subrange(0, k) =~= line);
    assert(s.subrange(k + 1, s.len() as int) =~= rest);
}


/// Replacing leaves a text in which the pattern does not occur unchanged,
/// and turns the pattern itself into the replacement.
pub proof fn lemma_replace_all_basics(s: Seq<char>, from: Seq<char>, to: Seq<char>)
    requires
        from.len() > 0,
    ensures
        !contains(s, from) ==> replace_all(s, from, to) == s,
        replace_all(from, from, to) == to,
    decreases s.len(),
{
    if s.len() > 0 && !contains(s, from) {
        assert(!occurs_at(s, from, 0));
        assert(!contains(s.drop_first(), from)) by {
            if contains(s.drop_first(), from) {
                let i = choose|i: int| occurs_at(s.drop_first(), from, i);
                assert(s.subrange(i + 1, i + 1 + from.len()) =~= s.drop_first().subrange(i, i + from.len()));
                assert(occurs_at(s, from, i + 1));
            }
        }
        lemma_replace_all_basics(s.drop_first(), from, to);
        assert(seq![s[0]] + s.drop_first() =~= s);
    }
    assert(from.subrange(0, from.len() as int) =~= from);
    assert(occurs_at(from, from, 0));
    assert(starts_with(from, from));
    let e = from.subrange(from.len() as int, from.len() as int);
    assert(e =~= Seq::<char>::empty());
    assert(replace_all(e, from, to) == e);
    assert(replace_all(from, from, to) == to + replace_all(e, from, to));
    assert(to + e =~= to);
}

} // verus!
