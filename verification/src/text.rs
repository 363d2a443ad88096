//! Text as a sequence of characters: searching, trimming, numbers in decimal.

use vstd::prelude::*;
use vstd::string::*;

verus! {

/// `String::push` appends one character.
pub assume_specification[ String::push ](s: &mut String, c: char)
    ensures
        final(s)@ == old(s)@.push(c),
;

// ---------------------------------------------------------------------------
// Characters
// ---------------------------------------------------------------------------

/// The decimal digits `0` to `9`.
pub open spec fn is_digit(c: char) -> bool {
    '0' <= c <= '9'
}

pub fn ascii_digit(c: char) -> (r: bool)
    ensures
        r == is_digit(c),
{
    '0' <= c && c <= '9'
}

/// The value of a hexadecimal digit, in either case.
pub open spec fn hex_value(c: char) -> Option<int> {
    if '0' <= c <= '9' {
        Some(c as int - '0' as int)
    } else if 'a' <= c <= 'f' {
        Some(c as int - 'a' as int + 10)
    } else if 'A' <= c <= 'F' {
        Some(c as int - 'A' as int + 10)
    } else {
        None
    }
}

pub fn hex_digit(c: char) -> (r: Option<u32>)
    ensures
        r is Some <==> hex_value(c) is Some,
        r matches Some(v) ==> v as int == hex_value(c)->0 && v < 16,
{
    let n: u32 = c as u32;
    if '0' <= c && c <= '9' {
        Some(n - 48)
    } else if 'a' <= c && c <= 'f' {
        Some(n - 87)
    } else if 'A' <= c && c <= 'F' {
        Some(n - 55)
    } else {
        None
    }
}

/// Characters with the Unicode `White_Space` property.
pub open spec fn is_white_space(c: char) -> bool {
    let n = c as int;
    ||| 0x09 <= n <= 0x0d
    ||| n == 0x20
    ||| n == 0x85
    ||| n == 0xa0
    ||| n == 0x1680
    ||| 0x2000 <= n <= 0x200a
    ||| n == 0x2028
    ||| n == 0x2029
    ||| n == 0x202f
    ||| n == 0x205f
    ||| n == 0x3000
}

pub fn white_space(c: char) -> (r: bool)
    ensures
        r == is_white_space(c),
{
    let n: u32 = c as u32;
    (0x09 <= n && n <= 0x0d) || n == 0x20 || n == 0x85 || n == 0xa0 || n == 0x1680
        || (0x2000 <= n && n <= 0x200a) || n == 0x2028 || n == 0x2029 || n == 0x202f
        || n == 0x205f || n == 0x3000
}

/// ASCII capitals become small letters, everything else stays.
pub open spec fn lower_char(c: char) -> char {
    if 'A' <= c <= 'Z' {
        (c as int + 32) as char
    } else {
        c
    }
}

/// ASCII small letters become capitals, everything else stays.
pub open spec fn upper_char(c: char) -> char {
    if 'a' <= c <= 'z' {
        (c as int - 32) as char
    } else {
        c
    }
}

pub fn ascii_lower(c: char) -> (r: char)
    ensures
        r == lower_char(c),
{
    if 'A' <= c && c <= 'Z' {
        ((c as u8) + 32) as char
    } else {
        c
    }
}

pub fn ascii_upper(c: char) -> (r: char)
    ensures
        r == upper_char(c),
{
    if 'a' <= c && c <= 'z' {
        ((c as u8) - 32) as char
    } else {
        c
    }
}

pub open spec fn lower(s: Seq<char>) -> Seq<char> {
    s.map_values(|c: char| lower_char(c))
}

pub open spec fn upper(s: Seq<char>) -> Seq<char> {
    s.map_values(|c: char| upper_char(c))
}

// ---------------------------------------------------------------------------
// Between strings and character vectors
// ---------------------------------------------------------------------------

/// The characters of a string.
pub fn to_chars(s: &str) -> (v: Vec<char>)
    ensures
        v@ == s@,
{
    let mut v: Vec<char> = Vec::new();
    for c in it: s.chars()
        invariant
            it.seq() == s@,
            v@ == s@.take(it.index() as int),
    {
        v.push(c);
    }
    v
}

/// Appends the characters `v[from..to]` to `out`.
pub fn push_range(out: &mut String, v: &Vec<char>, from: usize, to: usize)
    requires
        from <= to <= v@.len(),
    ensures
        final(out)@ == old(out)@ + v@.subrange(from as int, to as int),
{
    let mut i: usize = from;
    while i < to
        invariant
            from <= i <= to <= v@.len(),
            out@ == old(out)@ + v@.subrange(from as int, i as int),
        decreases to - i,
    {
        out.push(v[i]);
        i += 1;
        assert(v@.subrange(from as int, i as int) == v@.subrange(from as int, i - 1).push(v@[i - 1]));
    }
}

/// The string made of the characters `v[from..to]`.
pub fn from_range(v: &Vec<char>, from: usize, to: usize) -> (s: String)
    requires
        from <= to <= v@.len(),
    ensures
        s@ == v@.subrange(from as int, to as int),
{
    let mut s: String = String::new();
    push_range(&mut s, v, from, to);
    s
}

/// The string made of all characters of `v`.
pub fn from_chars(v: &Vec<char>) -> (s: String)
    ensures
        s@ == v@,
{
    let s = from_range(v, 0, v.len());
    assert(v@.subrange(0, v@.len() as int) == v@);
    s
}

/// Whether two strings hold the same characters.
pub fn same_text(a: &str, b: &str) -> (r: bool)
    ensures
        r == (a@ == b@),
{
    let x = to_chars(a);
    let y = to_chars(b);
    if x.len() != y.len() {
        return false;
    }
    let mut i: usize = 0;
    while i < x.len()
        invariant
            i <= x@.len(),
            x@ == a@,
            y@ == b@,
            x@.len() == y@.len(),
            forall|k: int| 0 <= k < i ==> x@[k] == y@[k],
        decreases x.len() - i,
    {
        if x[i] != y[i] {
            assert(x@[i as int] != y@[i as int]);
            return false;
        }
        i += 1;
    }
    assert(x@ == y@);
    true
}

// ---------------------------------------------------------------------------
// Searching
// ---------------------------------------------------------------------------

/// `needle` stands in `hay` at position `at`.
pub open spec fn matches_at(hay: Seq<char>, needle: Seq<char>, at: int) -> bool {
    0 <= at && at + needle.len() <= hay.len() && hay.subrange(at, at + needle.len()) == needle
}

/// The first position of `needle` in `hay` that is not before `from`.
pub open spec fn find_from(hay: Seq<char>, needle: Seq<char>, from: int) -> Option<int>
    decreases hay.len() - from + 1,
{
    if from < 0 || from + needle.len() > hay.len() {
        None
    } else if matches_at(hay, needle, from) {
        Some(from)
    } else {
        find_from(hay, needle, from + 1)
    }
}

/// `needle` occurs in `hay`.
pub open spec fn contains(hay: Seq<char>, needle: Seq<char>) -> bool {
    find_from(hay, needle, 0) is Some
}

/// What is found is a match, and no earlier position is one.
pub proof fn lemma_find_from(hay: Seq<char>, needle: Seq<char>, from: int)
    requires
        0 <= from,
    ensures
        find_from(hay, needle, from) matches Some(i) ==> {
            &&& from <= i
            &&& matches_at(hay, needle, i)
            &&& forall|j: int| from <= j < i ==> !matches_at(hay, needle, j)
        },
        find_from(hay, needle, from) is None ==> forall|j: int|
            from <= j ==> !matches_at(hay, needle, j),
    decreases hay.len() - from + 1,
{
    if from + needle.len() <= hay.len() && !matches_at(hay, needle, from) {
        lemma_find_from(hay, needle, from + 1);
    }
}

/// Whether `needle` stands in `hay` at `at`.
pub fn has_at(hay: &Vec<char>, needle: &Vec<char>, at: usize) -> (r: bool)
    ensures
        r == matches_at(hay@, needle@, at as int),
{
    if at > hay.len() || needle.len() > hay.len() - at {
        return false;
    }
    let mut i: usize = 0;
    while i < needle.len()
        invariant
            i <= needle@.len(),
            at + needle@.len() <= hay@.len(),
            forall|k: int| 0 <= k < i ==> hay@[at + k] == needle@[k],
        decreases needle.len() - i,
    {
        assert(at + i < hay.len());
        if hay[at + i] != needle[i] {
            assert(hay@.subrange(at as int, at + needle@.len())[i as int] != needle@[i as int]);
            return false;
        }
        i += 1;
    }
    assert(hay@.subrange(at as int, at + needle@.len()) == needle@);
    true
}

/// Position of the first `needle` in `hay` from `from` on.
pub fn find(hay: &Vec<char>, needle: &Vec<char>, from: usize) -> (r: Option<usize>)
    ensures
        r is Some <==> find_from(hay@, needle@, from as int) is Some,
        r matches Some(i) ==> i as int == find_from(hay@, needle@, from as int)->0 && from <= i && i
            + needle@.len() <= hay@.len(),
{
    let mut i: usize = from;
    while i <= hay.len() && needle.len() <= hay.len() - i
        invariant
            from <= i,
            find_from(hay@, needle@, from as int) == find_from(hay@, needle@, i as int),
        decreases hay.len() + 1 - i,
    {
        if has_at(hay, needle, i) {
            return Some(i);
        }
        if i == hay.len() {
            assert(find_from(hay@, needle@, i + 1) is None);
            return None;
        }
        i += 1;
    }
    None
}

/// Position of the first `c` in `hay` from `from` on.
pub fn find_char(hay: &Vec<char>, c: char, from: usize) -> (r: Option<usize>)
    ensures
        r is Some <==> find_from(hay@, seq![c], from as int) is Some,
        r matches Some(i) ==> i as int == find_from(hay@, seq![c], from as int)->0 && from <= i
            < hay@.len() && hay@[i as int] == c,
{
    let mut n: Vec<char> = Vec::new();
    n.push(c);
    assert(n@ == seq![c]);
    let r = find(hay, &n, from);
    proof {
        lemma_find_from(hay@, seq![c], from as int);
        if r is Some {
            let i = r->0 as int;
            assert(hay@.subrange(i, i + 1)[0] == c);
        }
    }
    r
}

/// Whether `needle` occurs in `hay`.
pub fn has_text(hay: &str, needle: &str) -> (r: bool)
    ensures
        r == contains(hay@, needle@),
{
    find(&to_chars(hay), &to_chars(needle), 0).is_some()
}

/// Whether `s` begins with `prefix`.
pub fn begins_with(s: &str, prefix: &str) -> (r: bool)
    ensures
        r == matches_at(s@, prefix@, 0),
{
    has_at(&to_chars(s), &to_chars(prefix), 0)
}

/// `s` ends with `suffix`.
pub open spec fn ends_in(s: Seq<char>, suffix: Seq<char>) -> bool {
    matches_at(s, suffix, s.len() - suffix.len())
}

pub fn ends_with(s: &str, suffix: &str) -> (r: bool)
    ensures
        r == ends_in(s@, suffix@),
{
    let s = to_chars(s);
    let suffix = to_chars(suffix);
    suffix.len() <= s.len() && has_at(&s, &suffix, s.len() - suffix.len())
}

// ---------------------------------------------------------------------------
// Trimming
// ---------------------------------------------------------------------------

/// `s` without the white space at its front.
pub open spec fn trim_front(s: Seq<char>) -> Seq<char>
    decreases s.len(),
{
    if s.len() > 0 && is_white_space(s[0]) {
        trim_front(s.subrange(1, s.len() as int))
    } else {
        s
    }
}

/// `s` without the white space at its back.
pub open spec fn trim_back(s: Seq<char>) -> Seq<char>
    decreases s.len(),
{
    if s.len() > 0 && is_white_space(s.last()) {
        trim_back(s.drop_last())
    } else {
        s
    }
}

/// `s` without white space at either end.
pub open spec fn trimmed(s: Seq<char>) -> Seq<char> {
    trim_back(trim_front(s))
}

/// `s` without any `c` at its back.
pub open spec fn strip_back(s: Seq<char>, c: char) -> Seq<char>
    decreases s.len(),
{
    if s.len() > 0 && s.last() == c {
        strip_back(s.drop_last(), c)
    } else {
        s
    }
}

/// The bounds of `v[from..to]` without white space at either end.
pub fn trim_bounds(v: &Vec<char>, from: usize, to: usize) -> (r: (usize, usize))
    requires
        from <= to <= v@.len(),
    ensures
        from <= r.0 <= r.1 <= to,
        v@.subrange(r.0 as int, r.1 as int) == trimmed(v@.subrange(from as int, to as int)),
{
    let mut a: usize = from;
    while a < to && white_space(v[a])
        invariant
            from <= a <= to <= v@.len(),
            trim_front(v@.subrange(from as int, to as int)) == trim_front(
                v@.subrange(a as int, to as int),
            ),
        decreases to - a,
    {
        assert(v@.subrange(a as int, to as int).subrange(1, to - a) == v@.subrange(
            a + 1,
            to as int,
        ));
        a += 1;
    }
    assert(trim_front(v@.subrange(a as int, to as int)) == v@.subrange(a as int, to as int));
    let mut b: usize = to;
    while b > a && white_space(v[b - 1])
        invariant
            from <= a <= b <= to <= v@.len(),
            trim_back(v@.subrange(a as int, to as int)) == trim_back(
                v@.subrange(a as int, b as int),
            ),
        decreases b - a,
    {
        assert(v@.subrange(a as int, b as int).drop_last() == v@.subrange(a as int, b - 1));
        b -= 1;
    }
    (a, b)
}

/// The end of `v[from..to]` once every `c` at its back is dropped.
pub fn strip_bound(v: &Vec<char>, from: usize, to: usize, c: char) -> (r: usize)
    requires
        from <= to <= v@.len(),
    ensures
        from <= r <= to,
        v@.subrange(from as int, r as int) == strip_back(v@.subrange(from as int, to as int), c),
{
    let mut b: usize = to;
    while b > from && v[b - 1] == c
        invariant
            from <= b <= to <= v@.len(),
            strip_back(v@.subrange(from as int, to as int), c) == strip_back(
                v@.subrange(from as int, b as int),
                c,
            ),
        decreases b - from,
    {
        assert(v@.subrange(from as int, b as int).drop_last() == v@.subrange(from as int, b - 1));
        b -= 1;
    }
    b
}

/// `s` without white space at either end.
pub fn trim(s: &str) -> (r: String)
    ensures
        r@ == trimmed(s@),
{
    let v = to_chars(s);
    let (a, b) = trim_bounds(&v, 0, v.len());
    assert(v@.subrange(0, v@.len() as int) == v@);
    from_range(&v, a, b)
}

/// `s` with every ASCII capital made small.
pub fn to_lower(s: &str) -> (r: String)
    ensures
        r@ == lower(s@),
{
    let v = to_chars(s);
    let mut out: String = String::new();
    let mut i: usize = 0;
    while i < v.len()
        invariant
            i <= v@.len(),
            out@ == lower(v@.take(i as int)),
        decreases v.len() - i,
    {
        out.push(ascii_lower(v[i]));
        i += 1;
        assert(v@.take(i as int) == v@.take(i - 1).push(v@[i - 1]));
        assert(lower(v@.take(i as int)) == lower(v@.take(i - 1)).push(lower_char(v@[i - 1])));
    }
    assert(v@.take(i as int) == v@);
    out
}

// ---------------------------------------------------------------------------
// Decimal numbers
// ---------------------------------------------------------------------------

/// The character of a decimal digit.
pub open spec fn digit_char(d: int) -> char {
    (48 + d) as char
}

/// `n` in decimal, without leading zeros.
pub open spec fn decimal_nat(n: nat) -> Seq<char>
    decreases n,
{
    if n < 10 {
        seq![digit_char(n as int)]
    } else {
        decimal_nat(n / 10).push(digit_char((n % 10) as int))
    }
}

/// `n` in decimal, with a minus sign where it is negative.
pub open spec fn decimal(n: int) -> Seq<char> {
    if n < 0 {
        seq!['-'] + decimal_nat((-n) as nat)
    } else {
        decimal_nat(n as nat)
    }
}

/// `n` copies of `c`.
pub open spec fn repeat(c: char, n: nat) -> Seq<char> {
    Seq::new(n, |i: int| c)
}

/// `n` in decimal with zeros in front up to `width` characters, the sign
/// counted.
pub open spec fn padded(n: int, width: nat) -> Seq<char> {
    let sign = if n < 0 {
        seq!['-']
    } else {
        Seq::empty()
    };
    let digits = decimal_nat(if n < 0 {
        (-n) as nat
    } else {
        n as nat
    });
    let used = sign.len() + digits.len();
    sign + repeat(
        '0',
        if used < width {
            (width - used) as nat
        } else {
            0
        },
    ) + digits
}

/// The number that a run of decimal digits denotes.
pub open spec fn digits_value(s: Seq<char>) -> nat
    decreases s.len(),
{
    if s.len() == 0 {
        0
    } else {
        digits_value(s.drop_last()) * 10 + (s.last() as int - 48) as nat
    }
}

/// A decimal rendering has a digit, only digits, and denotes its number.
pub proof fn lemma_decimal_nat(n: nat)
    ensures
        decimal_nat(n).len() > 0,
        forall|i: int| 0 <= i < decimal_nat(n).len() ==> is_digit(#[trigger] decimal_nat(n)[i]),
        digits_value(decimal_nat(n)) == n,
    decreases n,
{
    let d = decimal_nat(n);
    if n < 10 {
        assert(d.drop_last() == Seq::<char>::empty());
        assert(digits_value(d.drop_last()) == 0);
    } else {
        lemma_decimal_nat(n / 10);
        assert(d.drop_last() == decimal_nat(n / 10));
    }
}

/// Numbers below ten to the `k` have at most `k` digits (small cases used for
/// dates and times).
pub proof fn lemma_decimal_len(n: nat)
    ensures
        n < 10 ==> decimal_nat(n).len() == 1,
        10 <= n < 100 ==> decimal_nat(n).len() == 2,
        100 <= n < 1000 ==> decimal_nat(n).len() == 3,
        1000 <= n < 10000 ==> decimal_nat(n).len() == 4,
{
    reveal_with_fuel(decimal_nat, 5);
}

pub fn digit(d: u64) -> (c: char)
    requires
        d < 10,
    ensures
        c == digit_char(d as int),
{
    (48u8 + d as u8) as char
}

/// Appends `n` in decimal.
pub fn push_nat(out: &mut String, n: u64)
    ensures
        final(out)@ == old(out)@ + decimal_nat(n as nat),
    decreases n,
{
    if n >= 10 {
        push_nat(out, n / 10);
    }
    out.push(digit(n % 10));
    assert(out@ == old(out)@ + decimal_nat(n as nat));
}

/// The absolute value of `n`.
pub fn magnitude(n: i64) -> (r: u64)
    ensures
        r as int == if n < 0 {
            -n
        } else {
            n as int
        },
{
    if n >= 0 {
        n as u64
    } else if n == i64::MIN {
        0x8000_0000_0000_0000u64
    } else {
        (-n) as u64
    }
}

/// Appends `n` in decimal, with a minus sign where it is negative.
pub fn push_int(out: &mut String, n: i64)
    ensures
        final(out)@ == old(out)@ + decimal(n as int),
{
    if n < 0 {
        out.push('-');
    }
    push_nat(out, magnitude(n));
    assert(out@ == old(out)@ + decimal(n as int));
}

/// The number of decimal digits of `n`.
pub fn digit_count(n: u64) -> (r: usize)
    ensures
        r as nat == decimal_nat(n as nat).len(),
        1 <= r <= 20,
{
    let mut r: usize = 1;
    let mut m: u64 = n;
    let ghost mut bound: nat = 0x1_0000_0000_0000_0000;
    while m >= 10
        invariant
            1 <= r,
            decimal_nat(n as nat).len() == decimal_nat(m as nat).len() + r - 1,
            m < bound,
            r == 1 ==> bound <= 0x1_0000_0000_0000_0000,
            r == 2 ==> bound <= 1844674407370955162,
            r == 3 ==> bound <= 184467440737095517,
            r == 4 ==> bound <= 18446744073709552,
            r == 5 ==> bound <= 1844674407370956,
            r == 6 ==> bound <= 184467440737096,
            r == 7 ==> bound <= 18446744073710,
            r == 8 ==> bound <= 1844674407371,
            r == 9 ==> bound <= 184467440738,
            r == 10 ==> bound <= 18446744074,
            r == 11 ==> bound <= 1844674408,
            r == 12 ==> bound <= 184467441,
            r == 13 ==> bound <= 18446745,
            r == 14 ==> bound <= 1844675,
            r == 15 ==> bound <= 184468,
            r == 16 ==> bound <= 18447,
            r == 17 ==> bound <= 1845,
            r == 18 ==> bound <= 185,
            r == 19 ==> bound <= 19,
            r == 20 ==> bound <= 2,
            r <= 20,
        decreases m,
    {
        m = m / 10;
        r += 1;
        proof {
            bound = (bound + 9) / 10;
        }
    }
    r
}

/// Appends `n` in decimal with zeros in front up to `width` characters, the
/// sign counted.
pub fn push_padded(out: &mut String, n: i64, width: usize)
    ensures
        final(out)@ == old(out)@ + padded(n as int, width as nat),
{
    let m: u64 = magnitude(n);
    let digits: usize = digit_count(m);
    let used: usize = if n < 0 {
        digits + 1
    } else {
        digits
    };
    if n < 0 {
        out.push('-');
    }
    let ghost start = out@;
    let mut i: usize = used;
    while i < width
        invariant
            used <= i,
            i <= width || i == used,
            out@ == start + repeat('0', (i - used) as nat),
        decreases width - i,
    {
        out.push('0');
        i += 1;
        assert(repeat('0', (i - used) as nat) == repeat('0', (i - 1 - used) as nat).push('0'));
    }
    push_nat(out, m);
    assert(out@ == old(out)@ + padded(n as int, width as nat));
}

/// More digits never make a smaller number.
pub proof fn lemma_digits_value_grows(s: Seq<char>, k: int)
    requires
        0 <= k <= s.len(),
        forall|i: int| 0 <= i < s.len() ==> is_digit(#[trigger] s[i]),
    ensures
        digits_value(s.take(k)) <= digits_value(s),
    decreases s.len() - k,
{
    if k < s.len() {
        assert(s.take(k + 1).drop_last() == s.take(k));
        assert(is_digit(s[k]));
        lemma_digits_value_grows(s, k + 1);
    } else {
        assert(s.take(k) == s);
    }
}

// ---------------------------------------------------------------------------
// Reading numbers
// ---------------------------------------------------------------------------

/// The digits of a number that may have a plus sign in front.
pub open spec fn after_plus(s: Seq<char>) -> Seq<char> {
    if s.len() > 0 && s[0] == '+' {
        s.subrange(1, s.len() as int)
    } else {
        s
    }
}

/// The number that a text writes in decimal: digits, perhaps behind a plus
/// sign, and not above `max`.
pub open spec fn unsigned_value(s: Seq<char>, max: int) -> Option<int> {
    let d = after_plus(s);
    if d.len() > 0 && (forall|i: int| 0 <= i < d.len() ==> is_digit(#[trigger] d[i]))
        && digits_value(d) <= max {
        Some(digits_value(d) as int)
    } else {
        None
    }
}

/// Reads the number in `v[from..to]`.
pub fn parse_unsigned(v: &Vec<char>, from: usize, to: usize, max: u64) -> (r: Option<u64>)
    requires
        from <= to <= v@.len(),
        max <= 0x0fff_ffff_ffff_ffff,
    ensures
        r is Some <==> unsigned_value(v@.subrange(from as int, to as int), max as int) is Some,
        r matches Some(n) ==> n as int == unsigned_value(
            v@.subrange(from as int, to as int),
            max as int,
        )->0,
{
    let ghost s = v@.subrange(from as int, to as int);
    let start: usize = if from < to && v[from] == '+' {
        from + 1
    } else {
        from
    };
    let ghost d = v@.subrange(start as int, to as int);
    assert(d == after_plus(s));
    if start == to {
        return None;
    }
    let mut n: u64 = 0;
    let mut big: bool = false;
    let mut i: usize = start;
    while i < to
        invariant
            start <= i <= to <= v@.len(),
            max <= 0x0fff_ffff_ffff_ffff,
            s == v@.subrange(from as int, to as int),
            d == v@.subrange(start as int, to as int),
            d == after_plus(s),
            d.len() == to - start,
            d.len() > 0,
            forall|k: int| 0 <= k < i - start ==> is_digit(#[trigger] d[k]),
            !big ==> n as int == digits_value(d.take(i - start)) && n <= max,
            big ==> digits_value(d.take(i - start)) > max,
        decreases to - i,
    {
        assert(d[i - start] == v@[i as int]);
        if !ascii_digit(v[i]) {
            assert(!is_digit(d[i - start]));
            return None;
        }
        let x: u64 = (v[i] as u32 - 48) as u64;
        assert(d.take(i + 1 - start).drop_last() == d.take(i - start));
        if !big {
            if n * 10 + x > max {
                big = true;
            } else {
                n = n * 10 + x;
            }
        }
        i += 1;
    }
    assert(d.take(i - start) == d);
    if big {
        None
    } else {
        Some(n)
    }
}

pub open spec fn is_hex(c: char) -> bool {
    hex_value(c) is Some
}

/// The number that a run of hexadecimal digits denotes.
pub open spec fn hex_digits_value(s: Seq<char>) -> nat
    decreases s.len(),
{
    if s.len() == 0 {
        0
    } else {
        hex_digits_value(s.drop_last()) * 16 + hex_value(s.last())->0 as nat
    }
}

/// The number that a text writes in hexadecimal: digits, perhaps behind a plus
/// sign, and not above `max`.
pub open spec fn hex_number(s: Seq<char>, max: int) -> Option<int> {
    let d = after_plus(s);
    if d.len() > 0 && (forall|i: int| 0 <= i < d.len() ==> is_hex(#[trigger] d[i]))
        && hex_digits_value(d) <= max {
        Some(hex_digits_value(d) as int)
    } else {
        None
    }
}

/// Reads the hexadecimal number in `v[from..to]`.
pub fn parse_hex(v: &Vec<char>, from: usize, to: usize, max: u64) -> (r: Option<u64>)
    requires
        from <= to <= v@.len(),
    ensures
        r is Some <==> hex_number(v@.subrange(from as int, to as int), max as int) is Some,
        r matches Some(n) ==> n as int == hex_number(
            v@.subrange(from as int, to as int),
            max as int,
        )->0,
{
    let ghost s = v@.subrange(from as int, to as int);
    let start: usize = if from < to && v[from] == '+' {
        from + 1
    } else {
        from
    };
    let ghost d = v@.subrange(start as int, to as int);
    assert(d == after_plus(s));
    if start == to {
        return None;
    }
    let mut n: u64 = 0;
    let mut big: bool = false;
    let mut i: usize = start;
    while i < to
        invariant
            start <= i <= to <= v@.len(),
            s == v@.subrange(from as int, to as int),
            d == v@.subrange(start as int, to as int),
            d == after_plus(s),
            d.len() == to - start,
            d.len() > 0,
            forall|k: int| 0 <= k < i - start ==> is_hex(#[trigger] d[k]),
            !big ==> n as int == hex_digits_value(d.take(i - start)) && n <= max,
            big ==> hex_digits_value(d.take(i - start)) > max,
        decreases to - i,
    {
        assert(d[i - start] == v@[i as int]);
        match hex_digit(v[i]) {
            None => {
                assert(!is_hex(d[i - start]));
                return None;
            },
            Some(x) => {
                assert(d.take(i + 1 - start).drop_last() == d.take(i - start));
                assert(is_hex(d[i - start]));
                if !big {
                    let m: u128 = n as u128 * 16 + x as u128;
                    if m > max as u128 {
                        big = true;
                    } else {
                        n = m as u64;
                    }
                }
            },
        }
        i += 1;
    }
    assert(d.take(i - start) == d);
    if big {
        None
    } else {
        Some(n)
    }
}

// ---------------------------------------------------------------------------
// Splitting
// ---------------------------------------------------------------------------

/// The last position of `c`, if any.
pub open spec fn last_position(s: Seq<char>, c: char) -> Option<int>
    decreases s.len(),
{
    if s.len() == 0 {
        None
    } else if s.last() == c {
        Some(s.len() - 1)
    } else {
        last_position(s.drop_last(), c)
    }
}

/// Position of the last `c` in `v[from..to]`, counted from `from`.
pub fn find_last(v: &Vec<char>, from: usize, to: usize, c: char) -> (r: Option<usize>)
    requires
        from <= to <= v@.len(),
    ensures
        r is Some <==> last_position(v@.subrange(from as int, to as int), c) is Some,
        r matches Some(i) ==> i as int == last_position(
            v@.subrange(from as int, to as int),
            c,
        )->0 && from + i < to && v@[from + i] == c,
{
    let ghost s = v@.subrange(from as int, to as int);
    let mut b: usize = to;
    while b > from
        invariant
            from <= b <= to <= v@.len(),
            s == v@.subrange(from as int, to as int),
            last_position(s, c) == last_position(v@.subrange(from as int, b as int), c),
        decreases b - from,
    {
        assert(v@.subrange(from as int, b as int).drop_last() == v@.subrange(from as int, b - 1));
        assert(v@.subrange(from as int, b as int).last() == v@[b - 1]);
        if v[b - 1] == c {
            return Some(b - 1 - from);
        }
        b -= 1;
    }
    None
}

/// The lines of a text: what stands between its line feeds.
pub open spec fn lines(s: Seq<char>) -> Seq<Seq<char>>
    decreases s.len(),
    via lines_decreases
{
    match find_from(s, seq!['\n'], 0) {
        Some(i) => seq![s.take(i)] + lines(s.subrange(i + 1, s.len() as int)),
        None => seq![s],
    }
}

#[via_fn]
proof fn lines_decreases(s: Seq<char>) {
    lemma_find_from(s, seq!['\n'], 0);
}

/// Searching a tail of a text is searching the text from there on.
pub proof fn lemma_find_shift(s: Seq<char>, needle: Seq<char>, from: int, k: int)
    requires
        0 <= from <= s.len(),
        0 <= k,
    ensures
        match find_from(s.subrange(from, s.len() as int), needle, k) {
            Some(i) => find_from(s, needle, from + k) == Some(from + i),
            None => find_from(s, needle, from + k) is None,
        },
    decreases s.len() - from - k + 1,
{
    let rest = s.subrange(from, s.len() as int);
    if k + needle.len() <= rest.len() {
        assert(rest.subrange(k, k + needle.len()) == s.subrange(
            from + k,
            from + k + needle.len(),
        ));
        if !matches_at(rest, needle, k) {
            lemma_find_shift(s, needle, from, k + 1);
        }
    }
}

pub open spec fn texts(v: Seq<String>) -> Seq<Seq<char>> {
    v.map_values(|s: String| s@)
}

/// Appends a text.
pub fn push_text(out: &mut Vec<String>, s: String)
    ensures
        texts(final(out)@) == texts(old(out)@).push(s@),
{
    out.push(s);
    assert(texts(out@) == texts(old(out)@).push(s@));
}

/// The lines of a text.
pub fn split_lines(s: &str) -> (r: Vec<String>)
    ensures
        texts(r@) == lines(s@),
{
    let v = to_chars(s);
    let mut out: Vec<String> = Vec::new();
    let mut from: usize = 0;
    let ghost mut rest: Seq<char> = s@;
    assert(s@.subrange(0, s@.len() as int) == s@);
    assert(texts(out@) + lines(rest) == lines(s@));
    loop
        invariant
            from <= v@.len(),
            v@ == s@,
            rest == s@.subrange(from as int, s@.len() as int),
            texts(out@) + lines(rest) == lines(s@),
        decreases v.len() - from,
    {
        let ghost before = texts(out@);
        proof {
            lemma_find_shift(s@, seq!['\n'], from as int, 0);
        }
        match find_char(&v, '\n', from) {
            Some(i) => {
                let line = from_range(&v, from, i);
                assert(line@ == rest.take(i - from));
                push_text(&mut out, line);
                proof {
                    let tail = s@.subrange(i + 1, s@.len() as int);
                    assert(rest.subrange(i - from + 1, rest.len() as int) == tail);
                    assert(before + (seq![line@] + lines(tail)) == before.push(line@) + lines(
                        tail,
                    ));
                    rest = tail;
                }
                from = i + 1;
            },
            None => {
                let line = from_range(&v, from, v.len());
                push_text(&mut out, line);
                assert(before + seq![line@] == before.push(line@));
                return out;
            },
        }
    }
}

// ---------------------------------------------------------------------------
// Paths
// ---------------------------------------------------------------------------

/// `name` inside `dir`; an absolute name stands for itself.
pub open spec fn path_in(dir: Seq<char>, name: Seq<char>) -> Seq<char> {
    if matches_at(name, "/"@, 0) || dir.len() == 0 {
        name
    } else if dir.last() == '/' {
        dir + name
    } else {
        dir + "/"@ + name
    }
}

/// `name` inside `dir`.
pub fn join_path(dir: &str, name: &str) -> (r: String)
    ensures
        r@ == path_in(dir@, name@),
{
    if begins_with(name, "/") || dir.is_empty() {
        return name.to_owned();
    }
    let mut out: String = dir.to_owned();
    if !ends_with(dir, "/") {
        proof {
            reveal_strlit("/");
            if dir@.last() == '/' {
                assert(dir@.subrange(dir@.len() - 1, dir@.len() as int) == "/"@);
            }
        }
        out.append("/");
    } else {
        proof {
            reveal_strlit("/");
            assert(dir@.subrange(dir@.len() - 1, dir@.len() as int)[0] == '/');
        }
    }
    out.append(name);
    out
}

// ---------------------------------------------------------------------------
// Laws
// ---------------------------------------------------------------------------

/// A number that is written is read again, with or without a plus in front, and
/// nothing else has its digits: two numbers that are written alike are the same.
pub proof fn law_numbers_round_trip(n: nat, m: nat, max: int)
    ensures
        n <= max ==> unsigned_value(decimal_nat(n), max) == Some(n as int),
        n <= max ==> unsigned_value(seq!['+'] + decimal_nat(n), max) == Some(n as int),
        n > max ==> unsigned_value(decimal_nat(n), max) is None,
        decimal_nat(n) == decimal_nat(m) ==> n == m,
        decimal_nat(n).len() > 1 ==> decimal_nat(n)[0] != '0',
{
    lemma_decimal_nat(n);
    lemma_decimal_nat(m);
    lemma_no_leading_zero(n);
    let d = decimal_nat(n);
    let p = seq!['+'] + d;
    assert(p.subrange(1, p.len() as int) =~= d);
    assert(is_digit(d[0]));
}

proof fn lemma_no_leading_zero(n: nat)
    ensures
        decimal_nat(n).len() > 0,
        n > 0 ==> decimal_nat(n)[0] != '0',
        n < 10 ==> decimal_nat(n).len() == 1,
    decreases n,
{
    if n >= 10 {
        lemma_no_leading_zero(n / 10);
    }
}

/// A digit stands for its own value, and each further digit counts what stands
/// before it ten times: `0` to `9` and tens.
pub proof fn law_digits_count_tens(s: Seq<char>, n: nat)
    ensures
        decimal_nat(0) == seq!['0'],
        decimal_nat(7) == seq!['7'],
        decimal_nat(10 * n + 3).last() == '3',
        n > 0 ==> decimal_nat(10 * n + 3).drop_last() == decimal_nat(n),
        n > 0 ==> decimal(-(n as int)) == seq!['-'] + decimal(n as int),
        digits_value(s.push('3')) == 10 * digits_value(s) + 3,
        digits_value(s.push('0')) == 10 * digits_value(s),
{
    assert(s.push('3').drop_last() =~= s);
    assert(s.push('0').drop_last() =~= s);
    if n > 0 {
        assert((10 * n + 3) / 10 == n && (10 * n + 3) % 10 == 3) by (nonlinear_arith);
        assert(decimal_nat(10 * n + 3).drop_last() =~= decimal_nat(n));
    }
}

/// Trimming takes white space off both ends and nothing else: what is left
/// stands in the text between two stretches of white space, and neither begins
/// nor ends with it.
pub proof fn law_trimming(s: Seq<char>)
    ensures
        trimmed(s).len() > 0 ==> !is_white_space(trimmed(s)[0]) && !is_white_space(
            trimmed(s).last(),
        ),
        exists|a: Seq<char>, b: Seq<char>|
            s == #[trigger] (a + trimmed(s) + b) && (forall|i: int|
                0 <= i < a.len() ==> is_white_space(#[trigger] a[i])) && (forall|i: int|
                0 <= i < b.len() ==> is_white_space(#[trigger] b[i])),
        is_white_space(' ') && is_white_space('\n') && is_white_space('\t') && is_white_space(
            '\r',
        ),
        !is_white_space('a') && !is_white_space('0') && !is_white_space('/') && !is_white_space(
            '_',
        ),
{
    let f = trim_front(s);
    let a = lemma_trimmed_front(s);
    let b = lemma_trimmed_back(f);
    assert(a + trimmed(s) + b =~= a + (trimmed(s) + b));
    if trimmed(s).len() > 0 {
        assert(trimmed(s)[0] == f[0]);
    }
}

proof fn lemma_trimmed_front(s: Seq<char>) -> (a: Seq<char>)
    ensures
        s == a + trim_front(s),
        forall|i: int| 0 <= i < a.len() ==> is_white_space(#[trigger] a[i]),
        trim_front(s).len() > 0 ==> !is_white_space(trim_front(s)[0]),
    decreases s.len(),
{
    if s.len() > 0 && is_white_space(s[0]) {
        let rest = s.subrange(1, s.len() as int);
        let b = lemma_trimmed_front(rest);
        let a = seq![s[0]] + b;
        assert(a + trim_front(s) =~= seq![s[0]] + rest);
        assert(s =~= seq![s[0]] + rest);
        assert forall|i: int| 0 <= i < a.len() implies is_white_space(#[trigger] a[i]) by {
            if i > 0 {
                assert(a[i] == b[i - 1]);
            }
        }
        a
    } else {
        assert(Seq::<char>::empty() + s =~= s);
        Seq::empty()
    }
}

proof fn lemma_trimmed_back(s: Seq<char>) -> (b: Seq<char>)
    ensures
        s == trim_back(s) + b,
        forall|i: int| 0 <= i < b.len() ==> is_white_space(#[trigger] b[i]),
        trim_back(s).len() > 0 ==> !is_white_space(trim_back(s).last()),
    decreases s.len(),
{
    if s.len() > 0 && is_white_space(s.last()) {
        let a = lemma_trimmed_back(s.drop_last());
        let b = a.push(s.last());
        assert(s =~= s.drop_last().push(s.last()));
        assert(trim_back(s) + b =~= s);
        b
    } else {
        assert(s + Seq::<char>::empty() =~= s);
        Seq::empty()
    }
}

/// The lines of a text, joined with line feeds, are the text, and none of them
/// holds a line feed.
pub proof fn law_lines_are_the_text(s: Seq<char>)
    ensures
        joined_lines(lines(s)) == s,
        lines(s).len() > 0,
        forall|i: int| 0 <= i < lines(s).len() ==> !(#[trigger] lines(s)[i]).contains('\n'),
    decreases s.len(),
{
    lemma_find_from(s, seq!['\n'], 0);
    match find_from(s, seq!['\n'], 0) {
        Some(i) => {
            let rest = s.subrange(i + 1, s.len() as int);
            law_lines_are_the_text(rest);
            let all = lines(s);
            assert(s.subrange(i, i + 1) == seq!['\n']);
            assert(s[i] == s.subrange(i, i + 1)[0]);
            assert(all.skip(1) =~= lines(rest));
            assert(all[0] == s.take(i));
            assert(joined_lines(all) == s.take(i) + seq!['\n'] + joined_lines(lines(rest)));
            assert(s =~= s.take(i) + seq!['\n'] + rest);
            assert(!s.take(i).contains('\n')) by {
                if s.take(i).contains('\n') {
                    let k = choose|k: int| 0 <= k < i && s.take(i)[k] == '\n';
                    assert(s.subrange(k, k + 1) =~= seq!['\n']);
                    assert(matches_at(s, seq!['\n'], k));
                }
            }
            assert forall|k: int| 0 <= k < all.len() implies !(#[trigger] all[k]).contains(
                '\n',
            ) by {
                if k > 0 {
                    assert(all[k] == lines(rest)[k - 1]);
                }
            }
        },
        None => {
            assert(!s.contains('\n')) by {
                if s.contains('\n') {
                    let k = choose|k: int| 0 <= k < s.len() && s[k] == '\n';
                    assert(s.subrange(k, k + 1) =~= seq!['\n']);
                    assert(matches_at(s, seq!['\n'], k));
                }
            }
            assert(lines(s).len() == 1);
        },
    }
}

/// Lines joined with line feeds.
pub open spec fn joined_lines(v: Seq<Seq<char>>) -> Seq<char>
    decreases v.len(),
{
    if v.len() == 0 {
        Seq::empty()
    } else if v.len() == 1 {
        v[0]
    } else {
        v[0] + seq!['\n'] + joined_lines(v.skip(1))
    }
}

/// A name is put into a directory with one slash between them; an absolute name
/// and a name without a directory stay as they are.
pub proof fn law_paths_are_joined(dir: Seq<char>, name: Seq<char>)
    requires
        dir.len() > 0,
        name.len() > 0,
    ensures
        name[0] == '/' ==> path_in(dir, name) == name,
        name[0] != '/' && dir.last() != '/' ==> path_in(dir, name) == dir + seq!['/'] + name,
        name[0] != '/' && dir.last() == '/' ==> path_in(dir, name) == dir + name,
        path_in(Seq::empty(), name) == name,
{
    reveal_strlit("/");
    assert("/"@ =~= seq!['/']);
    assert(name.subrange(0, 1)[0] == name[0]);
    if name[0] == '/' {
        assert(name.subrange(0, 1) =~= "/"@);
    }
}

/// Letters are lowered and raised one by one, and only those of the alphabet.
pub proof fn law_letter_case(s: Seq<char>)
    ensures
        lower(s).len() == s.len(),
        upper(lower(s)) == upper(s),
        lower_char('A') == 'a' && lower_char('Z') == 'z' && lower_char('_') == '_',
        upper_char('a') == 'A' && upper_char('z') == 'Z' && upper_char('#') == '#',
{
    assert(upper(lower(s)) =~= upper(s));
}

/// A text stands in any text that is put together with it, and nothing stands in
/// a shorter text.
pub proof fn law_contains(a: Seq<char>, needle: Seq<char>, b: Seq<char>)
    ensures
        contains(a + needle + b, needle),
        a.len() < needle.len() ==> !contains(a, needle),
        needle.len() > 0 && (forall|i: int| 0 <= i < a.len() ==> #[trigger] a[i] != needle[0])
            ==> !contains(a, needle),
{
    let all = a + needle + b;
    let at = a.len() as int;
    assert(all.subrange(at, at + needle.len()) =~= needle);
    assert(matches_at(all, needle, at));
    lemma_find_from(all, needle, 0);
    lemma_find_from(a, needle, 0);
    if let Some(i) = find_from(a, needle, 0) {
        if needle.len() > 0 {
            assert(a.subrange(i, i + needle.len())[0] == a[i]);
        }
    }
}

/// Each hexadecimal digit counts what stands before it sixteen times, in either
/// case.
pub proof fn law_hex_digits_count_sixteens(s: Seq<char>)
    ensures
        hex_digits_value(s.push('f')) == 16 * hex_digits_value(s) + 15,
        hex_digits_value(s.push('F')) == 16 * hex_digits_value(s) + 15,
        hex_digits_value(s.push('0')) == 16 * hex_digits_value(s),
        hex_digits_value(s.push('9')) == 16 * hex_digits_value(s) + 9,
        hex_digits_value(s.push('a')) == 16 * hex_digits_value(s) + 10,
        hex_value('g') is None && hex_value('x') is None,
{
    assert(s.push('f').drop_last() =~= s);
    assert(s.push('F').drop_last() =~= s);
    assert(s.push('0').drop_last() =~= s);
    assert(s.push('9').drop_last() =~= s);
    assert(s.push('a').drop_last() =~= s);
}

/// The visible characters of ASCII are no white space; its blank and its five
/// controls of layout are, and so are the wide, the unbroken and the thin blanks.
pub proof fn law_white_space(c: char)
    ensures
        c as int <= 127 ==> (is_white_space(c) <==> c == ' ' || c == '\t' || c == '\n' || c == '\r'
            || c as int == 11 || c as int == 12),
        is_white_space('\u{85}') && is_white_space('\u{a0}') && is_white_space('\u{1680}'),
        0x2000 <= c as int <= 0x200a ==> is_white_space(c),
        is_white_space('\u{2028}') && is_white_space('\u{2029}') && is_white_space('\u{202f}'),
        is_white_space('\u{205f}') && is_white_space('\u{3000}') && !is_white_space('\u{200b}'),
{
}

} // verus!
