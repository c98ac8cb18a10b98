//! Character-level text utilities with exact specifications.

use vstd::prelude::*;

verus! {

/// Appends one character to a `String` (std's `String::push`).
/// Trusted: the new contents are the old contents followed by `c`.
#[verifier::external_body]
fn push_char(s: &mut String, c: char)
    ensures
        final(s)@ == old(s)@.push(c),
{
    s.push(c);
}

/// The characters of a string slice, in order.
pub fn str_chars(s: &str) -> (r: Vec<char>)
    ensures
        r@ == s@,
{
    let mut r: Vec<char> = Vec::new();
    for c in it: s.chars()
        invariant
            r@ == it.seq().take(it.index() as int),
    {
        r.push(c);
    }
    r
}

/// A string holding exactly the given characters.
pub fn string_from_chars(cs: &[char]) -> (r: String)
    ensures
        r@ == cs@,
{
    let mut r = String::new();
    let mut i: usize = 0;
    while i < cs.len()
        invariant
            i <= cs@.len(),
            r@ == cs@.take(i as int),
        decreases cs@.len() - i,
    {
        push_char(&mut r, cs[i]);
        assert(cs@.take(i + 1) == cs@.take(i as int).push(cs@[i as int]));
        i += 1;
    }
    assert(cs@.take(cs@.len() as int) == cs@);
    r
}


// ---------------------------------------------------------------------------
// Searching

/// `p` occurs in `s` starting at index `i`.
pub open spec fn occurs_at(s: Seq<char>, p: Seq<char>, i: int) -> bool {
    0 <= i && i + p.len() <= s.len() && s.subrange(i, i + p.len()) == p
}

/// The first index at or after `k` where `p` occurs in `s`.
pub open spec fn find_from(s: Seq<char>, p: Seq<char>, k: int) -> Option<int>
    decreases s.len() + 1 - k,
{
    if k < 0 || k + p.len() > s.len() {
        None
    } else if occurs_at(s, p, k) {
        Some(k)
    } else {
        find_from(s, p, k + 1)
    }
}

/// The first index where `p` occurs in `s` (what `str::find` reports, counted in characters).
pub open spec fn find_seq(s: Seq<char>, p: Seq<char>) -> Option<int> {
    find_from(s, p, 0)
}

/// `find_from` finds the first occurrence at or after `k`, and nothing is skipped.
pub proof fn lemma_find_from(s: Seq<char>, p: Seq<char>, k: int)
    requires
        0 <= k,
    ensures
        match find_from(s, p, k) {
            Some(i) => k <= i && occurs_at(s, p, i) && forall|j: int|
                k <= j < i ==> !#[trigger] occurs_at(s, p, j),
            None => forall|j: int| k <= j ==> !#[trigger] occurs_at(s, p, j),
        },
    decreases s.len() + 1 - k,
{
    if k + p.len() > s.len() {
    } else if occurs_at(s, p, k) {
    } else {
        lemma_find_from(s, p, k + 1);
    }
}

/// The first occurrence of `p` in `s`: `find_seq` is `Some(i)` exactly when `i` is an occurrence
/// with none before it.
pub proof fn lemma_find_seq(s: Seq<char>, p: Seq<char>)
    ensures
        match find_seq(s, p) {
            Some(i) => occurs_at(s, p, i) && forall|j: int| 0 <= j < i ==> !#[trigger] occurs_at(s, p, j),
            None => forall|j: int| !#[trigger] occurs_at(s, p, j),
        },
{
    lemma_find_from(s, p, 0);
}

/// Whether `p` occurs in `s` at `i`.
pub fn matches_at(s: &[char], p: &[char], i: usize) -> (r: bool)
    requires
        i + p@.len() <= s@.len(),
    ensures
        r == occurs_at(s@, p@, i as int),
{
    let n = s.len();
    let mut j: usize = 0;
    while j < p.len()
        invariant
            n == s@.len(),
            i + p@.len() <= s@.len(),
            j <= p@.len(),
            forall|t: int| 0 <= t < j ==> s@[i + t] == p@[t],
        decreases p@.len() - j,
    {
        if s[i + j] != p[j] {
            assert(s@.subrange(i as int, i + p@.len())[j as int] != p@[j as int]);
            return false;
        }
        j += 1;
    }
    assert(s@.subrange(i as int, i + p@.len()) =~= p@);
    true
}

/// The first index where `p` occurs in `s` (like `str::find`, in characters).
pub fn find_chars(s: &[char], p: &[char]) -> (r: Option<usize>)
    ensures
        match r {
            Some(i) => find_seq(s@, p@) == Some(i as int),
            None => find_seq(s@, p@) is None,
        },
{
    if p.len() > s.len() {
        return None;
    }
    let last = s.len() - p.len();
    let mut k: usize = 0;
    loop
        invariant
            last + p@.len() == s@.len(),
            k <= last,
            find_seq(s@, p@) == find_from(s@, p@, k as int),
        decreases last - k,
    {
        if matches_at(s, p, k) {
            return Some(k);
        }
        if k == last {
            return None;
        }
        k += 1;
    }
}

/// Index of the first `'\n'` at or after `k`, or the length of `s` when there is none.
pub open spec fn line_end(s: Seq<char>, k: int) -> int
    decreases s.len() - k,
{
    if k < 0 || k >= s.len() {
        s.len() as int
    } else if s[k] == '\n' {
        k
    } else {
        line_end(s, k + 1)
    }
}

pub proof fn lemma_line_end(s: Seq<char>, k: int)
    requires
        0 <= k <= s.len(),
    ensures
        k <= line_end(s, k) <= s.len(),
        line_end(s, k) < s.len() ==> s[line_end(s, k)] == '\n',
        forall|j: int| k <= j < line_end(s, k) ==> s[j] != '\n',
    decreases s.len() - k,
{
    if k < s.len() && s[k] != '\n' {
        lemma_line_end(s, k + 1);
    }
}

/// First `'\n'` at or after `k`, or the length.
pub fn find_line_end(s: &[char], k: usize) -> (r: usize)
    requires
        k <= s@.len(),
    ensures
        r as int == line_end(s@, k as int),
{
    let mut i = k;
    while i < s.len()
        invariant
            k <= i <= s@.len(),
            line_end(s@, k as int) == line_end(s@, i as int),
        decreases s@.len() - i,
    {
        if s[i] == '\n' {
            return i;
        }
        i += 1;
    }
    i
}

/// Index of the last occurrence of `c` among the first `n` characters of `s`.
pub open spec fn last_index_before(s: Seq<char>, c: char, n: int) -> Option<int>
    decreases n,
{
    if n <= 0 || n > s.len() {
        None
    } else if s[n - 1] == c {
        Some(n - 1)
    } else {
        last_index_before(s, c, n - 1)
    }
}

/// Index of the last occurrence of `c` in `s` (like `str::rfind`, in characters).
pub open spec fn rfind_char_spec(s: Seq<char>, c: char) -> Option<int> {
    last_index_before(s, c, s.len() as int)
}

pub proof fn lemma_last_index_before(s: Seq<char>, c: char, n: int)
    requires
        0 <= n <= s.len(),
    ensures
        match last_index_before(s, c, n) {
            Some(i) => 0 <= i < n && s[i] == c && forall|j: int| i < j < n ==> s[j] != c,
            None => forall|j: int| 0 <= j < n ==> s[j] != c,
        },
    decreases n,
{
    if n > 0 && s[n - 1] != c {
        lemma_last_index_before(s, c, n - 1);
    }
}

/// Index of the last occurrence of `c` in `s`.
pub fn rfind_char(s: &[char], c: char) -> (r: Option<usize>)
    ensures
        match r {
            Some(i) => rfind_char_spec(s@, c) == Some(i as int),
            None => rfind_char_spec(s@, c) is None,
        },
{
    let mut n = s.len();
    while n > 0
        invariant
            n <= s@.len(),
            rfind_char_spec(s@, c) == last_index_before(s@, c, n as int),
        decreases n,
    {
        if s[n - 1] == c {
            return Some(n - 1);
        }
        n -= 1;
    }
    None
}

// ---------------------------------------------------------------------------
// Trimming

/// Unicode `White_Space` (the set `char::is_whitespace` and `str::trim` use).
pub open spec fn is_unicode_whitespace(c: char) -> bool {
    let u = c as u32;
    (0x9 <= u <= 0xd) || u == 0x20 || u == 0x85 || u == 0xa0 || u == 0x1680 || (0x2000 <= u
        <= 0x200a) || u == 0x2028 || u == 0x2029 || u == 0x202f || u == 0x205f || u == 0x3000
}

pub fn is_whitespace(c: char) -> (r: bool)
    ensures
        r == is_unicode_whitespace(c),
{
    let u = c as u32;
    (0x9 <= u && u <= 0xd) || u == 0x20 || u == 0x85 || u == 0xa0 || u == 0x1680 || (0x2000 <= u
        && u <= 0x200a) || u == 0x2028 || u == 0x2029 || u == 0x202f || u == 0x205f || u == 0x3000
}

/// `s` without its leading characters that satisfy `drop`.
pub open spec fn strip_front<A>(s: Seq<A>, drop: spec_fn(A) -> bool) -> Seq<A>
    decreases s.len(),
{
    if s.len() > 0 && drop(s[0]) {
        strip_front(s.drop_first(), drop)
    } else {
        s
    }
}

/// `s` without its trailing characters that satisfy `drop`.
pub open spec fn strip_back<A>(s: Seq<A>, drop: spec_fn(A) -> bool) -> Seq<A>
    decreases s.len(),
{
    if s.len() > 0 && drop(s.last()) {
        strip_back(s.drop_last(), drop)
    } else {
        s
    }
}

/// `str::trim`: leading and trailing Unicode whitespace removed.
pub open spec fn trim_ws(s: Seq<char>) -> Seq<char> {
    strip_back(strip_front(s, |c: char| is_unicode_whitespace(c)), |c: char| is_unicode_whitespace(c))
}

/// `str::trim_matches('"')`: leading and trailing double quotes removed.
pub open spec fn trim_quotes(s: Seq<char>) -> Seq<char> {
    strip_back(strip_front(s, |c: char| c == '"'), |c: char| c == '"')
}

pub proof fn lemma_strip_front_skip<A>(s: Seq<A>, drop: spec_fn(A) -> bool, i: int)
    requires
        0 <= i <= s.len(),
        forall|j: int| 0 <= j < i ==> drop(s[j]),
    ensures
        strip_front(s, drop) == strip_front(s.skip(i), drop),
    decreases i,
{
    if i > 0 {
        assert(s.drop_first().skip(i - 1) =~= s.skip(i));
        lemma_strip_front_skip(s.drop_first(), drop, i - 1);
    } else {
        assert(s.skip(0) =~= s);
    }
}

pub proof fn lemma_strip_back_take<A>(s: Seq<A>, drop: spec_fn(A) -> bool, n: int)
    requires
        0 <= n <= s.len(),
        forall|j: int| n <= j < s.len() ==> drop(s[j]),
    ensures
        strip_back(s, drop) == strip_back(s.take(n), drop),
    decreases s.len() - n,
{
    if n < s.len() {
        assert(s.drop_last().take(n) =~= s.take(n));
        lemma_strip_back_take(s.drop_last(), drop, n);
    } else {
        assert(s.take(n) =~= s);
    }
}

/// Bounds `(a, b)` such that `s[a..b]` is `s` with leading and trailing whitespace removed.
fn trim_ws_bounds(s: &[char]) -> (r: (usize, usize))
    ensures
        r.0 <= r.1 <= s@.len(),
        s@.subrange(r.0 as int, r.1 as int) == trim_ws(s@),
{
    let ghost ws = |c: char| is_unicode_whitespace(c);
    let mut a: usize = 0;
    while a < s.len() && is_whitespace(s[a])
        invariant
            a <= s@.len(),
            forall|j: int| 0 <= j < a ==> is_unicode_whitespace(s@[j]),
        decreases s@.len() - a,
    {
        a += 1;
    }
    proof {
        lemma_strip_front_skip(s@, ws, a as int);
        let t = s@.skip(a as int);
        assert(t.len() == 0 || !ws(t[0]));
        assert(strip_front(t, ws) == t);
    }
    let mut b: usize = s.len();
    while b > a && is_whitespace(s[b - 1])
        invariant
            a <= b <= s@.len(),
            forall|j: int| b <= j < s@.len() ==> is_unicode_whitespace(s@[j]),
        decreases b,
    {
        b -= 1;
    }
    proof {
        let t = s@.skip(a as int);
        let n = b - a;
        lemma_strip_back_take(t, ws, n as int);
        let u = t.take(n as int);
        assert(u =~= s@.subrange(a as int, b as int));
        assert(u.len() == 0 || !ws(u.last()));
    }
    (a, b)
}

/// Bounds `(a, b)` such that `s[lo..hi]` trimmed of double quotes is `s[a..b]`.
fn trim_quote_bounds(s: &[char], lo: usize, hi: usize) -> (r: (usize, usize))
    requires
        lo <= hi <= s@.len(),
    ensures
        lo <= r.0 <= r.1 <= hi,
        s@.subrange(r.0 as int, r.1 as int) == trim_quotes(s@.subrange(lo as int, hi as int)),
{
    let ghost q = |c: char| c == '"';
    let ghost w = s@.subrange(lo as int, hi as int);
    let mut a = lo;
    while a < hi && s[a] == '"'
        invariant
            lo <= a <= hi <= s@.len(),
            forall|j: int| lo <= j < a ==> s@[j] == '"',
        decreases hi - a,
    {
        a += 1;
    }
    proof {
        lemma_strip_front_skip(w, q, a - lo);
        let t = w.skip(a - lo);
        assert(t =~= s@.subrange(a as int, hi as int));
        assert(t.len() == 0 || !q(t[0]));
    }
    let mut b = hi;
    while b > a && s[b - 1] == '"'
        invariant
            lo <= a <= b <= hi,
            hi <= s@.len(),
            forall|j: int| b <= j < hi ==> s@[j] == '"',
        decreases b,
    {
        b -= 1;
    }
    proof {
        let t = s@.subrange(a as int, hi as int);
        lemma_strip_back_take(t, q, b - a);
        let u = t.take(b - a);
        assert(u =~= s@.subrange(a as int, b as int));
        assert(u.len() == 0 || !q(u.last()));
    }
    (a, b)
}

/// `str::trim` on characters.
pub fn trim(s: &[char]) -> (r: Vec<char>)
    ensures
        r@ == trim_ws(s@),
{
    let (a, b) = trim_ws_bounds(s);
    slice_range(s, a, b)
}

/// `str::trim` followed by `str::trim_matches('"')`.
pub fn trim_then_unquote(s: &[char]) -> (r: Vec<char>)
    ensures
        r@ == trim_quotes(trim_ws(s@)),
{
    let (a, b) = trim_ws_bounds(s);
    let (c, d) = trim_quote_bounds(s, a, b);
    slice_range(s, c, d)
}

/// A copy of `s[a..b]`.
pub fn slice_range(s: &[char], a: usize, b: usize) -> (r: Vec<char>)
    requires
        a <= b <= s@.len(),
    ensures
        r@ == s@.subrange(a as int, b as int),
{
    let mut r: Vec<char> = Vec::new();
    let mut i = a;
    while i < b
        invariant
            a <= i <= b <= s@.len(),
            r@ == s@.subrange(a as int, i as int),
        decreases b - i,
    {
        r.push(s[i]);
        i += 1;
    }
    r
}

/// Appends `s` to `out`.
pub fn extend_chars(out: &mut Vec<char>, s: &[char])
    ensures
        final(out)@ == old(out)@ + s@,
{
    let mut i: usize = 0;
    while i < s.len()
        invariant
            i <= s@.len(),
            out@ == old(out)@ + s@.take(i as int),
        decreases s@.len() - i,
    {
        out.push(s[i]);
        assert(s@.take(i + 1) == s@.take(i as int).push(s@[i as int]));
        i += 1;
    }
    assert(s@.take(s@.len() as int) == s@);
}


// ---------------------------------------------------------------------------
// Decimal numbers

/// The ASCII digit for `d` (0 to 9).
pub open spec fn digit_char(d: int) -> char {
    if d == 0 {
        '0'
    } else if d == 1 {
        '1'
    } else if d == 2 {
        '2'
    } else if d == 3 {
        '3'
    } else if d == 4 {
        '4'
    } else if d == 5 {
        '5'
    } else if d == 6 {
        '6'
    } else if d == 7 {
        '7'
    } else if d == 8 {
        '8'
    } else {
        '9'
    }
}

pub open spec fn is_ascii_digit(c: char) -> bool {
    48 <= (c as u32) <= 57
}

pub open spec fn digit_value(c: char) -> int {
    (c as u32) - 48
}

/// The decimal representation of `n`, without sign or leading zeros (`n.to_string()`).
pub open spec fn decimal(n: nat) -> Seq<char>
    decreases n,
{
    if n < 10 {
        seq![digit_char(n as int)]
    } else {
        decimal(n / 10).push(digit_char((n % 10) as int))
    }
}

/// The number a string of decimal digits denotes.
pub open spec fn digits_value(s: Seq<char>) -> int
    decreases s.len(),
{
    if s.len() == 0 {
        0
    } else {
        digits_value(s.drop_last()) * 10 + digit_value(s.last())
    }
}

pub open spec fn all_digits(s: Seq<char>) -> bool {
    forall|i: int| 0 <= i < s.len() ==> is_ascii_digit(#[trigger] s[i])
}

/// What `str::parse::<u32>` accepts: an optional `+`, then one or more ASCII digits, of a value
/// that fits in a `u32`.
pub open spec fn parse_u32_spec(s: Seq<char>) -> Option<u32> {
    let d = if s.len() > 0 && s[0] == '+' {
        s.drop_first()
    } else {
        s
    };
    if d.len() > 0 && all_digits(d) && digits_value(d) <= u32::MAX {
        Some(digits_value(d) as u32)
    } else {
        None
    }
}

fn digit_to_char(d: u32) -> (c: char)
    requires
        d < 10,
    ensures
        c == digit_char(d as int),
        is_ascii_digit(c),
        digit_value(c) == d,
{
    if d == 0 {
        '0'
    } else if d == 1 {
        '1'
    } else if d == 2 {
        '2'
    } else if d == 3 {
        '3'
    } else if d == 4 {
        '4'
    } else if d == 5 {
        '5'
    } else if d == 6 {
        '6'
    } else if d == 7 {
        '7'
    } else if d == 8 {
        '8'
    } else {
        '9'
    }
}

/// `n.to_string()` as characters.
pub fn decimal_chars(n: u32) -> (r: Vec<char>)
    ensures
        r@ == decimal(n as nat),
    decreases n,
{
    if n < 10 {
        let mut r: Vec<char> = Vec::new();
        r.push(digit_to_char(n));
        assert(r@ == seq![digit_char(n as int)]);
        r
    } else {
        let mut r = decimal_chars(n / 10);
        r.push(digit_to_char(n % 10));
        r
    }
}

/// `n.to_string()`.
pub fn u32_to_string(n: u32) -> (r: String)
    ensures
        r@ == decimal(n as nat),
{
    let cs = decimal_chars(n);
    string_from_chars(cs.as_slice())
}

/// `str::parse::<u32>` on characters.
pub fn parse_u32(s: &[char]) -> (r: Option<u32>)
    ensures
        r == parse_u32_spec(s@),
{
    let n = s.len();
    let start: usize = if n > 0 && s[0] == '+' {
        1
    } else {
        0
    };
    let ghost d = if s@.len() > 0 && s@[0] == '+' {
        s@.drop_first()
    } else {
        s@
    };
    assert(d =~= s@.skip(start as int));
    if start == n {
        return None;
    }
    let cap: u64 = 0x1_0000_0000;
    let mut acc: u64 = 0;
    let mut i = start;
    while i < n
        invariant
            n == s@.len(),
            start <= i <= n,
            d =~= s@.skip(start as int),
            d == (if s@.len() > 0 && s@[0] == '+' {
                s@.drop_first()
            } else {
                s@
            }),
            cap == 0x1_0000_0000,
            forall|j: int| start <= j < i ==> is_ascii_digit(s@[j]),
            acc <= cap,
            acc as int == if digits_value(s@.subrange(start as int, i as int)) < cap {
                digits_value(s@.subrange(start as int, i as int))
            } else {
                cap as int
            },
        decreases n - i,
    {
        let c = s[i];
        let u = c as u32;
        if u < 48 || u > 57 {
            assert(d[i - start] == s@[i as int]);
            assert(!is_ascii_digit(d[i - start]));
            assert(!all_digits(d));
            return None;
        }
        let ghost pre = s@.subrange(start as int, i as int);
        assert(s@.subrange(start as int, i + 1).drop_last() =~= pre);
        let next = acc * 10 + (u - 48) as u64;
        acc = if next < cap { next } else { cap };
        i += 1;
    }
    assert(s@.subrange(start as int, n as int) =~= d);
    assert(all_digits(d));
    if acc < cap {
        Some(acc as u32)
    } else {
        None
    }
}

proof fn lemma_digit_char(d: int)
    requires
        0 <= d < 10,
    ensures
        is_ascii_digit(digit_char(d)),
        digit_value(digit_char(d)) == d,
{
    assert('0' as u32 == 48);
    assert('9' as u32 == 57);
}

proof fn lemma_decimal_digits(n: nat)
    ensures
        decimal(n).len() > 0,
        all_digits(decimal(n)),
        digits_value(decimal(n)) == n,
        decimal(n)[0] != '+',
    decreases n,
{
    lemma_digit_char((n % 10) as int);
    if n < 10 {
        let s = decimal(n);
        assert(s.drop_last() =~= Seq::<char>::empty());
        assert(digits_value(s) == digits_value(s.drop_last()) * 10 + digit_value(s.last()));
    } else {
        lemma_decimal_digits(n / 10);
        let s = decimal(n);
        assert(s.drop_last() =~= decimal(n / 10));
        assert(digits_value(s) == digits_value(s.drop_last()) * 10 + digit_value(s.last()));
        assert forall|i: int| 0 <= i < s.len() implies is_ascii_digit(#[trigger] s[i]) by {
            if i < s.len() - 1 {
                assert(s[i] == decimal(n / 10)[i]);
            }
        }
    }
}

/// Reading back a written number: `n.to_string().parse::<u32>()` is `n`.
pub proof fn lemma_parse_decimal(n: u32)
    ensures
        parse_u32_spec(decimal(n as nat)) == Some(n),
{
    lemma_decimal_digits(n as nat);
}

/// A decimal representation holds only digits, so no whitespace, quote or line break.
pub proof fn lemma_decimal_plain(n: nat)
    ensures
        decimal(n).len() > 0,
        forall|i: int| 0 <= i < decimal(n).len() ==> is_ascii_digit(#[trigger] decimal(n)[i]),
{
    lemma_decimal_digits(n);
}


// ---------------------------------------------------------------------------
// Facts about searching, used by the laws of the settings file

/// An occurrence with none before it is what `find_seq` reports.
pub proof fn lemma_find_seq_is(s: Seq<char>, p: Seq<char>, i: int)
    requires
        occurs_at(s, p, i),
        forall|j: int| 0 <= j < i ==> !#[trigger] occurs_at(s, p, j),
    ensures
        find_seq(s, p) == Some(i),
{
    lemma_find_seq(s, p);
    match find_seq(s, p) {
        Some(k) => {
            if k > i {
                assert(!occurs_at(s, p, i));
            }
        },
        None => {
            assert(!occurs_at(s, p, i));
        },
    }
}

/// With no line break in `s[k..m]`, the line that goes on at `k` ends where the one at `m` does.
pub proof fn lemma_line_end_skip(s: Seq<char>, k: int, m: int)
    requires
        0 <= k <= m <= s.len(),
        forall|j: int| k <= j < m ==> s[j] != '\n',
    ensures
        line_end(s, k) == line_end(s, m),
    decreases m - k,
{
    if k < m {
        lemma_line_end_skip(s, k + 1, m);
    }
}

/// Two texts that agree up to `n` agree on a line end found before `n`.
pub proof fn lemma_line_end_prefix(s1: Seq<char>, s2: Seq<char>, n: int, k: int)
    requires
        0 <= k <= n <= s1.len(),
        n <= s2.len(),
        s1.take(n) == s2.take(n),
        line_end(s1, k) < n,
    ensures
        line_end(s2, k) == line_end(s1, k),
    decreases n - k,
{
    lemma_line_end(s1, k);
    assert(s1[k] == s1.take(n)[k]);
    assert(s2[k] == s2.take(n)[k]);
    if s1[k] != '\n' {
        lemma_line_end_prefix(s1, s2, n, k + 1);
    }
}

/// Two texts whose tails agree agree on line ends in those tails, up to the shift.
pub proof fn lemma_line_end_shift(s1: Seq<char>, s2: Seq<char>, a1: int, a2: int, t: int)
    requires
        0 <= a1 <= s1.len(),
        0 <= a2 <= s2.len(),
        s1.skip(a1) == s2.skip(a2),
        0 <= t,
        a1 + t <= s1.len(),
    ensures
        line_end(s2, a2 + t) == line_end(s1, a1 + t) + (a2 - a1),
    decreases s1.len() - (a1 + t),
{
    let t1 = s1.skip(a1);
    let t2 = s2.skip(a2);
    assert(t1.len() == s1.len() - a1);
    assert(t2.len() == s2.len() - a2);
    assert(s1.len() - a1 == s2.len() - a2);
    if a1 + t < s1.len() {
        assert(s1[a1 + t] == s1.skip(a1)[t]);
        assert(s2[a2 + t] == s2.skip(a2)[t]);
        if s1[a1 + t] != '\n' {
            lemma_line_end_shift(s1, s2, a1, a2, t + 1);
        }
    }
}

/// `s[a..b]` replaced by `v`.
pub open spec fn splice(s: Seq<char>, a: int, b: int, v: Seq<char>) -> Seq<char> {
    s.take(a) + v + s.skip(b)
}

/// An occurrence that ends before the replaced part is unaffected.
pub proof fn lemma_splice_occurs_before(s: Seq<char>, a: int, b: int, v: Seq<char>, p: Seq<char>, q: int)
    requires
        0 <= a <= b <= s.len(),
        0 <= q,
        q + p.len() <= a,
    ensures
        occurs_at(splice(s, a, b, v), p, q) == occurs_at(s, p, q),
{
    let s2 = splice(s, a, b, v);
    assert(s2.subrange(q, q + p.len()) =~= s.subrange(q, q + p.len()));
}

/// An occurrence that starts after the replaced part moves with it.
pub proof fn lemma_splice_occurs_after(s: Seq<char>, a: int, b: int, v: Seq<char>, p: Seq<char>, q: int)
    requires
        0 <= a <= b <= s.len(),
        b <= q,
    ensures
        occurs_at(splice(s, a, b, v), p, q + a + v.len() - b) == occurs_at(s, p, q),
{
    let s2 = splice(s, a, b, v);
    let q2 = q + a + v.len() - b;
    if q + p.len() <= s.len() {
        assert(s2.subrange(q2, q2 + p.len()) =~= s.subrange(q, q + p.len()));
    }
}

/// No character of `p` is an ASCII digit.
pub open spec fn has_no_digit(p: Seq<char>) -> bool {
    forall|i: int| 0 <= i < p.len() ==> !is_ascii_digit(#[trigger] p[i])
}

/// A digit-free pattern cannot overlap a run of digits.
pub proof fn lemma_splice_no_occurrence_across_digits(
    s: Seq<char>,
    a: int,
    b: int,
    v: Seq<char>,
    p: Seq<char>,
    q: int,
)
    requires
        0 <= a <= b <= s.len(),
        v.len() > 0,
        all_digits(v),
        has_no_digit(p),
        p.len() > 0,
        0 <= q < a + v.len(),
        q + p.len() > a,
    ensures
        !occurs_at(splice(s, a, b, v), p, q),
{
    let s2 = splice(s, a, b, v);
    let t = if q < a {
        a
    } else {
        q
    };
    if occurs_at(s2, p, q) {
        assert(0 <= t - q < p.len());
        assert(s2[t] == v[t - a]);
        assert(is_ascii_digit(v[t - a]));
        assert(s2.subrange(q, q + p.len())[t - q] == p[t - q]);
        assert(!is_ascii_digit(p[t - q]));
    }
}

/// Trimming leaves alone a string that starts and ends with a kept character.
pub proof fn lemma_strip_noop<A>(s: Seq<A>, drop: spec_fn(A) -> bool)
    requires
        s.len() > 0,
        !drop(s[0]),
        !drop(s.last()),
    ensures
        strip_front(s, drop) == s,
        strip_back(s, drop) == s,
{
}

/// A number written in decimal is its own trimmed value.
pub proof fn lemma_trim_decimal(n: nat)
    ensures
        trim_ws(decimal(n)) == decimal(n),
        trim_quotes(trim_ws(decimal(n))) == decimal(n),
{
    let d = decimal(n);
    lemma_decimal_plain(n);
    assert(is_ascii_digit(d[0]));
    assert(is_ascii_digit(d[d.len() - 1]));
    lemma_strip_noop(d, |c: char| is_unicode_whitespace(c));
    lemma_strip_noop(d, |c: char| c == '"');
}

} // verus!
