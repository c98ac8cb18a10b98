//! Recognising a running game process from what `/proc/<pid>` tells of it.
//!
//! A process is the game's when its `comm`, the first argument of its `cmdline`, the `Name:` of
//! its `status`, or the file name of its `exe` link names `S4.exe` or `S4_Main.exe`. The caller
//! reads those files; this module decides.

use vstd::prelude::*;
use vstd::slice::slice_subrange;
use vstd::string::StringExecFns;
use vstd::utf8::encode_utf8;
use crate::text::{
    all_digits, is_unicode_whitespace, is_whitespace, lemma_strip_back_take, lemma_strip_front_skip,
    str_chars, string_from_chars, strip_back, strip_front,
};

verus! {

/// Bytes trimmed from both ends of a process name: NUL, line feed, carriage return, space.
pub open spec fn is_name_trim_byte(b: u8) -> bool {
    b == 0u8 || b == 10u8 || b == 13u8 || b == 32u8
}

/// A raw process name with NUL, line break and space bytes trimmed from both ends, then
/// trailing dots removed.
pub open spec fn trimmed_name(raw: Seq<u8>) -> Seq<u8> {
    strip_back(
        strip_back(strip_front(raw, |b: u8| is_name_trim_byte(b)), |b: u8| is_name_trim_byte(b)),
        |b: u8| b == 46u8,
    )
}

/// A path component that names something: neither empty nor `.`.
pub open spec fn is_named_segment(seg: Seq<u8>) -> bool {
    seg.len() > 0 && seg != seq![46u8]
}

/// Scanning `t[..end]` backwards from `n`: the last `/`-separated segment that is neither empty
/// nor `.`.
pub open spec fn last_named_from(t: Seq<u8>, n: int, end: int) -> Option<Seq<u8>>
    decreases n,
{
    if n <= 0 {
        if is_named_segment(t.subrange(0, end)) {
            Some(t.subrange(0, end))
        } else {
            None
        }
    } else if t[n - 1] == 47u8 {
        if is_named_segment(t.subrange(n, end)) {
            Some(t.subrange(n, end))
        } else {
            last_named_from(t, n - 1, n - 1)
        }
    } else {
        last_named_from(t, n - 1, end)
    }
}

/// The file name of a path: its last segment that is neither empty nor `.`.
pub open spec fn final_component(t: Seq<u8>) -> Option<Seq<u8>> {
    last_named_from(t, t.len() as int, t.len() as int)
}

pub open spec fn ascii_lower(b: u8) -> u8 {
    if 65 <= b <= 90 {
        (b + 32) as u8
    } else {
        b
    }
}

/// Equal up to ASCII case (`eq_ignore_ascii_case`).
pub open spec fn eq_ignore_ascii_case(a: Seq<u8>, b: Seq<u8>) -> bool {
    a.len() == b.len() && forall|i: int| 0 <= i < a.len() ==> ascii_lower(#[trigger] a[i]) == ascii_lower(b[i])
}

/// `S4.exe`.
pub open spec fn s4_exe() -> Seq<u8> {
    seq![83u8, 52u8, 46u8, 101u8, 120u8, 101u8]
}

/// `S4_Main.exe`.
pub open spec fn s4_main_exe() -> Seq<u8> {
    seq![83u8, 52u8, 95u8, 77u8, 97u8, 105u8, 110u8, 46u8, 101u8, 120u8, 101u8]
}

/// A raw process name (or path) names the game: once trimmed, its file name is `S4.exe` or
/// `S4_Main.exe`, ignoring ASCII case.
pub open spec fn names_game_process(raw: Seq<u8>) -> bool {
    match final_component(trimmed_name(raw)) {
        Some(c) => eq_ignore_ascii_case(c, s4_exe()) || eq_ignore_ascii_case(c, s4_main_exe()),
        None => false,
    }
}

fn is_name_trim(b: u8) -> (r: bool)
    ensures
        r == is_name_trim_byte(b),
{
    b == 0 || b == 10 || b == 13 || b == 32
}

/// Bounds of the trimmed name inside `raw`.
fn trimmed_bounds(raw: &[u8]) -> (r: (usize, usize))
    ensures
        r.0 <= r.1 <= raw@.len(),
        raw@.subrange(r.0 as int, r.1 as int) == trimmed_name(raw@),
{
    let ghost tb = |b: u8| is_name_trim_byte(b);
    let ghost dot = |b: u8| b == 46u8;
    let n = raw.len();
    let mut a: usize = 0;
    while a < n && is_name_trim(raw[a])
        invariant
            n == raw@.len(),
            a <= n,
            forall|j: int| 0 <= j < a ==> is_name_trim_byte(raw@[j]),
        decreases n - a,
    {
        a += 1;
    }
    proof {
        lemma_strip_front_skip(raw@, tb, a as int);
        let t = raw@.skip(a as int);
        assert(t.len() == 0 || !tb(t[0]));
        assert(strip_front(t, tb) == t);
    }
    let mut b: usize = n;
    while b > a && is_name_trim(raw[b - 1])
        invariant
            n == raw@.len(),
            a <= b <= n,
            forall|j: int| b <= j < n ==> is_name_trim_byte(raw@[j]),
        decreases b,
    {
        b -= 1;
    }
    proof {
        let t = raw@.skip(a as int);
        lemma_strip_back_take(t, tb, b - a);
        let u = t.take(b - a);
        assert(u =~= raw@.subrange(a as int, b as int));
        assert(u.len() == 0 || !tb(u.last()));
    }
    let ghost mid = b;
    let mut c: usize = b;
    while c > a && raw[c - 1] == 46
        invariant
            n == raw@.len(),
            a <= c <= mid <= n,
            forall|j: int| c <= j < mid ==> raw@[j] == 46u8,
        decreases c,
    {
        c -= 1;
    }
    proof {
        let t = raw@.subrange(a as int, mid as int);
        lemma_strip_back_take(t, dot, c - a);
        let u = t.take(c - a);
        assert(u =~= raw@.subrange(a as int, c as int));
        assert(u.len() == 0 || !dot(u.last()));
    }
    (a, c)
}

fn is_named(t: &[u8], n: usize, end: usize) -> (r: bool)
    requires
        n <= end <= t@.len(),
    ensures
        r == is_named_segment(t@.subrange(n as int, end as int)),
{
    if end == n {
        return false;
    }
    let single_dot = end - n == 1 && t[n] == 46;
    proof {
        let seg = t@.subrange(n as int, end as int);
        if end - n == 1 {
            if t@[n as int] == 46u8 {
                assert(seg =~= seq![46u8]);
            } else {
                assert(seg[0] != seq![46u8][0]);
            }
        } else {
            assert(seg.len() != seq![46u8].len());
        }
    }
    !single_dot
}

/// Bounds of the file name of the path `t`, if it has one.
fn final_component_bounds(t: &[u8]) -> (r: Option<(usize, usize)>)
    ensures
        match r {
            Some((s, e)) => s <= e <= t@.len() && final_component(t@) == Some(
                t@.subrange(s as int, e as int),
            ),
            None => final_component(t@) is None,
        },
{
    let len = t.len();
    let mut n = len;
    let mut end = len;
    loop
        invariant
            len == t@.len(),
            n <= end <= len,
            final_component(t@) == last_named_from(t@, n as int, end as int),
        decreases n,
    {
        if n == 0 {
            if is_named(t, 0, end) {
                return Some((0, end));
            }
            return None;
        }
        if t[n - 1] == 47 {
            if is_named(t, n, end) {
                return Some((n, end));
            }
            end = n - 1;
            n = n - 1;
        } else {
            n = n - 1;
        }
    }
}

fn ascii_lower_byte(b: u8) -> (r: u8)
    ensures
        r == ascii_lower(b),
{
    if 65 <= b && b <= 90 {
        b + 32
    } else {
        b
    }
}

fn eq_ignore_case_at(t: &[u8], s: usize, e: usize, target: &[u8]) -> (r: bool)
    requires
        s <= e <= t@.len(),
    ensures
        r == eq_ignore_ascii_case(t@.subrange(s as int, e as int), target@),
{
    if e - s != target.len() {
        return false;
    }
    let mut i: usize = 0;
    while i < target.len()
        invariant
            s <= e <= t@.len(),
            e - s == target@.len(),
            i <= target@.len(),
            forall|j: int| 0 <= j < i ==> ascii_lower(t@[s + j]) == ascii_lower(target@[j]),
        decreases target@.len() - i,
    {
        if ascii_lower_byte(t[s + i]) != ascii_lower_byte(target[i]) {
            assert(t@.subrange(s as int, e as int)[i as int] == t@[s + i]);
            return false;
        }
        i += 1;
    }
    assert forall|j: int| 0 <= j < target@.len() implies ascii_lower(
        #[trigger] t@.subrange(s as int, e as int)[j],
    ) == ascii_lower(target@[j]) by {
        assert(t@.subrange(s as int, e as int)[j] == t@[s + j]);
    }
    true
}

/// Whether a raw process name or path names the game (see [`names_game_process`]).
pub fn is_matching_process_name(name: &[u8]) -> (r: bool)
    ensures
        r == names_game_process(name@),
{
    let (a, b) = trimmed_bounds(name);
    let t = slice_subrange(name, a, b);
    match final_component_bounds(t) {
        Some((s, e)) => {
            let exe: [u8; 6] = [83, 52, 46, 101, 120, 101];
            let main_exe: [u8; 11] = [83, 52, 95, 77, 97, 105, 110, 46, 101, 120, 101];
            assert(exe@ =~= s4_exe());
            assert(main_exe@ =~= s4_main_exe());
            eq_ignore_case_at(t, s, e, exe.as_slice()) || eq_ignore_case_at(
                t,
                s,
                e,
                main_exe.as_slice(),
            )
        },
        None => false,
    }
}

// ---------------------------------------------------------------------------
// The other sources of a process name

/// Index of the first NUL byte at or after `k`, or the length.
pub open spec fn nul_index(c: Seq<u8>, k: int) -> int
    decreases c.len() - k,
{
    if k < 0 || k >= c.len() {
        c.len() as int
    } else if c[k] == 0u8 {
        k
    } else {
        nul_index(c, k + 1)
    }
}

/// The first NUL-separated field of a command line: the program as it was invoked.
pub open spec fn first_argument(cmdline: Seq<u8>) -> Seq<u8> {
    cmdline.take(nul_index(cmdline, 0))
}

fn first_argument_end(c: &[u8]) -> (r: usize)
    ensures
        r as int == nul_index(c@, 0),
        r <= c@.len(),
{
    let n = c.len();
    let mut i: usize = 0;
    while i < n
        invariant
            n == c@.len(),
            i <= n,
            nul_index(c@, 0) == nul_index(c@, i as int),
        decreases n - i,
    {
        if c[i] == 0 {
            return i;
        }
        i += 1;
    }
    i
}

/// `i` starts a line of `s`.
pub open spec fn is_line_start(s: Seq<char>, i: int) -> bool {
    i == 0 || (0 < i <= s.len() && s[i - 1] == '\n')
}

/// Start of the first line at or after `i` that begins with `Name:`.
pub open spec fn name_line_from(s: Seq<char>, i: int) -> Option<int>
    decreases s.len() + 1 - i,
{
    if i < 0 || i > s.len() {
        None
    } else if is_line_start(s, i) && crate::text::occurs_at(s, "Name:"@, i) {
        Some(i)
    } else {
        name_line_from(s, i + 1)
    }
}

/// Length of the leading run of non-whitespace characters.
pub open spec fn word_len(s: Seq<char>) -> int
    decreases s.len(),
{
    if s.len() > 0 && !is_unicode_whitespace(s[0]) {
        1 + word_len(s.drop_first())
    } else {
        0
    }
}

/// The second whitespace-separated word of a line.
pub open spec fn second_word(line: Seq<char>) -> Option<Seq<char>> {
    let a = strip_front(line, |c: char| is_unicode_whitespace(c));
    if a.len() == 0 {
        None
    } else {
        let b = strip_front(a.skip(word_len(a)), |c: char| is_unicode_whitespace(c));
        if b.len() == 0 {
            None
        } else {
            Some(b.take(word_len(b)))
        }
    }
}

/// The process name a `status` file gives: the second word of its first line that begins with
/// `Name:`.
pub open spec fn status_process_name(status: Seq<char>) -> Option<Seq<char>> {
    match name_line_from(status, 0) {
        Some(i) => second_word(status.subrange(i, crate::text::line_end(status, i))),
        None => None,
    }
}

proof fn lemma_word_len(s: Seq<char>)
    ensures
        0 <= word_len(s) <= s.len(),
        forall|j: int| 0 <= j < word_len(s) ==> !is_unicode_whitespace(#[trigger] s[j]),
        word_len(s) < s.len() ==> is_unicode_whitespace(s[word_len(s)]),
    decreases s.len(),
{
    if s.len() > 0 && !is_unicode_whitespace(s[0]) {
        lemma_word_len(s.drop_first());
        assert forall|j: int| 0 <= j < word_len(s) implies !is_unicode_whitespace(#[trigger] s[j]) by {
            if j > 0 {
                assert(s[j] == s.drop_first()[j - 1]);
            }
        }
    }
}

proof fn lemma_word_len_from(s: Seq<char>, k: int)
    requires
        0 <= k <= s.len(),
        forall|j: int| 0 <= j < k ==> !is_unicode_whitespace(#[trigger] s[j]),
    ensures
        word_len(s) == k + word_len(s.skip(k)),
    decreases k,
{
    if k > 0 {
        assert(s.drop_first().skip(k - 1) =~= s.skip(k));
        lemma_word_len_from(s.drop_first(), k - 1);
    } else {
        assert(s.skip(0) =~= s);
    }
}

/// Index of the first non-whitespace character of `s` at or after `k`.
fn skip_ws(s: &[char], k: usize) -> (r: usize)
    requires
        k <= s@.len(),
    ensures
        k <= r <= s@.len(),
        strip_front(s@.skip(k as int), |c: char| is_unicode_whitespace(c)) == s@.skip(r as int),
{
    let ghost ws = |c: char| is_unicode_whitespace(c);
    let n = s.len();
    let mut i = k;
    while i < n && is_whitespace(s[i])
        invariant
            n == s@.len(),
            k <= i <= n,
            forall|j: int| k <= j < i ==> is_unicode_whitespace(s@[j]),
        decreases n - i,
    {
        i += 1;
    }
    proof {
        let t = s@.skip(k as int);
        assert forall|j: int| 0 <= j < i - k implies ws(t[j]) by {
            assert(t[j] == s@[k + j]);
        }
        lemma_strip_front_skip(t, ws, i - k);
        assert(t.skip(i - k) =~= s@.skip(i as int));
        let u = s@.skip(i as int);
        assert(u.len() == 0 || !ws(u[0]));
    }
    i
}

/// Index just past the run of non-whitespace characters of `s` starting at `k`.
fn skip_word(s: &[char], k: usize) -> (r: usize)
    requires
        k <= s@.len(),
    ensures
        r == k + word_len(s@.skip(k as int)),
        r <= s@.len(),
{
    let n = s.len();
    let mut i = k;
    while i < n && !is_whitespace(s[i])
        invariant
            n == s@.len(),
            k <= i <= n,
            forall|j: int| k <= j < i ==> !is_unicode_whitespace(#[trigger] s@[j]),
        decreases n - i,
    {
        i += 1;
    }
    proof {
        let t = s@.skip(k as int);
        assert forall|j: int| 0 <= j < i - k implies !is_unicode_whitespace(#[trigger] t[j]) by {
            assert(t[j] == s@[k + j]);
        }
        lemma_word_len_from(t, i - k);
        let u = t.skip(i - k);
        assert(u =~= s@.skip(i as int));
        if i < n {
            assert(u[0] == s@[i as int]);
        }
        assert(word_len(u) == 0);
    }
    i
}

/// The second whitespace-separated word of `line` (see [`second_word`]).
fn second_word_of(line: &[char]) -> (r: Option<Vec<char>>)
    ensures
        match r {
            Some(w) => second_word(line@) == Some(w@),
            None => second_word(line@) is None,
        },
{
    let n = line.len();
    assert(line@.skip(0) =~= line@);
    let a = skip_ws(line, 0);
    if a == n {
        return None;
    }
    let w_end = skip_word(line, a);
    proof {
        lemma_word_len(line@.skip(a as int));
        assert(line@.skip(a as int).skip(w_end - a) =~= line@.skip(w_end as int));
    }
    let b = skip_ws(line, w_end);
    if b == n {
        return None;
    }
    let e = skip_word(line, b);
    proof {
        lemma_word_len(line@.skip(b as int));
        assert(line@.skip(b as int).take(e - b) =~= line@.subrange(b as int, e as int));
    }
    Some(crate::text::slice_range(line, b, e))
}

/// The process name a `status` text gives (see [`status_process_name`]).
pub fn status_name(status: &str) -> (r: Option<String>)
    ensures
        match r {
            Some(nm) => status_process_name(status@) == Some(nm@),
            None => status_process_name(status@) is None,
        },
{
    let s = str_chars(status);
    let n = s.len();
    let prefix = str_chars("Name:");
    let mut i: usize = 0;
    loop
        invariant
            n == s@.len(),
            s@ == status@,
            prefix@ == "Name:"@,
            i <= n,
            name_line_from(s@, 0) == name_line_from(s@, i as int),
        decreases n - i,
    {
        let line_start = i == 0 || s[i - 1] == '\n';
        if line_start && prefix.len() <= n - i && crate::text::matches_at(
            s.as_slice(),
            prefix.as_slice(),
            i,
        ) {
            let le = crate::text::find_line_end(s.as_slice(), i);
            proof {
                crate::text::lemma_line_end(s@, i as int);
                assert(is_line_start(s@, i as int));
                assert(crate::text::occurs_at(s@, "Name:"@, i as int));
                assert(name_line_from(s@, i as int) == Some(i as int));
            }
            let line = crate::text::slice_range(s.as_slice(), i, le);
            return match second_word_of(line.as_slice()) {
                Some(w) => Some(string_from_chars(w.as_slice())),
                None => None,
            };
        }
        if i == n {
            proof {
                reveal_strlit("Name:");
                assert(!crate::text::occurs_at(s@, "Name:"@, n as int));
                assert(name_line_from(s@, n as int) == name_line_from(s@, n + 1));
                assert(name_line_from(s@, n + 1) is None);
            }
            return None;
        }
        i += 1;
    }
}

/// Everything `/proc/<pid>` told of one process; `None` where a file could not be read.
pub struct ProcessEntry {
    /// The entry's name in `/proc` (lossily decoded).
    pub dir_name: String,
    /// Contents of `comm`.
    pub comm: Option<Vec<u8>>,
    /// Contents of `cmdline`.
    pub cmdline: Option<Vec<u8>>,
    /// Contents of `status`.
    pub status: Option<String>,
    /// File name of the target of the `exe` link, when it is valid UTF-8.
    pub exe_file_name: Option<String>,
}

/// The entry is a process (its name is all ASCII digits) and one of its four sources of a name
/// names the game.
pub open spec fn entry_is_game(e: ProcessEntry) -> bool {
    &&& all_digits(e.dir_name@)
    &&& {
        ||| (e.comm matches Some(c) && names_game_process(c@))
        ||| (e.cmdline matches Some(c) && names_game_process(first_argument(c@)))
        ||| (e.status matches Some(st) && match status_process_name(st@) {
            Some(nm) => names_game_process(encode_utf8(nm)),
            None => false,
        })
        ||| (e.exe_file_name matches Some(x) && names_game_process(encode_utf8(x@)))
    }
}

fn is_process_dir_name(name: &str) -> (r: bool)
    ensures
        r == all_digits(name@),
{
    let cs = str_chars(name);
    let n = cs.len();
    let mut i: usize = 0;
    while i < n
        invariant
            n == cs@.len(),
            cs@ == name@,
            i <= n,
            forall|j: int| 0 <= j < i ==> crate::text::is_ascii_digit(#[trigger] cs@[j]),
        decreases n - i,
    {
        let u = cs[i] as u32;
        if u < 48 || u > 57 {
            return false;
        }
        i += 1;
    }
    true
}

/// Whether one `/proc` entry is the game (see [`entry_is_game`]).
pub fn process_entry_is_game(e: &ProcessEntry) -> (r: bool)
    ensures
        r == entry_is_game(*e),
        !all_digits(e.dir_name@) ==> !r,
        all_digits(e.dir_name@) && (e.comm matches Some(c) && names_game_process(c@)) ==> r,
        all_digits(e.dir_name@) && (e.cmdline matches Some(c) && names_game_process(
            first_argument(c@),
        )) ==> r,
        all_digits(e.dir_name@) && (e.status matches Some(st) && status_process_name(st@) matches Some(
            nm,
        ) && names_game_process(encode_utf8(nm))) ==> r,
        all_digits(e.dir_name@) && (e.exe_file_name matches Some(x) && names_game_process(
            encode_utf8(x@),
        )) ==> r,
        r ==> (e.comm matches Some(c) && names_game_process(c@)) || (e.cmdline matches Some(c)
            && names_game_process(first_argument(c@))) || (e.status matches Some(st)
            && status_process_name(st@) matches Some(nm) && names_game_process(encode_utf8(nm)))
            || (e.exe_file_name matches Some(x) && names_game_process(encode_utf8(x@))),
{
    if !is_process_dir_name(e.dir_name.as_str()) {
        return false;
    }
    if let Some(c) = &e.comm {
        if is_matching_process_name(c.as_slice()) {
            return true;
        }
    }
    if let Some(c) = &e.cmdline {
        let end = first_argument_end(c.as_slice());
        let first = slice_subrange(c.as_slice(), 0, end);
        assert(first@ == first_argument(c@));
        if is_matching_process_name(first) {
            return true;
        }
    }
    if let Some(st) = &e.status {
        if let Some(nm) = status_name(st.as_str()) {
            if is_matching_process_name(nm.as_str().as_bytes()) {
                return true;
            }
        }
    }
    if let Some(x) = &e.exe_file_name {
        if is_matching_process_name(x.as_str().as_bytes()) {
            return true;
        }
    }
    false
}

/// Each of the four sources of a name is enough on its own, whatever the others hold: a process
/// entry is the game when its name is all digits and its `comm`, the first argument of its
/// `cmdline`, the name on its `status` line or its `exe` link names the game; and only then.
pub proof fn lemma_each_source_suffices(e: ProcessEntry)
    ensures
        entry_is_game(e) <==> all_digits(e.dir_name@) && (
        (e.comm matches Some(c) && names_game_process(c@))
        || (e.cmdline matches Some(c) && names_game_process(first_argument(c@)))
        || (e.status matches Some(st) && status_process_name(st@) matches Some(nm)
            && names_game_process(encode_utf8(nm)))
        || (e.exe_file_name matches Some(x) && names_game_process(encode_utf8(x@)))),
{
}

/// Whether the game runs, judged from the entries of `/proc`.
pub fn is_game_running(entries: &[ProcessEntry]) -> (r: bool)
    ensures
        r == exists|i: int| 0 <= i < entries@.len() && entry_is_game(#[trigger] entries@[i]),
{
    let n = entries.len();
    let mut i: usize = 0;
    while i < n
        invariant
            n == entries@.len(),
            i <= n,
            forall|j: int| 0 <= j < i ==> !entry_is_game(#[trigger] entries@[j]),
        decreases n - i,
    {
        if process_entry_is_game(&entries[i]) {
            return true;
        }
        i += 1;
    }
    false
}

} // verus!
