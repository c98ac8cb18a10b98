//! Laws of the settings file: what a read gives back after a write.

use vstd::prelude::*;
use crate::ini_handler::{
    extract_spec, key_pattern, read_resolution_spec, resolution_updates, update_all_spec, updates_view,
    update_one_spec,
};
use crate::text::{
    all_digits, decimal, lemma_line_end_prefix, lemma_splice_no_occurrence_across_digits,
    lemma_splice_occurs_after, find_seq, has_no_digit, lemma_decimal_plain, lemma_find_seq, lemma_find_seq_is,
    lemma_last_index_before, lemma_line_end, lemma_line_end_shift, lemma_line_end_skip,
    lemma_parse_decimal, lemma_splice_occurs_before, lemma_trim_decimal, line_end, occurs_at,
    parse_u32_spec, rfind_char_spec, splice, trim_quotes, trim_ws, is_ascii_digit, last_index_before,
};

verus! {

/// A key as the settings file uses them: not empty, with no space and no `=`.
pub open spec fn is_plain_key(k: Seq<char>) -> bool {
    k.len() > 0 && forall|i: int| 0 <= i < k.len() ==> #[trigger] k[i] != ' ' && k[i] != '='
}

pub open spec fn has_no_newline(v: Seq<char>) -> bool {
    forall|i: int| 0 <= i < v.len() ==> #[trigger] v[i] != '\n'
}

/// `t` is a suffix of `s`.
pub open spec fn ends_with(s: Seq<char>, t: Seq<char>) -> bool {
    t.len() <= s.len() && s.subrange(s.len() - t.len(), s.len() as int) == t
}

/// The one case in which setting a key does not make it readable: the key is absent, and the
/// text before the last `}` ends with the key's pattern minus its final space, so that the added
/// line completes an earlier, garbled occurrence of the pattern.
pub open spec fn insertion_completes_pattern(c: Seq<char>, k: Seq<char>) -> bool {
    find_seq(c, key_pattern(k)) is None && match rfind_char_spec(c, '}') {
        Some(b) => ends_with(c.take(b), key_pattern(k).drop_last()),
        None => false,
    }
}

proof fn lemma_pattern_shape(k: Seq<char>)
    requires
        is_plain_key(k),
    ensures
        key_pattern(k).len() == k.len() + 7,
        key_pattern(k)[key_pattern(k).len() - 2] == '=',
        key_pattern(k)[0] == ' ',
        key_pattern(k)[key_pattern(k).len() - 1] == ' ',
        forall|y: int| 0 <= y < key_pattern(k).len() - 2 ==> #[trigger] key_pattern(k)[y] != '=',
{
    reveal_strlit("    ");
    reveal_strlit(" = ");
    let p = key_pattern(k);
    assert forall|y: int| 0 <= y < p.len() - 2 implies #[trigger] p[y] != '=' by {
        if 4 <= y < 4 + k.len() {
            assert(p[y] == k[y - 4]);
        }
    }
}

/// After the key's value is replaced in place, the key reads back the new value.
proof fn lemma_extract_after_replace(c: Seq<char>, k: Seq<char>, v: Seq<char>)
    requires
        find_seq(c, key_pattern(k)) is Some,
        has_no_newline(v),
    ensures
        ({
            let i = find_seq(c, key_pattern(k))->0;
            let vs = i + key_pattern(k).len();
            let c2 = update_one_spec(c, k, v)->0;
            &&& update_one_spec(c, k, v) is Some
            &&& find_seq(c2, key_pattern(k)) == Some(i)
            &&& line_end(c2, vs) == vs + v.len()
            &&& c2.subrange(vs, vs + v.len()) == v
            &&& extract_spec(c2, k) == Some(trim_quotes(trim_ws(v)))
        }),
{
    let p = key_pattern(k);
    lemma_find_seq(c, p);
    let i = find_seq(c, p)->0;
    let vs = i + p.len();
    lemma_line_end(c, vs);
    let le = line_end(c, vs);
    let c2 = splice(c, vs, le, v);
    assert(update_one_spec(c, k, v) == Some(c2));
    lemma_splice_occurs_before(c, vs, le, v, p, i);
    assert forall|j: int| 0 <= j < i implies !#[trigger] occurs_at(c2, p, j) by {
        lemma_splice_occurs_before(c, vs, le, v, p, j);
    }
    lemma_find_seq_is(c2, p, i);
    assert forall|j: int| vs <= j < vs + v.len() implies c2[j] != '\n' by {
        assert(c2[j] == v[j - vs]);
    }
    lemma_line_end_skip(c2, vs, vs + v.len());
    assert(c2.skip(vs + v.len()) =~= c.skip(le));
    lemma_line_end_shift(c, c2, le, vs + v.len(), 0);
    assert(line_end(c, le) == le);
    assert(c2.subrange(vs, vs + v.len()) =~= v);
}

/// Adding a key's line before the last `}`: the pattern then first occurs at the start of the added
/// line, whose value is `v`.
proof fn lemma_insert_reads_back(c: Seq<char>, k: Seq<char>, v: Seq<char>)
    requires
        is_plain_key(k),
        has_no_newline(v),
        find_seq(c, key_pattern(k)) is None,
        rfind_char_spec(c, '}') is Some,
        !insertion_completes_pattern(c, k),
    ensures
        ({
            let p = key_pattern(k);
            let b = rfind_char_spec(c, '}')->0;
            let c2 = update_one_spec(c, k, v)->0;
            &&& update_one_spec(c, k, v) is Some
            &&& c2 == splice(c, b, b, p + v + "\n"@)
            &&& find_seq(c2, p) == Some(b)
            &&& line_end(c2, b + p.len()) == b + p.len() + v.len()
            &&& c2.subrange(b + p.len(), b + p.len() + v.len()) == v
        }),
{
    let p = key_pattern(k);
    lemma_find_seq(c, p);
    lemma_pattern_shape(k);
    lemma_last_index_before(c, '}', c.len() as int);
    let b = rfind_char_spec(c, '}')->0;
    let ins = p + v + "\n"@;
    let c2 = splice(c, b, b, ins);
    assert(update_one_spec(c, k, v)->0 =~= c2);
    let vs = b + p.len();
    // the pattern occurs where the line was added
    assert(c2.subrange(b, b + p.len()) =~= p);
    // and nowhere before it
    assert forall|j: int| 0 <= j < b implies !#[trigger] occurs_at(c2, p, j) by {
        if j + p.len() <= b {
            lemma_splice_occurs_before(c, b, b, ins, p, j);
        } else if occurs_at(c2, p, j) {
            let m = b - j;
            if m <= p.len() - 2 {
                let x = p.len() - 2;
                assert(c2.subrange(j, j + p.len())[x] == p[x]);
                assert(c2[j + x] == ins[j + x - b]);
                assert(ins[j + x - b] == p[x - m]);
                assert(p[x - m] != '=');
            } else {
                assert(m == p.len() - 1);
                let pre = c.take(b);
                assert(pre.subrange(pre.len() - p.drop_last().len(), pre.len() as int)
                    =~= p.drop_last()) by {
                    assert forall|t: int| 0 <= t < p.len() - 1 implies pre.subrange(
                        pre.len() - p.drop_last().len(),
                        pre.len() as int,
                    )[t] == p.drop_last()[t] by {
                        assert(c2.subrange(j, j + p.len())[t] == p[t]);
                        assert(c2[j + t] == c[j + t]);
                    }
                }
            }
        }
    }
    lemma_find_seq_is(c2, p, b);
    assert forall|j: int| vs <= j < vs + v.len() implies c2[j] != '\n' by {
        assert(c2[j] == v[j - vs]);
    }
    lemma_line_end_skip(c2, vs, vs + v.len());
    reveal_strlit("\n");
    assert(ins[(p.len() + v.len()) as int] == '\n');
    assert(c2[vs + v.len()] == ins[(p.len() + v.len()) as int]);
    assert(line_end(c2, vs + v.len()) == vs + v.len());
    assert(c2.subrange(vs, vs + v.len()) =~= v);
}

/// Setting a key makes it read back the value set (trimmed as every read is), unless the key had
/// to be added and its new line completes a pattern begun just before the last `}`.
pub proof fn lemma_extract_after_update(c: Seq<char>, k: Seq<char>, v: Seq<char>)
    requires
        is_plain_key(k),
        has_no_newline(v),
        update_one_spec(c, k, v) is Some,
        !insertion_completes_pattern(c, k),
    ensures
        extract_spec(update_one_spec(c, k, v)->0, k) == Some(trim_quotes(trim_ws(v))),
{
    let p = key_pattern(k);
    lemma_find_seq(c, p);
    if find_seq(c, p) is Some {
        lemma_extract_after_replace(c, k, v);
    } else {
        lemma_insert_reads_back(c, k, v);
    }
}

// ---------------------------------------------------------------------------
// Where each key's line stands

pub open spec fn has_key(c: Seq<char>, k: Seq<char>) -> bool {
    find_seq(c, key_pattern(k)) is Some
}

/// Where the first occurrence of `k`'s pattern starts.
pub open spec fn key_start(c: Seq<char>, k: Seq<char>) -> int {
    match find_seq(c, key_pattern(k)) {
        Some(i) => i,
        None => 0,
    }
}

/// Where `k`'s value starts.
pub open spec fn value_start(c: Seq<char>, k: Seq<char>) -> int {
    key_start(c, k) + key_pattern(k).len()
}

/// Where `k`'s value ends: the end of its line.
pub open spec fn key_end(c: Seq<char>, k: Seq<char>) -> int {
    line_end(c, value_start(c, k))
}

/// The stretches from each key's pattern to the end of its value do not overlap.
pub open spec fn lines_apart(c: Seq<char>, k1: Seq<char>, k2: Seq<char>) -> bool {
    key_end(c, k1) <= key_start(c, k2) || key_end(c, k2) <= key_start(c, k1)
}

proof fn lemma_key_bounds(c: Seq<char>, k: Seq<char>)
    requires
        has_key(c, k),
    ensures
        0 <= key_start(c, k),
        value_start(c, k) <= key_end(c, k) <= c.len(),
        key_end(c, k) < c.len() ==> c[key_end(c, k)] == '\n',
        key_end(c, k) == line_end(c, key_end(c, k)),
{
    lemma_find_seq(c, key_pattern(k));
    lemma_line_end(c, value_start(c, k));
    lemma_line_end(c, key_end(c, k));
}

/// Setting key `a` to a run of digits in place leaves the line of a key `b` whose line lies apart:
/// same text, moved by the change in length when it came after `a`'s.
proof fn lemma_step_other(c: Seq<char>, a: Seq<char>, v: Seq<char>, b: Seq<char>)
    requires
        has_key(c, a),
        has_key(c, b),
        lines_apart(c, a, b),
        v.len() > 0,
        all_digits(v),
        has_no_digit(key_pattern(b)),
        key_pattern(a).len() > 0,
        key_pattern(b).len() > 0,
    ensures
        ({
            let c2 = update_one_spec(c, a, v)->0;
            let d = v.len() - (key_end(c, a) - value_start(c, a));
            &&& update_one_spec(c, a, v) is Some
            &&& has_key(c2, b)
            &&& key_end(c, b) <= key_start(c, a) ==> key_start(c2, b) == key_start(c, b)
                && key_end(c2, b) == key_end(c, b)
            &&& key_end(c, a) <= key_start(c, b) ==> key_start(c2, b) == key_start(c, b) + d
                && key_end(c2, b) == key_end(c, b) + d
            &&& c2.subrange(value_start(c2, b), key_end(c2, b)) == c.subrange(
                value_start(c, b),
                key_end(c, b),
            )
        }),
{
    let pa = key_pattern(a);
    let pb = key_pattern(b);
    lemma_key_bounds(c, a);
    lemma_key_bounds(c, b);
    lemma_find_seq(c, pb);
    let ia = key_start(c, a);
    let vsa = value_start(c, a);
    let ea = key_end(c, a);
    let ib = key_start(c, b);
    let vsb = value_start(c, b);
    let eb = key_end(c, b);
    let c2 = splice(c, vsa, ea, v);
    assert(update_one_spec(c, a, v) == Some(c2));
    let d = v.len() - (ea - vsa);
    if eb <= ia {
        lemma_splice_occurs_before(c, vsa, ea, v, pb, ib);
        assert forall|j: int| 0 <= j < ib implies !#[trigger] occurs_at(c2, pb, j) by {
            lemma_splice_occurs_before(c, vsa, ea, v, pb, j);
        }
        lemma_find_seq_is(c2, pb, ib);
        assert(c.take(vsa) =~= c2.take(vsa));
        lemma_line_end_prefix(c, c2, vsa, vsb);
        assert(c2.subrange(vsb, eb) =~= c.subrange(vsb, eb));
    } else {
        assert(ea <= ib);
        lemma_splice_occurs_after(c, vsa, ea, v, pb, ib);
        assert forall|j: int| 0 <= j < ib + d implies !#[trigger] occurs_at(c2, pb, j) by {
            if j + pb.len() <= vsa {
                lemma_splice_occurs_before(c, vsa, ea, v, pb, j);
            } else if j < vsa + v.len() {
                lemma_splice_no_occurrence_across_digits(c, vsa, ea, v, pb, j);
            } else {
                lemma_splice_occurs_after(c, vsa, ea, v, pb, j - d);
            }
        }
        lemma_find_seq_is(c2, pb, ib + d);
        assert(c.skip(ea) =~= c2.skip(vsa + v.len()));
        lemma_line_end_shift(c, c2, ea, vsa + v.len(), vsb - ea);
        assert(c2.subrange(vsb + d, eb + d) =~= c.subrange(vsb, eb));
    }
}

proof fn lemma_digits_no_newline(v: Seq<char>)
    requires
        all_digits(v),
    ensures
        has_no_newline(v),
{
    reveal_strlit("\n");
    assert forall|i: int| 0 <= i < v.len() implies #[trigger] v[i] != '\n' by {
        assert(crate::text::is_ascii_digit(v[i]));
    }
}

/// The value a key reads back, from the stretch its line holds.
proof fn lemma_extract_from_line(c: Seq<char>, k: Seq<char>)
    requires
        has_key(c, k),
    ensures
        extract_spec(c, k) == Some(trim_quotes(trim_ws(c.subrange(value_start(c, k), key_end(c, k))))),
{
}

// ---------------------------------------------------------------------------
// Keys that may be absent

/// A key fit for the laws below: not empty, and no space, `=`, digit, line break or `}` in it.
pub open spec fn tidy_key(k: Seq<char>) -> bool {
    &&& k.len() > 0
    &&& forall|i: int|
        0 <= i < k.len() ==> {
            let ch = #[trigger] k[i];
            &&& ch != ' '
            &&& ch != '='
            &&& ch != '\n'
            &&& ch != '}'
            &&& !is_ascii_digit(ch)
        }
}

/// The last `}` exists and starts a line.
pub open spec fn brace_starts_line(c: Seq<char>) -> bool {
    match rfind_char_spec(c, '}') {
        Some(b) => b == 0 || c[b - 1] == '\n',
        None => false,
    }
}

/// When both keys occur, their lines lie apart.
pub open spec fn apart_if_present(c: Seq<char>, k1: Seq<char>, k2: Seq<char>) -> bool {
    has_key(c, k1) && has_key(c, k2) ==> lines_apart(c, k1, k2)
}

/// Four keys in a settings text, each either absent or on a line of its own (no key's value runs
/// into another key's pattern), and, when one is absent, the last `}` starts a line.
pub open spec fn keys_fit(
    c: Seq<char>,
    k1: Seq<char>,
    k2: Seq<char>,
    k3: Seq<char>,
    k4: Seq<char>,
) -> bool {
    &&& apart_if_present(c, k1, k2)
    &&& apart_if_present(c, k1, k3)
    &&& apart_if_present(c, k1, k4)
    &&& apart_if_present(c, k2, k3)
    &&& apart_if_present(c, k2, k4)
    &&& apart_if_present(c, k3, k4)
    &&& (!has_key(c, k1) || !has_key(c, k2) || !has_key(c, k3) || !has_key(c, k4))
        ==> brace_starts_line(c)
}

/// The settings text the resolution is written to: `WindowWidth`, `WindowHeight`, `Fullscreen`
/// and `Screenmode` each absent or on a line of its own, and the last `}` starting a line when
/// one of them is absent.
pub open spec fn resolution_keys_fit(c: Seq<char>) -> bool {
    keys_fit(c, "WindowWidth"@, "WindowHeight"@, "Fullscreen"@, "Screenmode"@)
}

proof fn lemma_tidy_pattern(k: Seq<char>)
    requires
        tidy_key(k),
    ensures
        is_plain_key(k),
        key_pattern(k).len() == k.len() + 7,
        has_no_digit(key_pattern(k)),
        forall|i: int|
            0 <= i < key_pattern(k).len() ==> #[trigger] key_pattern(k)[i] != '\n'
                && key_pattern(k)[i] != '}',
        forall|i: int| 0 <= i < 4 ==> #[trigger] key_pattern(k)[i] == ' ',
        forall|i: int| 4 <= i < 4 + k.len() ==> #[trigger] key_pattern(k)[i] == k[i - 4],
        forall|i: int|
            0 <= i < key_pattern(k).len() && i != key_pattern(k).len() - 2
                ==> #[trigger] key_pattern(k)[i] != '=',
        key_pattern(k)[key_pattern(k).len() - 2] == '=',
        key_pattern(k)[key_pattern(k).len() - 1] == ' ',
{
    reveal_strlit("    ");
    reveal_strlit(" = ");
    let p = key_pattern(k);
    assert forall|i: int| 0 <= i < p.len() implies !is_ascii_digit(#[trigger] p[i]) && p[i]
        != '\n' && p[i] != '}' && (i != p.len() - 2 ==> p[i] != '=') by {
        if 4 <= i < 4 + k.len() {
            assert(p[i] == k[i - 4]);
        }
    }
}

proof fn lemma_tidy_resolution_keys()
    ensures
        tidy_key("WindowWidth"@),
        tidy_key("WindowHeight"@),
        tidy_key("Fullscreen"@),
        tidy_key("Screenmode"@),
        "WindowWidth"@ != "WindowHeight"@,
        "WindowWidth"@ != "Fullscreen"@,
        "WindowWidth"@ != "Screenmode"@,
        "WindowHeight"@ != "Fullscreen"@,
        "WindowHeight"@ != "Screenmode"@,
        "Fullscreen"@ != "Screenmode"@,
{
    reveal_strlit("WindowWidth");
    reveal_strlit("WindowHeight");
    reveal_strlit("Fullscreen");
    reveal_strlit("Screenmode");
    assert("WindowWidth"@[6] != "WindowHeight"@[6]);
    assert("WindowWidth"@.len() != "Fullscreen"@.len());
    assert("WindowWidth"@.len() != "Screenmode"@.len());
    assert("WindowHeight"@.len() != "Fullscreen"@.len());
    assert("WindowHeight"@.len() != "Screenmode"@.len());
    assert("Fullscreen"@[0] != "Screenmode"@[0]);
}

/// The line added for key `a` holds no occurrence of another key's pattern.
proof fn lemma_no_pattern_in_line(a: Seq<char>, v: Seq<char>, b: Seq<char>, t: int)
    requires
        tidy_key(a),
        tidy_key(b),
        a != b,
        all_digits(v),
        0 <= t,
        t + key_pattern(b).len() <= key_pattern(a).len() + v.len(),
    ensures
        !occurs_at(key_pattern(a) + v, key_pattern(b), t),
{
    let pa = key_pattern(a);
    let pb = key_pattern(b);
    let l = pa + v;
    lemma_tidy_pattern(a);
    lemma_tidy_pattern(b);
    if occurs_at(l, pb, t) {
        let x = t + pb.len() - 2;
        assert(l.subrange(t, t + pb.len())[pb.len() - 2] == pb[pb.len() - 2]);
        assert(l[x] == '=');
        if x >= pa.len() {
            assert(l[x] == v[x - pa.len()]);
            assert(is_ascii_digit(v[x - pa.len()]));
        }
        assert(x == pa.len() - 2);
        if t > 0 {
            assert(l.subrange(t, t + pb.len())[3] == pb[3]);
            assert(l[t + 3] == pa[t + 3]);
            assert(pa[t + 3] == a[t - 1]);
        } else {
            assert forall|i: int| 0 <= i < b.len() implies b[i] == a[i] by {
                assert(l.subrange(t, t + pb.len())[4 + i] == pb[4 + i]);
                assert(l[4 + i] == pa[4 + i]);
            }
            assert(a =~= b);
        }
    }
}

/// The last index of `ch` is one where it occurs with none after.
proof fn lemma_rfind_is(s: Seq<char>, ch: char, i: int)
    requires
        0 <= i < s.len(),
        s[i] == ch,
        forall|j: int| i < j < s.len() ==> s[j] != ch,
    ensures
        rfind_char_spec(s, ch) == Some(i),
{
    lemma_last_index_is(s, ch, i, s.len() as int);
}

proof fn lemma_last_index_is(s: Seq<char>, ch: char, i: int, n: int)
    requires
        0 <= i < n <= s.len(),
        s[i] == ch,
        forall|j: int| i < j < n ==> s[j] != ch,
    ensures
        last_index_before(s, ch, n) == Some(i),
    decreases n,
{
    if n - 1 != i {
        lemma_last_index_is(s, ch, i, n - 1);
    }
}

/// The line added for `a` before the last `}` that starts a line.
pub open spec fn added_line(a: Seq<char>, v: Seq<char>) -> Seq<char> {
    key_pattern(a) + v + "\n"@
}

/// Where another key's pattern occurs once `a`'s line is added: where it did before the brace,
/// and shifted by the added line after it.
proof fn lemma_insert_occurs(c: Seq<char>, a: Seq<char>, v: Seq<char>, b: Seq<char>, j: int)
    requires
        tidy_key(a),
        tidy_key(b),
        a != b,
        all_digits(v),
        brace_starts_line(c),
    ensures
        ({
            let bb = rfind_char_spec(c, '}')->0;
            let ins = added_line(a, v);
            let pb = key_pattern(b);
            occurs_at(splice(c, bb, bb, ins), pb, j) == ((j + pb.len() <= bb && occurs_at(c, pb, j))
                || (j >= bb + ins.len() && occurs_at(c, pb, j - ins.len())))
        }),
{
    let bb = rfind_char_spec(c, '}')->0;
    lemma_last_index_before(c, '}', c.len() as int);
    let pa = key_pattern(a);
    let pb = key_pattern(b);
    let ins = added_line(a, v);
    let c2 = splice(c, bb, bb, ins);
    lemma_tidy_pattern(a);
    lemma_tidy_pattern(b);
    reveal_strlit("\n");
    assert(ins.len() == pa.len() + v.len() + 1);
    assert(ins[(pa.len() + v.len()) as int] == '\n');
    if j < 0 {
    } else if j + pb.len() <= bb {
        lemma_splice_occurs_before(c, bb, bb, ins, pb, j);
    } else if j < bb {
        if occurs_at(c2, pb, j) {
            assert(c2.subrange(j, j + pb.len())[bb - 1 - j] == pb[bb - 1 - j]);
            assert(c2[bb - 1] == c[bb - 1]);
        }
    } else if j < bb + ins.len() {
        if occurs_at(c2, pb, j) {
            if j + pb.len() <= bb + pa.len() + v.len() {
                let t = j - bb;
                assert(c2.subrange(j, j + pb.len()) =~= (pa + v).subrange(t, t + pb.len()));
                lemma_no_pattern_in_line(a, v, b, t);
            } else {
                let x = bb + pa.len() + v.len();
                assert(c2.subrange(j, j + pb.len())[x - j] == pb[x - j]);
                assert(c2[x] == ins[(pa.len() + v.len()) as int]);
            }
        }
    } else {
        lemma_splice_occurs_after(c, bb, bb, ins, pb, j - ins.len());
    }
}

/// Adding `a`'s line leaves a key whose line comes before the brace where it was.
proof fn lemma_insert_other_before(c: Seq<char>, a: Seq<char>, v: Seq<char>, b: Seq<char>)
    requires
        tidy_key(a),
        tidy_key(b),
        a != b,
        all_digits(v),
        brace_starts_line(c),
        has_key(c, b),
        key_start(c, b) < rfind_char_spec(c, '}')->0,
    ensures
        ({
            let bb = rfind_char_spec(c, '}')->0;
            let c2 = splice(c, bb, bb, added_line(a, v));
            &&& has_key(c2, b)
            &&& key_end(c, b) < bb
            &&& key_start(c2, b) == key_start(c, b)
            &&& key_end(c2, b) == key_end(c, b)
            &&& c2.subrange(value_start(c2, b), key_end(c2, b)) == c.subrange(
                value_start(c, b),
                key_end(c, b),
            )
        }),
{
    let bb = rfind_char_spec(c, '}')->0;
    lemma_last_index_before(c, '}', c.len() as int);
    let pb = key_pattern(b);
    let ins = added_line(a, v);
    let c2 = splice(c, bb, bb, ins);
    lemma_tidy_pattern(b);
    lemma_find_seq(c, pb);
    let ib = key_start(c, b);
    let vsb = value_start(c, b);
    let eb = key_end(c, b);
    lemma_key_bounds(c, b);
    assert(ib + pb.len() <= bb - 1) by {
        if ib + pb.len() > bb - 1 {
            assert(c.subrange(ib, ib + pb.len())[bb - 1 - ib] == pb[bb - 1 - ib]);
        }
    }
    lemma_insert_occurs(c, a, v, b, ib);
    assert forall|j: int| 0 <= j < ib implies !#[trigger] occurs_at(c2, pb, j) by {
        lemma_insert_occurs(c, a, v, b, j);
    }
    lemma_find_seq_is(c2, pb, ib);
    lemma_line_end(c, vsb);
    assert(eb <= bb - 1);
    assert(c.take(bb) =~= c2.take(bb));
    lemma_line_end_prefix(c, c2, bb, vsb);
    assert(c2.subrange(vsb, eb) =~= c.subrange(vsb, eb));
}

/// Adding `a`'s line moves a key whose line comes after the brace by the added line.
proof fn lemma_insert_other_after(c: Seq<char>, a: Seq<char>, v: Seq<char>, b: Seq<char>)
    requires
        tidy_key(a),
        tidy_key(b),
        a != b,
        all_digits(v),
        brace_starts_line(c),
        has_key(c, b),
        key_start(c, b) > rfind_char_spec(c, '}')->0,
    ensures
        ({
            let bb = rfind_char_spec(c, '}')->0;
            let n = added_line(a, v).len();
            let c2 = splice(c, bb, bb, added_line(a, v));
            &&& has_key(c2, b)
            &&& key_start(c2, b) == key_start(c, b) + n
            &&& key_end(c2, b) == key_end(c, b) + n
            &&& c2.subrange(value_start(c2, b), key_end(c2, b)) == c.subrange(
                value_start(c, b),
                key_end(c, b),
            )
        }),
{
    let bb = rfind_char_spec(c, '}')->0;
    lemma_last_index_before(c, '}', c.len() as int);
    let pb = key_pattern(b);
    let ins = added_line(a, v);
    let n = ins.len();
    let c2 = splice(c, bb, bb, ins);
    lemma_tidy_pattern(b);
    lemma_find_seq(c, pb);
    let ib = key_start(c, b);
    let vsb = value_start(c, b);
    let eb = key_end(c, b);
    lemma_key_bounds(c, b);
    lemma_insert_occurs(c, a, v, b, ib + n);
    assert forall|j: int| 0 <= j < ib + n implies !#[trigger] occurs_at(c2, pb, j) by {
        lemma_insert_occurs(c, a, v, b, j);
    }
    lemma_find_seq_is(c2, pb, ib + n);
    assert(c.skip(bb) =~= c2.skip(bb + n));
    lemma_line_end_shift(c, c2, bb, bb + n, vsb - bb);
    assert(c2.subrange(vsb + n, eb + n) =~= c.subrange(vsb, eb));
}

/// Adding `a`'s line leaves another key where it was before the brace, moves it by the added
/// line after the brace, and keeps its value.
proof fn lemma_insert_other(c: Seq<char>, a: Seq<char>, v: Seq<char>, b: Seq<char>)
    requires
        tidy_key(a),
        tidy_key(b),
        a != b,
        all_digits(v),
        brace_starts_line(c),
        !has_key(c, a),
    ensures
        ({
            let bb = rfind_char_spec(c, '}')->0;
            let n = added_line(a, v).len();
            let c2 = update_one_spec(c, a, v)->0;
            &&& update_one_spec(c, a, v) == Some(splice(c, bb, bb, added_line(a, v)))
            &&& has_key(c2, b) == has_key(c, b)
            &&& has_key(c, b) ==> {
                &&& key_end(c, b) < bb ==> key_start(c2, b) == key_start(c, b) && key_end(c2, b)
                    == key_end(c, b)
                &&& key_end(c, b) >= bb ==> key_start(c, b) > bb && key_start(c2, b)
                    == key_start(c, b) + n && key_end(c2, b) == key_end(c, b) + n
                &&& c2.subrange(value_start(c2, b), key_end(c2, b)) == c.subrange(
                    value_start(c, b),
                    key_end(c, b),
                )
            }
        }),
{
    let bb = rfind_char_spec(c, '}')->0;
    lemma_last_index_before(c, '}', c.len() as int);
    let pa = key_pattern(a);
    let pb = key_pattern(b);
    let ins = added_line(a, v);
    let c2 = splice(c, bb, bb, ins);
    lemma_tidy_pattern(a);
    lemma_tidy_pattern(b);
    lemma_find_seq(c, pa);
    assert(update_one_spec(c, a, v) == Some(c2));
    lemma_find_seq(c, pb);
    lemma_find_seq(c2, pb);
    if has_key(c, b) {
        let ib = key_start(c, b);
        lemma_key_bounds(c, b);
        assert(ib != bb) by {
            assert(c.subrange(ib, ib + pb.len())[0] == pb[0]);
        }
        if ib < bb {
            lemma_insert_other_before(c, a, v, b);
        } else {
            lemma_insert_other_after(c, a, v, b);
        }
    } else {
        if has_key(c2, b) {
            let j = find_seq(c2, pb)->0;
            lemma_insert_occurs(c, a, v, b, j);
        }
    }
}

/// Adding `a`'s line keeps the last `}` at the start of a line, after the added line.
proof fn lemma_insert_brace(c: Seq<char>, a: Seq<char>, v: Seq<char>)
    requires
        tidy_key(a),
        all_digits(v),
        brace_starts_line(c),
    ensures
        ({
            let bb = rfind_char_spec(c, '}')->0;
            let c2 = splice(c, bb, bb, added_line(a, v));
            &&& brace_starts_line(c2)
            &&& rfind_char_spec(c2, '}') == Some(bb + added_line(a, v).len())
        }),
{
    let bb = rfind_char_spec(c, '}')->0;
    lemma_last_index_before(c, '}', c.len() as int);
    let pa = key_pattern(a);
    let ins = added_line(a, v);
    let n = ins.len();
    let c2 = splice(c, bb, bb, ins);
    lemma_tidy_pattern(a);
    reveal_strlit("\n");
    assert(c2[bb + n] == c[bb]);
    assert forall|j: int| bb + n < j < c2.len() implies c2[j] != '}' by {
        assert(c2[j] == c[j - n]);
    }
    lemma_rfind_is(c2, '}', bb + n);
    assert(c2[bb + n - 1] == ins[n - 1]);
    assert(ins[n - 1] == '\n');
}

/// Replacing `a`'s value by digits leaves an absent key absent.
proof fn lemma_replace_absent(c: Seq<char>, a: Seq<char>, v: Seq<char>, b: Seq<char>)
    requires
        tidy_key(a),
        tidy_key(b),
        has_key(c, a),
        !has_key(c, b),
        v.len() > 0,
        all_digits(v),
    ensures
        !has_key(update_one_spec(c, a, v)->0, b),
{
    let pa = key_pattern(a);
    let pb = key_pattern(b);
    lemma_tidy_pattern(a);
    lemma_tidy_pattern(b);
    lemma_key_bounds(c, a);
    let vsa = value_start(c, a);
    let ea = key_end(c, a);
    let c2 = splice(c, vsa, ea, v);
    assert(update_one_spec(c, a, v) == Some(c2));
    let d = v.len() - (ea - vsa);
    lemma_find_seq(c, pb);
    lemma_find_seq(c2, pb);
    if has_key(c2, b) {
        let j = find_seq(c2, pb)->0;
        if j + pb.len() <= vsa {
            lemma_splice_occurs_before(c, vsa, ea, v, pb, j);
        } else if j < vsa + v.len() {
            lemma_splice_no_occurrence_across_digits(c, vsa, ea, v, pb, j);
        } else {
            lemma_splice_occurs_after(c, vsa, ea, v, pb, j - d);
        }
    }
}

/// Replacing `a`'s value by digits keeps the last `}` at the start of a line.
proof fn lemma_replace_brace(c: Seq<char>, a: Seq<char>, v: Seq<char>)
    requires
        tidy_key(a),
        has_key(c, a),
        brace_starts_line(c),
        all_digits(v),
    ensures
        brace_starts_line(update_one_spec(c, a, v)->0),
{
    let pa = key_pattern(a);
    lemma_tidy_pattern(a);
    lemma_key_bounds(c, a);
    lemma_find_seq(c, pa);
    let ia = key_start(c, a);
    let vsa = value_start(c, a);
    let ea = key_end(c, a);
    lemma_line_end(c, vsa);
    let c2 = splice(c, vsa, ea, v);
    assert(update_one_spec(c, a, v) == Some(c2));
    let d = v.len() - (ea - vsa);
    let bb = rfind_char_spec(c, '}')->0;
    lemma_last_index_before(c, '}', c.len() as int);
    assert(c.subrange(ia, ia + pa.len())[pa.len() - 1] == pa[pa.len() - 1]);
    assert(c[vsa - 1] == ' ');
    assert(!(vsa <= bb < ea));
    assert forall|j: int| 0 <= j < v.len() implies v[j] != '}' by {
        assert(is_ascii_digit(v[j]));
    }
    if bb < vsa {
        assert(c2[bb] == c[bb]);
        assert forall|j: int| bb < j < c2.len() implies c2[j] != '}' by {
            if j < vsa {
                assert(c2[j] == c[j]);
            } else if j < vsa + v.len() {
                assert(c2[j] == v[j - vsa]);
            } else {
                assert(c2[j] == c[j - d]);
            }
        }
        lemma_rfind_is(c2, '}', bb);
        if bb > 0 {
            assert(c2[bb - 1] == c[bb - 1]);
        }
    } else {
        assert(bb > ea);
        assert(c2[bb + d] == c[bb]);
        assert forall|j: int| bb + d < j < c2.len() implies c2[j] != '}' by {
            assert(c2[j] == c[j - d]);
        }
        lemma_rfind_is(c2, '}', bb + d);
        assert(c2[bb + d - 1] == c[bb - 1]);
    }
}

/// Key `x` occurs in `c2` exactly when it does in `c`, with the same value.
pub open spec fn key_kept(c: Seq<char>, c2: Seq<char>, x: Seq<char>) -> bool {
    &&& has_key(c2, x) == has_key(c, x)
    &&& has_key(c, x) ==> c2.subrange(value_start(c2, x), key_end(c2, x)) == c.subrange(
        value_start(c, x),
        key_end(c, x),
    )
}

/// Setting key `a` to a run of digits keeps the four keys fitting: `a` then holds `v`, and each
/// other key occurs exactly when it did, with the same value.
proof fn lemma_fit_step(
    c: Seq<char>,
    a: Seq<char>,
    v: Seq<char>,
    b: Seq<char>,
    e: Seq<char>,
    f: Seq<char>,
)
    requires
        tidy_key(a),
        tidy_key(b),
        tidy_key(e),
        tidy_key(f),
        a != b,
        a != e,
        a != f,
        b != e,
        b != f,
        e != f,
        v.len() > 0,
        all_digits(v),
        keys_fit(c, a, b, e, f),
    ensures
        ({
            let c2 = update_one_spec(c, a, v)->0;
            &&& update_one_spec(c, a, v) is Some
            &&& keys_fit(c2, a, b, e, f)
            &&& has_key(c2, a)
            &&& c2.subrange(value_start(c2, a), key_end(c2, a)) == v
            &&& key_kept(c, c2, b)
            &&& key_kept(c, c2, e)
            &&& key_kept(c, c2, f)
        }),
{
    let pa = key_pattern(a);
    lemma_tidy_pattern(a);
    lemma_tidy_pattern(b);
    lemma_tidy_pattern(e);
    lemma_tidy_pattern(f);
    lemma_digits_no_newline(v);
    lemma_find_seq(c, pa);
    if has_key(c, a) {
        lemma_extract_after_replace(c, a, v);
        lemma_key_bounds(c, a);
        if has_key(c, b) {
            lemma_step_other(c, a, v, b);
            lemma_key_bounds(c, b);
        } else {
            lemma_replace_absent(c, a, v, b);
        }
        if has_key(c, e) {
            lemma_step_other(c, a, v, e);
            lemma_key_bounds(c, e);
        } else {
            lemma_replace_absent(c, a, v, e);
        }
        if has_key(c, f) {
            lemma_step_other(c, a, v, f);
            lemma_key_bounds(c, f);
        } else {
            lemma_replace_absent(c, a, v, f);
        }
        if !has_key(c, b) || !has_key(c, e) || !has_key(c, f) {
            lemma_replace_brace(c, a, v);
        }
    } else {
        let bb = rfind_char_spec(c, '}')->0;
        lemma_last_index_before(c, '}', c.len() as int);
        assert(!insertion_completes_pattern(c, a)) by {
            let s = c.take(bb);
            let t = pa.drop_last();
            if ends_with(s, t) {
                assert(s.subrange(s.len() - t.len(), s.len() as int)[t.len() - 1] == t[t.len() - 1]);
                assert(c[bb - 1] == '=');
            }
        }
        lemma_insert_reads_back(c, a, v);
        lemma_insert_other(c, a, v, b);
        lemma_insert_other(c, a, v, e);
        lemma_insert_other(c, a, v, f);
        lemma_insert_brace(c, a, v);
        if has_key(c, b) {
            lemma_key_bounds(c, b);
        }
        if has_key(c, e) {
            lemma_key_bounds(c, e);
        }
        if has_key(c, f) {
            lemma_key_bounds(c, f);
        }
    }
}

/// `k` occurs in `c`, and its line holds exactly `v` after the pattern.
pub open spec fn holds_value(c: Seq<char>, k: Seq<char>, v: Seq<char>) -> bool {
    has_key(c, k) && c.subrange(value_start(c, k), key_end(c, k)) == v
}

/// What writing a resolution leaves, on a text where the keys fit: each of the four keys on a
/// line of its own, holding the value written.
proof fn lemma_resolution_written(c: Seq<char>, width: u32, height: u32)
    requires
        resolution_keys_fit(c),
    ensures
        ({
            let r = update_all_spec(c, resolution_updates(width, height));
            &&& r is Some
            &&& holds_value(r->0, "WindowWidth"@, decimal(width as nat))
            &&& holds_value(r->0, "WindowHeight"@, decimal(height as nat))
            &&& holds_value(r->0, "Fullscreen"@, "1"@)
            &&& holds_value(r->0, "Screenmode"@, "2"@)
        }),
{
    let kw = "WindowWidth"@;
    let kh = "WindowHeight"@;
    let kf = "Fullscreen"@;
    let ks = "Screenmode"@;
    let dw = decimal(width as nat);
    let dh = decimal(height as nat);
    let one = "1"@;
    let two = "2"@;
    lemma_tidy_resolution_keys();
    lemma_decimal_plain(width as nat);
    lemma_decimal_plain(height as nat);
    reveal_strlit("1");
    reveal_strlit("2");
    assert(all_digits(one));
    assert(all_digits(two));
    let ups = resolution_updates(width, height);
    lemma_fit_step(c, kw, dw, kh, kf, ks);
    let c1 = update_one_spec(c, kw, dw)->0;
    lemma_fit_step(c1, kh, dh, kw, kf, ks);
    let c2 = update_one_spec(c1, kh, dh)->0;
    lemma_fit_step(c2, kf, one, kw, kh, ks);
    let c3 = update_one_spec(c2, kf, one)->0;
    lemma_fit_step(c3, ks, two, kw, kh, kf);
    let c4 = update_one_spec(c3, ks, two)->0;
    // the fold
    assert(ups[0] == (kw, dw));
    assert(ups.drop_first()[0] == (kh, dh));
    assert(ups.drop_first().drop_first()[0] == (kf, one));
    assert(ups.drop_first().drop_first().drop_first()[0] == (ks, two));
    assert(ups.drop_first().drop_first().drop_first().drop_first().len() == 0);
    let u1 = ups.drop_first();
    let u2 = u1.drop_first();
    let u3 = u2.drop_first();
    let u4 = u3.drop_first();
    assert(update_all_spec(c4, u4) == Some(c4));
    assert(update_all_spec(c3, u3) == update_all_spec(c4, u4));
    assert(update_all_spec(c2, u2) == update_all_spec(c3, u3));
    assert(update_all_spec(c1, u1) == update_all_spec(c2, u2));
    assert(update_all_spec(c, ups) == update_all_spec(c1, u1));
    assert(holds_value(c4, kw, dw));
    assert(holds_value(c4, kh, dh));
    assert(holds_value(c4, kf, one));
    assert(holds_value(c4, ks, two));
}

/// Reading back a written resolution: in a settings text where `WindowWidth`, `WindowHeight`,
/// `Fullscreen` and `Screenmode` are each absent or on a line of their own, and the last `}`
/// starts a line when one of them is absent, setting the resolution to `width`×`height` succeeds
/// (absent keys are added before the last `}`), and reading the resolution then gives
/// `width`×`height`.
pub proof fn lemma_read_after_update_resolution(c: Seq<char>, width: u32, height: u32)
    requires
        resolution_keys_fit(c),
    ensures
        update_all_spec(c, resolution_updates(width, height)) is Some,
        read_resolution_spec(update_all_spec(c, resolution_updates(width, height))->0) == Ok::<
            (u32, u32),
            crate::ini_handler::ConfigError,
        >((width, height)),
{
    lemma_resolution_written(c, width, height);
    let c4 = update_all_spec(c, resolution_updates(width, height))->0;
    lemma_extract_from_line(c4, "WindowWidth"@);
    lemma_extract_from_line(c4, "WindowHeight"@);
    lemma_trim_decimal(width as nat);
    lemma_trim_decimal(height as nat);
    lemma_parse_decimal(width);
    lemma_parse_decimal(height);
}

/// Updates apply one after another: applying `u1` followed by `u2` is applying `u1`, then `u2`
/// to the result, and fails when either part fails.
pub proof fn lemma_update_all_concat(
    c: Seq<char>,
    u1: Seq<(Seq<char>, Seq<char>)>,
    u2: Seq<(Seq<char>, Seq<char>)>,
)
    ensures
        update_all_spec(c, u1 + u2) == match update_all_spec(c, u1) {
            Some(r) => update_all_spec(r, u2),
            None => None,
        },
    decreases u1.len(),
{
    if u1.len() > 0 {
        assert((u1 + u2)[0] == u1[0]);
        assert((u1 + u2).drop_first() =~= u1.drop_first() + u2);
        match update_one_spec(c, u1[0].0, u1[0].1) {
            Some(c1) => lemma_update_all_concat(c1, u1.drop_first(), u2),
            None => {},
        }
    } else {
        assert(u1 + u2 =~= u2);
    }
}

/// The update list of `update_ini_values` splits as its slices do, so the law above applies to
/// calls of `update_ini_values` on `u1` followed by `u2`.
pub proof fn lemma_updates_view_concat(u1: Seq<(&str, String)>, u2: Seq<(&str, String)>)
    ensures
        updates_view(u1 + u2) == updates_view(u1) + updates_view(u2),
{
    assert(updates_view(u1 + u2) =~= updates_view(u1) + updates_view(u2));
}

/// Setting keys to the values they already hold changes nothing.
pub proof fn lemma_update_held_values(c: Seq<char>, updates: Seq<(Seq<char>, Seq<char>)>)
    requires
        forall|i: int| 0 <= i < updates.len() ==> holds_value(c, (#[trigger] updates[i]).0, updates[i].1),
    ensures
        update_all_spec(c, updates) == Some(c),
    decreases updates.len(),
{
    if updates.len() > 0 {
        let k = updates[0].0;
        let v = updates[0].1;
        assert(holds_value(c, k, v));
        lemma_key_bounds(c, k);
        let vs = value_start(c, k);
        let le = key_end(c, k);
        assert(c.take(vs) + v + c.skip(le) =~= c);
        assert(update_one_spec(c, k, v) == Some(c));
        assert forall|i: int| 0 <= i < updates.drop_first().len() implies holds_value(
            c,
            (#[trigger] updates.drop_first()[i]).0,
            updates.drop_first()[i].1,
        ) by {
            assert(updates.drop_first()[i] == updates[i + 1]);
        }
        lemma_update_held_values(c, updates.drop_first());
    }
}

/// Writing a resolution twice gives what writing it once gives, on a text where the four keys
/// fit (see [`resolution_keys_fit`]).
pub proof fn lemma_update_resolution_twice(c: Seq<char>, width: u32, height: u32)
    requires
        resolution_keys_fit(c),
    ensures
        ({
            let r = update_all_spec(c, resolution_updates(width, height));
            &&& r is Some
            &&& update_all_spec(r->0, resolution_updates(width, height)) == r
        }),
{
    lemma_resolution_written(c, width, height);
    let r = update_all_spec(c, resolution_updates(width, height))->0;
    let ups = resolution_updates(width, height);
    assert forall|i: int| 0 <= i < ups.len() implies holds_value(r, (#[trigger] ups[i]).0, ups[i].1) by {
        assert(i == 0 || i == 1 || i == 2 || i == 3);
    }
    lemma_update_held_values(r, ups);
}

} // verus!
