//! Reading and rewriting `GameSettings.cfg`.
//!
//! Settlers 4 keeps its settings in a brace-delimited section:
//! `[GAMESETTINGS]`, `{`, lines of the form `    Key = Value`, `}`.
//! A key is found by the first occurrence of `"    " + key + " = "`; its value runs to the end of
//! that line. A key that does not occur is added as a new line just before the last `}`.

use vstd::prelude::*;
use vstd::string::StringExecFns;
use crate::text::{
    decimal, extend_chars, find_chars, find_line_end, find_seq, line_end, parse_u32,
    parse_u32_spec, rfind_char, rfind_char_spec, slice_range, str_chars, string_from_chars,
    trim, trim_quotes, trim_then_unquote, trim_ws, u32_to_string,
};

verus! {

/// Why the settings could not be updated or read.
#[derive(Debug, Clone, Copy, PartialEq, Eq)]
pub enum ConfigError {
    /// A key had to be added but the file has no `}`.
    MissingClosingBrace,
    /// `WindowWidth` does not occur.
    WidthNotFound,
    /// `WindowHeight` does not occur.
    HeightNotFound,
    /// The `WindowWidth` value is not a `u32`.
    InvalidWidth,
    /// The `WindowHeight` value is not a `u32`.
    InvalidHeight,
}

impl ConfigError {
    /// The text the user is shown.
    pub fn message(&self) -> (r: String)
        ensures
            r@ == match *self {
                ConfigError::MissingClosingBrace => "Could not find closing brace in config file"@,
                ConfigError::WidthNotFound => "WindowWidth not found in config file"@,
                ConfigError::HeightNotFound => "WindowHeight not found in config file"@,
                ConfigError::InvalidWidth => "Failed to parse WindowWidth"@,
                ConfigError::InvalidHeight => "Failed to parse WindowHeight"@,
            },
    {
        match *self {
            ConfigError::MissingClosingBrace => String::from_str(
                "Could not find closing brace in config file",
            ),
            ConfigError::WidthNotFound => String::from_str("WindowWidth not found in config file"),
            ConfigError::HeightNotFound => String::from_str("WindowHeight not found in config file"),
            ConfigError::InvalidWidth => String::from_str("Failed to parse WindowWidth"),
            ConfigError::InvalidHeight => String::from_str("Failed to parse WindowHeight"),
        }
    }
}

/// The text that introduces `key`'s value: four spaces, the key, `" = "`.
pub open spec fn key_pattern(key: Seq<char>) -> Seq<char> {
    "    "@ + key + " = "@
}

/// `content` with `key` set to `value`: the old value (up to the end of its line) is replaced
/// when the key occurs; otherwise a line `    key = value` is added before the last `}`;
/// `None` when neither is possible.
pub open spec fn update_one_spec(content: Seq<char>, key: Seq<char>, value: Seq<char>) -> Option<
    Seq<char>,
> {
    let pat = key_pattern(key);
    match find_seq(content, pat) {
        Some(i) => {
            let vs = i + pat.len();
            Some(content.take(vs) + value + content.skip(line_end(content, vs)))
        },
        None => match rfind_char_spec(content, '}') {
            Some(b) => Some(content.take(b) + pat + value + "\n"@ + content.skip(b)),
            None => None,
        },
    }
}

/// The updates applied one after another, in order.
pub open spec fn update_all_spec(content: Seq<char>, updates: Seq<(Seq<char>, Seq<char>)>) -> Option<
    Seq<char>,
>
    decreases updates.len(),
{
    if updates.len() == 0 {
        Some(content)
    } else {
        match update_one_spec(content, updates[0].0, updates[0].1) {
            Some(c) => update_all_spec(c, updates.drop_first()),
            None => None,
        }
    }
}

/// The `(key, value)` pairs of an update list, as character sequences.
pub open spec fn updates_view(updates: Seq<(&str, String)>) -> Seq<(Seq<char>, Seq<char>)> {
    updates.map_values(|u: (&str, String)| (u.0@, u.1@))
}

/// The value of `key`: the rest of the line after its first pattern, trimmed of whitespace and
/// then of double quotes.
pub open spec fn extract_spec(content: Seq<char>, key: Seq<char>) -> Option<Seq<char>> {
    let pat = key_pattern(key);
    match find_seq(content, pat) {
        Some(i) => {
            let vs = i + pat.len();
            Some(trim_quotes(trim_ws(content.subrange(vs, line_end(content, vs)))))
        },
        None => None,
    }
}

/// The resolution a settings file holds: both keys must occur (width checked first), then both
/// values must parse as `u32` after trimming (width checked first).
pub open spec fn read_resolution_spec(content: Seq<char>) -> Result<(u32, u32), ConfigError> {
    match extract_spec(content, "WindowWidth"@) {
        None => Err(ConfigError::WidthNotFound),
        Some(w) => match extract_spec(content, "WindowHeight"@) {
            None => Err(ConfigError::HeightNotFound),
            Some(h) => match parse_u32_spec(trim_ws(w)) {
                None => Err(ConfigError::InvalidWidth),
                Some(wv) => match parse_u32_spec(trim_ws(h)) {
                    None => Err(ConfigError::InvalidHeight),
                    Some(hv) => Ok((wv, hv)),
                },
            },
        },
    }
}

/// The four settings written for a resolution: the size, fullscreen on, screen mode 2.
pub open spec fn resolution_updates(width: u32, height: u32) -> Seq<(Seq<char>, Seq<char>)> {
    seq![
        ("WindowWidth"@, decimal(width as nat)),
        ("WindowHeight"@, decimal(height as nat)),
        ("Fullscreen"@, "1"@),
        ("Screenmode"@, "2"@),
    ]
}

fn key_pattern_chars(key: &[char]) -> (r: Vec<char>)
    ensures
        r@ == key_pattern(key@),
{
    let mut r = str_chars("    ");
    extend_chars(&mut r, key);
    let tail = str_chars(" = ");
    extend_chars(&mut r, tail.as_slice());
    r
}

fn update_one(content: &Vec<char>, key: &[char], value: &[char]) -> (r: Option<Vec<char>>)
    ensures
        match r {
            Some(c) => update_one_spec(content@, key@, value@) == Some(c@),
            None => update_one_spec(content@, key@, value@) is None,
        },
{
    let pat = key_pattern_chars(key);
    let n = content.len();
    match find_chars(content.as_slice(), pat.as_slice()) {
        Some(i) => {
            proof {
                crate::text::lemma_find_seq(content@, pat@);
            }
            assert(i + pat@.len() <= content@.len());
            let vs = i + pat.len();
            let le = find_line_end(content.as_slice(), vs);
            proof {
                crate::text::lemma_line_end(content@, vs as int);
            }
            let mut out = slice_range(content.as_slice(), 0, vs);
            extend_chars(&mut out, value);
            let rest = slice_range(content.as_slice(), le, content.len());
            extend_chars(&mut out, rest.as_slice());
            assert(content@.subrange(0, vs as int) == content@.take(vs as int));
            assert(content@.subrange(le as int, content@.len() as int) == content@.skip(le as int));
            Some(out)
        },
        None => match rfind_char(content.as_slice(), '}') {
            Some(b) => {
                proof {
                    crate::text::lemma_last_index_before(content@, '}', content@.len() as int);
                }
                let mut out = slice_range(content.as_slice(), 0, b);
                extend_chars(&mut out, pat.as_slice());
                extend_chars(&mut out, value);
                let nl = str_chars("\n");
                extend_chars(&mut out, nl.as_slice());
                let rest = slice_range(content.as_slice(), b, content.len());
                extend_chars(&mut out, rest.as_slice());
                assert(content@.subrange(0, b as int) == content@.take(b as int));
                assert(content@.subrange(b as int, content@.len() as int) == content@.skip(b as int));
                Some(out)
            },
            None => None,
        },
    }
}

/// Sets each `(key, value)` in turn in the Settlers 4 settings text `content`.
pub fn update_ini_values(content: &str, updates: &[(&str, String)]) -> (r: Result<
    String,
    ConfigError,
>)
    ensures
        match r {
            Ok(s) => update_all_spec(content@, updates_view(updates@)) == Some(s@),
            Err(e) => update_all_spec(content@, updates_view(updates@)) is None && e
                == ConfigError::MissingClosingBrace,
        },
{
    let ghost uv = updates_view(updates@);
    let mut cur = str_chars(content);
    let mut j: usize = 0;
    assert(uv.skip(0) =~= uv);
    while j < updates.len()
        invariant
            j <= updates@.len(),
            uv == updates_view(updates@),
            update_all_spec(content@, uv) == update_all_spec(cur@, uv.skip(j as int)),
        decreases updates@.len() - j,
    {
        let key = str_chars(updates[j].0);
        let value = str_chars(updates[j].1.as_str());
        let ghost rest = uv.skip(j as int);
        assert(rest[0] == (updates@[j as int].0@, updates@[j as int].1@));
        assert(rest.drop_first() =~= uv.skip(j + 1));
        match update_one(&cur, key.as_slice(), value.as_slice()) {
            Some(next) => {
                cur = next;
            },
            None => {
                return Err(ConfigError::MissingClosingBrace);
            },
        }
        j += 1;
    }
    assert(uv.skip(j as int).len() == 0);
    Ok(string_from_chars(cur.as_slice()))
}

/// The value of `key` in the settings text, trimmed of whitespace and double quotes.
pub fn extract_value(content: &str, key: &str) -> (r: Option<String>)
    ensures
        match r {
            Some(v) => extract_spec(content@, key@) == Some(v@),
            None => extract_spec(content@, key@) is None,
        },
{
    let cs = str_chars(content);
    let kc = str_chars(key);
    let pat = key_pattern_chars(kc.as_slice());
    let n = cs.len();
    match find_chars(cs.as_slice(), pat.as_slice()) {
        Some(i) => {
            proof {
                crate::text::lemma_find_seq(cs@, pat@);
            }
            let vs = i + pat.len();
            let le = find_line_end(cs.as_slice(), vs);
            proof {
                crate::text::lemma_line_end(cs@, vs as int);
            }
            let raw = slice_range(cs.as_slice(), vs, le);
            let v = trim_then_unquote(raw.as_slice());
            Some(string_from_chars(v.as_slice()))
        },
        None => None,
    }
}

/// The `WindowWidth` and `WindowHeight` a settings text holds.
pub fn read_resolution(content: &str) -> (r: Result<(u32, u32), ConfigError>)
    ensures
        r == read_resolution_spec(content@),
{
    let width = match extract_value(content, "WindowWidth") {
        Some(w) => w,
        None => return Err(ConfigError::WidthNotFound),
    };
    let height = match extract_value(content, "WindowHeight") {
        Some(h) => h,
        None => return Err(ConfigError::HeightNotFound),
    };
    let wc = str_chars(width.as_str());
    let wt = trim(wc.as_slice());
    let wv = match parse_u32(wt.as_slice()) {
        Some(v) => v,
        None => return Err(ConfigError::InvalidWidth),
    };
    let hc = str_chars(height.as_str());
    let ht = trim(hc.as_slice());
    let hv = match parse_u32(ht.as_slice()) {
        Some(v) => v,
        None => return Err(ConfigError::InvalidHeight),
    };
    Ok((wv, hv))
}

/// Sets the resolution to `width`×`height`, fullscreen on and screen mode 2.
pub fn update_resolution_values(content: &str, width: u32, height: u32) -> (r: Result<
    String,
    ConfigError,
>)
    ensures
        match r {
            Ok(s) => update_all_spec(content@, resolution_updates(width, height)) == Some(s@),
            Err(e) => update_all_spec(content@, resolution_updates(width, height)) is None && e
                == ConfigError::MissingClosingBrace,
        },
{
    let updates: Vec<(&str, String)> = vec![
        ("WindowWidth", u32_to_string(width)),
        ("WindowHeight", u32_to_string(height)),
        ("Fullscreen", String::from_str("1")),
        ("Screenmode", String::from_str("2")),
    ];
    assert(updates_view(updates@) =~= resolution_updates(width, height));
    update_ini_values(content, updates.as_slice())
}


/// Sets the resolution to that of `resolution`, fullscreen on and screen mode 2.
pub fn update_resolution(content: &str, resolution: &crate::resolution::Resolution) -> (r: Result<
    String,
    ConfigError,
>)
    ensures
        match r {
            Ok(s) => update_all_spec(
                content@,
                resolution_updates(resolution.width, resolution.height),
            ) == Some(s@),
            Err(e) => update_all_spec(
                content@,
                resolution_updates(resolution.width, resolution.height),
            ) is None && e == ConfigError::MissingClosingBrace,
        },
{
    update_resolution_values(content, resolution.width, resolution.height)
}

} // verus!
