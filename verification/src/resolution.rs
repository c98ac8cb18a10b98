//! The resolutions the tool knows, and the vanilla one it restores.

use vstd::prelude::*;
use vstd::string::StringExecFns;
use crate::text::{decimal, u32_to_string};

verus! {

/// A screen resolution, with the SHA-1 of the graphics engine image patched to it and, where
/// it is at hand, the image itself.
#[derive(Debug, Clone, PartialEq, Eq)]
pub struct Resolution {
    pub width: u32,
    pub height: u32,
    pub aspect_ratio: &'static str,
    pub dll_sha1: &'static str,
    pub dll_data: Vec<u8>,
}

/// `"<width>×<height> (<aspect ratio>)"`.
pub open spec fn resolution_name(width: u32, height: u32, aspect_ratio: Seq<char>) -> Seq<char> {
    decimal(width as nat) + "×"@ + decimal(height as nat) + " ("@ + aspect_ratio + ")"@
}

impl Resolution {
    /// The display name, such as `1920×1080 (16:9)`.
    pub fn name(&self) -> (r: String)
        ensures
            r@ == resolution_name(self.width, self.height, self.aspect_ratio@),
    {
        let mut s = u32_to_string(self.width);
        s.append("×");
        s.append(u32_to_string(self.height).as_str());
        s.append(" (");
        s.append(self.aspect_ratio);
        s.append(")");
        s
    }
}

/// The vanilla resolution, 1024×768 (4:3), with the vanilla image `dll_data`.
pub fn res_default(dll_data: Vec<u8>) -> (r: Resolution)
    ensures
        r.width == 1024,
        r.height == 768,
        r.aspect_ratio@ == "4:3"@,
        r.dll_sha1@ == "F25CA243F617BB626614EFA8AB611509C971E6C4"@,
        r.dll_data == dll_data,
{
    Resolution {
        width: 1024,
        height: 768,
        aspect_ratio: "4:3",
        dll_sha1: "F25CA243F617BB626614EFA8AB611509C971E6C4",
        dll_data,
    }
}

/// SHA-1 hashes of the `S4.exe` of the GOG Gold Edition v2.50.1508 (the executable is checked
/// rather than the image, which changes when patched).
pub open spec fn known_gog_s4_exe_hashes_spec() -> Seq<Seq<char>> {
    seq!["F4C2B5D0C3B9C2BB250F69CFB18D8B98A9061981"@]
}

pub fn known_gog_s4_exe_hashes() -> (r: Vec<&'static str>)
    ensures
        r@.map_values(|s: &str| s@) == known_gog_s4_exe_hashes_spec(),
{
    let r = vec!["F4C2B5D0C3B9C2BB250F69CFB18D8B98A9061981"];
    assert(r@.map_values(|s: &str| s@) =~= known_gog_s4_exe_hashes_spec());
    r
}

/// Width and height of the widescreen presets, in order.
pub open spec fn preset_dims() -> Seq<(u32, u32)> {
    seq![
        (1024u32, 600u32),
        (1280u32, 720u32),
        (1280u32, 800u32),
        (1366u32, 768u32),
        (1440u32, 900u32),
        (1680u32, 1050u32),
        (1920u32, 1080u32),
        (1920u32, 1200u32),
    ]
}

/// Aspect ratios of the widescreen presets, in order.
pub open spec fn preset_aspects() -> Seq<Seq<char>> {
    seq![
        "17:10"@,
        "16:9"@,
        "16:10"@,
        "16:9"@,
        "16:10"@,
        "16:10"@,
        "16:9"@,
        "16:10"@,
    ]
}

/// SHA-1 hashes of the images patched to each preset, in order.
pub open spec fn preset_sha1s() -> Seq<Seq<char>> {
    seq![
        "4968B9D20D87C901F57AB37F1BCAAC405365A89A"@,
        "DE125A1E238D568D165DF0FFFEAB047C690C7ED2"@,
        "1107429472318D11DFF90691964281A4E61743BC"@,
        "1E3A0B201DC71F9E6D5AC0A9BF4419E575BE4799"@,
        "11D68FF1AA00DBE0E78528D1DD913EF3B34C1E23"@,
        "B9923B050E51C1A5F9E1DE8828861111DF811980"@,
        "183DE9D83D2971AE9DCFD0E1ADB41A1A581C63FE"@,
        "B08496740134C2B4660C864E3F0DB3C980F14C4B"@,
    ]
}

fn preset(
    width: u32,
    height: u32,
    aspect_ratio: &'static str,
    dll_sha1: &'static str,
    dll_data: Vec<u8>,
) -> (r: Resolution)
    ensures
        r.width == width,
        r.height == height,
        r.aspect_ratio == aspect_ratio,
        r.dll_sha1 == dll_sha1,
        r.dll_data == dll_data,
{
    Resolution { width, height, aspect_ratio, dll_sha1, dll_data }
}

/// The image a preset carries: the three pre-patched images shipped with the tool belong to
/// 1024×600, 1680×1050 and 1920×1080; the other presets have none.
pub open spec fn preset_image(i: int, dll_1024x600: Seq<u8>, dll_1680x1050: Seq<u8>, dll_1920x1080: Seq<u8>) -> Seq<u8> {
    if i == 0 {
        dll_1024x600
    } else if i == 5 {
        dll_1680x1050
    } else if i == 6 {
        dll_1920x1080
    } else {
        Seq::empty()
    }
}

/// The eight widescreen presets, with the pre-patched images for 1024×600, 1680×1050 and
/// 1920×1080 (empty where none is at hand).
pub fn resolutions(dll_1024x600: Vec<u8>, dll_1680x1050: Vec<u8>, dll_1920x1080: Vec<u8>) -> (r: Vec<Resolution>)
    ensures
        r@.len() == 8,
        forall|i: int|
            0 <= i < 8 ==> {
                &&& (#[trigger] r@[i]).width == preset_dims()[i].0
                &&& r@[i].height == preset_dims()[i].1
                &&& r@[i].aspect_ratio@ == preset_aspects()[i]
                &&& r@[i].dll_sha1@ == preset_sha1s()[i]
                &&& r@[i].dll_data@ == preset_image(i, dll_1024x600@, dll_1680x1050@, dll_1920x1080@)
            },
{
    let ghost (a, b, c) = (dll_1024x600@, dll_1680x1050@, dll_1920x1080@);
    let r = vec![
        preset(1024, 600, "17:10", "4968B9D20D87C901F57AB37F1BCAAC405365A89A", dll_1024x600),
        preset(1280, 720, "16:9", "DE125A1E238D568D165DF0FFFEAB047C690C7ED2", Vec::new()),
        preset(1280, 800, "16:10", "1107429472318D11DFF90691964281A4E61743BC", Vec::new()),
        preset(1366, 768, "16:9", "1E3A0B201DC71F9E6D5AC0A9BF4419E575BE4799", Vec::new()),
        preset(1440, 900, "16:10", "11D68FF1AA00DBE0E78528D1DD913EF3B34C1E23", Vec::new()),
        preset(1680, 1050, "16:10", "B9923B050E51C1A5F9E1DE8828861111DF811980", dll_1680x1050),
        preset(1920, 1080, "16:9", "183DE9D83D2971AE9DCFD0E1ADB41A1A581C63FE", dll_1920x1080),
        preset(1920, 1200, "16:10", "B08496740134C2B4660C864E3F0DB3C980F14C4B", Vec::new()),
    ];
    assert(r@[0].dll_data@ == a);
    assert(r@[5].dll_data@ == b);
    assert(r@[6].dll_data@ == c);
    r
}

pub open spec fn abs_diff(a: int, b: int) -> int {
    if a >= b {
        a - b
    } else {
        b - a
    }
}

/// How far a preset `w`×`h` is from the target `tw`×`th`: a thousand times the difference of
/// the aspect ratios plus a tenth of the difference in size, rounded down. The aspect ratio
/// weighs most. With a zero target height every preset is equally far.
pub open spec fn closeness_key(w: u32, h: u32, tw: u32, th: u32) -> int {
    if th == 0 || h == 0 {
        0
    } else {
        (10000 * abs_diff(w * th, tw * h) + (abs_diff(w as int, tw as int) + abs_diff(
            h as int,
            th as int,
        )) * h * th) / (10 * h * th)
    }
}

pub open spec fn preset_key(i: int, tw: u32, th: u32) -> int {
    closeness_key(preset_dims()[i].0, preset_dims()[i].1, tw, th)
}

fn abs_diff_u128(a: u128, b: u128) -> (r: u128)
    ensures
        r == abs_diff(a as int, b as int),
{
    if a >= b {
        a - b
    } else {
        b - a
    }
}

fn key_of(w: u32, h: u32, tw: u32, th: u32) -> (r: u128)
    requires
        w <= 2000,
        h <= 2000,
    ensures
        r == closeness_key(w, h, tw, th),
{
    if th == 0 || h == 0 {
        return 0;
    }
    let w1 = w as u128;
    let h1 = h as u128;
    let tw1 = tw as u128;
    let th1 = th as u128;
    assert(w1 * th1 <= 2000 * 0xffff_ffff) by (nonlinear_arith)
        requires
            w1 <= 2000,
            th1 <= 0xffff_ffff,
    ;
    assert(tw1 * h1 <= 2000 * 0xffff_ffff) by (nonlinear_arith)
        requires
            h1 <= 2000,
            tw1 <= 0xffff_ffff,
    ;
    assert(h1 * th1 <= 2000 * 0xffff_ffff) by (nonlinear_arith)
        requires
            h1 <= 2000,
            th1 <= 0xffff_ffff,
    ;
    let ratio = abs_diff_u128(w1 * th1, tw1 * h1);
    let size = abs_diff_u128(w1, tw1) + abs_diff_u128(h1, th1);
    let hth = h1 * th1;
    assert(size * hth <= 0x2_0000_0000 * (2000 * 0xffff_ffff)) by (nonlinear_arith)
        requires
            size <= 0x2_0000_0000,
            hth <= 2000 * 0xffff_ffff,
    ;
    assert(10 * hth > 0) by (nonlinear_arith)
        requires
            h1 > 0,
            th1 > 0,
            hth == h1 * th1,
    ;
    let num = 10000 * ratio + size * hth;
    let den = 10 * hth;
    proof {
        assert(size * hth == (abs_diff(w as int, tw as int) + abs_diff(h as int, th as int)) * h
            * th) by (nonlinear_arith)
            requires
                size == abs_diff(w as int, tw as int) + abs_diff(h as int, th as int),
                hth == h * th,
        ;
        assert(den == 10 * h * th) by (nonlinear_arith)
            requires
                den == 10 * hth,
                hth == h * th,
        ;
        assert(ratio == abs_diff(w * th, tw * h));
    }
    num / den
}

/// Index of the preset closest to `tw`×`th`: the first one whose key is smallest.
pub fn closest_resolution_index(tw: u32, th: u32) -> (r: usize)
    ensures
        r < 8,
        forall|j: int| 0 <= j < 8 ==> preset_key(r as int, tw, th) <= #[trigger] preset_key(j, tw, th),
        forall|j: int| 0 <= j < r ==> preset_key(r as int, tw, th) < #[trigger] preset_key(j, tw, th),
{
    let dims: Vec<(u32, u32)> = vec![
        (1024, 600),
        (1280, 720),
        (1280, 800),
        (1366, 768),
        (1440, 900),
        (1680, 1050),
        (1920, 1080),
        (1920, 1200),
    ];
    assert(dims@ =~= preset_dims());
    let mut best: usize = 0;
    let mut best_key = key_of(dims[0].0, dims[0].1, tw, th);
    let mut i: usize = 1;
    while i < 8
        invariant
            dims@ == preset_dims(),
            1 <= i <= 8,
            best < i,
            best_key == preset_key(best as int, tw, th),
            forall|j: int| 0 <= j < i ==> preset_key(best as int, tw, th) <= #[trigger] preset_key(j, tw, th),
            forall|j: int| 0 <= j < best ==> preset_key(best as int, tw, th) < #[trigger] preset_key(j, tw, th),
        decreases 8 - i,
    {
        let k = key_of(dims[i].0, dims[i].1, tw, th);
        if k < best_key {
            best = i;
            best_key = k;
        }
        i += 1;
    }
    best
}

/// The preset closest to `tw`×`th` (see [`closeness_key`]), with its image (see
/// [`resolutions`]).
pub fn find_closest_resolution(
    target_width: u32,
    target_height: u32,
    dll_1024x600: Vec<u8>,
    dll_1680x1050: Vec<u8>,
    dll_1920x1080: Vec<u8>,
) -> (r: Resolution)
    ensures
        exists|i: int|
            0 <= i < 8 && r.width == preset_dims()[i].0 && r.height == preset_dims()[i].1
                && r.aspect_ratio@ == preset_aspects()[i] && r.dll_sha1@ == preset_sha1s()[i]
                && r.dll_data@ == preset_image(i, dll_1024x600@, dll_1680x1050@, dll_1920x1080@)
                && (forall|j: int| 0 <= j < 8 ==> preset_key(i, target_width, target_height) <= #[trigger] preset_key(j, target_width, target_height))
                && (forall|j: int| 0 <= j < i ==> preset_key(i, target_width, target_height) < #[trigger] preset_key(j, target_width, target_height)),
{
    let i = closest_resolution_index(target_width, target_height);
    let mut all = resolutions(dll_1024x600, dll_1680x1050, dll_1920x1080);
    all.swap_remove(i)
}

proof fn lemma_key_at_least_one(w: u32, h: u32, tw: u32, th: u32)
    requires
        h > 0,
        th > 0,
        abs_diff(w as int, tw as int) + abs_diff(h as int, th as int) >= 10,
    ensures
        closeness_key(w, h, tw, th) >= 1,
{
    let a = abs_diff(w * th, tw * h);
    let sz = abs_diff(w as int, tw as int) + abs_diff(h as int, th as int);
    let num = 10000 * a + sz * h * th;
    assert(num >= 10 * h * th) by (nonlinear_arith)
        requires
            num == 10000 * a + sz * h * th,
            a >= 0,
            sz >= 10,
            h > 0,
            th > 0,
    ;
    assert(num / (10 * h * th) >= 1) by (nonlinear_arith)
        requires
            num >= 10 * h * th,
            h > 0,
            th > 0,
    ;
}

proof fn lemma_presets_far_apart(i: int, r: int)
    requires
        0 <= i < 8,
        0 <= r < 8,
        i != r,
    ensures
        abs_diff(preset_dims()[r].0 as int, preset_dims()[i].0 as int) + abs_diff(
            preset_dims()[r].1 as int,
            preset_dims()[i].1 as int,
        ) >= 10,
{
    let d = preset_dims();
    assert(d[0] == (1024u32, 600u32));
    assert(d[1] == (1280u32, 720u32));
    assert(d[2] == (1280u32, 800u32));
    assert(d[3] == (1366u32, 768u32));
    assert(d[4] == (1440u32, 900u32));
    assert(d[5] == (1680u32, 1050u32));
    assert(d[6] == (1920u32, 1080u32));
    assert(d[7] == (1920u32, 1200u32));
}

/// The key in closed form: with `d` the difference of the aspect ratios `w/h` and `tw/th` and
/// `s` the difference in size (`|w - tw| + |h - th|`), the key is the whole number `k` with
/// `k <= 1000 d + s/10 < k + 1`. Both sides are multiplied by `10 h th` here, so that
/// `1000 d` becomes `10000 |w th - tw h|`. A zero height gives key 0.
pub proof fn lemma_closeness_key_closed_form(w: u32, h: u32, tw: u32, th: u32)
    ensures
        (h == 0 || th == 0) ==> closeness_key(w, h, tw, th) == 0,
        (h > 0 && th > 0) ==> ({
            let k = closeness_key(w, h, tw, th);
            let d = 10 * h * th;
            let scaled = 10000 * abs_diff(w * th, tw * h) + (abs_diff(w as int, tw as int)
                + abs_diff(h as int, th as int)) * h * th;
            &&& d * k <= scaled
            &&& scaled < d * (k + 1)
        }),
{
    if h > 0 && th > 0 {
        let d: int = 10 * h * th;
        let x: int = 10000 * abs_diff(w * th, tw * h) + (abs_diff(w as int, tw as int)
            + abs_diff(h as int, th as int)) * h * th;
        assert(d > 0) by (nonlinear_arith)
            requires
                h > 0,
                th > 0,
                d == 10 * h * th,
        ;
        assert(x >= 0) by (nonlinear_arith)
            requires
                h > 0,
                th > 0,
                x == 10000 * abs_diff(w * th, tw * h) + (abs_diff(w as int, tw as int)
                    + abs_diff(h as int, th as int)) * h * th,
                abs_diff(w * th, tw * h) >= 0,
                abs_diff(w as int, tw as int) >= 0,
                abs_diff(h as int, th as int) >= 0,
        ;
        vstd::arithmetic::div_mod::lemma_fundamental_div_mod(x, d);
        vstd::arithmetic::div_mod::lemma_mod_pos_bound(x, d);
        assert(closeness_key(w, h, tw, th) == x / d);
        assert(d * (x / d + 1) == d * (x / d) + d) by (nonlinear_arith);
    }
}

/// A target that is itself a preset is matched by that preset: the only preset of smallest
/// key is the one of the same size.
pub proof fn lemma_closest_exact(i: int)
    requires
        0 <= i < 8,
    ensures
        forall|r: int|
            0 <= r < 8 && (forall|j: int| 0 <= j < 8 ==> preset_key(r, preset_dims()[i].0, preset_dims()[i].1) <= #[trigger] preset_key(j, preset_dims()[i].0, preset_dims()[i].1))
                ==> preset_dims()[r] == preset_dims()[i],
{
    let (tw, th) = preset_dims()[i];
    lemma_presets_far_apart(i, (i + 1) % 8);
    assert(th > 0);
    assert(preset_key(i, tw, th) == 0) by {
        assert(abs_diff(tw * th, tw * th) == 0);
    }
    assert forall|r: int|
        0 <= r < 8 && (forall|j: int| 0 <= j < 8 ==> preset_key(r, tw, th) <= #[trigger] preset_key(j, tw, th))
        implies preset_dims()[r] == preset_dims()[i] by {
        assert(preset_key(r, tw, th) <= preset_key(i, tw, th));
        if r != i {
            lemma_presets_far_apart(i, r);
            lemma_key_at_least_one(preset_dims()[r].0, preset_dims()[r].1, tw, th);
        }
    }
}

} // verus!
