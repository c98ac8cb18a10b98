//! Choosing the screen size to offer by default.

use vstd::prelude::*;

verus! {

/// What the display server reports of one monitor.
#[derive(Debug, Clone, Copy, PartialEq, Eq)]
pub struct DisplaySummary {
    pub is_primary: bool,
    pub width: u32,
    pub height: u32,
}

/// Index of the first primary monitor.
pub open spec fn first_primary_from(ds: Seq<DisplaySummary>, k: int) -> Option<int>
    decreases ds.len() - k,
{
    if k < 0 || k >= ds.len() {
        None
    } else if ds[k].is_primary {
        Some(k)
    } else {
        first_primary_from(ds, k + 1)
    }
}

/// The size of the first primary monitor, else of the first monitor, else 1920×1080.
pub open spec fn primary_resolution_spec(ds: Seq<DisplaySummary>) -> (u32, u32) {
    match first_primary_from(ds, 0) {
        Some(i) => (ds[i].width, ds[i].height),
        None => if ds.len() > 0 {
            (ds[0].width, ds[0].height)
        } else {
            (1920u32, 1080u32)
        },
    }
}

/// The first primary monitor's size is chosen; with no primary monitor, the first monitor's;
/// with none at all, 1920×1080.
pub proof fn lemma_primary_resolution(ds: Seq<DisplaySummary>)
    ensures
        forall|i: int|
            0 <= i < ds.len() && (#[trigger] ds[i]).is_primary && (forall|j: int|
                0 <= j < i ==> !ds[j].is_primary) ==> primary_resolution_spec(ds) == (
                ds[i].width,
                ds[i].height,
            ),
        ds.len() > 0 && (forall|j: int| 0 <= j < ds.len() ==> !(#[trigger] ds[j]).is_primary)
            ==> primary_resolution_spec(ds) == (ds[0].width, ds[0].height),
        ds.len() == 0 ==> primary_resolution_spec(ds) == (1920u32, 1080u32),
{
    assert forall|i: int|
        0 <= i < ds.len() && (#[trigger] ds[i]).is_primary && (forall|j: int|
            0 <= j < i ==> !ds[j].is_primary) implies first_primary_from(ds, 0) == Some(i) by {
        lemma_first_primary_scan(ds, 0, i);
    }
    if ds.len() > 0 && (forall|j: int| 0 <= j < ds.len() ==> !(#[trigger] ds[j]).is_primary) {
        lemma_first_primary_none(ds, 0);
    }
}

proof fn lemma_first_primary_scan(ds: Seq<DisplaySummary>, k: int, i: int)
    requires
        0 <= k <= i < ds.len(),
        ds[i].is_primary,
        forall|j: int| k <= j < i ==> !ds[j].is_primary,
    ensures
        first_primary_from(ds, k) == Some(i),
    decreases i - k,
{
    if k < i {
        lemma_first_primary_scan(ds, k + 1, i);
    }
}

proof fn lemma_first_primary_none(ds: Seq<DisplaySummary>, k: int)
    requires
        0 <= k,
        forall|j: int| 0 <= j < ds.len() ==> !(#[trigger] ds[j]).is_primary,
    ensures
        first_primary_from(ds, k) is None,
    decreases ds.len() - k,
{
    if k < ds.len() {
        assert(!ds[k].is_primary);
        lemma_first_primary_none(ds, k + 1);
    }
}

/// The resolution to offer by default, given the monitors the display server reports (none
/// when it could not be asked).
pub fn detect_primary_resolution(displays: &[DisplaySummary]) -> (r: Option<(u32, u32)>)
    ensures
        r == Some(primary_resolution_spec(displays@)),
        forall|i: int|
            0 <= i < displays@.len() && (#[trigger] displays@[i]).is_primary && (forall|j: int|
                0 <= j < i ==> !displays@[j].is_primary) ==> r == Some(
                (displays@[i].width, displays@[i].height),
            ),
        displays@.len() > 0 && (forall|j: int| 0 <= j < displays@.len() ==> !(
        #[trigger] displays@[j]).is_primary) ==> r == Some((displays@[0].width, displays@[0].height)),
        displays@.len() == 0 ==> r == Some((1920u32, 1080u32)),
{
    proof {
        lemma_primary_resolution(displays@);
    }
    let n = displays.len();
    let mut i: usize = 0;
    while i < n
        invariant
            n == displays@.len(),
            i <= n,
            first_primary_from(displays@, 0) == first_primary_from(displays@, i as int),
        decreases n - i,
    {
        if displays[i].is_primary {
            proof {
                lemma_primary_resolution(displays@);
            }
            return Some((displays[i].width, displays[i].height));
        }
        i += 1;
    }
    if n > 0 {
        Some((displays[0].width, displays[0].height))
    } else {
        Some((1920, 1080))
    }
}

} // verus!
