//! Histogram of the preview.

use vstd::prelude::*;
use vstd::relations::sorted_by;
use vstd::relations::total_ordering;
use crate::geometry::scale_rect_to_size;
use crate::options::{PipelineOptions, Rect};
use crate::single::Single;

verus! {

/// Counts of the 256 values of one channel.
pub type Counts = [u32; 256];

/// The crop in pixels of the preview, by its edges: columns `x0..x1` of rows `y0..y1`.
#[derive(Debug, Clone, Copy, PartialEq, Eq, Structural)]
pub struct Window {
    pub x0: u32,
    pub y0: u32,
    pub x1: u32,
    pub y1: u32,
}

/// The last place before `n`, or `v` if it comes sooner.
pub open spec fn start_of(v: u32, n: u32) -> u32 {
    if n > 0 && v >= n {
        (n - 1) as u32
    } else if n == 0 {
        0
    } else {
        v
    }
}

/// The end of a span within `n` places, at least one after its start.
pub open spec fn end_of(start: u32, end: int, n: u32) -> u32 {
    let e = if end > n {
        n as int
    } else {
        end
    };
    if e > start {
        e as u32
    } else {
        (start + 1) as u32
    }
}

/// The pixels of the preview that are counted; all of them where there is no crop.
pub open spec fn counted_window(
    options: PipelineOptions,
    w: u32,
    h: u32,
    input_w: u32,
    input_h: u32,
) -> Option<Window> {
    match options.crop_rect {
        Some(crop) if options.apply_crop => {
            let scaled = crate::geometry::scaled_rect(
                crop,
                options.crop_rect_reference_size,
                input_w,
                input_h,
            );
            let r = crate::geometry::scaled_rect(scaled, Some((input_w, input_h)), w, h);
            let x0 = start_of(r.x, w);
            let y0 = start_of(r.y, h);
            Some(
                Window {
                    x0,
                    y0,
                    x1: end_of(x0, r.x + r.width, w),
                    y1: end_of(y0, r.y + r.height, h),
                },
            )
        },
        _ => None,
    }
}

fn start_at(v: u32, n: u32) -> (r: u32)
    ensures
        r == start_of(v, n),
{
    if n == 0 {
        0
    } else if v >= n {
        n - 1
    } else {
        v
    }
}

fn end_at(start: u32, end: u64, n: u32) -> (r: u32)
    requires
        n > 0 ==> start < n,
        n == 0 ==> start == 0,
    ensures
        r == end_of(start, end as int, n),
{
    let e: u64 = if end > n as u64 {
        n as u64
    } else {
        end
    };
    if e > start as u64 {
        e as u32
    } else {
        start + 1
    }
}

fn window_for(options: &PipelineOptions, w: u32, h: u32, input_w: u32, input_h: u32) -> (r: Option<
    Window,
>)
    ensures
        r == counted_window(*options, w, h, input_w, input_h),
{
    if !options.apply_crop {
        return None;
    }
    match options.crop_rect {
        None => None,
        Some(crop) => {
            let scaled: Rect = scale_rect_to_size(
                crop,
                options.crop_rect_reference_size,
                input_w,
                input_h,
            );
            let r: Rect = scale_rect_to_size(scaled, Some((input_w, input_h)), w, h);
            let x0: u32 = start_at(r.x, w);
            let y0: u32 = start_at(r.y, h);
            Some(
                Window {
                    x0,
                    y0,
                    x1: end_at(x0, r.x as u64 + r.width as u64, w),
                    y1: end_at(y0, r.y as u64 + r.height as u64, h),
                },
            )
        },
    }
}

/// Pixel `i` of a preview `w` wide is counted.
pub open spec fn counts(window: Option<Window>, w: int, i: int) -> bool {
    match window {
        None => true,
        Some(r) => r.x0 <= i % w < r.x1 && r.y0 <= i / w < r.y1,
    }
}

/// How many of the first `n` pixels are counted and have value `v` in channel `c`.
pub open spec fn tally(rgb: Seq<u8>, window: Option<Window>, w: int, c: int, v: int, n: nat) -> nat
    decreases n,
{
    if n == 0 {
        0
    } else {
        tally(rgb, window, w, c, v, (n - 1) as nat) + if counts(window, w, n - 1) && rgb[3 * (n
            - 1) + c] == v {
            1nat
        } else {
            0nat
        }
    }
}

/// How many of the first `n` pixels are counted.
pub open spec fn counted_pixels(window: Option<Window>, w: int, n: nat) -> nat
    decreases n,
{
    if n == 0 {
        0
    } else {
        counted_pixels(window, w, (n - 1) as nat) + if counts(window, w, n - 1) {
            1nat
        } else {
            0nat
        }
    }
}

/// The counts are those of channel `c`.
pub open spec fn is_tally(
    hist: Counts,
    rgb: Seq<u8>,
    window: Option<Window>,
    w: int,
    c: int,
    n: nat,
) -> bool {
    forall|v: int| 0 <= v < 256 ==> #[trigger] hist@[v] == tally(rgb, window, w, c, v, n)
}

proof fn lemma_tally_bound(rgb: Seq<u8>, window: Option<Window>, w: int, c: int, v: int, n: nat)
    ensures
        tally(rgb, window, w, c, v, n) <= n,
    decreases n,
{
    if n > 0 {
        lemma_tally_bound(rgb, window, w, c, v, (n - 1) as nat);
    }
}

/// Counts the values of each channel in an RGB preview of `w` by `h` pixels, within the crop
/// while it is on. `input_w` by `input_h` is the size of the picture before it was shrunk.
pub fn compute_histogram_from_rgb(
    rgb: &[u8],
    w: u32,
    h: u32,
    options: &PipelineOptions,
    input_w: u32,
    input_h: u32,
) -> (r: (Counts, Counts, Counts))
    requires
        rgb.len() / 3 <= u32::MAX,
        counted_window(*options, w, h, input_w, input_h) is Some && rgb.len() >= 3 ==> w > 0,
    ensures
        ({
            let window = counted_window(*options, w, h, input_w, input_h);
            let n = (rgb.len() / 3) as nat;
            &&& is_tally(r.0, rgb@, window, w as int, 0, n)
            &&& is_tally(r.1, rgb@, window, w as int, 1, n)
            &&& is_tally(r.2, rgb@, window, w as int, 2, n)
        }),
{
    let window: Option<Window> = window_for(options, w, h, input_w, input_h);
    let mut r_hist: Counts = [0u32;256];
    let mut g_hist: Counts = [0u32;256];
    let mut b_hist: Counts = [0u32;256];
    let n: usize = rgb.len() / 3;
    let mut i: usize = 0;
    while i < n
        invariant
            i <= n,
            n == rgb.len() / 3,
            n <= u32::MAX,
            window is Some && rgb.len() >= 3 ==> w > 0,
            is_tally(r_hist, rgb@, window, w as int, 0, i as nat),
            is_tally(g_hist, rgb@, window, w as int, 1, i as nat),
            is_tally(b_hist, rgb@, window, w as int, 2, i as nat),
        decreases n - i,
    {
        let inside: bool = match window {
            None => true,
            Some(r) => {
                let x: usize = i % w as usize;
                let y: usize = i / w as usize;
                r.x0 as usize <= x && x < r.x1 as usize && r.y0 as usize <= y && y < r.y1 as usize
            },
        };
        if inside {
            let red: usize = rgb[3 * i] as usize;
            let green: usize = rgb[3 * i + 1] as usize;
            let blue: usize = rgb[3 * i + 2] as usize;
            proof {
                lemma_tally_bound(rgb@, window, w as int, 0, red as int, i as nat);
                lemma_tally_bound(rgb@, window, w as int, 1, green as int, i as nat);
                lemma_tally_bound(rgb@, window, w as int, 2, blue as int, i as nat);
            }
            r_hist[red] = r_hist[red] + 1;
            g_hist[green] = g_hist[green] + 1;
            b_hist[blue] = b_hist[blue] + 1;
        }
        i = i + 1;
    }
    (r_hist, g_hist, b_hist)
}

/// The sum of the first `k` counts.
pub open spec fn sum_of(hist: spec_fn(int) -> nat, k: nat) -> nat
    decreases k,
{
    if k == 0 {
        0
    } else {
        sum_of(hist, (k - 1) as nat) + hist(k - 1)
    }
}

proof fn lemma_sum_step(
    rgb: Seq<u8>,
    window: Option<Window>,
    w: int,
    c: int,
    n: nat,
    k: nat,
)
    requires
        n > 0,
        k <= 256,
    ensures
        sum_of(|v: int| tally(rgb, window, w, c, v, n), k) == sum_of(
            |v: int| tally(rgb, window, w, c, v, (n - 1) as nat),
            k,
        ) + if counts(window, w, n - 1) && rgb[3 * (n - 1) + c] < k {
            1nat
        } else {
            0nat
        },
    decreases k,
{
    if k > 0 {
        lemma_sum_step(rgb, window, w, c, n, (k - 1) as nat);
    }
}

proof fn lemma_sum_zero(rgb: Seq<u8>, window: Option<Window>, w: int, c: int, k: nat)
    ensures
        sum_of(|v: int| tally(rgb, window, w, c, v, 0), k) == 0,
    decreases k,
{
    if k > 0 {
        lemma_sum_zero(rgb, window, w, c, (k - 1) as nat);
    }
}

/// The counts of a channel add up to the number of pixels that are counted.
pub proof fn counts_add_up(rgb: Seq<u8>, window: Option<Window>, w: int, c: int, n: nat)
    ensures
        sum_of(|v: int| tally(rgb, window, w, c, v, n), 256) == counted_pixels(window, w, n),
    decreases n,
{
    if n == 0 {
        lemma_sum_zero(rgb, window, w, c, 256);
    } else {
        counts_add_up(rgb, window, w, c, (n - 1) as nat);
        lemma_sum_step(rgb, window, w, c, n, 256);
    }
}

/// The counts of one channel that are not zero, in their order.
pub open spec fn heights(hist: Counts) -> Seq<u32> {
    hist@.filter(|v: u32| v > 0)
}

/// Smaller or equal.
pub open spec fn up() -> spec_fn(u32, u32) -> bool {
    |a: u32, b: u32| a <= b
}

/// The count that fills the height of the histogram: the one below which 98 of 100 counts
/// that are not zero lie, over all channels. Spikes above it are cut off.
pub open spec fn y_scale(r: Counts, g: Counts, b: Counts) -> Single {
    let all = heights(r) + heights(g) + heights(b);
    if all.len() == 0 {
        Single::whole(1)
    } else {
        let sorted = all.sort_by(up());
        let i = Single::whole(all.len() as u64).minus(Single::whole(1)).times(
            Single::ratio(98, 100),
        ).rounded().to_int(u64::MAX);
        Single::whole(
            sorted[if i < all.len() - 1 {
                i as int
            } else {
                all.len() - 1
            }] as u64,
        )
    }
}

fn push_heights(all: &mut Vec<u32>, hist: &Counts)
    ensures
        final(all)@ == old(all)@ + heights(*hist),
        final(all).len() <= old(all).len() + 256,
{
    let ghost start = all@;
    let ghost keep = |v: u32| v > 0;
    let mut i: usize = 0;
    while i < 256
        invariant
            i <= 256,
            keep == (|v: u32| v > 0),
            all@ == start + hist@.take(i as int).filter(keep),
            all.len() <= start.len() + i,
        decreases 256 - i,
    {
        let v: u32 = hist[i];
        proof {
            assert(hist@.take(i + 1).drop_last() =~= hist@.take(i as int));
            assert(hist@.take(i + 1).last() == v);
            reveal(Seq::filter);
        }
        if v > 0 {
            all.push(v);
        }
        i = i + 1;
    }
    assert(hist@.take(256) =~= hist@);
}

/// Puts `v` into ascending counts.
fn insert_sorted(s: &mut Vec<u32>, v: u32)
    requires
        sorted_by(old(s)@, up()),
    ensures
        sorted_by(final(s)@, up()),
        final(s)@.to_multiset() == old(s)@.to_multiset().insert(v),
        final(s).len() == old(s).len() + 1,
{
    let mut i: usize = 0;
    while i < s.len() && s[i] <= v
        invariant
            i <= s.len(),
            forall|k: int| 0 <= k < i ==> s@[k] <= v,
        decreases s.len() - i,
    {
        i = i + 1;
    }
    let ghost start = s@;
    s.insert(i, v);
    proof {
        broadcast use vstd::seq_lib::group_to_multiset_ensures;

        assert forall|a: int, b: int| 0 <= a < b < s@.len() implies #[trigger] up()(s@[a], s@[b]) by {
            if a < i && b > i {
                assert(up()(start[a], start[b - 1]));
            } else if b < i {
                assert(up()(start[a], start[b]));
            } else if a > i {
                assert(up()(start[a - 1], start[b - 1]));
            } else if a == i {
                if i < b - 1 {
                    assert(up()(start[i as int], start[b - 1]));
                }
            }
        }
    }
}

proof fn lemma_up_total()
    ensures
        total_ordering(up()),
{
    let r = up();
    assert(vstd::relations::antisymmetric(r));
    assert(vstd::relations::reflexive(r));
    assert(vstd::relations::transitive(r));
    assert(vstd::relations::strongly_connected(r));
}

/// Scale of the histogram: one for all three channels, so that their heights still show the
/// balance of colours.
pub fn histogram_y_scale(r: &Counts, g: &Counts, b: &Counts) -> (s: Single)
    ensures
        s == y_scale(*r, *g, *b),
{
    let mut all: Vec<u32> = Vec::new();
    push_heights(&mut all, r);
    push_heights(&mut all, g);
    push_heights(&mut all, b);
    assert(all@ =~= heights(*r) + heights(*g) + heights(*b));
    if all.len() == 0 {
        return Single::whole(1);
    }
    let mut sorted: Vec<u32> = Vec::new();
    let mut i: usize = 0;
    proof {
        broadcast use vstd::seq_lib::group_to_multiset_ensures;

        assert(sorted@.to_multiset() =~= all@.take(0).to_multiset());
    }
    while i < all.len()
        invariant
            i <= all.len(),
            sorted.len() == i,
            sorted_by(sorted@, up()),
            sorted@.to_multiset() == all@.take(i as int).to_multiset(),
        decreases all.len() - i,
    {
        let v: u32 = all[i];
        insert_sorted(&mut sorted, v);
        proof {
            broadcast use vstd::seq_lib::group_to_multiset_ensures;

            assert(all@.take(i + 1) =~= all@.take(i as int).push(v));
        }
        i = i + 1;
    }
    proof {
        assert(all@.take(all.len() as int) =~= all@);
        lemma_up_total();
        all@.lemma_sort_by_ensures(up());
        vstd::seq_lib::lemma_sorted_unique(sorted@, all@.sort_by(up()), up());
    }
    let k: u64 = Single::whole(all.len() as u64).minus(Single::whole(1)).times(
        Single::ratio(98, 100),
    ).rounded().to_int(u64::MAX);
    let last: usize = all.len() - 1;
    let peak: u32 = sorted[if k < last as u64 {
        k as usize
    } else {
        last
    }];
    Single::whole(peak as u64)
}

} // verus!
