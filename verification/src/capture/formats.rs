//! Choosing among the formats a device offers.

use vstd::prelude::*;

use crate::order::{
    comes_first, every_list_has_an_order, ints, order_of, places, sorts, stable_order,
};

verus! {

/// How a device encodes its frames.
#[derive(Debug, Clone, Copy, PartialEq, Eq, Structural)]
pub enum FrameFormat {
    Mjpeg,
    Nv12,
    Yuyv,
    RawRgb,
    RawBgr,
    Gray,
}

/// A format a device offers.
#[derive(Debug, Clone, Copy, PartialEq, Eq, Structural)]
pub struct CameraFormat {
    pub width: u32,
    pub height: u32,
    pub fps: u32,
    pub format: FrameFormat,
}

/// How hungry an encoding is, the least first. Several cameras have to share the
/// USB controller.
pub open spec fn hunger(format: FrameFormat) -> int {
    match format {
        FrameFormat::Mjpeg => 0,
        FrameFormat::Nv12 => 1,
        FrameFormat::Yuyv => 2,
        FrameFormat::RawRgb => 3,
        FrameFormat::RawBgr => 3,
        FrameFormat::Gray => 4,
    }
}

/// How hungry an encoding is, the least first.
pub fn bandwidth_rank(format: FrameFormat) -> (rank: u8)
    ensures
        rank == hunger(format),
{
    match format {
        FrameFormat::Mjpeg => 0,
        FrameFormat::Nv12 => 1,
        FrameFormat::Yuyv => 2,
        FrameFormat::RawRgb | FrameFormat::RawBgr => 3,
        FrameFormat::Gray => 4,
    }
}

/// The distance between two numbers.
pub open spec fn apart(a: u32, b: u32) -> int {
    if a >= b {
        a - b
    } else {
        b - a
    }
}

fn distance(a: u32, b: u32) -> (distance: u64)
    ensures
        distance == apart(a, b),
{
    if a >= b {
        (a - b) as u64
    } else {
        (b - a) as u64
    }
}

/// What was asked for.
#[derive(Debug, Clone, Copy, PartialEq, Eq, Structural)]
pub struct Request {
    pub width: u32,
    pub height: u32,
    pub fps: u32,
}

/// How far a format's resolution is from what was asked for.
pub open spec fn size_miss(format: CameraFormat, request: Request) -> int {
    apart(format.width, request.width) + apart(format.height, request.height)
}

/// Whether one format suits a request strictly better than another: by its
/// resolution, then by its frame rate, and only then by its encoding.
pub open spec fn suits_better(a: CameraFormat, b: CameraFormat, request: Request) -> bool {
    let (sa, sb) = (size_miss(a, request), size_miss(b, request));
    let (ra, rb) = (apart(a.fps, request.fps), apart(b.fps, request.fps));
    sa < sb || (sa == sb && (ra < rb || (ra == rb && hunger(a.format) < hunger(b.format))))
}

fn better(a: CameraFormat, b: CameraFormat, request: Request) -> (better: bool)
    ensures
        better == suits_better(a, b, request),
{
    let sa: u64 = distance(a.width, request.width) + distance(a.height, request.height);
    let sb: u64 = distance(b.width, request.width) + distance(b.height, request.height);
    let ra: u64 = distance(a.fps, request.fps);
    let rb: u64 = distance(b.fps, request.fps);
    sa < sb || (sa == sb && (ra < rb || (ra == rb && bandwidth_rank(a.format) < bandwidth_rank(
        b.format,
    ))))
}

/// Chooses the format closest to what was requested.
///
/// Resolution matters most, then frame rate, and only then the pixel format.
/// Between otherwise equal candidates the least bus-hungry encoding wins, and
/// between those the first.
pub fn pick_format(available: &Vec<CameraFormat>, request: Request) -> (picked: Option<
    CameraFormat,
>)
    ensures
        match picked {
            Some(picked) => exists|at: int|
                #![trigger available@[at]]
                0 <= at < available@.len() && picked == available@[at] && (forall|i: int|
                    0 <= i < at ==> suits_better(picked, #[trigger] available@[i], request)) && (
                forall|i: int|
                    at < i < available@.len() ==> !suits_better(
                        #[trigger] available@[i],
                        picked,
                        request,
                    )),
            None => available@.len() == 0,
        },
{
    if available.len() == 0 {
        return None;
    }
    let mut at: usize = 0;
    let mut i: usize = 1;
    while i < available.len()
        invariant
            at < i <= available.len(),
            forall|k: int|
                0 <= k < at ==> suits_better(
                    available@[at as int],
                    #[trigger] available@[k],
                    request,
                ),
            forall|k: int|
                at < k < i ==> !suits_better(
                    #[trigger] available@[k],
                    available@[at as int],
                    request,
                ),
        decreases available.len() - i,
    {
        if better(available[i], available[at], request) {
            at = i;
        }
        i = i + 1;
    }
    Some(available[at])
}

/// Where a format stands in a list for the user: the largest first, then the
/// fastest, then the least hungry.
pub open spec fn listing_key(format: CameraFormat) -> int {
    (((u32::MAX - format.width) * 0x1_0000_0000 + (u32::MAX - format.height)) * 0x1_0000_0000 + (
    u32::MAX - format.fps)) * 0x100 + hunger(format.format)
}

/// The places of a list of formats.
pub open spec fn listing_keys(formats: Seq<CameraFormat>) -> Seq<int> {
    formats.map_values(|format: CameraFormat| listing_key(format))
}

/// The first `n` entries of a list, without those that repeat an earlier one.
pub open spec fn without_repeats(formats: Seq<CameraFormat>, n: nat) -> Seq<CameraFormat>
    decreases n,
{
    if n == 0 {
        Seq::empty()
    } else {
        let before = without_repeats(formats, (n - 1) as nat);
        if before.contains(formats[n - 1]) {
            before
        } else {
            before.push(formats[n - 1])
        }
    }
}

/// The formats in the order they are shown.
pub open spec fn sorted_formats(formats: Seq<CameraFormat>) -> Seq<CameraFormat> {
    order_of(listing_keys(formats)).map_values(|place: int| formats[place])
}

fn key_of(format: CameraFormat) -> (key: u128)
    ensures
        key == listing_key(format),
{
    let width: u128 = (u32::MAX - format.width) as u128;
    let height: u128 = (u32::MAX - format.height) as u128;
    let fps: u128 = (u32::MAX - format.fps) as u128;
    ((width * 0x1_0000_0000 + height) * 0x1_0000_0000 + fps) * 0x100 + bandwidth_rank(
        format.format,
    ) as u128
}

/// A list without repeats holds what the list holds, once.
proof fn lemma_without_repeats(formats: Seq<CameraFormat>, n: nat)
    requires
        n <= formats.len(),
    ensures
        without_repeats(formats, n).no_duplicates(),
        forall|format: CameraFormat|
            without_repeats(formats, n).contains(format) <==> formats.take(n as int).contains(
                format,
            ),
    decreases n,
{
    if n > 0 {
        lemma_without_repeats(formats, (n - 1) as nat);
        let before = without_repeats(formats, (n - 1) as nat);
        let next = formats[n - 1];
        assert(formats.take(n as int) =~= formats.take(n - 1).push(next));
        assert forall|format: CameraFormat|
            without_repeats(formats, n).contains(format) <==> formats.take(n as int).contains(
                format,
            ) by {
            lemma_contains_push(formats.take(n - 1), next, format);
            lemma_contains_push(before, next, format);
        }
    }
}

proof fn lemma_contains_push(formats: Seq<CameraFormat>, next: CameraFormat, format: CameraFormat)
    ensures
        formats.push(next).contains(format) <==> formats.contains(format) || format == next,
{
    let more = formats.push(next);
    if formats.contains(format) {
        let i = choose|i: int| 0 <= i < formats.len() && formats[i] == format;
        assert(more[i] == format);
    }
    if format == next {
        assert(more[formats.len() as int] == format);
    }
}

/// Sorting formats keeps them all.
proof fn lemma_sorting_keeps_the_formats(formats: Seq<CameraFormat>, format: CameraFormat)
    requires
        sorts(listing_keys(formats), order_of(listing_keys(formats))),
    ensures
        sorted_formats(formats).contains(format) <==> formats.contains(format),
{
    let order = order_of(listing_keys(formats));
    let sorted = sorted_formats(formats);
    if sorted.contains(format) {
        let i = choose|i: int| 0 <= i < sorted.len() && sorted[i] == format;
        assert(formats[order[i]] == format);
    }
    if formats.contains(format) {
        let place = choose|i: int| 0 <= i < formats.len() && formats[i] == format;
        assert(order.contains(place));
        let i = choose|i: int| 0 <= i < order.len() && order[i] == place;
        assert(sorted[i] == format);
    }
}

fn holds_format(formats: &Vec<CameraFormat>, format: CameraFormat) -> (holds: bool)
    ensures
        holds == formats@.contains(format),
{
    let mut i: usize = 0;
    while i < formats.len()
        invariant
            i <= formats.len(),
            forall|k: int| 0 <= k < i ==> #[trigger] formats@[k] != format,
        decreases formats.len() - i,
    {
        if formats[i] == format {
            assert(formats@[i as int] == format);
            return true;
        }
        i = i + 1;
    }
    false
}

/// Sorts the formats a device supports, the largest first, and leaves out
/// repeats.
pub fn list_formats(formats: &Vec<CameraFormat>) -> (listed: Vec<CameraFormat>)
    ensures
        listed@ == without_repeats(sorted_formats(formats@), formats@.len()),
        listed@.no_duplicates(),
        forall|format: CameraFormat| #[trigger]
            listed@.contains(format) <==> formats@.contains(format),
{
    let mut keys: Vec<u128> = Vec::new();
    let mut i: usize = 0;
    while i < formats.len()
        invariant
            i <= formats.len(),
            keys@.len() == i,
            forall|k: int| 0 <= k < i ==> #[trigger] keys@[k] == listing_key(formats@[k]),
        decreases formats.len() - i,
    {
        keys.push(key_of(formats[i]));
        i = i + 1;
    }
    let order = stable_order(&keys);
    proof {
        assert(ints(keys@) =~= listing_keys(formats@));
    }
    let ghost sorted = sorted_formats(formats@);
    let mut listed: Vec<CameraFormat> = Vec::new();
    let mut i: usize = 0;
    while i < order.len()
        invariant
            i <= order.len(),
            order@.len() == formats@.len(),
            sorts(listing_keys(formats@), places(order@)),
            places(order@) == order_of(listing_keys(formats@)),
            sorted == sorted_formats(formats@),
            listed@ == without_repeats(sorted, i as nat),
        decreases order.len() - i,
    {
        proof {
            assert(places(order@)[i as int] == order@[i as int]);
            assert(sorted[i as int] == formats@[order@[i as int] as int]);
        }
        let format: CameraFormat = formats[order[i]];
        if !holds_format(&listed, format) {
            listed.push(format);
        }
        i = i + 1;
    }
    proof {
        lemma_without_repeats(sorted, formats@.len());
        assert(sorted.take(formats@.len() as int) =~= sorted);
        assert forall|format: CameraFormat| #[trigger]
            listed@.contains(format) <==> formats@.contains(format) by {
            lemma_sorting_keeps_the_formats(formats@, format);
        }
    }
    listed
}

/// A frame costs the bus the least where it is compressed, and the more the more bytes
/// a pixel takes; grey, which has no colour to show for it, comes last.
pub proof fn a_compressed_frame_is_the_least_hungry()
    ensures
        hunger(FrameFormat::Mjpeg) < hunger(FrameFormat::Nv12) < hunger(FrameFormat::Yuyv) < hunger(
            FrameFormat::RawRgb,
        ) < hunger(FrameFormat::Gray),
        hunger(FrameFormat::RawRgb) == hunger(FrameFormat::RawBgr),
        hunger(FrameFormat::Mjpeg) == 0,
        hunger(FrameFormat::Gray) == 4,
{
}

/// The format picked misses the size asked for by the least, both sides together; of
/// those the rate by the least; of those it is the least hungry.
pub proof fn the_size_matters_most(a: CameraFormat, b: CameraFormat, request: Request)
    ensures
        ({
            let side = |x: u32, y: u32| if x < y { y - x } else { x - y };
            let of_a = side(a.width, request.width) + side(a.height, request.height);
            let of_b = side(b.width, request.width) + side(b.height, request.height);
            let (rate_a, rate_b) = (side(a.fps, request.fps), side(b.fps, request.fps));
            &&& of_a < of_b ==> suits_better(a, b, request)
            &&& of_a == of_b && rate_a < rate_b ==> suits_better(a, b, request)
            &&& of_a == of_b && rate_a == rate_b ==> (suits_better(a, b, request) <==> hunger(
                a.format,
            ) < hunger(b.format))
            &&& !(suits_better(a, b, request) && suits_better(b, a, request))
        }),
{
}

/// What is listed comes in the order it was sorted into.
proof fn lemma_listed_in_order(formats: Seq<CameraFormat>, n: nat, i: int, j: int)
    requires
        n <= formats.len(),
        0 <= i < j < without_repeats(formats, n).len(),
    ensures
        exists|p: int, q: int|
            0 <= p < q < n && #[trigger] formats[p] == without_repeats(formats, n)[i]
                && #[trigger] formats[q] == without_repeats(formats, n)[j],
    decreases n,
{
    let before = without_repeats(formats, (n - 1) as nat);
    if j < before.len() {
        lemma_listed_in_order(formats, (n - 1) as nat, i, j);
    } else {
        lemma_without_repeats(formats, (n - 1) as nat);
        assert(before.contains(before[i]));
        let seen = formats.take(n - 1);
        assert(seen.contains(before[i]));
        let p = choose|p: int| 0 <= p < seen.len() && seen[p] == before[i];
        assert(formats[p] == without_repeats(formats, n)[i]);
        assert(formats[n - 1] == without_repeats(formats, n)[j]);
    }
}

/// The formats are listed by width, the largest first, then by height, then by rate,
/// and the least hungry first where all three are the same.
pub proof fn the_largest_format_is_listed_first(formats: Seq<CameraFormat>, i: int, j: int)
    requires
        0 <= i < j < without_repeats(sorted_formats(formats), formats.len()).len(),
    ensures
        ({
            let listed = without_repeats(sorted_formats(formats), formats.len());
            let (a, b) = (listed[i], listed[j]);
            &&& a.width >= b.width
            &&& a.width == b.width ==> a.height >= b.height
            &&& a.width == b.width && a.height == b.height ==> a.fps >= b.fps
            &&& a.width == b.width && a.height == b.height && a.fps == b.fps ==> hunger(a.format)
                <= hunger(b.format)
        }),
{
    let keys = listing_keys(formats);
    every_list_has_an_order(keys);
    let sorted = sorted_formats(formats);
    assert(sorted.len() == formats.len());
    lemma_listed_in_order(sorted, formats.len(), i, j);
    let listed = without_repeats(sorted, formats.len());
    let (p, q) = choose|p: int, q: int|
        0 <= p < q < formats.len() && #[trigger] sorted[p] == listed[i] && #[trigger] sorted[q]
            == listed[j];
    let order = order_of(keys);
    assert(comes_first(keys, order[p], order[q]));
    assert(keys[order[p]] == listing_key(sorted[p]));
    assert(keys[order[q]] == listing_key(sorted[q]));
}

} // verus!
