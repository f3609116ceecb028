//! Speech-region planning: merging, intersecting and splitting regions of
//! speech, and cutting the audio into overlapping chunks for recognition.
//!
//! All positions are sample indices. The floating-point parts of region
//! detection (the neural detector and frame energies) run outside this module
//! and hand in their results: activity flags per frame, and a cut finder.

use vstd::prelude::*;

verus! {

/// A half-open range `[start_sample, end_sample)` of detected speech.
#[derive(Debug, Clone, Copy, PartialEq, Eq, Structural)]
pub struct SpeechRegion {
    pub start_sample: usize,
    pub end_sample: usize,
}

/// A chunk to recognise: the main range whose segments are kept, inside a
/// wider window that adds context on both sides.
#[derive(Debug, Clone, Copy, PartialEq, Eq, Structural)]
pub struct PlannedChunk {
    pub main_start_sample: usize,
    pub main_end_sample: usize,
    pub window_start_sample: usize,
    pub window_end_sample: usize,
}

/// Integer parameters of the planner (durations in milliseconds).
#[derive(Debug, Clone, Copy, PartialEq, Eq, Structural)]
pub struct VadPlannerConfig {
    pub sample_rate: u32,
    pub min_speech_ms: u32,
    pub min_silence_ms: u32,
    pub hangover_ms: u32,
    pub max_merge_gap_ms: u32,
    pub min_chunk_ms: u32,
    pub max_chunk_ms: u32,
    pub overlap_ms: u32,
    pub energy_frame_ms: u32,
}

impl Default for VadPlannerConfig {
    fn default() -> (c: Self)
        ensures
            c == (VadPlannerConfig {
                sample_rate: 16000,
                min_speech_ms: 180,
                min_silence_ms: 450,
                hangover_ms: 80,
                max_merge_gap_ms: 250,
                min_chunk_ms: 15_000,
                max_chunk_ms: 120_000,
                overlap_ms: 5_000,
                energy_frame_ms: 20,
            }),
    {
        VadPlannerConfig {
            sample_rate: 16000,
            min_speech_ms: 180,
            min_silence_ms: 450,
            hangover_ms: 80,
            max_merge_gap_ms: 250,
            min_chunk_ms: 15_000,
            max_chunk_ms: 120_000,
            overlap_ms: 5_000,
            energy_frame_ms: 20,
        }
    }
}

/// Number of samples in `ms` milliseconds at `rate` Hz, rounded down (and
/// truncated to the width of `usize`, as the conversion does).
pub open spec fn ms_samples(ms: u32, rate: u32) -> usize {
    ((ms as u64 * rate as u64) / 1000) as usize
}

/// `a - b`, or zero where `b > a`.
pub open spec fn sat_sub(a: usize, b: usize) -> usize {
    if a >= b {
        (a - b) as usize
    } else {
        0
    }
}

pub open spec fn min_usize(a: usize, b: usize) -> usize {
    if a <= b {
        a
    } else {
        b
    }
}

pub open spec fn max_usize(a: usize, b: usize) -> usize {
    if a >= b {
        a
    } else {
        b
    }
}

/// The chunk `build_chunk` makes.
pub open spec fn chunk_of(main_start: usize, main_end: usize, total: usize, overlap: usize) -> PlannedChunk {
    PlannedChunk {
        main_start_sample: main_start,
        main_end_sample: main_end,
        window_start_sample: sat_sub(main_start, overlap),
        window_end_sample: min_usize((main_end + overlap) as usize, total),
    }
}

/// Consecutive chunks of at most `max` samples covering `[start, end)`.
pub open spec fn pieces(start: usize, end: usize, max: usize, total: usize, overlap: usize) -> Seq<
    PlannedChunk,
>
    decreases end - start,
{
    if start >= end || max == 0 {
        Seq::empty()
    } else {
        let e: usize = if start + max <= end {
            (start + max) as usize
        } else {
            end
        };
        seq![chunk_of(start, e, total, overlap)] + pieces(e, end, max, total, overlap)
    }
}

/// The chunks of `plan_fixed_chunks`.
pub open spec fn fixed_plan(total: usize, max: usize, overlap: usize) -> Seq<PlannedChunk> {
    if total == 0 {
        seq![chunk_of(0, 0, total, overlap)]
    } else {
        pieces(0, total, max, total, overlap)
    }
}

/// What `merge_regions` yields from the region `cur` under construction and
/// the regions `rest` after it.
pub open spec fn merge_from(cur: SpeechRegion, rest: Seq<SpeechRegion>, max_gap: usize, min_chunk: usize) -> Seq<
    SpeechRegion,
>
    decreases rest.len(),
{
    if rest.len() == 0 {
        seq![cur]
    } else {
        let r = rest[0];
        if sat_sub(r.start_sample, cur.end_sample) <= max_gap || sat_sub(
            cur.end_sample,
            cur.start_sample,
        ) < min_chunk {
            merge_from(
                SpeechRegion {
                    start_sample: cur.start_sample,
                    end_sample: max_usize(cur.end_sample, r.end_sample),
                },
                rest.drop_first(),
                max_gap,
                min_chunk,
            )
        } else {
            seq![cur] + merge_from(r, rest.drop_first(), max_gap, min_chunk)
        }
    }
}

/// Regions closer than `max_gap` samples, or following a region shorter than
/// `min_chunk`, are joined.
pub open spec fn merged(regions: Seq<SpeechRegion>, max_gap: usize, min_chunk: usize) -> Seq<
    SpeechRegion,
> {
    if regions.len() == 0 {
        Seq::empty()
    } else {
        merge_from(regions[0], regions.drop_first(), max_gap, min_chunk)
    }
}

/// The overlap of `a` and `b`.
pub open spec fn overlap_of(a: SpeechRegion, b: SpeechRegion) -> SpeechRegion {
    SpeechRegion {
        start_sample: max_usize(a.start_sample, b.start_sample),
        end_sample: min_usize(a.end_sample, b.end_sample),
    }
}

/// An overlap long enough to keep.
pub open spec fn kept_overlap(a: SpeechRegion, b: SpeechRegion, min_overlap: usize) -> bool {
    let o = overlap_of(a, b);
    o.end_sample > o.start_sample && o.end_sample - o.start_sample >= min_overlap
}

/// The two-pointer walk of `intersect_regions` from positions `i` and `j`.
pub open spec fn intersect_from(
    p: Seq<SpeechRegion>,
    s: Seq<SpeechRegion>,
    min_overlap: usize,
    i: int,
    j: int,
) -> Seq<SpeechRegion>
    decreases p.len() - i + s.len() - j,
{
    if i < 0 || j < 0 || i >= p.len() || j >= s.len() {
        Seq::empty()
    } else {
        let rest = if p[i].end_sample < s[j].end_sample {
            intersect_from(p, s, min_overlap, i + 1, j)
        } else {
            intersect_from(p, s, min_overlap, i, j + 1)
        };
        if kept_overlap(p[i], s[j], min_overlap) {
            seq![overlap_of(p[i], s[j])] + rest
        } else {
            rest
        }
    }
}

/// End of the run of `target` values that starts at `k`.
pub open spec fn run_end(s: Seq<bool>, target: bool, k: int) -> int
    decreases s.len() - k,
{
    if k < 0 || k >= s.len() || s[k] != target {
        k
    } else {
        run_end(s, target, k + 1)
    }
}

/// A run of `len` values is short: below `bound`, or at most `bound` when
/// `inclusive`.
pub open spec fn is_short(len: int, bound: usize, inclusive: bool) -> bool {
    if inclusive {
        len <= bound
    } else {
        len < bound
    }
}

/// The flags from position `idx` on, with every short run of `target` values
/// turned into the opposite value.
pub open spec fn flip_short(s: Seq<bool>, target: bool, bound: usize, inclusive: bool, idx: int) -> Seq<
    bool,
>
    decreases s.len() - idx,
{
    if idx < 0 || idx >= s.len() {
        Seq::empty()
    } else if s[idx] != target {
        seq![s[idx]] + flip_short(s, target, bound, inclusive, idx + 1)
    } else {
        let e = run_end(s, target, idx);
        proof {
            lemma_run_end(s, target, idx);
        }
        let run = if is_short(e - idx, bound, inclusive) {
            Seq::new((e - idx) as nat, |_i: int| !target)
        } else {
            s.subrange(idx, e)
        };
        run + flip_short(s, target, bound, inclusive, e)
    }
}

/// The regions of consecutive `true` flags from position `idx` on, each
/// flag standing for `fs` samples; `open` is the start of a region that is
/// still open.
pub open spec fn flag_regions(flags: Seq<bool>, fs: usize, idx: int, open: Option<usize>) -> Seq<
    SpeechRegion,
>
    decreases flags.len() - idx,
{
    if idx < 0 || idx >= flags.len() {
        match open {
            Some(st) => seq![SpeechRegion { start_sample: st, end_sample: (flags.len() * fs) as usize }],
            None => Seq::empty(),
        }
    } else {
        match open {
            None => if flags[idx] {
                flag_regions(flags, fs, idx + 1, Some((idx * fs) as usize))
            } else {
                flag_regions(flags, fs, idx + 1, None)
            },
            Some(st) => if flags[idx] {
                flag_regions(flags, fs, idx + 1, Some(st))
            } else {
                seq![SpeechRegion { start_sample: st, end_sample: (idx * fs) as usize }]
                    + flag_regions(flags, fs, idx + 1, None)
            },
        }
    }
}

/// Frames in `ms` milliseconds of `frame_ms`-long frames, at least one.
pub open spec fn frames_for(ms: u32, frame_ms: u32) -> usize {
    let n = (ms as usize) / (frame_ms as usize);
    if n >= 1 {
        n
    } else {
        1
    }
}

/// The regions `energy_regions_from_flags` yields: speech runs shorter than
/// `min_speech_ms` are dropped, then silences no longer than
/// `min_silence_ms` are filled, then the remaining runs become regions.
pub open spec fn energy_regions(active: Seq<bool>, c: VadPlannerConfig) -> Seq<SpeechRegion> {
    let fs = ms_samples(c.energy_frame_ms, c.sample_rate);
    if fs == 0 {
        Seq::empty()
    } else {
        let speech = flip_short(active, true, frames_for(c.min_speech_ms, c.energy_frame_ms), false, 0);
        let filled = flip_short(speech, false, frames_for(c.min_silence_ms, c.energy_frame_ms), true, 0);
        flag_regions(filled, fs, 0, None)
    }
}

/// Index one past the last region that still fits, with the regions from
/// `k` on, within `max` samples of `start`.
pub open spec fn group_end(regions: Seq<SpeechRegion>, start: usize, k: int, max: usize) -> int
    decreases regions.len() - k,
{
    if k < 0 || k >= regions.len() || sat_sub(regions[k].end_sample, start) > max {
        k
    } else {
        group_end(regions, start, k + 1, max)
    }
}

/// The chunks `plan_chunks_from_split_regions` plans from region `idx` on.
pub open spec fn plan_from(
    regions: Seq<SpeechRegion>,
    idx: int,
    total: usize,
    max: usize,
    min: usize,
    overlap: usize,
) -> Seq<PlannedChunk>
    decreases regions.len() - idx,
{
    if idx < 0 || idx >= regions.len() {
        Seq::empty()
    } else {
        let start = regions[idx].start_sample;
        let next = group_end(regions, start, idx + 1, max);
        proof {
            lemma_group_end(regions, start, idx + 1, max);
        }
        let chunk_end = regions[next - 1].end_sample;
        let chunks = if sat_sub(chunk_end, start) > max {
            pieces(start, chunk_end, max, total, overlap)
        } else {
            let main_end = if sat_sub(chunk_end, start) < min {
                min_usize((start + min) as usize, total)
            } else {
                chunk_end
            };
            seq![chunk_of(start, main_end, total, overlap)]
        };
        chunks + plan_from(regions, next, total, max, min, overlap)
    }
}

/// Every region leaves room for `extra` more samples below `usize::MAX`.
pub open spec fn regions_fit(regions: Seq<SpeechRegion>, extra: int) -> bool {
    forall|i: int|
        0 <= i < regions.len() ==> #[trigger] regions[i].start_sample + extra <= usize::MAX
            && regions[i].end_sample + extra <= usize::MAX
}

/// `ps` cuts `r` into non-empty consecutive pieces.
pub open spec fn is_partition(ps: Seq<SpeechRegion>, r: SpeechRegion) -> bool {
    &&& ps.len() > 0
    &&& ps[0].start_sample == r.start_sample
    &&& ps.last().end_sample == r.end_sample
    &&& forall|k: int| 0 <= k < ps.len() - 1 ==> #[trigger] ps[k].end_sample == ps[k + 1].start_sample
    &&& forall|k: int|
        0 <= k < ps.len() ==> #[trigger] ps[k].start_sample < ps[k].end_sample && r.start_sample
            <= ps[k].start_sample && ps[k].end_sample <= r.end_sample
}

/// The request made of `find_cut` for the piece that starts at `s` in a
/// region ending at `end`: search from `max(s + max - radius, s + min / 2)`
/// (the first term saturating at 0) up to `min(s + max + radius, end - min / 2)`
/// (the second saturating at 0), in frames of `max(frame, 1)` samples, aiming
/// at `s + max`.
pub open spec fn cut_request(s: usize, end: usize, max: usize, min: usize, frame: usize, radius: usize) -> (
    usize,
    usize,
    usize,
    usize,
) {
    let target = s + max;
    let low = if target >= radius {
        target - radius
    } else {
        0
    };
    let floor = s + min / 2;
    let high = target + radius;
    let end_less = sat_sub(end, min / 2);
    (
        (if low >= floor {
            low
        } else {
            floor
        }) as usize,
        (if high <= end_less {
            high
        } else {
            end_less as int
        }) as usize,
        if frame >= 1 {
            frame
        } else {
            1
        },
        target as usize,
    )
}

/// A proposed cut `raw` for the piece starting at `s`, clamped into
/// `[s + keep, end - keep]` where `keep = min(min, end - s)`.
pub open spec fn clamped_cut(raw: usize, s: usize, end: usize, min: usize) -> int {
    let keep = if min <= end - s {
        min as int
    } else {
        end - s
    };
    let raised = if raw >= s + keep {
        raw as int
    } else {
        s + keep
    };
    if raised <= end - keep {
        raised
    } else {
        end - keep
    }
}

/// `cut` is where the piece starting at `s` is cut: `find_cut`'s answer to
/// `cut_request`, clamped.
pub open spec fn proposed_cut<F: Fn(usize, usize, usize, usize) -> usize>(
    find_cut: F,
    s: usize,
    end: usize,
    max: usize,
    min: usize,
    frame: usize,
    radius: usize,
    cut: int,
) -> bool {
    exists|raw: usize|
        call_ensures(find_cut, cut_request(s, end, max, min, frame, radius), raw) && cut
            == clamped_cut(raw, s, end, min)
}

/// How one region is split. A region no longer than `max` stays as it is. A
/// longer one is cut into consecutive pieces: each piece but the last starts
/// more than `max` before the region's end and ends where `find_cut`'s
/// proposal for it lands once clamped; the last piece is at most `max` long,
/// or the proposal for it would not have fallen strictly inside it.
pub open spec fn split_ok<F: Fn(usize, usize, usize, usize) -> usize>(
    ps: Seq<SpeechRegion>,
    r: SpeechRegion,
    max: usize,
    min: usize,
    frame: usize,
    radius: usize,
    find_cut: F,
) -> bool {
    if sat_sub(r.end_sample, r.start_sample) <= max {
        ps == seq![r]
    } else {
        &&& is_partition(ps, r)
        &&& forall|k: int|
            0 <= k < ps.len() - 1 ==> r.end_sample - ps[k].start_sample > max && #[trigger] proposed_cut(
                find_cut,
                ps[k].start_sample,
                r.end_sample,
                max,
                min,
                frame,
                radius,
                ps[k].end_sample as int,
            )
        &&& r.end_sample - ps.last().start_sample <= max || exists|c: int|
            #[trigger] proposed_cut(
                find_cut,
                ps.last().start_sample,
                r.end_sample,
                max,
                min,
                frame,
                radius,
                c,
            ) && (c <= ps.last().start_sample || c >= r.end_sample)
    }
}

/// The pieces of all parts, in order.
pub open spec fn flatten(parts: Seq<Seq<SpeechRegion>>) -> Seq<SpeechRegion>
    decreases parts.len(),
{
    if parts.len() == 0 {
        Seq::empty()
    } else {
        flatten(parts.drop_last()) + parts.last()
    }
}

/// `out` is `regions` with each region split as `split_ok` says.
pub open spec fn is_split_of<F: Fn(usize, usize, usize, usize) -> usize>(
    out: Seq<SpeechRegion>,
    regions: Seq<SpeechRegion>,
    max: usize,
    min: usize,
    frame: usize,
    radius: usize,
    find_cut: F,
) -> bool {
    exists|parts: Seq<Seq<SpeechRegion>>|
        parts.len() == regions.len() && out == flatten(parts) && forall|i: int|
            0 <= i < regions.len() ==> #[trigger] split_ok(
                parts[i],
                regions[i],
                max,
                min,
                frame,
                radius,
                find_cut,
            )
}

pub proof fn lemma_run_end(s: Seq<bool>, target: bool, k: int)
    requires
        0 <= k <= s.len(),
    ensures
        k <= run_end(s, target, k) <= s.len(),
        k < s.len() && s[k] == target ==> run_end(s, target, k) > k,
        forall|j: int| k <= j < run_end(s, target, k) ==> s[j] == target,
        run_end(s, target, k) == s.len() || s[run_end(s, target, k)] != target,
    decreases s.len() - k,
{
    if k < s.len() && s[k] == target {
        lemma_run_end(s, target, k + 1);
    }
}

pub proof fn lemma_run_end_at(s: Seq<bool>, target: bool, k: int, e: int)
    requires
        0 <= k <= e <= s.len(),
        forall|j: int| k <= j < e ==> s[j] == target,
        e == s.len() || s[e] != target,
    ensures
        run_end(s, target, k) == e,
    decreases e - k,
{
    if k < e {
        lemma_run_end_at(s, target, k + 1, e);
    }
}

pub proof fn lemma_group_end(regions: Seq<SpeechRegion>, start: usize, k: int, max: usize)
    requires
        0 <= k,
    ensures
        k <= group_end(regions, start, k, max),
        k <= regions.len() ==> group_end(regions, start, k, max) <= regions.len(),
        forall|j: int|
            k <= j < group_end(regions, start, k, max) ==> sat_sub(
                #[trigger] regions[j].end_sample,
                start,
            ) <= max,
    decreases regions.len() - k,
{
    if k < regions.len() && sat_sub(regions[k].end_sample, start) <= max {
        lemma_group_end(regions, start, k + 1, max);
    }
}

/// Every piece of `flatten(parts)` is a piece of one of the parts.
pub proof fn lemma_flatten_elem(parts: Seq<Seq<SpeechRegion>>, k: int)
    requires
        0 <= k < flatten(parts).len(),
    ensures
        exists|i: int, j: int|
            0 <= i < parts.len() && 0 <= j < parts[i].len() && #[trigger] parts[i][j] == flatten(
                parts,
            )[k],
    decreases parts.len(),
{
    let init = flatten(parts.drop_last());
    if k < init.len() {
        lemma_flatten_elem(parts.drop_last(), k);
        let (i, j) = choose|i: int, j: int|
            0 <= i < parts.drop_last().len() && 0 <= j < parts.drop_last()[i].len()
                && #[trigger] parts.drop_last()[i][j] == init[k];
        assert(parts[i] == parts.drop_last()[i]);
        assert(parts[i][j] == flatten(parts)[k]);
    } else {
        let i = parts.len() - 1;
        let j = k - init.len();
        assert(parts[i][j] == flatten(parts)[k]);
    }
}

/// Splits one region: cuts are asked of `find_cut` near every
/// `max`-sample mark and clamped so that both sides keep `min` samples
/// where they can.
fn split_region<F: Fn(usize, usize, usize, usize) -> usize>(
    region: SpeechRegion,
    max: usize,
    min: usize,
    frame: usize,
    radius: usize,
    find_cut: &F,
) -> (ps: Vec<SpeechRegion>)
    requires
        forall|a: usize, b: usize, c: usize, d: usize| find_cut.requires((a, b, c, d)),
        region.end_sample + max + min + radius <= usize::MAX,
    ensures
        split_ok(ps@, region, max, min, frame, radius, *find_cut),
{
    let mut ps: Vec<SpeechRegion> = Vec::new();
    if span(region.end_sample, region.start_sample) <= max {
        ps.push(region);
        proof {
            assert(ps@ =~= seq![region]);
        }
        return ps;
    }
    let half_min = min / 2;
    let mut sub_start = region.start_sample;
    while span(region.end_sample, sub_start) > max
        invariant
            region.start_sample <= sub_start < region.end_sample,
            region.end_sample + max + min + radius <= usize::MAX,
            half_min == min / 2,
            forall|a: usize, b: usize, c: usize, d: usize| find_cut.requires((a, b, c, d)),
            ps@.len() == 0 ==> sub_start == region.start_sample,
            ps@.len() > 0 ==> ps@[0].start_sample == region.start_sample && ps@.last().end_sample
                == sub_start,
            forall|k: int| 0 <= k < ps@.len() - 1 ==> #[trigger] ps@[k].end_sample == ps@[k + 1].start_sample,
            forall|k: int|
                0 <= k < ps@.len() ==> #[trigger] ps@[k].start_sample < ps@[k].end_sample
                    && region.start_sample <= ps@[k].start_sample && ps@[k].end_sample <= sub_start,
            forall|k: int|
                #![trigger ps@[k]]
                0 <= k < ps@.len() ==> region.end_sample - ps@[k].start_sample > max
                    && proposed_cut(
                    *find_cut,
                    ps@[k].start_sample,
                    region.end_sample,
                    max,
                    min,
                    frame,
                    radius,
                    ps@[k].end_sample as int,
                ),
        ensures
            region.start_sample <= sub_start < region.end_sample,
            ps@.len() == 0 ==> sub_start == region.start_sample,
            ps@.len() > 0 ==> ps@[0].start_sample == region.start_sample && ps@.last().end_sample
                == sub_start,
            forall|k: int| 0 <= k < ps@.len() - 1 ==> #[trigger] ps@[k].end_sample == ps@[k + 1].start_sample,
            forall|k: int|
                0 <= k < ps@.len() ==> #[trigger] ps@[k].start_sample < ps@[k].end_sample
                    && region.start_sample <= ps@[k].start_sample && ps@[k].end_sample <= sub_start,
            forall|k: int|
                #![trigger ps@[k]]
                0 <= k < ps@.len() ==> region.end_sample - ps@[k].start_sample > max
                    && proposed_cut(
                    *find_cut,
                    ps@[k].start_sample,
                    region.end_sample,
                    max,
                    min,
                    frame,
                    radius,
                    ps@[k].end_sample as int,
                ),
            region.end_sample - sub_start <= max || exists|c: int|
                #[trigger] proposed_cut(
                    *find_cut,
                    sub_start,
                    region.end_sample,
                    max,
                    min,
                    frame,
                    radius,
                    c,
                ) && (c <= sub_start || c >= region.end_sample),
        decreases region.end_sample - sub_start,
    {
        let target = sub_start + max;
        let low = if target >= radius {
            target - radius
        } else {
            0
        };
        let search_start = if low >= sub_start + half_min {
            low
        } else {
            sub_start + half_min
        };
        let high = target + radius;
        let end_less = span(region.end_sample, half_min);
        let search_end = if high <= end_less {
            high
        } else {
            end_less
        };
        let frame_len = if frame >= 1 {
            frame
        } else {
            1
        };
        let raw = find_cut(search_start, search_end, frame_len, target);
        let rem = region.end_sample - sub_start;
        let keep = if min <= rem {
            min
        } else {
            rem
        };
        let lower = sub_start + keep;
        let upper = region.end_sample - keep;
        let raised = if raw >= lower {
            raw
        } else {
            lower
        };
        let cut = if raised <= upper {
            raised
        } else {
            upper
        };
        proof {
            assert(cut_request(sub_start, region.end_sample, max, min, frame, radius) == (
                search_start,
                search_end,
                frame_len,
                target,
            ));
            assert(cut as int == clamped_cut(raw, sub_start, region.end_sample, min));
            assert(proposed_cut(
                *find_cut,
                sub_start,
                region.end_sample,
                max,
                min,
                frame,
                radius,
                cut as int,
            ));
        }
        if cut <= sub_start || cut >= region.end_sample {
            break;
        }
        let ghost before = ps@;
        ps.push(SpeechRegion { start_sample: sub_start, end_sample: cut });
        proof {
            assert forall|k: int| 0 <= k < ps@.len() implies region.end_sample - ps@[k].start_sample > max
                && #[trigger] proposed_cut(
                *find_cut,
                ps@[k].start_sample,
                region.end_sample,
                max,
                min,
                frame,
                radius,
                ps@[k].end_sample as int,
            ) by {
                if k < before.len() {
                    assert(ps@[k] == before[k]);
                }
            }
        }
        sub_start = cut;
    }
    let ghost before = ps@;
    ps.push(SpeechRegion { start_sample: sub_start, end_sample: region.end_sample });
    proof {
        assert forall|k: int| 0 <= k < ps@.len() - 1 implies region.end_sample - ps@[k].start_sample > max
            && #[trigger] proposed_cut(
            *find_cut,
            ps@[k].start_sample,
            region.end_sample,
            max,
            min,
            frame,
            radius,
            ps@[k].end_sample as int,
        ) by {
            assert(ps@[k] == before[k]);
            assert(region.end_sample - before[k].start_sample > max && proposed_cut(
                *find_cut,
                before[k].start_sample,
                region.end_sample,
                max,
                min,
                frame,
                radius,
                before[k].end_sample as int,
            ));
        }
        assert(ps@.last().start_sample == sub_start);
    }
    ps
}

/// A region longer than `max` is cut at least once when `0 < min <= max`,
/// and then its last piece is at most `max` long: every clamped cut then
/// lands strictly inside the piece it cuts.
pub proof fn lemma_long_region_is_cut<F: Fn(usize, usize, usize, usize) -> usize>(
    ps: Seq<SpeechRegion>,
    r: SpeechRegion,
    max: usize,
    min: usize,
    frame: usize,
    radius: usize,
    find_cut: F,
)
    requires
        split_ok(ps, r, max, min, frame, radius, find_cut),
        0 < min <= max,
        r.end_sample - r.start_sample > max,
    ensures
        ps.len() >= 2,
        ps.last().end_sample - ps.last().start_sample <= max,
{
    let s = ps.last().start_sample;
    if r.end_sample - s > max {
        let c = choose|c: int|
            #[trigger] proposed_cut(find_cut, s, r.end_sample, max, min, frame, radius, c) && (c <= s
                || c >= r.end_sample);
        let raw = choose|raw: usize|
            call_ensures(find_cut, cut_request(s, r.end_sample, max, min, frame, radius), raw) && c
                == clamped_cut(raw, s, r.end_sample, min);
        assert(c == clamped_cut(raw, s, r.end_sample, min));
    }
}

/// The regions of `[start, end]` pairs that are not empty, in order.
pub open spec fn nonempty_segments(s: Seq<[usize; 2]>) -> Seq<SpeechRegion>
    decreases s.len(),
{
    if s.len() == 0 {
        Seq::empty()
    } else {
        let rest = nonempty_segments(s.drop_last());
        let p = s.last();
        if p[1] > p[0] {
            rest.push(SpeechRegion { start_sample: p[0], end_sample: p[1] })
        } else {
            rest
        }
    }
}

pub struct VadPlanner;

proof fn lemma_ms_samples_fits(ms: u32, rate: u32)
    ensures
        ms as u64 * rate as u64 <= u64::MAX,
{
    assert(ms as u64 * rate as u64 <= 0xffff_ffffu64 * 0xffff_ffffu64) by (nonlinear_arith)
        requires
            ms <= 0xffff_ffffu32,
            rate <= 0xffff_ffffu32,
    ;
}

/// `ms_samples` computed.
fn samples_for(ms: u32, rate: u32) -> (n: usize)
    ensures
        n == ms_samples(ms, rate),
{
    proof {
        lemma_ms_samples_fits(ms, rate);
    }
    ((ms as u64 * rate as u64) / 1000) as usize
}

/// `sat_sub` computed.
fn span(a: usize, b: usize) -> (r: usize)
    ensures
        r == sat_sub(a, b),
{
    if a >= b {
        a - b
    } else {
        0
    }
}

/// Flips every short run of `target` values (see `flip_short`).
fn flip_runs(flags: &mut Vec<bool>, target: bool, bound: usize, inclusive: bool)
    ensures
        final(flags)@ == flip_short(old(flags)@, target, bound, inclusive, 0),
        final(flags)@.len() == old(flags)@.len(),
{
    let ghost s = flags@;
    let mut idx: usize = 0;
    while idx < flags.len()
        invariant
            idx <= flags@.len() == s.len(),
            forall|j: int| idx <= j < s.len() ==> #[trigger] flags@[j] == s[j],
            flags@.take(idx as int) + flip_short(s, target, bound, inclusive, idx as int)
                == flip_short(s, target, bound, inclusive, 0),
        decreases flags.len() - idx,
    {
        if flags[idx] != target {
            proof {
                assert(flags@.take(idx + 1) =~= flags@.take(idx as int).push(s[idx as int]));
                assert(flags@.take(idx + 1) + flip_short(s, target, bound, inclusive, idx + 1)
                    =~= flags@.take(idx as int) + flip_short(s, target, bound, inclusive, idx as int));
            }
            idx = idx + 1;
        } else {
            let start = idx;
            let ghost before = flags@;
            while idx < flags.len() && flags[idx] == target
                invariant
                    start <= idx <= flags@.len() == s.len(),
                    flags@ == before,
                    forall|j: int| start <= j < s.len() ==> #[trigger] before[j] == s[j],
                    forall|j: int| start <= j < idx ==> s[j] == target,
                decreases flags.len() - idx,
            {
                idx = idx + 1;
            }
            proof {
                lemma_run_end_at(s, target, start as int, idx as int);
            }
            let ghost run = if is_short(idx - start, bound, inclusive) {
                Seq::new((idx - start) as nat, |_i: int| !target)
            } else {
                s.subrange(start as int, idx as int)
            };
            let short = if inclusive {
                idx - start <= bound
            } else {
                idx - start < bound
            };
            if short {
                let mut k = start;
                while k < idx
                    invariant
                        start <= k <= idx <= flags@.len() == s.len(),
                        forall|j: int| 0 <= j < start ==> #[trigger] flags@[j] == before[j],
                        forall|j: int| start <= j < k ==> #[trigger] flags@[j] == !target,
                        forall|j: int| k <= j < s.len() ==> #[trigger] flags@[j] == s[j],
                    decreases idx - k,
                {
                    flags.set(k, !target);
                    k = k + 1;
                }
            }
            proof {
                assert(flags@.take(idx as int) =~= before.take(start as int) + run);
            }
        }
    }
    proof {
        assert(flags@.take(idx as int) =~= flags@);
    }
}

/// The regions covered by runs of `true` flags, each flag standing for
/// `frame_samples` samples.
fn regions_from_flags(flags: &[bool], frame_samples: usize) -> (out: Vec<SpeechRegion>)
    requires
        flags@.len() * frame_samples <= usize::MAX,
    ensures
        out@ == flag_regions(flags@, frame_samples, 0, None),
{
    let mut regions: Vec<SpeechRegion> = Vec::new();
    let mut open: Option<usize> = None;
    let mut idx: usize = 0;
    while idx < flags.len()
        invariant
            idx <= flags@.len(),
            flags@.len() * frame_samples <= usize::MAX,
            regions@ + flag_regions(flags@, frame_samples, idx as int, open) == flag_regions(
                flags@,
                frame_samples,
                0,
                None,
            ),
        decreases flags.len() - idx,
    {
        proof {
            assert(idx * frame_samples <= flags@.len() * frame_samples) by (nonlinear_arith)
                requires
                    idx <= flags@.len(),
            ;
        }
        let here = idx * frame_samples;
        match open {
            None => {
                if flags[idx] {
                    open = Some(here);
                }
            },
            Some(st) => {
                if !flags[idx] {
                    let ghost before = regions@;
                    regions.push(SpeechRegion { start_sample: st, end_sample: here });
                    proof {
                        let tail = flag_regions(flags@, frame_samples, idx + 1, None);
                        assert(before + (seq![SpeechRegion { start_sample: st, end_sample: here }]
                            + tail) =~= regions@ + tail);
                    }
                    open = None;
                }
            },
        }
        idx = idx + 1;
    }
    match open {
        Some(st) => {
            let ghost before = regions@;
            regions.push(SpeechRegion { start_sample: st, end_sample: flags.len() * frame_samples });
            proof {
                assert(before + seq![
                    SpeechRegion { start_sample: st, end_sample: (flags@.len() * frame_samples) as usize },
                ] =~= regions@);
            }
        },
        None => {
            proof {
                assert(regions@ + Seq::<SpeechRegion>::empty() =~= regions@);
            }
        },
    }
    regions
}

/// Drops runs of `target` shorter than `min_len`.
fn remove_short_runs(flags: &mut Vec<bool>, target: bool, min_len: usize)
    ensures
        final(flags)@ == flip_short(old(flags)@, target, min_len, false, 0),
        final(flags)@.len() == old(flags)@.len(),
{
    flip_runs(flags, target, min_len, false);
}

/// Fills runs of `target` no longer than `max_len`.
fn fill_short_runs(flags: &mut Vec<bool>, target: bool, max_len: usize)
    ensures
        final(flags)@ == flip_short(old(flags)@, target, max_len, true, 0),
        final(flags)@.len() == old(flags)@.len(),
{
    flip_runs(flags, target, max_len, true);
}

/// `group_end` computed.
fn group_end_of(regions: &[SpeechRegion], start: usize, from: usize, max: usize) -> (k: usize)
    requires
        from <= regions@.len(),
    ensures
        k == group_end(regions@, start, from as int, max),
{
    let mut k = from;
    while k < regions.len() && span(regions[k].end_sample, start) <= max
        invariant
            from <= k <= regions@.len(),
            group_end(regions@, start, from as int, max) == group_end(regions@, start, k as int, max),
        decreases regions.len() - k,
    {
        k = k + 1;
    }
    k
}

/// Appends the chunks `pieces(start, end, ..)`.
fn push_pieces(
    out: &mut Vec<PlannedChunk>,
    start: usize,
    end: usize,
    max: usize,
    total: usize,
    overlap: usize,
)
    requires
        max > 0 || start >= end,
        end + max + overlap <= usize::MAX,
    ensures
        final(out)@ == old(out)@ + pieces(start, end, max, total, overlap),
{
    let ghost o0 = out@;
    let mut sub_start = start;
    while sub_start < end
        invariant
            max > 0 || sub_start >= end,
            end + max + overlap <= usize::MAX,
            sub_start < end ==> sub_start >= start,
            out@ + pieces(sub_start, end, max, total, overlap) == o0 + pieces(start, end, max, total, overlap),
        decreases end - sub_start,
    {
        let reach = sub_start + max;
        let sub_end = if reach <= end {
            reach
        } else {
            end
        };
        let ghost before = out@;
        out.push(VadPlanner::build_chunk(sub_start, sub_end, total, overlap));
        proof {
            let tail = pieces(sub_end, end, max, total, overlap);
            assert(before + (seq![chunk_of(sub_start, sub_end, total, overlap)] + tail) =~= out@ + tail);
        }
        sub_start = sub_end;
    }
    proof {
        assert(out@ + Seq::<PlannedChunk>::empty() =~= out@);
    }
}

impl VadPlanner {
    /// A chunk whose window reaches `overlap_samples` beyond the main range on
    /// each side, clipped to `[0, total_samples]`.
    pub fn build_chunk(
        main_start_sample: usize,
        main_end_sample: usize,
        total_samples: usize,
        overlap_samples: usize,
    ) -> (c: PlannedChunk)
        requires
            main_end_sample + overlap_samples <= usize::MAX,
        ensures
            c == chunk_of(main_start_sample, main_end_sample, total_samples, overlap_samples),
            c.window_start_sample <= c.main_start_sample,
            main_end_sample <= total_samples ==> c.main_end_sample <= c.window_end_sample,
    {
        let window_start = if main_start_sample >= overlap_samples {
            main_start_sample - overlap_samples
        } else {
            0
        };
        let reach = main_end_sample + overlap_samples;
        let window_end = if reach <= total_samples {
            reach
        } else {
            total_samples
        };
        PlannedChunk {
            main_start_sample,
            main_end_sample,
            window_start_sample: window_start,
            window_end_sample: window_end,
        }
    }

    /// Chunks of at most `max_chunk_ms` that cover `[0, total_samples)` one
    /// after the other; a single empty chunk when there is no audio.
    pub fn plan_fixed_chunks(total_samples: usize, config: &VadPlannerConfig) -> (chunks: Vec<
        PlannedChunk,
    >)
        requires
            ms_samples(config.max_chunk_ms, config.sample_rate) > 0 || total_samples == 0,
            total_samples + ms_samples(config.max_chunk_ms, config.sample_rate) + ms_samples(
                config.overlap_ms,
                config.sample_rate,
            ) <= usize::MAX,
        ensures
            chunks@ == fixed_plan(
                total_samples,
                ms_samples(config.max_chunk_ms, config.sample_rate),
                ms_samples(config.overlap_ms, config.sample_rate),
            ),
    {
        let max_chunk_samples = samples_for(config.max_chunk_ms, config.sample_rate);
        let overlap_samples = samples_for(config.overlap_ms, config.sample_rate);
        let mut chunks: Vec<PlannedChunk> = Vec::new();
        let mut start: usize = 0;
        while start < total_samples
            invariant
                start <= total_samples,
                max_chunk_samples > 0 || total_samples == 0,
                total_samples + max_chunk_samples + overlap_samples <= usize::MAX,
                chunks@ + pieces(start, total_samples, max_chunk_samples, total_samples, overlap_samples)
                    == pieces(0, total_samples, max_chunk_samples, total_samples, overlap_samples),
                start > 0 ==> chunks@.len() > 0,
            decreases total_samples - start,
        {
            let reach = start + max_chunk_samples;
            let end = if reach <= total_samples {
                reach
            } else {
                total_samples
            };
            let c = Self::build_chunk(start, end, total_samples, overlap_samples);
            let ghost before = chunks@;
            chunks.push(c);
            proof {
                assert(before + pieces(start, total_samples, max_chunk_samples, total_samples, overlap_samples)
                    =~= chunks@ + pieces(end, total_samples, max_chunk_samples, total_samples, overlap_samples));
            }
            start = end;
        }
        if chunks.len() == 0 {
            chunks.push(Self::build_chunk(0, 0, total_samples, overlap_samples));
            proof {
                assert(chunks@ =~= fixed_plan(total_samples, max_chunk_samples, overlap_samples));
            }
        } else {
            proof {
                assert(chunks@ =~= fixed_plan(total_samples, max_chunk_samples, overlap_samples));
            }
        }
        chunks
    }

    /// The regions of a detector's `[start, end]` sample pairs, leaving out
    /// the empty ones.
    pub fn regions_from_segments(segments: &[[usize; 2]]) -> (out: Vec<SpeechRegion>)
        ensures
            out@ == nonempty_segments(segments@),
    {
        let mut out: Vec<SpeechRegion> = Vec::new();
        let mut i: usize = 0;
        while i < segments.len()
            invariant
                i <= segments@.len(),
                out@ == nonempty_segments(segments@.take(i as int)),
            decreases segments.len() - i,
        {
            proof {
                assert(segments@.take(i + 1).drop_last() =~= segments@.take(i as int));
            }
            let seg = segments[i];
            if seg[1] > seg[0] {
                out.push(SpeechRegion { start_sample: seg[0], end_sample: seg[1] });
            }
            i = i + 1;
        }
        assert(segments@.take(segments@.len() as int) =~= segments@);
        out
    }

    /// Joins neighbouring regions whose gap is at most `max_merge_gap_ms`, and
    /// grows a region shorter than `min_chunk_ms` over the next one.
    pub fn merge_regions(regions: &[SpeechRegion], config: &VadPlannerConfig) -> (out: Vec<
        SpeechRegion,
    >)
        ensures
            out@ == merged(
                regions@,
                ms_samples(config.max_merge_gap_ms, config.sample_rate),
                ms_samples(config.min_chunk_ms, config.sample_rate),
            ),
    {
        if regions.len() == 0 {
            return Vec::new();
        }
        let max_gap_samples = samples_for(config.max_merge_gap_ms, config.sample_rate);
        let min_chunk_samples = samples_for(config.min_chunk_ms, config.sample_rate);
        let ghost goal = merged(regions@, max_gap_samples, min_chunk_samples);
        let mut out: Vec<SpeechRegion> = Vec::new();
        let mut current = regions[0];
        let mut i: usize = 1;
        proof {
            assert(regions@.drop_first() =~= regions@.skip(1));
        }
        while i < regions.len()
            invariant
                1 <= i <= regions@.len(),
                goal == merged(regions@, max_gap_samples, min_chunk_samples),
                out@ + merge_from(current, regions@.skip(i as int), max_gap_samples, min_chunk_samples)
                    == goal,
            decreases regions.len() - i,
        {
            let region = regions[i];
            let gap = if region.start_sample >= current.end_sample {
                region.start_sample - current.end_sample
            } else {
                0
            };
            let current_len = if current.end_sample >= current.start_sample {
                current.end_sample - current.start_sample
            } else {
                0
            };
            let ghost rest = regions@.skip(i as int);
            proof {
                assert(rest[0] == region);
                assert(rest.drop_first() =~= regions@.skip(i + 1));
            }
            if gap <= max_gap_samples || current_len < min_chunk_samples {
                let end = if current.end_sample >= region.end_sample {
                    current.end_sample
                } else {
                    region.end_sample
                };
                current = SpeechRegion { start_sample: current.start_sample, end_sample: end };
            } else {
                let ghost before = out@;
                out.push(current);
                proof {
                    let tail = merge_from(
                        region,
                        regions@.skip(i + 1),
                        max_gap_samples,
                        min_chunk_samples,
                    );
                    assert(before + (seq![current] + tail) =~= out@ + tail);
                }
                current = region;
            }
            i = i + 1;
        }
        let ghost before = out@;
        out.push(current);
        proof {
            assert(regions@.skip(i as int) =~= Seq::<SpeechRegion>::empty());
            assert(out@ =~= before + seq![current]);
        }
        out
    }

    /// Overlaps of the two sorted region lists that are at least
    /// `min_overlap_samples` long, found by walking both lists at once.
    pub fn intersect_regions(
        primary: &[SpeechRegion],
        secondary: &[SpeechRegion],
        min_overlap_samples: usize,
    ) -> (out: Vec<SpeechRegion>)
        ensures
            out@ == intersect_from(primary@, secondary@, min_overlap_samples, 0, 0),
    {
        let mut result: Vec<SpeechRegion> = Vec::new();
        let mut i: usize = 0;
        let mut j: usize = 0;
        while i < primary.len() && j < secondary.len()
            invariant
                i <= primary@.len(),
                j <= secondary@.len(),
                result@ + intersect_from(primary@, secondary@, min_overlap_samples, i as int, j as int)
                    == intersect_from(primary@, secondary@, min_overlap_samples, 0, 0),
            decreases primary.len() - i + secondary.len() - j,
        {
            let a = primary[i];
            let b = secondary[j];
            let start = if a.start_sample >= b.start_sample {
                a.start_sample
            } else {
                b.start_sample
            };
            let end = if a.end_sample <= b.end_sample {
                a.end_sample
            } else {
                b.end_sample
            };
            let ghost before = result@;
            let ghost rest = if a.end_sample < b.end_sample {
                intersect_from(primary@, secondary@, min_overlap_samples, i + 1, j as int)
            } else {
                intersect_from(primary@, secondary@, min_overlap_samples, i as int, j + 1)
            };
            if end > start && end - start >= min_overlap_samples {
                result.push(SpeechRegion { start_sample: start, end_sample: end });
                proof {
                    assert(before + (seq![overlap_of(a, b)] + rest) =~= result@ + rest);
                }
            }
            if a.end_sample < b.end_sample {
                i = i + 1;
            } else {
                j = j + 1;
            }
        }
        proof {
            assert(result@ + Seq::<SpeechRegion>::empty() =~= result@);
        }
        result
    }

    /// The speech regions given by per-frame activity flags (one flag per
    /// `energy_frame_ms`): speech runs shorter than `min_speech_ms` are
    /// dropped, silences no longer than `min_silence_ms` are filled, and each
    /// remaining run becomes a region.
    pub fn energy_regions_from_flags(active: Vec<bool>, config: &VadPlannerConfig) -> (out: Vec<
        SpeechRegion,
    >)
        requires
            active@.len() * ms_samples(config.energy_frame_ms, config.sample_rate) <= usize::MAX,
        ensures
            out@ == energy_regions(active@, *config),
    {
        let frame_samples = samples_for(config.energy_frame_ms, config.sample_rate);
        if frame_samples == 0 {
            return Vec::new();
        }
        proof {
            if config.energy_frame_ms == 0 {
                assert(0u64 * (config.sample_rate as u64) == 0) by (nonlinear_arith);
            }
        }
        let speech_frames = config.min_speech_ms as usize / config.energy_frame_ms as usize;
        let min_speech_frames = if speech_frames >= 1 {
            speech_frames
        } else {
            1
        };
        let silence_frames = config.min_silence_ms as usize / config.energy_frame_ms as usize;
        let min_silence_frames = if silence_frames >= 1 {
            silence_frames
        } else {
            1
        };
        let mut active = active;
        remove_short_runs(&mut active, true, min_speech_frames);
        fill_short_runs(&mut active, false, min_silence_frames);
        regions_from_flags(active.as_slice(), frame_samples)
    }

    /// Groups consecutive regions into chunks of at most `max_chunk_ms`
    /// (measured from the group's first start to its last end); a group that
    /// still exceeds the limit is cut into fixed pieces, and a group shorter
    /// than `min_chunk_ms` is widened to that length (within the audio).
    pub fn plan_chunks_from_split_regions(
        regions: &[SpeechRegion],
        total_samples: usize,
        config: &VadPlannerConfig,
    ) -> (out: Vec<PlannedChunk>)
        requires
            ms_samples(config.max_chunk_ms, config.sample_rate) > 0 || forall|i: int|
                0 <= i < regions@.len() ==> #[trigger] regions@[i].end_sample
                    <= regions@[i].start_sample,
            regions_fit(
                regions@,
                ms_samples(config.max_chunk_ms, config.sample_rate) + ms_samples(
                    config.min_chunk_ms,
                    config.sample_rate,
                ) + ms_samples(config.overlap_ms, config.sample_rate),
            ),
        ensures
            out@ == plan_from(
                regions@,
                0,
                total_samples,
                ms_samples(config.max_chunk_ms, config.sample_rate),
                ms_samples(config.min_chunk_ms, config.sample_rate),
                ms_samples(config.overlap_ms, config.sample_rate),
            ),
    {
        let max_chunk_samples = samples_for(config.max_chunk_ms, config.sample_rate);
        let min_chunk_samples = samples_for(config.min_chunk_ms, config.sample_rate);
        let overlap_samples = samples_for(config.overlap_ms, config.sample_rate);
        let ghost goal = plan_from(regions@, 0, total_samples, max_chunk_samples, min_chunk_samples, overlap_samples);
        let mut planned: Vec<PlannedChunk> = Vec::new();
        let mut idx: usize = 0;
        while idx < regions.len()
            invariant
                idx <= regions@.len(),
                max_chunk_samples > 0 || forall|i: int|
                    0 <= i < regions@.len() ==> #[trigger] regions@[i].end_sample
                        <= regions@[i].start_sample,
                regions_fit(regions@, max_chunk_samples + min_chunk_samples + overlap_samples),
                goal == plan_from(regions@, 0, total_samples, max_chunk_samples, min_chunk_samples, overlap_samples),
                planned@ + plan_from(
                    regions@,
                    idx as int,
                    total_samples,
                    max_chunk_samples,
                    min_chunk_samples,
                    overlap_samples,
                ) == goal,
            decreases regions.len() - idx,
        {
            let chunk_start = regions[idx].start_sample;
            let next_idx = group_end_of(regions, chunk_start, idx + 1, max_chunk_samples);
            proof {
                lemma_group_end(regions@, chunk_start, idx + 1, max_chunk_samples);
                assert(regions_fit(regions@, max_chunk_samples + min_chunk_samples + overlap_samples));
                assert(regions@[idx as int].start_sample + max_chunk_samples + min_chunk_samples
                    + overlap_samples <= usize::MAX);
                assert(regions@[next_idx - 1].start_sample + max_chunk_samples + min_chunk_samples
                    + overlap_samples <= usize::MAX);
                assert(regions@[next_idx - 1].end_sample + max_chunk_samples + min_chunk_samples
                    + overlap_samples <= usize::MAX);
            }
            let chunk_end = regions[next_idx - 1].end_sample;
            let ghost before = planned@;
            let len = span(chunk_end, chunk_start);
            if len > max_chunk_samples {
                proof {
                    if max_chunk_samples == 0 {
                        if next_idx - 1 > idx {
                            assert(sat_sub(regions@[next_idx - 1].end_sample, chunk_start) <= 0);
                        } else {
                            assert(regions@[idx as int].end_sample <= regions@[idx as int].start_sample);
                        }
                    }
                }
                push_pieces(&mut planned, chunk_start, chunk_end, max_chunk_samples, total_samples, overlap_samples);
            } else {
                let main_end = if len < min_chunk_samples {
                    let reach = chunk_start + min_chunk_samples;
                    if reach <= total_samples {
                        reach
                    } else {
                        total_samples
                    }
                } else {
                    chunk_end
                };
                planned.push(Self::build_chunk(chunk_start, main_end, total_samples, overlap_samples));
            }
            proof {
                let tail = plan_from(regions@, next_idx as int, total_samples, max_chunk_samples, min_chunk_samples, overlap_samples);
                let here = plan_from(regions@, idx as int, total_samples, max_chunk_samples, min_chunk_samples, overlap_samples);
                assert(here == (planned@.subrange(before.len() as int, planned@.len() as int)) + tail);
                assert(before + here =~= planned@ + tail);
            }
            idx = next_idx;
        }
        proof {
            assert(planned@ + Seq::<PlannedChunk>::empty() =~= planned@);
        }
        planned
    }

    /// Cuts every region longer than `max_chunk_ms` into consecutive pieces,
    /// at the positions `find_cut(search_start, search_end, frame_samples,
    /// target)` proposes near each `max_chunk_ms` mark (clamped so that both
    /// sides keep up to `min_chunk_ms`); shorter regions pass unchanged.
    pub fn split_long_regions_by_energy<F: Fn(usize, usize, usize, usize) -> usize>(
        regions: &[SpeechRegion],
        config: &VadPlannerConfig,
        find_cut: F,
    ) -> (out: Vec<SpeechRegion>)
        requires
            forall|a: usize, b: usize, c: usize, d: usize| find_cut.requires((a, b, c, d)),
            regions_fit(
                regions@,
                ms_samples(config.max_chunk_ms, config.sample_rate) + ms_samples(
                    config.min_chunk_ms,
                    config.sample_rate,
                ) + ms_samples(10_000, config.sample_rate),
            ),
        ensures
            is_split_of(
                out@,
                regions@,
                ms_samples(config.max_chunk_ms, config.sample_rate),
                ms_samples(config.min_chunk_ms, config.sample_rate),
                ms_samples(20, config.sample_rate),
                ms_samples(10_000, config.sample_rate),
                find_cut,
            ),
    {
        let max_chunk_samples = samples_for(config.max_chunk_ms, config.sample_rate);
        let min_chunk_samples = samples_for(config.min_chunk_ms, config.sample_rate);
        let frame_samples = samples_for(20, config.sample_rate);
        let search_radius_samples = samples_for(10_000, config.sample_rate);
        let mut out: Vec<SpeechRegion> = Vec::new();
        let ghost mut parts: Seq<Seq<SpeechRegion>> = Seq::empty();
        let mut i: usize = 0;
        while i < regions.len()
            invariant
                i <= regions@.len(),
                parts.len() == i,
                out@ == flatten(parts),
                max_chunk_samples == ms_samples(config.max_chunk_ms, config.sample_rate),
                min_chunk_samples == ms_samples(config.min_chunk_ms, config.sample_rate),
                frame_samples == ms_samples(20, config.sample_rate),
                search_radius_samples == ms_samples(10_000, config.sample_rate),
                forall|k: int|
                    0 <= k < i ==> #[trigger] split_ok(
                        parts[k],
                        regions@[k],
                        max_chunk_samples,
                        min_chunk_samples,
                        frame_samples,
                        search_radius_samples,
                        find_cut,
                    ),
                forall|a: usize, b: usize, c: usize, d: usize| find_cut.requires((a, b, c, d)),
                regions_fit(regions@, max_chunk_samples + min_chunk_samples + search_radius_samples),
            decreases regions.len() - i,
        {
            proof {
                assert(regions@[i as int].start_sample + max_chunk_samples + min_chunk_samples
                    + search_radius_samples <= usize::MAX);
            }
            let ps = split_region(
                regions[i],
                max_chunk_samples,
                min_chunk_samples,
                frame_samples,
                search_radius_samples,
                &find_cut,
            );
            let ghost o0 = out@;
            let mut k: usize = 0;
            while k < ps.len()
                invariant
                    k <= ps@.len(),
                    out@ == o0 + ps@.take(k as int),
                decreases ps.len() - k,
            {
                out.push(ps[k]);
                k = k + 1;
                proof {
                    assert(ps@.take(k as int) =~= ps@.take(k - 1).push(ps@[k - 1]));
                }
            }
            proof {
                assert(ps@.take(ps@.len() as int) =~= ps@);
                assert(parts.push(ps@).drop_last() =~= parts);
                parts = parts.push(ps@);
            }
            i = i + 1;
        }
        out
    }

    /// Splits long regions (see `split_long_regions_by_energy`) and plans the
    /// chunks of the result (see `plan_chunks_from_split_regions`); no
    /// chunks without regions.
    pub fn plan_chunks<F: Fn(usize, usize, usize, usize) -> usize>(
        regions: &[SpeechRegion],
        total_samples: usize,
        config: &VadPlannerConfig,
        find_cut: F,
    ) -> (out: Vec<PlannedChunk>)
        requires
            forall|a: usize, b: usize, c: usize, d: usize| find_cut.requires((a, b, c, d)),
            ms_samples(config.max_chunk_ms, config.sample_rate) > 0 || forall|i: int|
                0 <= i < regions@.len() ==> #[trigger] regions@[i].end_sample
                    <= regions@[i].start_sample,
            regions_fit(
                regions@,
                ms_samples(config.max_chunk_ms, config.sample_rate) + ms_samples(
                    config.min_chunk_ms,
                    config.sample_rate,
                ) + ms_samples(config.overlap_ms, config.sample_rate) + ms_samples(
                    10_000,
                    config.sample_rate,
                ),
            ),
        ensures
            regions@.len() == 0 ==> out@.len() == 0,
            regions@.len() > 0 ==> exists|split: Seq<SpeechRegion>|
                is_split_of(
                    split,
                    regions@,
                    ms_samples(config.max_chunk_ms, config.sample_rate),
                    ms_samples(config.min_chunk_ms, config.sample_rate),
                    ms_samples(20, config.sample_rate),
                    ms_samples(10_000, config.sample_rate),
                    find_cut,
                ) && out@ == plan_from(
                    split,
                    0,
                    total_samples,
                    ms_samples(config.max_chunk_ms, config.sample_rate),
                    ms_samples(config.min_chunk_ms, config.sample_rate),
                    ms_samples(config.overlap_ms, config.sample_rate),
                ),
    {
        if regions.len() == 0 {
            return Vec::new();
        }
        let ghost max = ms_samples(config.max_chunk_ms, config.sample_rate);
        let ghost min = ms_samples(config.min_chunk_ms, config.sample_rate);
        let ghost ov = ms_samples(config.overlap_ms, config.sample_rate);
        let ghost rad = ms_samples(10_000, config.sample_rate);
        proof {
            assert forall|i: int| 0 <= i < regions@.len() implies #[trigger] regions@[i].start_sample
                + (max + min + rad) <= usize::MAX && regions@[i].end_sample + (max + min + rad)
                <= usize::MAX by {
                assert(regions@[i].start_sample + (max + min + ov + rad) <= usize::MAX);
            }
        }
        let ghost fr = ms_samples(20, config.sample_rate);
        let ghost cut_fn = find_cut;
        let split = Self::split_long_regions_by_energy(regions, config, find_cut);
        proof {
            let parts = choose|parts: Seq<Seq<SpeechRegion>>|
                parts.len() == regions@.len() && split@ == flatten(parts) && forall|i: int|
                    0 <= i < regions@.len() ==> #[trigger] split_ok(
                        parts[i],
                        regions@[i],
                        max,
                        min,
                        fr,
                        rad,
                        cut_fn,
                    );
            assert forall|k: int| 0 <= k < split@.len() implies #[trigger] split@[k].start_sample
                + (max + min + ov) <= usize::MAX && split@[k].end_sample + (max + min + ov)
                <= usize::MAX && (max == 0 ==> split@[k].end_sample <= split@[k].start_sample) by {
                lemma_flatten_elem(parts, k);
                let (i, j) = choose|i: int, j: int|
                    0 <= i < parts.len() && 0 <= j < parts[i].len() && #[trigger] parts[i][j]
                        == flatten(parts)[k];
                assert(split_ok(parts[i], regions@[i], max, min, fr, rad, cut_fn));
                assert(regions@[i].start_sample + (max + min + ov + rad) <= usize::MAX);
                if sat_sub(regions@[i].end_sample, regions@[i].start_sample) <= max {
                    assert(parts[i] == seq![regions@[i]]);
                } else {
                    assert(regions@[i].start_sample <= parts[i][j].start_sample);
                }
            }
        }
        Self::plan_chunks_from_split_regions(split.as_slice(), total_samples, config)
    }
}

/// The main ranges of `pieces(start, end, ..)` cover `[start, end)` one
/// after the other, each non-empty and at most `max` long.
pub proof fn lemma_pieces_tile(start: usize, end: usize, max: usize, total: usize, overlap: usize)
    requires
        max > 0,
        start < end,
    ensures
        ({
            let ps = pieces(start, end, max, total, overlap);
            &&& ps.len() > 0
            &&& ps[0].main_start_sample == start
            &&& ps.last().main_end_sample == end
            &&& forall|k: int|
                0 <= k < ps.len() - 1 ==> #[trigger] ps[k].main_end_sample == ps[k + 1].main_start_sample
            &&& forall|k: int|
                0 <= k < ps.len() ==> #[trigger] ps[k].main_start_sample < ps[k].main_end_sample
                    && ps[k].main_end_sample - ps[k].main_start_sample <= max
        }),
    decreases end - start,
{
    let e: usize = if start + max <= end {
        (start + max) as usize
    } else {
        end
    };
    let ps = pieces(start, end, max, total, overlap);
    let rest = pieces(e, end, max, total, overlap);
    assert(ps == seq![chunk_of(start, e, total, overlap)] + rest);
    if e < end {
        lemma_pieces_tile(e, end, max, total, overlap);
        assert forall|k: int| 0 <= k < ps.len() - 1 implies #[trigger] ps[k].main_end_sample
            == ps[k + 1].main_start_sample by {
            if k > 0 {
                assert(ps[k] == rest[k - 1]);
                assert(ps[k + 1] == rest[k]);
            }
        }
        assert forall|k: int| 0 <= k < ps.len() implies #[trigger] ps[k].main_start_sample
            < ps[k].main_end_sample && ps[k].main_end_sample - ps[k].main_start_sample <= max by {
            if k > 0 {
                assert(ps[k] == rest[k - 1]);
            }
        }
        assert(ps.last() == rest.last());
    } else {
        assert(rest =~= Seq::<PlannedChunk>::empty());
        assert(ps =~= seq![chunk_of(start, e, total, overlap)]);
    }
}

/// Fixed planning of audio of `total` samples gives chunks whose main
/// ranges tile `[0, total)`: the first starts at zero, each ends where the
/// next begins, the last ends at `total`, none is empty or longer than
/// `max`, and every window contains its main range.
pub proof fn lemma_fixed_plan_tiles(total: usize, max: usize, overlap: usize)
    requires
        max > 0,
        total > 0,
        total + overlap <= usize::MAX,
    ensures
        ({
            let cs = fixed_plan(total, max, overlap);
            &&& cs.len() > 0
            &&& cs[0].main_start_sample == 0
            &&& cs.last().main_end_sample == total
            &&& forall|k: int|
                0 <= k < cs.len() - 1 ==> #[trigger] cs[k].main_end_sample == cs[k + 1].main_start_sample
            &&& forall|k: int|
                0 <= k < cs.len() ==> #[trigger] cs[k].main_start_sample < cs[k].main_end_sample
                    && cs[k].main_end_sample - cs[k].main_start_sample <= max
                    && cs[k].window_start_sample <= cs[k].main_start_sample
                    && cs[k].main_end_sample <= cs[k].window_end_sample
        }),
{
    lemma_pieces_tile(0, total, max, total, overlap);
    lemma_pieces_within(0, total, max, total, overlap);
}

/// Every chunk of `pieces(start, end, ..)` ends within `end`.
proof fn lemma_pieces_within(start: usize, end: usize, max: usize, total: usize, overlap: usize)
    requires
        end <= total,
        total + overlap <= usize::MAX,
    ensures
        forall|k: int|
            0 <= k < pieces(start, end, max, total, overlap).len() ==> {
                let c = #[trigger] pieces(start, end, max, total, overlap)[k];
                c.main_end_sample <= end && c.window_start_sample <= c.main_start_sample
                    && c.main_end_sample <= c.window_end_sample
            },
    decreases end - start,
{
    if start < end && max > 0 {
        let e: usize = if start + max <= end {
            (start + max) as usize
        } else {
            end
        };
        lemma_pieces_within(e, end, max, total, overlap);
        let ps = pieces(start, end, max, total, overlap);
        let rest = pieces(e, end, max, total, overlap);
        assert forall|k: int| 0 <= k < ps.len() implies {
            let c = #[trigger] ps[k];
            c.main_end_sample <= end && c.window_start_sample <= c.main_start_sample
                && c.main_end_sample <= c.window_end_sample
        } by {
            if k > 0 {
                assert(ps[k] == rest[k - 1]);
            }
        }
    }
}

/// Every region `intersect_regions` yields lies inside a region of each
/// list and is at least `min_overlap` samples long.
pub proof fn lemma_intersection_inside(
    p: Seq<SpeechRegion>,
    s: Seq<SpeechRegion>,
    min_overlap: usize,
    i: int,
    j: int,
    k: int,
)
    requires
        0 <= k < intersect_from(p, s, min_overlap, i, j).len(),
    ensures
        exists|a: int, b: int|
            #![trigger p[a], s[b]]
            0 <= a < p.len() && 0 <= b < s.len() && {
                let o = intersect_from(p, s, min_overlap, i, j)[k];
                &&& p[a].start_sample <= o.start_sample && o.end_sample <= p[a].end_sample
                &&& s[b].start_sample <= o.start_sample && o.end_sample <= s[b].end_sample
                &&& o.start_sample < o.end_sample
                &&& o.end_sample - o.start_sample >= min_overlap
            },
    decreases p.len() - i + s.len() - j,
{
    let out = intersect_from(p, s, min_overlap, i, j);
    let rest = if p[i].end_sample < s[j].end_sample {
        intersect_from(p, s, min_overlap, i + 1, j)
    } else {
        intersect_from(p, s, min_overlap, i, j + 1)
    };
    if kept_overlap(p[i], s[j], min_overlap) && k == 0 {
        assert(out[0] == overlap_of(p[i], s[j]));
    } else {
        let k2 = if kept_overlap(p[i], s[j], min_overlap) {
            k - 1
        } else {
            k
        };
        assert(out[k] == rest[k2]);
        if p[i].end_sample < s[j].end_sample {
            lemma_intersection_inside(p, s, min_overlap, i + 1, j, k2);
        } else {
            lemma_intersection_inside(p, s, min_overlap, i, j + 1, k2);
        }
    }
}

/// Each region is well ordered (it does not end before it starts) and ends
/// no later than every later one begins.
pub open spec fn sorted_apart(rs: Seq<SpeechRegion>) -> bool {
    &&& forall|k: int| 0 <= k < rs.len() ==> #[trigger] rs[k].start_sample <= rs[k].end_sample
    &&& forall|a: int, b: int| 0 <= a < b < rs.len() ==> #[trigger] rs[a].end_sample <= #[trigger] rs[b].start_sample
}

/// The kept overlaps of `x` with `s[b]` for `b` from `j` on, in order.
pub open spec fn row_overlaps(x: SpeechRegion, s: Seq<SpeechRegion>, min_overlap: usize, j: int) -> Seq<
    SpeechRegion,
>
    decreases s.len() - j,
{
    if j < 0 || j >= s.len() {
        Seq::empty()
    } else {
        (if kept_overlap(x, s[j], min_overlap) {
            seq![overlap_of(x, s[j])]
        } else {
            Seq::empty()
        }) + row_overlaps(x, s, min_overlap, j + 1)
    }
}

/// Every kept overlap of a region `p[a]` (`a` from `i` on) with a region
/// `s[b]` (`b` from `j` on), ordered by `a` and then by `b`.
pub open spec fn pair_overlaps(p: Seq<SpeechRegion>, s: Seq<SpeechRegion>, min_overlap: usize, i: int, j: int) -> Seq<
    SpeechRegion,
>
    decreases p.len() - i,
{
    if i < 0 || i >= p.len() {
        Seq::empty()
    } else {
        row_overlaps(p[i], s, min_overlap, j) + pair_overlaps(p, s, min_overlap, i + 1, j)
    }
}

proof fn lemma_row_none(x: SpeechRegion, s: Seq<SpeechRegion>, min_overlap: usize, j: int)
    requires
        0 <= j,
        forall|b: int| j <= b < s.len() ==> !kept_overlap(x, #[trigger] s[b], min_overlap),
    ensures
        row_overlaps(x, s, min_overlap, j) == Seq::<SpeechRegion>::empty(),
    decreases s.len() - j,
{
    if j < s.len() {
        lemma_row_none(x, s, min_overlap, j + 1);
        assert(!kept_overlap(x, s[j], min_overlap));
        assert(Seq::<SpeechRegion>::empty() + Seq::<SpeechRegion>::empty() =~= Seq::<SpeechRegion>::empty());
    }
}

proof fn lemma_pairs_past_end(p: Seq<SpeechRegion>, s: Seq<SpeechRegion>, min_overlap: usize, i: int, j: int)
    requires
        0 <= i,
        j >= s.len(),
    ensures
        pair_overlaps(p, s, min_overlap, i, j) == Seq::<SpeechRegion>::empty(),
    decreases p.len() - i,
{
    if i < p.len() {
        lemma_pairs_past_end(p, s, min_overlap, i + 1, j);
        assert(Seq::<SpeechRegion>::empty() + Seq::<SpeechRegion>::empty() =~= Seq::<SpeechRegion>::empty());
    }
}

/// A column that overlaps none of the rows from `i` on adds nothing.
proof fn lemma_pairs_skip_column(p: Seq<SpeechRegion>, s: Seq<SpeechRegion>, min_overlap: usize, i: int, j: int)
    requires
        0 <= i,
        0 <= j < s.len(),
        forall|a: int| i <= a < p.len() ==> !kept_overlap(#[trigger] p[a], s[j], min_overlap),
    ensures
        pair_overlaps(p, s, min_overlap, i, j) == pair_overlaps(p, s, min_overlap, i, j + 1),
    decreases p.len() - i,
{
    if i < p.len() {
        lemma_pairs_skip_column(p, s, min_overlap, i + 1, j);
        assert(!kept_overlap(p[i], s[j], min_overlap));
        assert(row_overlaps(p[i], s, min_overlap, j) =~= row_overlaps(p[i], s, min_overlap, j + 1));
    }
}

/// The walk from `(i, j)` yields the kept overlaps of the rows from `i` on
/// with the columns from `j` on.
proof fn lemma_walk_pairs(p: Seq<SpeechRegion>, s: Seq<SpeechRegion>, min_overlap: usize, i: int, j: int)
    requires
        sorted_apart(p),
        sorted_apart(s),
        0 <= i,
        0 <= j,
    ensures
        intersect_from(p, s, min_overlap, i, j) == pair_overlaps(p, s, min_overlap, i, j),
    decreases p.len() - i + s.len() - j,
{
    if i >= p.len() {
    } else if j >= s.len() {
        lemma_pairs_past_end(p, s, min_overlap, i, j);
    } else {
        let here = if kept_overlap(p[i], s[j], min_overlap) {
            seq![overlap_of(p[i], s[j])]
        } else {
            Seq::<SpeechRegion>::empty()
        };
        if p[i].end_sample < s[j].end_sample {
            lemma_walk_pairs(p, s, min_overlap, i + 1, j);
            assert forall|b: int| j + 1 <= b < s.len() implies !kept_overlap(p[i], #[trigger] s[b], min_overlap) by {
                assert(s[j].end_sample <= s[b].start_sample);
            }
            lemma_row_none(p[i], s, min_overlap, j + 1);
            assert(row_overlaps(p[i], s, min_overlap, j) =~= here);
            assert(intersect_from(p, s, min_overlap, i, j) =~= here + pair_overlaps(p, s, min_overlap, i + 1, j));
        } else {
            lemma_walk_pairs(p, s, min_overlap, i, j + 1);
            assert forall|a: int| i + 1 <= a < p.len() implies !kept_overlap(#[trigger] p[a], s[j], min_overlap) by {
                assert(p[i].end_sample <= p[a].start_sample);
            }
            lemma_pairs_skip_column(p, s, min_overlap, i + 1, j);
            assert(row_overlaps(p[i], s, min_overlap, j) == here + row_overlaps(p[i], s, min_overlap, j + 1));
            assert(pair_overlaps(p, s, min_overlap, i, j) =~= here + pair_overlaps(p, s, min_overlap, i, j + 1));
        }
    }
}

proof fn lemma_concat_apart(a: Seq<SpeechRegion>, b: Seq<SpeechRegion>, e: int)
    requires
        sorted_apart(a),
        sorted_apart(b),
        forall|k: int| 0 <= k < a.len() ==> #[trigger] a[k].end_sample <= e,
        forall|k: int| 0 <= k < b.len() ==> e <= #[trigger] b[k].start_sample,
    ensures
        sorted_apart(a + b),
{
    let c = a + b;
    assert forall|x: int, y: int| 0 <= x < y < c.len() implies #[trigger] c[x].end_sample <= #[trigger] c[y].start_sample by {
        if y < a.len() {
            assert(c[x] == a[x] && c[y] == a[y]);
        } else if x < a.len() {
            assert(c[x] == a[x] && c[y] == b[y - a.len()]);
        } else {
            assert(c[x] == b[x - a.len()] && c[y] == b[y - a.len()]);
        }
    }
}

proof fn lemma_row_apart(x: SpeechRegion, s: Seq<SpeechRegion>, min_overlap: usize, j: int)
    requires
        sorted_apart(s),
        0 <= j,
    ensures
        sorted_apart(row_overlaps(x, s, min_overlap, j)),
        forall|k: int|
            #![trigger row_overlaps(x, s, min_overlap, j)[k]]
            0 <= k < row_overlaps(x, s, min_overlap, j).len() ==> x.start_sample <= row_overlaps(
                x,
                s,
                min_overlap,
                j,
            )[k].start_sample && row_overlaps(x, s, min_overlap, j)[k].end_sample <= x.end_sample && (j
                < s.len() ==> s[j].start_sample <= row_overlaps(x, s, min_overlap, j)[k].start_sample),
    decreases s.len() - j,
{
    if j < s.len() {
        lemma_row_apart(x, s, min_overlap, j + 1);
        let rest = row_overlaps(x, s, min_overlap, j + 1);
        let o = overlap_of(x, s[j]);
        let here = if kept_overlap(x, s[j], min_overlap) {
            seq![o]
        } else {
            Seq::<SpeechRegion>::empty()
        };
        assert forall|k: int| 0 <= k < rest.len() implies s[j].end_sample <= #[trigger] rest[k].start_sample by {
            if j + 1 < s.len() {
                assert(s[j].end_sample <= s[j + 1].start_sample);
            }
        }
        assert forall|k: int| 0 <= k < here.len() implies #[trigger] here[k].end_sample <= s[j].end_sample by {}
        lemma_concat_apart(here, rest, s[j].end_sample as int);
        assert(row_overlaps(x, s, min_overlap, j) == here + rest);
        assert forall|k: int| 0 <= k < (here + rest).len() implies x.start_sample <= #[trigger] (here
            + rest)[k].start_sample && (here + rest)[k].end_sample <= x.end_sample && s[j].start_sample
            <= (here + rest)[k].start_sample by {
            assert(s[j].start_sample <= s[j].end_sample);
            if k < here.len() {
                assert((here + rest)[k] == o);
            } else {
                assert((here + rest)[k] == rest[k - here.len()]);
                if j + 1 < s.len() {
                    assert(s[j].end_sample <= s[j + 1].start_sample);
                }
            }
        }
    }
}

proof fn lemma_pairs_apart(p: Seq<SpeechRegion>, s: Seq<SpeechRegion>, min_overlap: usize, i: int, j: int)
    requires
        sorted_apart(p),
        sorted_apart(s),
        0 <= i,
        0 <= j,
    ensures
        sorted_apart(pair_overlaps(p, s, min_overlap, i, j)),
        forall|k: int|
            #![trigger pair_overlaps(p, s, min_overlap, i, j)[k]]
            0 <= k < pair_overlaps(p, s, min_overlap, i, j).len() ==> i < p.len() && p[i].start_sample
                <= pair_overlaps(p, s, min_overlap, i, j)[k].start_sample,
    decreases p.len() - i,
{
    if i < p.len() {
        lemma_pairs_apart(p, s, min_overlap, i + 1, j);
        lemma_row_apart(p[i], s, min_overlap, j);
        let row = row_overlaps(p[i], s, min_overlap, j);
        let rest = pair_overlaps(p, s, min_overlap, i + 1, j);
        assert forall|k: int| 0 <= k < rest.len() implies p[i].end_sample <= #[trigger] rest[k].start_sample by {
            assert(p[i].end_sample <= p[i + 1].start_sample);
        }
        lemma_concat_apart(row, rest, p[i].end_sample as int);
        assert(pair_overlaps(p, s, min_overlap, i, j) == row + rest);
        assert forall|k: int| 0 <= k < (row + rest).len() implies p[i].start_sample <= #[trigger] (row
            + rest)[k].start_sample by {
            if k < row.len() {
                assert((row + rest)[k] == row[k]);
            } else {
                assert((row + rest)[k] == rest[k - row.len()]);
                assert(p[i].end_sample <= p[i + 1].start_sample);
                assert(p[i].start_sample <= p[i].end_sample);
            }
        }
    }
}

/// On two lists of regions that are each sorted and apart, the intersection
/// is exactly the overlap `[max(starts), min(ends))` of every pair that
/// overlaps by at least `max(min_overlap, 1)` samples, ordered by the
/// primary region and then by the secondary one; these come in increasing
/// order, each ending no later than the next begins.
pub proof fn lemma_intersection_is_all_overlaps(p: Seq<SpeechRegion>, s: Seq<SpeechRegion>, min_overlap: usize)
    requires
        sorted_apart(p),
        sorted_apart(s),
    ensures
        intersect_from(p, s, min_overlap, 0, 0) == pair_overlaps(p, s, min_overlap, 0, 0),
        sorted_apart(intersect_from(p, s, min_overlap, 0, 0)),
{
    lemma_walk_pairs(p, s, min_overlap, 0, 0);
    lemma_pairs_apart(p, s, min_overlap, 0, 0);
}

/// Sample `p` lies in the main range of one of the chunks.
pub open spec fn main_covers(chunks: Seq<PlannedChunk>, p: int) -> bool {
    exists|c: int|
        0 <= c < chunks.len() && #[trigger] chunks[c].main_start_sample <= p < chunks[c].main_end_sample
}

/// The regions are non-empty, lie within `[0, total)`, and each ends no
/// later than the next one begins.
pub open spec fn ordered_within(regions: Seq<SpeechRegion>, total: usize) -> bool {
    &&& forall|k: int|
        0 <= k < regions.len() ==> #[trigger] regions[k].start_sample < regions[k].end_sample
            && regions[k].end_sample <= total
    &&& forall|a: int, b: int|
        0 <= a < b < regions.len() ==> #[trigger] regions[a].end_sample <= #[trigger] regions[b].start_sample
}

proof fn lemma_pieces_cover(start: usize, end: usize, max: usize, total: usize, overlap: usize, p: int)
    requires
        max > 0,
        start <= p < end,
    ensures
        main_covers(pieces(start, end, max, total, overlap), p),
    decreases end - start,
{
    let e: usize = if start + max <= end {
        (start + max) as usize
    } else {
        end
    };
    let ps = pieces(start, end, max, total, overlap);
    let rest = pieces(e, end, max, total, overlap);
    assert(ps == seq![chunk_of(start, e, total, overlap)] + rest);
    if p < e {
        assert(ps[0].main_start_sample <= p < ps[0].main_end_sample);
    } else {
        lemma_pieces_cover(e, end, max, total, overlap, p);
        let c = choose|c: int| 0 <= c < rest.len() && #[trigger] rest[c].main_start_sample <= p < rest[c].main_end_sample;
        assert(ps[c + 1] == rest[c]);
    }
}

proof fn lemma_plan_covers(
    regions: Seq<SpeechRegion>,
    idx: int,
    total: usize,
    max: usize,
    min: usize,
    overlap: usize,
    k: int,
    p: int,
)
    requires
        max > 0,
        0 <= idx <= k < regions.len(),
        ordered_within(regions, total),
        forall|j: int| 0 <= j < regions.len() ==> #[trigger] regions[j].end_sample + min <= usize::MAX,
        regions[k].start_sample <= p < regions[k].end_sample,
    ensures
        main_covers(plan_from(regions, idx, total, max, min, overlap), p),
    decreases regions.len() - idx,
{
    let start = regions[idx].start_sample;
    lemma_group_end(regions, start, idx + 1, max);
    let next = group_end(regions, start, idx + 1, max);
    let chunk_end = regions[next - 1].end_sample;
    let chunks = if sat_sub(chunk_end, start) > max {
        pieces(start, chunk_end, max, total, overlap)
    } else {
        let main_end = if sat_sub(chunk_end, start) < min {
            min_usize((start + min) as usize, total)
        } else {
            chunk_end
        };
        seq![chunk_of(start, main_end, total, overlap)]
    };
    let tail = plan_from(regions, next, total, max, min, overlap);
    assert(plan_from(regions, idx, total, max, min, overlap) == chunks + tail);
    if k < next {
        assert(start <= regions[k].start_sample) by {
            if idx < k {
                assert(regions[idx].end_sample <= regions[k].start_sample);
            }
        }
        assert(regions[k].end_sample <= chunk_end) by {
            if k < next - 1 {
                assert(regions[k].end_sample <= regions[next - 1].start_sample);
            }
        }
        if sat_sub(chunk_end, start) > max {
            lemma_pieces_cover(start, chunk_end, max, total, overlap, p);
            let c = choose|c: int| 0 <= c < chunks.len() && #[trigger] chunks[c].main_start_sample <= p < chunks[c].main_end_sample;
            assert((chunks + tail)[c] == chunks[c]);
        } else {
            assert((chunks + tail)[0] == chunks[0]);
            assert(chunks[0].main_start_sample <= p < chunks[0].main_end_sample);
        }
    } else {
        lemma_plan_covers(regions, next, total, max, min, overlap, k, p);
        let c = choose|c: int| 0 <= c < tail.len() && #[trigger] tail[c].main_start_sample <= p < tail[c].main_end_sample;
        assert((chunks + tail)[chunks.len() + c] == tail[c]);
    }
}

/// A chunk whose window holds its main range, within the audio.
pub open spec fn well_framed(c: PlannedChunk, total: usize) -> bool {
    c.window_start_sample <= c.main_start_sample && c.main_start_sample <= c.main_end_sample
        && c.main_end_sample <= c.window_end_sample && c.window_end_sample <= total
}

proof fn lemma_pieces_framed(start: usize, end: usize, max: usize, total: usize, overlap: usize)
    requires
        end <= total,
        total + overlap <= usize::MAX,
    ensures
        forall|c: int|
            0 <= c < pieces(start, end, max, total, overlap).len() ==> well_framed(
                #[trigger] pieces(start, end, max, total, overlap)[c],
                total,
            ),
    decreases end - start,
{
    if start < end && max > 0 {
        let e: usize = if start + max <= end {
            (start + max) as usize
        } else {
            end
        };
        let ps = pieces(start, end, max, total, overlap);
        let rest = pieces(e, end, max, total, overlap);
        assert(ps == seq![chunk_of(start, e, total, overlap)] + rest);
        lemma_pieces_framed(e, end, max, total, overlap);
        assert forall|c: int| 0 <= c < ps.len() implies well_framed(#[trigger] ps[c], total) by {
            if c > 0 {
                assert(ps[c] == rest[c - 1]);
            }
        }
    }
}

proof fn lemma_plan_framed(
    regions: Seq<SpeechRegion>,
    idx: int,
    total: usize,
    max: usize,
    min: usize,
    overlap: usize,
)
    requires
        max > 0,
        0 <= idx,
        ordered_within(regions, total),
        total + overlap <= usize::MAX,
        forall|j: int| 0 <= j < regions.len() ==> #[trigger] regions[j].end_sample + min <= usize::MAX,
    ensures
        forall|c: int|
            0 <= c < plan_from(regions, idx, total, max, min, overlap).len() ==> well_framed(
                #[trigger] plan_from(regions, idx, total, max, min, overlap)[c],
                total,
            ),
    decreases regions.len() - idx,
{
    if idx < regions.len() {
        let start = regions[idx].start_sample;
        lemma_group_end(regions, start, idx + 1, max);
        let next = group_end(regions, start, idx + 1, max);
        let chunk_end = regions[next - 1].end_sample;
        let chunks = if sat_sub(chunk_end, start) > max {
            pieces(start, chunk_end, max, total, overlap)
        } else {
            let main_end = if sat_sub(chunk_end, start) < min {
                min_usize((start + min) as usize, total)
            } else {
                chunk_end
            };
            seq![chunk_of(start, main_end, total, overlap)]
        };
        let tail = plan_from(regions, next, total, max, min, overlap);
        let all = plan_from(regions, idx, total, max, min, overlap);
        assert(all == chunks + tail);
        assert(start <= chunk_end) by {
            if idx < next - 1 {
                assert(regions[idx].end_sample <= regions[next - 1].start_sample);
            }
        }
        assert(regions[next - 1].start_sample < regions[next - 1].end_sample && regions[next
            - 1].end_sample <= total);
        assert(chunk_end <= total);
        if sat_sub(chunk_end, start) > max {
            lemma_pieces_framed(start, chunk_end, max, total, overlap);
        } else {
            let main_end = if sat_sub(chunk_end, start) < min {
                min_usize((start + min) as usize, total)
            } else {
                chunk_end
            };
            assert(start <= main_end <= total);
            assert(chunks[0] == chunk_of(start, main_end, total, overlap));
            assert(well_framed(chunks[0], total));
        }
        lemma_plan_framed(regions, next, total, max, min, overlap);
        assert forall|c: int| 0 <= c < all.len() implies well_framed(#[trigger] all[c], total) by {
            if c < chunks.len() {
                assert(all[c] == chunks[c]);
            } else {
                assert(all[c] == tail[c - chunks.len()]);
            }
        }
    }
}

/// Every chunk `plan_chunks_from_split_regions` plans from regions that are
/// non-empty, lie within the audio and come one after the other, has a
/// window that holds its main range and stays within the audio.
pub proof fn lemma_planned_chunks_framed(
    regions: Seq<SpeechRegion>,
    total: usize,
    max: usize,
    min: usize,
    overlap: usize,
)
    requires
        max > 0,
        ordered_within(regions, total),
        total + overlap <= usize::MAX,
        forall|j: int| 0 <= j < regions.len() ==> #[trigger] regions[j].end_sample + min <= usize::MAX,
    ensures
        forall|c: int|
            0 <= c < plan_from(regions, 0, total, max, min, overlap).len() ==> well_framed(
                #[trigger] plan_from(regions, 0, total, max, min, overlap)[c],
                total,
            ),
{
    lemma_plan_framed(regions, 0, total, max, min, overlap);
}

/// Planning loses no speech: for regions that are non-empty, lie within the
/// audio and come one after the other, every sample of every region lies in
/// the main range of some chunk `plan_chunks_from_split_regions` plans.
pub proof fn lemma_planned_chunks_cover_speech(
    regions: Seq<SpeechRegion>,
    total: usize,
    max: usize,
    min: usize,
    overlap: usize,
    k: int,
    p: int,
)
    requires
        max > 0,
        ordered_within(regions, total),
        forall|j: int| 0 <= j < regions.len() ==> #[trigger] regions[j].end_sample + min <= usize::MAX,
        0 <= k < regions.len(),
        regions[k].start_sample <= p < regions[k].end_sample,
    ensures
        main_covers(plan_from(regions, 0, total, max, min, overlap), p),
{
    lemma_plan_covers(regions, 0, total, max, min, overlap, k, p);
}

/// `outer` contains `inner`.
pub open spec fn contains_region(outer: SpeechRegion, inner: SpeechRegion) -> bool {
    outer.start_sample <= inner.start_sample && inner.end_sample <= outer.end_sample
}

/// Regions ordered by their start.
pub open spec fn sorted_by_start(rs: Seq<SpeechRegion>) -> bool {
    forall|a: int, b: int|
        0 <= a <= b < rs.len() ==> #[trigger] rs[a].start_sample <= #[trigger] rs[b].start_sample
}

proof fn lemma_merge_from_covers(cur: SpeechRegion, rest: Seq<SpeechRegion>, g: usize, m: usize)
    requires
        sorted_by_start(rest),
        forall|a: int| 0 <= a < rest.len() ==> cur.start_sample <= #[trigger] rest[a].start_sample,
    ensures
        exists|o: int|
            0 <= o < merge_from(cur, rest, g, m).len() && contains_region(
                #[trigger] merge_from(cur, rest, g, m)[o],
                cur,
            ),
        forall|k: int|
            0 <= k < rest.len() ==> exists|o: int|
                0 <= o < merge_from(cur, rest, g, m).len() && contains_region(
                    #[trigger] merge_from(cur, rest, g, m)[o],
                    #[trigger] rest[k],
                ),
    decreases rest.len(),
{
    let out = merge_from(cur, rest, g, m);
    if rest.len() == 0 {
        assert(contains_region(out[0], cur));
    } else {
        let r = rest[0];
        let tail = rest.drop_first();
        assert(r.start_sample <= r.start_sample);
        assert forall|a: int, b: int| 0 <= a <= b < tail.len() implies #[trigger] tail[a].start_sample
            <= #[trigger] tail[b].start_sample by {
            assert(rest[a + 1].start_sample <= rest[b + 1].start_sample);
        }
        if sat_sub(r.start_sample, cur.end_sample) <= g || sat_sub(cur.end_sample, cur.start_sample) < m {
            let c2 = SpeechRegion {
                start_sample: cur.start_sample,
                end_sample: max_usize(cur.end_sample, r.end_sample),
            };
            assert forall|a: int| 0 <= a < tail.len() implies c2.start_sample
                <= #[trigger] tail[a].start_sample by {
                assert(cur.start_sample <= rest[a + 1].start_sample);
            }
            lemma_merge_from_covers(c2, tail, g, m);
            assert(out == merge_from(c2, tail, g, m));
            let o = choose|o: int| 0 <= o < out.len() && contains_region(#[trigger] out[o], c2);
            assert(contains_region(out[o], cur));
            assert(cur.start_sample <= rest[0].start_sample);
            assert(contains_region(out[o], rest[0]));
            assert forall|k: int| 0 <= k < rest.len() implies exists|o: int|
                0 <= o < out.len() && contains_region(#[trigger] out[o], #[trigger] rest[k]) by {
                if k == 0 {
                    assert(contains_region(out[o], rest[0]));
                } else {
                    assert(rest[k] == tail[k - 1]);
                }
            }
        } else {
            assert(r.start_sample <= r.start_sample);
            assert forall|a: int| 0 <= a < tail.len() implies r.start_sample
                <= #[trigger] tail[a].start_sample by {
                assert(rest[0].start_sample <= rest[a + 1].start_sample);
            }
            lemma_merge_from_covers(r, tail, g, m);
            let sub = merge_from(r, tail, g, m);
            assert(out == seq![cur] + sub);
            assert(contains_region(out[0], cur));
            assert forall|k: int| 0 <= k < rest.len() implies exists|o: int|
                0 <= o < out.len() && contains_region(#[trigger] out[o], #[trigger] rest[k]) by {
                if k == 0 {
                    let o = choose|o: int| 0 <= o < sub.len() && contains_region(#[trigger] sub[o], r);
                    assert(out[o + 1] == sub[o]);
                } else {
                    assert(rest[k] == tail[k - 1]);
                    let o = choose|o: int|
                        0 <= o < sub.len() && contains_region(#[trigger] sub[o], #[trigger] tail[k - 1]);
                    assert(out[o + 1] == sub[o]);
                }
            }
        }
    }
}

/// Merging never loses speech: when the regions are ordered by start, each
/// of them lies inside one of the merged regions.
pub proof fn lemma_merge_covers(regions: Seq<SpeechRegion>, max_gap: usize, min_chunk: usize, k: int)
    requires
        sorted_by_start(regions),
        0 <= k < regions.len(),
    ensures
        exists|o: int|
            0 <= o < merged(regions, max_gap, min_chunk).len() && contains_region(
                #[trigger] merged(regions, max_gap, min_chunk)[o],
                regions[k],
            ),
{
    let tail = regions.drop_first();
    assert forall|a: int, b: int| 0 <= a <= b < tail.len() implies #[trigger] tail[a].start_sample
        <= #[trigger] tail[b].start_sample by {
        assert(regions[a + 1].start_sample <= regions[b + 1].start_sample);
    }
    assert forall|a: int| 0 <= a < tail.len() implies regions[0].start_sample
        <= #[trigger] tail[a].start_sample by {
        assert(regions[0].start_sample <= regions[a + 1].start_sample);
    }
    lemma_merge_from_covers(regions[0], tail, max_gap, min_chunk);
    let out = merge_from(regions[0], tail, max_gap, min_chunk);
    assert(merged(regions, max_gap, min_chunk) == out);
    if k > 0 {
        assert(regions[k] == tail[k - 1]);
        let o = choose|o: int| 0 <= o < out.len() && contains_region(#[trigger] out[o], #[trigger] tail[k - 1]);
        assert(contains_region(out[o], regions[k]));
    } else {
        let o = choose|o: int| 0 <= o < out.len() && contains_region(#[trigger] out[o], regions[0]);
        assert(contains_region(out[o], regions[k]));
    }
}

} // verus!
