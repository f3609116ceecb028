//! What energy-based speech detection guarantees: bursts of activity
//! shorter than the minimum speech length never become speech, whatever
//! pauses separate them; every region found holds a long enough run of
//! active frames.

use crate::asr::vad::{
    energy_regions, flag_regions, flip_short, frames_for, is_short, lemma_run_end, lemma_run_end_at,
    ms_samples, run_end, SpeechRegion, VadPlannerConfig,
};
use vstd::prelude::*;

verus! {

/// Start of the run of `target` values that reaches `k`, looking back no
/// further than `lo`.
pub open spec fn run_start(s: Seq<bool>, target: bool, k: int, lo: int) -> int
    decreases k - lo,
{
    if k > lo && s[k - 1] == target {
        run_start(s, target, k - 1, lo)
    } else {
        k
    }
}

/// Frames `a` up to `e` are all active.
pub open spec fn active_run(s: Seq<bool>, a: int, e: int) -> bool {
    &&& 0 <= a <= e <= s.len()
    &&& forall|j: int| a <= j < e ==> #[trigger] s[j]
}

/// Some run of at least `m` consecutive active frames.
pub open spec fn has_active_run(s: Seq<bool>, m: int) -> bool {
    exists|a: int, e: int| active_run(s, a, e) && e - a >= m
}

proof fn lemma_run_start_bounds(s: Seq<bool>, target: bool, k: int, lo: int)
    requires
        lo <= k <= s.len(),
    ensures
        lo <= run_start(s, target, k, lo) <= k,
        forall|j: int| run_start(s, target, k, lo) <= j < k ==> s[j] == target,
        run_start(s, target, k, lo) == lo || s[run_start(s, target, k, lo) - 1] != target,
    decreases k - lo,
{
    if k > lo && s[k - 1] == target {
        lemma_run_start_bounds(s, target, k - 1, lo);
    }
}

/// Looking back past a value other than `target` changes nothing.
proof fn lemma_run_start_cut(s: Seq<bool>, target: bool, k: int, lo: int, m: int)
    requires
        lo <= m < k <= s.len(),
        s[m] != target,
    ensures
        run_start(s, target, k, lo) == run_start(s, target, k, m + 1),
    decreases k - lo,
{
    if k > m + 1 && s[k - 1] == target {
        lemma_run_start_cut(s, target, k - 1, lo, m);
    }
}

/// Over a run of `target` values from `lo`, the run start is `lo`.
proof fn lemma_run_start_all(s: Seq<bool>, target: bool, k: int, lo: int)
    requires
        lo <= k <= s.len(),
        forall|j: int| lo <= j < k ==> s[j] == target,
    ensures
        run_start(s, target, k, lo) == lo,
    decreases k - lo,
{
    if k > lo {
        lemma_run_start_all(s, target, k - 1, lo);
    }
}

/// What `flip_short` does to each flag: a `target` flag in a short run
/// (between its run start and run end) is flipped, every other flag stays.
proof fn lemma_flip_short_at(s: Seq<bool>, target: bool, bound: usize, inclusive: bool, idx: int)
    requires
        0 <= idx <= s.len(),
    ensures
        flip_short(s, target, bound, inclusive, idx).len() == s.len() - idx,
        forall|k: int|
            #![trigger s[k]]
            idx <= k < s.len() ==> flip_short(s, target, bound, inclusive, idx)[k - idx] == if s[k] == target
                && is_short(run_end(s, target, k) - run_start(s, target, k, idx), bound, inclusive) {
                !target
            } else {
                s[k]
            },
    decreases s.len() - idx,
{
    let r = flip_short(s, target, bound, inclusive, idx);
    if idx < s.len() {
        if s[idx] != target {
            lemma_flip_short_at(s, target, bound, inclusive, idx + 1);
            let rest = flip_short(s, target, bound, inclusive, idx + 1);
            assert(r == seq![s[idx]] + rest);
            assert forall|k: int| #![trigger s[k]] idx <= k < s.len() implies r[k - idx] == if s[k] == target
                && is_short(run_end(s, target, k) - run_start(s, target, k, idx), bound, inclusive) {
                !target
            } else {
                s[k]
            } by {
                if k > idx {
                    assert(r[k - idx] == rest[k - (idx + 1)]);
                    if s[k] == target {
                        lemma_run_start_cut(s, target, k, idx, idx);
                    }
                }
            }
        } else {
            let e = run_end(s, target, idx);
            lemma_run_end(s, target, idx);
            lemma_flip_short_at(s, target, bound, inclusive, e);
            let rest = flip_short(s, target, bound, inclusive, e);
            let run = if is_short(e - idx, bound, inclusive) {
                Seq::new((e - idx) as nat, |_i: int| !target)
            } else {
                s.subrange(idx, e)
            };
            assert(r == run + rest);
            assert forall|k: int| #![trigger s[k]] idx <= k < s.len() implies r[k - idx] == if s[k] == target
                && is_short(run_end(s, target, k) - run_start(s, target, k, idx), bound, inclusive) {
                !target
            } else {
                s[k]
            } by {
                if k < e {
                    assert(r[k - idx] == run[k - idx]);
                    lemma_run_end_at(s, target, k, e);
                    lemma_run_start_all(s, target, k, idx);
                } else {
                    assert(r[k - idx] == rest[k - e]);
                    if s[k] == target {
                        assert(e < s.len() && s[e] != target);
                        assert(k > e);
                        lemma_run_start_cut(s, target, k, idx, e);
                        lemma_run_start_cut(s, target, k, e, e);
                    }
                }
            }
        }
    }
}

/// Flags that are all off from `idx` give no further region.
proof fn lemma_flag_regions_off(flags: Seq<bool>, fs: usize, idx: int)
    requires
        0 <= idx,
        forall|j: int| idx <= j < flags.len() ==> !#[trigger] flags[j],
    ensures
        flag_regions(flags, fs, idx, None) == Seq::<SpeechRegion>::empty(),
    decreases flags.len() - idx,
{
    if idx < flags.len() {
        lemma_flag_regions_off(flags, fs, idx + 1);
    }
}

/// Flags that are all on from `idx`, with a region open since `st`, give
/// that one region, up to the end.
proof fn lemma_flag_regions_on(flags: Seq<bool>, fs: usize, idx: int, st: usize)
    requires
        0 <= idx,
        forall|j: int| idx <= j < flags.len() ==> #[trigger] flags[j],
    ensures
        flag_regions(flags, fs, idx, Some(st)) == seq![
            SpeechRegion { start_sample: st, end_sample: (flags.len() * fs) as usize },
        ],
    decreases flags.len() - idx,
{
    if idx < flags.len() {
        lemma_flag_regions_on(flags, fs, idx + 1, st);
    }
}

/// The flags left after short bursts of activity are dropped: a flag stays
/// on exactly when it lies in a run of at least `m` active frames.
proof fn lemma_speech_flags(s: Seq<bool>, m: usize)
    requires
        m >= 1,
    ensures
        flip_short(s, true, m, false, 0).len() == s.len(),
        forall|k: int|
            0 <= k < s.len() && #[trigger] flip_short(s, true, m, false, 0)[k] ==> exists|a: int, e: int|
                active_run(s, a, e) && e - a >= m && a <= k < e,
{
    lemma_flip_short_at(s, true, m, false, 0);
    let sp = flip_short(s, true, m, false, 0);
    assert forall|k: int| 0 <= k < s.len() && #[trigger] sp[k] implies exists|a: int, e: int|
        active_run(s, a, e) && e - a >= m && a <= k < e by {
        assert(sp[k - 0] == sp[k]);
        assert(s[k]);
        let a = run_start(s, true, k, 0);
        let e = run_end(s, true, k);
        lemma_run_start_bounds(s, true, k, 0);
        lemma_run_end(s, true, k);
        assert(active_run(s, a, e));
    }
}

/// Without a run of at least `min_speech_ms` of active frames there is no
/// speech: the result is empty, except that a recording no longer than the
/// longest pause that is bridged (`min_silence_ms`) is taken whole, since
/// its one pause is bridged. So short bursts of activity, however close
/// together, never make a region of a longer recording.
pub proof fn lemma_energy_regions_need_speech(active: Seq<bool>, c: VadPlannerConfig)
    requires
        ms_samples(c.energy_frame_ms, c.sample_rate) > 0,
        active.len() * ms_samples(c.energy_frame_ms, c.sample_rate) <= usize::MAX,
        !has_active_run(active, frames_for(c.min_speech_ms, c.energy_frame_ms) as int),
    ensures
        energy_regions(active, c) == if 0 < active.len() <= frames_for(c.min_silence_ms, c.energy_frame_ms) {
            seq![
                SpeechRegion {
                    start_sample: 0,
                    end_sample: (active.len() * ms_samples(c.energy_frame_ms, c.sample_rate)) as usize,
                },
            ]
        } else {
            Seq::<SpeechRegion>::empty()
        },
{
    let fs = ms_samples(c.energy_frame_ms, c.sample_rate);
    let m = frames_for(c.min_speech_ms, c.energy_frame_ms);
    let q = frames_for(c.min_silence_ms, c.energy_frame_ms);
    let n = active.len();
    lemma_speech_flags(active, m);
    let sp = flip_short(active, true, m, false, 0);
    assert forall|k: int| 0 <= k < n implies !#[trigger] sp[k] by {
        if sp[k] {
            let (a, e) = choose|a: int, e: int| active_run(active, a, e) && e - a >= m && a <= k < e;
            assert(has_active_run(active, m as int));
        }
    }
    lemma_flip_short_at(sp, false, q, true, 0);
    let fl = flip_short(sp, false, q, true, 0);
    assert forall|k: int| 0 <= k < n implies #[trigger] fl[k] == (n <= q) by {
        assert(fl[k - 0] == fl[k]);
        lemma_run_end_at(sp, false, k, n as int);
        lemma_run_start_all(sp, false, k, 0);
    }
    if n == 0 {
        lemma_flag_regions_off(fl, fs, 0);
    } else if n <= q {
        assert(fl[0]);
        lemma_flag_regions_on(fl, fs, 1, (0 * fs) as usize);
        assert((0 * fs) as usize == 0);
    } else {
        lemma_flag_regions_off(fl, fs, 0);
    }
}

/// Over `target` values from a point `x` where a run of them begins, the
/// run start is `x`.
proof fn lemma_run_start_is(s: Seq<bool>, target: bool, j: int, lo: int, x: int)
    requires
        lo <= x <= j <= s.len(),
        forall|i: int| x <= i < j ==> s[i] == target,
        x == lo || s[x - 1] != target,
    ensures
        run_start(s, target, j, lo) == x,
    decreases j - x,
{
    if j > x {
        lemma_run_start_is(s, target, j - 1, lo, x);
    }
}

/// Frames `a` up to `e` are a maximal run of set flags.
pub open spec fn on_run(f: Seq<bool>, a: int, e: int) -> bool {
    &&& 0 <= a < e <= f.len()
    &&& forall|j: int| a <= j < e ==> #[trigger] f[j]
    &&& (a == 0 || !f[a - 1])
    &&& (e == f.len() || !f[e])
}

/// Region `r` spans the maximal run of set flags from frame `a` to `e`.
pub open spec fn region_of_run(flags: Seq<bool>, fs: usize, r: SpeechRegion, a: int, e: int) -> bool {
    on_run(flags, a, e) && r == (SpeechRegion { start_sample: (a * fs) as usize, end_sample: (e * fs) as usize })
}

/// Region `r` spans some maximal run of set flags.
pub open spec fn region_on_run(flags: Seq<bool>, fs: usize, r: SpeechRegion) -> bool {
    exists|a: int, e: int| #[trigger] region_of_run(flags, fs, r, a, e)
}

/// Every region spans a maximal run of set flags.
pub open spec fn regions_on_runs(flags: Seq<bool>, fs: usize, rs: Seq<SpeechRegion>) -> bool {
    forall|i: int| 0 <= i < rs.len() ==> #[trigger] region_on_run(flags, fs, rs[i])
}

proof fn lemma_cons_runs(flags: Seq<bool>, fs: usize, here: SpeechRegion, rest: Seq<SpeechRegion>, a0: int, e0: int)
    requires
        region_of_run(flags, fs, here, a0, e0),
        regions_on_runs(flags, fs, rest),
    ensures
        regions_on_runs(flags, fs, seq![here] + rest),
{
    let out = seq![here] + rest;
    assert forall|i: int| 0 <= i < out.len() implies #[trigger] region_on_run(flags, fs, out[i]) by {
        if i == 0 {
            assert(out[i] == here);
            assert(region_of_run(flags, fs, out[i], a0, e0));
        } else {
            assert(out[i] == rest[i - 1]);
        }
    }
}

/// Each region of `flag_regions` spans a maximal run of set flags.
proof fn lemma_flag_regions_runs(flags: Seq<bool>, fs: usize, idx: int, open: Option<usize>, a0: int)
    requires
        0 <= idx <= flags.len(),
        flags.len() * fs <= usize::MAX,
        open matches Some(st) ==> 0 <= a0 < idx && st == a0 * fs && (a0 == 0 || !flags[a0 - 1])
            && forall|j: int| a0 <= j < idx ==> #[trigger] flags[j],
        open is None ==> idx == 0 || !flags[idx - 1],
    ensures
        regions_on_runs(flags, fs, flag_regions(flags, fs, idx, open)),
    decreases flags.len() - idx,
{
    let out = flag_regions(flags, fs, idx, open);
    if idx >= flags.len() {
        match open {
            Some(st) => {
                assert(on_run(flags, a0, flags.len() as int));
                assert(out.len() == 1);
                assert(out[0] == (SpeechRegion {
                    start_sample: (a0 * fs) as usize,
                    end_sample: (flags.len() * fs) as usize,
                }));
                assert(region_of_run(flags, fs, out[0], a0, flags.len() as int));
                assert(regions_on_runs(flags, fs, out));
            },
            None => {},
        }
    } else {
        match open {
            None => {
                if flags[idx] {
                    assert(idx * fs <= flags.len() * fs) by (nonlinear_arith)
                        requires
                            idx <= flags.len(),
                    ;
                    lemma_flag_regions_runs(flags, fs, idx + 1, Some((idx * fs) as usize), idx);
                    assert(out == flag_regions(flags, fs, idx + 1, Some((idx * fs) as usize)));
                    assert(regions_on_runs(flags, fs, out));
                } else {
                    lemma_flag_regions_runs(flags, fs, idx + 1, None, a0);
                    assert(out == flag_regions(flags, fs, idx + 1, None));
                    assert(regions_on_runs(flags, fs, out));
                }
            },
            Some(st) => {
                if flags[idx] {
                    lemma_flag_regions_runs(flags, fs, idx + 1, Some(st), a0);
                    assert(out == flag_regions(flags, fs, idx + 1, Some(st)));
                    assert(regions_on_runs(flags, fs, out));
                } else {
                    lemma_flag_regions_runs(flags, fs, idx + 1, None, a0);
                    let rest = flag_regions(flags, fs, idx + 1, None);
                    let here = SpeechRegion { start_sample: st, end_sample: (idx * fs) as usize };
                    assert(out == seq![here] + rest);
                    assert(on_run(flags, a0, idx));
                    assert(region_of_run(flags, fs, here, a0, idx));
                    lemma_cons_runs(flags, fs, here, rest, a0, idx as int);
                    assert(regions_on_runs(flags, fs, out));
                }
            },
        }
    }
}

/// The maximal run of active frames through an active frame `k`, when it
/// is long enough, stays speech all along once short bursts are dropped.
proof fn lemma_long_run_survives(s: Seq<bool>, m: usize, k: int)
    requires
        0 <= k < s.len(),
        s[k],
        run_end(s, true, k) - run_start(s, true, k, 0) >= m,
    ensures
        active_run(s, run_start(s, true, k, 0), run_end(s, true, k)),
        run_start(s, true, k, 0) <= k < run_end(s, true, k),
        forall|j: int|
            run_start(s, true, k, 0) <= j < run_end(s, true, k) ==> #[trigger] flip_short(s, true, m, false, 0)[j],
{
    lemma_flip_short_at(s, true, m, false, 0);
    let x = run_start(s, true, k, 0);
    let y = run_end(s, true, k);
    lemma_run_start_bounds(s, true, k, 0);
    lemma_run_end(s, true, k);
    assert forall|j: int| x <= j < y implies #[trigger] flip_short(s, true, m, false, 0)[j] by {
        assert(s[j]);
        lemma_run_end_at(s, true, j, y);
        lemma_run_start_is(s, true, j, 0, x);
        assert(flip_short(s, true, m, false, 0)[j - 0] == flip_short(s, true, m, false, 0)[j]);
    }
}

/// Every maximal run of frames that are speech once short pauses are
/// bridged holds a run of at least `m` active frames, when the flags hold
/// one at all.
proof fn lemma_run_holds_speech(s: Seq<bool>, m: usize, q: usize, a: int, e: int)
    requires
        m >= 1,
        has_active_run(s, m as int),
        on_run(flip_short(flip_short(s, true, m, false, 0), false, q, true, 0), a, e),
    ensures
        exists|x: int, y: int| #[trigger] active_run(s, x, y) && y - x >= m && a <= x && y <= e,
{
    let n = s.len() as int;
    let sp = flip_short(s, true, m, false, 0);
    let fl = flip_short(sp, false, q, true, 0);
    lemma_flip_short_at(s, true, m, false, 0);
    lemma_flip_short_at(sp, false, q, true, 0);
    assert(sp.len() == n && fl.len() == n);
    // A frame that is speech stays set once pauses are bridged.
    assert forall|j: int| 0 <= j < n && #[trigger] sp[j] implies fl[j] by {
        assert(fl[j - 0] == fl[j]);
        assert(sp[j] == sp[j]);
    }
    if exists|k: int| a <= k < e && #[trigger] sp[k] {
        let k = choose|k: int| a <= k < e && #[trigger] sp[k];
        assert(sp[k - 0] == sp[k]);
        assert(s[k]);
        lemma_long_run_survives(s, m, k);
        let x = run_start(s, true, k, 0);
        let y = run_end(s, true, k);
        assert forall|j: int| x <= j < y implies #[trigger] fl[j] by {
            assert(sp[j]);
        }
        if x < a {
            assert(fl[a - 1]);
        }
        if y > e {
            assert(fl[e]);
        }
        assert(active_run(s, x, y) && y - x >= m && a <= x && y <= e);
    } else {
        assert(!sp[a]);
        assert(fl[a - 0] == fl[a]);
        let u = run_start(sp, false, a, 0);
        let v = run_end(sp, false, a);
        lemma_run_start_bounds(sp, false, a, 0);
        lemma_run_end(sp, false, a);
        assert(v - u <= q);
        assert forall|j: int| u <= j < v implies #[trigger] fl[j] by {
            assert(!sp[j]);
            lemma_run_end_at(sp, false, j, v);
            lemma_run_start_is(sp, false, j, 0, u);
            assert(fl[j - 0] == fl[j]);
        }
        if u < a {
            assert(fl[a - 1]);
        }
        if v < e {
            assert(!sp[v]);
        }
        if v > e {
            assert(fl[e]);
        }
        assert(u == a && v == e);
        if a > 0 {
            assert(sp[a - 1]);
            assert(fl[a - 1]);
        }
        if e < n {
            assert(sp[e]);
            assert(fl[e]);
        }
        let (a0, e0) = choose|a0: int, e0: int| active_run(s, a0, e0) && e0 - a0 >= m;
        assert(s[a0]);
        lemma_run_start_bounds(s, true, a0, 0);
        lemma_run_end(s, true, a0);
        let y0 = run_end(s, true, a0);
        if y0 < e0 {
            assert(s[y0]);
        }
        assert(sp[a0 - 0] == sp[a0]);
        assert(sp[a0]);
        assert(false);
    }
}

/// Region `r` holds a run of at least `m` active frames of `fs` samples.
pub open spec fn holds_active_run(s: Seq<bool>, m: int, fs: int, r: SpeechRegion) -> bool {
    exists|x: int, y: int|
        #[trigger] active_run(s, x, y) && y - x >= m && r.start_sample <= x * fs && y * fs <= r.end_sample
}

/// Whenever the flags hold a run of at least `min_speech_ms` of active
/// frames, every region found holds such a run: speech regions come from
/// long enough activity, never from short bursts bridged together.
pub proof fn lemma_energy_regions_hold_speech(active: Seq<bool>, c: VadPlannerConfig)
    requires
        ms_samples(c.energy_frame_ms, c.sample_rate) > 0,
        active.len() * ms_samples(c.energy_frame_ms, c.sample_rate) <= usize::MAX,
        has_active_run(active, frames_for(c.min_speech_ms, c.energy_frame_ms) as int),
    ensures
        forall|i: int|
            0 <= i < energy_regions(active, c).len() ==> #[trigger] holds_active_run(
                active,
                frames_for(c.min_speech_ms, c.energy_frame_ms) as int,
                ms_samples(c.energy_frame_ms, c.sample_rate) as int,
                energy_regions(active, c)[i],
            ),
{
    let fs = ms_samples(c.energy_frame_ms, c.sample_rate);
    let m = frames_for(c.min_speech_ms, c.energy_frame_ms);
    let q = frames_for(c.min_silence_ms, c.energy_frame_ms);
    let sp = flip_short(active, true, m, false, 0);
    let fl = flip_short(sp, false, q, true, 0);
    lemma_flip_short_at(active, true, m, false, 0);
    lemma_flip_short_at(sp, false, q, true, 0);
    let out = energy_regions(active, c);
    assert(out == flag_regions(fl, fs, 0, None));
    lemma_flag_regions_runs(fl, fs, 0, None, 0);
    assert forall|i: int| 0 <= i < out.len() implies #[trigger] holds_active_run(active, m as int, fs as int, out[i]) by {
        assert(region_on_run(fl, fs, out[i]));
        let (a, e) = choose|a: int, e: int| #[trigger] region_of_run(fl, fs, out[i], a, e);
        lemma_run_holds_speech(active, m, q, a, e);
        let (x, y) = choose|x: int, y: int| #[trigger] active_run(active, x, y) && y - x >= m && a <= x && y <= e;
        let n = active.len() as int;
        assert(a * fs <= x * fs && y * fs <= e * fs && e * fs <= n * fs) by (nonlinear_arith)
            requires
                a <= x,
                y <= e,
                e <= n,
                fs >= 0,
        ;
        assert(0 <= a * fs) by (nonlinear_arith)
            requires
                a >= 0,
                fs >= 0,
        ;
        assert(active_run(active, x, y) && y - x >= m && out[i].start_sample <= x * fs && y * fs
            <= out[i].end_sample);
    }
}

} // verus!
