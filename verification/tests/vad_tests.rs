use subtitle_forge::asr::vad::{PlannedChunk, SpeechRegion, VadPlanner, VadPlannerConfig};

fn frame_rms(frame: &[f32]) -> f32 {
    if frame.is_empty() {
        return 0.0;
    }
    let sum = frame.iter().map(|v| v * v).sum::<f32>();
    (sum / frame.len() as f32).sqrt()
}

/// The quietest frame between `search_start` and `search_end`, as the
/// application's cut finder picks it.
fn low_energy_cut<'a>(samples: &'a [f32]) -> impl Fn(usize, usize, usize, usize) -> usize + 'a {
    move |search_start: usize, search_end: usize, frame_samples: usize, fallback: usize| {
        if search_end <= search_start || frame_samples == 0 {
            return fallback;
        }
        let mut best_pos = fallback;
        let mut best_energy = f32::INFINITY;
        let mut pos = search_start;
        while pos + frame_samples <= search_end && pos + frame_samples <= samples.len() {
            let energy = frame_rms(&samples[pos..pos + frame_samples]);
            if energy < best_energy {
                best_energy = energy;
                best_pos = pos + frame_samples / 2;
            }
            pos += frame_samples;
        }
        best_pos
    }
}

fn region(start_sample: usize, end_sample: usize) -> SpeechRegion {
    SpeechRegion { start_sample, end_sample }
}

#[test]
fn merges_close_regions() {
    let config = VadPlannerConfig::default();
    let regions = vec![
        SpeechRegion { start_sample: 0, end_sample: 16_000 },
        SpeechRegion { start_sample: 16_000 + 4_000, end_sample: 40_000 },
    ];

    let merged = VadPlanner::merge_regions(&regions, &config);
    assert_eq!(merged.len(), 1);
    assert_eq!(merged[0].start_sample, 0);
    assert_eq!(merged[0].end_sample, 40_000);
}

#[test]
fn plans_chunks_with_overlap() {
    let config = VadPlannerConfig::default();
    let regions = vec![
        SpeechRegion { start_sample: 16_000, end_sample: 80_000 },
        SpeechRegion { start_sample: 100_000, end_sample: 180_000 },
    ];

    let samples = vec![0.0f32; 400_000];
    let chunks = VadPlanner::plan_chunks(&regions, 400_000, &config, low_energy_cut(&samples));
    assert_eq!(chunks.len(), 1);
    assert!(chunks[0].window_start_sample < chunks[0].main_start_sample);
    assert!(chunks[0].window_end_sample > chunks[0].main_end_sample);
}

#[test]
fn splits_long_regions() {
    let config = VadPlannerConfig::default();
    let samples = vec![0.0f32; 4_000_000];
    let regions = vec![SpeechRegion { start_sample: 0, end_sample: 3_500_000 }];

    let split = VadPlanner::split_long_regions_by_energy(&regions, &config, low_energy_cut(&samples));
    assert!(split.len() > 1);
}

#[test]
fn long_region_is_cut_at_first_quiet_frame_near_the_mark() {
    let config = VadPlannerConfig::default();
    let samples = vec![0.0f32; 4_000_000];
    let regions = vec![region(0, 3_500_000)];
    let split = VadPlanner::split_long_regions_by_energy(&regions, &config, low_energy_cut(&samples));
    assert_eq!(split, vec![region(0, 1_760_160), region(1_760_160, 3_500_000)]);
    // A proposal outside the piece is clamped so that each side keeps the
    // minimum chunk (15 s = 240 000 samples).
    let split = VadPlanner::split_long_regions_by_energy(&regions, &config, |_: usize, _: usize, _: usize, _: usize| 0);
    assert_eq!(split[0], region(0, 240_000));
    assert_eq!(split.last().unwrap().end_sample, 3_500_000);
}

#[test]
fn far_apart_regions_stay_apart() {
    let config = VadPlannerConfig::default();
    // The default merge gap is 250 ms (4000 samples); a region shorter than
    // 15 s (240 000 samples) is always joined to the next one.
    let regions = vec![region(0, 300_000), region(304_001, 600_000), region(604_000, 610_000)];
    let merged = VadPlanner::merge_regions(&regions, &config);
    assert_eq!(merged, vec![region(0, 300_000), region(304_001, 610_000)]);
    let short = vec![region(0, 16_000), region(100_000, 120_000)];
    assert_eq!(VadPlanner::merge_regions(&short, &config), vec![region(0, 120_000)]);
    assert_eq!(VadPlanner::merge_regions(&[], &config), vec![]);
}

#[test]
fn split_pieces_tile_the_region() {
    let config = VadPlannerConfig::default();
    let samples = vec![0.0f32; 4_000_000];
    let regions = vec![region(0, 3_500_000), region(3_600_000, 3_700_000)];
    let split = VadPlanner::split_long_regions_by_energy(&regions, &config, low_energy_cut(&samples));
    let max = 1_920_000;
    assert!(split.len() >= 3);
    assert_eq!(split[0].start_sample, 0);
    for w in split.windows(2) {
        if w[0].end_sample != 3_500_000 {
            assert_eq!(w[0].end_sample, w[1].start_sample);
        }
    }
    for piece in &split {
        assert!(piece.end_sample - piece.start_sample <= max);
    }
    assert_eq!(*split.last().unwrap(), region(3_600_000, 3_700_000));
}

#[test]
fn fixed_chunks_cover_the_audio() {
    let config = VadPlannerConfig::default();
    // 120 s chunks with 5 s of overlap on each side, at 16 kHz.
    let chunks = VadPlanner::plan_fixed_chunks(4_000_000, &config);
    assert_eq!(
        chunks,
        vec![
            PlannedChunk {
                main_start_sample: 0,
                main_end_sample: 1_920_000,
                window_start_sample: 0,
                window_end_sample: 2_000_000,
            },
            PlannedChunk {
                main_start_sample: 1_920_000,
                main_end_sample: 3_840_000,
                window_start_sample: 1_840_000,
                window_end_sample: 3_920_000,
            },
            PlannedChunk {
                main_start_sample: 3_840_000,
                main_end_sample: 4_000_000,
                window_start_sample: 3_760_000,
                window_end_sample: 4_000_000,
            },
        ]
    );
    assert_eq!(
        VadPlanner::plan_fixed_chunks(0, &config),
        vec![PlannedChunk { main_start_sample: 0, main_end_sample: 0, window_start_sample: 0, window_end_sample: 0 }]
    );
}

#[test]
fn build_chunk_clamps_its_window() {
    let c = VadPlanner::build_chunk(100, 500, 550, 200);
    assert_eq!(
        c,
        PlannedChunk { main_start_sample: 100, main_end_sample: 500, window_start_sample: 0, window_end_sample: 550 }
    );
}

#[test]
fn intersection_keeps_common_parts() {
    let a = vec![region(0, 100), region(200, 300)];
    let b = vec![region(50, 250), region(280, 400)];
    let both = VadPlanner::intersect_regions(&a, &b, 0);
    assert_eq!(both, vec![region(50, 100), region(200, 250), region(280, 300)]);
    let long_only = VadPlanner::intersect_regions(&a, &b, 30);
    assert_eq!(long_only, vec![region(50, 100), region(200, 250)]);
}

#[test]
fn energy_flags_become_regions() {
    let config = VadPlannerConfig::default();
    // 20 ms frames of 320 samples; frames 30 to 41 are loud.
    let mut flags = vec![false; 80];
    for f in flags.iter_mut().take(42).skip(30) {
        *f = true;
    }
    let regions = VadPlanner::energy_regions_from_flags(flags, &config);
    assert_eq!(regions, vec![region(30 * 320, 42 * 320)]);

    // A burst shorter than 180 ms (9 frames) is dropped.
    let mut short = vec![false; 50];
    for f in short.iter_mut().take(8).skip(2) {
        *f = true;
    }
    assert!(VadPlanner::energy_regions_from_flags(short, &config).is_empty());

    // A pause no longer than 450 ms (22 frames) is bridged.
    let mut bridged = vec![false; 100];
    for f in bridged.iter_mut().take(20) {
        *f = true;
    }
    for f in bridged.iter_mut().take(60).skip(40) {
        *f = true;
    }
    assert_eq!(VadPlanner::energy_regions_from_flags(bridged, &config), vec![region(0, 60 * 320)]);
}

#[test]
fn planning_nothing_gives_nothing() {
    let config = VadPlannerConfig::default();
    let samples: Vec<f32> = Vec::new();
    assert!(VadPlanner::plan_chunks(&[], 0, &config, low_energy_cut(&samples)).is_empty());
}

#[test]
fn planned_chunks_cover_every_region() {
    let config = VadPlannerConfig::default();
    let regions = vec![
        region(16_000, 80_000),
        region(100_000, 180_000),
        region(500_000, 2_600_000),
        region(2_700_000, 2_710_000),
    ];
    let total = 3_000_000;
    let chunks = VadPlanner::plan_chunks_from_split_regions(&regions, total, &config);
    for r in &regions {
        for p in [r.start_sample, (r.start_sample + r.end_sample) / 2, r.end_sample - 1] {
            assert!(chunks.iter().any(|c| c.main_start_sample <= p && p < c.main_end_sample));
        }
    }
    for c in &chunks {
        assert!(c.window_start_sample <= c.main_start_sample);
        assert!(c.main_end_sample <= c.window_end_sample);
        assert!(c.window_end_sample <= total);
    }
}

#[test]
fn detector_segments_become_regions() {
    let segments = [[0usize, 100], [200, 200], [300, 250], [400, 900]];
    assert_eq!(VadPlanner::regions_from_segments(&segments), vec![region(0, 100), region(400, 900)]);
    assert!(VadPlanner::regions_from_segments(&[]).is_empty());
}

#[test]
fn intersection_lists_every_overlapping_pair_in_order() {
    let a = vec![region(0, 100), region(100, 200), region(300, 1_000)];
    let b = vec![region(100, 150), region(350, 400), region(500, 600), region(900, 1_200)];
    // Touching regions share no sample, so [0, 100) and [100, 150) give nothing.
    assert_eq!(
        VadPlanner::intersect_regions(&a, &b, 0),
        vec![region(100, 150), region(350, 400), region(500, 600), region(900, 1_000)]
    );
    assert_eq!(VadPlanner::intersect_regions(&a, &b, 60), vec![region(500, 600), region(900, 1_000)]);
}
