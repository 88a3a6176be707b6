use color_wave::field::{DEGREE, SAMPLE_COUNT};
use color_wave::trig::FULL_TURN;
use color_wave::{sample, sample_all, ChannelParams, ColorCoordinate, ColorFieldParams, HslCoordinate};

fn coordinate(c0: i64, c1: i64, c2: i64) -> ColorCoordinate {
    ColorCoordinate { c0, c1, c2 }
}

fn at_degrees(degrees: u64, p: &ColorFieldParams) -> ColorCoordinate {
    sample(degrees * DEGREE, p)
}

fn steep() -> ColorFieldParams {
    ColorFieldParams {
        scale: 1_000_000,
        seed: 10_000_000,
        channel2: ChannelParams { a: 250_000, b: 250_000, freq: 2_500_000 },
        channel3: ChannelParams { a: 700_000, b: 300_000, freq: 10_000_000 },
    }
}

fn phase_reach(freq: i64, span: i64) -> i64 {
    freq * span / 1_000_000 + 1
}

fn swing_reach(amplitude: i64, reach: i64) -> i64 {
    amplitude * (reach / 36 + 2) / 1_000_000 + 1
}

#[test]
fn default_field_at_chosen_angles() {
    let p = ColorFieldParams::default();
    assert_eq!(at_degrees(0, &p), coordinate(0, 1_000_000, 850_000));
    assert_eq!(at_degrees(1, &p), coordinate(15, 999_922, 849_945));
    assert_eq!(at_degrees(45, &p), coordinate(29_411, 852_941, 747_058));
    assert_eq!(at_degrees(90, &p), coordinate(100_000, 500_000, 500_000));
    assert_eq!(at_degrees(180, &p), coordinate(200_000, 0, 150_000));
    assert_eq!(at_degrees(270, &p), coordinate(100_000, 500_000, 500_000));
    assert_eq!(at_degrees(359, &p), coordinate(15, 999_922, 849_945));
}

#[test]
fn fractional_frequencies_at_chosen_angles() {
    let p = steep();
    assert_eq!(at_degrees(0, &p), coordinate(10_000_000, 500_000, 1_000_000));
    assert_eq!(at_degrees(7, &p), coordinate(10_003_775, 488_295, 802_948));
    assert_eq!(at_degrees(100, &p), coordinate(10_587_628, 164_210, 752_577));
    assert_eq!(at_degrees(180, &p), coordinate(11_000_000, 250_000, 1_000_000));
    assert_eq!(at_degrees(181, &p), coordinate(10_999_922, 261_078, 995_384));
    assert_eq!(at_degrees(359, &p), coordinate(10_000_077, 499_758, 995_384));
}

#[test]
fn field_between_whole_degrees() {
    let p = ColorFieldParams::default();
    let q = steep();
    assert_eq!(sample(1, &p), coordinate(0, 999_999, 849_999));
    assert_eq!(sample(500_000, &p), coordinate(3, 999_980, 849_986));
    assert_eq!(sample(12_345_678, &p), coordinate(2_341, 988_294, 841_806));
    assert_eq!(sample(179_999_999, &p), coordinate(199_999, 1, 150_001));
    assert_eq!(sample(180_000_001, &p), coordinate(199_999, 1, 150_001));
    assert_eq!(sample(359_999_999, &p), coordinate(0, 999_999, 849_999));
    assert_eq!(sample(500_000, &q), coordinate(10_000_019, 499_939, 998_843));
    assert_eq!(sample(12_345_678, &q), coordinate(10_011_705, 464_298, 534_722));
    assert_eq!(sample(179_999_999, &q), coordinate(10_999_999, 250_000, 999_999));
}

#[test]
fn no_parameter_value_and_no_angle_is_refused() {
    let widest = ChannelParams { a: u32::MAX, b: u32::MAX, freq: u32::MAX };
    let p = ColorFieldParams {
        scale: u32::MAX,
        seed: u32::MAX,
        channel2: widest,
        channel3: ChannelParams { a: 0, b: u32::MAX, freq: 1 },
    };
    assert_eq!(at_degrees(0, &p), coordinate(4_294_967_295, 8_589_934_590, 4_294_967_295));
    assert_eq!(at_degrees(179, &p), coordinate(8_589_601_730, 240_243_291, 4_294_963_000));
    assert_eq!(at_degrees(180, &p), coordinate(8_589_934_590, 22_948_011, 4_294_963_000));
    assert_eq!(sample(4_294_967_295, &p), coordinate(4_498_696_921, 1_812_428_954, 4_294_963_000));
    assert_eq!(sample(u64::MAX, &p), coordinate(7_163_668_293, 8_589_689_776, 4_294_963_000));
}

#[test]
fn field_closes_after_a_full_turn() {
    for p in [ColorFieldParams::default(), steep()] {
        assert_eq!(sample(0, &p), sample(FULL_TURN, &p));
        assert_eq!(sample(0, &p), at_degrees(360, &p));
        for step in 0..720 {
            let angle = step * 500_000 + 321;
            assert_eq!(sample(angle, &p), sample(angle + FULL_TURN, &p));
            assert_eq!(sample(angle, &p), sample(angle + 7 * FULL_TURN, &p));
        }
    }
    let p = ColorFieldParams::default();
    assert_eq!(at_degrees(725, &p), coordinate(385, 998_072, 848_650));
    assert_eq!(at_degrees(725, &p), at_degrees(5, &p));
    assert_eq!(sample(360_000_001, &p), sample(1, &p));
}

#[test]
fn field_is_mirrored_about_the_start_of_the_turn() {
    let p = steep();
    for step in 0..=360 {
        let angle = step * 500_000 + 77;
        assert_eq!(sample(angle, &p), sample(FULL_TURN - angle, &p));
    }
}

#[test]
fn repeated_samples_are_identical() {
    let p = steep();
    for degrees in 0..360 {
        let first = at_degrees(degrees, &p);
        let second = at_degrees(degrees, &p);
        assert_eq!(first, second);
    }
    assert_eq!(sample_all(&p), sample_all(&p));
}

#[test]
fn channels_stay_within_the_bounds_the_parameters_give() {
    for p in [ColorFieldParams::default(), steep()] {
        for step in 0..3_600 {
            let c = sample(step * 100_000, &p);
            assert!(p.seed as i64 <= c.c0 && c.c0 <= p.seed as i64 + p.scale as i64);
            let (a2, b2) = (p.channel2.a as i64, p.channel2.b as i64);
            assert!(a2 - b2 <= c.c1 && c.c1 <= a2 + b2);
            let (a3, b3) = (p.channel3.a as i64, p.channel3.b as i64);
            assert!(a3 - b3 <= c.c2 && c.c2 <= a3 + b3);
        }
    }
}

#[test]
fn neighbouring_samples_differ_by_little() {
    let p = ColorFieldParams::default();
    let samples = sample_all(&p);
    for i in 0..SAMPLE_COUNT {
        let here = samples[i];
        let next = samples[(i + 1) % SAMPLE_COUNT];
        assert!((here.c0 - next.c0).abs() <= 2_000);
        assert!((here.c1 - next.c1).abs() <= 10_000);
        assert!((here.c2 - next.c2).abs() <= 7_000);
    }
}

#[test]
fn no_channel_jumps_between_two_angles() {
    let fastest = ColorFieldParams {
        scale: 1_000_000,
        seed: 0,
        channel2: ChannelParams { a: 500_000, b: 500_000, freq: 10_000_000 },
        channel3: ChannelParams { a: 1_000_000, b: 1_000_000, freq: 9_999_999 },
    };
    for p in [ColorFieldParams::default(), steep(), fastest] {
        for span in [1, 36, 1_000, 250_000, 1_000_000, 7_000_000] {
            let bound0 = swing_reach(p.scale as i64, span);
            let reach1 = phase_reach(p.channel2.freq as i64, span);
            let bound1 = swing_reach(p.channel2.b as i64, reach1);
            let reach2 = phase_reach(p.channel3.freq as i64, span);
            let bound2 = swing_reach(p.channel3.b as i64, reach2);
            // Twice around in 1440 steps, so that the seam is crossed in
            // mid-run.
            for step in 0..1_440u64 {
                let angle = step * 500_000 + 499_990;
                let here = sample(angle, &p);
                let there = sample(angle + span as u64, &p);
                assert!((there.c0 - here.c0).abs() <= bound0, "c0 at {} over {}", angle, span);
                assert!((there.c1 - here.c1).abs() <= bound1, "c1 at {} over {}", angle, span);
                assert!((there.c2 - here.c2).abs() <= bound2, "c2 at {} over {}", angle, span);
            }
        }
    }
    // amplitude 0.5 at frequency 1 over one degree:
    // 500_000 * (1_000_001 / 36 + 2) / 1_000_000 + 1
    assert_eq!(swing_reach(500_000, phase_reach(1_000_000, 1_000_000)), 13_890);
    assert_eq!(swing_reach(200_000, 1_000_000), 5_556);
    assert_eq!(swing_reach(300_000, phase_reach(10_000_000, 1_000_000)), 83_334);
    assert_eq!(swing_reach(500_000, phase_reach(1_000_000, 1)), 2);
}

#[test]
fn fractional_frequency_has_no_jump_at_the_seam() {
    // At frequency 2.5 the plain harmonic would end the turn half a period
    // away from where it began; the folded one comes back to its crest.
    let p = steep();
    let last = at_degrees(359, &p);
    let first = at_degrees(360, &p);
    assert_eq!(first.c1, 500_000);
    assert_eq!(last.c1, 499_758);
    assert_eq!(at_degrees(1, &p).c1, last.c1);
    assert_eq!(sample(FULL_TURN - 1, &p).c1, 499_999);
    assert_eq!(sample(FULL_TURN + 1, &p).c1, 499_999);
}

#[test]
fn sample_all_is_one_sample_per_degree() {
    let p = steep();
    let samples = sample_all(&p);
    assert_eq!(samples.len(), SAMPLE_COUNT);
    assert_eq!(samples.len(), 360);
    assert_eq!(DEGREE * 360, FULL_TURN);
    for (i, c) in samples.iter().enumerate() {
        assert_eq!(*c, sample(i as u64 * 1_000_000, &p));
    }
}

#[test]
fn normalized_wraps_the_hue_and_cuts_the_rest() {
    let n = coordinate(0, 1_000_000, 850_000).normalized();
    assert_eq!(n, HslCoordinate { hue: 0, saturation: 1_000_000, lightness: 850_000 });
    let n = coordinate(10_587_628, 164_210, 752_577).normalized();
    assert_eq!(n, HslCoordinate { hue: 587_628, saturation: 164_210, lightness: 752_577 });
    let n = coordinate(1_000_000, 1_000_001, -1).normalized();
    assert_eq!(n, HslCoordinate { hue: 0, saturation: 1_000_000, lightness: 0 });
    let n = coordinate(-1, -750_000, 2_000_000).normalized();
    assert_eq!(n, HslCoordinate { hue: 999_999, saturation: 0, lightness: 1_000_000 });
    let n = coordinate(-1_000_000, 0, 0).normalized();
    assert_eq!(n.hue, 0);
    let n = coordinate(-2_250_000, i64::MIN, i64::MAX).normalized();
    assert_eq!(n, HslCoordinate { hue: 750_000, saturation: 0, lightness: 1_000_000 });
    assert_eq!(coordinate(i64::MIN, 0, 0).normalized().hue, 224_192);
    assert_eq!(coordinate(i64::MAX, 0, 0).normalized().hue, 775_807);
}
