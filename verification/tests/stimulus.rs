use camera_latency_test::stimulus::{decode_pattern, decode_quad_code, state_for};
use camera_latency_test::MeasurementMethod;

fn lumas_of(id: u64) -> [f32; 4] {
    let state = state_for(MeasurementMethod::QuadCode, id);
    [
        state.colors[0][0] as f32,
        state.colors[1][0] as f32,
        state.colors[2][0] as f32,
        state.colors[3][0] as f32,
    ]
}

#[test]
fn quad_code_decodes_forward_sequence() {
    let threshold = 128.0;
    let mut prev = None;

    for expected in 0..20u64 {
        let code = (expected % 16) as u8;
        let lumas = [
            if code & 1 == 1 { 240.0 } else { 16.0 },
            if code & 2 == 2 { 240.0 } else { 16.0 },
            if code & 4 == 4 { 240.0 } else { 16.0 },
            if code & 8 == 8 { 240.0 } else { 16.0 },
        ];
        let id = decode_quad_code(lumas, threshold, prev);
        assert_eq!(id, Some(expected));
        prev = id;
    }
}

#[test]
fn luma_step_alternates_dark_and_light() {
    let even = state_for(MeasurementMethod::LumaStep, 6);
    let odd = state_for(MeasurementMethod::LumaStep, 7);
    assert_eq!(even.transition_id, 6);
    assert_eq!(even.colors, [[16, 16, 16]; 4]);
    assert_eq!(odd.transition_id, 7);
    assert_eq!(odd.colors, [[240, 240, 240]; 4]);
}

#[test]
fn quad_code_spells_the_low_bits() {
    let dark = [16, 16, 16];
    let light = [240, 240, 240];
    let state = state_for(MeasurementMethod::QuadCode, 0b1_0110);
    assert_eq!(state.transition_id, 22);
    assert_eq!(state.colors, [dark, light, light, dark]);
    assert_eq!(state_for(MeasurementMethod::QuadCode, 15).colors, [light; 4]);
    assert_eq!(state_for(MeasurementMethod::QuadCode, 16).colors, [dark; 4]);
}

#[test]
fn pattern_changes_with_every_transition() {
    for id in 0..64u64 {
        for method in [MeasurementMethod::LumaStep, MeasurementMethod::QuadCode] {
            assert_ne!(state_for(method, id).colors, state_for(method, id + 1).colors);
        }
    }
}

#[test]
fn decoding_inverts_display_within_a_cycle() {
    for previous in [0u64, 1, 14, 15, 16, 100, u64::MAX - 32] {
        for step in 1..=16u64 {
            let id = previous + step;
            assert_eq!(decode_quad_code(lumas_of(id), 128.0, Some(previous)), Some(id));
        }
    }
}

#[test]
fn same_code_decodes_one_cycle_ahead() {
    assert_eq!(decode_quad_code(lumas_of(5), 128.0, Some(5)), Some(21));
}

#[test]
fn first_decoding_is_the_code() {
    assert_eq!(decode_quad_code(lumas_of(37), 128.0, None), Some(5));
}

#[test]
fn threshold_itself_is_dark() {
    assert_eq!(decode_quad_code([128.0f32, 128.1, 127.9, 200.0], 128.0, None), Some(10));
    assert_eq!(decode_quad_code([f32::NAN; 4], 128.0, None), Some(0));
}

#[test]
fn patterns_decode_as_brightness_does() {
    for code in 0..16u64 {
        let bright = [code & 1 != 0, code & 2 != 0, code & 4 != 0, code & 8 != 0];
        let lumas = bright.map(|b| if b { 200.0f32 } else { 20.0 });
        for previous in [None, Some(0), Some(9), Some(100)] {
            let id = decode_pattern(bright, previous);
            assert_eq!(decode_quad_code(lumas, 128.0, previous), Some(id));
            assert_eq!(id % 16, code);
        }
    }
}
