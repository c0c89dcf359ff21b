use caves::sprites::{floor_patterns, TorchAnimation};

fn check_floor_patterns() {
    for pat in floor_patterns() {
        let rows = pat.len();
        assert!(rows > 0, "floor pattern must be non-empty");

        let row_len = pat[0].len();
        for row in pat.iter() {
            assert_eq!(row.len(), row_len, "rows must all be same size");
        }
    }
}

#[test]
fn sprite_consistent_floor_patterns() {
    check_floor_patterns();
}

#[test]
fn floor_sprite_consistent_floor_patterns() {
    check_floor_patterns();
}

#[test]
fn torch_animation_cycles() {
    let mut torch = TorchAnimation { current_step: caves::sprites::TorchSprite::Torch1, frame_counter: 0 };
    let start = torch.current_step();
    // Each step lasts a few frames; four steps make a full cycle
    for _ in 0..(4 * caves::sprites::TORCH_FRAMES_PER_STEP) {
        torch.advance(1);
    }
    assert_eq!(torch.current_step(), start);
}
