use caves::components::{Animation, AnimationManager, BoundingBox, Frame, Movement, MovementDirection, Sprite};
use caves::geometry::{Point, Rect};
use caves::map_key::{InvalidMapKey, MapKey};
use caves::resources::{ChangeGameState, GameState, Key};
use caves::sprites::TextureId;

#[test]
fn unique_map_key_can_decode_itself() {
    // Generates random MapKeys and checks if they are at least different from their previous
    // keys. Then ensures that the MapKey can decode its encoded form.
    let runs = 10000;

    let mut prev_key: MapKey = MapKey::random();
    let mut prev_key_encoded = prev_key.to_string();
    for _ in 0..runs {
        let key: MapKey = MapKey::random();

        let encoded = key.to_string();
        assert_ne!(key, prev_key);
        assert_ne!(encoded, prev_key_encoded);

        // Encoding and decoding should result in the same key
        assert_eq!(key, MapKey::from_str(&encoded).unwrap());
        // Should not be the same as the previous key (redundant but important check)
        assert_ne!(prev_key, MapKey::from_str(&encoded).unwrap());

        prev_key = key;
        prev_key_encoded = encoded;
    }
}

#[test]
fn map_key_errors() {
    assert!(matches!(MapKey::from_str("AAAA"), Err(InvalidMapKey::InvalidLength)));
    assert!(matches!(MapKey::from_str("!!!!"), Err(InvalidMapKey::DecodeError(_))));
    let key = MapKey([0u8; 32]);
    assert_eq!(key.to_string(), "AAAAAAAAAAAAAAAAAAAAAAAAAAAAAAAAAAAAAAAAAAA");
}

#[test]
fn keys_of_the_keypad() {
    assert_eq!(Key::from_scancode(82), Some(Key::UpArrow));
    assert_eq!(Key::from_scancode(41), Some(Key::Menu));
    assert_eq!(Key::from_scancode(15), Some(Key::LightKey5));
    assert_eq!(Key::from_scancode(4), None);
}

#[test]
fn change_game_state_replaces() {
    let mut change = ChangeGameState::default();
    assert_eq!(change.replace(GameState::Pause), None);
    assert_eq!(change.replace(GameState::GoToNextLevel { id: 1 }), Some(GameState::Pause));
    assert_eq!(change.0, Some(GameState::GoToNextLevel { id: 1 }));
}

#[test]
fn movement_and_directions() {
    let m = Movement::default();
    assert!(!m.is_moving());
    assert_eq!(m.direction, MovementDirection::East);
    assert_eq!(MovementDirection::North.to_vector(), Point::new(0, -1));
    assert_eq!(MovementDirection::West.to_vector(), Point::new(-1, 0));
}

#[test]
fn bounding_boxes() {
    let full = BoundingBox::Full { width: 16, height: 10 };
    assert_eq!(full.shrink(2), BoundingBox::Full { width: 12, height: 6 });
    let half = BoundingBox::BottomHalf { width: 16, height: 8 };
    assert_eq!(half.shrink(2), BoundingBox::BottomHalf { width: 12, height: 6 });
    let pos = Point::new(100, 100);
    assert_eq!(full.to_rect(pos), Rect::new(92, 95, 16, 10));
    // The position is the top middle of a bottom half box
    assert_eq!(half.to_rect(pos), Rect::new(92, 100, 16, 8));
    assert_eq!(half.to_full_rect(pos), Rect::new(92, 92, 16, 16));
}

#[test]
fn standard_animations() {
    let animations = AnimationManager::standard_character_animations(30, TextureId(4));
    // 640 ms at 30 frames per second (33 ms per frame) is 19 frames
    assert_eq!(animations.idle.steps.len(), 3);
    assert_eq!(animations.idle.steps[0].duration, 19);
    assert_eq!(animations.idle.steps[1].duration, 2);
    assert_eq!(animations.idle.steps[2].duration, 19);
    assert_eq!(animations.move_left.steps[1].sprite.region, Rect::new(48, 144, 48, 48));
    assert!(animations.move_left.steps[1].sprite.flip_horizontal);
    assert_eq!(animations.hit_down.steps[3].sprite.region, Rect::new(0, 384, 48, 48));
    assert_eq!(animations.stopped_down.steps.len(), 1);
    assert_eq!(animations.stopped_down.steps[0].duration, 0);
    let sprite = animations.default_sprite();
    assert_eq!(sprite.region, Rect::new(144, 384, 48, 48));
    let default = animations.default_animation();
    assert!(default.has_same_steps(&animations.stopped_down));
    assert!(!default.can_interrupt || default.can_interrupt);
}

#[test]
fn animations_update_only_when_different() {
    let frame = Frame {
        sprite: Sprite { texture_id: TextureId(0), region: Rect::new(0, 0, 4, 4), flip_horizontal: false, flip_vertical: false },
        duration: 3,
    };
    let other_frame = Frame { duration: 5, ..frame };
    let mut a = Animation::new(vec![frame, frame], true, true);
    a.current_step = 1;
    let same = Animation::new(vec![frame, frame], false, false);
    a.update_if_different(&same);
    assert_eq!(a.current_step, 1);
    assert!(a.can_interrupt);
    assert!(a.is_complete());
    let different = Animation::new(vec![other_frame], false, false);
    a.update_if_different(&different);
    assert_eq!(a.current_step, 0);
    assert!(!a.can_interrupt);
    assert_eq!(a.steps, vec![other_frame]);
}

#[test]
fn map_key_text_is_url_safe_base64() {
    let mut seed = [0u8; 32];
    for (i, b) in seed.iter_mut().enumerate() {
        *b = i as u8;
    }
    let key = MapKey(seed);
    assert_eq!(key.to_string(), "AAECAwQFBgcICQoLDA0ODxAREhMUFRYXGBkaGxwdHh8");
    let key = MapKey([0xfb; 32]);
    let text = key.to_string();
    assert_eq!(text, "-_v7-_v7-_v7-_v7-_v7-_v7-_v7-_v7-_v7-_v7-_s");
    assert_eq!(MapKey::from_str(&text).unwrap(), key);
}
