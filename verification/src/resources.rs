//! Resources shared by the systems of a level: elapsed frames, user events and requested changes
//! of the game state
use vstd::prelude::*;

verus! {

/// The number of frames elapsed since the last time all of the systems were run. Often this will
/// be just 1 but it may be greater if there is lag or if a system takes too long.
#[derive(Debug, Clone, Copy, PartialEq, Eq, Structural)]
pub struct FramesElapsed(pub usize);

/// Represents the key that was pressed/released
#[derive(Debug, Clone, Copy, PartialEq, Eq, Structural)]
pub enum Key {
    UpArrow,
    DownArrow,
    LeftArrow,
    RightArrow,
    Menu,
    Select,
    Start,
    VolumeDown,
    VolumeUp,
    X,
    Y,
    A,
    B,
    LightKey1,
    LightKey2,
    LightKey4,
    LightKey5,
}

/// The key that an SDL scan code stands for on the keypad, if it is one of the supported keys
pub open spec fn spec_key_of(code: i32) -> Option<Key> {
    if code == 82 {
        Some(Key::UpArrow)
    } else if code == 81 {
        Some(Key::DownArrow)
    } else if code == 80 {
        Some(Key::LeftArrow)
    } else if code == 79 {
        Some(Key::RightArrow)
    } else if code == 41 {
        Some(Key::Menu)
    } else if code == 44 {
        Some(Key::Select)
    } else if code == 40 {
        Some(Key::Start)
    } else if code == 86 {
        Some(Key::VolumeDown)
    } else if code == 87 {
        Some(Key::VolumeUp)
    } else if code == 12 {
        Some(Key::X)
    } else if code == 24 {
        Some(Key::Y)
    } else if code == 14 {
        Some(Key::A)
    } else if code == 13 {
        Some(Key::B)
    } else if code == 11 {
        Some(Key::LightKey1)
    } else if code == 28 {
        Some(Key::LightKey2)
    } else if code == 18 {
        Some(Key::LightKey4)
    } else if code == 15 {
        Some(Key::LightKey5)
    } else {
        None
    }
}

impl Key {
    /// Attempts to convert the given SDL scan code (its number) to a key. Returns None if the key
    /// was not one of the supported keys. The keys are those of the keypad: the arrows (Up, Down,
    /// Left, Right), Menu (Escape), Select (Space), Start (Return), the volume keys (keypad minus
    /// and plus), X (I), Y (U), A (K), B (J) and the light keys 1 (H), 2 (Y), 4 (O) and 5 (L).
    pub fn from_scancode(code: i32) -> (r: Option<Key>)
        ensures
            r == spec_key_of(code),
    {
        if code == 82 {
            Some(Key::UpArrow)
        } else if code == 81 {
            Some(Key::DownArrow)
        } else if code == 80 {
            Some(Key::LeftArrow)
        } else if code == 79 {
            Some(Key::RightArrow)
        } else if code == 41 {
            Some(Key::Menu)
        } else if code == 44 {
            Some(Key::Select)
        } else if code == 40 {
            Some(Key::Start)
        } else if code == 86 {
            Some(Key::VolumeDown)
        } else if code == 87 {
            Some(Key::VolumeUp)
        } else if code == 12 {
            Some(Key::X)
        } else if code == 24 {
            Some(Key::Y)
        } else if code == 14 {
            Some(Key::A)
        } else if code == 13 {
            Some(Key::B)
        } else if code == 11 {
            Some(Key::LightKey1)
        } else if code == 28 {
            Some(Key::LightKey2)
        } else if code == 18 {
            Some(Key::LightKey4)
        } else if code == 15 {
            Some(Key::LightKey5)
        } else {
            None
        }
    }
}

/// Represents an event from the user of the application
#[derive(Debug, Clone, Copy, PartialEq, Eq, Structural)]
pub enum Event {
    KeyDown(Key),
    KeyUp(Key),
}

/// The events that have taken place before the current frame. This queue resets every frame.
#[derive(Debug, Clone)]
pub struct EventQueue(pub Vec<Event>);

impl EventQueue {
    /// An empty queue
    pub fn default() -> (r: Self)
        ensures
            r.0@ == Seq::<Event>::empty(),
    {
        EventQueue(Vec::new())
    }
}

/// Changes to the game state
#[derive(Debug, Clone, Copy, PartialEq, Eq, Structural)]
pub enum GameState {
    /// Game should change to the next level (and move the player and its components there)
    GoToNextLevel { id: usize },
    /// Game should change to the previous level (and move the player and its components there)
    GoToPrevLevel { id: usize },
    /// Game should pause, but stay on the same level
    Pause,
}

/// Represents an intention to change the game state
#[derive(Debug, Clone, Copy, PartialEq, Eq, Structural)]
pub struct ChangeGameState(pub Option<GameState>);

impl ChangeGameState {
    /// No change of the game state is intended
    pub fn default() -> (r: Self)
        ensures
            r.0 is None,
    {
        ChangeGameState(None)
    }

    /// Intends the given change of the game state, replacing any intended before. Returns the
    /// change that was intended before, if any.
    pub fn replace(&mut self, state: GameState) -> (r: Option<GameState>)
        ensures
            r == old(self).0,
            final(self).0 == Some(state),
    {
        let prev = self.0;
        self.0 = Some(state);
        prev
    }
}

/// Actions that an entity can take or have happen to them during a frame
#[derive(Debug, Clone, Copy, PartialEq, Eq, Structural)]
pub enum Action {
    /// The entity requested to interact with the tile/item it is currently facing
    Interact,
    /// The entity performed its attack
    Attack,
    /// The entity was hit by something and took damage
    Hit,
    /// The entity completed something
    Victory,
    /// The entity was defeated in battle (0 HP)
    Defeat,
}


/// The number of the SDL scan code that sends each key on the keypad: the arrow keys send SDL's
/// Up (82), Down (81), Left (80) and Right (79); Menu is Escape (41), Select is Space (44), Start
/// is Return (40); the volume keys are the keypad's minus (86) and plus (87); X, Y, A and B are
/// the letters I (12), U (24), K (14) and J (13); and the light keys 1, 2, 4 and 5 are the letters
/// H (11), Y (28), O (18) and L (15)
pub open spec fn keypad_scancode(k: Key) -> i32 {
    match k {
        Key::UpArrow => 82,
        Key::DownArrow => 81,
        Key::LeftArrow => 80,
        Key::RightArrow => 79,
        Key::Menu => 41,
        Key::Select => 44,
        Key::Start => 40,
        Key::VolumeDown => 86,
        Key::VolumeUp => 87,
        Key::X => 12,
        Key::Y => 24,
        Key::A => 14,
        Key::B => 13,
        Key::LightKey1 => 11,
        Key::LightKey2 => 28,
        Key::LightKey4 => 18,
        Key::LightKey5 => 15,
    }
}

/// A scan code stands for a key exactly when it is the scan code the keypad sends for that key:
/// each key is read back from its own scan code, and from no other
pub proof fn lemma_scancode_keys(code: i32, k: Key)
    ensures
        spec_key_of(code) == Some(k) <==> code == keypad_scancode(k),
        spec_key_of(keypad_scancode(k)) == Some(k),
{
}

} // verus!
