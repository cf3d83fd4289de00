use vstd::prelude::*;

verus! {

/// The logical keys the simulation reacts to. The binding of physical keys
/// to these is a presentation-layer concern.
#[derive(Clone, Copy, PartialEq, Eq, Structural, Debug)]
pub enum Key {
    Left,
    Right,
    Up,
    Down,
    Fire,
    Escape,
}

/// A set of logical keys, one flag per key.
#[derive(Clone, Copy, PartialEq, Eq, Structural, Debug)]
pub struct KeySet {
    pub left: bool,
    pub right: bool,
    pub up: bool,
    pub down: bool,
    pub fire: bool,
    pub escape: bool,
}

impl KeySet {
    pub open spec fn spec_contains(self, key: Key) -> bool {
        match key {
            Key::Left => self.left,
            Key::Right => self.right,
            Key::Up => self.up,
            Key::Down => self.down,
            Key::Fire => self.fire,
            Key::Escape => self.escape,
        }
    }

    pub open spec fn spec_empty() -> KeySet {
        KeySet { left: false, right: false, up: false, down: false, fire: false, escape: false }
    }

    pub fn contains(&self, key: Key) -> (r: bool)
        ensures
            r == self.spec_contains(key),
    {
        match key {
            Key::Left => self.left,
            Key::Right => self.right,
            Key::Up => self.up,
            Key::Down => self.down,
            Key::Fire => self.fire,
            Key::Escape => self.escape,
        }
    }
}

impl Default for KeySet {
    /// The empty key set.
    fn default() -> (s: Self)
        ensures
            s == KeySet::spec_empty(),
    {
        KeySet { left: false, right: false, up: false, down: false, fire: false, escape: false }
    }
}

/// Per-frame snapshot of the keys currently held and the keys newly pressed
/// this frame.
#[derive(Clone, Copy, PartialEq, Eq, Structural, Debug)]
pub struct KeyInput {
    pub down: KeySet,
    pub pressed: KeySet,
}

impl KeyInput {
    /// Is `key` currently held?
    pub fn is_down(&self, key: Key) -> (r: bool)
        ensures
            r == self.down.spec_contains(key),
    {
        self.down.contains(key)
    }

    /// Was `key` newly pressed this frame?
    pub fn is_pressed(&self, key: Key) -> (r: bool)
        ensures
            r == self.pressed.spec_contains(key),
    {
        self.pressed.contains(key)
    }
}

impl Default for KeyInput {
    /// A snapshot with no keys held and none pressed.
    fn default() -> (s: Self)
        ensures
            s.down == KeySet::spec_empty(),
            s.pressed == KeySet::spec_empty(),
    {
        KeyInput { down: KeySet::default(), pressed: KeySet::default() }
    }
}

} // verus!
