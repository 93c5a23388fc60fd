//! What keys mean: the entries of a key map.
use vstd::prelude::*;

verus! {

/// What pressing a key does.
#[derive(Debug, Copy, Clone, PartialEq, Eq, Structural)]
pub enum KeyPress {
    /// Reports the key code.
    Key(u8),
    LayerSet0,
    LayerSet1,
    LayerSet2,
    LayerSet3,
    LayerSet4,
    LayerHold0,
    LayerHold1,
    LayerHold2,
    LayerHold3,
    LayerHold4,
}

/// One meaning of a key.
#[derive(Debug, Copy, Clone, PartialEq, Eq, Structural)]
pub struct KeyMap {
    pub key: KeyPress,
    /// The modifier keys that go with it, one bit each.
    pub modifiers: u8,
}

/// What a key means on one layer.
#[derive(Debug, Copy, Clone, PartialEq, Eq, Structural)]
pub struct KeyMapping {
    /// When it is pressed.
    pub press: Option<KeyMap>,
    /// When it is held.
    pub held: Option<KeyMap>,
}

impl KeyMapping {
    /// A key without a meaning.
    pub open spec fn none() -> KeyMapping {
        KeyMapping { press: None, held: None }
    }
}

} // verus!
