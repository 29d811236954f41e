//! Which buttons went down, came up or are held in the current tick.

use std::collections::HashSet;
use vstd::prelude::*;

verus! {

broadcast use vstd::std_specs::hash::group_hash_axioms;

/// What happened to a button.
#[derive(Copy, Clone, Debug, PartialEq, Eq, Structural)]
pub enum ButtonState {
    Pressed,
    Released,
}

/// The buttons of one device, each known by its code.
pub struct ButtonSet {
    pressed_buttons: HashSet<u32>,
    released_buttons: HashSet<u32>,
    held_buttons: HashSet<u32>,
}

impl ButtonSet {
    /// The buttons that went down since the last update.
    pub closed spec fn pressed(&self) -> Set<u32> {
        self.pressed_buttons@
    }

    /// The buttons that came up since the last update.
    pub closed spec fn released(&self) -> Set<u32> {
        self.released_buttons@
    }

    /// The buttons that are down.
    pub closed spec fn held(&self) -> Set<u32> {
        self.held_buttons@
    }

    /// No button is down, and none has moved.
    pub fn new() -> (buttons: Self)
        ensures
            buttons.pressed() == Set::<u32>::empty(),
            buttons.released() == Set::<u32>::empty(),
            buttons.held() == Set::<u32>::empty(),
    {
        Self {
            pressed_buttons: HashSet::new(),
            released_buttons: HashSet::new(),
            held_buttons: HashSet::new(),
        }
    }

    /// Whether `button` went down since the last update, as far as a
    /// focused window is concerned.
    pub fn was_button_pressed(&self, button: u32, is_focused: bool) -> (yes: bool)
        ensures
            yes == (is_focused && self.pressed().contains(button)),
    {
        is_focused && self.pressed_buttons.contains(&button)
    }

    /// Whether `button` came up since the last update, as far as a focused
    /// window is concerned.
    pub fn was_button_released(&self, button: u32, is_focused: bool) -> (yes: bool)
        ensures
            yes == (is_focused && self.released().contains(button)),
    {
        is_focused && self.released_buttons.contains(&button)
    }

    /// Whether `button` is down, as far as a focused window is concerned.
    pub fn is_button_held(&self, button: u32, is_focused: bool) -> (yes: bool)
        ensures
            yes == (is_focused && self.held().contains(button)),
    {
        is_focused && self.held_buttons.contains(&button)
    }

    /// Takes note of a press or a release. A press of a button that is down
    /// already (a key repeat) is no new press.
    pub fn button_state_changed(&mut self, button: u32, state: ButtonState)
        ensures
            state == ButtonState::Pressed ==> {
                &&& final(self).held() == old(self).held().insert(button)
                &&& final(self).released() == old(self).released()
                &&& final(self).pressed() == if old(self).held().contains(button) {
                    old(self).pressed()
                } else {
                    old(self).pressed().insert(button)
                }
            },
            state == ButtonState::Released ==> {
                &&& final(self).held() == old(self).held().remove(button)
                &&& final(self).released() == old(self).released().insert(button)
                &&& final(self).pressed() == old(self).pressed()
            },
    {
        match state {
            ButtonState::Pressed => {
                if self.held_buttons.insert(button) {
                    self.pressed_buttons.insert(button);
                }
                proof {
                    assert(self.held() =~= old(self).held().insert(button));
                }
            },
            ButtonState::Released => {
                self.released_buttons.insert(button);
                self.held_buttons.remove(&button);
            },
        }
    }

    /// Begins a new tick: forgets what went down and came up, keeps what is
    /// held.
    pub fn update(&mut self)
        ensures
            final(self).pressed() == Set::<u32>::empty(),
            final(self).released() == Set::<u32>::empty(),
            final(self).held() == old(self).held(),
    {
        self.pressed_buttons.clear();
        self.released_buttons.clear();
    }
}

} // verus!
