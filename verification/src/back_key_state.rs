//! Tracks which back-like keys were seen going down, so that a release
//! whose press was never observed can be preceded by a synthetic press.

use vstd::prelude::*;

verus! {

/// The keys that Android treats as "back".
#[derive(Clone, Copy, Debug, PartialEq, Eq, Structural)]
pub enum BackKey {
    Back,
    ButtonB,
}

/// The edge of a key event.
#[derive(Clone, Copy, Debug, PartialEq, Eq, Structural)]
pub enum KeyPhase {
    Pressed,
    Released,
}

/// Remembers, for each back-like key, whether its press was observed.
#[derive(Clone, Copy, Debug, PartialEq, Eq, Structural)]
pub struct BackKeyState {
    back_pressed: bool,
    button_b_pressed: bool,
}

impl BackKeyState {
    /// Whether a press of `key` was observed and its release not yet.
    pub closed spec fn is_down(self, key: BackKey) -> bool {
        match key {
            BackKey::Back => self.back_pressed,
            BackKey::ButtonB => self.button_b_pressed,
        }
    }

    /// The state in which no press has been observed.
    pub closed spec fn spec_initial() -> Self {
        BackKeyState { back_pressed: false, button_b_pressed: false }
    }

    /// The state after recording that `key` entered `phase`.
    pub closed spec fn spec_observe(self, key: Option<BackKey>, phase: KeyPhase) -> Self {
        match key {
            None => self,
            Some(BackKey::Back) => BackKeyState { back_pressed: phase == KeyPhase::Pressed, ..self },
            Some(BackKey::ButtonB) => BackKeyState {
                button_b_pressed: phase == KeyPhase::Pressed,
                ..self
            },
        }
    }

    /// Whether recording that `key` entered `phase` calls for a synthetic
    /// press: a back-like release whose press was not observed.
    pub open spec fn spec_synthesize(self, key: Option<BackKey>, phase: KeyPhase) -> bool {
        match key {
            Some(k) => phase == KeyPhase::Released && !self.is_down(k),
            None => false,
        }
    }

    /// How `spec_observe` and `spec_initial` read key by key.
    pub broadcast proof fn lemma_observe_is_down(self, key: Option<BackKey>, phase: KeyPhase, k: BackKey)
        ensures
            #[trigger] self.spec_observe(key, phase).is_down(k) == (if key == Some(k) {
                phase == KeyPhase::Pressed
            } else {
                self.is_down(k)
            }),
            !Self::spec_initial().is_down(k),
    {
    }

    /// A state that has seen no press.
    pub fn new() -> (s: Self)
        ensures
            s == Self::spec_initial(),
    {
        BackKeyState { back_pressed: false, button_b_pressed: false }
    }

    /// Records a key edge and returns whether an orphan back-like release needs
    /// a synthetic press immediately before it.
    pub fn observe(&mut self, key: Option<BackKey>, phase: KeyPhase) -> (synthesize: bool)
        ensures
            synthesize == old(self).spec_synthesize(key, phase),
            *final(self) == old(self).spec_observe(key, phase),
    {
        match key {
            None => false,
            Some(BackKey::Back) => {
                let was = self.back_pressed;
                self.back_pressed = match phase {
                    KeyPhase::Pressed => true,
                    KeyPhase::Released => false,
                };
                match phase {
                    KeyPhase::Pressed => false,
                    KeyPhase::Released => !was,
                }
            },
            Some(BackKey::ButtonB) => {
                let was = self.button_b_pressed;
                self.button_b_pressed = match phase {
                    KeyPhase::Pressed => true,
                    KeyPhase::Released => false,
                };
                match phase {
                    KeyPhase::Pressed => false,
                    KeyPhase::Released => !was,
                }
            },
        }
    }

    /// Forgets every observed press.
    pub fn reset(&mut self)
        ensures
            *final(self) == Self::spec_initial(),
    {
        *self = Self::new();
    }
}

impl Default for BackKeyState {
    fn default() -> (s: Self)
        ensures
            s == Self::spec_initial(),
    {
        Self::new()
    }
}

/// A press of a back-like key never calls for a synthetic press, and a
/// release that follows it does not either.
pub proof fn law_observed_press_release_not_synthesized(s: BackKeyState, k: BackKey)
    ensures
        !s.spec_synthesize(Some(k), KeyPhase::Pressed),
        !s.spec_observe(Some(k), KeyPhase::Pressed).spec_synthesize(Some(k), KeyPhase::Released),
{
    s.lemma_observe_is_down(Some(k), KeyPhase::Pressed, k);
}

/// A back-like release whose press was not seen calls for exactly one
/// synthetic press, and so does every further release without a press.
pub proof fn law_orphan_release_synthesizes(s: BackKeyState, k: BackKey)
    requires
        !s.is_down(k),
    ensures
        s.spec_synthesize(Some(k), KeyPhase::Released),
        s.spec_observe(Some(k), KeyPhase::Released).spec_synthesize(Some(k), KeyPhase::Released),
        !s.spec_observe(Some(k), KeyPhase::Released).is_down(k),
{
    s.lemma_observe_is_down(Some(k), KeyPhase::Released, k);
}

/// Any release of a back-like key leaves that key up, whatever came before.
pub proof fn law_release_leaves_key_up(s: BackKeyState, k: BackKey)
    ensures
        !s.spec_observe(Some(k), KeyPhase::Released).is_down(k),
        s.spec_observe(Some(k), KeyPhase::Released).spec_synthesize(Some(k), KeyPhase::Released),
{
    s.lemma_observe_is_down(Some(k), KeyPhase::Released, k);
}

/// Keys that are not back-like neither change the state nor call for a
/// synthetic press.
pub proof fn law_other_keys_are_ignored(s: BackKeyState, phase: KeyPhase)
    ensures
        s.spec_observe(None, phase) == s,
        !s.spec_synthesize(None, phase),
{
}

/// An edge of one back-like key leaves the other key's state as it was.
pub proof fn law_keys_are_independent(s: BackKeyState, k: BackKey, other: BackKey, phase: KeyPhase)
    requires
        k != other,
    ensures
        s.spec_observe(Some(k), phase).is_down(other) == s.is_down(other),
{
    s.lemma_observe_is_down(Some(k), phase, other);
}

/// After a reset every back-like release is an orphan again.
pub proof fn law_reset_forgets_presses(k: BackKey)
    ensures
        !BackKeyState::spec_initial().is_down(k),
        BackKeyState::spec_initial().spec_synthesize(Some(k), KeyPhase::Released),
{
    BackKeyState::spec_initial().lemma_observe_is_down(None, KeyPhase::Released, k);
}

/// The state after observing `events` in order, starting from `s`.
pub open spec fn run_observe(s: BackKeyState, events: Seq<(Option<BackKey>, KeyPhase)>) -> BackKeyState
    decreases events.len(),
{
    if events.len() == 0 {
        s
    } else {
        run_observe(s, events.drop_last()).spec_observe(events.last().0, events.last().1)
    }
}

/// Whether the last edge of `k` among `events` is a press (with no edge of
/// `k`, it is not).
pub open spec fn last_edge_is_press(events: Seq<(Option<BackKey>, KeyPhase)>, k: BackKey) -> bool
    decreases events.len(),
{
    if events.len() == 0 {
        false
    } else if events.last().0 == Some(k) {
        events.last().1 == KeyPhase::Pressed
    } else {
        last_edge_is_press(events.drop_last(), k)
    }
}

/// After any sequence of events from a fresh or reset state, a back-like
/// key is down exactly when its last edge was a press.
pub proof fn lemma_run_is_down(events: Seq<(Option<BackKey>, KeyPhase)>, k: BackKey)
    ensures
        run_observe(BackKeyState::spec_initial(), events).is_down(k) == last_edge_is_press(events, k),
    decreases events.len(),
{
    if events.len() == 0 {
        BackKeyState::spec_initial().lemma_observe_is_down(None, KeyPhase::Pressed, k);
    } else {
        lemma_run_is_down(events.drop_last(), k);
        run_observe(BackKeyState::spec_initial(), events.drop_last()).lemma_observe_is_down(
            events.last().0,
            events.last().1,
            k,
        );
    }
}

/// Over any sequence of events from a fresh or reset state, the event at
/// position `i` calls for a synthetic press exactly when it is a release of
/// a back-like key whose last edge before it was not a press: repeated
/// presses count once, edges of the other key and of other keys change
/// nothing, and presses and other keys never call for one.
pub proof fn law_back_key_sequence(events: Seq<(Option<BackKey>, KeyPhase)>, i: int)
    requires
        0 <= i < events.len(),
    ensures
        run_observe(BackKeyState::spec_initial(), events.take(i)).spec_synthesize(events[i].0, events[i].1)
            == match events[i].0 {
            Some(k) => events[i].1 == KeyPhase::Released && !last_edge_is_press(events.take(i), k),
            None => false,
        },
{
    match events[i].0 {
        Some(k) => {
            lemma_run_is_down(events.take(i), k);
        },
        None => {},
    }
}

} // verus!
