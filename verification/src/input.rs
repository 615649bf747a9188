//! The set of currently pressed key codes, fed by press/release transitions
//! in arrival order.

use vstd::prelude::*;

verus! {

/// The currently pressed keys.  Its mathematical value is the set of pressed
/// key codes: a repeated press is idempotent and releasing an unpressed key
/// is a no-op.
pub struct InputState {
    pressed: Vec<u64>,
}

impl View for InputState {
    type V = Set<u64>;

    closed spec fn view(&self) -> Set<u64> {
        self.pressed@.to_set()
    }
}

impl InputState {
    /// No key code is recorded twice.
    pub closed spec fn wf(&self) -> bool {
        forall|i: int, j: int|
            0 <= i < j < self.pressed@.len() ==> self.pressed@[i] != self.pressed@[j]
    }

    /// A state with no key pressed.
    pub fn new() -> (r: InputState)
        ensures
            r.wf(),
            r@ == Set::<u64>::empty(),
    {
        let r = InputState { pressed: Vec::new() };
        proof {
            assert(r.pressed@.to_set() =~= Set::<u64>::empty());
        }
        r
    }

    /// The position of the code in the list, if pressed.
    fn find(&self, code: u64) -> (r: Option<usize>)
        ensures
            r is Some ==> r->0 < self.pressed@.len() && self.pressed@[r->0 as int] == code,
            r is None ==> !self.pressed@.contains(code),
    {
        let n = self.pressed.len();
        let mut i: usize = 0;
        while i < n
            invariant
                i <= n,
                n == self.pressed@.len(),
                forall|j: int| 0 <= j < i ==> self.pressed@[j] != code,
            decreases n - i,
        {
            if self.pressed[i] == code {
                return Some(i);
            }
            i = i + 1;
        }
        None
    }

    /// Whether the key code is currently pressed.
    pub fn contains(&self, code: u64) -> (r: bool)
        ensures
            r == self@.contains(code),
    {
        self.find(code).is_some()
    }

    /// Applies one press or release transition: a press inserts the code into
    /// the pressed set, a release removes it.  Pressing an already-pressed
    /// key and releasing an unpressed key leave the state unchanged.
    pub fn on_key_transition(&mut self, code: u64, is_down: bool)
        requires
            old(self).wf(),
        ensures
            final(self).wf(),
            is_down ==> final(self)@ == old(self)@.insert(code),
            !is_down ==> final(self)@ == old(self)@.remove(code),
    {
        let found = self.find(code);
        if is_down {
            match found {
                Some(_) => {
                    proof {
                        assert(self@.insert(code) =~= self@);
                    }
                },
                None => {
                    let ghost s0 = self.pressed@;
                    self.pressed.push(code);
                    proof {
                        assert forall|i: int, j: int|
                            0 <= i < j < self.pressed@.len() implies self.pressed@[i]
                            != self.pressed@[j] by {
                            if j < s0.len() {
                                assert(self.pressed@[i] == s0[i] && self.pressed@[j] == s0[j]);
                            } else {
                                assert(self.pressed@[j] == code);
                                assert(self.pressed@[i] == s0[i]);
                            }
                        }
                        assert forall|a: u64| self.pressed@.to_set().contains(a) implies s0
                            .to_set().insert(code).contains(a) by {
                            let j = choose|j: int|
                                0 <= j < self.pressed@.len() && #[trigger] self.pressed@[j] == a;
                            if j < s0.len() {
                                assert(s0[j] == a);
                                assert(s0.contains(a));
                            }
                        }
                        assert forall|a: u64| s0.to_set().insert(code).contains(a) implies self
                            .pressed@.to_set().contains(a) by {
                            if a == code {
                                assert(self.pressed@[s0.len() as int] == code);
                                assert(self.pressed@.contains(a));
                            } else {
                                let j = choose|j: int|
                                    0 <= j < s0.len() && #[trigger] s0[j] == a;
                                assert(self.pressed@[j] == a);
                                assert(self.pressed@.contains(a));
                            }
                        }
                        assert(self.pressed@.to_set() =~= s0.to_set().insert(code));
                    }
                },
            }
        } else {
            match found {
                Some(i) => {
                    let ghost s0 = self.pressed@;
                    self.pressed.remove(i);
                    proof {
                        let k = i as int;
                        assert(self.pressed@ =~= s0.subrange(0, k) + s0.subrange(
                            k + 1,
                            s0.len() as int,
                        ));
                        assert forall|a: int, b: int|
                            0 <= a < b < self.pressed@.len() implies self.pressed@[a]
                            != self.pressed@[b] by {
                            assert(self.pressed@[a] == (if a < k {
                                s0[a]
                            } else {
                                s0[a + 1]
                            }));
                            assert(self.pressed@[b] == (if b < k {
                                s0[b]
                            } else {
                                s0[b + 1]
                            }));
                        }
                        assert forall|a: u64| self.pressed@.to_set().contains(a) implies s0
                            .to_set().remove(code).contains(a) by {
                            let j = choose|j: int|
                                0 <= j < self.pressed@.len() && #[trigger] self.pressed@[j] == a;
                            if j < k {
                                assert(s0[j] == a);
                                assert(s0.contains(a));
                                assert(a != code);
                            } else {
                                assert(s0[j + 1] == a);
                                assert(s0.contains(a));
                                assert(a != code);
                            }
                        }
                        assert forall|a: u64| s0.to_set().remove(code).contains(a) implies self
                            .pressed@.to_set().contains(a) by {
                            let j = choose|j: int| 0 <= j < s0.len() && #[trigger] s0[j] == a;
                            if j < k {
                                assert(self.pressed@[j] == a);
                                assert(self.pressed@.contains(a));
                            } else {
                                assert(j != k);
                                assert(self.pressed@[j - 1] == a);
                                assert(self.pressed@.contains(a));
                            }
                        }
                        assert(self.pressed@.to_set() =~= s0.to_set().remove(code));
                    }
                },
                None => {
                    proof {
                        assert(self@.remove(code) =~= self@);
                    }
                },
            }
        }
    }

    /// Whether either shift key code is pressed.
    pub fn shift_active(&self, left_shift: u64, right_shift: u64) -> (r: bool)
        ensures
            r == (self@.contains(left_shift) || self@.contains(right_shift)),
    {
        self.contains(left_shift) || self.contains(right_shift)
    }
}

/// Pressing a key twice without an intervening release leaves the pressed set
/// exactly as one press does.
pub proof fn lemma_press_twice_idempotent(s: Set<u64>, code: u64)
    ensures
        s.insert(code).insert(code) == s.insert(code),
{
    assert(s.insert(code).insert(code) =~= s.insert(code));
}

/// Releasing a key that is not pressed leaves the pressed set unchanged.
pub proof fn lemma_release_unpressed_noop(s: Set<u64>, code: u64)
    requires
        !s.contains(code),
    ensures
        s.remove(code) == s,
{
    assert(s.remove(code) =~= s);
}

} // verus!
