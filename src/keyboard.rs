//! The state of the 16 logical keys of the hexadecimal keypad.
use vstd::prelude::*;

verus! {

/// Number of logical keys.
pub const KEY_COUNT: usize = 16;

/// The lowest key that `keys` holds as pressed, if any.
pub open spec fn lowest_pressed(keys: Seq<bool>) -> Option<u8> {
    if exists|k: int| 0 <= k < keys.len() && keys[k] {
        Some((choose|k: int| 0 <= k < keys.len() && keys[k] && forall|j: int| 0 <= j < k ==> !keys[j]) as u8)
    } else {
        None
    }
}

/// Which of the 16 logical keys are held down.
pub struct KeyboardFirm {
    pressed_keys: Vec<bool>,
}

impl View for KeyboardFirm {
    type V = Seq<bool>;

    /// Entry `k` tells whether logical key `k` is held down.
    closed spec fn view(&self) -> Seq<bool> {
        self.pressed_keys@
    }
}

impl Default for KeyboardFirm {
    fn default() -> (r: Self)
        ensures
            r@ == Seq::new(KEY_COUNT as nat, |k: int| false),
    {
        let mut pressed_keys: Vec<bool> = Vec::new();
        while pressed_keys.len() < KEY_COUNT
            invariant
                pressed_keys.len() <= KEY_COUNT,
                forall|k: int| 0 <= k < pressed_keys.len() ==> !pressed_keys@[k],
            decreases KEY_COUNT - pressed_keys.len(),
        {
            pressed_keys.push(false);
        }
        let r = KeyboardFirm { pressed_keys };
        assert(r@ =~= Seq::new(KEY_COUNT as nat, |k: int| false));
        r
    }
}

impl KeyboardFirm {
    /// One entry per logical key.
    pub open spec fn wf(&self) -> bool {
        self@.len() == KEY_COUNT
    }

    /// Whether `key` names a logical key that is held down; codes past 15 never are.
    pub fn is_key_pressed(&self, key: u8) -> (r: bool)
        requires
            self.wf(),
        ensures
            r == (key < KEY_COUNT && self@[key as int]),
    {
        key < 16 && self.pressed_keys[key as usize]
    }

    /// Marks each key of `keys` as held down; codes past 15 are ignored.
    pub fn press_key(&mut self, keys: Vec<u8>)
        requires
            old(self).wf(),
        ensures
            final(self).wf(),
            forall|k: int|
                0 <= k < KEY_COUNT ==> #[trigger] final(self)@[k] == (old(self)@[k] || keys@.contains(
                    k as u8,
                )),
    {
        self.set_keys(&keys, true);
    }

    /// Marks each key of `keys` as released; codes past 15 are ignored.
    pub fn key_up(&mut self, keys: Vec<u8>)
        requires
            old(self).wf(),
        ensures
            final(self).wf(),
            forall|k: int|
                0 <= k < KEY_COUNT ==> #[trigger] final(self)@[k] == (old(self)@[k] && !keys@.contains(
                    k as u8,
                )),
    {
        self.set_keys(&keys, false);
    }

    fn set_keys(&mut self, keys: &Vec<u8>, down: bool)
        requires
            old(self).wf(),
        ensures
            final(self).wf(),
            forall|k: int|
                0 <= k < KEY_COUNT ==> #[trigger] final(self)@[k] == if keys@.contains(k as u8) {
                    down
                } else {
                    old(self)@[k]
                },
    {
        let mut i: usize = 0;
        while i < keys.len()
            invariant
                self.wf(),
                i <= keys.len(),
                forall|k: int|
                    0 <= k < KEY_COUNT ==> #[trigger] self@[k] == if keys@.subrange(0, i as int).contains(
                        k as u8,
                    ) {
                        down
                    } else {
                        old(self)@[k]
                    },
            decreases keys.len() - i,
        {
            let key = keys[i];
            if key < 16 {
                self.pressed_keys.set(key as usize, down);
            }
            assert forall|k: int| 0 <= k < KEY_COUNT implies #[trigger] keys@.subrange(0, i + 1).contains(k as u8)
                == (keys@.subrange(0, i as int).contains(k as u8) || key == k as u8) by {
                let s = keys@.subrange(0, i + 1);
                if s.contains(k as u8) {
                    let j = choose|j: int| 0 <= j < s.len() && s[j] == k as u8;
                    if j < i {
                        assert(keys@.subrange(0, i as int)[j] == k as u8);
                    }
                }
                if keys@.subrange(0, i as int).contains(k as u8) {
                    let j = choose|j: int| 0 <= j < i && keys@.subrange(0, i as int)[j] == k as u8;
                    assert(s[j] == k as u8);
                }
                if key == k as u8 {
                    assert(s[i as int] == k as u8);
                }
            }
            i = i + 1;
        }
        assert(keys@.subrange(0, keys.len() as int) =~= keys@);
    }

    /// The lowest logical key that is held down, if any.
    pub fn get_key_pressed(&self) -> (r: Option<u8>)
        requires
            self.wf(),
        ensures
            r == lowest_pressed(self@),
            r matches Some(k) ==> k < KEY_COUNT && self@[k as int] && forall|j: int|
                0 <= j < k ==> !self@[j],
            r is None ==> forall|j: int| 0 <= j < KEY_COUNT ==> !self@[j],
    {
        let mut i: usize = 0;
        while i < KEY_COUNT
            invariant
                self.wf(),
                i <= KEY_COUNT,
                forall|j: int| 0 <= j < i ==> !self@[j],
            decreases KEY_COUNT - i,
        {
            if self.pressed_keys[i] {
                proof {
                    let k = choose|k: int|
                        0 <= k < self@.len() && self@[k] && forall|j: int| 0 <= j < k ==> !self@[j];
                    assert(0 <= k < self@.len() && self@[k] && forall|j: int| 0 <= j < k ==> !self@[j]);
                    if k < i {
                    } else if k > i {
                        assert(!self@[i as int]);
                    }
                }
                return Some(i as u8);
            }
            i = i + 1;
        }
        None
    }
}

} // verus!
