//! Keyboard and mouse state: the per-window key tracker and the per-frame
//! snapshot that scene callbacks read.
use vstd::prelude::*;

verus! {

/// Bit `key % 64` of word `key / 64`.
pub open spec fn key_bit(bits: [u64; 4], key: u8) -> bool {
    (bits@[(key / 64) as int] >> ((key % 64) as u64)) & 1 == 1
}

/// The keys whose bit is set.
pub open spec fn key_set(bits: [u64; 4]) -> Set<u8> {
    Set::new(|k: u8| key_bit(bits, k))
}

fn test_bit(word: u64, bit: u8) -> (r: bool)
    requires
        bit < 64,
    ensures
        r == ((word >> (bit as u64)) & 1 == 1),
{
    let r = word & (1u64 << bit) != 0;
    assert(r == ((word >> (bit as u64)) & 1 == 1)) by (bit_vector)
        requires
            bit < 64,
            r == (word & (1u64 << bit) != 0),
    ;
    r
}

fn has_key(bits: &[u64; 4], key: u8) -> (r: bool)
    ensures
        r == key_bit(*bits, key),
{
    test_bit(bits[(key / 64) as usize], key % 64)
}

/// The input state of one frame, as scene callbacks see it.
#[derive(Clone, Copy, Debug, Default)]
pub struct InputSnapshot {
    /// Mouse buttons held: bit 0 left, bit 1 right, bit 2 middle.
    pub buttons: u8,
    /// Keys held, by virtual-key code.
    pub keys: [u64; 4],
    /// Keys pressed during this frame, by virtual-key code.
    pub pressed: [u64; 4],
}

/// Sets bit `key` of `bits`.
fn set_key(bits: &mut [u64; 4], key: u8)
    ensures
        forall|k: u8| #[trigger] key_bit(*final(bits), k) == (k == key || key_bit(*old(bits), k)),
{
    let w = (key / 64) as usize;
    let b = key % 64;
    let old_word = bits[w];
    let new_word = old_word | (1u64 << b);
    bits[w] = new_word;
    assert forall|k: u8| #[trigger] key_bit(*bits, k) == (k == key || key_bit(*old(bits), k)) by {
        let kw = (k / 64) as int;
        let kb = (k % 64) as u64;
        if kw == w as int {
            let o = old_word;
            let n = new_word;
            let bb = b as u64;
            assert(((n >> kb) & 1 == 1) == (kb == bb || (o >> kb) & 1 == 1)) by (bit_vector)
                requires
                    kb < 64,
                    bb < 64,
                    n == o | (1u64 << bb),
            ;
            assert((kb == bb) == (k == key));
        } else {
            assert(k != key);
        }
    }
}

impl InputSnapshot {
    /// The snapshot of a frame: `down[k]` and `just[k]` for every
    /// virtual-key code `k`, and the mouse button bits.
    pub fn from_keys(down: &[bool], just: &[bool], buttons: u8) -> (r: Self)
        requires
            down@.len() == 256,
            just@.len() == 256,
        ensures
            r.buttons == buttons,
            forall|k: u8| #[trigger] key_bit(r.keys, k) == down@[k as int],
            forall|k: u8| #[trigger] key_bit(r.pressed, k) == just@[k as int],
    {
        let mut keys: [u64; 4] = [0, 0, 0, 0];
        let mut pressed: [u64; 4] = [0, 0, 0, 0];
        proof {
            assert forall|k: u8| !#[trigger] key_bit(keys, k) by {
                let w = keys@[(k / 64) as int];
                let s = (k % 64) as u64;
                assert(w == 0);
                assert((w >> s) & 1 == 0) by (bit_vector)
                    requires
                        w == 0,
                ;
            }
        }
        let mut i: usize = 0;
        while i < 256
            invariant
                down@.len() == 256,
                just@.len() == 256,
                i <= 256,
                forall|k: u8| #[trigger] key_bit(keys, k) == ((k as int) < i && down@[k as int]),
                forall|k: u8| #[trigger] key_bit(pressed, k) == ((k as int) < i && just@[k as int]),
            decreases 256 - i,
        {
            let key = i as u8;
            if down[i] {
                set_key(&mut keys, key);
            }
            if just[i] {
                set_key(&mut pressed, key);
            }
            i = i + 1;
        }
        InputSnapshot { buttons, keys, pressed }
    }
}

/// What a scene callback may read and request. Outside callbacks nothing is
/// active and every input query reports `false`.
#[derive(Clone, Copy, Debug, Default)]
pub struct CallbackState {
    pub input: InputSnapshot,
    pub active: bool,
    pub quit: bool,
}

impl CallbackState {
    /// The state a callback runs in. Fixed-rate ticks see held keys but no
    /// frame edges: nothing is "just pressed" during a tick.
    pub fn enter(input: InputSnapshot, tick: bool) -> (r: Self)
        ensures
            r.active,
            !r.quit,
            r.input.buttons == input.buttons,
            r.input.keys == input.keys,
            tick ==> forall|k: u8| !#[trigger] key_bit(r.input.pressed, k),
            !tick ==> r.input.pressed == input.pressed,
    {
        let mut input = input;
        if tick {
            input.pressed = [0, 0, 0, 0];
            proof {
                assert forall|k: u8| !#[trigger] key_bit(input.pressed, k) by {
                    let w = input.pressed@[(k / 64) as int];
                    let s = (k % 64) as u64;
                    assert((w >> s) & 1 == 0) by (bit_vector)
                        requires
                            w == 0,
                    ;
                }
            }
        }
        CallbackState { input, active: true, quit: false }
    }
}

/// Whether mouse button `index` (0 left, 1 right, 2 middle) is held;
/// `false` outside callbacks.
pub fn get_mouse_button_pressed(state: &CallbackState, index: u8) -> (r: bool)
    ensures
        r == (state.active && index < 3 && (state.input.buttons >> index) & 1 == 1),
{
    if state.active && index < 3 {
        let b = state.input.buttons;
        let r = b & (1u8 << index) != 0;
        assert(r == ((b >> index) & 1 == 1)) by (bit_vector)
            requires
                index < 3,
                r == (b & (1u8 << index) != 0),
        ;
        r
    } else {
        false
    }
}

/// Whether virtual key `key` is held in this frame; `false` outside
/// callbacks.
pub fn get_key_pressed(state: &CallbackState, key: u8) -> (r: bool)
    ensures
        r == (state.active && key_bit(state.input.keys, key)),
{
    state.active && has_key(&state.input.keys, key)
}

/// Whether virtual key `key` went down during this frame; `false` outside
/// callbacks.
pub fn get_key_just_pressed(state: &CallbackState, key: u8) -> (r: bool)
    ensures
        r == (state.active && key_bit(state.input.pressed, key)),
{
    state.active && has_key(&state.input.pressed, key)
}

/// Asks the game loop to stop after the current callback. Only callbacks may
/// ask.
pub fn quit(state: &mut CallbackState)
    requires
        old(state).active,
    ensures
        final(state).quit,
        final(state).active,
        final(state).input == old(state).input,
{
    state.quit = true;
}

/// The keys a callback sees held are exactly those the window reported down.
pub proof fn law_snapshot_reports_window_keys(snapshot: InputSnapshot, down: Seq<bool>, key: u8)
    requires
        down.len() == 256,
        forall|k: u8| #[trigger] key_bit(snapshot.keys, k) == down[k as int],
    ensures
        key_set(snapshot.keys).contains(key) == down[key as int],
{
}

/// Keyboard state of a window, fed by its key messages.
pub struct KeyboardState {
    keys: Vec<bool>,
    just_pressed: Vec<bool>,
    buttons: u8,
}

impl KeyboardState {
    pub closed spec fn down(&self) -> Seq<bool> {
        self.keys@
    }

    pub closed spec fn just(&self) -> Seq<bool> {
        self.just_pressed@
    }

    pub closed spec fn spec_buttons(&self) -> u8 {
        self.buttons
    }

    /// One entry per virtual key in both tables.
    pub open spec fn wf(&self) -> bool {
        self.down().len() == 256 && self.just().len() == 256
    }

    /// No key held or pressed.
    pub fn new() -> (r: Self)
        ensures
            r.wf(),
            forall|k: int| 0 <= k < 256 ==> !r.down()[k] && !r.just()[k],
            r.spec_buttons() == 0,
    {
        let mut keys: Vec<bool> = Vec::new();
        let mut just: Vec<bool> = Vec::new();
        while keys.len() < 256
            invariant
                keys@.len() == just@.len(),
                keys@.len() <= 256,
                forall|k: int| 0 <= k < keys@.len() ==> !keys@[k] && !just@[k],
            decreases 256 - keys@.len(),
        {
            keys.push(false);
            just.push(false);
        }
        KeyboardState { keys, just_pressed: just, buttons: 0 }
    }

    /// A key message for virtual key `code`. A key counts as just pressed
    /// when it goes from up to down; auto-repeat does not count again. Codes
    /// of 256 and above are ignored.
    pub fn key_event(&mut self, code: usize, down: bool)
        requires
            old(self).wf(),
        ensures
            final(self).wf(),
            final(self).spec_buttons() == old(self).spec_buttons(),
            code >= 256 ==> final(self).down() == old(self).down() && final(self).just() == old(
                self,
            ).just(),
            code < 256 ==> final(self).down() == old(self).down().update(code as int, down),
            code < 256 ==> final(self).just() == if down && !old(self).down()[code as int] {
                old(self).just().update(code as int, true)
            } else {
                old(self).just()
            },
    {
        if code < 256 {
            if down && !self.keys[code] {
                self.just_pressed.set(code, true);
            }
            self.keys.set(code, down);
        }
    }

    /// Starts a frame: nothing is just pressed any more.
    pub fn begin_frame(&mut self)
        requires
            old(self).wf(),
        ensures
            final(self).wf(),
            final(self).down() == old(self).down(),
            final(self).spec_buttons() == old(self).spec_buttons(),
            forall|k: int| 0 <= k < 256 ==> !final(self).just()[k],
    {
        let mut i: usize = 0;
        while i < 256
            invariant
                self.wf(),
                i <= 256,
                self.keys == old(self).keys,
                self.buttons == old(self).buttons,
                forall|k: int| 0 <= k < i ==> !self.just_pressed@[k],
            decreases 256 - i,
        {
            self.just_pressed.set(i, false);
            i = i + 1;
        }
    }

    /// Focus went elsewhere: every key and button counts as released.
    pub fn focus_lost(&mut self)
        requires
            old(self).wf(),
        ensures
            final(self).wf(),
            forall|k: int| 0 <= k < 256 ==> !final(self).down()[k] && !final(self).just()[k],
            final(self).spec_buttons() == 0,
    {
        let mut i: usize = 0;
        while i < 256
            invariant
                self.wf(),
                i <= 256,
                forall|k: int| 0 <= k < i ==> !self.just_pressed@[k] && !self.keys@[k],
            decreases 256 - i,
        {
            self.just_pressed.set(i, false);
            self.keys.set(i, false);
            i = i + 1;
        }
        self.buttons = 0;
    }

    /// A mouse button (bit 0 left, 1 right, 2 middle) went down.
    pub fn button_down(&mut self, bit: u8)
        requires
            bit < 3,
        ensures
            final(self).spec_buttons() == old(self).spec_buttons() | (1u8 << bit),
            final(self).down() == old(self).down(),
            final(self).just() == old(self).just(),
            final(self).wf() == old(self).wf(),
    {
        self.buttons = self.buttons | (1u8 << bit);
    }

    /// A mouse button went up; returns whether none is held any more.
    pub fn button_up(&mut self, bit: u8) -> (none_held: bool)
        requires
            bit < 3,
        ensures
            final(self).spec_buttons() == old(self).spec_buttons() & !(1u8 << bit),
            none_held == (final(self).spec_buttons() == 0),
            final(self).down() == old(self).down(),
            final(self).just() == old(self).just(),
            final(self).wf() == old(self).wf(),
    {
        self.buttons = self.buttons & !(1u8 << bit);
        self.buttons == 0
    }

    /// The mouse capture was lost: no button is held.
    pub fn release_buttons(&mut self)
        ensures
            final(self).spec_buttons() == 0,
            final(self).down() == old(self).down(),
            final(self).just() == old(self).just(),
            final(self).wf() == old(self).wf(),
    {
        self.buttons = 0;
    }

    pub fn buttons(&self) -> (r: u8)
        ensures
            r == self.spec_buttons(),
    {
        self.buttons
    }

    pub fn key_down(&self, key: u8) -> (r: bool)
        requires
            self.wf(),
        ensures
            r == self.down()[key as int],
    {
        self.keys[key as usize]
    }

    pub fn key_just_pressed(&self, key: u8) -> (r: bool)
        requires
            self.wf(),
        ensures
            r == self.just()[key as int],
    {
        self.just_pressed[key as usize]
    }
}

/// The client size packed in a size message: width in the low 16 bits,
/// height in the next 16.
pub fn client_size(packed: u32) -> (r: (u32, u32))
    ensures
        r.0 == packed % 65536,
        r.1 == (packed / 65536) % 65536,
{
    let w = packed & 0xffff;
    let h = (packed >> 16) & 0xffff;
    assert(w == packed % 65536) by (bit_vector)
        requires
            w == packed & 0xffff,
    ;
    assert(h == (packed / 65536) % 65536) by (bit_vector)
        requires
            h == (packed >> 16) & 0xffff,
    ;
    (w, h)
}

} // verus!
