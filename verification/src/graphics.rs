use vstd::prelude::*;

verus! {

/// The capability interface to the world outside the core: rendering the
/// pixel buffer, servicing input and close events, answering key queries,
/// and gating sound. A real windowing backend implements it outside the
/// library; `ScriptedGraphics` implements it here for deterministic runs.
/// The engine relies only on the dimension queries being positive and
/// answering the implementation's fixed dimensions; everything else an
/// implementation answers is taken as it comes.
pub trait Drawable {
    /// The implementation's fixed pixel-buffer width.
    spec fn spec_width(&self) -> usize;

    /// The implementation's fixed pixel-buffer height.
    spec fn spec_height(&self) -> usize;

    /// Called once before the first instruction runs.
    fn init(&mut self);

    /// Called once after the run loop exits.
    fn finalize(&mut self);

    /// Fixed pixel-buffer width, queried once at construction.
    fn width(&self) -> (w: usize)
        ensures
            w == self.spec_width(),
            w > 0,
    ;

    /// Fixed pixel-buffer height, queried once at construction.
    fn height(&self) -> (h: usize)
        ensures
            h == self.spec_height(),
            h > 0,
    ;

    /// Service pending input and close events for up to the given time.
    fn update(&mut self, timeout_millis: u32);

    /// Render the current pixel buffer.
    fn draw_screen(&mut self, vram: &Vec<Vec<u8>>);

    /// Non-blocking query of one of the 16 logical keys.
    fn is_key_pressed(&self, key: u8) -> bool;

    /// Block until a key event resolves; the result is implementation
    /// defined when a close request interrupts the wait.
    fn wait_for_key(&mut self) -> u8;

    /// Queried once per outer scheduler iteration.
    fn should_close(&self) -> bool;

    /// Let continuous sound output run.
    fn sound_resume(&self);

    /// Halt continuous sound output.
    fn sound_pause(&self);
}

/// A deterministic in-memory stand-in for the display backend: it renders
/// nothing, counts the calls it receives, reports the scripted keys as
/// pressed, hands out scripted key events, and requests close after a fixed
/// number of update calls.
pub struct ScriptedGraphics {
    /// How many update calls have been served, saturating at `close_after`.
    pub updates: u64,
    /// After this many update calls, `should_close` answers yes.
    pub close_after: u64,
    /// How many times the pixel buffer was handed over for rendering.
    pub draws: u64,
    /// The keys reported as currently held down.
    pub held_keys: Vec<u8>,
    /// Keys that blocking reads resolve to, taken from the back.
    pub key_script: Vec<u8>,
    /// Whether the init hook has run.
    pub started: bool,
}

impl ScriptedGraphics {
    /// A double over a 64 by 32 buffer that requests close after
    /// `close_after` update calls.
    pub fn new(close_after: u64, held_keys: Vec<u8>, key_script: Vec<u8>) -> (g: ScriptedGraphics)
        ensures
            g.updates == 0,
            g.close_after == close_after,
            g.draws == 0,
            g.held_keys@ == held_keys@,
            g.key_script@ == key_script@,
            !g.started,
    {
        ScriptedGraphics {
            updates: 0,
            close_after,
            draws: 0,
            held_keys,
            key_script,
            started: false,
        }
    }
}

impl Drawable for ScriptedGraphics {
    open spec fn spec_width(&self) -> usize {
        64
    }

    open spec fn spec_height(&self) -> usize {
        32
    }

    fn init(&mut self)
        ensures
            final(self).started,
            final(self).updates == old(self).updates,
            final(self).close_after == old(self).close_after,
            final(self).draws == old(self).draws,
            final(self).held_keys@ == old(self).held_keys@,
            final(self).key_script@ == old(self).key_script@,
    {
        self.started = true;
    }

    fn finalize(&mut self)
        ensures
            final(self).started == old(self).started,
            final(self).updates == old(self).updates,
            final(self).close_after == old(self).close_after,
            final(self).draws == old(self).draws,
            final(self).held_keys@ == old(self).held_keys@,
            final(self).key_script@ == old(self).key_script@,
    {
    }

    fn width(&self) -> (w: usize)
        ensures
            w == 64,
    {
        64
    }

    fn height(&self) -> (h: usize)
        ensures
            h == 32,
    {
        32
    }

    fn update(&mut self, timeout_millis: u32)
        ensures
            final(self).updates == if old(self).updates < old(self).close_after {
                old(self).updates + 1
            } else {
                old(self).updates as int
            },
            final(self).close_after == old(self).close_after,
            final(self).draws == old(self).draws,
            final(self).held_keys@ == old(self).held_keys@,
            final(self).key_script@ == old(self).key_script@,
            final(self).started == old(self).started,
    {
        if self.updates < self.close_after {
            self.updates = self.updates + 1;
        }
    }

    fn draw_screen(&mut self, vram: &Vec<Vec<u8>>)
        ensures
            final(self).draws == if old(self).draws < u64::MAX {
                old(self).draws + 1
            } else {
                old(self).draws as int
            },
            final(self).updates == old(self).updates,
            final(self).close_after == old(self).close_after,
            final(self).held_keys@ == old(self).held_keys@,
            final(self).key_script@ == old(self).key_script@,
            final(self).started == old(self).started,
    {
        if self.draws < u64::MAX {
            self.draws = self.draws + 1;
        }
    }

    fn is_key_pressed(&self, key: u8) -> (r: bool)
        ensures
            r == self.held_keys@.contains(key),
    {
        let mut k: usize = 0;
        while k < self.held_keys.len()
            invariant
                k <= self.held_keys@.len(),
                forall|j: int| 0 <= j < k ==> self.held_keys@[j] != key,
            decreases self.held_keys@.len() - k,
        {
            if self.held_keys[k] == key {
                return true;
            }
            k = k + 1;
        }
        false
    }

    fn wait_for_key(&mut self) -> (r: u8)
        ensures
            old(self).key_script@.len() > 0 ==> {
                &&& final(self).key_script@ == old(self).key_script@.drop_last()
                &&& r == old(self).key_script@.last()
            },
            old(self).key_script@.len() == 0 ==> {
                &&& final(self).key_script@ == old(self).key_script@
                &&& r == 0
            },
            final(self).updates == old(self).updates,
            final(self).close_after == old(self).close_after,
            final(self).draws == old(self).draws,
            final(self).held_keys@ == old(self).held_keys@,
            final(self).started == old(self).started,
    {
        match self.key_script.pop() {
            Some(k) => k,
            None => 0,
        }
    }

    fn should_close(&self) -> (r: bool)
        ensures
            r == (self.updates >= self.close_after),
    {
        self.updates >= self.close_after
    }

    fn sound_resume(&self) {
    }

    fn sound_pause(&self) {
    }
}

} // verus!
