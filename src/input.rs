//! The state that the event context writes and the render loop reads: the set
//! of held keys, the mouse motion summed between two frames, and the window
//! size with its pending-resize flag. Each is a value of its own, so each can
//! sit behind a lock of its own.
use vstd::prelude::*;

verus! {

/// A keyboard key, as far as the viewer tells keys apart.
#[derive(Debug, Clone, Copy, PartialEq, Eq, Structural)]
pub enum Key {
    W,
    A,
    S,
    D,
    Space,
    LShift,
    Left,
    Right,
    Up,
    Down,
    Escape,
    Q,
    /// Any other key, by the event system's own code for it.
    Other(u32),
}

/// What holding a key does to the camera during one frame.
#[derive(Debug, Clone, Copy, PartialEq, Eq, Structural)]
pub enum CameraAction {
    MoveForward,
    MoveBackward,
    MoveLeft,
    MoveRight,
    MoveUp,
    MoveDown,
    TurnLeft,
    TurnRight,
    LookUp,
    LookDown,
}

/// The camera action bound to `key`, if any.
pub open spec fn action_of(key: Key) -> Option<CameraAction> {
    match key {
        Key::W => Some(CameraAction::MoveForward),
        Key::S => Some(CameraAction::MoveBackward),
        Key::A => Some(CameraAction::MoveLeft),
        Key::D => Some(CameraAction::MoveRight),
        Key::Space => Some(CameraAction::MoveUp),
        Key::LShift => Some(CameraAction::MoveDown),
        Key::Left => Some(CameraAction::TurnLeft),
        Key::Right => Some(CameraAction::TurnRight),
        Key::Up => Some(CameraAction::LookUp),
        Key::Down => Some(CameraAction::LookDown),
        _ => None,
    }
}

/// The actions of the keys of `keys`, in order, skipping unbound keys.
pub open spec fn actions_of(keys: Seq<Key>) -> Seq<CameraAction>
    decreases keys.len(),
{
    if keys.len() == 0 {
        Seq::empty()
    } else {
        let rest = actions_of(keys.drop_last());
        match action_of(keys.last()) {
            Some(a) => rest.push(a),
            None => rest,
        }
    }
}

/// The camera action bound to `key`, if any.
pub fn camera_action(key: Key) -> (r: Option<CameraAction>)
    ensures
        r == action_of(key),
{
    match key {
        Key::W => Some(CameraAction::MoveForward),
        Key::S => Some(CameraAction::MoveBackward),
        Key::A => Some(CameraAction::MoveLeft),
        Key::D => Some(CameraAction::MoveRight),
        Key::Space => Some(CameraAction::MoveUp),
        Key::LShift => Some(CameraAction::MoveDown),
        Key::Left => Some(CameraAction::TurnLeft),
        Key::Right => Some(CameraAction::TurnRight),
        Key::Up => Some(CameraAction::LookUp),
        Key::Down => Some(CameraAction::LookDown),
        _ => None,
    }
}

/// `keys` after `key` went down: a key already held changes nothing, a new
/// one goes last.
pub open spec fn pressed(keys: Seq<Key>, key: Key) -> Seq<Key> {
    if keys.contains(key) {
        keys
    } else {
        keys.push(key)
    }
}

/// `keys` after `key` went up: the key is taken out where it was held.
pub open spec fn released(keys: Seq<Key>, key: Key) -> Seq<Key> {
    if keys.contains(key) {
        keys.remove(keys.index_of(key))
    } else {
        keys
    }
}

/// `keys` after the key events `events`, in order; an event is a key and
/// whether it went down.
pub open spec fn after_key_events(keys: Seq<Key>, events: Seq<(Key, bool)>) -> Seq<Key>
    decreases events.len(),
{
    if events.len() == 0 {
        keys
    } else {
        let before = after_key_events(keys, events.drop_last());
        let (key, down) = events.last();
        if down {
            pressed(before, key)
        } else {
            released(before, key)
        }
    }
}

proof fn lemma_remove_keeps_others(s: Seq<Key>, i: int, key: Key)
    requires
        0 <= i < s.len(),
        s[i] != key,
    ensures
        s.remove(i).contains(key) == s.contains(key),
{
    if s.contains(key) {
        let j = choose|j: int| 0 <= j < s.len() && s[j] == key;
        if j < i {
            assert(s.remove(i)[j] == key);
        } else {
            assert(s.remove(i)[j - 1] == key);
        }
    }
    if s.remove(i).contains(key) {
        let j = choose|j: int| 0 <= j < s.remove(i).len() && s.remove(i)[j] == key;
        if j < i {
            assert(s[j] == key);
        } else {
            assert(s[j + 1] == key);
        }
    }
}

proof fn lemma_key_events_distinct(keys: Seq<Key>, events: Seq<(Key, bool)>)
    requires
        keys.no_duplicates(),
    ensures
        after_key_events(keys, events).no_duplicates(),
    decreases events.len(),
{
    if events.len() > 0 {
        lemma_key_events_distinct(keys, events.drop_last());
    }
}

/// Key events between two frames coalesce: whatever came before, a key is
/// held after a run of events exactly where the last event on that key was a
/// press, and no key is held twice.
pub proof fn lemma_last_key_event_wins(keys: Seq<Key>, events: Seq<(Key, bool)>, last: int)
    requires
        keys.no_duplicates(),
        0 <= last < events.len(),
        forall|i: int| last < i < events.len() ==> events[i].0 != events[last].0,
    ensures
        after_key_events(keys, events).contains(events[last].0) == events[last].1,
        after_key_events(keys, events).no_duplicates(),
    decreases events.len(),
{
    let key = events[last].0;
    let prefix = events.drop_last();
    let before = after_key_events(keys, prefix);
    lemma_key_events_distinct(keys, events);
    lemma_key_events_distinct(keys, prefix);
    let (k, down) = events.last();
    if last == events.len() - 1 {
        if down {
            if !before.contains(key) {
                assert(before.push(key)[before.len() as int] == key);
            }
        } else if before.contains(key) {
            let i = before.index_of(key);
            if before.remove(i).contains(key) {
                let j = choose|j: int| 0 <= j < before.remove(i).len() && before.remove(i)[j] == key;
                if j < i {
                    assert(before[j] == key);
                } else {
                    assert(before[j + 1] == key);
                }
            }
        }
    } else {
        assert(prefix[last] == events[last]);
        lemma_last_key_event_wins(keys, prefix, last);
        assert(k != key);
        if down {
            if !before.contains(k) {
                if before.contains(key) {
                    let j = choose|j: int| 0 <= j < before.len() && before[j] == key;
                    assert(before.push(k)[j] == key);
                }
                if before.push(k).contains(key) {
                    let j = choose|j: int| 0 <= j < before.push(k).len() && before.push(k)[j] == key;
                    assert(before[j] == key);
                }
            }
        } else if before.contains(k) {
            lemma_remove_keeps_others(before, before.index_of(k), key);
        }
    }
}

/// The keys held down, in the order in which they were pressed, each once.
pub struct PressedKeys {
    keys: Vec<Key>,
}

impl View for PressedKeys {
    type V = Seq<Key>;

    closed spec fn view(&self) -> Seq<Key> {
        self.keys@
    }
}

impl PressedKeys {
    /// Each key is held at most once.
    pub open spec fn wf(&self) -> bool {
        self@.no_duplicates()
    }

    /// No key held.
    pub fn new() -> (r: PressedKeys)
        ensures
            r@ == Seq::<Key>::empty(),
            r.wf(),
    {
        PressedKeys { keys: Vec::new() }
    }

    /// Whether `key` is held.
    pub fn contains(&self, key: Key) -> (r: bool)
        ensures
            r == self@.contains(key),
    {
        self.position(key).is_some()
    }

    fn position(&self, key: Key) -> (r: Option<usize>)
        ensures
            r matches Some(i) ==> i < self@.len() && self@[i as int] == key,
            r is None ==> !self@.contains(key),
    {
        let mut i: usize = 0;
        while i < self.keys.len()
            invariant
                i <= self.keys@.len(),
                forall|j: int| 0 <= j < i ==> self.keys@[j] != key,
            decreases self.keys@.len() - i,
        {
            if self.keys[i] == key {
                return Some(i);
            }
            i += 1;
        }
        None
    }

    /// Records that `key` went down. A key already held stays where it is and
    /// the set is unchanged; a new key goes last.
    pub fn press(&mut self, key: Key)
        requires
            old(self).wf(),
        ensures
            final(self)@ == pressed(old(self)@, key),
            final(self).wf(),
    {
        if self.position(key).is_none() {
            self.keys.push(key);
        }
    }

    /// Records that `key` went up. A key not held changes nothing.
    pub fn release(&mut self, key: Key)
        requires
            old(self).wf(),
        ensures
            final(self)@ == released(old(self)@, key),
            !final(self)@.contains(key),
            final(self).wf(),
    {
        match self.position(key) {
            Some(i) => {
                proof {
                    assert(self.keys@.index_of(key) == i as int);
                }
                self.keys.remove(i);
            },
            None => {},
        }
    }

    /// The held keys, in the order in which they were pressed.
    pub fn held(&self) -> (r: &Vec<Key>)
        ensures
            r@ == self@,
    {
        &self.keys
    }

    /// The camera actions of the held keys, in the order of the keys.
    pub fn camera_actions(&self) -> (r: Vec<CameraAction>)
        ensures
            r@ == actions_of(self@),
    {
        let mut out: Vec<CameraAction> = Vec::new();
        let mut i: usize = 0;
        while i < self.keys.len()
            invariant
                i <= self.keys@.len(),
                out@ == actions_of(self.keys@.take(i as int)),
            decreases self.keys@.len() - i,
        {
            proof {
                assert(self.keys@.take(i + 1).drop_last() == self.keys@.take(i as int));
            }
            match camera_action(self.keys[i]) {
                Some(a) => out.push(a),
                None => {},
            }
            i += 1;
        }
        proof {
            assert(self.keys@.take(i as int) == self.keys@);
        }
        out
    }
}

/// `v` held to the range of `i64`.
pub open spec fn clamp_i64(v: int) -> i64 {
    if v > i64::MAX {
        i64::MAX
    } else if v < i64::MIN {
        i64::MIN
    } else {
        v as i64
    }
}

/// `a + b`, held to the range of `i64` where it would leave it.
fn add_clamped(a: i64, b: i64) -> (r: i64)
    ensures
        r == clamp_i64(a + b),
{
    if b > 0 && a > i64::MAX - b {
        i64::MAX
    } else if b < 0 && a < i64::MIN - b {
        i64::MIN
    } else {
        a + b
    }
}

/// The mouse motion received since the render loop last read it, summed per
/// axis (held to the range of `i64`).
pub struct MouseDelta {
    pub dx: i64,
    pub dy: i64,
}

impl MouseDelta {
    /// No motion yet.
    pub fn new() -> (r: MouseDelta)
        ensures
            r.dx == 0 && r.dy == 0,
    {
        MouseDelta { dx: 0, dy: 0 }
    }

    /// Adds one motion event to the sum.
    pub fn accumulate(&mut self, dx: i64, dy: i64)
        ensures
            final(self).dx == clamp_i64(old(self).dx + dx),
            final(self).dy == clamp_i64(old(self).dy + dy),
    {
        self.dx = add_clamped(self.dx, dx);
        self.dy = add_clamped(self.dy, dy);
    }

    /// Hands out the sum and starts the next one at zero.
    pub fn take(&mut self) -> (r: (i64, i64))
        ensures
            r == (old(self).dx, old(self).dy),
            final(self).dx == 0 && final(self).dy == 0,
    {
        let r = (self.dx, self.dy);
        self.dx = 0;
        self.dy = 0;
        r
    }
}

/// The window size last reported, and whether the render loop has yet to
/// act on it.
pub struct WindowSize {
    pub width: u32,
    pub height: u32,
    pub pending: bool,
}

impl WindowSize {
    /// The size the window opens with; nothing to act on.
    pub fn new(width: u32, height: u32) -> (r: WindowSize)
        ensures
            r.width == width && r.height == height && !r.pending,
    {
        WindowSize { width, height, pending: false }
    }

    /// Records a new size; the last one reported wins.
    pub fn resize(&mut self, width: u32, height: u32)
        ensures
            final(self).width == width && final(self).height == height && final(self).pending,
    {
        self.width = width;
        self.height = height;
        self.pending = true;
    }

    /// The size to resize the drawing surface to, where one is pending; the
    /// flag is cleared either way and the size kept.
    pub fn take_resize(&mut self) -> (r: Option<(u32, u32)>)
        ensures
            old(self).pending ==> r == Some((old(self).width, old(self).height)),
            !old(self).pending ==> r is None,
            final(self).width == old(self).width && final(self).height == old(self).height,
            !final(self).pending,
    {
        if self.pending {
            self.pending = false;
            Some((self.width, self.height))
        } else {
            None
        }
    }
}

/// Whatever the window reports, as the viewer tells events apart.
#[derive(Debug, Clone, Copy, PartialEq, Eq, Structural)]
pub enum InputEvent {
    Resized { width: u32, height: u32 },
    CloseRequested,
    Key { key: Key, pressed: bool },
    MouseMotion { dx: i64, dy: i64 },
    Other,
}

/// What the event loop does after an event.
#[derive(Debug, Clone, Copy, PartialEq, Eq, Structural)]
pub enum Flow {
    Wait,
    Exit,
}

/// Whether the event loop stops after `event`: on a close request, on the
/// escape or quit key, or once the render loop is known to have failed.
pub open spec fn exits_on(event: InputEvent, render_healthy: bool) -> bool {
    !render_healthy || event == InputEvent::CloseRequested || (event matches InputEvent::Key {
        key,
        ..
    } && (key == Key::Escape || key == Key::Q))
}

/// What the event loop does after `event`, given the render loop's health.
pub fn next_flow(event: InputEvent, render_healthy: bool) -> (r: Flow)
    ensures
        r == (if exits_on(event, render_healthy) {
            Flow::Exit
        } else {
            Flow::Wait
        }),
{
    if !render_healthy {
        return Flow::Exit;
    }
    match event {
        InputEvent::CloseRequested => Flow::Exit,
        InputEvent::Key { key: Key::Escape, .. } => Flow::Exit,
        InputEvent::Key { key: Key::Q, .. } => Flow::Exit,
        _ => Flow::Wait,
    }
}

} // verus!
