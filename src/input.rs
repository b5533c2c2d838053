use vstd::prelude::*;
use crate::entities::Key;

verus! {

/// The state of one key during the current tick.
#[derive(Clone, Copy, Debug, PartialEq, Eq, Structural, Default)]
pub struct KeyState {
    /// The key went down this tick.
    pub pressed: bool,
    /// The key is held.
    pub down: bool,
    /// The key went up this tick.
    pub up: bool,
}

/// The state of a key that is not watched, or was not sampled yet.
pub open spec fn released_state() -> KeyState {
    KeyState { pressed: false, down: false, up: false }
}

/// A key known to the tracker, and its state.
#[derive(Clone, Copy, Debug, PartialEq, Eq, Structural)]
pub struct KeyEntry {
    pub key: Key,
    pub watched: bool,
    pub state: KeyState,
}

/// Whether key `k` is watched.
pub open spec fn is_watched(e: Seq<KeyEntry>, k: Key) -> bool {
    exists|i: int| 0 <= i < e.len() && #[trigger] e[i].key == k && e[i].watched
}

/// The state of key `k`: its sampled state if it is watched, all false
/// otherwise.
pub open spec fn key_state(e: Seq<KeyEntry>, k: Key) -> KeyState {
    if is_watched(e, k) {
        e[choose|i: int| 0 <= i < e.len() && #[trigger] e[i].key == k && e[i].watched].state
    } else {
        released_state()
    }
}

/// No key appears twice.
pub open spec fn keys_unique(e: Seq<KeyEntry>) -> bool {
    forall|i: int, j: int| 0 <= i < e.len() && 0 <= j < e.len() && #[trigger] e[i].key == #[trigger] e[j].key ==> i == j
}

proof fn lemma_key_at(e: Seq<KeyEntry>, k: Key, i: int)
    requires
        keys_unique(e),
        0 <= i < e.len(),
        e[i].key == k,
    ensures
        is_watched(e, k) == e[i].watched,
        key_state(e, k) == (if e[i].watched { e[i].state } else { released_state() }),
{
    if e[i].watched {
        assert(is_watched(e, k));
    }
}

proof fn lemma_key_absent(e: Seq<KeyEntry>, k: Key)
    requires
        forall|i: int| 0 <= i < e.len() ==> #[trigger] e[i].key != k,
    ensures
        !is_watched(e, k),
        key_state(e, k) == released_state(),
{
}

/// Two entry lists with the same entry for key `k` agree on it.
proof fn lemma_same_key(e: Seq<KeyEntry>, f: Seq<KeyEntry>, k: Key)
    requires
        keys_unique(e),
        keys_unique(f),
        forall|i: int| 0 <= i < e.len() && #[trigger] e[i].key == k ==> i < f.len() && f[i] == e[i],
        forall|i: int| 0 <= i < f.len() && #[trigger] f[i].key == k ==> i < e.len() && f[i] == e[i],
    ensures
        is_watched(f, k) == is_watched(e, k),
        key_state(f, k) == key_state(e, k),
{
    if exists|i: int| 0 <= i < e.len() && #[trigger] e[i].key == k {
        let i = choose|i: int| 0 <= i < e.len() && #[trigger] e[i].key == k;
        lemma_key_at(e, k, i);
        lemma_key_at(f, k, i);
    } else {
        lemma_key_absent(e, k);
        lemma_key_absent(f, k);
    }
}

/// Tracks a set of keys and their state at the current tick.
pub struct InputManager {
    entries: Vec<KeyEntry>,
}

impl View for InputManager {
    type V = Seq<KeyEntry>;

    closed spec fn view(&self) -> Seq<KeyEntry> {
        self.entries@
    }
}

impl InputManager {
    pub open spec fn wf(&self) -> bool {
        keys_unique(self@)
    }

    /// A tracker with no key.
    pub fn new() -> (r: InputManager)
        ensures
            r.wf(),
            forall|k: Key| !is_watched(r@, k),
    {
        InputManager { entries: Vec::new() }
    }

    fn find(&self, key: Key) -> (r: Option<usize>)
        ensures
            r matches Some(i) ==> i < self@.len() && self@[i as int].key == key,
            r is None ==> forall|i: int| 0 <= i < self@.len() ==> #[trigger] self@[i].key != key,
    {
        for i in 0..self.entries.len()
            invariant
                forall|j: int| 0 <= j < i ==> #[trigger] self@[j].key != key,
        {
            if self.entries[i].key == key {
                return Some(i);
            }
        }
        None
    }

    /// Starts tracking `key`, with a released state until the next sample.
    pub fn track(&mut self, key: Key)
        requires
            old(self).wf(),
        ensures
            final(self).wf(),
            is_watched(final(self)@, key),
            key_state(final(self)@, key) == released_state(),
            forall|k: Key| k != key ==> is_watched(final(self)@, k) == is_watched(old(self)@, k)
                && key_state(final(self)@, k) == key_state(old(self)@, k),
            final(self)@.len() >= old(self)@.len(),
            forall|i: int| 0 <= i < old(self)@.len() ==> (#[trigger] final(self)@[i]).key == old(self)@[i].key,
    {
        let ghost e = self@;
        let entry = KeyEntry { key, watched: true, state: KeyState { pressed: false, down: false, up: false } };
        match self.find(key) {
            Some(i) => {
                self.entries.set(i, entry);
                proof {
                    lemma_key_at(self@, key, i as int);
                }
            },
            None => {
                self.entries.push(entry);
                proof {
                    lemma_key_at(self@, key, e.len() as int);
                }
            },
        }
        assert forall|k: Key| k != key implies is_watched(self@, k) == is_watched(e, k)
            && key_state(self@, k) == key_state(e, k) by {
            lemma_same_key(e, self@, k);
        }
    }

    /// Stops tracking `key`; it then reads as released.
    pub fn untrack(&mut self, key: Key)
        requires
            old(self).wf(),
        ensures
            final(self).wf(),
            !is_watched(final(self)@, key),
            forall|k: Key| k != key ==> is_watched(final(self)@, k) == is_watched(old(self)@, k)
                && key_state(final(self)@, k) == key_state(old(self)@, k),
            final(self)@.len() == old(self)@.len(),
            forall|i: int| 0 <= i < old(self)@.len() ==> (#[trigger] final(self)@[i]).key == old(self)@[i].key,
    {
        let ghost e = self@;
        match self.find(key) {
            Some(i) => {
                let entry = KeyEntry {
                    key,
                    watched: false,
                    state: KeyState { pressed: false, down: false, up: false },
                };
                self.entries.set(i, entry);
                proof {
                    lemma_key_at(self@, key, i as int);
                }
            },
            None => {
                proof {
                    lemma_key_absent(e, key);
                }
            },
        }
        assert forall|k: Key| k != key implies is_watched(self@, k) == is_watched(e, k)
            && key_state(self@, k) == key_state(e, k) by {
            lemma_same_key(e, self@, k);
        }
    }

    /// The keys known to the tracker, in the order `update` samples them.
    pub fn keys(&self) -> (r: Vec<Key>)
        ensures
            r@.len() == self@.len(),
            forall|i: int| 0 <= i < r@.len() ==> #[trigger] r@[i] == self@[i].key,
    {
        let mut r: Vec<Key> = Vec::new();
        for i in 0..self.entries.len()
            invariant
                r@.len() == i,
                forall|j: int| 0 <= j < i ==> #[trigger] r@[j] == self@[j].key,
        {
            r.push(self.entries[i].key);
        }
        r
    }

    /// Records this tick's sample: `states[i]` is the state of the `i`-th key
    /// of `keys()`.
    pub fn update(&mut self, states: &Vec<KeyState>)
        requires
            old(self).wf(),
            states@.len() == old(self)@.len(),
        ensures
            final(self).wf(),
            final(self)@.len() == old(self)@.len(),
            forall|i: int|
                0 <= i < old(self)@.len() ==> #[trigger] final(self)@[i] == (KeyEntry { state: states@[i], ..old(self)@[i] }),
            forall|k: Key| is_watched(final(self)@, k) == is_watched(old(self)@, k),
    {
        let ghost e = self@;
        let n = self.entries.len();
        for i in 0..n
            invariant
                n == e.len(),
                self@.len() == e.len(),
                states@.len() == e.len(),
                forall|j: int| 0 <= j < i ==> #[trigger] self@[j] == (KeyEntry { state: states@[j], ..e[j] }),
                forall|j: int| i <= j < e.len() ==> #[trigger] self@[j] == e[j],
        {
            let entry = KeyEntry { state: states[i], ..self.entries[i] };
            self.entries.set(i, entry);
        }
        assert forall|k: Key| is_watched(self@, k) == is_watched(e, k) by {
            if is_watched(e, k) {
                let i = choose|i: int| 0 <= i < e.len() && #[trigger] e[i].key == k && e[i].watched;
                assert(self@[i].key == k);
            }
            if is_watched(self@, k) {
                let i = choose|i: int| 0 <= i < self@.len() && #[trigger] self@[i].key == k && self@[i].watched;
                assert(e[i].key == k);
            }
        }
    }

    /// Whether `key` is held.
    pub fn is_key_down(&self, key: Key) -> (r: bool)
        requires
            self.wf(),
        ensures
            r == key_state(self@, key).down,
    {
        match self.find(key) {
            Some(i) => {
                proof {
                    lemma_key_at(self@, key, i as int);
                }
                self.entries[i].watched && self.entries[i].state.down
            },
            None => false,
        }
    }

    /// Whether `key` went down this tick.
    pub fn is_key_pressed(&self, key: Key) -> (r: bool)
        requires
            self.wf(),
        ensures
            r == key_state(self@, key).pressed,
    {
        match self.find(key) {
            Some(i) => {
                proof {
                    lemma_key_at(self@, key, i as int);
                }
                self.entries[i].watched && self.entries[i].state.pressed
            },
            None => false,
        }
    }

    /// Whether `key` went up this tick.
    pub fn is_key_up(&self, key: Key) -> (r: bool)
        requires
            self.wf(),
        ensures
            r == key_state(self@, key).up,
    {
        match self.find(key) {
            Some(i) => {
                proof {
                    lemma_key_at(self@, key, i as int);
                }
                self.entries[i].watched && self.entries[i].state.up
            },
            None => false,
        }
    }
}

} // verus!
