use vstd::prelude::*;
use vstd::utf8::encode_utf8;

verus! {

/// The keys the engine recognises. The letters sit where a game's
/// essential keys lie on an AZERTY keyboard.
#[derive(PartialEq, Eq, Structural, Clone, Copy, Debug, Hash)]
pub enum MyKeys {
    KeyA,
    KeyZ,
    KeyE,
    KeyQ,
    KeyS,
    KeyD,
    Up,
    Down,
    Left,
    Right,
}

/// The number of recognised keys.
pub const KEY_COUNT: usize = 10;

/// A logical key as the windowing layer reports it.
pub enum LogicalKey {
    ArrowLeft,
    ArrowRight,
    ArrowUp,
    ArrowDown,
    Escape,
    Space,
    /// A key that types text, with that text.
    Character(String),
    /// Any other key.
    Other,
}

/// What a key asks of the host rather than of the engine.
#[derive(PartialEq, Eq, Structural, Clone, Copy, Debug)]
pub enum SystemAction {
    /// Close the window and stop.
    Exit,
    /// Toggle the pause flag.
    TogglePause,
}

/// The position of `k` in the fixed key order.
pub open spec fn key_index(k: MyKeys) -> int {
    match k {
        MyKeys::KeyA => 0,
        MyKeys::KeyZ => 1,
        MyKeys::KeyE => 2,
        MyKeys::KeyQ => 3,
        MyKeys::KeyS => 4,
        MyKeys::KeyD => 5,
        MyKeys::Up => 6,
        MyKeys::Down => 7,
        MyKeys::Left => 8,
        MyKeys::Right => 9,
    }
}

/// The key at position `i` of the fixed key order.
pub open spec fn key_at(i: int) -> MyKeys {
    if i == 0 {
        MyKeys::KeyA
    } else if i == 1 {
        MyKeys::KeyZ
    } else if i == 2 {
        MyKeys::KeyE
    } else if i == 3 {
        MyKeys::KeyQ
    } else if i == 4 {
        MyKeys::KeyS
    } else if i == 5 {
        MyKeys::KeyD
    } else if i == 6 {
        MyKeys::Up
    } else if i == 7 {
        MyKeys::Down
    } else if i == 8 {
        MyKeys::Left
    } else {
        MyKeys::Right
    }
}

proof fn lemma_key_index_inverse(k: MyKeys)
    ensures
        0 <= key_index(k) < KEY_COUNT,
        key_at(key_index(k)) == k,
{
}

/// Whether the UTF-8 bytes `text` are the single byte `c`.
pub open spec fn names_char(text: Seq<u8>, c: u8) -> bool {
    text == seq![c]
}

/// The recognised key that a logical key stands for, if any.
pub open spec fn key_for(key: LogicalKey) -> Option<MyKeys> {
    match key {
        LogicalKey::ArrowLeft => Some(MyKeys::Left),
        LogicalKey::ArrowRight => Some(MyKeys::Right),
        LogicalKey::ArrowUp => Some(MyKeys::Up),
        LogicalKey::ArrowDown => Some(MyKeys::Down),
        LogicalKey::Character(name) => {
            let b = encode_utf8(name@);
            if names_char(b, 113) {
                Some(MyKeys::KeyQ)
            } else if names_char(b, 100) {
                Some(MyKeys::KeyD)
            } else if names_char(b, 122) {
                Some(MyKeys::KeyZ)
            } else if names_char(b, 115) {
                Some(MyKeys::KeyS)
            } else if names_char(b, 97) {
                Some(MyKeys::KeyA)
            } else if names_char(b, 101) {
                Some(MyKeys::KeyE)
            } else {
                None
            }
        },
        _ => None,
    }
}

impl MyKeys {
    /// The recognised key for a logical key: the arrows, and the letters
    /// `q`, `d`, `z`, `s`, `a` and `e` in lower case. Any other key is `Err`.
    pub fn try_from(value: &LogicalKey) -> (r: Result<MyKeys, ()>)
        ensures
            key_for(*value) matches Some(k) ==> r == Ok::<MyKeys, ()>(k),
            key_for(*value).is_none() ==> r.is_err(),
    {
        match value {
            LogicalKey::ArrowLeft => Ok(MyKeys::Left),
            LogicalKey::ArrowRight => Ok(MyKeys::Right),
            LogicalKey::ArrowUp => Ok(MyKeys::Up),
            LogicalKey::ArrowDown => Ok(MyKeys::Down),
            LogicalKey::Character(name) => {
                let b = name.as_str().as_bytes();
                if b.len() != 1 {
                    return Err(());
                }
                let c = b[0];
                proof {
                    assert(b@ =~= seq![c]);
                }
                if c == 113 {
                    Ok(MyKeys::KeyQ)
                } else if c == 100 {
                    Ok(MyKeys::KeyD)
                } else if c == 122 {
                    Ok(MyKeys::KeyZ)
                } else if c == 115 {
                    Ok(MyKeys::KeyS)
                } else if c == 97 {
                    Ok(MyKeys::KeyA)
                } else if c == 101 {
                    Ok(MyKeys::KeyE)
                } else {
                    Err(())
                }
            },
            _ => Err(()),
        }
    }

    /// The position of this key in the fixed key order.
    pub fn index(&self) -> (r: usize)
        ensures
            r == key_index(*self),
    {
        match self {
            MyKeys::KeyA => 0,
            MyKeys::KeyZ => 1,
            MyKeys::KeyE => 2,
            MyKeys::KeyQ => 3,
            MyKeys::KeyS => 4,
            MyKeys::KeyD => 5,
            MyKeys::Up => 6,
            MyKeys::Down => 7,
            MyKeys::Left => 8,
            MyKeys::Right => 9,
        }
    }

    /// The key at position `i` of the fixed key order.
    pub fn at(i: usize) -> (r: MyKeys)
        requires
            i < KEY_COUNT,
        ensures
            r == key_at(i as int),
            key_index(r) == i,
    {
        if i == 0 {
            MyKeys::KeyA
        } else if i == 1 {
            MyKeys::KeyZ
        } else if i == 2 {
            MyKeys::KeyE
        } else if i == 3 {
            MyKeys::KeyQ
        } else if i == 4 {
            MyKeys::KeyS
        } else if i == 5 {
            MyKeys::KeyD
        } else if i == 6 {
            MyKeys::Up
        } else if i == 7 {
            MyKeys::Down
        } else if i == 8 {
            MyKeys::Left
        } else {
            MyKeys::Right
        }
    }
}

/// The host action a logical key asks for when pressed: Escape closes,
/// Space toggles the pause.
pub open spec fn action_for(key: LogicalKey) -> Option<SystemAction> {
    match key {
        LogicalKey::Escape => Some(SystemAction::Exit),
        LogicalKey::Space => Some(SystemAction::TogglePause),
        _ => None,
    }
}

/// The host action a logical key asks for when pressed.
pub fn system_action(key: &LogicalKey) -> (r: Option<SystemAction>)
    ensures
        r == action_for(*key),
{
    match key {
        LogicalKey::Escape => Some(SystemAction::Exit),
        LogicalKey::Space => Some(SystemAction::TogglePause),
        _ => None,
    }
}

/// A set of recognised keys.
pub struct KeySet {
    present: Vec<bool>,
}

impl View for KeySet {
    type V = Set<MyKeys>;

    closed spec fn view(&self) -> Set<MyKeys> {
        Set::new(|k: MyKeys| self.present@[key_index(k)])
    }
}

/// The keys of `s` in the fixed key order, starting from position `from`.
pub open spec fn ordered_from(s: Set<MyKeys>, from: int) -> Seq<MyKeys>
    decreases KEY_COUNT - from,
{
    if from >= KEY_COUNT {
        Seq::empty()
    } else if s.contains(key_at(from)) {
        seq![key_at(from)] + ordered_from(s, from + 1)
    } else {
        ordered_from(s, from + 1)
    }
}

/// The keys of `s` in the fixed key order.
pub open spec fn ordered_keys(s: Set<MyKeys>) -> Seq<MyKeys> {
    ordered_from(s, 0)
}

impl KeySet {
    pub closed spec fn wf(&self) -> bool {
        self.present.len() == KEY_COUNT
    }

    /// The empty set.
    pub fn new() -> (r: KeySet)
        ensures
            r.wf(),
            r@ == Set::<MyKeys>::empty(),
    {
        let mut present: Vec<bool> = Vec::new();
        let mut i: usize = 0;
        while i < KEY_COUNT
            invariant
                0 <= i <= KEY_COUNT,
                present.len() == i,
                forall|j: int| 0 <= j < i ==> !present@[j],
            decreases KEY_COUNT - i,
        {
            present.push(false);
            i = i + 1;
        }
        let r = KeySet { present };
        assert(r@ =~= Set::<MyKeys>::empty());
        r
    }

    /// Whether `k` is in the set.
    pub fn contains(&self, k: MyKeys) -> (r: bool)
        requires
            self.wf(),
        ensures
            r == self@.contains(k),
    {
        self.present[k.index()]
    }

    /// Adds `k`; adding a key already there changes nothing.
    pub fn insert(&mut self, k: MyKeys)
        requires
            old(self).wf(),
        ensures
            final(self).wf(),
            final(self)@ == old(self)@.insert(k),
    {
        let i = k.index();
        self.present.set(i, true);
        proof {
            assert forall|j: MyKeys| #[trigger] self@.contains(j) == old(self)@.insert(k).contains(j) by {
                lemma_key_index_inverse(j);
                lemma_key_index_inverse(k);
            }
            assert(self@ =~= old(self)@.insert(k));
        }
    }

    /// Takes out every key of `other`.
    pub fn remove_all(&mut self, other: &KeySet)
        requires
            old(self).wf(),
            other.wf(),
        ensures
            final(self).wf(),
            final(self)@ == old(self)@.difference(other@),
    {
        let ghost start = self.present@;
        let mut i: usize = 0;
        while i < KEY_COUNT
            invariant
                self.wf(),
                start.len() == KEY_COUNT,
                start == old(self).present@,
                other.wf(),
                0 <= i <= KEY_COUNT,
                forall|j: int| 0 <= j < i ==> #[trigger] self.present@[j] == (start[j] && !other.present@[j]),
                forall|j: int| i <= j < KEY_COUNT ==> #[trigger] self.present@[j] == start[j],
            decreases KEY_COUNT - i,
        {
            if other.present[i] {
                self.present.set(i, false);
            }
            i = i + 1;
        }
        proof {
            assert forall|j: MyKeys| #[trigger] self@.contains(j) == old(self)@.difference(other@).contains(j) by {
                lemma_key_index_inverse(j);
            }
            assert(self@ =~= old(self)@.difference(other@));
        }
    }

    /// Whether the set holds no key.
    pub fn is_empty(&self) -> (r: bool)
        requires
            self.wf(),
        ensures
            r == (self@ == Set::<MyKeys>::empty()),
    {
        let mut i: usize = 0;
        while i < KEY_COUNT
            invariant
                self.wf(),
                0 <= i <= KEY_COUNT,
                forall|j: int| 0 <= j < i ==> !self.present@[j],
            decreases KEY_COUNT - i,
        {
            if self.present[i] {
                proof {
                    assert(self@.contains(key_at(i as int)));
                }
                return false;
            }
            i = i + 1;
        }
        proof {
            assert forall|j: MyKeys| !#[trigger] self@.contains(j) by {
                lemma_key_index_inverse(j);
            }
            assert(self@ =~= Set::<MyKeys>::empty());
        }
        true
    }

    /// The keys of the set, each once, in the fixed key order.
    pub fn keys(&self) -> (r: Vec<MyKeys>)
        requires
            self.wf(),
        ensures
            r@ == ordered_keys(self@),
    {
        let mut r: Vec<MyKeys> = Vec::new();
        let mut i: usize = KEY_COUNT;
        while i > 0
            invariant
                self.wf(),
                0 <= i <= KEY_COUNT,
                r@ == ordered_from(self@, i as int),
            decreases i,
        {
            i = i - 1;
            let k = MyKeys::at(i);
            if self.present[i] {
                r.insert(0, k);
            }
            proof {
                assert(self@.contains(k) == self.present@[i as int]);
                assert(r@ =~= ordered_from(self@, i as int));
            }
        }
        r
    }
}

/// The keys held down and the keys released since the last tick.
pub struct KeyTracker {
    held: KeySet,
    pending_release: KeySet,
}

/// What the tracker knows: the keys held, and the keys released since the
/// last tick.
pub struct KeyState {
    pub held: Set<MyKeys>,
    pub pending_release: Set<MyKeys>,
}

/// The state after `k` goes down.
pub open spec fn pressed(s: KeyState, k: MyKeys) -> KeyState {
    KeyState { held: s.held.insert(k), pending_release: s.pending_release }
}

/// The state after `k` comes up: it stays held until the next tick.
pub open spec fn released(s: KeyState, k: MyKeys) -> KeyState {
    KeyState { held: s.held, pending_release: s.pending_release.insert(k) }
}

/// The state after a tick drains the tracker.
pub open spec fn drained(s: KeyState) -> KeyState {
    KeyState { held: s.held.difference(s.pending_release), pending_release: Set::empty() }
}

impl View for KeyTracker {
    type V = KeyState;

    closed spec fn view(&self) -> KeyState {
        KeyState { held: self.held@, pending_release: self.pending_release@ }
    }
}

impl KeyTracker {
    pub closed spec fn wf(&self) -> bool {
        self.held.wf() && self.pending_release.wf()
    }

    /// A tracker with no key held.
    pub fn new() -> (r: KeyTracker)
        ensures
            r.wf(),
            r@.held == Set::<MyKeys>::empty(),
            r@.pending_release == Set::<MyKeys>::empty(),
    {
        KeyTracker { held: KeySet::new(), pending_release: KeySet::new() }
    }

    /// Records that `k` went down; a repeat has no further effect.
    pub fn on_key_down(&mut self, k: MyKeys)
        requires
            old(self).wf(),
        ensures
            final(self).wf(),
            final(self)@ == pressed(old(self)@, k),
    {
        self.held.insert(k);
    }

    /// Records that `k` came up. It stays held until the next tick drains it.
    pub fn on_key_up(&mut self, k: MyKeys)
        requires
            old(self).wf(),
        ensures
            final(self).wf(),
            final(self)@ == released(old(self)@, k),
    {
        self.pending_release.insert(k);
    }

    /// Whether some key is held.
    pub fn any_held(&self) -> (r: bool)
        requires
            self.wf(),
        ensures
            r == (self@.held != Set::<MyKeys>::empty()),
    {
        !self.held.is_empty()
    }

    /// Ends a tick: returns the keys held during it, released ones included,
    /// then drops the released keys and forgets the releases.
    pub fn drain_tick(&mut self) -> (r: KeySet)
        requires
            old(self).wf(),
        ensures
            final(self).wf(),
            r.wf(),
            r@ == old(self)@.held,
            final(self)@ == drained(old(self)@),
    {
        let snapshot = KeySet { present: self.held.present.clone() };
        proof {
            assert(snapshot.present@ =~= self.held.present@);
        }
        self.held.remove_all(&self.pending_release);
        self.pending_release = KeySet::new();
        snapshot
    }

    /// Applies a key event from the windowing layer: a recognised key is
    /// recorded as down or up, others are dropped. Returns the host action a
    /// pressed key asks for.
    pub fn process_kbd_input(&mut self, key: &LogicalKey, is_pressed: bool) -> (r: Option<SystemAction>)
        requires
            old(self).wf(),
        ensures
            final(self).wf(),
            key_for(*key) matches Some(k) ==> final(self)@ == (if is_pressed {
                pressed(old(self)@, k)
            } else {
                released(old(self)@, k)
            }),
            key_for(*key).is_none() ==> final(self)@ == old(self)@,
            r == (if is_pressed {
                action_for(*key)
            } else {
                None
            }),
    {
        if let Ok(k) = MyKeys::try_from(key) {
            if is_pressed {
                self.on_key_down(k);
            } else {
                self.on_key_up(k);
            }
        }
        if is_pressed {
            system_action(key)
        } else {
            None
        }
    }
}

/// Draining twice with no event in between: the second drain changes
/// nothing more, and its snapshot is what the first left held, which is
/// empty when every held key had been released.
pub proof fn lemma_drain_twice(s: KeyState)
    ensures
        drained(drained(s)) == drained(s),
        drained(s).held == s.held.difference(s.pending_release),
        s.held.subset_of(s.pending_release) ==> drained(s).held == Set::<MyKeys>::empty(),
{
    assert(drained(s).held.difference(Set::<MyKeys>::empty()) =~= drained(s).held);
    if s.held.subset_of(s.pending_release) {
        assert(drained(s).held =~= Set::<MyKeys>::empty());
    }
}

proof fn lemma_cons_contains(a: MyKeys, rest: Seq<MyKeys>, k: MyKeys)
    ensures
        (seq![a] + rest).contains(k) <==> (a == k || rest.contains(k)),
{
    let all = seq![a] + rest;
    if all.contains(k) {
        let j = choose|j: int| 0 <= j < all.len() && all[j] == k;
        if j > 0 {
            assert(rest[j - 1] == k);
        }
    }
    if a == k {
        assert(all[0] == k);
    } else if rest.contains(k) {
        let j = choose|j: int| 0 <= j < rest.len() && rest[j] == k;
        assert(all[j + 1] == k);
    }
}

proof fn lemma_ordered_from(s: Set<MyKeys>, from: int)
    requires
        0 <= from,
    ensures
        ordered_from(s, from).no_duplicates(),
        forall|k: MyKeys| #[trigger] ordered_from(s, from).contains(k) <==> (s.contains(k) && from <= key_index(k)),
    decreases KEY_COUNT - from,
{
    let all = ordered_from(s, from);
    if from < KEY_COUNT {
        lemma_ordered_from(s, from + 1);
        let rest = ordered_from(s, from + 1);
        assert(key_index(key_at(from)) == from);
        assert forall|k: MyKeys| #[trigger] all.contains(k) <==> (s.contains(k) && from <= key_index(k)) by {
            lemma_key_index_inverse(k);
            if s.contains(key_at(from)) {
                assert(all == seq![key_at(from)] + rest);
                lemma_cons_contains(key_at(from), rest, k);
            } else {
                assert(all == rest);
            }
            assert(rest.contains(k) <==> (s.contains(k) && from + 1 <= key_index(k)));
        }
        if s.contains(key_at(from)) {
            assert(all == seq![key_at(from)] + rest);
            assert(!rest.contains(key_at(from)));
            assert forall|i: int, j: int| 0 <= i < all.len() && 0 <= j < all.len() && i != j implies all[i] != all[j] by {
                if i == 0 {
                    assert(all[j] == rest[j - 1]);
                    assert(rest.contains(all[j]));
                } else if j == 0 {
                    assert(all[i] == rest[i - 1]);
                    assert(rest.contains(all[i]));
                } else {
                    assert(all[i] == rest[i - 1] && all[j] == rest[j - 1]);
                }
            }
        } else {
            assert(all == rest);
        }
    } else {
        assert(all == Seq::<MyKeys>::empty());
        assert forall|k: MyKeys| #[trigger] all.contains(k) <==> (s.contains(k) && from <= key_index(k)) by {
            lemma_key_index_inverse(k);
        }
    }
}

/// The keys of a set in the fixed order: each key of the set once, and no
/// other.
pub proof fn lemma_ordered_keys(s: Set<MyKeys>)
    ensures
        ordered_keys(s).no_duplicates(),
        forall|k: MyKeys| #[trigger] ordered_keys(s).contains(k) <==> s.contains(k),
{
    lemma_ordered_from(s, 0);
    assert forall|k: MyKeys| #[trigger] ordered_keys(s).contains(k) <==> s.contains(k) by {
        lemma_key_index_inverse(k);
    }
}

/// A key pressed and released within one tick counts as held for that tick,
/// once, and is no longer held once the tick has drained it.
pub proof fn lemma_press_release_same_tick(s: KeyState, k: MyKeys)
    ensures
        ({
            let before = released(pressed(s, k), k);
            &&& before.held.contains(k)
            &&& ordered_keys(before.held).contains(k)
            &&& ordered_keys(before.held).no_duplicates()
            &&& !drained(before).held.contains(k)
        }),
{
    let before = released(pressed(s, k), k);
    lemma_ordered_keys(before.held);
}

} // verus!
