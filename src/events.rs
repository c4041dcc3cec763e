//! Input events as the controller sees them, and sets of held keys.
use vstd::prelude::*;

verus! {

/// Key code of the left Alt key, which holds the controller in capture mode.
pub const KEY_LALT: u32 = 1;
/// Key code that saves the run while in capture mode.
pub const KEY_S: u32 = 2;
/// Key code that saves a checkpoint while in capture mode.
pub const KEY_K: u32 = 3;
/// Key code that loads the newest checkpoint while in capture mode.
pub const KEY_L: u32 = 4;
/// Key code that toggles the pause while in capture mode.
pub const KEY_P: u32 = 5;
/// Key code that slows the time scale down while in capture mode.
pub const KEY_LEFT: u32 = 6;
/// Key code that speeds the time scale up while in capture mode.
pub const KEY_RIGHT: u32 = 7;

/// What an input event does to the held-input state.
#[derive(Clone, Copy, Debug, PartialEq, Eq, Structural)]
pub enum Action {
    KeyDown(u32),
    KeyUp(u32),
    ButtonDown(u32),
    ButtonUp(u32),
    Other,
}

/// One input event: its effect on held input, and the host's own encoding
/// of the whole event, which is carried through unread.
#[derive(Clone, Debug)]
pub struct InputEvent {
    pub action: Action,
    pub payload: Vec<u8>,
}

/// The mathematical value of an [`InputEvent`].
pub struct EventView {
    pub action: Action,
    pub payload: Seq<u8>,
}

impl View for InputEvent {
    type V = EventView;

    open spec fn view(&self) -> EventView {
        EventView { action: self.action, payload: self.payload@ }
    }
}

/// The values of a sequence of events.
pub open spec fn events_view(v: Seq<InputEvent>) -> Seq<EventView> {
    v.map_values(|e: InputEvent| e@)
}

fn bytes_equal(a: &Vec<u8>, b: &Vec<u8>) -> (r: bool)
    ensures
        r == (a@ == b@),
{
    if a.len() != b.len() {
        return false;
    }
    let mut i: usize = 0;
    while i < a.len()
        invariant
            a@.len() == b@.len(),
            0 <= i <= a@.len(),
            a@.subrange(0, i as int) == b@.subrange(0, i as int),
        decreases a@.len() - i,
    {
        if a[i] != b[i] {
            assert(a@[i as int] == a@.subrange(0, i as int + 1)[i as int]);
            assert(b@[i as int] == b@.subrange(0, i as int + 1)[i as int]);
            return false;
        }
        assert(a@.subrange(0, i as int + 1) =~= a@.subrange(0, i as int).push(a@[i as int]));
        assert(b@.subrange(0, i as int + 1) =~= b@.subrange(0, i as int).push(b@[i as int]));
        i = i + 1;
    }
    assert(a@ =~= a@.subrange(0, a@.len() as int));
    assert(b@ =~= b@.subrange(0, b@.len() as int));
    true
}

pub(crate) fn copy_bytes(a: &Vec<u8>) -> (r: Vec<u8>)
    ensures
        r@ == a@,
{
    let r = a.clone();
    assert(r@ =~= a@);
    r
}

impl InputEvent {
    /// Whether two events have the same value.
    pub fn same_as(&self, other: &InputEvent) -> (r: bool)
        ensures
            r == (self@ == other@),
    {
        self.action == other.action && bytes_equal(&self.payload, &other.payload)
    }

    /// An independent copy of the event.
    pub fn copy(&self) -> (r: InputEvent)
        ensures
            r@ == self@,
    {
        InputEvent { action: self.action, payload: copy_bytes(&self.payload) }
    }
}

/// Whether two lists of events have the same value, element by element.
pub fn same_events(a: &Vec<InputEvent>, b: &Vec<InputEvent>) -> (r: bool)
    ensures
        r == (events_view(a@) == events_view(b@)),
{
    if a.len() != b.len() {
        assert(events_view(a@).len() != events_view(b@).len());
        return false;
    }
    let mut i: usize = 0;
    while i < a.len()
        invariant
            a@.len() == b@.len(),
            0 <= i <= a@.len(),
            forall|j: int| 0 <= j < i ==> a@[j]@ == b@[j]@,
        decreases a@.len() - i,
    {
        if !a[i].same_as(&b[i]) {
            assert(events_view(a@)[i as int] != events_view(b@)[i as int]);
            return false;
        }
        i = i + 1;
    }
    assert(events_view(a@) =~= events_view(b@));
    true
}

/// An independent copy of a list of events.
pub fn copy_events(a: &Vec<InputEvent>) -> (r: Vec<InputEvent>)
    ensures
        events_view(r@) == events_view(a@),
{
    let mut r: Vec<InputEvent> = Vec::new();
    let mut i: usize = 0;
    while i < a.len()
        invariant
            0 <= i <= a@.len(),
            r@.len() == i,
            forall|j: int| 0 <= j < i ==> r@[j]@ == a@[j]@,
        decreases a@.len() - i,
    {
        r.push(a[i].copy());
        i = i + 1;
    }
    assert(events_view(r@) =~= events_view(a@));
    r
}

/// A set of held key or button codes.
#[derive(Clone, Debug)]
pub struct KeySet {
    codes: Vec<u32>,
}

impl View for KeySet {
    type V = Set<u32>;

    closed spec fn view(&self) -> Set<u32> {
        self.codes@.to_set()
    }
}

impl KeySet {
    /// The empty set.
    pub fn new() -> (r: KeySet)
        ensures
            r@ == Set::<u32>::empty(),
    {
        let r = KeySet { codes: Vec::new() };
        assert(r@ =~= Set::<u32>::empty());
        r
    }

    /// The set of the given codes.
    pub fn from_codes(codes: Vec<u32>) -> (r: KeySet)
        ensures
            r@ == codes@.to_set(),
    {
        KeySet { codes }
    }

    /// The codes of the set, each once.
    pub fn to_codes(&self) -> (r: Vec<u32>)
        ensures
            r@.to_set() == self@,
            r@.no_duplicates(),
    {
        let mut r: Vec<u32> = Vec::new();
        let mut i: usize = 0;
        while i < self.codes.len()
            invariant
                0 <= i <= self.codes@.len(),
                r@.to_set() == self.codes@.take(i as int).to_set(),
                r@.no_duplicates(),
            decreases self.codes@.len() - i,
        {
            let c = self.codes[i];
            proof {
                broadcast use Seq::lemma_push_to_set_commute;
                assert(self.codes@.take(i as int + 1) =~= self.codes@.take(i as int).push(c));
                r@.lemma_push_to_set_commute(c);
                self.codes@.take(i as int).lemma_push_to_set_commute(c);
            }
            if !contains_code(&r, c) {
                r.push(c);
            } else {
                assert(r@.to_set().insert(c) =~= r@.to_set());
            }
            i = i + 1;
        }
        assert(self.codes@.take(self.codes@.len() as int) =~= self.codes@);
        r
    }

    /// Whether a code is in the set.
    pub fn contains(&self, k: u32) -> (r: bool)
        ensures
            r == self@.contains(k),
    {
        contains_code(&self.codes, k)
    }

    /// Adds a code.
    pub fn insert(&mut self, k: u32)
        ensures
            final(self)@ == old(self)@.insert(k),
    {
        proof {
            self.codes@.lemma_push_to_set_commute(k);
        }
        self.codes.push(k);
    }

    /// Takes a code out.
    pub fn remove(&mut self, k: u32)
        ensures
            final(self)@ == old(self)@.remove(k),
    {
        let mut r: Vec<u32> = Vec::new();
        let mut i: usize = 0;
        while i < self.codes.len()
            invariant
                0 <= i <= self.codes@.len(),
                r@.to_set() == self.codes@.take(i as int).to_set().remove(k),
            decreases self.codes@.len() - i,
        {
            let c = self.codes[i];
            proof {
                assert(self.codes@.take(i as int + 1) =~= self.codes@.take(i as int).push(c));
                r@.lemma_push_to_set_commute(c);
                self.codes@.take(i as int).lemma_push_to_set_commute(c);
            }
            if c != k {
                r.push(c);
                assert(r@.to_set() =~= self.codes@.take(i as int + 1).to_set().remove(k));
            } else {
                assert(r@.to_set() =~= self.codes@.take(i as int + 1).to_set().remove(k));
            }
            i = i + 1;
        }
        assert(self.codes@.take(self.codes@.len() as int) =~= self.codes@);
        self.codes = r;
    }

    /// An independent copy of the set.
    pub fn copy(&self) -> (r: KeySet)
        ensures
            r@ == self@,
    {
        let codes = self.codes.clone();
        assert(codes@ =~= self.codes@);
        KeySet { codes }
    }
}

fn contains_code(v: &Vec<u32>, k: u32) -> (r: bool)
    ensures
        r == v@.to_set().contains(k),
{
    let mut i: usize = 0;
    while i < v.len()
        invariant
            0 <= i <= v@.len(),
            forall|j: int| 0 <= j < i ==> v@[j] != k,
        decreases v@.len() - i,
    {
        if v[i] == k {
            assert(v@.to_set().contains(v@[i as int]));
            return true;
        }
        i = i + 1;
    }
    false
}

} // verus!
