//! The edges and text that the native window's input events leave in a
//! frame's input.
//!
//! Buttons and keys are named by codes. A press is an edge only when the
//! input was not already held, so auto-repeat keeps a key held without
//! pressing it again; a release lets go of the input and records the
//! release. Presses of text-editing keys are also queued one by one, so two
//! quick taps within a frame stay two. Typed text is kept unless a command
//! chord or Alt is held; an input method's commit appends its text and
//! ends the composition, whose current text a preedit replaces.

use vstd::prelude::*;

verus! {

fn vec_contains(v: &Vec<u32>, x: u32) -> (found: bool)
    ensures
        found == v@.contains(x),
{
    let mut i: usize = 0;
    while i < v.len()
        invariant
            i <= v@.len(),
            forall|j: int| 0 <= j < i ==> v@[j] != x,
        decreases v@.len() - i,
    {
        if v[i] == x {
            assert(v@[i as int] == x);
            return true;
        }
        i += 1;
    }
    false
}

fn set_insert(v: &mut Vec<u32>, x: u32)
    requires
        old(v)@.no_duplicates(),
    ensures
        final(v)@.no_duplicates(),
        final(v)@.to_set() == old(v)@.to_set().insert(x),
{
    if !vec_contains(v, x) {
        let ghost before = v@;
        v.push(x);
        proof {
            assert forall|a: int, b: int| 0 <= a < v@.len() && 0 <= b < v@.len() && a != b implies v@[a]
                != v@[b] by {
                if a < before.len() && b < before.len() {
                    assert(v@[a] == before[a] && v@[b] == before[b]);
                } else if a == before.len() {
                    assert(v@[b] == before[b]);
                } else {
                    assert(v@[a] == before[a]);
                }
            }
            assert forall|y: u32| v@.to_set().contains(y) <==> before.to_set().insert(x).contains(y) by {
                if v@.contains(y) {
                    let k = choose|k: int| 0 <= k < v@.len() && v@[k] == y;
                    if k < before.len() {
                        assert(before[k] == y);
                    }
                }
                if before.contains(y) {
                    let k = choose|k: int| 0 <= k < before.len() && before[k] == y;
                    assert(v@[k] == y);
                }
                if y == x {
                    assert(v@[before.len() as int] == y);
                }
            }
            assert(v@.to_set() =~= before.to_set().insert(x));
        }
    } else {
        assert(v@.to_set() =~= v@.to_set().insert(x));
    }
}

fn set_remove(v: &mut Vec<u32>, x: u32)
    requires
        old(v)@.no_duplicates(),
    ensures
        final(v)@.no_duplicates(),
        final(v)@.to_set() == old(v)@.to_set().remove(x),
{
    let mut i: usize = 0;
    while i < v.len()
        invariant
            i <= v@.len(),
            v@ == old(v)@,
            v@.no_duplicates(),
            forall|j: int| 0 <= j < i ==> v@[j] != x,
        decreases v@.len() - i,
    {
        if v[i] == x {
            let ghost before = v@;
            v.remove(i);
            proof {
                assert forall|a: int, b: int|
                    0 <= a < v@.len() && 0 <= b < v@.len() && a != b implies v@[a] != v@[b] by {
                    let a0 = if a < i { a } else { a + 1 };
                    let b0 = if b < i { b } else { b + 1 };
                    assert(v@[a] == before[a0] && v@[b] == before[b0]);
                }
                assert forall|y: u32| v@.to_set().contains(y) <==> before.to_set().remove(
                    x,
                ).contains(y) by {
                    if v@.contains(y) {
                        let k = choose|k: int| 0 <= k < v@.len() && v@[k] == y;
                        let k0 = if k < i { k } else { k + 1 };
                        assert(before[k0] == y);
                        assert(k0 != i);
                    }
                    if before.contains(y) && y != x {
                        let k0 = choose|k: int| 0 <= k < before.len() && before[k] == y;
                        let k = if k0 < i { k0 } else { k0 - 1 };
                        assert(v@[k] == y);
                    }
                }
                assert(v@.to_set() =~= before.to_set().remove(x));
            }
            return;
        }
        i += 1;
    }
    assert(v@.to_set() =~= v@.to_set().remove(x));
}

/// The buttons or keys that are held, and those pressed and released since
/// the frame began.
pub struct InputEdges {
    down: Vec<u32>,
    pressed: Vec<u32>,
    released: Vec<u32>,
}

impl InputEdges {
    pub closed spec fn down_set(&self) -> Set<u32> {
        self.down@.to_set()
    }

    pub closed spec fn pressed_set(&self) -> Set<u32> {
        self.pressed@.to_set()
    }

    pub closed spec fn released_set(&self) -> Set<u32> {
        self.released@.to_set()
    }

    pub closed spec fn well_formed(&self) -> bool {
        &&& self.down@.no_duplicates()
        &&& self.pressed@.no_duplicates()
        &&& self.released@.no_duplicates()
    }

    /// Nothing held, pressed or released.
    pub fn new() -> (edges: Self)
        ensures
            edges.well_formed(),
            edges.down_set() == Set::<u32>::empty(),
            edges.pressed_set() == Set::<u32>::empty(),
            edges.released_set() == Set::<u32>::empty(),
    {
        let edges = InputEdges { down: Vec::new(), pressed: Vec::new(), released: Vec::new() };
        assert(edges.down@.to_set() =~= Set::<u32>::empty());
        assert(edges.pressed@.to_set() =~= Set::<u32>::empty());
        assert(edges.released@.to_set() =~= Set::<u32>::empty());
        edges
    }

    /// Records a press of `code`: an edge unless it is already held.
    pub fn press(&mut self, code: u32)
        requires
            old(self).well_formed(),
        ensures
            final(self).well_formed(),
            final(self).down_set() == old(self).down_set().insert(code),
            final(self).pressed_set() == if old(self).down_set().contains(code) {
                old(self).pressed_set()
            } else {
                old(self).pressed_set().insert(code)
            },
            final(self).released_set() == old(self).released_set(),
    {
        if !vec_contains(&self.down, code) {
            set_insert(&mut self.pressed, code);
        }
        set_insert(&mut self.down, code);
    }

    /// Records a release of `code`.
    pub fn release(&mut self, code: u32)
        requires
            old(self).well_formed(),
        ensures
            final(self).well_formed(),
            final(self).down_set() == old(self).down_set().remove(code),
            final(self).pressed_set() == old(self).pressed_set(),
            final(self).released_set() == old(self).released_set().insert(code),
    {
        set_remove(&mut self.down, code);
        set_insert(&mut self.released, code);
    }

    /// Starts a frame: the held inputs stay held, the edges are consumed.
    pub fn begin_frame(&mut self)
        requires
            old(self).well_formed(),
        ensures
            final(self).well_formed(),
            final(self).down_set() == old(self).down_set(),
            final(self).pressed_set() == Set::<u32>::empty(),
            final(self).released_set() == Set::<u32>::empty(),
    {
        self.pressed = Vec::new();
        self.released = Vec::new();
        assert(self.pressed@.to_set() =~= Set::<u32>::empty());
        assert(self.released@.to_set() =~= Set::<u32>::empty());
    }

    pub fn is_down(&self, code: u32) -> (held: bool)
        ensures
            held == self.down_set().contains(code),
    {
        vec_contains(&self.down, code)
    }

    pub fn was_pressed(&self, code: u32) -> (pressed: bool)
        ensures
            pressed == self.pressed_set().contains(code),
    {
        vec_contains(&self.pressed, code)
    }

    pub fn was_released(&self, code: u32) -> (released: bool)
        ensures
            released == self.released_set().contains(code),
    {
        vec_contains(&self.released, code)
    }
}

/// Text entered during a frame: the queued presses of text-editing keys and
/// the typed or committed text, both consumed when the next frame begins,
/// and the input method's composition, which lasts until it is committed or
/// replaced.
pub struct NativeTextInput {
    pending_text_keys: Vec<u32>,
    text_input: String,
    ime_preedit: String,
}

impl NativeTextInput {
    pub closed spec fn pending_spec(&self) -> Seq<u32> {
        self.pending_text_keys@
    }

    pub closed spec fn text_spec(&self) -> Seq<char> {
        self.text_input@
    }

    pub closed spec fn preedit_spec(&self) -> Seq<char> {
        self.ime_preedit@
    }

    /// No queued key, no text, no composition.
    pub fn new() -> (input: Self)
        ensures
            input.pending_spec() == Seq::<u32>::empty(),
            input.text_spec() == Seq::<char>::empty(),
            input.preedit_spec() == Seq::<char>::empty(),
    {
        NativeTextInput {
            pending_text_keys: Vec::new(),
            text_input: String::new(),
            ime_preedit: String::new(),
        }
    }

    /// Records a key press; a text-editing key is queued.
    pub fn key_pressed(&mut self, code: u32, text_edit: bool)
        ensures
            final(self).pending_spec() == if text_edit {
                old(self).pending_spec().push(code)
            } else {
                old(self).pending_spec()
            },
            final(self).text_spec() == old(self).text_spec(),
            final(self).preedit_spec() == old(self).preedit_spec(),
    {
        if text_edit {
            self.pending_text_keys.push(code);
        }
    }

    /// Records the text a key press typed, unless a command chord or Alt is
    /// held.
    pub fn typed(&mut self, text: &str, command_chord: bool, alt: bool)
        ensures
            final(self).text_spec() == if command_chord || alt {
                old(self).text_spec()
            } else {
                old(self).text_spec() + text@
            },
            final(self).pending_spec() == old(self).pending_spec(),
            final(self).preedit_spec() == old(self).preedit_spec(),
    {
        if !command_chord && !alt {
            self.text_input.append(text);
        }
    }

    /// The input method committed `text`: it is entered and the
    /// composition ends.
    pub fn ime_commit(&mut self, text: &str)
        ensures
            final(self).text_spec() == old(self).text_spec() + text@,
            final(self).preedit_spec() == Seq::<char>::empty(),
            final(self).pending_spec() == old(self).pending_spec(),
    {
        self.text_input.append(text);
        self.ime_preedit = String::new();
    }

    /// The input method's composition is now `text`.
    pub fn ime_preedit(&mut self, text: &str)
        ensures
            final(self).preedit_spec() == text@,
            final(self).text_spec() == old(self).text_spec(),
            final(self).pending_spec() == old(self).pending_spec(),
    {
        self.ime_preedit = String::from_str(text);
    }

    /// The input method was enabled or disabled: no composition is left.
    pub fn ime_toggled(&mut self)
        ensures
            final(self).preedit_spec() == Seq::<char>::empty(),
            final(self).text_spec() == old(self).text_spec(),
            final(self).pending_spec() == old(self).pending_spec(),
    {
        self.ime_preedit = String::new();
    }

    /// The window lost focus: the queued key presses are dropped.
    pub fn focus_lost(&mut self)
        ensures
            final(self).pending_spec() == Seq::<u32>::empty(),
            final(self).text_spec() == old(self).text_spec(),
            final(self).preedit_spec() == old(self).preedit_spec(),
    {
        self.pending_text_keys = Vec::new();
    }

    /// Starts a frame: the queued key presses and the text are consumed,
    /// the composition stays.
    pub fn begin_frame(&mut self)
        ensures
            final(self).pending_spec() == Seq::<u32>::empty(),
            final(self).text_spec() == Seq::<char>::empty(),
            final(self).preedit_spec() == old(self).preedit_spec(),
    {
        self.pending_text_keys = Vec::new();
        self.text_input = String::new();
    }

    /// The queued presses of text-editing keys, in order.
    pub fn pending_text_keys(&self) -> (keys: &[u32])
        ensures
            keys@ == self.pending_spec(),
    {
        self.pending_text_keys.as_slice()
    }

    /// How many times `code` is queued.
    pub fn press_count(&self, code: u32) -> (count: usize)
        ensures
            count == self.pending_spec().filter(|k: u32| k == code).len(),
    {
        let mut count: usize = 0;
        let mut i: usize = 0;
        while i < self.pending_text_keys.len()
            invariant
                i <= self.pending_spec().len(),
                count == self.pending_spec().take(i as int).filter(|k: u32| k == code).len(),
                count <= i,
            decreases self.pending_spec().len() - i,
        {
            proof {
                let s = self.pending_spec();
                assert(s.take(i as int + 1).drop_last() =~= s.take(i as int));
                reveal(Seq::filter);
            }
            if self.pending_text_keys[i] == code {
                count += 1;
            }
            i += 1;
        }
        proof {
            assert(self.pending_spec().take(i as int) =~= self.pending_spec());
        }
        count
    }

    pub fn text_input(&self) -> (text: &str)
        ensures
            text@ == self.text_spec(),
    {
        self.text_input.as_str()
    }

    pub fn ime_preedit_text(&self) -> (text: &str)
        ensures
            text@ == self.preedit_spec(),
    {
        self.ime_preedit.as_str()
    }
}

} // verus!
