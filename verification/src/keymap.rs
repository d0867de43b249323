//! The keymap: which keycode each switch line produces.

use vstd::prelude::*;

use crate::fault::Fault;
use crate::key_buffer::{empty_buffer, held_keys, push_key, KeyBuffer, MAX_LINES};
use crate::keycode::{KEY_A, KEY_B, KEY_C, NO_EVENT};

verus! {

/// Whether switch line `line` belongs to the active set that `active`
/// describes. Lines without an entry are inactive.
pub open spec fn line_active(active: Seq<bool>, line: int) -> bool {
    0 <= line < active.len() && active[line]
}

/// The keys that a keymap yields for a set of active lines: the keycode of each
/// active line, lowest line first, leaving out lines mapped to `NO_EVENT`.
pub open spec fn resolve(keymap: Seq<u8>, active: Seq<bool>) -> Seq<u8>
    decreases keymap.len(),
{
    if keymap.len() == 0 {
        Seq::empty()
    } else {
        let line = keymap.len() - 1;
        let lower = resolve(keymap.drop_last(), active);
        if line_active(active, line) && keymap[line] != NO_EVENT {
            lower.push(keymap[line])
        } else {
            lower
        }
    }
}

/// A keymap never yields more keys than it has lines.
pub proof fn lemma_resolve_len(keymap: Seq<u8>, active: Seq<bool>)
    ensures
        resolve(keymap, active).len() <= keymap.len(),
    decreases keymap.len(),
{
    if keymap.len() > 0 {
        lemma_resolve_len(keymap.drop_last(), active);
    }
}

/// Every resolved key is the keycode of some active line, and never `NO_EVENT`.
pub proof fn lemma_resolve_members(keymap: Seq<u8>, active: Seq<bool>, key: u8)
    ensures
        resolve(keymap, active).contains(key) <==> key != NO_EVENT && exists|line: int|
            0 <= line < keymap.len() && line_active(active, line) && #[trigger] keymap[line]
                == key,
    decreases keymap.len(),
{
    if keymap.len() > 0 {
        let last = keymap.len() - 1;
        let lower_map = keymap.drop_last();
        let lower = resolve(lower_map, active);
        lemma_resolve_members(lower_map, active, key);
        if resolve(keymap, active).contains(key) {
            if lower.contains(key) {
                let line = choose|line: int|
                    0 <= line < lower_map.len() && line_active(active, line)
                        && #[trigger] lower_map[line] == key;
                assert(keymap[line] == key);
            } else {
                let at = choose|at: int|
                    0 <= at < resolve(keymap, active).len() && resolve(keymap, active)[at] == key;
                assert(at == lower.len());
                assert(keymap[last] == key);
            }
        }
        if key != NO_EVENT && exists|line: int|
            0 <= line < keymap.len() && line_active(active, line) && #[trigger] keymap[line]
                == key {
            let line = choose|line: int|
                0 <= line < keymap.len() && line_active(active, line) && #[trigger] keymap[line]
                    == key;
            if line == last {
                assert(resolve(keymap, active) == lower.push(key));
                assert(lower.push(key)[lower.len() as int] == key);
            } else {
                assert(lower_map[line] == key);
                assert(lower.contains(key));
                let at = choose|at: int| 0 <= at < lower.len() && lower[at] == key;
                assert(resolve(keymap, active)[at] == key);
            }
        }
    }
}

/// What a keymap yields is a function of the active set alone: two
/// descriptions that agree on every line of the keymap resolve to the same
/// keys.
pub proof fn lemma_resolve_depends_on_active_set(
    keymap: Seq<u8>,
    first: Seq<bool>,
    second: Seq<bool>,
)
    requires
        forall|line: int|
            0 <= line < keymap.len() ==> line_active(first, line) == line_active(second, line),
    ensures
        resolve(keymap, first) == resolve(keymap, second),
    decreases keymap.len(),
{
    if keymap.len() > 0 {
        lemma_resolve_depends_on_active_set(keymap.drop_last(), first, second);
    }
}

/// With no line active a keymap yields nothing.
pub proof fn lemma_resolve_idle(keymap: Seq<u8>, active: Seq<bool>)
    requires
        forall|line: int| 0 <= line < keymap.len() ==> !line_active(active, line),
    ensures
        resolve(keymap, active) == Seq::<u8>::empty(),
    decreases keymap.len(),
{
    if keymap.len() > 0 {
        lemma_resolve_idle(keymap.drop_last(), active);
    }
}

/// Position `line` of the keymap belongs to switch line `line`: when that line
/// alone is active, the keymap yields exactly its keycode, or nothing if the
/// line is mapped to `NO_EVENT`.
pub proof fn lemma_resolve_single_line(keymap: Seq<u8>, active: Seq<bool>, line: int)
    requires
        0 <= line < keymap.len(),
        forall|other: int|
            0 <= other < keymap.len() ==> (line_active(active, other) <==> other == line),
    ensures
        resolve(keymap, active) == if keymap[line] == NO_EVENT {
            Seq::<u8>::empty()
        } else {
            seq![keymap[line]]
        },
    decreases keymap.len(),
{
    let last = keymap.len() - 1;
    if line == last {
        lemma_resolve_idle(keymap.drop_last(), active);
    } else {
        lemma_resolve_single_line(keymap.drop_last(), active, line);
    }
}

/// Keys come out in the order of their switch lines: what the lowest `lines`
/// lines yield is a prefix of what the whole keymap yields.
pub proof fn lemma_resolve_line_order(keymap: Seq<u8>, active: Seq<bool>, lines: int)
    requires
        0 <= lines <= keymap.len(),
    ensures
        resolve(keymap.take(lines), active).is_prefix_of(resolve(keymap, active)),
    decreases keymap.len(),
{
    if lines == keymap.len() {
        assert(keymap.take(lines) == keymap);
    } else {
        lemma_resolve_line_order(keymap.drop_last(), active, lines);
        assert(keymap.drop_last().take(lines) == keymap.take(lines));
    }
}

/// A keyboard: the ordered keymap of its switch lines. Entry `i` is the
/// keycode that switch line `i` produces.
#[derive(Debug)]
pub struct Keyboard {
    keymap: Vec<u8>,
}

impl View for Keyboard {
    type V = Seq<u8>;

    closed spec fn view(&self) -> Seq<u8> {
        self.keymap@
    }
}

impl Keyboard {
    #[verifier::type_invariant]
    spec fn fits_key_buffer(&self) -> bool {
        self.keymap@.len() <= MAX_LINES
    }

    /// The default keyboard: three switch lines producing `A`, `B` and `C`.
    pub fn new() -> (keyboard: Keyboard)
        ensures
            keyboard@ == seq![KEY_A, KEY_B, KEY_C],
    {
        let mut keymap: Vec<u8> = Vec::new();
        keymap.push(KEY_A);
        keymap.push(KEY_B);
        keymap.push(KEY_C);
        Keyboard { keymap }
    }

    /// A keyboard with `lines` switch lines and the given keymap. The keymap
    /// must have one entry per line, and a keyboard monitors at most
    /// `MAX_LINES` lines.
    pub fn with_keymap(keymap: Vec<u8>, lines: usize) -> (made: Result<Keyboard, Fault>)
        ensures
            keymap@.len() != lines ==> made is Err && made->Err_0 == Fault::KeymapLengthMismatch,
            keymap@.len() == lines && lines > MAX_LINES ==> made is Err && made->Err_0
                == Fault::TooManyLines,
            keymap@.len() == lines && lines <= MAX_LINES ==> made is Ok && made->Ok_0@ == keymap@,
    {
        if keymap.len() != lines {
            Err(Fault::KeymapLengthMismatch)
        } else if lines > MAX_LINES {
            Err(Fault::TooManyLines)
        } else {
            Ok(Keyboard { keymap })
        }
    }

    /// The number of switch lines.
    pub fn lines(&self) -> (lines: usize)
        ensures
            lines == self@.len(),
            lines <= MAX_LINES,
    {
        proof {
            use_type_invariant(self);
        }
        self.keymap.len()
    }

    /// The keymap: entry `i` is the keycode of switch line `i`.
    pub fn keymap(&self) -> (keymap: &[u8])
        ensures
            keymap@ == self@,
    {
        self.keymap.as_slice()
    }

    /// The keys held down, given which switch lines are active: entry `i` of
    /// `active` tells whether line `i` is pressed, and a line without an entry
    /// counts as released. The keys come in the order of their lines.
    pub fn pressed_keys(&self, active: &[bool]) -> (keys: KeyBuffer)
        ensures
            held_keys(keys) == resolve(self@, active@),
    {
        proof {
            use_type_invariant(self);
        }
        let mut keys = empty_buffer();
        let mut line: usize = 0;
        while line < self.keymap.len()
            invariant
                line <= self.keymap@.len(),
                self.keymap@.len() <= MAX_LINES,
                held_keys(keys) == resolve(self.keymap@.take(line as int), active@),
            decreases self.keymap@.len() - line,
        {
            let pressed = line < active.len() && active[line];
            let code = self.keymap[line];
            proof {
                lemma_resolve_len(self.keymap@.take(line as int), active@);
                assert(self.keymap@.take(line + 1).drop_last() == self.keymap@.take(line as int));
            }
            if pressed && code != NO_EVENT {
                let pushed = push_key(&mut keys, code);
                assert(pushed is Ok);
            }
            line += 1;
        }
        proof {
            assert(self.keymap@.take(line as int) == self.keymap@);
        }
        keys
    }
}

} // verus!
