//! Pressed-key state, driven by the frontend's key events. Codes match the
//! browser key names ("w", "s", "a", "d", "ArrowLeft", ...) and the native
//! key mapping.

use vstd::prelude::*;
use crate::text::chars_of;

verus! {

/// Which movement and look keys are held.
#[derive(Clone, Copy, Debug, PartialEq, Eq, Structural)]
pub struct KeyState {
    pub w: bool,
    pub s: bool,
    pub a: bool,
    pub d: bool,
    pub left: bool,
    pub right: bool,
    pub up: bool,
    pub down: bool,
}

impl Default for KeyState {
    /// No key held.
    fn default() -> (k: KeyState)
        ensures
            k == (KeyState {
                w: false,
                s: false,
                a: false,
                d: false,
                left: false,
                right: false,
                up: false,
                down: false,
            }),
    {
        KeyState {
            w: false,
            s: false,
            a: false,
            d: false,
            left: false,
            right: false,
            up: false,
            down: false,
        }
    }
}

pub open spec fn arrow_left_code() -> Seq<char> {
    seq!['A', 'r', 'r', 'o', 'w', 'L', 'e', 'f', 't']
}

pub open spec fn arrow_right_code() -> Seq<char> {
    seq!['A', 'r', 'r', 'o', 'w', 'R', 'i', 'g', 'h', 't']
}

pub open spec fn arrow_up_code() -> Seq<char> {
    seq!['A', 'r', 'r', 'o', 'w', 'U', 'p']
}

pub open spec fn arrow_down_code() -> Seq<char> {
    seq!['A', 'r', 'r', 'o', 'w', 'D', 'o', 'w', 'n']
}

/// The key state after the key named `code` goes down (`down`) or up: the
/// key it names takes `down`, every other key keeps its state, and an
/// unknown code changes nothing.
pub open spec fn with_key(k: KeyState, code: Seq<char>, down: bool) -> KeyState {
    KeyState {
        w: if code == seq!['w'] {
            down
        } else {
            k.w
        },
        s: if code == seq!['s'] {
            down
        } else {
            k.s
        },
        a: if code == seq!['a'] {
            down
        } else {
            k.a
        },
        d: if code == seq!['d'] {
            down
        } else {
            k.d
        },
        left: if code == arrow_left_code() {
            down
        } else {
            k.left
        },
        right: if code == arrow_right_code() {
            down
        } else {
            k.right
        },
        up: if code == arrow_up_code() {
            down
        } else {
            k.up
        },
        down: if code == arrow_down_code() {
            down
        } else {
            k.down
        },
    }
}

fn is_text(cs: &Vec<char>, lit: &[char]) -> (r: bool)
    ensures
        r == (cs@ == lit@),
{
    if cs.len() != lit.len() {
        return false;
    }
    let n = cs.len();
    for i in 0..n
        invariant
            n == cs@.len(),
            n == lit@.len(),
            cs@.take(i as int) == lit@.take(i as int),
    {
        if cs[i] != lit[i] {
            return false;
        }
        assert(cs@.take(i + 1) =~= lit@.take(i + 1));
    }
    assert(cs@ =~= cs@.take(n as int));
    assert(lit@ =~= lit@.take(n as int));
    true
}

impl KeyState {
    /// Sets the state of the key named `code`.
    pub fn set(&mut self, code: &str, down: bool)
        ensures
            *final(self) == with_key(*old(self), code@, down),
    {
        let cs = chars_of(code);
        let left: [char; 9] = ['A', 'r', 'r', 'o', 'w', 'L', 'e', 'f', 't'];
        let right: [char; 10] = ['A', 'r', 'r', 'o', 'w', 'R', 'i', 'g', 'h', 't'];
        let up: [char; 7] = ['A', 'r', 'r', 'o', 'w', 'U', 'p'];
        let dn: [char; 9] = ['A', 'r', 'r', 'o', 'w', 'D', 'o', 'w', 'n'];
        assert(left@ =~= arrow_left_code());
        assert(right@ =~= arrow_right_code());
        assert(up@ =~= arrow_up_code());
        assert(dn@ =~= arrow_down_code());
        let w: [char; 1] = ['w'];
        let s: [char; 1] = ['s'];
        let a: [char; 1] = ['a'];
        let d: [char; 1] = ['d'];
        assert(w@ =~= seq!['w']);
        assert(s@ =~= seq!['s']);
        assert(a@ =~= seq!['a']);
        assert(d@ =~= seq!['d']);
        if is_text(&cs, &w) {
            self.w = down;
        } else if is_text(&cs, &s) {
            self.s = down;
        } else if is_text(&cs, &a) {
            self.a = down;
        } else if is_text(&cs, &d) {
            self.d = down;
        } else if is_text(&cs, &left) {
            self.left = down;
        } else if is_text(&cs, &right) {
            self.right = down;
        } else if is_text(&cs, &up) {
            self.up = down;
        } else if is_text(&cs, &dn) {
            self.down = down;
        }
    }
}

} // verus!
