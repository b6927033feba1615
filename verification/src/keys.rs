//! The incremental keyboard decoder.
//!
//! Raw terminal bytes arrive in unpredictable chunks; the decoder keeps a
//! bounded residue buffer of pending bytes and classifies the longest
//! recognized prefix into a key event. Escape sequences of three to five
//! bytes encode arrows, function keys and navigation keys; anything
//! unrecognized falls back to UTF-8 decoding, Alt- and Ctrl-modified
//! characters, or the unrecognized sentinel.

use vstd::prelude::*;
use vstd::utf8::{valid_utf8, decode_utf8};
use vstd::slice::slice_subrange;
use crate::widget::str_chars;

verus! {

/// The capacity of the residue buffer: at most this many bytes are ever
/// pending between decode calls.
pub const MAX_KEY_LEN: usize = 16;

/// A decoded key event: a literal character, a named control key, a
/// modified key, or a sentinel for end-of-input, interruption, or an
/// unrecognized sequence.
#[derive(Debug, PartialEq, Eq, Structural, Clone, Copy)]
pub enum Key {
    Char(char),
    Null,
    EOF,
    Interupt,
    Unknown,
    Up,
    Down,
    Left,
    Right,
    F1,
    F2,
    F3,
    F4,
    F5,
    F6,
    F7,
    F8,
    F9,
    F10,
    F11,
    F12,
    ESC,
    Enter,
    Backspace,
    Tab,
    Paste,
    Delete,
    Pause,
    Home,
    End,
    PageUp,
    PageDown,
    Alt(char),
    Ctrl(char),
}

/// What one read on the raw byte source produced, as the caller's loop
/// reports it: fresh bytes, end of input, a signal interruption, or a
/// failed read.
#[derive(Debug, PartialEq, Eq, Structural, Clone, Copy)]
pub enum ReadOutcome {
    Data(usize),
    EndOfInput,
    Interrupted,
    Failed,
}

/// The single-byte control table.
pub open spec fn control_key(b: u8) -> Option<Key> {
    if b == 0x00 {
        Option::Some(Key::Null)
    } else if b == 0x09 {
        Option::Some(Key::Tab)
    } else if b == 0x1B {
        Option::Some(Key::ESC)
    } else if b == 0x0A {
        Option::Some(Key::Enter)
    } else if b == 0x7F {
        Option::Some(Key::Backspace)
    } else if b < 0x20 {
        Option::Some(Key::Ctrl(((b + 0x40) as char)))
    } else {
        Option::None
    }
}

/// The three-byte escape-sequence table: CSI arrows, Home/End, Pause,
/// and the SS3 function keys.
pub open spec fn csi3(b0: u8, b1: u8, b2: u8) -> Option<Key> {
    if b0 != 0x1B {
        Option::None
    } else if b1 == 0x5B {
        if b2 == 0x48 {
            Option::Some(Key::Home)
        } else if b2 == 0x46 {
            Option::Some(Key::End)
        } else if b2 == 0x41 {
            Option::Some(Key::Up)
        } else if b2 == 0x42 {
            Option::Some(Key::Down)
        } else if b2 == 0x44 {
            Option::Some(Key::Left)
        } else if b2 == 0x43 {
            Option::Some(Key::Right)
        } else if b2 == 0x50 {
            Option::Some(Key::Pause)
        } else {
            Option::None
        }
    } else if b1 == 0x4F {
        if b2 == 0x50 {
            Option::Some(Key::F1)
        } else if b2 == 0x51 {
            Option::Some(Key::F2)
        } else if b2 == 0x52 {
            Option::Some(Key::F3)
        } else if b2 == 0x53 {
            Option::Some(Key::F4)
        } else {
            Option::None
        }
    } else {
        Option::None
    }
}

/// The four-byte escape-sequence table: console function keys and the
/// tilde-terminated navigation keys.
pub open spec fn csi4(b0: u8, b1: u8, b2: u8, b3: u8) -> Option<Key> {
    if b0 != 0x1B || b1 != 0x5B {
        Option::None
    } else if b2 == 0x5B {
        if b3 == 0x41 {
            Option::Some(Key::F1)
        } else if b3 == 0x42 {
            Option::Some(Key::F2)
        } else if b3 == 0x43 {
            Option::Some(Key::F3)
        } else if b3 == 0x44 {
            Option::Some(Key::F4)
        } else if b3 == 0x45 {
            Option::Some(Key::F5)
        } else {
            Option::None
        }
    } else if b3 == 0x7E {
        if b2 == 0x32 {
            Option::Some(Key::Paste)
        } else if b2 == 0x35 {
            Option::Some(Key::PageUp)
        } else if b2 == 0x36 {
            Option::Some(Key::PageDown)
        } else if b2 == 0x33 {
            Option::Some(Key::Delete)
        } else if b2 == 0x31 {
            Option::Some(Key::Home)
        } else if b2 == 0x34 {
            Option::Some(Key::End)
        } else {
            Option::None
        }
    } else {
        Option::None
    }
}

/// The five-byte escape-sequence table: the higher function keys.
pub open spec fn csi5(b0: u8, b1: u8, b2: u8, b3: u8, b4: u8) -> Option<Key> {
    if b0 != 0x1B || b1 != 0x5B || b4 != 0x7E {
        Option::None
    } else if b2 == 0x31 {
        if b3 == 0x35 {
            Option::Some(Key::F5)
        } else if b3 == 0x37 {
            Option::Some(Key::F6)
        } else if b3 == 0x38 {
            Option::Some(Key::F7)
        } else if b3 == 0x39 {
            Option::Some(Key::F8)
        } else {
            Option::None
        }
    } else if b2 == 0x32 {
        if b3 == 0x30 {
            Option::Some(Key::F9)
        } else if b3 == 0x31 {
            Option::Some(Key::F10)
        } else if b3 == 0x33 {
            Option::Some(Key::F11)
        } else if b3 == 0x34 {
            Option::Some(Key::F12)
        } else {
            Option::None
        }
    } else {
        Option::None
    }
}

/// The UTF-8 fallback: exactly one decoded scalar yields that literal
/// character; anything else is unrecognized.
pub open spec fn utf8_key(s: Seq<u8>) -> Key {
    if valid_utf8(s) && decode_utf8(s).len() == 1 {
        Key::Char(decode_utf8(s)[0])
    } else {
        Key::Unknown
    }
}

/// The modified-key fallback: an escape byte followed by anything but
/// `[` that decodes to one character is that character Alt-modified;
/// otherwise plain UTF-8 decoding applies.
pub open spec fn mod_or_utf8_key(s: Seq<u8>) -> Key {
    if s.len() == 0 {
        Key::Unknown
    } else if s.len() >= 2 && s[0] == 0x1B && s[1] != 0x5B {
        match utf8_key(s.skip(1)) {
            Key::Char(c) => Key::Alt(c),
            _ => Key::Unknown,
        }
    } else {
        utf8_key(s)
    }
}

/// What a byte sequence, taken in full, decodes to: the escape tables by
/// length first, then the modified-key and UTF-8 fallbacks. The empty
/// sequence signals end of input; anything over five bytes is never a
/// single key.
pub open spec fn key_of(s: Seq<u8>) -> Key {
    if s.len() == 0 {
        Key::EOF
    } else if s.len() == 1 {
        match control_key(s[0]) {
            Option::Some(k) => k,
            Option::None => mod_or_utf8_key(s),
        }
    } else if s.len() == 2 {
        mod_or_utf8_key(s)
    } else if s.len() == 3 {
        match csi3(s[0], s[1], s[2]) {
            Option::Some(k) => k,
            Option::None => mod_or_utf8_key(s),
        }
    } else if s.len() == 4 {
        match csi4(s[0], s[1], s[2], s[3]) {
            Option::Some(k) => k,
            Option::None => mod_or_utf8_key(s),
        }
    } else if s.len() == 5 {
        match csi5(s[0], s[1], s[2], s[3], s[4]) {
            Option::Some(k) => k,
            Option::None => mod_or_utf8_key(s),
        }
    } else {
        Key::Unknown
    }
}

/// The longest prefix of length at most `e` that decodes to a recognized
/// key, or zero when every such prefix is unrecognized.
pub open spec fn best_prefix_upto(s: Seq<u8>, e: int) -> int
    decreases e,
{
    if e <= 0 {
        0
    } else if key_of(s.take(e)) != Key::Unknown {
        e
    } else {
        best_prefix_upto(s, e - 1)
    }
}

/// The longest recognized prefix of the whole sequence.
pub open spec fn best_prefix(s: Seq<u8>) -> int {
    best_prefix_upto(s, s.len() as int)
}

/// Relies on `str::from_utf8`: it succeeds exactly on valid UTF-8 and
/// yields the string of those bytes, whose characters are their decoding.
#[verifier::external_body]
fn bytes_to_str(v: &[u8]) -> (r: Option<&str>)
    ensures
        r.is_some() <==> valid_utf8(v@),
        r matches Option::Some(s) ==> s@ == decode_utf8(v@),
{
    std::str::from_utf8(v).ok()
}

/// Decodes a byte sequence as UTF-8: exactly one scalar value yields a
/// literal-character key, anything else is unrecognized.
fn utf8_or_bust(buf: &[u8]) -> (k: Key)
    ensures
        k == utf8_key(buf@),
{
    match bytes_to_str(buf) {
        Option::None => Key::Unknown,
        Option::Some(s) => {
            let cs = str_chars(s);
            if cs.len() == 1 {
                Key::Char(cs[0])
            } else {
                Key::Unknown
            }
        },
    }
}

/// Decodes the Alt-modified and plain UTF-8 fallbacks.
fn read_mod_or_utf8(buf: &[u8]) -> (k: Key)
    ensures
        k == mod_or_utf8_key(buf@),
{
    if buf.len() == 0 {
        return Key::Unknown;
    }
    if buf.len() >= 2 && buf[0] == 0x1B && buf[1] != 0x5B {
        let rest = slice_subrange(buf, 1, buf.len());
        proof {
            assert(rest@ =~= buf@.skip(1));
        }
        let k = utf8_or_bust(rest);
        return match k {
            Key::Char(c) => Key::Alt(c),
            _ => Key::Unknown,
        };
    }
    utf8_or_bust(buf)
}

/// Decodes a single byte.
pub fn read1(buf: &[u8; 1]) -> (k: Key)
    ensures
        k == key_of(buf@),
{
    let b = buf[0];
    if b == 0x00 {
        Key::Null
    } else if b == 0x09 {
        Key::Tab
    } else if b == 0x1B {
        Key::ESC
    } else if b == 0x0A {
        Key::Enter
    } else if b == 0x7F {
        Key::Backspace
    } else if b < 0x20 {
        Key::Ctrl((b + 0x40) as char)
    } else {
        read_mod_or_utf8(buf.as_slice())
    }
}

/// Decodes a two-byte sequence: only the fallbacks apply.
pub fn read2(buf: &[u8; 2]) -> (k: Key)
    ensures
        k == key_of(buf@),
{
    read_mod_or_utf8(buf.as_slice())
}

/// Decodes a three-byte sequence.
pub fn read3(buf: &[u8; 3]) -> (k: Key)
    ensures
        k == key_of(buf@),
{
    let b0 = buf[0];
    let b1 = buf[1];
    let b2 = buf[2];
    if b0 == 0x1B && b1 == 0x5B {
        if b2 == 0x48 {
            return Key::Home;
        }
        if b2 == 0x46 {
            return Key::End;
        }
        if b2 == 0x41 {
            return Key::Up;
        }
        if b2 == 0x42 {
            return Key::Down;
        }
        if b2 == 0x44 {
            return Key::Left;
        }
        if b2 == 0x43 {
            return Key::Right;
        }
        if b2 == 0x50 {
            return Key::Pause;
        }
    }
    if b0 == 0x1B && b1 == 0x4F {
        if b2 == 0x50 {
            return Key::F1;
        }
        if b2 == 0x51 {
            return Key::F2;
        }
        if b2 == 0x52 {
            return Key::F3;
        }
        if b2 == 0x53 {
            return Key::F4;
        }
    }
    read_mod_or_utf8(buf.as_slice())
}

/// Decodes a four-byte sequence.
pub fn read4(buf: &[u8; 4]) -> (k: Key)
    ensures
        k == key_of(buf@),
{
    let b0 = buf[0];
    let b1 = buf[1];
    let b2 = buf[2];
    let b3 = buf[3];
    if b0 == 0x1B && b1 == 0x5B {
        if b2 == 0x5B {
            if b3 == 0x41 {
                return Key::F1;
            }
            if b3 == 0x42 {
                return Key::F2;
            }
            if b3 == 0x43 {
                return Key::F3;
            }
            if b3 == 0x44 {
                return Key::F4;
            }
            if b3 == 0x45 {
                return Key::F5;
            }
        }
        if b3 == 0x7E {
            if b2 == 0x32 {
                return Key::Paste;
            }
            if b2 == 0x35 {
                return Key::PageUp;
            }
            if b2 == 0x36 {
                return Key::PageDown;
            }
            if b2 == 0x33 {
                return Key::Delete;
            }
            if b2 == 0x31 {
                return Key::Home;
            }
            if b2 == 0x34 {
                return Key::End;
            }
        }
    }
    read_mod_or_utf8(buf.as_slice())
}

/// Decodes a five-byte sequence.
pub fn read5(buf: &[u8; 5]) -> (k: Key)
    ensures
        k == key_of(buf@),
{
    let b0 = buf[0];
    let b1 = buf[1];
    let b2 = buf[2];
    let b3 = buf[3];
    let b4 = buf[4];
    if b0 == 0x1B && b1 == 0x5B && b4 == 0x7E {
        if b2 == 0x31 {
            if b3 == 0x35 {
                return Key::F5;
            }
            if b3 == 0x37 {
                return Key::F6;
            }
            if b3 == 0x38 {
                return Key::F7;
            }
            if b3 == 0x39 {
                return Key::F8;
            }
        }
        if b2 == 0x32 {
            if b3 == 0x30 {
                return Key::F9;
            }
            if b3 == 0x31 {
                return Key::F10;
            }
            if b3 == 0x33 {
                return Key::F11;
            }
            if b3 == 0x34 {
                return Key::F12;
            }
        }
    }
    read_mod_or_utf8(buf.as_slice())
}

/// Decodes a byte sequence taken in full, dispatching on its length.
pub fn process_single_key(key: &[u8]) -> (k: Key)
    ensures
        k == key_of(key@),
{
    let n = key.len();
    if n == 0 {
        Key::EOF
    } else if n == 1 {
        let a = [key[0]];
        proof {
            assert(a@ =~= key@);
        }
        read1(&a)
    } else if n == 2 {
        let a = [key[0], key[1]];
        proof {
            assert(a@ =~= key@);
        }
        read2(&a)
    } else if n == 3 {
        let a = [key[0], key[1], key[2]];
        proof {
            assert(a@ =~= key@);
        }
        read3(&a)
    } else if n == 4 {
        let a = [key[0], key[1], key[2], key[3]];
        proof {
            assert(a@ =~= key@);
        }
        read4(&a)
    } else if n == 5 {
        let a = [key[0], key[1], key[2], key[3], key[4]];
        proof {
            assert(a@ =~= key@);
        }
        read5(&a)
    } else {
        Key::Unknown
    }
}

/// Tries to resolve the buffered bytes alone: the longest recognized
/// prefix wins; the unmatched trailing bytes are shifted to the front of
/// the returned residue buffer.
pub fn find_possible_key(key: &[u8; MAX_KEY_LEN], valid_bytes: usize) -> (r: Option<
    (Key, [u8; MAX_KEY_LEN], usize),
>)
    requires
        valid_bytes <= MAX_KEY_LEN,
    ensures
        ({
            let s = key@.take(valid_bytes as int);
            let e = best_prefix(s);
            match r {
                Option::None => e == 0,
                Option::Some((k, rest, fill)) => {
                    &&& e >= 1
                    &&& k == key_of(key@.take(e))
                    &&& k != Key::Unknown
                    &&& fill as int == valid_bytes - e
                    &&& rest@.take(fill as int) == key@.subrange(e, valid_bytes as int)
                    &&& forall|j: int| fill <= j < MAX_KEY_LEN ==> rest@[j] == 0
                },
            }
        }),
{
    let ghost s = key@.take(valid_bytes as int);
    if valid_bytes == 0 {
        return Option::None;
    }
    let mut eaten: usize = valid_bytes;
    while eaten >= 1
        invariant
            0 <= eaten <= valid_bytes,
            valid_bytes <= MAX_KEY_LEN,
            s == key@.take(valid_bytes as int),
            best_prefix(s) == best_prefix_upto(s, eaten as int),
        decreases eaten,
    {
        let prefix = slice_subrange(key.as_slice(), 0, eaten);
        proof {
            assert(prefix@ =~= key@.take(eaten as int));
            assert(s.take(eaten as int) =~= key@.take(eaten as int));
        }
        let k = process_single_key(prefix);
        if k != Key::Unknown {
            let mut rest: [u8; MAX_KEY_LEN] = [0u8;MAX_KEY_LEN];
            let fill = valid_bytes - eaten;
            let mut i: usize = 0;
            while i < fill
                invariant
                    0 <= i <= fill,
                    fill == valid_bytes - eaten,
                    1 <= eaten <= valid_bytes <= MAX_KEY_LEN,
                    forall|j: int| 0 <= j < i ==> rest@[j] == key@[eaten + j],
                    forall|j: int| i <= j < MAX_KEY_LEN ==> rest@[j] == 0,
                decreases fill - i,
            {
                rest[i] = key[eaten + i];
                i = i + 1;
            }
            proof {
                assert(rest@.take(fill as int) =~= key@.subrange(
                    eaten as int,
                    valid_bytes as int,
                ));
            }
            return Option::Some((k, rest, fill));
        }
        eaten = eaten - 1;
    }
    Option::None
}

/// One decoder step after a read on the byte source. Fresh bytes extend
/// the buffer and the longest recognized prefix is resolved, an
/// unrecognized buffer is discarded whole, end of input clears the state,
/// and an interruption preserves it so the caller can retry without
/// loss. Returns the key event, the new residue buffer, and its fill.
pub fn decode_read(key: [u8; MAX_KEY_LEN], filled: usize, outcome: ReadOutcome) -> (r: (
    Key,
    [u8; MAX_KEY_LEN],
    usize,
))
    requires
        filled <= MAX_KEY_LEN,
        outcome matches ReadOutcome::Data(n) ==> filled + n <= MAX_KEY_LEN,
    ensures
        r.2 <= MAX_KEY_LEN,
        (match outcome {
            ReadOutcome::EndOfInput => {
                &&& r.0 == Key::EOF
                &&& r.2 == 0
                &&& forall|j: int| 0 <= j < MAX_KEY_LEN ==> r.1@[j] == 0
            },
            ReadOutcome::Interrupted => {
                &&& r.0 == Key::Interupt
                &&& r.1 == key
                &&& r.2 == filled
            },
            ReadOutcome::Failed => {
                &&& r.0 == Key::Unknown
                &&& r.2 == 0
                &&& forall|j: int| 0 <= j < MAX_KEY_LEN ==> r.1@[j] == 0
            },
            ReadOutcome::Data(n) => {
                let s = key@.take((filled + n) as int);
                let e = best_prefix(s);
                if e == 0 {
                    r.0 == Key::Unknown && r.2 == 0 && (forall|j: int|
                        0 <= j < MAX_KEY_LEN ==> r.1@[j] == 0)
                } else {
                    r.0 == key_of(key@.take(e)) && r.0 != Key::Unknown && r.2 as int == filled + n
                        - e && r.1@.take(r.2 as int) == key@.subrange(e, (filled + n) as int)
                }
            },
        }),
{
    match outcome {
        ReadOutcome::EndOfInput => (Key::EOF, [0u8;MAX_KEY_LEN], 0),
        ReadOutcome::Interrupted => (Key::Interupt, key, filled),
        ReadOutcome::Failed => (Key::Unknown, [0u8;MAX_KEY_LEN], 0),
        ReadOutcome::Data(n) => {
            let valid = filled + n;
            match find_possible_key(&key, valid) {
                Option::Some(r) => r,
                Option::None => (Key::Unknown, [0u8;MAX_KEY_LEN], 0),
            }
        },
    }
}

} // verus!
