//! `key = value` lines. A key is a run of ASCII letters; the recognized
//! keys map to typed fields, and every other key is kept verbatim with its
//! raw value so unknown metadata survives a round trip.

use vstd::prelude::*;
use vstd::string::StrSliceExecFns;

use crate::error::FormatError;
use crate::values::{spec_atom, atom, Decimal, Value, ValueView};

verus! {

/// A recognized key of the description grammar, or any other word.
#[derive(Debug, Clone, PartialEq, Eq)]
pub enum Key {
    Version,
    Width,
    Height,
    State,
    Dirs,
    Frames,
    Delay,
    Loop,
    Rewind,
    Movement,
    Hotspot,
    Unk(String),
}

/// The mathematical shape of a [`Key`].
pub enum KeyView {
    Version,
    Width,
    Height,
    State,
    Dirs,
    Frames,
    Delay,
    Loop,
    Rewind,
    Movement,
    Hotspot,
    Unk(Seq<char>),
}

impl View for Key {
    type V = KeyView;

    open spec fn view(&self) -> KeyView {
        match self {
            Key::Version => KeyView::Version,
            Key::Width => KeyView::Width,
            Key::Height => KeyView::Height,
            Key::State => KeyView::State,
            Key::Dirs => KeyView::Dirs,
            Key::Frames => KeyView::Frames,
            Key::Delay => KeyView::Delay,
            Key::Loop => KeyView::Loop,
            Key::Rewind => KeyView::Rewind,
            Key::Movement => KeyView::Movement,
            Key::Hotspot => KeyView::Hotspot,
            Key::Unk(w) => KeyView::Unk(w@),
        }
    }
}

pub open spec fn is_alpha(c: char) -> bool {
    (65 <= c as u32 <= 90) || (97 <= c as u32 <= 122)
}

/// The position just after the run of ASCII letters starting at `i`.
pub open spec fn alpha_run_end(s: Seq<char>, i: int) -> int
    recommends
        0 <= i <= s.len(),
    decreases s.len() - i,
        when 0 <= i <= s.len()
{
    if i >= s.len() || !is_alpha(s[i]) {
        i
    } else {
        alpha_run_end(s, i + 1)
    }
}

pub proof fn lemma_alpha_run_end_bounds(s: Seq<char>, i: int)
    requires
        0 <= i <= s.len(),
    ensures
        i <= alpha_run_end(s, i) <= s.len(),
    decreases s.len() - i,
{
    if !(i >= s.len() || !is_alpha(s[i])) {
        lemma_alpha_run_end_bounds(s, i + 1);
    }
}

/// Finds the end of the letter run starting at `i`.
fn scan_alpha(s: &str, i: usize, n: usize) -> (j: usize)
    requires
        i <= n,
        n == s@.len(),
    ensures
        j as int == alpha_run_end(s@, i as int),
{
    let mut j: usize = i;
    loop
        invariant
            i <= j <= n,
            n == s@.len(),
            alpha_run_end(s@, i as int) == alpha_run_end(s@, j as int),
        decreases n - j,
    {
        if j >= n {
            return j;
        }
        let c = s.get_char(j);
        let u = c as u32;
        if !((65 <= u && u <= 90) || (97 <= u && u <= 122)) {
            return j;
        }
        j = j + 1;
    }
}

/// Whether the characters of `s[i..j]` spell exactly `lit`.
pub(crate) fn str_range_eq(s: &str, i: usize, j: usize, lit: &str) -> (r: bool)
    requires
        i <= j <= s@.len(),
    ensures
        r == (s@.subrange(i as int, j as int) == lit@),
{
    let m = lit.unicode_len();
    if j - i != m {
        assert(s@.subrange(i as int, j as int).len() != lit@.len());
        return false;
    }
    let mut k: usize = 0;
    while k < m
        invariant
            0 <= k <= m,
            i <= j <= s@.len(),
            j - i == m,
            m == lit@.len(),
            forall|x: int| 0 <= x < k ==> s@[i + x] == lit@[x],
        decreases m - k,
    {
        if s.get_char(i + k) != lit.get_char(k) {
            assert(s@.subrange(i as int, j as int)[k as int] != lit@[k as int]);
            return false;
        }
        k = k + 1;
    }
    assert(s@.subrange(i as int, j as int) =~= lit@);
    true
}

/// The key a word of letters names.
pub open spec fn spec_key_word(w: Seq<char>) -> KeyView {
    if w == "version"@ {
        KeyView::Version
    } else if w == "width"@ {
        KeyView::Width
    } else if w == "height"@ {
        KeyView::Height
    } else if w == "state"@ {
        KeyView::State
    } else if w == "dirs"@ {
        KeyView::Dirs
    } else if w == "frames"@ {
        KeyView::Frames
    } else if w == "delay"@ {
        KeyView::Delay
    } else if w == "loop"@ {
        KeyView::Loop
    } else if w == "rewind"@ {
        KeyView::Rewind
    } else if w == "movement"@ {
        KeyView::Movement
    } else if w == "hotspot"@ {
        KeyView::Hotspot
    } else {
        KeyView::Unk(w)
    }
}

/// A key: one or more ASCII letters.
pub open spec fn spec_key(s: Seq<char>, i: int) -> Option<(int, KeyView)>
    recommends
        0 <= i <= s.len(),
{
    let j = alpha_run_end(s, i);
    if j == i {
        None
    } else {
        Some((j, spec_key_word(s.subrange(i, j))))
    }
}

/// Parses a key word.
pub fn key(s: &str, i: usize, n: usize) -> (r: Option<(usize, Key)>)
    requires
        i <= n,
        n == s@.len(),
    ensures
        match (r, spec_key(s@, i as int)) {
            (Some((j, v)), Some((k, w))) => j as int == k && v@ == w,
            (None, None) => true,
            _ => false,
        },
{
    let j = scan_alpha(s, i, n);
    proof {
        lemma_alpha_run_end_bounds(s@, i as int);
    }
    if j == i {
        return None;
    }
    let k = if str_range_eq(s, i, j, "version") {
        Key::Version
    } else if str_range_eq(s, i, j, "width") {
        Key::Width
    } else if str_range_eq(s, i, j, "height") {
        Key::Height
    } else if str_range_eq(s, i, j, "state") {
        Key::State
    } else if str_range_eq(s, i, j, "dirs") {
        Key::Dirs
    } else if str_range_eq(s, i, j, "frames") {
        Key::Frames
    } else if str_range_eq(s, i, j, "delay") {
        Key::Delay
    } else if str_range_eq(s, i, j, "loop") {
        Key::Loop
    } else if str_range_eq(s, i, j, "rewind") {
        Key::Rewind
    } else if str_range_eq(s, i, j, "movement") {
        Key::Movement
    } else if str_range_eq(s, i, j, "hotspot") {
        Key::Hotspot
    } else {
        Key::Unk(String::from_str(s.substring_char(i, j)))
    };
    Some((j, k))
}

/// How many of the eight directions a state is drawn for.
#[derive(Clone, Copy, Debug, PartialEq, Eq, Hash, Structural)]
pub enum Dirs {
    One,
    Four,
    Eight,
}

/// The cardinality a [`Dirs`] stands for.
pub open spec fn spec_dirs_num(d: Dirs) -> u32 {
    match d {
        Dirs::One => 1,
        Dirs::Four => 4,
        Dirs::Eight => 8,
    }
}

/// The direction count an integer declares, if any.
pub open spec fn spec_dirs_from(value: u32) -> Option<Dirs> {
    match value {
        1u32 => Some(Dirs::One),
        4u32 => Some(Dirs::Four),
        8u32 => Some(Dirs::Eight),
        _ => None,
    }
}

impl Dirs {
    pub fn get_num(&self) -> (r: u32)
        ensures
            r == spec_dirs_num(*self),
    {
        match self {
            Dirs::One => 1,
            Dirs::Four => 4,
            Dirs::Eight => 8,
        }
    }

    /// The direction count an integer declares; one, four and eight are the
    /// only valid values.
    pub fn try_from(value: u32) -> (r: Result<Dirs, FormatError>)
        ensures
            match spec_dirs_from(value) {
                Some(d) => r == Ok::<Dirs, FormatError>(d),
                None => r == Err::<Dirs, FormatError>(FormatError::InvalidDirs),
            },
    {
        match value {
            1 => Ok(Dirs::One),
            4 => Ok(Dirs::Four),
            8 => Ok(Dirs::Eight),
            _ => Err(FormatError::InvalidDirs),
        }
    }
}

/// A typed `key = value` pair.
#[derive(Debug, Clone, PartialEq)]
pub enum KeyValue {
    Version(Decimal),
    Width(u32),
    Height(u32),
    State(String),
    Dirs(Dirs),
    Frames(u32),
    Delay(Vec<Decimal>),
    Loop(bool),
    Rewind(bool),
    Movement(bool),
    Hotspot(Vec<Decimal>),
    Unk(String, Value),
}

/// The mathematical shape of a [`KeyValue`].
pub enum KeyValueView {
    Version(Decimal),
    Width(u32),
    Height(u32),
    State(Seq<char>),
    Dirs(Dirs),
    Frames(u32),
    Delay(Seq<Decimal>),
    Loop(bool),
    Rewind(bool),
    Movement(bool),
    Hotspot(Seq<Decimal>),
    Unk(Seq<char>, ValueView),
}

impl View for KeyValue {
    type V = KeyValueView;

    open spec fn view(&self) -> KeyValueView {
        match self {
            KeyValue::Version(d) => KeyValueView::Version(*d),
            KeyValue::Width(x) => KeyValueView::Width(*x),
            KeyValue::Height(x) => KeyValueView::Height(*x),
            KeyValue::State(t) => KeyValueView::State(t@),
            KeyValue::Dirs(d) => KeyValueView::Dirs(*d),
            KeyValue::Frames(x) => KeyValueView::Frames(*x),
            KeyValue::Delay(l) => KeyValueView::Delay(l@),
            KeyValue::Loop(b) => KeyValueView::Loop(*b),
            KeyValue::Rewind(b) => KeyValueView::Rewind(*b),
            KeyValue::Movement(b) => KeyValueView::Movement(*b),
            KeyValue::Hotspot(l) => KeyValueView::Hotspot(l@),
            KeyValue::Unk(w, v) => KeyValueView::Unk(w@, v@),
        }
    }
}

/// The typed pair a key and a value literal combine to; mismatched
/// combinations, and `dirs` counts other than one, four or eight, combine
/// to nothing and fail the line.
pub open spec fn spec_combine(k: KeyView, v: ValueView) -> Option<KeyValueView> {
    match (k, v) {
        (KeyView::Version, ValueView::Float(d)) => Some(KeyValueView::Version(d)),
        (KeyView::Width, ValueView::Int(x)) => Some(KeyValueView::Width(x)),
        (KeyView::Height, ValueView::Int(x)) => Some(KeyValueView::Height(x)),
        (KeyView::State, ValueView::Text(t)) => Some(KeyValueView::State(t)),
        (KeyView::Dirs, ValueView::Int(x)) => match spec_dirs_from(x) {
            Some(d) => Some(KeyValueView::Dirs(d)),
            None => None,
        },
        (KeyView::Frames, ValueView::Int(x)) => Some(KeyValueView::Frames(x)),
        (KeyView::Delay, ValueView::List(l)) => Some(KeyValueView::Delay(l)),
        (KeyView::Loop, ValueView::Int(x)) => Some(KeyValueView::Loop(x > 0)),
        (KeyView::Rewind, ValueView::Int(x)) => Some(KeyValueView::Rewind(x > 0)),
        (KeyView::Movement, ValueView::Int(x)) => Some(KeyValueView::Movement(x > 0)),
        (KeyView::Hotspot, ValueView::List(l)) => Some(KeyValueView::Hotspot(l)),
        (KeyView::Unk(w), value) => Some(KeyValueView::Unk(w, value)),
        _ => None,
    }
}

/// A whole `key = value` line body: a key, the exact separator
/// <code>&nbsp;=&nbsp;</code>, and a value the key accepts.
pub open spec fn spec_key_value(s: Seq<char>, i: int) -> Option<(int, KeyValueView)>
    recommends
        0 <= i <= s.len(),
{
    match spec_key(s, i) {
        None => None,
        Some((j, k)) => if j + 3 <= s.len() && s[j] == ' ' && s[j + 1] == '=' && s[j + 2] == ' ' {
            match spec_atom(s, j + 3) {
                None => None,
                Some((e, v)) => match spec_combine(k, v) {
                    None => None,
                    Some(kv) => Some((e, kv)),
                },
            }
        } else {
            None
        },
    }
}

/// A successful line parse always consumes at least one character and
/// never runs past the input.
pub proof fn lemma_spec_key_value_advances(s: Seq<char>, i: int)
    requires
        0 <= i <= s.len(),
    ensures
        match spec_key_value(s, i) {
            Some((j, _)) => i < j <= s.len(),
            None => true,
        },
{
    lemma_alpha_run_end_bounds(s, i);
    match spec_key(s, i) {
        Some((j, _)) => {
            if j + 3 <= s.len() && s[j] == ' ' && s[j + 1] == '=' && s[j + 2] == ' ' {
                crate::values::lemma_spec_atom_advances(s, j + 3);
            }
        },
        None => {},
    }
}

/// Parses one `key = value` pair.
pub fn key_value(s: &str, i: usize, n: usize) -> (r: Option<(usize, KeyValue)>)
    requires
        i <= n,
        n == s@.len(),
    ensures
        match (r, spec_key_value(s@, i as int)) {
            (Some((j, v)), Some((k, w))) => j as int == k && v@ == w,
            (None, None) => true,
            _ => false,
        },
{
    let (j, k) = match key(s, i, n) {
        Some(r) => r,
        None => {
            return None;
        },
    };
    proof {
        lemma_alpha_run_end_bounds(s@, i as int);
    }
    if !(n - j >= 3 && s.get_char(j) == ' ' && s.get_char(j + 1) == '=' && s.get_char(j + 2)
        == ' ') {
        return None;
    }
    let (e, v) = match atom(s, j + 3, n) {
        Some(r) => r,
        None => {
            return None;
        },
    };
    match combine(k, v) {
        Some(kv) => Some((e, kv)),
        None => None,
    }
}

/// Combines a key with a value literal, or rejects the pairing.
fn combine(k: Key, v: Value) -> (r: Option<KeyValue>)
    ensures
        match (r, spec_combine(k@, v@)) {
            (Some(kv), Some(w)) => kv@ == w,
            (None, None) => true,
            _ => false,
        },
{
    match (k, v) {
        (Key::Version, Value::Float(d)) => Some(KeyValue::Version(d)),
        (Key::Width, Value::Int(x)) => Some(KeyValue::Width(x)),
        (Key::Height, Value::Int(x)) => Some(KeyValue::Height(x)),
        (Key::State, Value::Text(t)) => Some(KeyValue::State(t)),
        (Key::Dirs, Value::Int(x)) => match Dirs::try_from(x) {
            Ok(d) => Some(KeyValue::Dirs(d)),
            Err(_) => None,
        },
        (Key::Frames, Value::Int(x)) => Some(KeyValue::Frames(x)),
        (Key::Delay, Value::List(l)) => Some(KeyValue::Delay(l)),
        (Key::Loop, Value::Int(x)) => Some(KeyValue::Loop(x > 0)),
        (Key::Rewind, Value::Int(x)) => Some(KeyValue::Rewind(x > 0)),
        (Key::Movement, Value::Int(x)) => Some(KeyValue::Movement(x > 0)),
        (Key::Hotspot, Value::List(l)) => Some(KeyValue::Hotspot(l)),
        (Key::Unk(w), value) => Some(KeyValue::Unk(w, value)),
        _ => None,
    }
}

} // verus!
