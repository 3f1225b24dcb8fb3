//! One animation state: a named block of `key = value` lines.
//!
//! A block begins with a `state` line and continues with indented lines.
//! `dirs` is required; `frames` and `delay` may each appear once, and a
//! `delay` list is only meaningful under a declared `frames`; `loop`,
//! `rewind` and `movement` are nonzero-means-true flags; `hotspot` must
//! list exactly three numbers; recognized keys of the header are rejected
//! here. Unrecognized keys are kept verbatim, later values replacing
//! earlier ones of the same key.

use vstd::prelude::*;
use vstd::string::StrSliceExecFns;

use crate::error::FormatError;
use crate::key_value::{
    key_value, spec_dirs_num, spec_key_value, Dirs, KeyValue, KeyValueView,
};
use crate::values::{Decimal, Value, ValueView};

verus! {

/// How many frames a state draws: exactly one, a declared count, or one
/// frame per entry of an explicit delay list.
#[derive(Debug, Clone, PartialEq)]
pub enum Frames {
    One,
    Count(u32),
    Delays(Vec<Decimal>),
}

/// The mathematical shape of a [`Frames`].
pub enum FramesView {
    One,
    Count(u32),
    Delays(Seq<Decimal>),
}

impl View for Frames {
    type V = FramesView;

    open spec fn view(&self) -> FramesView {
        match self {
            Frames::One => FramesView::One,
            Frames::Count(n) => FramesView::Count(*n),
            Frames::Delays(l) => FramesView::Delays(l@),
        }
    }
}

/// The number of logical frames a [`FramesView`] stands for.
pub open spec fn spec_frame_count(f: FramesView) -> nat {
    match f {
        FramesView::One => 1,
        FramesView::Count(n) => n as nat,
        FramesView::Delays(l) => l.len(),
    }
}

/// The view of a run of kept unknown keys.
pub open spec fn kv_pairs_view(s: Seq<(String, Value)>) -> Seq<(Seq<char>, ValueView)> {
    s.map_values(|p: (String, Value)| (p.0@, p.1@))
}

/// The view of a sequence of parsed lines.
pub open spec fn kv_seq_view(s: Seq<KeyValue>) -> Seq<KeyValueView> {
    s.map_values(|kv: KeyValue| kv@)
}

/// The views of a sequence of states.
pub open spec fn state_seq_view(s: Seq<State>) -> Seq<StateView> {
    s.map_values(|st: State| st@)
}

/// A named animation state.
#[derive(Debug, Clone, PartialEq)]
pub struct State {
    pub name: String,
    pub dirs: Dirs,
    pub frames: Frames,
    pub looping: bool,
    pub rewind: bool,
    pub movement: bool,
    pub hotspot: Option<(Decimal, Decimal, Decimal)>,
    pub unk: Option<Vec<(String, Value)>>,
}

/// The mathematical shape of a [`State`].
pub struct StateView {
    pub name: Seq<char>,
    pub dirs: Dirs,
    pub frames: FramesView,
    pub looping: bool,
    pub rewind: bool,
    pub movement: bool,
    pub hotspot: Option<(Decimal, Decimal, Decimal)>,
    pub unk: Option<Seq<(Seq<char>, ValueView)>>,
}

impl View for State {
    type V = StateView;

    open spec fn view(&self) -> StateView {
        StateView {
            name: self.name@,
            dirs: self.dirs,
            frames: self.frames@,
            looping: self.looping,
            rewind: self.rewind,
            movement: self.movement,
            hotspot: self.hotspot,
            unk: match &self.unk {
                Some(v) => Some(kv_pairs_view(v@)),
                None => None,
            },
        }
    }
}

/// The number of sheet cells a state occupies: directions times frames.
pub open spec fn spec_cell_count(st: StateView) -> nat {
    (spec_dirs_num(st.dirs) * spec_frame_count(st.frames)) as nat
}

impl State {
    /// Whether the state has more than one logical frame.
    pub fn is_animated(&self) -> (r: bool)
        ensures
            r == (spec_frame_count(self@.frames) > 1),
    {
        match &self.frames {
            Frames::One => false,
            Frames::Count(n) => *n > 1,
            Frames::Delays(l) => l.len() > 1,
        }
    }

    /// The number of logical frames.
    pub fn frame_count(&self) -> (r: usize)
        ensures
            r == spec_frame_count(self@.frames),
    {
        match &self.frames {
            Frames::One => 1,
            Frames::Count(n) => *n as usize,
            Frames::Delays(l) => l.len(),
        }
    }

    /// The number of sheet cells the state occupies.
    pub fn num_sprites(&self) -> (r: usize)
        requires
            spec_cell_count(self@) <= usize::MAX,
        ensures
            r == spec_cell_count(self@),
    {
        let d = self.dirs.get_num() as usize;
        match &self.frames {
            Frames::One => d,
            Frames::Count(n) => d * (*n as usize),
            Frames::Delays(l) => d * l.len(),
        }
    }
}

/// Keeps an unknown key: the first earlier entry of the same key is
/// replaced in place, otherwise the pair goes to the end.
pub open spec fn spec_unk_insert(
    m: Seq<(Seq<char>, ValueView)>,
    k: Seq<char>,
    v: ValueView,
) -> Seq<(Seq<char>, ValueView)>
    decreases m.len(),
{
    if m.len() == 0 {
        seq![(k, v)]
    } else if m[0].0 == k {
        seq![(k, v)] + m.drop_first()
    } else {
        seq![m[0]] + spec_unk_insert(m.drop_first(), k, v)
    }
}

proof fn lemma_unk_insert_hit(m: Seq<(Seq<char>, ValueView)>, k: Seq<char>, v: ValueView, i: int)
    requires
        0 <= i < m.len(),
        m[i].0 == k,
        forall|x: int| 0 <= x < i ==> (#[trigger] m[x]).0 != k,
    ensures
        spec_unk_insert(m, k, v) == m.update(i, (k, v)),
    decreases i,
{
    if i == 0 {
        assert(seq![(k, v)] + m.drop_first() =~= m.update(0, (k, v)));
    } else {
        lemma_unk_insert_hit(m.drop_first(), k, v, i - 1);
        assert(seq![m[0]] + m.drop_first().update(i - 1, (k, v)) =~= m.update(i, (k, v)));
    }
}

proof fn lemma_unk_insert_miss(m: Seq<(Seq<char>, ValueView)>, k: Seq<char>, v: ValueView)
    requires
        forall|x: int| 0 <= x < m.len() ==> (#[trigger] m[x]).0 != k,
    ensures
        spec_unk_insert(m, k, v) == m.push((k, v)),
    decreases m.len(),
{
    if m.len() == 0 {
        assert(seq![(k, v)] =~= m.push((k, v)));
    } else {
        lemma_unk_insert_miss(m.drop_first(), k, v);
        assert(seq![m[0]] + m.drop_first().push((k, v)) =~= m.push((k, v)));
    }
}

/// Inserts an unknown key into the kept run, replacing the first entry of
/// the same key if one exists.
#[verifier::loop_isolation(false)]
pub(crate) fn unk_insert(m: &mut Vec<(String, Value)>, k: String, v: Value)
    ensures
        kv_pairs_view(final(m)@) == spec_unk_insert(kv_pairs_view(old(m)@), k@, v@),
{
    let ghost orig = kv_pairs_view(m@);
    let mut idx: usize = 0;
    loop
        invariant
            0 <= idx <= m@.len(),
            orig == kv_pairs_view(m@),
            forall|x: int| 0 <= x < idx ==> (#[trigger] orig[x]).0 != k@,
        decreases m@.len() - idx,
    {
        if idx >= m.len() {
            proof {
                lemma_unk_insert_miss(orig, k@, v@);
            }
            m.push((k, v));
            proof {
                assert(kv_pairs_view(m@) =~= orig.push((k@, v@)));
            }
            return;
        }
        let hit = m[idx].0 == k;
        if hit {
            proof {
                assert(orig[idx as int].0 == k@);
                lemma_unk_insert_hit(orig, k@, v@, idx as int);
            }
            m.remove(idx);
            m.insert(idx, (k, v));
            proof {
                assert(kv_pairs_view(m@) =~= orig.update(idx as int, (k@, v@)));
            }
            return;
        }
        proof {
            assert(orig[idx as int].0 != k@);
        }
        idx = idx + 1;
    }
}

/// The fields gathered while reading a state block.
pub struct StateAcc {
    pub dirs: Option<Dirs>,
    pub frames: Option<u32>,
    pub delays: Option<Seq<Decimal>>,
    pub looping: bool,
    pub rewind: bool,
    pub movement: bool,
    pub hotspot: Option<(Decimal, Decimal, Decimal)>,
    pub unk: Option<Seq<(Seq<char>, ValueView)>>,
}

/// The gathering before any line is read.
pub open spec fn spec_state_acc_empty() -> StateAcc {
    StateAcc {
        dirs: None,
        frames: None,
        delays: None,
        looping: false,
        rewind: false,
        movement: false,
        hotspot: None,
        unk: None,
    }
}

/// How one line changes the gathering, or which error it raises.
pub open spec fn spec_state_step(acc: StateAcc, kv: KeyValueView) -> Result<StateAcc, FormatError> {
    match kv {
        KeyValueView::Dirs(d) => Ok(StateAcc { dirs: Some(d), ..acc }),
        KeyValueView::Frames(f) => if acc.frames is None {
            Ok(StateAcc { frames: Some(f), ..acc })
        } else {
            Err(FormatError::DuplicateFrames)
        },
        KeyValueView::Delay(l) => if acc.delays is None {
            Ok(StateAcc { delays: Some(l), ..acc })
        } else {
            Err(FormatError::DuplicateDelay)
        },
        KeyValueView::Loop(b) => Ok(StateAcc { looping: b, ..acc }),
        KeyValueView::Rewind(b) => Ok(StateAcc { rewind: b, ..acc }),
        KeyValueView::Movement(b) => Ok(StateAcc { movement: b, ..acc }),
        KeyValueView::Hotspot(l) => if l.len() == 3 {
            Ok(StateAcc { hotspot: Some((l[0], l[1], l[2])), ..acc })
        } else {
            Err(FormatError::BadHotspot)
        },
        KeyValueView::Unk(k, v) => Ok(
            StateAcc {
                unk: Some(
                    spec_unk_insert(
                        match acc.unk {
                            Some(u) => u,
                            None => Seq::empty(),
                        },
                        k,
                        v,
                    ),
                ),
                ..acc
            },
        ),
        _ => Err(FormatError::MisplacedKey),
    }
}

/// The gathering over a whole block, stopping at the first error.
pub open spec fn spec_state_fold(acc: StateAcc, kvs: Seq<KeyValueView>) -> Result<
    StateAcc,
    FormatError,
>
    decreases kvs.len(),
{
    if kvs.len() == 0 {
        Ok(acc)
    } else {
        match spec_state_step(acc, kvs[0]) {
            Err(e) => Err(e),
            Ok(a) => spec_state_fold(a, kvs.drop_first()),
        }
    }
}

/// The finished state a gathering settles to: `dirs` must have been seen,
/// and a `delay` list demands a declared `frames`. With a delay list the
/// list itself carries the frame count; a declared count of one is the
/// single-frame shape.
pub open spec fn spec_finish_state(name: Seq<char>, acc: StateAcc) -> Result<
    StateView,
    FormatError,
> {
    match acc.dirs {
        None => Err(FormatError::MissingDirs),
        Some(d) => match (acc.frames, acc.delays) {
            (None, Some(_)) => Err(FormatError::DelayWithoutFrames),
            (declared, delays) => Ok(
                StateView {
                    name: name,
                    dirs: d,
                    frames: match (declared, delays) {
                        (_, Some(l)) => FramesView::Delays(l),
                        (Some(n), None) => if n == 1 {
                            FramesView::One
                        } else {
                            FramesView::Count(n)
                        },
                        (None, None) => FramesView::One,
                    },
                    looping: acc.looping,
                    rewind: acc.rewind,
                    movement: acc.movement,
                    hotspot: acc.hotspot,
                    unk: acc.unk,
                },
            ),
        },
    }
}

/// The state a named block of lines builds, or the first error in it.
pub open spec fn spec_build_state(name: Seq<char>, kvs: Seq<KeyValueView>) -> Result<
    StateView,
    FormatError,
> {
    match spec_state_fold(spec_state_acc_empty(), kvs) {
        Err(e) => Err(e),
        Ok(acc) => spec_finish_state(name, acc),
    }
}

/// The exec-side gathering mirroring [`StateAcc`].
struct StateBuilder {
    dirs: Option<Dirs>,
    frames: Option<u32>,
    delays: Option<Vec<Decimal>>,
    looping: bool,
    rewind: bool,
    movement: bool,
    hotspot: Option<(Decimal, Decimal, Decimal)>,
    unk: Option<Vec<(String, Value)>>,
}

impl View for StateBuilder {
    type V = StateAcc;

    closed spec fn view(&self) -> StateAcc {
        StateAcc {
            dirs: self.dirs,
            frames: self.frames,
            delays: match &self.delays {
                Some(l) => Some(l@),
                None => None,
            },
            looping: self.looping,
            rewind: self.rewind,
            movement: self.movement,
            hotspot: self.hotspot,
            unk: match &self.unk {
                Some(v) => Some(kv_pairs_view(v@)),
                None => None,
            },
        }
    }
}

/// Applies one line to the gathering.
fn state_step(b: &mut StateBuilder, kv: KeyValue) -> (r: Result<(), FormatError>)
    ensures
        match spec_state_step(old(b)@, kv@) {
            Ok(a) => r is Ok && final(b)@ == a,
            Err(e) => r == Err::<(), FormatError>(e),
        },
{
    match kv {
        KeyValue::Dirs(d) => {
            b.dirs = Some(d);
            Ok(())
        },
        KeyValue::Frames(f) => {
            if b.frames.is_none() {
                b.frames = Some(f);
                Ok(())
            } else {
                Err(FormatError::DuplicateFrames)
            }
        },
        KeyValue::Delay(l) => {
            if b.delays.is_none() {
                b.delays = Some(l);
                Ok(())
            } else {
                Err(FormatError::DuplicateDelay)
            }
        },
        KeyValue::Loop(v) => {
            b.looping = v;
            Ok(())
        },
        KeyValue::Rewind(v) => {
            b.rewind = v;
            Ok(())
        },
        KeyValue::Movement(v) => {
            b.movement = v;
            Ok(())
        },
        KeyValue::Hotspot(l) => {
            if l.len() == 3 {
                let x = l[0];
                let y = l[1];
                let z = l[2];
                b.hotspot = Some((x, y, z));
                Ok(())
            } else {
                Err(FormatError::BadHotspot)
            }
        },
        KeyValue::Unk(k, v) => {
            if b.unk.is_none() {
                b.unk = Some(Vec::new());
            }
            match &mut b.unk {
                Some(m) => {
                    proof {
                        assert(kv_pairs_view(Seq::<(String, Value)>::empty())
                            =~= Seq::<(Seq<char>, ValueView)>::empty());
                    }
                    unk_insert(m, k, v);
                },
                None => {
                    proof {
                        assert(false);
                    }
                },
            }
            Ok(())
        },
        _ => Err(FormatError::MisplacedKey),
    }
}

impl State {
    /// Builds a state from its name line and the run of lines under it,
    /// enforcing the block's field rules.
    #[verifier::loop_isolation(false)]
    pub fn try_from(state_kv: KeyValue, kvs: Vec<KeyValue>) -> (r: Result<State, FormatError>)
        requires
            state_kv@ is State,
        ensures
            ({
                let name = state_kv@->State_0;
                match (r, spec_build_state(name, kv_seq_view(kvs@))) {
                    (Ok(st), Ok(sv)) => st@ == sv,
                    (Err(e1), Err(e2)) => e1 == e2,
                    _ => false,
                }
            }),
    {
        let name = match state_kv {
            KeyValue::State(n) => n,
            _ => {
                proof {
                    assert(false);
                }
                String::new()
            },
        };
        let mut b = StateBuilder {
            dirs: None,
            frames: None,
            delays: None,
            looping: false,
            rewind: false,
            movement: false,
            hotspot: None,
            unk: None,
        };
        let mut rest = kvs;
        let ghost all = kv_seq_view(rest@);
        proof {
            assert(b@ == spec_state_acc_empty());
        }
        while rest.len() > 0
            invariant
                spec_state_fold(spec_state_acc_empty(), all) == spec_state_fold(
                    b@,
                    kv_seq_view(rest@),
                ),
            decreases rest.len(),
        {
            let ghost before = kv_seq_view(rest@);
            let kv = rest.remove(0);
            proof {
                assert(kv_seq_view(rest@) =~= before.drop_first());
                assert(before[0] == kv@);
            }
            match state_step(&mut b, kv) {
                Ok(_) => {},
                Err(e) => {
                    return Err(e);
                },
            }
        }
        proof {
            assert(kv_seq_view(rest@) =~= Seq::<KeyValueView>::empty());
        }
        let dirs = match b.dirs {
            Some(d) => d,
            None => {
                return Err(FormatError::MissingDirs);
            },
        };
        if b.delays.is_some() && b.frames.is_none() {
            return Err(FormatError::DelayWithoutFrames);
        }
        let frames = match b.delays {
            Some(l) => Frames::Delays(l),
            None => match b.frames {
                Some(n) => if n == 1 {
                    Frames::One
                } else {
                    Frames::Count(n)
                },
                None => Frames::One,
            },
        };
        Ok(
            State {
                name,
                dirs,
                frames,
                looping: b.looping,
                rewind: b.rewind,
                movement: b.movement,
                hotspot: b.hotspot,
                unk: b.unk,
            },
        )
    }
}

pub open spec fn is_space(c: char) -> bool {
    c == ' ' || c == '\t'
}

/// The position just after the run of spaces and tabs starting at `i`.
pub open spec fn space_run_end(s: Seq<char>, i: int) -> int
    recommends
        0 <= i <= s.len(),
    decreases s.len() - i,
        when 0 <= i <= s.len()
{
    if i >= s.len() || !is_space(s[i]) {
        i
    } else {
        space_run_end(s, i + 1)
    }
}

pub proof fn lemma_space_run_end_bounds(s: Seq<char>, i: int)
    requires
        0 <= i <= s.len(),
    ensures
        i <= space_run_end(s, i) <= s.len(),
    decreases s.len() - i,
{
    if !(i >= s.len() || !is_space(s[i])) {
        lemma_space_run_end_bounds(s, i + 1);
    }
}

/// Finds the end of the space run starting at `i`.
pub(crate) fn scan_spaces(s: &str, i: usize, n: usize) -> (j: usize)
    requires
        i <= n,
        n == s@.len(),
    ensures
        j as int == space_run_end(s@, i as int),
{
    let mut j: usize = i;
    loop
        invariant
            i <= j <= n,
            n == s@.len(),
            space_run_end(s@, i as int) == space_run_end(s@, j as int),
        decreases n - j,
    {
        if j >= n {
            return j;
        }
        let c = s.get_char(j);
        if !(c == ' ' || c == '\t') {
            return j;
        }
        j = j + 1;
    }
}

/// One indented line: spaces or tabs, a `key = value` pair, a newline.
pub open spec fn spec_indented_line(s: Seq<char>, i: int) -> Option<(int, KeyValueView)>
    recommends
        0 <= i <= s.len(),
{
    let sp = space_run_end(s, i);
    if sp == i {
        None
    } else {
        match spec_key_value(s, sp) {
            None => None,
            Some((j, kv)) => if j < s.len() && s[j] == '\n' {
                Some((j + 1, kv))
            } else {
                None
            },
        }
    }
}

pub proof fn lemma_spec_indented_line_advances(s: Seq<char>, i: int)
    requires
        0 <= i <= s.len(),
    ensures
        match spec_indented_line(s, i) {
            Some((j, _)) => i < j <= s.len(),
            None => true,
        },
{
    lemma_space_run_end_bounds(s, i);
    let sp = space_run_end(s, i);
    if sp != i {
        crate::key_value::lemma_spec_key_value_advances(s, sp);
    }
}

/// The longest run of indented lines from `i`: where each stops parsing,
/// and what they hold.
pub open spec fn spec_indented_lines(s: Seq<char>, i: int) -> (int, Seq<KeyValueView>)
    recommends
        0 <= i <= s.len(),
    decreases s.len() - i,
        when 0 <= i <= s.len()
{
    match spec_indented_line(s, i) {
        None => (i, Seq::empty()),
        Some((j, kv)) => if i < j <= s.len() {
            let (k, rest) = spec_indented_lines(s, j);
            (k, seq![kv] + rest)
        } else {
            (i, Seq::empty())
        },
    }
}

/// Parses one indented line.
pub(crate) fn indented_line(s: &str, i: usize, n: usize) -> (r: Option<(usize, KeyValue)>)
    requires
        i <= n,
        n == s@.len(),
    ensures
        match (r, spec_indented_line(s@, i as int)) {
            (Some((j, v)), Some((k, w))) => j as int == k && v@ == w,
            (None, None) => true,
            _ => false,
        },
{
    let sp = scan_spaces(s, i, n);
    proof {
        lemma_space_run_end_bounds(s@, i as int);
    }
    if sp == i {
        return None;
    }
    match key_value(s, sp, n) {
        None => None,
        Some((j, kv)) => {
            if j < n && s.get_char(j) == '\n' {
                Some((j + 1, kv))
            } else {
                None
            }
        },
    }
}

/// Parses the longest run of indented lines from `i`.
pub(crate) fn indented_lines(s: &str, i: usize, n: usize) -> (r: (usize, Vec<KeyValue>))
    requires
        i <= n,
        n == s@.len(),
    ensures
        ({
            let (k, kvs) = spec_indented_lines(s@, i as int);
            r.0 as int == k && kv_seq_view(r.1@) == kvs
        }),
{
    let mut pos: usize = i;
    let mut out: Vec<KeyValue> = Vec::new();
    proof {
        assert(kv_seq_view(out@) =~= Seq::<KeyValueView>::empty());
    }
    loop
        invariant
            i <= pos <= n,
            n == s@.len(),
            ({
                let (k, kvs) = spec_indented_lines(s@, i as int);
                let (k2, rest) = spec_indented_lines(s@, pos as int);
                k == k2 && kvs == kv_seq_view(out@) + rest
            }),
        decreases n - pos,
    {
        proof {
            lemma_spec_indented_line_advances(s@, pos as int);
        }
        match indented_line(s, pos, n) {
            None => {
                proof {
                    let (k2, rest) = spec_indented_lines(s@, pos as int);
                    assert(rest =~= Seq::<KeyValueView>::empty());
                    assert(kv_seq_view(out@) + rest =~= kv_seq_view(out@));
                }
                return (pos, out);
            },
            Some((j, kv)) => {
                let ghost out_before = kv_seq_view(out@);
                out.push(kv);
                proof {
                    assert(kv_seq_view(out@) =~= out_before.push(kv@));
                    let (k2, rest) = spec_indented_lines(s@, j as int);
                    let stepped = spec_indented_lines(s@, pos as int);
                    assert(stepped.0 == k2 && stepped.1 == seq![kv@] + rest);
                    assert(out_before + (seq![kv@] + rest) =~= out_before.push(kv@) + rest);
                }
                pos = j;
            },
        }
    }
}

/// A run of indented lines never ends before it began nor past the input.
pub proof fn lemma_spec_indented_lines_bounds(s: Seq<char>, i: int)
    requires
        0 <= i <= s.len(),
    ensures
        ({
            let (k, _) = spec_indented_lines(s, i);
            i <= k <= s.len()
        }),
    decreases s.len() - i,
{
    lemma_spec_indented_line_advances(s, i);
    match spec_indented_line(s, i) {
        None => {},
        Some((j, _)) => {
            if i < j <= s.len() {
                lemma_spec_indented_lines_bounds(s, j);
            }
        },
    }
}

/// A whole state block: the meaning it parses to, if it parses.
pub open spec fn spec_state(s: Seq<char>, i: int) -> Option<(int, StateView)>
    recommends
        0 <= i <= s.len(),
{
    match spec_key_value(s, i) {
        Some((j, KeyValueView::State(name))) => if j < s.len() && s[j] == '\n' {
            let (k, kvs) = spec_indented_lines(s, j + 1);
            if kvs.len() == 0 {
                None
            } else {
                match spec_build_state(name, kvs) {
                    Ok(st) => Some((k, st)),
                    Err(_) => None,
                }
            }
        } else {
            None
        },
        _ => None,
    }
}

/// Parses one state block: a `state` line, then at least one indented
/// line, built into a [`State`] under the block's field rules.
pub fn state(s: &str, i: usize, n: usize) -> (r: Option<(usize, State)>)
    requires
        i <= n,
        n == s@.len(),
    ensures
        match (r, spec_state(s@, i as int)) {
            (Some((j, v)), Some((k, w))) => j as int == k && v@ == w,
            (None, None) => true,
            _ => false,
        },
{
    let (j, head) = match key_value(s, i, n) {
        Some(r) => r,
        None => {
            return None;
        },
    };
    let is_state = matches!(head, KeyValue::State(_));
    if !is_state {
        return None;
    }
    if !(j < n && s.get_char(j) == '\n') {
        return None;
    }
    let (k, kvs) = indented_lines(s, j + 1, n);
    if kvs.len() == 0 {
        return None;
    }
    match State::try_from(head, kvs) {
        Ok(st) => Some((k, st)),
        Err(_) => None,
    }
}

} // verus!
