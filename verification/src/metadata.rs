//! The whole description: a begin marker, the header block, any number of
//! state blocks, an end marker, and nothing after it.
//!
//! After parsing, every state is assigned its starting cell offset by one
//! running cursor over the catalog in declaration order: a state's offset
//! is the sum of the cell counts of all states before it. That offset
//! arithmetic is the sole addressing scheme into the sprite sheet.
//! Duplicate state names stay distinct occurrences, each with its own
//! offset, addressed by an occurrence index.

use vstd::prelude::*;
use vstd::string::StrSliceExecFns;

use crate::dir::Dir;
use crate::error::FormatError;
use crate::key_value::{str_range_eq, key_value, spec_dirs_num, spec_key_value, Dirs, KeyValue,
    KeyValueView};
use crate::state::{indented_lines, kv_pairs_view, spec_cell_count, spec_frame_count,
    spec_indented_lines, spec_state, spec_unk_insert, state, State, StateView};
use crate::values::{lemma_pow10_increases, lemma_pow10_positive, pow10, Decimal, Value, ValueView};

verus! {

/// The single description version this library supports, as a number:
/// four, written `4.0`.
pub open spec fn spec_supported_version(d: Decimal) -> bool {
    d.mantissa * 10 == 40 * pow10(d.scale as nat)
}

/// Decides whether a parsed version number equals the supported version.
#[verifier::loop_isolation(false)]
pub fn is_supported_version(d: &Decimal) -> (r: bool)
    ensures
        r == spec_supported_version(*d),
{
    let lhs: u128 = d.mantissa as u128 * 10;
    let mut rhs: u128 = 40;
    let mut k: u32 = 0;
    while k < d.scale
        invariant
            k <= d.scale,
            rhs == 40 * pow10(k as nat),
            rhs <= lhs || k == 0,
        decreases d.scale - k,
    {
        if rhs > lhs {
            proof {
                lemma_pow10_increases(k as nat, d.scale as nat);
                lemma_pow10_positive(k as nat);
                assert(40 * pow10(d.scale as nat) >= 40 * pow10(k as nat)) by (nonlinear_arith)
                    requires
                        pow10(d.scale as nat) >= pow10(k as nat),
                ;
            }
            return false;
        }
        proof {
            assert(pow10((k + 1) as nat) == 10 * pow10(k as nat));
            assert(40 * (10 * pow10(k as nat)) == (40 * pow10(k as nat)) * 10) by (nonlinear_arith);
        }
        rhs = rhs * 10;
        k = k + 1;
        if rhs > lhs {
            proof {
                lemma_pow10_increases(k as nat, d.scale as nat);
                lemma_pow10_positive(k as nat);
                assert(40 * pow10(d.scale as nat) >= 40 * pow10(k as nat)) by (nonlinear_arith)
                    requires
                        pow10(d.scale as nat) >= pow10(k as nat),
                ;
            }
            return false;
        }
    }
    rhs == lhs
}

/// The sheet header: the format version, the cell size, and any unknown
/// keys kept verbatim.
#[derive(Debug, Clone, PartialEq)]
pub struct Header {
    pub version: Decimal,
    pub width: u32,
    pub height: u32,
    pub unk: Option<Vec<(String, Value)>>,
}

/// The mathematical shape of a [`Header`].
pub struct HeaderView {
    pub version: Decimal,
    pub width: u32,
    pub height: u32,
    pub unk: Option<Seq<(Seq<char>, ValueView)>>,
}

impl View for Header {
    type V = HeaderView;

    open spec fn view(&self) -> HeaderView {
        HeaderView {
            version: self.version,
            width: self.width,
            height: self.height,
            unk: match &self.unk {
                Some(v) => Some(kv_pairs_view(v@)),
                None => None,
            },
        }
    }
}

/// The fields gathered while reading the header block.
pub struct HeaderAcc {
    pub width: Option<u32>,
    pub height: Option<u32>,
    pub unk: Option<Seq<(Seq<char>, ValueView)>>,
}

/// How one header line changes the gathering, or which error it raises:
/// only `width`, `height` and unknown keys belong here.
pub open spec fn spec_header_step(acc: HeaderAcc, kv: KeyValueView) -> Result<
    HeaderAcc,
    FormatError,
> {
    match kv {
        KeyValueView::Width(w) => Ok(HeaderAcc { width: Some(w), ..acc }),
        KeyValueView::Height(h) => Ok(HeaderAcc { height: Some(h), ..acc }),
        KeyValueView::Unk(k, v) => Ok(
            HeaderAcc {
                unk: Some(
                    spec_unk_insert(
                        match acc.unk {
                            Some(u) => u,
                            None => Seq::empty(),
                        },
                        k,
                        v,
                    ),
                ),
                ..acc
            },
        ),
        _ => Err(FormatError::MisplacedKey),
    }
}

/// The gathering over the whole header block, stopping at the first error.
pub open spec fn spec_header_fold(acc: HeaderAcc, kvs: Seq<KeyValueView>) -> Result<
    HeaderAcc,
    FormatError,
>
    decreases kvs.len(),
{
    if kvs.len() == 0 {
        Ok(acc)
    } else {
        match spec_header_step(acc, kvs[0]) {
            Err(e) => Err(e),
            Ok(a) => spec_header_fold(a, kvs.drop_first()),
        }
    }
}

/// The header a version line and its indented lines build: the version
/// must be the supported one, and `width` and `height` must be present.
pub open spec fn spec_build_header(version: Decimal, kvs: Seq<KeyValueView>) -> Result<
    HeaderView,
    FormatError,
> {
    if !spec_supported_version(version) {
        Err(FormatError::UnsupportedVersion)
    } else {
        match spec_header_fold(HeaderAcc { width: None, height: None, unk: None }, kvs) {
            Err(e) => Err(e),
            Ok(acc) => match (acc.width, acc.height) {
                (None, _) => Err(FormatError::MissingWidth),
                (_, None) => Err(FormatError::MissingHeight),
                (Some(w), Some(h)) => Ok(
                    HeaderView { version, width: w, height: h, unk: acc.unk },
                ),
            },
        }
    }
}

/// The exec-side gathering mirroring [`HeaderAcc`].
struct HeaderBuilder {
    width: Option<u32>,
    height: Option<u32>,
    unk: Option<Vec<(String, Value)>>,
}

impl View for HeaderBuilder {
    type V = HeaderAcc;

    closed spec fn view(&self) -> HeaderAcc {
        HeaderAcc {
            width: self.width,
            height: self.height,
            unk: match &self.unk {
                Some(v) => Some(kv_pairs_view(v@)),
                None => None,
            },
        }
    }
}

/// Applies one header line to the gathering.
fn header_step(b: &mut HeaderBuilder, kv: KeyValue) -> (r: Result<(), FormatError>)
    ensures
        match spec_header_step(old(b)@, kv@) {
            Ok(a) => r is Ok && final(b)@ == a,
            Err(e) => r == Err::<(), FormatError>(e),
        },
{
    match kv {
        KeyValue::Width(w) => {
            b.width = Some(w);
            Ok(())
        },
        KeyValue::Height(h) => {
            b.height = Some(h);
            Ok(())
        },
        KeyValue::Unk(k, v) => {
            if b.unk.is_none() {
                b.unk = Some(Vec::new());
            }
            match &mut b.unk {
                Some(m) => {
                    proof {
                        assert(kv_pairs_view(Seq::<(String, Value)>::empty())
                            =~= Seq::<(Seq<char>, ValueView)>::empty());
                    }
                    crate::state::unk_insert(m, k, v);
                },
                None => {
                    proof {
                        assert(false);
                    }
                },
            }
            Ok(())
        },
        _ => Err(FormatError::MisplacedKey),
    }
}

impl Header {
    /// Builds the header from its version line and the run of lines under
    /// it, enforcing the header's field rules.
    #[verifier::loop_isolation(false)]
    pub fn try_from(version_kv: KeyValue, kvs: Vec<KeyValue>) -> (r: Result<Header, FormatError>)
        requires
            version_kv@ is Version,
        ensures
            ({
                let version = version_kv@->Version_0;
                match (r, spec_build_header(version, crate::state::kv_seq_view(kvs@))) {
                    (Ok(h), Ok(hv)) => h@ == hv,
                    (Err(e1), Err(e2)) => e1 == e2,
                    _ => false,
                }
            }),
    {
        let version = match version_kv {
            KeyValue::Version(v) => v,
            _ => {
                proof {
                    assert(false);
                }
                Decimal::from_int(0)
            },
        };
        if !is_supported_version(&version) {
            return Err(FormatError::UnsupportedVersion);
        }
        let mut b = HeaderBuilder { width: None, height: None, unk: None };
        let mut rest = kvs;
        let ghost all = crate::state::kv_seq_view(rest@);
        proof {
            assert(b@ == (HeaderAcc { width: None, height: None, unk: None }));
        }
        while rest.len() > 0
            invariant
                spec_header_fold(HeaderAcc { width: None, height: None, unk: None }, all)
                    == spec_header_fold(b@, crate::state::kv_seq_view(rest@)),
            decreases rest.len(),
        {
            let ghost before = crate::state::kv_seq_view(rest@);
            let kv = rest.remove(0);
            proof {
                assert(crate::state::kv_seq_view(rest@) =~= before.drop_first());
                assert(before[0] == kv@);
            }
            match header_step(&mut b, kv) {
                Ok(_) => {},
                Err(e) => {
                    return Err(e);
                },
            }
        }
        proof {
            assert(crate::state::kv_seq_view(rest@) =~= Seq::<KeyValueView>::empty());
        }
        let width = match b.width {
            Some(w) => w,
            None => {
                return Err(FormatError::MissingWidth);
            },
        };
        let height = match b.height {
            Some(h) => h,
            None => {
                return Err(FormatError::MissingHeight);
            },
        };
        Ok(Header { version, width, height, unk: b.unk })
    }
}

/// The header block: a `version` line, then at least one indented line.
pub open spec fn spec_header(s: Seq<char>, i: int) -> Option<(int, HeaderView)>
    recommends
        0 <= i <= s.len(),
{
    match spec_key_value(s, i) {
        Some((j, KeyValueView::Version(v))) => if j < s.len() && s[j] == '\n' {
            let (k, kvs) = spec_indented_lines(s, j + 1);
            if kvs.len() == 0 {
                None
            } else {
                match spec_build_header(v, kvs) {
                    Ok(h) => Some((k, h)),
                    Err(_) => None,
                }
            }
        } else {
            None
        },
        _ => None,
    }
}

/// A successful header parse never ends before it began nor past the input.
pub proof fn lemma_spec_header_bounds(s: Seq<char>, i: int)
    requires
        0 <= i <= s.len(),
    ensures
        match spec_header(s, i) {
            Some((j, _)) => i <= j <= s.len(),
            None => true,
        },
{
    crate::key_value::lemma_spec_key_value_advances(s, i);
    match spec_key_value(s, i) {
        Some((j, kv)) => {
            if j < s.len() && s[j] == '\n' {
                crate::state::lemma_spec_indented_lines_bounds(s, j + 1);
            }
        },
        None => {},
    }
}

/// Parses the header block.
pub fn header(s: &str, i: usize, n: usize) -> (r: Option<(usize, Header)>)
    requires
        i <= n,
        n == s@.len(),
    ensures
        match (r, spec_header(s@, i as int)) {
            (Some((j, v)), Some((k, w))) => j as int == k && v@ == w,
            (None, None) => true,
            _ => false,
        },
{
    let (j, head) = match key_value(s, i, n) {
        Some(r) => r,
        None => {
            return None;
        },
    };
    let is_version = matches!(head, KeyValue::Version(_));
    if !is_version {
        return None;
    }
    if !(j < n && s.get_char(j) == '\n') {
        return None;
    }
    let (k, kvs) = indented_lines(s, j + 1, n);
    if kvs.len() == 0 {
        return None;
    }
    match Header::try_from(head, kvs) {
        Ok(h) => Some((k, h)),
        Err(_) => None,
    }
}

/// The begin marker line.
pub open spec fn spec_begin_dmi(s: Seq<char>, i: int) -> Option<int>
    recommends
        0 <= i <= s.len(),
{
    let m = "# BEGIN DMI\n"@.len() as int;
    if i + m <= s.len() && s.subrange(i, i + m) == "# BEGIN DMI\n"@ {
        Some(i + m)
    } else {
        None
    }
}

/// Consumes the begin marker and its newline.
pub fn begin_dmi(s: &str, i: usize, n: usize) -> (r: Option<usize>)
    requires
        i <= n,
        n == s@.len(),
    ensures
        match (r, spec_begin_dmi(s@, i as int)) {
            (Some(j), Some(k)) => j as int == k,
            (None, None) => true,
            _ => false,
        },
{
    let lit = "# BEGIN DMI\n";
    let m = lit.unicode_len();
    if n - i >= m && str_range_eq(s, i, i + m, lit) {
        Some(i + m)
    } else {
        None
    }
}

pub open spec fn is_multispace(c: char) -> bool {
    c == ' ' || c == '\t' || c == '\n' || c == '\r'
}

/// The position just after the run of whitespace starting at `i`.
pub open spec fn multispace_run_end(s: Seq<char>, i: int) -> int
    recommends
        0 <= i <= s.len(),
    decreases s.len() - i,
        when 0 <= i <= s.len()
{
    if i >= s.len() || !is_multispace(s[i]) {
        i
    } else {
        multispace_run_end(s, i + 1)
    }
}

pub proof fn lemma_multispace_run_end_bounds(s: Seq<char>, i: int)
    requires
        0 <= i <= s.len(),
    ensures
        i <= multispace_run_end(s, i) <= s.len(),
    decreases s.len() - i,
{
    if !(i >= s.len() || !is_multispace(s[i])) {
        lemma_multispace_run_end_bounds(s, i + 1);
    }
}

/// The end marker, with any trailing whitespace consumed.
pub open spec fn spec_end_dmi(s: Seq<char>, i: int) -> Option<int>
    recommends
        0 <= i <= s.len(),
{
    let m = "# END DMI"@.len() as int;
    if i + m <= s.len() && s.subrange(i, i + m) == "# END DMI"@ {
        Some(multispace_run_end(s, i + m))
    } else {
        None
    }
}

/// Consumes the end marker and any whitespace after it.
#[verifier::loop_isolation(false)]
pub fn end_dmi(s: &str, i: usize, n: usize) -> (r: Option<usize>)
    requires
        i <= n,
        n == s@.len(),
    ensures
        match (r, spec_end_dmi(s@, i as int)) {
            (Some(j), Some(k)) => j as int == k,
            (None, None) => true,
            _ => false,
        },
{
    let lit = "# END DMI";
    let m = lit.unicode_len();
    if !(n - i >= m && str_range_eq(s, i, i + m, lit)) {
        return None;
    }
    let mut j: usize = i + m;
    loop
        invariant
            i + m <= j <= n,
            n == s@.len(),
            multispace_run_end(s@, i + m) == multispace_run_end(s@, j as int),
        decreases n - j,
    {
        if j >= n {
            return Some(j);
        }
        let c = s.get_char(j);
        if !(c == ' ' || c == '\t' || c == '\n' || c == '\r') {
            return Some(j);
        }
        j = j + 1;
    }
}

/// A successful state block parse always consumes at least one character
/// and never runs past the input.
pub proof fn lemma_spec_state_advances(s: Seq<char>, i: int)
    requires
        0 <= i <= s.len(),
    ensures
        match spec_state(s, i) {
            Some((j, _)) => i < j <= s.len(),
            None => true,
        },
{
    crate::key_value::lemma_spec_key_value_advances(s, i);
    match spec_key_value(s, i) {
        Some((j, kv)) => {
            if j < s.len() && s[j] == '\n' {
                crate::state::lemma_spec_indented_lines_bounds(s, j + 1);
            }
        },
        None => {},
    }
}

/// The longest run of state blocks from `i`: where it stops, and the
/// states in declaration order.
pub open spec fn spec_states(s: Seq<char>, i: int) -> (int, Seq<StateView>)
    recommends
        0 <= i <= s.len(),
    decreases s.len() - i,
        when 0 <= i <= s.len()
{
    match spec_state(s, i) {
        None => (i, Seq::empty()),
        Some((j, st)) => if i < j <= s.len() {
            let (k, rest) = spec_states(s, j);
            (k, seq![st] + rest)
        } else {
            (i, Seq::empty())
        },
    }
}

/// The starting cell offset of the state at position `i` of the catalog:
/// the sum of the cell counts of all states before it. The offset of the
/// first state is zero.
pub open spec fn spec_offset_of(states: Seq<StateView>, i: int) -> nat
    recommends
        0 <= i <= states.len(),
    decreases i,
        when i >= 0
{
    if i <= 0 {
        0
    } else {
        spec_offset_of(states, i - 1) + spec_cell_count(states[i - 1])
    }
}

/// Offsets never shrink along the catalog.
pub proof fn lemma_offset_of_monotone(states: Seq<StateView>, i: int, j: int)
    requires
        0 <= i <= j,
    ensures
        spec_offset_of(states, i) <= spec_offset_of(states, j),
    decreases j,
{
    if i < j {
        lemma_offset_of_monotone(states, i, j - 1);
    }
}

/// The total number of cells the catalog occupies.
pub open spec fn spec_total_cells(states: Seq<StateView>) -> nat {
    spec_offset_of(states, states.len() as int)
}

/// The mathematical shape of a [`Metadata`]: the header and the ordered
/// catalog of states. Offsets are a function of this shape alone, by
/// [`spec_offset_of`].
pub struct MetadataView {
    pub header: HeaderView,
    pub states: Seq<StateView>,
}

/// The views of the catalog's states, in order.
pub open spec fn states_views(s: Seq<(IconLocation, State)>) -> Seq<StateView> {
    s.map_values(|p: (IconLocation, State)| p.1@)
}

/// A position in the sprite sheet: the absolute index of a cell.
#[derive(Clone, Copy, Debug, PartialEq, Eq)]
pub struct IconLocation(usize);

impl View for IconLocation {
    type V = nat;

    closed spec fn view(&self) -> nat {
        self.0 as nat
    }
}

impl IconLocation {
    pub fn new(num: usize) -> (r: IconLocation)
        ensures
            r@ == num,
    {
        IconLocation(num)
    }

    pub fn into_inner(&self) -> (r: usize)
        ensures
            r == self@,
    {
        self.0
    }
}

/// An occurrence-addressed state reference: which of the states named
/// `name` is meant, counting duplicates in declaration order from zero.
#[derive(Clone, Copy, Debug)]
pub struct IconIndex<'a>(usize, &'a str);

impl<'a> View for IconIndex<'a> {
    type V = (nat, Seq<char>);

    closed spec fn view(&self) -> (nat, Seq<char>) {
        (self.0 as nat, self.1@)
    }
}

impl<'a> IconIndex<'a> {
    pub fn new(index: usize, icon_name: &'a str) -> (r: IconIndex<'a>)
        ensures
            r@ == (index as nat, icon_name@),
    {
        IconIndex(index, icon_name)
    }

    /// The first occurrence of the given name.
    pub fn default_icon(icon_name: &'a str) -> (r: IconIndex<'a>)
        ensures
            r@ == (0nat, icon_name@),
    {
        IconIndex(0, icon_name)
    }

    pub fn name(&self) -> (r: &'a str)
        ensures
            r@ == self@.1,
    {
        self.1
    }

    pub fn index(&self) -> (r: usize)
        ensures
            r == self@.0,
    {
        self.0
    }
}

/// The catalog index of the occurrence `k` of `name`, looking from
/// position `from` on.
pub open spec fn spec_find_occurrence(
    states: Seq<StateView>,
    name: Seq<char>,
    k: nat,
    from: int,
) -> Option<int>
    recommends
        0 <= from <= states.len(),
    decreases states.len() - from,
        when 0 <= from <= states.len()
{
    if from >= states.len() {
        None
    } else if states[from].name == name {
        if k == 0 {
            Some(from)
        } else {
            spec_find_occurrence(states, name, (k - 1) as nat, from + 1)
        }
    } else {
        spec_find_occurrence(states, name, k, from + 1)
    }
}

pub proof fn lemma_find_occurrence_in_range(states: Seq<StateView>, name: Seq<char>, k: nat, from: int)
    requires
        0 <= from <= states.len(),
    ensures
        match spec_find_occurrence(states, name, k, from) {
            Some(ix) => from <= ix < states.len() && states[ix].name == name,
            None => true,
        },
    decreases states.len() - from,
{
    if from < states.len() {
        if states[from].name == name {
            if k != 0 {
                lemma_find_occurrence_in_range(states, name, (k - 1) as nat, from + 1);
            }
        } else {
            lemma_find_occurrence_in_range(states, name, k, from + 1);
        }
    }
}

/// How many states before position `upto` carry `name`.
pub open spec fn spec_count_before(states: Seq<StateView>, name: Seq<char>, upto: int) -> nat
    recommends
        upto <= states.len(),
    decreases upto,
        when upto >= 0
{
    if upto <= 0 {
        0
    } else {
        spec_count_before(states, name, upto - 1) + (
        if upto - 1 < states.len() && states[upto - 1].name == name {
            1nat
        } else {
            0nat
        })
    }
}

/// Searching from position `from` for occurrence `k` is searching from the
/// start for occurrence `k` plus the matches already passed.
pub proof fn lemma_find_occurrence_shift(
    states: Seq<StateView>,
    name: Seq<char>,
    k: nat,
    from: int,
)
    requires
        0 <= from <= states.len(),
    ensures
        spec_find_occurrence(states, name, (k + spec_count_before(states, name, from)) as nat, 0)
            == spec_find_occurrence(states, name, k, from),
    decreases from,
{
    if from > 0 {
        if states[from - 1].name == name {
            lemma_find_occurrence_shift(states, name, k + 1, from - 1);
        } else {
            lemma_find_occurrence_shift(states, name, k, from - 1);
        }
    }
}

/// Every occurrence index below the total count resolves; every one at or
/// above it does not.
pub proof fn lemma_find_occurrence_total(states: Seq<StateView>, name: Seq<char>, k: nat, from: int)
    requires
        0 <= from <= states.len(),
    ensures
        (spec_find_occurrence(states, name, k, from) is Some) == (
        k + spec_count_before(states, name, from) < spec_count_before(
            states,
            name,
            states.len() as int,
        )),
    decreases states.len() - from,
{
    if from < states.len() {
        assert(spec_count_before(states, name, from + 1) == spec_count_before(states, name, from)
            + (if states[from].name == name {
            1nat
        } else {
            0nat
        }));
        if states[from].name == name {
            if k == 0 {
                lemma_count_before_monotone(states, name, from + 1, states.len() as int);
            } else {
                lemma_find_occurrence_total(states, name, (k - 1) as nat, from + 1);
            }
        } else {
            lemma_find_occurrence_total(states, name, k, from + 1);
        }
    }
}

pub proof fn lemma_count_before_monotone(states: Seq<StateView>, name: Seq<char>, i: int, j: int)
    requires
        0 <= i <= j,
    ensures
        spec_count_before(states, name, i) <= spec_count_before(states, name, j),
    decreases j,
{
    if i < j {
        lemma_count_before_monotone(states, name, i, j - 1);
    }
}

/// Parsed metadata: the header and the ordered catalog of states, each
/// paired with its starting cell offset.
#[derive(Debug, Clone, PartialEq)]
pub struct Metadata {
    pub header: Header,
    pub states: Vec<(IconLocation, State)>,
}

impl View for Metadata {
    type V = MetadataView;

    open spec fn view(&self) -> MetadataView {
        MetadataView { header: self.header@, states: states_views(self.states@) }
    }
}

impl Metadata {
    /// Offsets are well formed: every stored location is the prefix sum of
    /// the cell counts before it, and the whole catalog fits the sheet
    /// index range.
    pub open spec fn wf(&self) -> bool {
        &&& forall|i: int|
            0 <= i < self.states@.len() ==> (#[trigger] self.states@[i]).0@ == spec_offset_of(
                self@.states,
                i,
            )
        &&& spec_total_cells(self@.states) <= u32::MAX
    }
}

/// The whole description: begin marker, header, states, end marker,
/// nothing else, and a catalog small enough for cell indices to fit the
/// sheet index range.
pub open spec fn spec_metadata(s: Seq<char>) -> Option<MetadataView> {
    match spec_begin_dmi(s, 0) {
        None => None,
        Some(i1) => match spec_header(s, i1) {
            None => None,
            Some((i2, h)) => {
                let (i3, states) = spec_states(s, i2);
                match spec_end_dmi(s, i3) {
                    None => None,
                    Some(i4) => if i4 == s.len() && spec_total_cells(states) <= u32::MAX {
                        Some(MetadataView { header: h, states })
                    } else {
                        None
                    },
                }
            },
        },
    }
}

/// Parses a whole description into metadata with assigned offsets.
#[verifier::loop_isolation(false)]
pub fn metadata(s: &str) -> (r: Result<Metadata, FormatError>)
    ensures
        match (r, spec_metadata(s@)) {
            (Ok(m), Some(mv)) => m@ == mv && m.wf(),
            (Err(_), None) => true,
            _ => false,
        },
{
    let n = s.unicode_len();
    let i1 = match begin_dmi(s, 0, n) {
        Some(j) => j,
        None => {
            return Err(FormatError::BadSyntax { at: 0 });
        },
    };
    proof {
        assert(i1 <= n);
    }
    let (i2, hdr) = match header(s, i1, n) {
        Some(r) => r,
        None => {
            return Err(FormatError::BadSyntax { at: i1 });
        },
    };
    proof {
        lemma_spec_header_bounds(s@, i1 as int);
    }
    let mut pos: usize = i2;
    let mut parsed: Vec<State> = Vec::new();
    proof {
        assert(crate::state::state_seq_view(parsed@) =~= Seq::<StateView>::empty());
    }
    loop
        invariant
            i2 <= pos <= n,
            ({
                let (k, sts) = spec_states(s@, i2 as int);
                let (k2, rest) = spec_states(s@, pos as int);
                k == k2 && sts == crate::state::state_seq_view(parsed@) + rest
            }),
        decreases n - pos,
    {
        proof {
            lemma_spec_state_advances(s@, pos as int);
        }
        match state(s, pos, n) {
            None => {
                proof {
                    let (k2, rest) = spec_states(s@, pos as int);
                    assert(rest =~= Seq::<StateView>::empty());
                    assert(crate::state::state_seq_view(parsed@) + rest =~= crate::state::state_seq_view(parsed@));
                }
                break;
            },
            Some((j, st)) => {
                let ghost before = crate::state::state_seq_view(parsed@);
                parsed.push(st);
                proof {
                    assert(crate::state::state_seq_view(parsed@) =~= before.push(st@));
                    let (k2, rest) = spec_states(s@, j as int);
                    let stepped = spec_states(s@, pos as int);
                    assert(stepped.0 == k2 && stepped.1 == seq![st@] + rest);
                    assert(before + (seq![st@] + rest) =~= before.push(st@) + rest);
                }
                pos = j;
            },
        }
    }
    let i4 = match end_dmi(s, pos, n) {
        Some(j) => j,
        None => {
            return Err(FormatError::BadSyntax { at: pos });
        },
    };
    if i4 != n {
        proof {
            lemma_multispace_run_end_bounds(s@, pos + "# END DMI"@.len());
        }
        return Err(FormatError::BadSyntax { at: i4 });
    }
    let ghost all = crate::state::state_seq_view(parsed@);
    let mut out: Vec<(IconLocation, State)> = Vec::new();
    let mut cursor: u64 = 0;
    let mut rest = parsed;
    proof {
        assert(crate::state::state_seq_view(rest@) =~= all.skip(0));
        assert(states_views(out@) =~= all.take(0));
    }
    while rest.len() > 0
        invariant
            out@.len() + rest@.len() == all.len(),
            crate::state::state_seq_view(rest@) == all.skip(out@.len() as int),
            cursor == spec_offset_of(all, out@.len() as int),
            cursor <= u32::MAX,
            states_views(out@) == all.take(out@.len() as int),
            forall|m: int|
                0 <= m < out@.len() ==> (#[trigger] out@[m]).0@ == spec_offset_of(all, m),
        decreases rest.len(),
    {
        let ghost k = out@.len() as int;
        let ghost rest_before = crate::state::state_seq_view(rest@);
        let st = rest.remove(0);
        proof {
            assert(crate::state::state_seq_view(rest@) =~= rest_before.drop_first());
            assert(rest_before[0] == st@);
            assert(rest_before.drop_first() =~= all.skip(k + 1));
            assert(all[k] == st@);
        }
        let fc = st.frame_count();
        let dn = st.dirs.get_num();
        proof {
            assert(spec_cell_count(st@) >= spec_frame_count(st@.frames)) by {
                assert(spec_dirs_num(st@.dirs) >= 1);
                assert(spec_dirs_num(st@.dirs) * spec_frame_count(st@.frames) >= 1
                    * spec_frame_count(st@.frames)) by (nonlinear_arith)
                    requires
                        spec_dirs_num(st@.dirs) >= 1,
                ;
            }
        }
        if fc > u32::MAX as usize {
            proof {
                lemma_offset_of_monotone(all, k + 1, all.len() as int);
            }
            return Err(FormatError::TooManyCells);
        }
        proof {
            assert((dn as int) * (fc as int) <= 8 * (u32::MAX as int)) by (nonlinear_arith)
                requires
                    dn as int <= 8,
                    fc as int <= u32::MAX as int,
            ;
        }
        let cells: u64 = (dn as u64) * (fc as u64);
        proof {
            assert(cells == spec_cell_count(st@));
        }
        let next: u64 = cursor + cells;
        if next > u32::MAX as u64 {
            proof {
                lemma_offset_of_monotone(all, k + 1, all.len() as int);
            }
            return Err(FormatError::TooManyCells);
        }
        let ghost out_before = out@;
        out.push((IconLocation::new(cursor as usize), st));
        cursor = next;
        proof {
            assert(states_views(out@) =~= all.take(k + 1));
        }
    }
    proof {
        assert(crate::state::state_seq_view(rest@) =~= Seq::<StateView>::empty());
        assert(all.take(all.len() as int) =~= all);
        assert(states_views(out@) == all);
    }
    let m = Metadata { header: hdr, states: out };
    proof {
        assert(m@.states == all);
    }
    Ok(m)
}

impl Metadata {
    /// Parses a whole description.
    pub fn load(input: &str) -> (r: Result<Metadata, FormatError>)
        ensures
            match (r, spec_metadata(input@)) {
                (Ok(m), Some(mv)) => m@ == mv && m.wf(),
                (Err(_), None) => true,
                _ => false,
            },
    {
        metadata(input)
    }

    /// Resolves an occurrence-addressed reference to its starting cell
    /// offset and its state.
    #[verifier::loop_isolation(false)]
    pub fn get_icon_state(&self, icon_state: IconIndex<'_>) -> (r: Option<(IconLocation, &State)>)
        ensures
            match spec_find_occurrence(self@.states, icon_state@.1, icon_state@.0, 0) {
                Some(ix) => r matches Some((loc, st)) && loc == self.states@[ix].0 && st
                    == &self.states@[ix].1,
                None => r is None,
            },
            (r is Some) == (icon_state@.0 < spec_count_before(
                self@.states,
                icon_state@.1,
                self@.states.len() as int,
            )),
    {
        proof {
            lemma_find_occurrence_total(self@.states, icon_state@.1, icon_state@.0, 0);
        }
        let name_key = String::from_str(icon_state.name());
        let want = icon_state.index();
        let mut idx: usize = 0;
        let mut remaining: usize = want;
        loop
            invariant
                0 <= idx <= self.states@.len(),
                remaining <= want,
                spec_find_occurrence(self@.states, icon_state@.1, icon_state@.0, 0)
                    == spec_find_occurrence(
                    self@.states,
                    icon_state@.1,
                    remaining as nat,
                    idx as int,
                ),
                name_key@ == icon_state@.1,
            decreases self.states@.len() - idx,
        {
            if idx >= self.states.len() {
                return None;
            }
            let hit = self.states[idx].1.name == name_key;
            proof {
                assert(self@.states[idx as int].name == self.states@[idx as int].1@.name);
            }
            if hit {
                if remaining == 0 {
                    return Some((self.states[idx].0, &self.states[idx].1));
                }
                remaining = remaining - 1;
            }
            idx = idx + 1;
        }
    }

    /// All occurrences of a name, in declaration order, each with its
    /// starting cell offset; nothing when the name never occurs.
    #[verifier::loop_isolation(false)]
    pub fn get_duplicate_icon_states(&self, icon_state: &str) -> (r: Option<
        Vec<(IconLocation, &State)>,
    >)
        ensures
            ({
                let states = self@.states;
                let total = spec_count_before(states, icon_state@, states.len() as int);
                match r {
                    Some(v) => total > 0 && v@.len() == total && forall|k: int|
                        0 <= k < total ==> {
                            let found = #[trigger] spec_find_occurrence(
                                states,
                                icon_state@,
                                k as nat,
                                0,
                            );
                            found matches Some(ix) && 0 <= ix < self.states@.len() && v@[k].0
                                == self.states@[ix].0 && v@[k].1 == &self.states@[ix].1
                        },
                    None => total == 0,
                }
            }),
    {
        let name_key = String::from_str(icon_state);
        let mut v: Vec<(IconLocation, &State)> = Vec::new();
        let mut idx: usize = 0;
        let ghost states = self@.states;
        loop
            invariant
                0 <= idx <= self.states@.len(),
                name_key@ == icon_state@,
                states == self@.states,
                v@.len() == spec_count_before(states, icon_state@, idx as int),
                forall|k: int|
                    0 <= k < v@.len() ==> {
                        let found = #[trigger] spec_find_occurrence(
                            states,
                            icon_state@,
                            k as nat,
                            0,
                        );
                        found matches Some(ix) && 0 <= ix < self.states@.len() && v@[k].0
                            == self.states@[ix].0 && v@[k].1 == &self.states@[ix].1
                    },
            decreases self.states@.len() - idx,
        {
            if idx >= self.states.len() {
                proof {
                    lemma_count_before_monotone(states, icon_state@, idx as int, states.len() as int);
                    assert(spec_count_before(states, icon_state@, idx as int)
                        == spec_count_before(states, icon_state@, states.len() as int));
                }
                if v.len() == 0 {
                    return None;
                }
                return Some(v);
            }
            let hit = self.states[idx].1.name == name_key;
            proof {
                assert(states[idx as int].name == self.states@[idx as int].1@.name);
            }
            if hit {
                proof {
                    lemma_find_occurrence_shift(states, icon_state@, 0, idx as int);
                    assert(spec_find_occurrence(states, icon_state@, 0nat, idx as int) == Some(
                        idx as int,
                    ));
                    assert(spec_find_occurrence(states, icon_state@, v@.len() as nat, 0) == Some(
                        idx as int,
                    ));
                }
                let ghost old_v = v@;
                v.push((self.states[idx].0, &self.states[idx].1));
                proof {
                    assert(v@ == old_v.push((self.states@[idx as int].0, &self.states@[idx as int].1)));
                    assert forall|k: int| 0 <= k < v@.len() implies {
                        let found = #[trigger] spec_find_occurrence(
                            states,
                            icon_state@,
                            k as nat,
                            0,
                        );
                        found matches Some(ix) && 0 <= ix < self.states@.len() && v@[k].0
                            == self.states@[ix].0 && v@[k].1 == &self.states@[ix].1
                    } by {
                        if k < old_v.len() {
                            assert(v@[k] == old_v[k]);
                        } else {
                            assert(k == old_v.len());
                            assert(v@[k] == (self.states@[idx as int].0, &self.states@[idx as int].1));
                        }
                    }
                }
            }
            idx = idx + 1;
        }
    }

    /// The absolute cell index of the first frame of a direction of a
    /// state: its starting offset plus the direction's slot. An index the
    /// sheet range cannot hold resolves to nothing.
    pub fn get_index_of_dir(&self, icon_state: IconIndex<'_>, dir: Dir) -> (r: Option<u32>)
        ensures
            match spec_find_occurrence(self@.states, icon_state@.1, icon_state@.0, 0) {
                None => r is None,
                Some(ix) => {
                    let idx = self.states@[ix].0@ + spec_dir_slot(self@.states[ix].dirs, dir);
                    if idx <= u32::MAX {
                        r == Some(idx as u32)
                    } else {
                        r is None
                    }
                },
            },
    {
        self.get_index_of_frame(icon_state, dir, 0)
    }

    /// The absolute cell index of a (state, direction, frame) request:
    /// offset, plus the direction's slot, plus the frame number times the
    /// state's direction cardinality. An index the sheet range cannot hold
    /// resolves to nothing.
    pub fn get_index_of_frame(&self, icon_state: IconIndex<'_>, dir: Dir, frame: u32) -> (r: Option<
        u32,
    >)
        ensures
            match spec_find_occurrence(self@.states, icon_state@.1, icon_state@.0, 0) {
                None => r is None,
                Some(ix) => {
                    let idx = self.states@[ix].0@ + spec_dir_slot(self@.states[ix].dirs, dir)
                        + frame * spec_dirs_num(self@.states[ix].dirs);
                    if idx <= u32::MAX {
                        r == Some(idx as u32)
                    } else {
                        r is None
                    }
                },
            },
    {
        let (loc, st) = match self.get_icon_state(icon_state) {
            Some(r) => r,
            None => {
                return None;
            },
        };
        let slot = dir_slot(st.dirs, dir);
        let dn = st.dirs.get_num();
        proof {
            assert(frame as int * dn as int <= u32::MAX as int * 8) by (nonlinear_arith)
                requires
                    frame as int <= u32::MAX as int,
                    dn as int <= 8,
            ;
        }
        let idx: u128 = loc.into_inner() as u128 + slot as u128 + frame as u128 * dn as u128;
        proof {
            lemma_find_occurrence_in_range(self@.states, icon_state@.1, icon_state@.0, 0);
        }
        if idx > u32::MAX as u128 {
            None
        } else {
            Some(idx as u32)
        }
    }
}

/// The slot a direction occupies among a state's drawn directions: a
/// single-direction state keeps everything in slot 0; four- and
/// eight-direction states use the canonical ordering, and a direction a
/// state does not draw falls back to slot 0.
pub open spec fn spec_dir_slot(dirs: Dirs, dir: Dir) -> u32 {
    match (dirs, dir) {
        (Dirs::One, _) => 0,
        (Dirs::Eight, Dir::Northwest) => 7,
        (Dirs::Eight, Dir::Northeast) => 6,
        (Dirs::Eight, Dir::Southwest) => 5,
        (Dirs::Eight, Dir::Southeast) => 4,
        (_, Dir::West) => 3,
        (_, Dir::East) => 2,
        (_, Dir::North) => 1,
        (_, _) => 0,
    }
}

/// Computes the slot of a direction.
pub fn dir_slot(dirs: Dirs, dir: Dir) -> (r: u32)
    ensures
        r == spec_dir_slot(dirs, dir),
{
    match (dirs, dir) {
        (Dirs::One, _) => 0,
        (Dirs::Eight, Dir::Northwest) => 7,
        (Dirs::Eight, Dir::Northeast) => 6,
        (Dirs::Eight, Dir::Southwest) => 5,
        (Dirs::Eight, Dir::Southeast) => 4,
        (_, Dir::West) => 3,
        (_, Dir::East) => 2,
        (_, Dir::North) => 1,
        (_, _) => 0,
    }
}

/// Round-trip offset law: the first state's offset is zero, and each
/// state's offset is the offset of the state before it plus that state's
/// cell count — so offsets are exactly the running sums of cell counts in
/// declaration order.
pub proof fn lemma_offset_law(states: Seq<StateView>, i: int)
    requires
        0 < i <= states.len(),
    ensures
        spec_offset_of(states, 0) == 0,
        spec_offset_of(states, i) == spec_offset_of(states, i - 1) + spec_cell_count(
            states[i - 1],
        ),
{
}

/// Parsing the same description twice yields catalogs with identical field
/// values and identical offsets.
pub proof fn lemma_parse_deterministic(a: &Metadata, b: &Metadata, s: Seq<char>)
    requires
        spec_metadata(s) == Some(a@),
        spec_metadata(s) == Some(b@),
        a.wf(),
        b.wf(),
    ensures
        a@ == b@,
        a.states@.len() == b.states@.len(),
        forall|i: int|
            0 <= i < a.states@.len() ==> (#[trigger] a.states@[i]).0@ == b.states@[i].0@,
{
    assert(a@ == b@);
    assert(a.states@.len() == states_views(a.states@).len());
    assert forall|i: int|
        0 <= i < a.states@.len() implies (#[trigger] a.states@[i]).0@ == b.states@[i].0@ by {
        assert(a.states@[i].0@ == spec_offset_of(a@.states, i));
        assert(b.states@[i].0@ == spec_offset_of(b@.states, i));
    }
}

} // verus!
