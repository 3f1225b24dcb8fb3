//! Value literals of the description grammar: unsigned integers, decimal
//! numbers, double-quoted strings, and comma-separated number lists.
//!
//! Numbers are held exactly as a mantissa and a power-of-ten scale, so
//! `1.2` is mantissa 12 at scale 1. Parsers take the input and a character
//! position and return the position after the consumed text together with
//! the parsed value; each is proved equal to a specification function that
//! states the grammar over the input's character sequence.

use vstd::prelude::*;
use vstd::string::StrSliceExecFns;

verus! {

/// A nonnegative decimal number, exactly `mantissa / 10^scale`.
#[derive(Debug, Clone, Copy, PartialEq, Eq, Structural)]
pub struct Decimal {
    pub mantissa: u64,
    pub scale: u32,
}

impl View for Decimal {
    type V = Decimal;

    open spec fn view(&self) -> Decimal {
        *self
    }
}

impl Decimal {
    /// The number `units`, with no fractional part.
    pub fn from_int(units: u64) -> (r: Decimal)
        ensures
            r == (Decimal { mantissa: units, scale: 0 }),
    {
        Decimal { mantissa: units, scale: 0 }
    }

    pub fn new(mantissa: u64, scale: u32) -> (r: Decimal)
        ensures
            r == (Decimal { mantissa, scale }),
    {
        Decimal { mantissa, scale }
    }
}

/// 10 to the power `e`.
pub open spec fn pow10(e: nat) -> nat
    decreases e,
{
    if e == 0 {
        1
    } else {
        10 * pow10((e - 1) as nat)
    }
}

pub proof fn lemma_pow10_positive(e: nat)
    ensures
        pow10(e) >= 1,
    decreases e,
{
    if e > 0 {
        lemma_pow10_positive((e - 1) as nat);
    }
}

pub proof fn lemma_pow10_increases(e1: nat, e2: nat)
    requires
        e1 <= e2,
    ensures
        pow10(e1) <= pow10(e2),
    decreases e2,
{
    if e1 < e2 {
        lemma_pow10_increases(e1, (e2 - 1) as nat);
        lemma_pow10_positive((e2 - 1) as nat);
    }
}

pub open spec fn is_digit(c: char) -> bool {
    48 <= c as u32 <= 57
}

pub open spec fn digit_value(c: char) -> nat {
    if is_digit(c) {
        (c as u32 - 48) as nat
    } else {
        0
    }
}

/// The number written by a run of decimal digits, most significant first.
pub open spec fn digits_val(ds: Seq<char>) -> nat
    decreases ds.len(),
{
    if ds.len() == 0 {
        0
    } else {
        digits_val(ds.drop_last()) * 10 + digit_value(ds.last())
    }
}

/// A longer digit run never writes a smaller number.
pub proof fn lemma_digits_val_prefix_le(b: Seq<char>, n: int)
    requires
        0 <= n <= b.len(),
    ensures
        digits_val(b.subrange(0, n)) <= digits_val(b),
    decreases b.len() - n,
{
    if n == b.len() {
        assert(b.subrange(0, n) =~= b);
    } else {
        assert(b.drop_last().subrange(0, n) =~= b.subrange(0, n));
        lemma_digits_val_prefix_le(b.drop_last(), n);
    }
}

/// The position just after the run of digits starting at `i`.
pub open spec fn digit_run_end(s: Seq<char>, i: int) -> int
    recommends
        0 <= i <= s.len(),
    decreases s.len() - i,
        when 0 <= i <= s.len()
{
    if i >= s.len() || !is_digit(s[i]) {
        i
    } else {
        digit_run_end(s, i + 1)
    }
}

pub proof fn lemma_digit_run_end_bounds(s: Seq<char>, i: int)
    requires
        0 <= i <= s.len(),
    ensures
        i <= digit_run_end(s, i) <= s.len(),
        forall|k: int| i <= k < digit_run_end(s, i) ==> is_digit(#[trigger] s[k]),
    decreases s.len() - i,
{
    if !(i >= s.len() || !is_digit(s[i])) {
        lemma_digit_run_end_bounds(s, i + 1);
    }
}

/// Finds the end of the digit run starting at `i`.
fn scan_digits(s: &str, i: usize, n: usize) -> (j: usize)
    requires
        i <= n,
        n == s@.len(),
    ensures
        j as int == digit_run_end(s@, i as int),
{
    let mut j: usize = i;
    loop
        invariant
            i <= j <= n,
            n == s@.len(),
            digit_run_end(s@, i as int) == digit_run_end(s@, j as int),
        decreases n - j,
    {
        if j >= n {
            return j;
        }
        let c = s.get_char(j);
        if !(48 <= c as u32 && c as u32 <= 57) {
            return j;
        }
        j = j + 1;
    }
}

/// Folds the digits of `s[from..to]` onto a number already accumulated for
/// the digits `prefix`, reporting `None` when the written number does not
/// fit in a `u64`.
fn digits_fold(s: &str, from: usize, to: usize, init: u64, prefix: Ghost<Seq<char>>) -> (r: Option<
    u64,
>)
    requires
        from <= to <= s@.len(),
        forall|k: int| from <= k < to ==> is_digit(#[trigger] s@[k]),
        init == digits_val(prefix@),
    ensures
        ({
            let full = prefix@ + s@.subrange(from as int, to as int);
            match r {
                Some(v) => v == digits_val(full) && digits_val(full) <= u64::MAX,
                None => digits_val(full) > u64::MAX,
            }
        }),
{
    let ghost full = prefix@ + s@.subrange(from as int, to as int);
    let mut acc: u64 = init;
    let mut k: usize = from;
    while k < to
        invariant
            from <= k <= to <= s@.len(),
            forall|x: int| from <= x < to ==> is_digit(#[trigger] s@[x]),
            acc == digits_val(prefix@ + s@.subrange(from as int, k as int)),
            full == prefix@ + s@.subrange(from as int, to as int),
        decreases to - k,
    {
        let c = s.get_char(k);
        let d: u64 = (c as u32 - 48) as u64;
        let wide: u128 = acc as u128 * 10 + d as u128;
        proof {
            let cur = prefix@ + s@.subrange(from as int, k as int);
            let next = prefix@ + s@.subrange(from as int, k + 1 as int);
            assert(next.drop_last() =~= cur);
            assert(next.last() == s@[k as int]);
            assert(wide == digits_val(next));
        }
        if wide > u64::MAX as u128 {
            proof {
                let next = prefix@ + s@.subrange(from as int, k + 1 as int);
                assert(next =~= full.subrange(0, prefix@.len() + (k + 1 - from)));
                lemma_digits_val_prefix_le(full, prefix@.len() + (k + 1 - from));
            }
            return None;
        }
        acc = wide as u64;
        k = k + 1;
    }
    assert(prefix@ + s@.subrange(from as int, k as int) =~= full);
    Some(acc)
}

/// Consumes one `"` character.
pub fn quote(s: &str, i: usize) -> (r: Option<usize>)
    requires
        i <= s@.len(),
    ensures
        r == (if i < s@.len() && s@[i as int] == '"' {
            Some((i + 1) as usize)
        } else {
            None::<usize>
        }),
{
    if i < s.unicode_len() && s.get_char(i) == '"' {
        Some(i + 1)
    } else {
        None
    }
}

/// Consumes one `.` character.
pub fn decimal(s: &str, i: usize) -> (r: Option<usize>)
    requires
        i <= s@.len(),
    ensures
        r == (if i < s@.len() && s@[i as int] == '.' {
            Some((i + 1) as usize)
        } else {
            None::<usize>
        }),
{
    if i < s.unicode_len() && s.get_char(i) == '.' {
        Some(i + 1)
    } else {
        None
    }
}

/// Consumes one character other than `"`.
pub fn character(s: &str, i: usize) -> (r: Option<(usize, char)>)
    requires
        i <= s@.len(),
    ensures
        r == (if i < s@.len() && s@[i as int] != '"' {
            Some(((i + 1) as usize, s@[i as int]))
        } else {
            None::<(usize, char)>
        }),
{
    if i < s.unicode_len() {
        let c = s.get_char(i);
        if c != '"' {
            return Some((i + 1, c));
        }
    }
    None
}

/// The position of the first `"` at or after `i`, or the input's end.
pub open spec fn quote_pos(s: Seq<char>, i: int) -> int
    recommends
        0 <= i <= s.len(),
    decreases s.len() - i,
        when 0 <= i <= s.len()
{
    if i >= s.len() || s[i] == '"' {
        i
    } else {
        quote_pos(s, i + 1)
    }
}

pub proof fn lemma_quote_pos_bounds(s: Seq<char>, i: int)
    requires
        0 <= i <= s.len(),
    ensures
        i <= quote_pos(s, i) <= s.len(),
    decreases s.len() - i,
{
    if !(i >= s.len() || s[i] == '"') {
        lemma_quote_pos_bounds(s, i + 1);
    }
}

/// A double-quoted string literal: any characters other than `"` between two
/// quotes, kept verbatim.
pub open spec fn spec_string(s: Seq<char>, i: int) -> Option<(int, Seq<char>)>
    recommends
        0 <= i <= s.len(),
{
    if i < s.len() && s[i] == '"' {
        let close = quote_pos(s, i + 1);
        if close < s.len() {
            Some((close + 1, s.subrange(i + 1, close)))
        } else {
            None
        }
    } else {
        None
    }
}

/// Parses a double-quoted string literal.
pub fn string(s: &str, i: usize) -> (r: Option<(usize, String)>)
    requires
        i <= s@.len(),
    ensures
        match (r, spec_string(s@, i as int)) {
            (Some((j, v)), Some((k, w))) => j as int == k && v@ == w,
            (None, None) => true,
            _ => false,
        },
{
    let n = s.unicode_len();
    if i >= n || s.get_char(i) != '"' {
        return None;
    }
    let mut j: usize = i + 1;
    while j < n && s.get_char(j) != '"'
        invariant
            i + 1 <= j <= n,
            n == s@.len(),
            quote_pos(s@, i + 1) == quote_pos(s@, j as int),
        decreases n - j,
    {
        j = j + 1;
    }
    if j >= n {
        return None;
    }
    let text = s.substring_char(i + 1, j);
    Some((j + 1, String::from_str(text)))
}

/// A value literal of the grammar. Numbers with a decimal point and list
/// elements are decimals; a bare numeral is an unsigned integer.
#[derive(Debug, Clone, PartialEq)]
pub enum Value {
    Float(Decimal),
    Int(u32),
    Text(String),
    List(Vec<Decimal>),
}

/// The mathematical shape of a [`Value`].
pub enum ValueView {
    Float(Decimal),
    Int(u32),
    Text(Seq<char>),
    List(Seq<Decimal>),
}

impl View for Value {
    type V = ValueView;

    open spec fn view(&self) -> ValueView {
        match self {
            Value::Float(d) => ValueView::Float(*d),
            Value::Int(x) => ValueView::Int(*x),
            Value::Text(t) => ValueView::Text(t@),
            Value::List(l) => ValueView::List(l@),
        }
    }
}

/// A run of digits writing a number no larger than `u32::MAX`.
pub open spec fn spec_atom_u32(s: Seq<char>, i: int) -> Option<(int, u32)>
    recommends
        0 <= i <= s.len(),
{
    let j = digit_run_end(s, i);
    if j == i {
        None
    } else {
        let v = digits_val(s.subrange(i, j));
        if v <= u32::MAX {
            Some((j, v as u32))
        } else {
            None
        }
    }
}

/// Parses a double-quoted string literal as a [`Value`].
pub fn atom_string(s: &str, i: usize) -> (r: Option<(usize, Value)>)
    requires
        i <= s@.len(),
    ensures
        match (r, spec_string(s@, i as int)) {
            (Some((j, v)), Some((k, w))) => j as int == k && v@ == ValueView::Text(w),
            (None, None) => true,
            _ => false,
        },
{
    match string(s, i) {
        Some((j, t)) => Some((j, Value::Text(t))),
        None => None,
    }
}

/// Parses an unsigned integer literal.
pub fn atom_u32(s: &str, i: usize, n: usize) -> (r: Option<(usize, u32)>)
    requires
        i <= n,
        n == s@.len(),
    ensures
        match (r, spec_atom_u32(s@, i as int)) {
            (Some((j, v)), Some((k, w))) => j as int == k && v == w,
            (None, None) => true,
            _ => false,
        },
{
    let j = scan_digits(s, i, n);
    proof {
        lemma_digit_run_end_bounds(s@, i as int);
    }
    if j == i {
        return None;
    }
    let folded = digits_fold(s, i, j, 0, Ghost(Seq::empty()));
    proof {
        assert(Seq::<char>::empty() + s@.subrange(i as int, j as int) =~= s@.subrange(
            i as int,
            j as int,
        ));
    }
    match folded {
        Some(v) => if v <= u32::MAX as u64 {
            Some((j, v as u32))
        } else {
            None
        },
        None => None,
    }
}

/// A numeral with a fractional part: digits, a point, digits. The mantissa
/// reads all digits with the point removed; the scale counts the fractional
/// digits. `None` also covers mantissas beyond `u64::MAX` and fractional
/// runs longer than `u32::MAX` digits, which the machine cannot hold.
pub open spec fn spec_atom_float(s: Seq<char>, i: int) -> Option<(int, Decimal)>
    recommends
        0 <= i <= s.len(),
{
    let j1 = digit_run_end(s, i);
    if j1 == i || j1 >= s.len() || s[j1] != '.' {
        None
    } else {
        let j2 = digit_run_end(s, j1 + 1);
        if j2 == j1 + 1 {
            None
        } else {
            let m = digits_val(s.subrange(i, j1) + s.subrange(j1 + 1, j2));
            if m <= u64::MAX && j2 - j1 - 1 <= u32::MAX {
                Some((j2, Decimal { mantissa: m as u64, scale: (j2 - j1 - 1) as u32 }))
            } else {
                None
            }
        }
    }
}

/// The extent alone of a numeral with a fractional part.
pub fn rec_float(s: &str, i: usize, n: usize) -> (r: Option<usize>)
    requires
        i <= n,
        n == s@.len(),
    ensures
        match (r, spec_atom_float(s@, i as int)) {
            (Some(j), Some((k, _))) => j as int == k,
            (None, None) => true,
            _ => false,
        },
{
    match atom_float(s, i, n) {
        Some((j, _)) => Some(j),
        None => None,
    }
}

/// Parses a numeral with a fractional part into a [`Decimal`].
pub fn atom_float(s: &str, i: usize, n: usize) -> (r: Option<(usize, Decimal)>)
    requires
        i <= n,
        n == s@.len(),
    ensures
        match (r, spec_atom_float(s@, i as int)) {
            (Some((j, v)), Some((k, w))) => j as int == k && v == w,
            (None, None) => true,
            _ => false,
        },
{
    let j1 = scan_digits(s, i, n);
    proof {
        lemma_digit_run_end_bounds(s@, i as int);
    }
    if j1 == i || j1 >= n || s.get_char(j1) != '.' {
        return None;
    }
    let j2 = scan_digits(s, j1 + 1, n);
    proof {
        lemma_digit_run_end_bounds(s@, j1 + 1);
    }
    if j2 == j1 + 1 {
        return None;
    }
    let int_part = digits_fold(s, i, j1, 0, Ghost(Seq::empty()));
    proof {
        assert(Seq::<char>::empty() + s@.subrange(i as int, j1 as int) =~= s@.subrange(
            i as int,
            j1 as int,
        ));
    }
    let ghost int_digits = s@.subrange(i as int, j1 as int);
    let ghost all_digits = int_digits + s@.subrange(j1 + 1, j2 as int);
    if j2 - j1 - 1 > u32::MAX as usize {
        return None;
    }
    match int_part {
        Some(ip) => {
            let m = digits_fold(s, j1 + 1, j2, ip, Ghost(int_digits));
            match m {
                Some(v) => Some((j2, Decimal { mantissa: v, scale: (j2 - j1 - 1) as u32 })),
                None => None,
            }
        },
        None => {
            proof {
                assert(int_digits =~= all_digits.subrange(0, int_digits.len() as int));
                lemma_digits_val_prefix_le(all_digits, int_digits.len() as int);
            }
            None
        },
    }
}

/// One element of a number list: digits with an optional fractional part.
/// A bare numeral reads as a whole number at scale zero.
pub open spec fn spec_list_elem(s: Seq<char>, i: int) -> Option<(int, Decimal)>
    recommends
        0 <= i <= s.len(),
{
    match spec_atom_float(s, i) {
        Some(r) => Some(r),
        None => {
            let j = digit_run_end(s, i);
            if j == i {
                None
            } else {
                let v = digits_val(s.subrange(i, j));
                if v <= u64::MAX {
                    Some((j, Decimal { mantissa: v as u64, scale: 0 }))
                } else {
                    None
                }
            }
        },
    }
}

pub proof fn lemma_spec_list_elem_advances(s: Seq<char>, i: int)
    requires
        0 <= i <= s.len(),
    ensures
        match spec_list_elem(s, i) {
            Some((j, _)) => i < j <= s.len(),
            None => true,
        },
{
    lemma_digit_run_end_bounds(s, i);
    if i < s.len() {
        lemma_digit_run_end_bounds(s, i + 1);
        let j1 = digit_run_end(s, i);
        if j1 != i && j1 < s.len() && s[j1] == '.' {
            lemma_digit_run_end_bounds(s, j1 + 1);
        }
    }
}

/// Parses one list element.
fn list_elem(s: &str, i: usize, n: usize) -> (r: Option<(usize, Decimal)>)
    requires
        i <= n,
        n == s@.len(),
    ensures
        match (r, spec_list_elem(s@, i as int)) {
            (Some((j, v)), Some((k, w))) => j as int == k && v == w,
            (None, None) => true,
            _ => false,
        },
{
    match atom_float(s, i, n) {
        Some(r) => Some(r),
        None => {
            match atom_u32_wide(s, i, n) {
                Some((j, v)) => Some((j, Decimal { mantissa: v, scale: 0 })),
                None => None,
            }
        },
    }
}

/// Parses a digit run as a `u64`.
fn atom_u32_wide(s: &str, i: usize, n: usize) -> (r: Option<(usize, u64)>)
    requires
        i <= n,
        n == s@.len(),
    ensures
        ({
            let j = digit_run_end(s@, i as int);
            let v = digits_val(s@.subrange(i as int, j));
            match r {
                Some((rj, rv)) => j != i && rj as int == j && rv == v && v <= u64::MAX,
                None => j == i as int || v > u64::MAX,
            }
        }),
{
    let j = scan_digits(s, i, n);
    proof {
        lemma_digit_run_end_bounds(s@, i as int);
    }
    if j == i {
        return None;
    }
    let folded = digits_fold(s, i, j, 0, Ghost(Seq::empty()));
    proof {
        assert(Seq::<char>::empty() + s@.subrange(i as int, j as int) =~= s@.subrange(
            i as int,
            j as int,
        ));
    }
    match folded {
        Some(v) => Some((j, v)),
        None => None,
    }
}

/// The elements that follow the first one: one or more `,`-separated
/// numbers. A separator that no element follows is a parse error, never a
/// shorter list.
pub open spec fn spec_list_rest(s: Seq<char>, i: int) -> Option<(int, Seq<Decimal>)>
    recommends
        0 <= i <= s.len(),
    decreases s.len() - i,
        when 0 <= i <= s.len()
{
    if i < s.len() && s[i] == ',' {
        match spec_list_elem(s, i + 1) {
            None => None,
            Some((j, d)) => if i + 1 < j <= s.len() {
                match spec_list_rest(s, j) {
                    None => None,
                    Some((k, rest)) => Some((k, seq![d] + rest)),
                }
            } else {
                None
            },
        }
    } else {
        Some((i, Seq::empty()))
    }
}

/// A comma-separated number list: at least two elements, so that a bare
/// numeral stays an integer or a decimal.
pub open spec fn spec_atom_list(s: Seq<char>, i: int) -> Option<(int, Seq<Decimal>)>
    recommends
        0 <= i <= s.len(),
{
    match spec_list_elem(s, i) {
        None => None,
        Some((j, first)) => if j < s.len() && s[j] == ',' {
            match spec_list_rest(s, j) {
                None => None,
                Some((k, rest)) => Some((k, seq![first] + rest)),
            }
        } else {
            None
        },
    }
}

/// Parses a comma-separated number list.
pub fn atom_list(s: &str, i: usize, n: usize) -> (r: Option<(usize, Vec<Decimal>)>)
    requires
        i <= n,
        n == s@.len(),
    ensures
        match (r, spec_atom_list(s@, i as int)) {
            (Some((j, v)), Some((k, w))) => j as int == k && v@ == w,
            (None, None) => true,
            _ => false,
        },
{
    proof {
        lemma_spec_list_elem_advances(s@, i as int);
    }
    let first = match list_elem(s, i, n) {
        Some(r) => r,
        None => {
            return None;
        },
    };
    let (first_pos, d0) = first;
    if !(first_pos < n && s.get_char(first_pos) == ',') {
        return None;
    }
    let ghost j0 = first_pos as int;
    let mut out: Vec<Decimal> = Vec::new();
    out.push(d0);
    let mut pos: usize = first_pos;
    proof {
        match spec_list_rest(s@, j0) {
            Some((k, rest)) => {
                assert(seq![d0] + rest =~= out@ + rest);
            },
            None => {},
        }
    }
    loop
        invariant
            i <= pos <= n,
            i as int <= j0 <= n,
            n == s@.len(),
            spec_list_elem(s@, i as int) == Some((j0, d0)),
            j0 < n && s@[j0] == ',',
            ({
                match spec_list_rest(s@, pos as int) {
                    Some((k, rest)) => spec_list_rest(s@, j0) matches Some((k2, all)) && k2 == k
                        && seq![d0] + all == out@ + rest,
                    None => spec_list_rest(s@, j0) is None,
                }
            }),
        decreases n - pos,
    {
        let mut more: bool = false;
        if pos < n {
            if s.get_char(pos) == ',' {
                more = true;
            }
        }
        if !more {
            proof {
                assert(spec_list_rest(s@, pos as int) == Some(
                    (pos as int, Seq::<Decimal>::empty()),
                ));
                let all = spec_list_rest(s@, j0).unwrap().1;
                assert(out@ + Seq::<Decimal>::empty() =~= out@);
                assert(seq![d0] + all == out@);
                assert(spec_atom_list(s@, i as int) == Some((pos as int, out@)));
            }
            return Some((pos, out));
        }
        proof {
            lemma_spec_list_elem_advances(s@, pos + 1);
        }
        match list_elem(s, pos + 1, n) {
            None => {
                assert(spec_list_rest(s@, pos as int) is None);
                return None;
            },
            Some((j, d)) => {
                proof {
                    let step = spec_list_rest(s@, pos as int);
                    let tail = spec_list_rest(s@, j as int);
                    match tail {
                        Some((k, rest)) => {
                            assert(step == Some((k, seq![d] + rest)));
                            assert(out@ + (seq![d] + rest) =~= (out@ + seq![d]) + rest);
                        },
                        None => {
                            assert(step is None);
                        },
                    }
                }
                out.push(d);
                pos = j;
            },
        }
    }
}

pub proof fn lemma_spec_list_rest_bounds(s: Seq<char>, i: int)
    requires
        0 <= i <= s.len(),
    ensures
        match spec_list_rest(s, i) {
            Some((k, _)) => i <= k <= s.len(),
            None => true,
        },
    decreases s.len() - i,
{
    if i < s.len() && s[i] == ',' {
        match spec_list_elem(s, i + 1) {
            None => {},
            Some((j, _)) => {
                if i + 1 < j <= s.len() {
                    lemma_spec_list_rest_bounds(s, j);
                }
            },
        }
    }
}

/// A successful value parse always consumes at least one character and
/// never runs past the input.
pub proof fn lemma_spec_atom_advances(s: Seq<char>, i: int)
    requires
        0 <= i <= s.len(),
    ensures
        match spec_atom(s, i) {
            Some((j, _)) => i < j <= s.len(),
            None => true,
        },
{
    lemma_spec_list_elem_advances(s, i);
    lemma_digit_run_end_bounds(s, i);
    match spec_list_elem(s, i) {
        Some((j, _)) => {
            if j < s.len() && s[j] == ',' {
                lemma_spec_list_rest_bounds(s, j);
            }
        },
        None => {},
    }
    let j1 = digit_run_end(s, i);
    if j1 != i && j1 < s.len() && s[j1] == '.' {
        lemma_digit_run_end_bounds(s, j1 + 1);
    }
    if i < s.len() && s[i] == '"' {
        lemma_quote_pos_bounds(s, i + 1);
    }
}

/// Any value literal. A list is tried first so that `1,2` reads as a list;
/// a lone numeral with a point is a decimal, a bare numeral an integer, and
/// a quoted run of characters a string.
pub open spec fn spec_atom(s: Seq<char>, i: int) -> Option<(int, ValueView)>
    recommends
        0 <= i <= s.len(),
{
    match spec_atom_list(s, i) {
        Some((j, l)) => Some((j, ValueView::List(l))),
        None => match spec_atom_float(s, i) {
            Some((j, d)) => Some((j, ValueView::Float(d))),
            None => match spec_atom_u32(s, i) {
                Some((j, x)) => Some((j, ValueView::Int(x))),
                None => match spec_string(s, i) {
                    Some((j, t)) => Some((j, ValueView::Text(t))),
                    None => None,
                },
            },
        },
    }
}

/// Parses any value literal.
pub fn atom(s: &str, i: usize, n: usize) -> (r: Option<(usize, Value)>)
    requires
        i <= n,
        n == s@.len(),
    ensures
        match (r, spec_atom(s@, i as int)) {
            (Some((j, v)), Some((k, w))) => j as int == k && v@ == w,
            (None, None) => true,
            _ => false,
        },
{
    if let Some((j, l)) = atom_list(s, i, n) {
        return Some((j, Value::List(l)));
    }
    if let Some((j, d)) = atom_float(s, i, n) {
        return Some((j, Value::Float(d)));
    }
    if let Some((j, x)) = atom_u32(s, i, n) {
        return Some((j, Value::Int(x)));
    }
    if let Some((j, t)) = string(s, i) {
        return Some((j, Value::Text(t)));
    }
    None
}

} // verus!
