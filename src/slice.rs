use vstd::prelude::*;
use vstd::string::StringSliceAdditionalSpecFns;

verus! {

/// The largest magnitude the digit accumulator tracks exactly; every larger
/// magnitude is out of range for `isize` as well.
const MAGNITUDE_CAP: i128 = 18446744073709551616;

/// A slice descriptor: optional start and end positions and an optional step.
/// A negative position counts from the rear. A step, when present, is never zero.
#[derive(Debug, Clone, Copy, PartialEq, Eq, Hash, Structural)]
pub struct JMESSlice {
    pub start: Option<isize>,
    pub end: Option<isize>,
    pub step: Option<isize>,
}

/// Why a slice literal was refused.
#[derive(Debug, Clone, Copy, PartialEq, Eq, Hash, Structural)]
pub enum ParseJMESSliceError {
    /// The text is not of the form `[start]:[end][:[step]]`.
    InvalidFormat,
    /// The step is present and equal to zero.
    StepNotAllowedToBeZero,
}

impl JMESSlice {
    /// A descriptor is well formed when its step is absent or non-zero.
    pub open spec fn wf(self) -> bool {
        self.step != Some(0isize)
    }

    /// The descriptor with every field absent: the whole sequence, forward.
    pub open spec fn spec_default() -> JMESSlice {
        JMESSlice { start: None, end: None, step: None }
    }
}

impl Default for JMESSlice {
    fn default() -> (r: JMESSlice)
        ensures
            r == JMESSlice::spec_default(),
    {
        JMESSlice { start: None, end: None, step: None }
    }
}

impl From<core::ops::Range<isize>> for JMESSlice {
    fn from(range: core::ops::Range<isize>) -> (r: JMESSlice)
        ensures
            r == (JMESSlice { start: Some(range.start), end: Some(range.end), step: None }),
    {
        JMESSlice { start: Some(range.start), end: Some(range.end), step: None }
    }
}

impl vstd::std_specs::convert::FromSpecImpl<core::ops::Range<isize>> for JMESSlice {
    open spec fn obeys_from_spec() -> bool {
        true
    }

    open spec fn from_spec(range: core::ops::Range<isize>) -> JMESSlice {
        JMESSlice { start: Some(range.start), end: Some(range.end), step: None }
    }
}

pub open spec fn is_digit(b: u8) -> bool {
    48 <= b <= 57
}

pub open spec fn all_digits(t: Seq<u8>) -> bool {
    forall|i: int| 0 <= i < t.len() ==> is_digit(#[trigger] t[i])
}

/// The number that a string of decimal digits denotes.
pub open spec fn digits_value(t: Seq<u8>) -> int
    decreases t.len(),
{
    if t.len() == 0 {
        0
    } else {
        10 * digits_value(t.drop_last()) + (t.last() - 48)
    }
}

/// `-?[0-9]+`
pub open spec fn is_integer_text(t: Seq<u8>) -> bool {
    if t.len() > 0 && t[0] == 45 {
        t.len() > 1 && all_digits(t.subrange(1, t.len() as int))
    } else {
        t.len() > 0 && all_digits(t)
    }
}

pub open spec fn integer_value(t: Seq<u8>) -> int {
    if t.len() > 0 && t[0] == 45 {
        -digits_value(t.subrange(1, t.len() as int))
    } else {
        digits_value(t)
    }
}

/// A field of a slice literal is empty, or an integer that fits in `isize`.
pub open spec fn field_ok(t: Seq<u8>) -> bool {
    t.len() == 0 || (is_integer_text(t) && isize::MIN <= integer_value(t) <= isize::MAX)
}

pub open spec fn field_value(t: Seq<u8>) -> Option<isize> {
    if t.len() == 0 {
        None
    } else {
        Some(integer_value(t) as isize)
    }
}

/// The position of the first `:` at or after `from`, or the length if there is none.
pub open spec fn next_colon(t: Seq<u8>, from: int) -> int
    decreases t.len() - from,
{
    if 0 <= from < t.len() {
        if t[from] == 58 {
            from
        } else {
            next_colon(t, from + 1)
        }
    } else {
        t.len() as int
    }
}

/// What a slice literal `[start]:[end][:[step]]` denotes. A number that does
/// not fit in `isize` makes the literal malformed.
pub open spec fn parse_spec(t: Seq<u8>) -> Result<JMESSlice, ParseJMESSliceError> {
    let n = t.len() as int;
    let c1 = next_colon(t, 0);
    let c2 = if c1 < n { next_colon(t, c1 + 1) } else { n };
    let c3 = if c2 < n { next_colon(t, c2 + 1) } else { n };
    if c1 == n || c3 < n {
        Err(ParseJMESSliceError::InvalidFormat)
    } else {
        let a = t.subrange(0, c1);
        let b = t.subrange(c1 + 1, c2);
        let c = if c2 < n { t.subrange(c2 + 1, n) } else { Seq::empty() };
        if !(field_ok(a) && field_ok(b) && field_ok(c)) {
            Err(ParseJMESSliceError::InvalidFormat)
        } else if field_value(c) == Some(0isize) {
            Err(ParseJMESSliceError::StepNotAllowedToBeZero)
        } else {
            Ok(JMESSlice { start: field_value(a), end: field_value(b), step: field_value(c) })
        }
    }
}

proof fn lemma_next_colon_none(t: Seq<u8>, from: int)
    requires
        0 <= from,
        forall|i: int| 0 <= i < t.len() ==> t[i] != 58,
    ensures
        next_colon(t, from) == t.len(),
    decreases t.len() - from,
{
    if from < t.len() {
        lemma_next_colon_none(t, from + 1);
    }
}

/// Text without a `:` is never a slice literal.
pub proof fn lemma_colon_required(t: Seq<u8>)
    requires
        forall|i: int| 0 <= i < t.len() ==> t[i] != 58,
    ensures
        parse_spec(t) == Err::<JMESSlice, ParseJMESSliceError>(ParseJMESSliceError::InvalidFormat),
{
    lemma_next_colon_none(t, 0);
}

fn find_colon(b: &[u8], from: usize) -> (r: usize)
    requires
        from <= b@.len(),
    ensures
        r == next_colon(b@, from as int),
        from <= r <= b@.len(),
{
    let mut i: usize = from;
    while i < b.len() && b[i] != 58u8
        invariant
            from <= i <= b@.len(),
            next_colon(b@, from as int) == next_colon(b@, i as int),
        decreases b@.len() - i,
    {
        i = i + 1;
    }
    i
}

/// Reads the field `b[lo..hi]`: `None` when it is malformed, else its value.
fn parse_field(b: &[u8], lo: usize, hi: usize) -> (r: Option<Option<isize>>)
    requires
        lo <= hi <= b@.len(),
    ensures
        r is Some <==> field_ok(b@.subrange(lo as int, hi as int)),
        r is Some ==> r->0 == field_value(b@.subrange(lo as int, hi as int)),
{
    let ghost t = b@.subrange(lo as int, hi as int);
    if lo == hi {
        return Some(None);
    }
    let negative = b[lo] == 45u8;
    let first: usize = if negative { lo + 1 } else { lo };
    if first == hi {
        return None;
    }
    let ghost d = b@.subrange(first as int, hi as int);
    assert(negative ==> d =~= t.subrange(1, t.len() as int));
    assert(!negative ==> d =~= t);
    let mut acc: i128 = 0;
    let mut i: usize = first;
    while i < hi
        invariant
            lo <= first <= i <= hi <= b@.len(),
            d == b@.subrange(first as int, hi as int),
            t == b@.subrange(lo as int, hi as int),
            lo < hi,
            negative == (b@[lo as int] == 45),
            negative ==> d =~= t.subrange(1, t.len() as int),
            !negative ==> d =~= t,
            all_digits(b@.subrange(first as int, i as int)),
            0 <= acc <= MAGNITUDE_CAP,
            acc == MAGNITUDE_CAP ==> digits_value(b@.subrange(first as int, i as int)) >= MAGNITUDE_CAP,
            acc < MAGNITUDE_CAP ==> acc == digits_value(b@.subrange(first as int, i as int)),
        decreases hi - i,
    {
        let c = b[i];
        if c < 48u8 || c > 57u8 {
            assert(d[i - first] == c);
            assert(!is_digit(d[i - first]));
            assert(!all_digits(d));
            assert(t[0] == b@[lo as int]);
            assert(!is_integer_text(t));
            return None;
        }
        let ghost prev = b@.subrange(first as int, i as int);
        let ghost next = b@.subrange(first as int, i + 1);
        assert(next.drop_last() =~= prev);
        assert(next.last() == c);
        assert forall|k: int| 0 <= k < next.len() implies is_digit(#[trigger] next[k]) by {
            if k < prev.len() {
                assert(next[k] == prev[k]);
            }
        }
        if acc < MAGNITUDE_CAP {
            let v: i128 = acc * 10 + (c - 48u8) as i128;
            acc = if v < MAGNITUDE_CAP { v } else { MAGNITUDE_CAP };
        }
        i = i + 1;
    }
    assert(b@.subrange(first as int, i as int) =~= d);
    if acc == MAGNITUDE_CAP {
        return None;
    }
    let v: i128 = if negative { -acc } else { acc };
    if v < isize::MIN as i128 || v > isize::MAX as i128 {
        return None;
    }
    Some(Some(v as isize))
}

impl JMESSlice {
    /// Parses a slice literal `[start]:[end][:[step]]`, where each part is an
    /// optional, optionally negative, decimal integer.
    pub fn parse(s: &str) -> (r: Result<JMESSlice, ParseJMESSliceError>)
        ensures
            r == parse_spec(s.spec_bytes()),
            r is Ok ==> r->Ok_0.wf(),
    {
        let b = s.as_bytes();
        let n = b.len();
        let c1 = find_colon(b, 0);
        if c1 == n {
            return Err(ParseJMESSliceError::InvalidFormat);
        }
        let c2 = find_colon(b, c1 + 1);
        let c3 = if c2 < n { find_colon(b, c2 + 1) } else { n };
        if c3 < n {
            return Err(ParseJMESSliceError::InvalidFormat);
        }
        let step_lo = if c2 < n { c2 + 1 } else { n };
        assert(c2 == n ==> b@.subrange(step_lo as int, n as int) =~= Seq::<u8>::empty());
        let start = parse_field(b, 0, c1);
        let end = parse_field(b, c1 + 1, c2);
        let step = parse_field(b, step_lo, n);
        match (start, end, step) {
            (Some(start), Some(end), Some(step)) => {
                match step {
                    Some(k) => {
                        if k == 0 {
                            return Err(ParseJMESSliceError::StepNotAllowedToBeZero);
                        }
                    },
                    None => {},
                }
                Ok(JMESSlice { start, end, step })
            },
            _ => Err(ParseJMESSliceError::InvalidFormat),
        }
    }
}

impl core::str::FromStr for JMESSlice {
    type Err = ParseJMESSliceError;

    fn from_str(s: &str) -> (r: Result<JMESSlice, ParseJMESSliceError>)
        ensures
            r == parse_spec(s.spec_bytes()),
    {
        JMESSlice::parse(s)
    }
}

} // verus!
