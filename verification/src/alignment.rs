//! Alignment of a photo inside its cell.

use vstd::prelude::*;
use vstd::string::*;
use crate::arith::{div_round, nonneg};

verus! {

/// Where, along one axis, a photo sits inside the free space of its cell:
/// at the start (factor 0), in the middle (factor 1/2) or at the end (factor 1).
#[derive(Clone, Copy, Debug, PartialEq, Eq, Structural)]
pub enum AlignFactor {
    Start,
    Center,
    End,
}

impl AlignFactor {
    /// The factor in halves: 0, 1 or 2.
    pub open spec fn halves(self) -> int {
        match self {
            AlignFactor::Start => 0,
            AlignFactor::Center => 1,
            AlignFactor::End => 2,
        }
    }
}

/// `s` and `t` hold the same characters.
pub fn str_equal(s: &str, t: &str) -> (r: bool)
    ensures
        r == (s@ == t@),
{
    s.to_owned() == t.to_owned()
}

/// `s` ends with the characters of `suffix`.
pub open spec fn ends_with(s: Seq<char>, suffix: Seq<char>) -> bool {
    suffix.len() <= s.len() && s.subrange(s.len() - suffix.len(), s.len() as int) == suffix
}

/// `s` starts with the characters of `prefix`.
pub open spec fn starts_with(s: Seq<char>, prefix: Seq<char>) -> bool {
    prefix.len() <= s.len() && s.subrange(0, prefix.len() as int) == prefix
}

/// Whether `s` ends with `suffix`.
pub fn str_ends_with(s: &str, suffix: &str) -> (r: bool)
    ensures
        r == ends_with(s@, suffix@),
{
    let n = s.unicode_len();
    let m = suffix.unicode_len();
    if m > n {
        return false;
    }
    let start = n - m;
    let mut i: usize = 0;
    while i < m
        invariant
            n == s@.len(),
            m == suffix@.len(),
            m <= n,
            start == n - m,
            i <= m,
            forall|k: int| 0 <= k < i ==> s@[start + k] == suffix@[k],
        decreases m - i,
    {
        if s.get_char(start + i) != suffix.get_char(i) {
            assert(s@.subrange(start as int, n as int)[i as int] != suffix@[i as int]);
            return false;
        }
        i = i + 1;
    }
    assert(s@.subrange(start as int, n as int) =~= suffix@);
    true
}

/// Whether `s` starts with `prefix`.
pub fn str_starts_with(s: &str, prefix: &str) -> (r: bool)
    ensures
        r == starts_with(s@, prefix@),
{
    let n = s.unicode_len();
    let m = prefix.unicode_len();
    if m > n {
        return false;
    }
    let mut i: usize = 0;
    while i < m
        invariant
            n == s@.len(),
            m == prefix@.len(),
            m <= n,
            i <= m,
            forall|k: int| 0 <= k < i ==> s@[k] == prefix@[k],
        decreases m - i,
    {
        if s.get_char(i) != prefix.get_char(i) {
            assert(s@.subrange(0, m as int)[i as int] != prefix@[i as int]);
            return false;
        }
        i = i + 1;
    }
    assert(s@.subrange(0, m as int) =~= prefix@);
    true
}

/// Horizontal and vertical factors that the print engine gives an alignment
/// name: the nine names `top-left` .. `bottom-right` (with `center` for the
/// middle one) map to their position, any other name to the centre.
pub open spec fn engine_alignment(a: Seq<char>) -> (AlignFactor, AlignFactor) {
    if a == "top-left"@ {
        (AlignFactor::Start, AlignFactor::Start)
    } else if a == "top-center"@ {
        (AlignFactor::Center, AlignFactor::Start)
    } else if a == "top-right"@ {
        (AlignFactor::End, AlignFactor::Start)
    } else if a == "center-left"@ {
        (AlignFactor::Start, AlignFactor::Center)
    } else if a == "center"@ {
        (AlignFactor::Center, AlignFactor::Center)
    } else if a == "center-right"@ {
        (AlignFactor::End, AlignFactor::Center)
    } else if a == "bottom-left"@ {
        (AlignFactor::Start, AlignFactor::End)
    } else if a == "bottom-center"@ {
        (AlignFactor::Center, AlignFactor::End)
    } else if a == "bottom-right"@ {
        (AlignFactor::End, AlignFactor::End)
    } else {
        (AlignFactor::Center, AlignFactor::Center)
    }
}

/// Parse an alignment name into `(x, y)` factors (see [`engine_alignment`]).
pub fn parse_alignment(alignment: &str) -> (r: (AlignFactor, AlignFactor))
    ensures
        r == engine_alignment(alignment@),
{
    if str_equal(alignment, "top-left") {
        (AlignFactor::Start, AlignFactor::Start)
    } else if str_equal(alignment, "top-center") {
        (AlignFactor::Center, AlignFactor::Start)
    } else if str_equal(alignment, "top-right") {
        (AlignFactor::End, AlignFactor::Start)
    } else if str_equal(alignment, "center-left") {
        (AlignFactor::Start, AlignFactor::Center)
    } else if str_equal(alignment, "center") {
        (AlignFactor::Center, AlignFactor::Center)
    } else if str_equal(alignment, "center-right") {
        (AlignFactor::End, AlignFactor::Center)
    } else if str_equal(alignment, "bottom-left") {
        (AlignFactor::Start, AlignFactor::End)
    } else if str_equal(alignment, "bottom-center") {
        (AlignFactor::Center, AlignFactor::End)
    } else if str_equal(alignment, "bottom-right") {
        (AlignFactor::End, AlignFactor::End)
    } else {
        (AlignFactor::Center, AlignFactor::Center)
    }
}

/// Horizontal and vertical factors that the printer gives an alignment name:
/// a name ending in `left` starts, one ending in `right` ends, any other is
/// centred horizontally; a name starting with `top` starts, one starting with
/// `bottom` ends, any other is centred vertically.
pub open spec fn printer_alignment(a: Seq<char>) -> (AlignFactor, AlignFactor) {
    let x = if ends_with(a, "left"@) {
        AlignFactor::Start
    } else if ends_with(a, "right"@) {
        AlignFactor::End
    } else {
        AlignFactor::Center
    };
    let y = if starts_with(a, "top"@) {
        AlignFactor::Start
    } else if starts_with(a, "bottom"@) {
        AlignFactor::End
    } else {
        AlignFactor::Center
    };
    (x, y)
}

/// Alignment factors by the suffix/prefix rule (see [`printer_alignment`]).
pub fn alignment_factors(alignment: &str) -> (r: (AlignFactor, AlignFactor))
    ensures
        r == printer_alignment(alignment@),
{
    let x = if str_ends_with(alignment, "left") {
        AlignFactor::Start
    } else if str_ends_with(alignment, "right") {
        AlignFactor::End
    } else {
        AlignFactor::Center
    };
    let y = if str_starts_with(alignment, "top") {
        AlignFactor::Start
    } else if str_starts_with(alignment, "bottom") {
        AlignFactor::End
    } else {
        AlignFactor::Center
    };
    (x, y)
}

/// The offset that `factor` gives inside `extra` free units: the free space
/// (negative counts as none) times the factor, rounded half away from zero.
pub open spec fn aligned_offset_spec(extra: int, factor: AlignFactor) -> int {
    div_round(nonneg(extra) * factor.halves(), 2)
}

/// Offset of a photo inside `extra` units of free space.
pub fn aligned_offset(extra: i32, factor: AlignFactor) -> (r: i32)
    ensures
        r == aligned_offset_spec(extra as int, factor),
        0 <= r <= nonneg(extra as int),
{
    let e: i32 = if extra < 0 { 0 } else { extra };
    match factor {
        AlignFactor::Start => {
            assert(div_round(0, 2) == 0) by {
                assert((2 * 0 + 2) / (2 * 2) == 0) by (nonlinear_arith);
            }
            0
        },
        AlignFactor::End => {
            assert(div_round(e * 2, 2) == e) by {
                assert((2 * (e * 2) + 2) / 4 == e) by (nonlinear_arith)
                    requires e >= 0;
            }
            e
        },
        AlignFactor::Center => {
            let h = ((e as u32 + 1) / 2) as i32;
            assert(div_round(e * 1, 2) == h) by {
                assert((2 * (e * 1) + 2) / 4 == (e + 1) / 2) by (nonlinear_arith)
                    requires e >= 0;
            }
            h
        },
    }
}

} // verus!

verus! {

/// Offset of a photo inside `extra` free pixels (see [`aligned_offset_spec`]).
pub fn align_within(extra: u32, factor: AlignFactor) -> (r: u32)
    ensures
        r == aligned_offset_spec(extra as int, factor),
        r <= extra,
{
    match factor {
        AlignFactor::Start => {
            assert(div_round(0, 2) == 0) by {
                assert((2 * 0 + 2) / (2 * 2) == 0) by (nonlinear_arith);
            }
            0
        },
        AlignFactor::End => {
            assert(div_round(extra * 2, 2) == extra) by {
                assert((2 * (extra * 2) + 2) / 4 == extra) by (nonlinear_arith)
                    requires extra >= 0;
            }
            extra
        },
        AlignFactor::Center => {
            let h = ((extra as u64 + 1) / 2) as u32;
            assert(div_round(extra * 1, 2) == h) by {
                assert((2 * (extra * 1) + 2) / 4 == (extra + 1) / 2) by (nonlinear_arith)
                    requires extra >= 0;
            }
            h
        },
    }
}

} // verus!
