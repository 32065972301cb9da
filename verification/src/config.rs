//! Interpretation of command-line values for the Koch curve sketch, and
//! the animation's depth stepper.
//!
//! Malformed input is not an error path: an unrecognized curve family
//! falls back to the linear one, and an unparseable side count or depth
//! falls back to its default (5 sides, depth 4).

use vstd::prelude::*;

verus! {

/// Which Koch curve family to draw.
#[derive(Clone, Copy, Debug, PartialEq, Eq, Structural)]
pub enum KochType {
    Linear,
    /// Radial, with the number of sides of the seed polygon.
    Radial(u32),
}

/// The sketch's configuration, built once from the command line and passed
/// by ownership into the setup routine.
#[derive(Clone, Copy, Debug, PartialEq, Eq, Structural)]
pub struct Model {
    pub koch_type: KochType,
    pub depth: u32,
}

/// `c` is a decimal digit.
pub open spec fn is_digit(c: char) -> bool {
    48 <= c as int <= 57
}

/// The value of the digit `c`.
pub open spec fn digit_val(c: char) -> int {
    c as int - 48
}

/// `s` is a nonempty string of decimal digits.
pub open spec fn spec_is_digits(s: Seq<char>) -> bool {
    s.len() > 0 && forall|i: int| 0 <= i < s.len() ==> is_digit(#[trigger] s[i])
}

/// The numeric value of the digit string `s`, most significant digit
/// first.
pub open spec fn spec_dec_val(s: Seq<char>) -> int
    decreases s.len(),
{
    if s.len() == 0 {
        0
    } else {
        10 * spec_dec_val(s.drop_last()) + digit_val(s.last())
    }
}

/// The digit part of a decimal string: everything after an optional
/// leading plus sign.
pub open spec fn spec_digits_part(s: Seq<char>) -> Seq<char> {
    if s.len() > 0 && s[0] == '+' {
        s.subrange(1, s.len() as int)
    } else {
        s
    }
}

/// What parsing an unsigned decimal yields: the value of a nonempty digit
/// string (after an optional leading plus sign) that fits, and the
/// fallback `default` for everything else.
pub open spec fn spec_parse_u32(s: Seq<char>, default: u32) -> u32 {
    if spec_is_digits(spec_digits_part(s)) && spec_dec_val(spec_digits_part(s)) <= u32::MAX as int {
        spec_dec_val(spec_digits_part(s)) as u32
    } else {
        default
    }
}

/// `spec_parse_u32` over an optional string; a missing string yields the
/// fallback.
pub open spec fn spec_opt_parse(s: Option<&str>, default: u32) -> u32 {
    match s {
        Option::None => default,
        Option::Some(t) => spec_parse_u32(t@, default),
    }
}

proof fn lemma_dec_val_nonneg(s: Seq<char>)
    requires
        forall|j: int| 0 <= j < s.len() ==> is_digit(#[trigger] s[j]),
    ensures
        spec_dec_val(s) >= 0,
    decreases s.len(),
{
    if s.len() > 0 {
        lemma_dec_val_nonneg(s.drop_last());
    }
}

/// The value of a digit string is at least the value of any of its
/// prefixes.
proof fn lemma_dec_val_prefix_le(s: Seq<char>, i: int)
    requires
        forall|j: int| 0 <= j < s.len() ==> is_digit(#[trigger] s[j]),
        0 <= i <= s.len(),
    ensures
        spec_dec_val(s.subrange(0, i)) <= spec_dec_val(s),
    decreases s.len() - i,
{
    if i == s.len() {
        assert(s.subrange(0, i) =~= s);
    } else {
        lemma_dec_val_prefix_le(s, i + 1);
        let t = s.subrange(0, i + 1);
        assert(t.drop_last() =~= s.subrange(0, i));
        lemma_dec_val_nonneg(s.subrange(0, i));
    }
}

/// Compares two strings character by character.
pub fn str_eq(a: &str, b: &str) -> (r: bool)
    ensures
        r == (a@ == b@),
{
    let na = a.unicode_len();
    let nb = b.unicode_len();
    if na != nb {
        return false;
    }
    let mut i: usize = 0;
    while i < na
        invariant
            na == a@.len(),
            na == b@.len(),
            i <= na,
            forall|j: int| 0 <= j < i ==> a@[j] == b@[j],
        decreases na - i,
    {
        if a.get_char(i) != b.get_char(i) {
            return false;
        }
        i = i + 1;
    }
    proof {
        assert(a@ =~= b@);
    }
    true
}

/// Parses a nonempty decimal digit string, with an optional leading plus
/// sign, whose value fits in a `u32`; any other input yields `default`.
pub fn parse_u32_or(s: &str, default: u32) -> (r: u32)
    ensures
        r == spec_parse_u32(s@, default),
{
    let n = s.unicode_len();
    if n == 0 {
        return default;
    }
    let start: usize = if s.get_char(0) == '+' {
        1
    } else {
        0
    };
    let ghost d = spec_digits_part(s@);
    proof {
        assert(d =~= s@.subrange(start as int, n as int));
    }
    if start == n {
        // A lone plus sign carries no digits.
        proof {
            assert(d.len() == 0);
        }
        return default;
    }
    let mut val: u64 = 0;
    let mut i: usize = start;
    while i < n
        invariant
            n == s@.len(),
            start <= i <= n,
            start < n,
            d == spec_digits_part(s@),
            d == s@.subrange(start as int, n as int),
            forall|j: int| start <= j < i ==> is_digit(#[trigger] s@[j]),
            val == spec_dec_val(s@.subrange(start as int, i as int)),
            val <= u32::MAX,
        decreases n - i,
    {
        let c = s.get_char(i);
        let dgt = c as u32;
        if dgt < 48 || dgt > 57 {
            proof {
                assert(d[i - start] == s@[i as int]);
            }
            return default;
        }
        let newval = val * 10 + ((dgt - 48) as u64);
        proof {
            let t = s@.subrange(start as int, i + 1);
            assert(t.drop_last() =~= s@.subrange(start as int, i as int));
            assert(t.last() == s@[i as int]);
            assert(newval == spec_dec_val(t));
        }
        if newval > 0xFFFF_FFFF {
            proof {
                if spec_is_digits(d) && spec_dec_val(d) <= u32::MAX as int {
                    assert(d.subrange(0, i + 1 - start) =~= s@.subrange(start as int, i + 1));
                    lemma_dec_val_prefix_le(d, i + 1 - start);
                    assert(false);
                }
            }
            return default;
        }
        val = newval;
        i = i + 1;
    }
    proof {
        assert(forall|j: int| 0 <= j < d.len() ==> is_digit(#[trigger] d[j])) by {
            assert(forall|j: int|
                0 <= j < d.len() ==> #[trigger] d[j] == s@[start + j] && is_digit(s@[start + j]));
        }
        assert(spec_is_digits(d));
        assert(val == spec_dec_val(d));
    }
    val as u32
}

/// Builds the sketch configuration from the raw command-line values: the
/// `radial` family takes its side count (default 5), any other family
/// string means linear; the recursion depth defaults to 4.
pub fn build_model(koch_type_str: &str, sides_str: Option<&str>, depth_str: Option<&str>) -> (m:
    Model)
    ensures
        m.koch_type == (if koch_type_str@ == "radial"@ {
            KochType::Radial(spec_opt_parse(sides_str, 5))
        } else {
            KochType::Linear
        }),
        m.depth == spec_opt_parse(depth_str, 4),
{
    let koch_type = if str_eq(koch_type_str, "radial") {
        let sides = match sides_str {
            Option::Some(s) => parse_u32_or(s, 5),
            Option::None => 5,
        };
        KochType::Radial(sides)
    } else {
        KochType::Linear
    };
    let depth = match depth_str {
        Option::Some(s) => parse_u32_or(s, 4),
        Option::None => 4,
    };
    Model { koch_type, depth }
}

/// The state of the animated sketch: the depth drawn so far and the depth
/// to reach. The wall-clock debounce between steps stays with the caller.
#[derive(Clone, Copy, Debug, PartialEq, Eq, Structural)]
pub struct AnimationState {
    pub current_depth: u32,
    pub target_depth: u32,
}

impl AnimationState {
    /// Starts an animation at depth 0, aiming for `target_depth`.
    pub fn new(target_depth: u32) -> (s: AnimationState)
        ensures
            s.current_depth == 0,
            s.target_depth == target_depth,
    {
        AnimationState { current_depth: 0, target_depth }
    }

    /// Advances the animation one step: while the target is not reached
    /// the depth grows by one and the curve must be regenerated; after
    /// that the state no longer changes.
    pub fn advance(&mut self) -> (changed: bool)
        ensures
            final(self).target_depth == old(self).target_depth,
            old(self).current_depth < old(self).target_depth ==> (changed && final(self).current_depth == old(self).current_depth + 1),
            old(self).current_depth >= old(self).target_depth ==> (!changed && *final(self) == *old(self)),
    {
        if self.current_depth < self.target_depth {
            self.current_depth = self.current_depth + 1;
            true
        } else {
            false
        }
    }
}

} // verus!
