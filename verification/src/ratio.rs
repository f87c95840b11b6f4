use vstd::prelude::*;

verus! {

/// Largest numerator and denominator a circle-size ratio may carry.  Together
/// with [`crate::raster::MAX_DIM`] this keeps the compositor's exact rational
/// arithmetic inside 128-bit integers.
pub const MAX_RATIO_PART: u32 = 10_000;

/// An exact nonnegative rational `num / den`, the circle-size ratio: the
/// nominal circle diameter as a fraction of the shorter image dimension.
/// Carrying it as two integers lets every per-pixel mask decision be computed
/// exactly, with no rounding anywhere.
#[derive(Clone, Copy, PartialEq, Eq, Structural, Debug)]
pub struct Ratio {
    pub num: u32,
    pub den: u32,
}

impl Ratio {
    /// The denominator is positive and both parts are within the range the
    /// compositor accepts.
    pub open spec fn wf(self) -> bool {
        1 <= self.den <= MAX_RATIO_PART && self.num <= MAX_RATIO_PART
    }
}

/// The ratio used when the caller supplies none (or an unparsable one):
/// one tenth of the shorter image dimension.
pub fn default_ratio() -> (r: Ratio)
    ensures
        r.num == 1,
        r.den == 10,
        r.wf(),
{
    Ratio { num: 1, den: 10 }
}

/// An ASCII decimal digit.
pub open spec fn is_ascii_digit(c: char) -> bool {
    48 <= c as int <= 57
}

/// The value of one ASCII decimal digit.
pub open spec fn digit_val(c: char) -> int {
    c as int - 48
}

/// Every character of `s` is a decimal digit.
pub open spec fn all_digits(s: Seq<char>) -> bool {
    forall|i: int| 0 <= i < s.len() ==> is_ascii_digit(#[trigger] s[i])
}

/// The number that a digit string denotes, most significant digit first;
/// an empty string denotes 0.
pub open spec fn digits_value(s: Seq<char>) -> int
    decreases s.len(),
{
    if s.len() == 0 {
        0
    } else {
        10 * digits_value(s.drop_last()) + digit_val(s.last())
    }
}

/// Ten to the `k`.
pub open spec fn pow10(k: nat) -> int
    decreases k,
{
    if k == 0 {
        1
    } else {
        10 * pow10((k - 1) as nat)
    }
}

/// The index of the first `'.'` in `s`, or `s.len()` if there is none.
pub open spec fn first_dot(s: Seq<char>) -> int
    decreases s.len(),
{
    if s.len() == 0 {
        0
    } else if s[0] == '.' {
        0
    } else {
        1 + first_dot(s.subrange(1, s.len() as int))
    }
}

/// `s` is a plain decimal: a nonempty run of digits, optionally followed by
/// a dot and another nonempty run of digits.
pub open spec fn valid_decimal(s: Seq<char>) -> bool {
    let k = first_dot(s);
    if k == s.len() {
        s.len() >= 1 && all_digits(s)
    } else {
        1 <= k && k + 1 < s.len() && all_digits(s.subrange(0, k)) && all_digits(
            s.subrange(k + 1, s.len() as int),
        )
    }
}

/// How many digits follow the dot (0 when there is no dot).
pub open spec fn frac_len(s: Seq<char>) -> int {
    let k = first_dot(s);
    if k == s.len() {
        0
    } else {
        s.len() - k - 1
    }
}

/// The numerator of the rational that the decimal denotes; its denominator
/// is `pow10(frac_len(s))`.
pub open spec fn decimal_numer(s: Seq<char>) -> int {
    let k = first_dot(s);
    if k == s.len() {
        digits_value(s)
    } else {
        digits_value(s.subrange(0, k)) * pow10((s.len() - k - 1) as nat) + digits_value(
            s.subrange(k + 1, s.len() as int),
        )
    }
}

/// The denominator of the rational that the decimal denotes.
pub open spec fn decimal_denom(s: Seq<char>) -> int {
    pow10(frac_len(s) as nat)
}

/// The strings `parse_ratio` accepts: well-formed decimals whose value stays
/// within the range the compositor's exact arithmetic admits.
pub open spec fn accepted_ratio(s: Seq<char>) -> bool {
    valid_decimal(s) && frac_len(s) <= 4 && decimal_numer(s) <= MAX_RATIO_PART
}

proof fn lemma_first_dot_at(s: Seq<char>, k: int)
    requires
        0 <= k <= s.len(),
        forall|j: int| 0 <= j < k ==> #[trigger] s[j] != '.',
        k < s.len() ==> s[k] == '.',
    ensures
        first_dot(s) == k,
    decreases s.len(),
{
    if s.len() == 0 {
    } else if s[0] == '.' {
        assert(k == 0);
    } else {
        assert(k >= 1);
        let t = s.subrange(1, s.len() as int);
        assert forall|j: int| 0 <= j < k - 1 implies #[trigger] t[j] != '.' by {
            assert(t[j] == s[j + 1]);
        }
        assert(k - 1 < t.len() ==> t[k - 1] == s[k]);
        lemma_first_dot_at(t, k - 1);
    }
}

proof fn lemma_digits_nonneg(s: Seq<char>)
    requires
        all_digits(s),
    ensures
        digits_value(s) >= 0,
    decreases s.len(),
{
    if s.len() > 0 {
        assert(all_digits(s.drop_last()));
        lemma_digits_nonneg(s.drop_last());
    }
}

/// A digit string is at least as large as any of its prefixes.
proof fn lemma_digits_prefix_le(s: Seq<char>, i: int)
    requires
        all_digits(s),
        0 <= i <= s.len(),
    ensures
        digits_value(s.subrange(0, i)) <= digits_value(s),
    decreases s.len(),
{
    if i == s.len() {
        assert(s.subrange(0, i) =~= s);
    } else {
        let t = s.drop_last();
        assert(all_digits(t));
        assert(t.subrange(0, i) =~= s.subrange(0, i));
        lemma_digits_prefix_le(t, i);
        lemma_digits_nonneg(t);
    }
}

/// Finds the first dot of `s`, scanning left to right.
fn find_dot(s: &str) -> (k: usize)
    ensures
        k == first_dot(s@),
        k <= s@.len(),
{
    let len = s.unicode_len();
    let mut i: usize = 0;
    while i < len
        invariant
            i <= len,
            len == s@.len(),
            forall|j: int| 0 <= j < i ==> #[trigger] s@[j] != '.',
        decreases len - i,
    {
        if s.get_char(i) == '.' {
            proof {
                lemma_first_dot_at(s@, i as int);
            }
            return i;
        }
        i = i + 1;
    }
    proof {
        lemma_first_dot_at(s@, len as int);
    }
    len
}

/// Reads the digit run `s[from..to]`; `None` when a non-digit appears or the
/// value exceeds `MAX_RATIO_PART`.
fn digits_chunk(s: &str, from: usize, to: usize) -> (r: Option<u32>)
    requires
        from <= to <= s@.len(),
    ensures
        ({
            let part = s@.subrange(from as int, to as int);
            &&& (r matches Some(v) ==> all_digits(part) && v == digits_value(part) && v
                <= MAX_RATIO_PART)
            &&& (r is None ==> !(all_digits(part) && digits_value(part) <= MAX_RATIO_PART))
        }),
{
    let ghost part = s@.subrange(from as int, to as int);
    let mut i: usize = from;
    let mut acc: u32 = 0;
    while i < to
        invariant
            from <= i <= to <= s@.len(),
            part == s@.subrange(from as int, to as int),
            all_digits(s@.subrange(from as int, i as int)),
            acc == digits_value(s@.subrange(from as int, i as int)),
            acc <= MAX_RATIO_PART,
        decreases to - i,
    {
        let c = s.get_char(i);
        let cu = c as u32;
        let ghost prev = s@.subrange(from as int, i as int);
        let ghost cur = s@.subrange(from as int, i + 1 as int);
        proof {
            assert(cur.drop_last() =~= prev);
            assert(cur.last() == s@[i as int]);
            assert(part[i - from] == s@[i as int]);
        }
        if cu < 48 || cu > 57 {
            assert(!is_ascii_digit(part[i - from]));
            return None;
        }
        let dv: u32 = cu - 48;
        let next: u32 = acc * 10 + dv;
        assert(forall|j: int| 0 <= j < cur.len() ==> is_ascii_digit(#[trigger] cur[j]));
        if next > MAX_RATIO_PART {
            proof {
                if all_digits(part) {
                    assert(cur =~= part.subrange(0, i + 1 - from));
                    lemma_digits_prefix_le(part, i + 1 - from);
                }
            }
            return None;
        }
        acc = next;
        i = i + 1;
    }
    assert(part =~= s@.subrange(from as int, i as int));
    Some(acc)
}

/// Ten to the `k`, for the denominators the parser can produce.
fn pow10_small(k: usize) -> (r: u32)
    requires
        k <= 4,
    ensures
        r == pow10(k as nat),
{
    let mut i: usize = 0;
    let mut r: u32 = 1;
    while i < k
        invariant
            i <= k <= 4,
            r == pow10(i as nat),
            r <= 10_000,
        decreases k - i,
    {
        proof {
            lemma_pow10_pos(i as nat);
            lemma_pow10_pos((i + 1) as nat);
        }
        r = r * 10;
        i = i + 1;
    }
    r
}

/// Parses a circle-size ratio written as a plain decimal (`"2"`, `"0.1"`,
/// `"0.001"`): a nonempty digit run, optionally followed by a dot and 1 to 4
/// more digits, denoting at most `MAX_RATIO_PART`.  Returns `None` for
/// anything else, and the caller falls back to the default ratio.
pub fn parse_ratio(s: &str) -> (r: Option<Ratio>)
    ensures
        accepted_ratio(s@) ==> (r matches Some(rt) && rt.num == decimal_numer(s@) && rt.den
            == decimal_denom(s@) && rt.wf()),
        !accepted_ratio(s@) ==> r is None,
{
    let len = s.unicode_len();
    if len == 0 {
        return None;
    }
    let k = find_dot(s);
    if k == len {
        match digits_chunk(s, 0, len) {
            Some(v) => {
                assert(s@.subrange(0, len as int) =~= s@);
                Some(Ratio { num: v, den: 1 })
            },
            None => {
                assert(s@.subrange(0, len as int) =~= s@);
                None
            },
        }
    } else {
        if k == 0 || k + 1 >= len {
            return None;
        }
        let fl = len - k - 1;
        if fl > 4 {
            return None;
        }
        let den = pow10_small(fl);
        let vi = match digits_chunk(s, 0, k) {
            Some(v) => v,
            None => {
                proof {
                    if accepted_ratio(s@) {
                        let ip = s@.subrange(0, k as int);
                        let fp = s@.subrange(k + 1 as int, len as int);
                        lemma_digits_nonneg(fp);
                        lemma_pow10_pos(fl as nat);
                        assert(digits_value(ip) * pow10(fl as nat) >= digits_value(ip))
                            by (nonlinear_arith)
                            requires
                                digits_value(ip) >= 0,
                                pow10(fl as nat) >= 1,
                        ;
                        lemma_digits_nonneg(ip);
                    }
                }
                return None;
            },
        };
        let vf = match digits_chunk(s, k + 1, len) {
            Some(v) => v,
            None => {
                proof {
                    if accepted_ratio(s@) {
                        let ip = s@.subrange(0, k as int);
                        let fp = s@.subrange(k + 1 as int, len as int);
                        lemma_digits_nonneg(ip);
                        lemma_pow10_pos(fl as nat);
                        assert(digits_value(ip) * pow10(fl as nat) >= 0) by (nonlinear_arith)
                            requires
                                digits_value(ip) >= 0,
                                pow10(fl as nat) >= 1,
                        ;
                    }
                }
                return None;
            },
        };
        proof {
            lemma_pow10_pos(fl as nat);
        }
        assert(vi * den <= 100_000_000) by (nonlinear_arith)
            requires
                vi <= 10_000,
                den <= 10_000,
        ;
        let num: u32 = vi * den + vf;
        if num > MAX_RATIO_PART {
            proof {
                assert(!accepted_ratio(s@));
            }
            return None;
        }
        Some(Ratio { num, den })
    }
}

proof fn lemma_pow10_pos(k: nat)
    ensures
        pow10(k) >= 1,
        k <= 1 ==> pow10(k) <= 10,
        k <= 2 ==> pow10(k) <= 100,
        k <= 3 ==> pow10(k) <= 1_000,
        k <= 4 ==> pow10(k) <= 10_000,
    decreases k,
{
    if k > 0 {
        lemma_pow10_pos((k - 1) as nat)
    }
}

} // verus!
