//! The Carmen log record grammar, on raw bytes.
//!
//! A record line is a tag token followed by whitespace-separated decimal
//! numbers.  Lengths are scaled to integer subunits and angles to
//! integer microradians while parsing: a number with fraction digits is
//! scaled by a power of ten and truncated toward zero, exactly.

use vstd::prelude::*;

verus! {

/// Token-separating whitespace.
pub open spec fn is_ws(b: u8) -> bool {
    b == 32 || b == 9 || b == 10 || b == 13
}

/// A decimal digit.
pub open spec fn is_digit(b: u8) -> bool {
    48 <= b <= 57
}

/// The first position at or after `i` that does not hold whitespace.
pub open spec fn skip_ws(s: Seq<u8>, i: int) -> int
    decreases s.len() - i,
        when 0 <= i <= s.len()
{
    if i >= s.len() || !is_ws(s[i]) {
        i
    } else {
        skip_ws(s, i + 1)
    }
}

/// The first position at or after `i` that does not hold a digit.
pub open spec fn digits_end(s: Seq<u8>, i: int) -> int
    decreases s.len() - i,
        when 0 <= i <= s.len()
{
    if i >= s.len() || !is_digit(s[i]) {
        i
    } else {
        digits_end(s, i + 1)
    }
}

/// The first position at or after `i` that holds whitespace (or the
/// end): the end of the token starting at `i`.
pub open spec fn token_end(s: Seq<u8>, i: int) -> int
    decreases s.len() - i,
        when 0 <= i <= s.len()
{
    if i >= s.len() || is_ws(s[i]) {
        i
    } else {
        token_end(s, i + 1)
    }
}

/// The value of the decimal digit run `s[i..j)`.
pub open spec fn digits_val(s: Seq<u8>, i: int, j: int) -> int
    decreases j - i,
{
    if j <= i {
        0
    } else {
        digits_val(s, i, j - 1) * 10 + (s[j - 1] - 48)
    }
}

/// Ten to the `k`.
pub open spec fn pow10(k: nat) -> int
    decreases k,
{
    if k == 0 {
        1
    } else {
        10 * pow10((k - 1) as nat)
    }
}

/// Positions stay within the byte sequence.
pub proof fn lemma_skip_ws_bounds(s: Seq<u8>, i: int)
    requires
        0 <= i <= s.len(),
    ensures
        i <= skip_ws(s, i) <= s.len(),
    decreases s.len() - i,
{
    if !(i >= s.len() || !is_ws(s[i])) {
        lemma_skip_ws_bounds(s, i + 1);
    }
}

/// Positions stay within the byte sequence.
pub proof fn lemma_digits_end_bounds(s: Seq<u8>, i: int)
    requires
        0 <= i <= s.len(),
    ensures
        i <= digits_end(s, i) <= s.len(),
    decreases s.len() - i,
{
    if !(i >= s.len() || !is_digit(s[i])) {
        lemma_digits_end_bounds(s, i + 1);
    }
}

/// Positions stay within the byte sequence.
pub proof fn lemma_token_end_bounds(s: Seq<u8>, i: int)
    requires
        0 <= i <= s.len(),
    ensures
        i <= token_end(s, i) <= s.len(),
    decreases s.len() - i,
{
    if !(i >= s.len() || is_ws(s[i])) {
        lemma_token_end_bounds(s, i + 1);
    }
}

/// Every digit run is nonnegative and bounded by ten to its length.
pub proof fn lemma_digits_val_bounds(s: Seq<u8>, i: int, j: int)
    requires
        0 <= i <= j <= s.len(),
        forall|k: int| i <= k < j ==> is_digit(#[trigger] s[k]),
    ensures
        0 <= digits_val(s, i, j) < pow10((j - i) as nat),
    decreases j - i,
{
    if j > i {
        lemma_digits_val_bounds(s, i, j - 1);
        assert(digits_val(s, i, j) == digits_val(s, i, j - 1) * 10 + (s[j - 1] - 48));
        assert(pow10((j - i) as nat) == 10 * pow10((j - i - 1) as nat));
        assert(digits_val(s, i, j - 1) * 10 <= (pow10((j - i - 1) as nat) - 1) * 10)
            by (nonlinear_arith)
            requires
                digits_val(s, i, j - 1) <= pow10((j - i - 1) as nat) - 1,
        ;
        assert(digits_val(s, i, j - 1) * 10 >= 0) by (nonlinear_arith)
            requires
                digits_val(s, i, j - 1) >= 0,
        ;
    }
}

/// A fixed-point number parsed at position `i`, scaled by ten to
/// `frac_digits`: leading whitespace, an optional minus sign, at most
/// twelve integer digits, and an optional fraction, of which the first
/// `frac_digits` digits are kept (truncation toward zero).  `None` when
/// the token there is not such a number; otherwise the scaled value and
/// the position just after the token.
pub open spec fn spec_number_at(s: Seq<u8>, i: int, frac_digits: nat) -> Option<(int, int)> {
    let p0 = skip_ws(s, i);
    if p0 >= s.len() {
        None
    } else {
        let neg = s[p0] == 45;
        let p1 = if neg {
            p0 + 1
        } else {
            p0
        };
        let de = digits_end(s, p1);
        if de == p1 || de - p1 > 12 {
            None
        } else {
            let int_part = digits_val(s, p1, de);
            if de < s.len() && s[de] == 46 {
                let fe = digits_end(s, de + 1);
                if fe == de + 1 || !(fe == s.len() || is_ws(s[fe])) {
                    None
                } else {
                    let fd = fe - (de + 1);
                    let frac_scaled = if fd >= frac_digits {
                        digits_val(s, de + 1, de + 1 + frac_digits)
                    } else {
                        digits_val(s, de + 1, fe) * pow10((frac_digits - fd) as nat)
                    };
                    let magnitude = int_part * pow10(frac_digits) + frac_scaled;
                    Some(
                        (
                            if neg {
                                -magnitude
                            } else {
                                magnitude
                            },
                            fe,
                        ),
                    )
                }
            } else {
                if !(de == s.len() || is_ws(s[de])) {
                    None
                } else {
                    let magnitude = int_part * pow10(frac_digits);
                    Some(
                        (
                            if neg {
                                -magnitude
                            } else {
                                magnitude
                            },
                            de,
                        ),
                    )
                }
            }
        }
    }
}

/// Ten to the `k` never shrinks as `k` grows.
pub proof fn lemma_pow10_monotone(a: nat, b: nat)
    requires
        a <= b,
    ensures
        0 < pow10(a) <= pow10(b),
    decreases b,
{
    if b == 0 {
    } else if a == b {
        lemma_pow10_monotone((a - 1) as nat, (b - 1) as nat);
    } else {
        lemma_pow10_monotone(a, (b - 1) as nat);
    }
}

/// Ten to an exponent of at most six, executably.
fn pow10_exec(k: usize) -> (r: i64)
    requires
        k <= 6,
    ensures
        r == pow10(k as nat),
        1 <= r <= 1_000_000,
{
    let mut v: i64 = 1;
    let mut done: usize = 0;
    while done < k
        invariant
            done <= k <= 6,
            v == pow10(done as nat),
            1 <= v,
            v <= 1_000_000,
        decreases k - done,
    {
        proof {
            lemma_pow10_monotone((done + 1) as nat, 6);
            reveal_with_fuel(pow10, 8);
        }
        v = v * 10;
        done = done + 1;
    }
    v
}

/// Reads the decimal digit run starting at `from` and ending at `de`;
/// its value is exact, `None` when it would not fit twelve digits.
fn digits_value(line: &Vec<u8>, from: usize, de: usize) -> (r: i64)
    requires
        from <= de <= line@.len(),
        de - from <= 12,
        forall|k: int| from <= k < de ==> is_digit(#[trigger] line@[k]),
    ensures
        r == digits_val(line@, from as int, de as int),
        0 <= r < pow10((de - from) as nat),
{
    proof {
        lemma_digits_val_bounds(line@, from as int, from as int);
    }
    let mut acc: i64 = 0;
    let mut j: usize = from;
    while j < de
        invariant
            from <= j <= de <= line@.len(),
            de - from <= 12,
            forall|k: int| from <= k < de ==> is_digit(#[trigger] line@[k]),
            acc == digits_val(line@, from as int, j as int),
            0 <= acc < pow10((j - from) as nat),
        decreases de - j,
    {
        proof {
            lemma_pow10_monotone(((j - from) + 1) as nat, 12);
            reveal_with_fuel(pow10, 13);
            assert(acc * 10 < pow10((j - from) as nat) * 10) by (nonlinear_arith)
                requires
                    acc < pow10((j - from) as nat),
            ;
            assert(acc * 10 >= 0) by (nonlinear_arith)
                requires
                    acc >= 0,
            ;
        }
        let d = line[j];
        acc = acc * 10 + ((d - 48) as i64);
        j = j + 1;
    }
    acc
}

/// The first position at or after `pos` that does not hold whitespace.
fn skip_ws_exec(line: &Vec<u8>, pos: usize) -> (r: usize)
    requires
        pos <= line@.len(),
    ensures
        r == skip_ws(line@, pos as int),
        pos <= r <= line@.len(),
{
    let n = line.len();
    let mut i: usize = pos;
    while i < n && (line[i] == 32 || line[i] == 9 || line[i] == 10 || line[i] == 13)
        invariant
            pos <= i <= n,
            n == line@.len(),
            skip_ws(line@, pos as int) == skip_ws(line@, i as int),
        decreases n - i,
    {
        i = i + 1;
    }
    i
}

/// The first position at or after `pos` that does not hold a digit.
fn digits_end_exec(line: &Vec<u8>, pos: usize) -> (r: usize)
    requires
        pos <= line@.len(),
    ensures
        r == digits_end(line@, pos as int),
        pos <= r <= line@.len(),
        forall|k: int| pos <= k < r ==> is_digit(#[trigger] line@[k]),
{
    let n = line.len();
    let mut i: usize = pos;
    while i < n && line[i] >= 48 && line[i] <= 57
        invariant
            pos <= i <= n,
            n == line@.len(),
            digits_end(line@, pos as int) == digits_end(line@, i as int),
            forall|k: int| pos <= k < i ==> is_digit(#[trigger] line@[k]),
        decreases n - i,
    {
        i = i + 1;
    }
    i
}

/// Parses the fixed-point number whose token starts at or after `pos`,
/// scaled by ten to `frac_digits`: exactly [`spec_number_at`].
pub fn number_at(line: &Vec<u8>, pos: usize, frac_digits: usize) -> (r: Option<(i64, usize)>)
    requires
        pos <= line@.len(),
        frac_digits <= 6,
    ensures
        match r {
            Some(v) => spec_number_at(line@, pos as int, frac_digits as nat) == Some(
                (v.0 as int, v.1 as int),
            ) && pos <= v.1 <= line@.len(),
            None => spec_number_at(line@, pos as int, frac_digits as nat) is None,
        },
{
    let n = line.len();
    let p0 = skip_ws_exec(line, pos);
    if p0 >= n {
        return None;
    }
    let neg = line[p0] == 45;
    let p1 = if neg {
        p0 + 1
    } else {
        p0
    };
    let de = digits_end_exec(line, p1);
    if de == p1 || de - p1 > 12 {
        return None;
    }
    let int_part = digits_value(line, p1, de);
    let scale = pow10_exec(frac_digits);
    proof {
        reveal_with_fuel(pow10, 13);
        lemma_pow10_monotone(((de - p1)) as nat, 12);
        assert(int_part * scale < pow10(12) * 1_000_001) by (nonlinear_arith)
            requires
                0 <= int_part < pow10(12),
                1 <= scale <= 1_000_000,
        ;
        assert(int_part * scale >= 0) by (nonlinear_arith)
            requires
                int_part >= 0,
                scale >= 1,
        ;
    }
    if de < n && line[de] == 46 {
        let fe = digits_end_exec(line, de + 1);
        if fe == de + 1 || !(fe == n || line[fe] == 32 || line[fe] == 9 || line[fe] == 10
            || line[fe] == 13) {
            return None;
        }
        let fd = fe - (de + 1);
        let frac_scaled: i64 = if fd >= frac_digits {
            digits_value(line, de + 1, de + 1 + frac_digits)
        } else {
            let raw = digits_value(line, de + 1, fe);
            let factor = pow10_exec(frac_digits - fd);
            proof {
                lemma_pow10_monotone(fd as nat, 6);
                reveal_with_fuel(pow10, 8);
                assert(raw * factor < pow10(fd as nat) * factor) by (nonlinear_arith)
                    requires
                        0 <= raw < pow10(fd as nat),
                        factor >= 1,
                ;
                assert(pow10(fd as nat) * factor == pow10((fd + (frac_digits - fd)) as nat))
                    by {
                    lemma_pow10_mul(fd as nat, (frac_digits - fd) as nat);
                }
                assert(raw * factor >= 0) by (nonlinear_arith)
                    requires
                        raw >= 0,
                        factor >= 1,
                ;
            }
            raw * factor
        };
        let magnitude = int_part * scale + frac_scaled;
        let value = if neg {
            -magnitude
        } else {
            magnitude
        };
        Some((value, fe))
    } else {
        if !(de == n || line[de] == 32 || line[de] == 9 || line[de] == 10 || line[de] == 13) {
            return None;
        }
        let magnitude = int_part * scale;
        let value = if neg {
            -magnitude
        } else {
            magnitude
        };
        Some((value, de))
    }
}

/// The position after the whitespace-delimited token at or after `i`.
pub open spec fn spec_next_token_end(s: Seq<u8>, i: int) -> int {
    token_end(s, skip_ws(s, i))
}

/// The position after skipping `n` whitespace-delimited tokens.
pub open spec fn spec_skip_tokens(s: Seq<u8>, i: int, n: nat) -> int
    decreases n,
{
    if n == 0 {
        i
    } else {
        spec_skip_tokens(s, spec_next_token_end(s, i), (n - 1) as nat)
    }
}

/// The next `n` tokens parsed as subunit numbers, with the position after
/// the last; `None` when any of them is not such a number.
pub open spec fn spec_ranges(s: Seq<u8>, i: int, n: nat) -> Option<(Seq<int>, int)>
    decreases n,
{
    if n == 0 {
        Some((Seq::empty(), i))
    } else {
        match spec_number_at(s, i, 3) {
            None => None,
            Some(v) => match spec_ranges(s, v.1, (n - 1) as nat) {
                None => None,
                Some(rest) => Some((seq![v.0] + rest.0, rest.1)),
            },
        }
    }
}

/// The line begins with the record tag `ROBOTLASER`.
pub open spec fn spec_prefix_ok(s: Seq<u8>) -> bool {
    &&& s.len() >= 10
    &&& s[0] == 82
    &&& s[1] == 79
    &&& s[2] == 66
    &&& s[3] == 79
    &&& s[4] == 84
    &&& s[5] == 76
    &&& s[6] == 65
    &&& s[7] == 83
    &&& s[8] == 69
    &&& s[9] == 82
}

/// One parsed record: the scanner parameters, the per-beam readings, and
/// the two poses, as plain scaled integers.  Angles are microradians,
/// lengths subunits.
pub ghost struct GScanRecord {
    pub laser_type: int,
    pub first_beam_theta: int,
    pub fov: int,
    pub angular_step: int,
    pub max_range: int,
    pub accuracy: int,
    pub remission_mode: int,
    pub ranges: Seq<int>,
    pub laser_x: int,
    pub laser_y: int,
    pub laser_theta: int,
    pub robot_x: int,
    pub robot_y: int,
    pub robot_theta: int,
}

/// What a ROBOTLASER line parses to: the tag token, the seven scanner
/// parameters, the counted beam readings, the skipped remissions, and
/// the two poses, in order; `None` when the line does not match this
/// grammar.
pub open spec fn spec_parse_line(s: Seq<u8>) -> Option<GScanRecord> {
    if !spec_prefix_ok(s) {
        None
    } else {
        let c0 = spec_next_token_end(s, 0);
        match spec_number_at(s, c0, 0) {
            None => None,
            Some(laser_type) => match spec_number_at(s, laser_type.1, 6) {
                None => None,
                Some(theta) => match spec_number_at(s, theta.1, 6) {
                    None => None,
                    Some(fov) => match spec_number_at(s, fov.1, 6) {
                        None => None,
                        Some(step) => match spec_number_at(s, step.1, 3) {
                            None => None,
                            Some(maxr) => match spec_number_at(s, maxr.1, 3) {
                                None => None,
                                Some(acc) => match spec_number_at(s, acc.1, 0) {
                                    None => None,
                                    Some(remm) => match spec_number_at(s, remm.1, 0) {
                                        None => None,
                                        Some(nbeams) => if nbeams.0 < 0 || nbeams.0 > (
                                        crate::robot_data::BEAM_LIMIT as int) {
                                            None
                                        } else {
                                            spec_parse_tail(s, nbeams.0 as nat, nbeams.1,
                                                GScanRecord {
                                                laser_type: laser_type.0,
                                                first_beam_theta: theta.0,
                                                fov: fov.0,
                                                angular_step: step.0,
                                                max_range: maxr.0,
                                                accuracy: acc.0,
                                                remission_mode: remm.0,
                                                ranges: Seq::empty(),
                                                laser_x: 0,
                                                laser_y: 0,
                                                laser_theta: 0,
                                                robot_x: 0,
                                                robot_y: 0,
                                                robot_theta: 0,
                                            })
                                        },
                                    },
                                },
                            },
                        },
                    },
                },
            },
        }
    }
}

/// The tail of the grammar after the beam count: the readings, the
/// remission block, and the two poses.
pub open spec fn spec_parse_tail(s: Seq<u8>, nbeams: nat, i: int, head: GScanRecord) -> Option<
    GScanRecord,
> {
    match spec_ranges(s, i, nbeams) {
        None => None,
        Some(ranges) => match spec_number_at(s, ranges.1, 0) {
            None => None,
            Some(nrem) => if nrem.0 < 0 || nrem.0 > (crate::robot_data::BEAM_LIMIT as int) {
                None
            } else {
                let c = spec_skip_tokens(s, nrem.1, nrem.0 as nat);
                match spec_number_at(s, c, 3) {
                    None => None,
                    Some(lx) => match spec_number_at(s, lx.1, 3) {
                        None => None,
                        Some(ly) => match spec_number_at(s, ly.1, 6) {
                            None => None,
                            Some(lt) => match spec_number_at(s, lt.1, 3) {
                                None => None,
                                Some(rx) => match spec_number_at(s, rx.1, 3) {
                                    None => None,
                                    Some(ry) => match spec_number_at(s, ry.1, 6) {
                                        None => None,
                                        Some(rt) => Some(
                                            GScanRecord {
                                                ranges: ranges.0,
                                                laser_x: lx.0,
                                                laser_y: ly.0,
                                                laser_theta: lt.0,
                                                robot_x: rx.0,
                                                robot_y: ry.0,
                                                robot_theta: rt.0,
                                                ..head
                                            },
                                        ),
                                    },
                                },
                            },
                        },
                    },
                }
            },
        },
    }
}

/// One parsed record, executably: the counterpart of [`GScanRecord`].
pub struct ScanRecord {
    pub laser_type: i64,
    pub first_beam_theta: i64,
    pub fov: i64,
    pub angular_step: i64,
    pub max_range: i64,
    pub accuracy: i64,
    pub remission_mode: i64,
    pub ranges: Vec<i64>,
    pub laser_x: i64,
    pub laser_y: i64,
    pub laser_theta: i64,
    pub robot_x: i64,
    pub robot_y: i64,
    pub robot_theta: i64,
}

impl ScanRecord {
    /// The ghost value of this record.
    pub open spec fn view(self) -> GScanRecord {
        GScanRecord {
            laser_type: self.laser_type as int,
            first_beam_theta: self.first_beam_theta as int,
            fov: self.fov as int,
            angular_step: self.angular_step as int,
            max_range: self.max_range as int,
            accuracy: self.accuracy as int,
            remission_mode: self.remission_mode as int,
            ranges: self.ranges@.map_values(|v: i64| v as int),
            laser_x: self.laser_x as int,
            laser_y: self.laser_y as int,
            laser_theta: self.laser_theta as int,
            robot_x: self.robot_x as int,
            robot_y: self.robot_y as int,
            robot_theta: self.robot_theta as int,
        }
    }
}

/// The position after the whitespace-delimited token at or after `pos`.
fn next_token_end(line: &Vec<u8>, pos: usize) -> (r: usize)
    requires
        pos <= line@.len(),
    ensures
        r == spec_next_token_end(line@, pos as int),
        pos <= r <= line@.len(),
{
    let n = line.len();
    let start = skip_ws_exec(line, pos);
    let mut i: usize = start;
    while i < n && !(line[i] == 32 || line[i] == 9 || line[i] == 10 || line[i] == 13)
        invariant
            start <= i <= n,
            n == line@.len(),
            token_end(line@, start as int) == token_end(line@, i as int),
        decreases n - i,
    {
        i = i + 1;
    }
    i
}

/// Parses one ROBOTLASER record line: exactly [`spec_parse_line`].
#[verifier::rlimit(50)]
#[verifier::loop_isolation(false)]
pub fn parse_robotlaser_line(line: &Vec<u8>) -> (r: Option<ScanRecord>)
    ensures
        match r {
            Some(rec) => spec_parse_line(line@) == Some(rec.view()),
            None => spec_parse_line(line@) is None,
        },
{
    let n = line.len();
    if n < 10 || line[0] != 82 || line[1] != 79 || line[2] != 66 || line[3] != 79 || line[4]
        != 84 || line[5] != 76 || line[6] != 65 || line[7] != 83 || line[8] != 69 || line[9]
        != 82 {
        return None;
    }
    let c0 = next_token_end(line, 0);
    let (laser_type, c1) = match number_at(line, c0, 0) {
        Some(v) => v,
        None => {
            return None;
        },
    };
    let (first_beam_theta, c2) = match number_at(line, c1, 6) {
        Some(v) => v,
        None => {
            return None;
        },
    };
    let (fov, c3) = match number_at(line, c2, 6) {
        Some(v) => v,
        None => {
            return None;
        },
    };
    let (angular_step, c4) = match number_at(line, c3, 6) {
        Some(v) => v,
        None => {
            return None;
        },
    };
    let (max_range, c5) = match number_at(line, c4, 3) {
        Some(v) => v,
        None => {
            return None;
        },
    };
    let (accuracy, c6) = match number_at(line, c5, 3) {
        Some(v) => v,
        None => {
            return None;
        },
    };
    let (remission_mode, c7) = match number_at(line, c6, 0) {
        Some(v) => v,
        None => {
            return None;
        },
    };
    let (nbeams, c8) = match number_at(line, c7, 0) {
        Some(v) => v,
        None => {
            return None;
        },
    };
    if nbeams < 0 || nbeams > (crate::robot_data::BEAM_LIMIT as i64) {
        return None;
    }
    let nb = nbeams as usize;
    let mut ranges: Vec<i64> = Vec::new();
    let mut cur: usize = c8;
    let mut k: usize = 0;
    let ghost s = line@;
    while k < nb
        invariant
            k <= nb,
            cur <= s.len(),
            s == line@,
            ranges@.len() == k,
            ({
                match spec_ranges(s, cur as int, (nb - k) as nat) {
                    Some(tail) => spec_ranges(s, c8 as int, nb as nat) == Some(
                        (ranges@.map_values(|v: i64| v as int) + tail.0, tail.1),
                    ),
                    None => spec_ranges(s, c8 as int, nb as nat) is None,
                }
            }),
        decreases nb - k,
    {
        let ghost rs_before = ranges@;
        let (v, next) = match number_at(line, cur, 3) {
            Some(v) => v,
            None => {
                return None;
            },
        };
        proof {
            lemma_number_at_in_bounds(s, cur as int, 3);
        }
        ranges.push(v);
        cur = next;
        k = k + 1;
        proof {
            assert(ranges@.map_values(|q: i64| q as int) =~= rs_before.map_values(
                |q: i64| q as int,
            ) + seq![v as int]);
            assert forall|tail0: Seq<int>|
                rs_before.map_values(|q: i64| q as int) + (seq![v as int] + tail0) =~= ranges@
                    .map_values(|q: i64| q as int) + tail0 by {
            }
        }
    }
    proof {
        assert(spec_ranges(s, cur as int, 0) == Some((Seq::<int>::empty(), cur as int)));
        assert(ranges@.map_values(|v: i64| v as int) + Seq::<int>::empty() =~= ranges@.map_values(
            |v: i64| v as int,
        ));
    }
    let (nrem, c10) = match number_at(line, cur, 0) {
        Some(v) => v,
        None => {
            return None;
        },
    };
    if nrem < 0 || nrem > (crate::robot_data::BEAM_LIMIT as i64) {
        return None;
    }
    let mut skipped: i64 = 0;
    let mut c11: usize = c10;
    while skipped < nrem
        invariant
            0 <= skipped <= nrem,
            c11 <= line@.len(),
            spec_skip_tokens(line@, c10 as int, nrem as nat) == spec_skip_tokens(line@,
                c11 as int, (nrem - skipped) as nat),
        decreases nrem - skipped,
    {
        let ghost c_prev = c11 as int;
        let ghost left = (nrem - skipped) as nat;
        c11 = next_token_end(line, c11);
        skipped = skipped + 1;
        proof {
            assert(spec_skip_tokens(line@, c_prev, left) == spec_skip_tokens(line@,
                spec_next_token_end(line@, c_prev), (left - 1) as nat));
        }
    }
    let (laser_x, c12) = match number_at(line, c11, 3) {
        Some(v) => v,
        None => {
            return None;
        },
    };
    let (laser_y, c13) = match number_at(line, c12, 3) {
        Some(v) => v,
        None => {
            return None;
        },
    };
    let (laser_theta, c14) = match number_at(line, c13, 6) {
        Some(v) => v,
        None => {
            return None;
        },
    };
    let (robot_x, c15) = match number_at(line, c14, 3) {
        Some(v) => v,
        None => {
            return None;
        },
    };
    let (robot_y, c16) = match number_at(line, c15, 3) {
        Some(v) => v,
        None => {
            return None;
        },
    };
    let (robot_theta, _c17) = match number_at(line, c16, 6) {
        Some(v) => v,
        None => {
            return None;
        },
    };
    Some(
        ScanRecord {
            laser_type,
            first_beam_theta,
            fov,
            angular_step,
            max_range,
            accuracy,
            remission_mode,
            ranges,
            laser_x,
            laser_y,
            laser_theta,
            robot_x,
            robot_y,
            robot_theta,
        },
    )
}

/// A parsed number never runs past the end of the line.
proof fn lemma_number_at_in_bounds(s: Seq<u8>, i: int, frac_digits: nat)
    requires
        0 <= i <= s.len(),
        spec_number_at(s, i, frac_digits) is Some,
    ensures
        i <= spec_number_at(s, i, frac_digits)->Some_0.1 <= s.len(),
{
    lemma_skip_ws_bounds(s, i);
    let p0 = skip_ws(s, i);
    let neg = s[p0] == 45;
    let p1 = if neg {
        p0 + 1
    } else {
        p0
    };
    lemma_digits_end_bounds(s, p1);
    let de = digits_end(s, p1);
    if de < s.len() && s[de] == 46 {
        lemma_digits_end_bounds(s, de + 1);
    }
}

/// The records of a Carmen log: each line that matches the ROBOTLASER
/// grammar contributes one parsed record, in order; other lines are
/// filtered out.
pub open spec fn spec_records(lines: Seq<Seq<u8>>) -> Seq<GScanRecord>
    decreases lines.len(),
{
    if lines.len() == 0 {
        Seq::empty()
    } else {
        spec_records(lines.drop_last()) + (match spec_parse_line(lines.last()) {
            Some(g) => seq![g],
            None => Seq::empty(),
        })
    }
}

/// A Carmen-format log, line by line, as raw bytes.
pub struct CarmenFile {
    pub lines: Vec<Vec<u8>>,
}

impl CarmenFile {
    /// Parses every ROBOTLASER line of the log, in order, filtering out
    /// every line that does not match the grammar: exactly
    /// [`spec_records`].
    pub fn parse_records(&self) -> (r: Vec<ScanRecord>)
        ensures
            r@.map_values(|rec: ScanRecord| rec.view()) == spec_records(
                self.lines@.map_values(|l: Vec<u8>| l@),
            ),
    {
        let ghost all = self.lines@.map_values(|l: Vec<u8>| l@);
        let n = self.lines.len();
        let mut out: Vec<ScanRecord> = Vec::new();
        let mut i: usize = 0;
        while i < n
            invariant
                i <= n,
                n == self.lines@.len(),
                all == self.lines@.map_values(|l: Vec<u8>| l@),
                out@.map_values(|rec: ScanRecord| rec.view()) == spec_records(
                    all.subrange(0, i as int),
                ),
            decreases n - i,
        {
            let ghost before = out@;
            match parse_robotlaser_line(&self.lines[i]) {
                Some(rec) => {
                    out.push(rec);
                },
                None => {
                },
            }
            i = i + 1;
            proof {
                let prefix = all.subrange(0, i as int);
                assert(prefix.drop_last() =~= all.subrange(0, i - 1));
                assert(prefix.last() == all[i - 1]);
                assert(all[i - 1] == self.lines@[i - 1]@);
                match spec_parse_line(all[i - 1]) {
                    Some(g) => {
                        assert(out@ =~= before.push(out@.last()));
                        assert(out@.map_values(|rec: ScanRecord| rec.view()) =~= before.map_values(
                            |rec: ScanRecord| rec.view(),
                        ) + seq![g]);
                    },
                    None => {
                        assert(out@.map_values(|rec: ScanRecord| rec.view()) =~= spec_records(
                            prefix,
                        ));
                    },
                }
            }
        }
        proof {
            assert(all.subrange(0, n as int) =~= all);
        }
        out
    }
}

/// Ten to a sum of exponents is the product of the powers.
proof fn lemma_pow10_mul(a: nat, b: nat)
    ensures
        pow10(a) * pow10(b) == pow10(a + b),
    decreases b,
{
    if b == 0 {
        assert(pow10(a) * 1 == pow10(a)) by (nonlinear_arith);
    } else {
        lemma_pow10_mul(a, (b - 1) as nat);
        assert(pow10(a) * (10 * pow10((b - 1) as nat)) == 10 * (pow10(a) * pow10(
            (b - 1) as nat,
        ))) by (nonlinear_arith);
    }
}

} // verus!
