use vstd::prelude::*;
use vstd::string::*;

verus! {

/// Why a probed duration cannot be used.
#[derive(PartialEq, Eq, Structural, Debug, Clone, Copy)]
pub enum ProbeError {
    /// The text is not a plain decimal number of seconds.
    NotANumber,
    /// The duration is zero, which leaves nothing to sample.
    ZeroDuration,
    /// The duration does not fit in 64 bits of microseconds.
    OutOfRange,
}

/// Characters with the Unicode White_Space property.
pub open spec fn is_white_space(c: char) -> bool {
    ||| ('\u{9}' <= c && c <= '\u{d}')
    ||| c == ' '
    ||| c == '\u{85}'
    ||| c == '\u{a0}'
    ||| c == '\u{1680}'
    ||| ('\u{2000}' <= c && c <= '\u{200a}')
    ||| c == '\u{2028}'
    ||| c == '\u{2029}'
    ||| c == '\u{202f}'
    ||| c == '\u{205f}'
    ||| c == '\u{3000}'
}

/// A text without its leading white space.
pub open spec fn trim_start(s: Seq<char>) -> Seq<char>
    decreases s.len(),
{
    if s.len() > 0 && is_white_space(s[0]) {
        trim_start(s.drop_first())
    } else {
        s
    }
}

/// A text without its trailing white space.
pub open spec fn trim_end(s: Seq<char>) -> Seq<char>
    decreases s.len(),
{
    if s.len() > 0 && is_white_space(s.last()) {
        trim_end(s.drop_last())
    } else {
        s
    }
}

/// A text without white space at either end.
pub open spec fn trimmed(s: Seq<char>) -> Seq<char> {
    trim_end(trim_start(s))
}

/// Relies on str::trim: it removes leading and trailing characters with the Unicode
/// White_Space property.
#[verifier::external_body]
fn trim_text(s: &str) -> (r: &str)
    ensures
        r@ == trimmed(s@),
{
    s.trim()
}

pub open spec fn is_digit(c: char) -> bool {
    '0' <= c && c <= '9'
}

pub open spec fn all_digits(s: Seq<char>) -> bool {
    forall|i: int| 0 <= i < s.len() ==> is_digit(#[trigger] s[i])
}

/// The number that a run of decimal digits writes.
pub open spec fn digits_value(s: Seq<char>) -> nat
    decreases s.len(),
{
    if s.len() == 0 {
        0
    } else {
        digits_value(s.drop_last()) * 10 + ((s.last() as int) - 48) as nat
    }
}

/// `t` is a decimal number whose integer part ends at `d`: digits, then optionally a
/// point and more digits, with at least one digit in all.
pub open spec fn decimal_form(t: Seq<char>, d: int) -> bool {
    &&& 0 <= d <= t.len()
    &&& all_digits(t.subrange(0, d))
    &&& (d == t.len() || (t[d] == '.' && all_digits(t.subrange(d + 1, t.len() as int))))
    &&& (d < t.len() ==> t.len() >= 2)
    &&& t.len() >= 1
}

pub open spec fn pow10(k: nat) -> nat
    decreases k,
{
    if k == 0 {
        1
    } else {
        10 * pow10((k - 1) as nat)
    }
}

/// Microseconds written by the fraction digits `f`: the first six digits, padded with zeros.
pub open spec fn fraction_us(f: Seq<char>) -> nat {
    if f.len() >= 6 {
        digits_value(f.subrange(0, 6))
    } else {
        digits_value(f) * pow10((6 - f.len()) as nat)
    }
}

/// The duration that a decimal number of seconds writes, in whole microseconds
/// (further decimals are dropped); none for text of another shape.
pub open spec fn duration_us_of(t: Seq<char>) -> Option<nat> {
    if exists|d: int| decimal_form(t, d) {
        let d = choose|d: int| decimal_form(t, d);
        let frac = if d < t.len() {
            t.subrange(d + 1, t.len() as int)
        } else {
            Seq::<char>::empty()
        };
        Some(digits_value(t.subrange(0, d)) * 1_000_000 + fraction_us(frac))
    } else {
        None
    }
}

/// The outcome of reading a trimmed duration text.
pub open spec fn parse_outcome(t: Seq<char>) -> Result<u64, ProbeError> {
    match duration_us_of(t) {
        None => Err(ProbeError::NotANumber),
        Some(v) => if v == 0 {
            Err(ProbeError::ZeroDuration)
        } else if v > u64::MAX {
            Err(ProbeError::OutOfRange)
        } else {
            Ok(v as u64)
        },
    }
}

proof fn lemma_digits_below_power(s: Seq<char>)
    requires
        all_digits(s),
    ensures
        digits_value(s) < pow10(s.len()),
    decreases s.len(),
{
    if s.len() > 0 {
        let p = s.drop_last();
        assert(all_digits(p)) by {
            assert forall|i: int| 0 <= i < p.len() implies is_digit(#[trigger] p[i]) by {
                assert(p[i] == s[i]);
            }
        }
        lemma_digits_below_power(p);
        assert(is_digit(s[s.len() - 1]));
        let dv = digits_value(p);
        let pw = pow10(p.len());
        let c = ((s.last() as int) - 48);
        assert(pow10(s.len()) == 10 * pw);
        assert(dv * 10 + c < 10 * pw) by (nonlinear_arith)
            requires
                dv < pw,
                0 <= c <= 9,
        ;
    }
}

proof fn lemma_decimal_form_unique(t: Seq<char>, a: int, b: int)
    requires
        decimal_form(t, a),
        decimal_form(t, b),
    ensures
        a == b,
{
    if a < b {
        assert(t.subrange(0, b)[a] == t[a]);
    } else if b < a {
        assert(t.subrange(0, a)[b] == t[b]);
    }
}

/// Reads a duration already stripped of surrounding white space, such as `9.000000`,
/// into microseconds.
pub fn parse_trimmed_duration_us(t: &str) -> (r: Result<u64, ProbeError>)
    ensures
        r == parse_outcome(t@),
{
    let n = t.unicode_len();
    if n == 0 {
        return Err(ProbeError::NotANumber);
    }
    let ghost ts = t@;
    // integer part
    let mut d: usize = 0;
    let mut int_val: u128 = 0;
    let mut too_big = false;
    while d < n && t.get_char(d) != '.'
        invariant
            n == ts.len(),
            ts == t@,
            d <= n,
            all_digits(ts.subrange(0, d as int)),
            !too_big ==> int_val == digits_value(ts.subrange(0, d as int)),
            !too_big ==> int_val <= u64::MAX,
            too_big ==> digits_value(ts.subrange(0, d as int)) > u64::MAX,
        decreases n - d,
    {
        let c = t.get_char(d);
        if !('0' <= c && c <= '9') {
            proof {
                assert forall|e: int| !decimal_form(ts, e) by {
                    if decimal_form(ts, e) {
                        if e < d {
                            assert(ts.subrange(0, d as int)[e] == ts[e]);
                        } else if e > d {
                            assert(ts.subrange(0, e)[d as int] == ts[d as int]);
                        }
                    }
                }
            }
            return Err(ProbeError::NotANumber);
        }
        let v = (c as u32 - 48) as u128;
        let ghost prev = ts.subrange(0, d as int);
        assert(ts.subrange(0, d + 1).drop_last() =~= prev);
        assert(all_digits(ts.subrange(0, d + 1))) by {
            assert forall|i: int| 0 <= i < d + 1 implies is_digit(#[trigger] ts.subrange(0, d + 1)[i]) by {
                if i < d {
                    assert(prev[i] == ts[i]);
                }
            }
        }
        if !too_big {
            int_val = int_val * 10 + v;
            if int_val > 0xffff_ffff_ffff_ffff {
                too_big = true;
            }
        }
        d += 1;
    }
    assert(d < n ==> ts[d as int] == '.');
    // fraction part
    if d < n && n < 2 {
        return Err(ProbeError::NotANumber);
    }
    let ghost f = if d < n {
        ts.subrange(d + 1, n as int)
    } else {
        Seq::<char>::empty()
    };
    let start: usize = if d < n {
        d + 1
    } else {
        n
    };
    assert(f =~= ts.subrange(start as int, n as int));
    let mut j: usize = start;
    let mut frac_val: u128 = 0;
    while j < n
        invariant
            n == ts.len(),
            ts == t@,
            start <= j <= n,
            d <= n,
            d < n ==> start == d + 1 && ts[d as int] == '.',
            d == n ==> start == n,
            all_digits(ts.subrange(0, d as int)),
            !too_big ==> int_val == digits_value(ts.subrange(0, d as int)),
            !too_big ==> int_val <= u64::MAX,
            too_big ==> digits_value(ts.subrange(0, d as int)) > u64::MAX,
            f == ts.subrange(start as int, n as int),
            all_digits(ts.subrange(start as int, j as int)),
            j - start <= 6 ==> frac_val == digits_value(ts.subrange(start as int, j as int)),
            j - start > 6 ==> frac_val == digits_value(f.subrange(0, 6)),
            frac_val < 1_000_000,
        decreases n - j,
    {
        let c = t.get_char(j);
        if !('0' <= c && c <= '9') {
            proof {
                assert forall|e: int| !decimal_form(ts, e) by {
                    if decimal_form(ts, e) {
                        if e < d {
                            assert(ts.subrange(0, d as int)[e] == ts[e]);
                        } else if e > d {
                            assert(ts.subrange(0, e)[d as int] == ts[d as int]);
                        } else {
                            assert(ts.subrange(d + 1, n as int)[j - d - 1] == ts[j as int]);
                        }
                    }
                }
            }
            return Err(ProbeError::NotANumber);
        }
        let ghost prev = ts.subrange(start as int, j as int);
        let ghost next = ts.subrange(start as int, j + 1);
        assert(next.drop_last() =~= prev);
        assert(all_digits(next)) by {
            assert forall|i: int| 0 <= i < next.len() implies is_digit(#[trigger] next[i]) by {
                if i < prev.len() {
                    assert(prev[i] == next[i]);
                }
            }
        }
        if j - start < 6 {
            proof {
                lemma_digits_below_power(next);
                assert(pow10(next.len()) <= 1_000_000) by {
                    reveal_with_fuel(pow10, 7);
                }
            }
            frac_val = frac_val * 10 + (c as u32 - 48) as u128;
            proof {
                if j + 1 - start == 6 {
                    assert(f.subrange(0, 6) =~= next);
                }
            }
        } else {
            proof {
                if j - start == 6 {
                    assert(f.subrange(0, 6) =~= prev);
                }
            }
        }
        j += 1;
    }
    assert(ts.subrange(start as int, n as int) =~= f);
    assert(decimal_form(ts, d as int));
    proof {
        assert forall|e: int| decimal_form(ts, e) implies e == d by {
            lemma_decimal_form_unique(ts, e, d as int);
        }
    }
    let mut k: usize = if n - start < 6 {
        n - start
    } else {
        6
    };
    proof {
        assert(f.len() == n - start);
        if f.len() <= 6 {
            assert(f.subrange(0, f.len() as int) =~= f);
        }
    }
    proof {
        reveal_with_fuel(pow10, 7);
        if f.len() <= 6 {
            lemma_digits_below_power(f);
        }
    }
    let ghost base = frac_val;
    assert(f.len() <= 6 ==> k == f.len());
    assert(pow10(0) == 1);
    proof {
        if f.len() <= 6 {
            assert((k - f.len()) as nat == 0nat);
            assert(base * pow10(0nat) == base);
        }
    }
    while k < 6
        invariant
            k <= 6,
            f.len() <= 6 ==> frac_val == base * pow10((k - f.len()) as nat),
            f.len() <= 6 ==> f.len() <= k,
            f.len() > 6 ==> frac_val == base && k == 6,
            frac_val < pow10(k as nat),
            pow10(k as nat) <= pow10(6),
        decreases 6 - k,
    {
        proof {
            reveal_with_fuel(pow10, 7);
            assert(pow10((k + 1 - f.len()) as nat) == 10 * pow10((k - f.len()) as nat));
            assert(base * pow10((k + 1 - f.len()) as nat) == base * pow10((k - f.len()) as nat) * 10) by (nonlinear_arith)
                requires
                    pow10((k + 1 - f.len()) as nat) == 10 * pow10((k - f.len()) as nat),
            ;
        }
        frac_val = frac_val * 10;
        k += 1;
    }
    assert(frac_val == fraction_us(f)) by {
        reveal_with_fuel(pow10, 7);
    }
    if too_big {
        return Err(ProbeError::OutOfRange);
    }
    let total: u128 = int_val * 1_000_000 + frac_val;
    if total == 0 {
        Err(ProbeError::ZeroDuration)
    } else if total > 0xffff_ffff_ffff_ffff {
        Err(ProbeError::OutOfRange)
    } else {
        Ok(total as u64)
    }
}

/// Reads the duration printed by the media prober, in seconds with surrounding white
/// space, into microseconds.
pub fn parse_duration_us(text: &str) -> (r: Result<u64, ProbeError>)
    ensures
        r == parse_outcome(trimmed(text@)),
{
    parse_trimmed_duration_us(trim_text(text))
}

/// The marker that the blackframe filter writes to the diagnostics for each black frame:
/// the ASCII bytes of `blackframe`.
pub open spec fn black_marker() -> Seq<u8> {
    seq![98u8, 108u8, 97u8, 99u8, 107u8, 102u8, 114u8, 97u8, 109u8, 101u8]
}

/// `p` stands in `s` from position `i` on.
pub open spec fn occurs_at(s: Seq<u8>, p: Seq<u8>, i: int) -> bool {
    0 <= i && i + p.len() <= s.len() && s.subrange(i, i + p.len()) == p
}

fn matches_at(s: &Vec<u8>, p: &Vec<u8>, i: usize) -> (r: bool)
    requires
        i + p@.len() <= s@.len(),
    ensures
        r == occurs_at(s@, p@, i as int),
{
    let sl = s.len();
    let mut j: usize = 0;
    while j < p.len()
        invariant
            sl == s@.len(),
            i + p@.len() <= s@.len(),
            j <= p@.len(),
            forall|k: int| 0 <= k < j ==> s@[i + k] == p@[k],
        decreases p@.len() - j,
    {
        if s[i + j] != p[j] {
            assert(s@.subrange(i as int, i + p@.len())[j as int] != p@[j as int]);
            return false;
        }
        j += 1;
    }
    assert(s@.subrange(i as int, i + p@.len()) =~= p@);
    true
}

/// Whether the diagnostics of a blackframe run (the tool's raw error stream) report a
/// black frame.
pub fn reports_black_frame(diagnostics: &Vec<u8>) -> (r: bool)
    ensures
        r == exists|i: int| occurs_at(diagnostics@, black_marker(), i),
{
    let marker: Vec<u8> = vec![98u8, 108u8, 97u8, 99u8, 107u8, 102u8, 114u8, 97u8, 109u8, 101u8];
    assert(marker@ =~= black_marker());
    let n = diagnostics.len();
    let m = marker.len();
    if n < m {
        assert forall|i: int| !occurs_at(diagnostics@, black_marker(), i) by {}
        return false;
    }
    let mut i: usize = 0;
    while i <= n - m
        invariant
            n == diagnostics@.len(),
            m == marker@.len(),
            marker@ == black_marker(),
            m <= n,
            i <= n - m + 1,
            forall|k: int| 0 <= k < i ==> !occurs_at(diagnostics@, black_marker(), k),
        decreases n - i,
    {
        if matches_at(diagnostics, &marker, i) {
            return true;
        }
        i += 1;
    }
    assert forall|k: int| !occurs_at(diagnostics@, black_marker(), k) by {
        if 0 <= k && k < i {
        }
    }
    false
}

} // verus!
