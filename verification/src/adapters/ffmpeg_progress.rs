//! Parser for ffmpeg `-progress pipe:1` machine output plus `Duration:`
//! stderr headers. Pure functions, so the protocol is checked without
//! running ffmpeg.
use vstd::prelude::*;

use crate::text::{
    all_digits, all_digits_exec, chars_eq_str, chars_of, decimal_value, digits_value_capped,
    ends_with, find, find_from_exec, has_char, is_digit, lemma_decimal_value_bound,
    lemma_find_from, lemma_pow10_pos, occurs_at, lemma_split_on_len, min_nat, pow10, slice_chars, split_on,
    trim, trim_chars, split_chars, views, ends_with_exec, has_char_exec, string_from_chars,
    push_dec2, push_char, pad2, dec, lemma_digit_char,
};

verus! {

/// Microseconds.
pub type Micros = u64;

/// An event of ffmpeg's `-progress` output that the converter acts on.
#[derive(Clone, Copy, Debug, PartialEq, Eq, Structural)]
pub enum ProgressEvent {
    Time(Micros),
    End,
}

/// What `str::parse::<i64>` yields for `s`: an optional sign, then at least
/// one decimal digit, within the range of `i64`.
pub open spec fn parse_i64_spec(s: Seq<char>) -> Option<int> {
    let signed = s.len() > 0 && (s[0] == '+' || s[0] == '-');
    let negative = s.len() > 0 && s[0] == '-';
    let digits = if signed {
        s.drop_first()
    } else {
        s
    };
    if digits.len() == 0 || !all_digits(digits) {
        None
    } else {
        let m = decimal_value(digits) as int;
        let v = if negative {
            -m
        } else {
            m
        };
        if i64::MIN <= v && v <= i64::MAX {
            Some(v)
        } else {
            None
        }
    }
}

/// The event that one `-progress` line carries: `key=value` with the key
/// `out_time_us` (a signed integer, clamped at zero) or `progress=end`.
pub open spec fn progress_event(line: Seq<char>) -> Option<ProgressEvent> {
    match find(line, seq!['=']) {
        None => None,
        Some(i) => {
            let k = trim(line.take(i));
            let v = trim(line.skip(i + 1));
            if k == "out_time_us"@ {
                match parse_i64_spec(v) {
                    Some(us) => Some(
                        ProgressEvent::Time(
                            if us < 0 {
                                0u64
                            } else {
                                us as u64
                            },
                        ),
                    ),
                    None => None,
                }
            } else if k == "progress"@ && v == "end"@ {
                Some(ProgressEvent::End)
            } else {
                None
            }
        }
    }
}

/// `str::parse::<i64>` on a character vector.
fn parse_i64(v: &Vec<char>) -> (r: Option<i64>)
    ensures
        match r {
            Some(x) => parse_i64_spec(v@) == Some(x as int),
            None => parse_i64_spec(v@) is None,
        },
{
    let signed = v.len() > 0 && (v[0] == '+' || v[0] == '-');
    let negative = v.len() > 0 && v[0] == '-';
    let lo: usize = if signed {
        1
    } else {
        0
    };
    let ghost digits = v@.subrange(lo as int, v.len() as int);
    proof {
        if signed {
            assert(digits == v@.drop_first());
        } else {
            assert(digits == v@);
        }
    }
    if lo == v.len() || !all_digits_exec(v, lo, v.len()) {
        return None;
    }
    let m = digits_value_capped(v, lo, v.len(), 9223372036854775809u64);
    if negative {
        if m > 9223372036854775808u64 {
            None
        } else if m == 9223372036854775808u64 {
            Some(i64::MIN)
        } else {
            Some(-(m as i64))
        }
    } else {
        if m > 9223372036854775807u64 {
            None
        } else {
            Some(m as i64)
        }
    }
}

/// Parse one `-progress` line. Returns an event only for keys acted on.
pub fn parse_progress_line(line: &str) -> (r: Option<ProgressEvent>)
    ensures
        r == progress_event(line@),
{
    let v = chars_of(line);
    let eq = vec!['='];
    assert(eq@ == seq!['=']);
    match find_from_exec(&v, &eq, 0) {
        None => None,
        Some(i) => {
            proof {
                lemma_find_from(v@, eq@, 0);
            }
            let key = trim_chars(&slice_chars(&v, 0, i));
            let val = trim_chars(&slice_chars(&v, i + 1, v.len()));
            assert(v@.subrange(0, i as int) == v@.take(i as int));
            assert(v@.subrange(i + 1, v.len() as int) == v@.skip(i + 1));
            if chars_eq_str(&key, "out_time_us") {
                match parse_i64(&val) {
                    Some(us) => Some(
                        ProgressEvent::Time(
                            if us < 0 {
                                0u64
                            } else {
                                us as u64
                            },
                        ),
                    ),
                    None => None,
                }
            } else if chars_eq_str(&key, "progress") && chars_eq_str(&val, "end") {
                Some(ProgressEvent::End)
            } else {
                None
            }
        },
    }
}

/// `floor(0.f * 10^p)` for the fraction digits `f`.
pub open spec fn frac_scaled(f: Seq<char>, p: nat) -> nat {
    if f.len() >= p {
        decimal_value(f.take(p as int))
    } else {
        decimal_value(f) * pow10((p - f.len()) as nat)
    }
}

/// A decimal number `digits[.digits]` with at least one digit, split into
/// its integer digits and its fraction digits.
pub open spec fn decimal_parts(s: Seq<char>) -> Option<(Seq<char>, Seq<char>)> {
    match find(s, seq!['.']) {
        None => if s.len() > 0 && all_digits(s) {
            Some((s, Seq::<char>::empty()))
        } else {
            None
        },
        Some(i) => {
            let a = s.take(i);
            let b = s.skip(i + 1);
            if all_digits(a) && all_digits(b) && a.len() + b.len() > 0 {
                Some((a, b))
            } else {
                None
            }
        },
    }
}

/// `floor(x * 10^p)` for the decimal number `x` that `s` spells.
pub open spec fn scaled_decimal(s: Seq<char>, p: nat) -> Option<nat> {
    match decimal_parts(s) {
        Some((a, b)) => Some(decimal_value(a) * pow10(p) + frac_scaled(b, p)),
        None => None,
    }
}

/// `n`, saturated at `u64::MAX`.
pub open spec fn cap_u64(n: nat) -> nat {
    min_nat(n, u64::MAX as nat)
}

/// Microseconds of a clock time `HH:MM:SS[.frac]`, `MM:SS[.frac]` or
/// `SS[.frac]`: the hour and minute fields are plain digits.
pub open spec fn clock_micros(t: Seq<char>) -> Option<nat> {
    let f = split_on(t, ':');
    let n = f.len();
    if n < 1 || n > 3 {
        None
    } else if !(forall|i: int| 0 <= i < n - 1 ==> #[trigger] f[i].len() > 0 && all_digits(f[i])) {
        None
    } else {
        match scaled_decimal(f[n - 1], 6) {
            None => None,
            Some(sec) => {
                let minutes = if n >= 2 {
                    decimal_value(f[n - 2])
                } else {
                    0
                };
                let hours = if n >= 3 {
                    decimal_value(f[0])
                } else {
                    0
                };
                Some(hours * 3_600_000_000 + minutes * 60_000_000 + sec)
            },
        }
    }
}

/// The microseconds that an ffmpeg time expression denotes, before
/// saturation: `HH:MM:SS[.frac]`, `MM:SS[.frac]`, `SS[.frac]`, or a number
/// with the unit `us`, `ms` or `s`; surrounding whitespace is ignored and
/// `N/A` denotes no time. Fractions finer than a microsecond are dropped.
pub open spec fn time_value(s: Seq<char>) -> Option<nat> {
    let t = trim(s);
    if t.len() == 0 || t == "N/A"@ {
        None
    } else if ends_with(t, "us"@) {
        scaled_decimal(t.take(t.len() - 2), 0)
    } else if ends_with(t, "ms"@) {
        scaled_decimal(t.take(t.len() - 2), 3)
    } else if ends_with(t, "s"@) && !has_char(t.take(t.len() - 1), ':') {
        scaled_decimal(t.take(t.len() - 1), 6)
    } else {
        clock_micros(t)
    }
}

/// What `parse_time` returns: the time in microseconds, saturated at
/// `u64::MAX`.
pub open spec fn parse_time_spec(s: Seq<char>) -> Option<nat> {
    match time_value(s) {
        Some(us) => Some(cap_u64(us)),
        None => None,
    }
}

proof fn lemma_pow10_small()
    ensures
        pow10(0) == 1,
        pow10(3) == 1000,
        pow10(6) == 1000000,
{
    reveal_with_fuel(pow10, 7);
}

/// `(integer part, fraction start)` of a decimal number in `v[lo..hi]`.
fn decimal_parts_exec(v: &Vec<char>, lo: usize, hi: usize) -> (r: Option<(usize, usize)>)
    requires
        lo <= hi <= v.len(),
    ensures
        match r {
            Some((dot, fs)) => lo <= dot <= fs <= hi && decimal_parts(
                v@.subrange(lo as int, hi as int),
            ) == Some((v@.subrange(lo as int, dot as int), v@.subrange(fs as int, hi as int))),
            None => decimal_parts(v@.subrange(lo as int, hi as int)) is None,
        },
{
    let s = slice_chars(v, lo, hi);
    let dotv = vec!['.'];
    assert(dotv@ == seq!['.']);
    match find_from_exec(&s, &dotv, 0) {
        None => {
            if hi > lo && all_digits_exec(v, lo, hi) {
                assert(v@.subrange(hi as int, hi as int) == Seq::<char>::empty());
                Some((hi, hi))
            } else {
                None
            }
        },
        Some(i) => {
            proof {
                lemma_find_from(s@, dotv@, 0);
                assert(s@.take(i as int) == v@.subrange(lo as int, lo + i));
                assert(s@.skip(i + 1) == v@.subrange(lo + i + 1, hi as int));
            }
            if all_digits_exec(v, lo, lo + i) && all_digits_exec(v, lo + i + 1, hi) && hi - lo > 1 {
                Some((lo + i, lo + i + 1))
            } else {
                None
            }
        },
    }
}

/// `frac_scaled(v[lo..hi], p)`.
fn frac_scaled_exec(v: &Vec<char>, lo: usize, hi: usize, p: usize) -> (r: u64)
    requires
        lo <= hi <= v.len(),
        p <= 6,
        all_digits(v@.subrange(lo as int, hi as int)),
    ensures
        r as nat == frac_scaled(v@.subrange(lo as int, hi as int), p as nat),
        r < 1000000,
{
    let ghost f = v@.subrange(lo as int, hi as int);
    let k: usize = if hi - lo >= p {
        p
    } else {
        hi - lo
    };
    proof {
        assert(v@.subrange(lo as int, lo + k) == f.take(k as int));
        assert(all_digits(f.take(k as int))) by {
            assert forall|j: int| 0 <= j < k implies is_digit(#[trigger] f.take(k as int)[j]) by {
                assert(f.take(k as int)[j] == f[j]);
            }
        }
        lemma_decimal_value_bound(f.take(k as int));
        lemma_pow10_small();
        lemma_pow10_mono(k as nat, 6);
        if k == f.len() {
            assert(f.take(k as int) == f);
        }
    }
    let mut val = digits_value_capped(v, lo, lo + k, u64::MAX);
    assert(val as nat == decimal_value(f.take(k as int)));
    assert(pow10(0) == 1);
    assert(val as nat == decimal_value(f.take(k as int)) * pow10(0));
    let mut j = k;
    while j < p
        invariant
            k <= j <= p <= 6,
            val as nat == decimal_value(f.take(k as int)) * pow10((j - k) as nat),
            val < pow10(j as nat),
        decreases p - j,
    {
        proof {
            assert(pow10((j + 1 - k) as nat) == 10 * pow10((j - k) as nat));
            assert(pow10((j + 1) as nat) == 10 * pow10(j as nat));
            lemma_pow10_mono((j + 1) as nat, 6);
            lemma_pow10_mono(j as nat, 6);
            lemma_pow10_small();
            let a = decimal_value(f.take(k as int));
            let b = pow10((j - k) as nat);
            assert(a * (10 * b) == (a * b) * 10) by (nonlinear_arith);
        }
        val = val * 10;
        j += 1;
    }
    proof {
        lemma_pow10_mono(p as nat, 6);
        lemma_pow10_small();
        if f.len() >= p {
            assert(k == p);
        } else {
            assert(f.take(k as int) == f);
        }
    }
    val
}

pub proof fn lemma_pow10_mono(a: nat, b: nat)
    requires
        a <= b,
    ensures
        pow10(a) <= pow10(b),
    decreases b,
{
    if a < b {
        lemma_pow10_mono(a, (b - 1) as nat);
        lemma_pow10_pos((b - 1) as nat);
    }
}

/// `scaled_decimal(v[lo..hi], p)` saturated at `u64::MAX`, for `p` in {0, 3, 6}.
fn scaled_decimal_exec(v: &Vec<char>, lo: usize, hi: usize, p: usize) -> (r: Option<u64>)
    requires
        lo <= hi <= v.len(),
        p == 0 || p == 3 || p == 6,
    ensures
        match r {
            Some(x) => scaled_decimal(v@.subrange(lo as int, hi as int), p as nat) matches Some(
                y,
            ) && x == cap_u64(y),
            None => scaled_decimal(v@.subrange(lo as int, hi as int), p as nat) is None,
        },
{
    match decimal_parts_exec(v, lo, hi) {
        None => None,
        Some((dot, fs)) => {
            let int_part = digits_value_capped(v, lo, dot, u64::MAX);
            let frac = frac_scaled_exec(v, fs, hi, p);
            let unit: u128 = if p == 0 {
                1
            } else if p == 3 {
                1000
            } else {
                1000000
            };
            proof {
                lemma_pow10_small();
            }
            let total: u128 = (int_part as u128) * unit + (frac as u128);
            proof {
                let a = decimal_value(v@.subrange(lo as int, dot as int));
                let m = pow10(p as nat);
                assert(m == unit);
                if a >= u64::MAX {
                    assert(a * m >= a) by (nonlinear_arith)
                        requires
                            m >= 1,
                            a >= 0,
                    ;
                    assert(int_part * unit >= int_part) by (nonlinear_arith)
                        requires
                            unit >= 1,
                    ;
                }
            }
            if total > u64::MAX as u128 {
                Some(u64::MAX)
            } else {
                Some(total as u64)
            }
        },
    }
}

/// Saturating at `u64::MAX` may happen on each field first.
proof fn lemma_cap_fields(h: nat, m: nat, sec: nat)
    ensures
        cap_u64(h * 3_600_000_000 + m * 60_000_000 + sec) == cap_u64(
            min_nat(h, u64::MAX as nat) * 3_600_000_000 + min_nat(m, u64::MAX as nat) * 60_000_000
                + cap_u64(sec),
        ),
{
}

/// `clock_micros(t)` saturated at `u64::MAX`.
fn clock_micros_exec(t: &Vec<char>) -> (r: Option<u64>)
    ensures
        match r {
            Some(x) => clock_micros(t@) matches Some(y) && x == cap_u64(y),
            None => clock_micros(t@) is None,
        },
{
    let fields = split_chars(t, ':');
    let ghost f = split_on(t@, ':');
    proof {
        lemma_split_on_len(t@, ':');
        assert(f.len() == fields@.len());
        assert forall|i: int| 0 <= i < fields@.len() implies #[trigger] fields@[i]@ == f[i] by {
            assert(views(fields@)[i] == fields@[i]@);
        }
    }
    let n = fields.len();
    if n > 3 {
        return None;
    }
    let mut i: usize = 0;
    while i + 1 < n
        invariant
            f == split_on(t@, ':'),
            n == fields@.len() == f.len(),
            1 <= n <= 3,
            forall|k: int| 0 <= k < fields@.len() ==> #[trigger] fields@[k]@ == f[k],
            i < n,
            forall|k: int| 0 <= k < i ==> #[trigger] f[k].len() > 0 && all_digits(f[k]),
        decreases n - i,
    {
        let fi = &fields[i];
        proof {
            assert(fi@.subrange(0, fi@.len() as int) == fi@);
        }
        if fi.len() == 0 || !all_digits_exec(fi, 0, fi.len()) {
            proof {
                assert(f[i as int] == fi@);
                assert(!(f[i as int].len() > 0 && all_digits(f[i as int])));
                assert(!(forall|k: int|
                    0 <= k < f.len() - 1 ==> #[trigger] f[k].len() > 0 && all_digits(f[k])));
            }
            return None;
        }
        i += 1;
    }
    let last = &fields[n - 1];
    proof {
        assert(last@.subrange(0, last@.len() as int) == last@);
    }
    let sec = match scaled_decimal_exec(last, 0, last.len(), 6) {
        None => {
            return None;
        },
        Some(x) => x,
    };
    let minutes: u64 = if n >= 2 {
        let fm = &fields[n - 2];
        proof {
            assert(fm@.subrange(0, fm@.len() as int) == fm@);
        }
        digits_value_capped(fm, 0, fm.len(), u64::MAX)
    } else {
        0
    };
    let hours: u64 = if n >= 3 {
        let fh = &fields[0];
        proof {
            assert(fh@.subrange(0, fh@.len() as int) == fh@);
        }
        digits_value_capped(fh, 0, fh.len(), u64::MAX)
    } else {
        0
    };
    let total: u128 = (hours as u128) * 3_600_000_000 + (minutes as u128) * 60_000_000 + (
    sec as u128);
    proof {
        let hh: nat = if n >= 3 {
            decimal_value(f[0])
        } else {
            0
        };
        let mm: nat = if n >= 2 {
            decimal_value(f[n - 2])
        } else {
            0
        };
        let ss = scaled_decimal(f[n - 1], 6)->0;
        lemma_cap_fields(hh, mm, ss);
    }
    if total > u64::MAX as u128 {
        Some(u64::MAX)
    } else {
        Some(total as u64)
    }
}

/// Parse ffmpeg time expressions: `HH:MM:SS[.frac]`, `MM:SS[.frac]`,
/// `SS[.frac]`, or raw `123456us` / `200ms` / `5s`.
pub fn parse_time(s: &str) -> (r: Option<Micros>)
    ensures
        match r {
            Some(x) => parse_time_spec(s@) == Some(x as nat),
            None => parse_time_spec(s@) is None,
        },
{
    let v = chars_of(s);
    let t = trim_chars(&v);
    if t.len() == 0 || chars_eq_str(&t, "N/A") {
        return None;
    }
    let us = chars_of("us");
    let ms = chars_of("ms");
    let sec = chars_of("s");
    proof {
        reveal_strlit("us");
        reveal_strlit("ms");
        reveal_strlit("s");
    }
    let r = if ends_with_exec(&t, &us) {
        assert(t@.subrange(0, t.len() - 2) == t@.take(t.len() - 2));
        scaled_decimal_exec(&t, 0, t.len() - 2, 0)
    } else if ends_with_exec(&t, &ms) {
        assert(t@.subrange(0, t.len() - 2) == t@.take(t.len() - 2));
        scaled_decimal_exec(&t, 0, t.len() - 2, 3)
    } else if ends_with_exec(&t, &sec) && !has_char_exec(&slice_chars(&t, 0, t.len() - 1), ':') {
        assert(t@.subrange(0, t.len() - 1) == t@.take(t.len() - 1));
        scaled_decimal_exec(&t, 0, t.len() - 1, 6)
    } else {
        clock_micros_exec(&t)
    };
    r
}

/// The time token of a stderr line: the text between its first and second
/// `Duration:` up to the first comma, trimmed.
pub open spec fn duration_token(line: Seq<char>) -> Option<Seq<char>> {
    let pat = "Duration:"@;
    match find(line, pat) {
        None => None,
        Some(i) => {
            let after = line.skip(i + pat.len());
            let seg = match find(after, pat) {
                Some(j) => after.take(j),
                None => after,
            };
            Some(trim(split_on(seg, ',')[0]))
        },
    }
}

/// The positive duration that a stderr line announces, if any.
pub open spec fn line_duration(line: Seq<char>) -> Option<nat> {
    match duration_token(line) {
        None => None,
        Some(tok) => match parse_time_spec(tok) {
            Some(us) => if us > 0 {
                Some(us)
            } else {
                None
            },
            None => None,
        },
    }
}

/// The first positive duration announced in a list of lines.
pub open spec fn first_duration(lines: Seq<Seq<char>>) -> Option<nat>
    decreases lines.len(),
{
    if lines.len() == 0 {
        None
    } else {
        match line_duration(lines[0]) {
            Some(us) => Some(us),
            None => first_duration(lines.drop_first()),
        }
    }
}

/// What `parse_duration` returns: the first positive `Duration:` header
/// among the lines of `stderr`.
pub open spec fn duration_of(stderr: Seq<char>) -> Option<nat> {
    first_duration(split_on(stderr, '\n'))
}

fn line_duration_exec(line: &Vec<char>) -> (r: Option<u64>)
    ensures
        match r {
            Some(x) => line_duration(line@) == Some(x as nat),
            None => line_duration(line@) is None,
        },
{
    let pat = chars_of("Duration:");
    match find_from_exec(line, &pat, 0) {
        None => None,
        Some(i) => {
            proof {
                lemma_find_from(line@, pat@, 0);
                assert(occurs_at(line@, pat@, i as int));
                assert(i + pat.len() <= line.len());
            }
            let after = slice_chars(line, i + pat.len(), line.len());
            assert(after@ == line@.skip(i + pat@.len()));
            let seg = match find_from_exec(&after, &pat, 0) {
                Some(j) => {
                    proof {
                        lemma_find_from(after@, pat@, 0);
                    }
                    assert(after@.subrange(0, j as int) == after@.take(j as int));
                    slice_chars(&after, 0, j)
                },
                None => {
                    assert(after@.subrange(0, after@.len() as int) == after@);
                    slice_chars(&after, 0, after.len())
                },
            };
            let pieces = split_chars(&seg, ',');
            proof {
                lemma_split_on_len(seg@, ',');
                assert(views(pieces@)[0] == pieces@[0]@);
            }
            let tok = trim_chars(&pieces[0]);
            let tok_s = string_from_chars(&tok);
            match parse_time(tok_s.as_str()) {
                Some(us) => {
                    if us > 0 {
                        Some(us)
                    } else {
                        None
                    }
                },
                None => None,
            }
        },
    }
}

/// Scan ffmpeg stderr text for the first `Duration: ...` header.
pub fn parse_duration(stderr: &str) -> (r: Option<Micros>)
    ensures
        match r {
            Some(x) => duration_of(stderr@) == Some(x as nat),
            None => duration_of(stderr@) is None,
        },
{
    let v = chars_of(stderr);
    let lines = split_chars(&v, '\n');
    let ghost ls = split_on(v@, '\n');
    let mut i: usize = 0;
    assert(ls.skip(0) == ls);
    while i < lines.len()
        invariant
            i <= lines.len(),
            views(lines@) == ls,
            ls == split_on(stderr@, '\n'),
            first_duration(ls) == first_duration(ls.skip(i as int)),
        decreases lines.len() - i,
    {
        proof {
            assert(views(lines@)[i as int] == lines@[i as int]@);
            assert(ls.skip(i as int)[0] == ls[i as int]);
            assert(ls.skip(i as int).drop_first() == ls.skip(i + 1));
        }
        match line_duration_exec(&lines[i]) {
            Some(us) => {
                assert(first_duration(ls.skip(i as int)) == Some(us as nat));
                return Some(us);
            },
            None => {},
        }
        i += 1;
    }
    proof {
        assert(ls.skip(i as int).len() == 0);
    }
    None
}

/// What `percent` returns: whole percent, at most 100, or none when the
/// total is zero.
pub open spec fn percent_spec(done_us: nat, total_us: nat) -> Option<nat> {
    if total_us == 0 {
        None
    } else {
        Some(min_nat(done_us * 100 / total_us, 100))
    }
}

/// Whole-percent 0..=100, or None when the total is unknown/zero.
pub fn percent(done_us: Micros, total_us: Micros) -> (r: Option<u32>)
    ensures
        match r {
            Some(p) => percent_spec(done_us as nat, total_us as nat) == Some(p as nat),
            None => percent_spec(done_us as nat, total_us as nat) is None,
        },
{
    if total_us == 0 {
        return None;
    }
    let q: u128 = (done_us as u128) * 100 / (total_us as u128);
    if q > 100 {
        Some(100)
    } else {
        Some(q as u32)
    }
}

/// What `fmt_hms` renders: whole seconds as `HH:MM:SS`, each field at
/// least two digits.
pub open spec fn hms(us: nat) -> Seq<char> {
    let s = us / 1_000_000;
    pad2(dec(s / 3600)) + seq![':'] + pad2(dec((s % 3600) / 60)) + seq![':'] + pad2(dec(s % 60))
}

/// Render microseconds as `HH:MM:SS`.
pub fn fmt_hms(us: Micros) -> (r: String)
    ensures
        r@ == hms(us as nat),
{
    let s = us / 1_000_000;
    let mut out = String::new();
    push_dec2(&mut out, s / 3600);
    push_char(&mut out, ':');
    push_dec2(&mut out, (s % 3600) / 60);
    push_char(&mut out, ':');
    push_dec2(&mut out, s % 60);
    out
}

/// Percentages stay within 0..=100, and are known exactly when the total is
/// not zero.
pub proof fn law_percent_in_range(done_us: nat, total_us: nat)
    ensures
        percent_spec(done_us, total_us) is Some <==> total_us != 0,
        percent_spec(done_us, total_us) matches Some(p) ==> p <= 100,
        total_us != 0 && done_us <= total_us ==> percent_spec(done_us, total_us) == Some(
            done_us * 100 / total_us,
        ),
{
    if total_us != 0 && done_us <= total_us {
        assert(done_us * 100 <= total_us * 100) by (nonlinear_arith)
            requires
                done_us <= total_us,
        ;
        assert(done_us * 100 / total_us <= 100) by (nonlinear_arith)
            requires
                done_us * 100 <= total_us * 100,
                total_us > 0,
        ;
    }
}

proof fn lemma_dec_digits(n: nat)
    ensures
        all_digits(dec(n)),
        dec(n).len() >= 1,
        decimal_value(dec(n)) == n,
    decreases n,
{
    crate::queue::lemma_dec_value(n);
    lemma_digit_char(n % 10);
    if n >= 10 {
        lemma_dec_digits(n / 10);
        let d = dec(n);
        assert forall|i: int| 0 <= i < d.len() implies is_digit(#[trigger] d[i]) by {
            if i < d.len() - 1 {
                assert(d[i] == dec(n / 10)[i]);
            }
        }
    } else {
        lemma_digit_char(n);
    }
}

proof fn lemma_leading_zero(d: Seq<char>)
    ensures
        decimal_value(seq!['0'] + d) == decimal_value(d),
    decreases d.len(),
{
    if d.len() == 0 {
        reveal_with_fuel(decimal_value, 2);
        assert((seq!['0'] + d) =~= seq!['0']);
        assert(seq!['0'].drop_last() =~= Seq::<char>::empty());
    } else {
        lemma_leading_zero(d.drop_last());
        assert((seq!['0'] + d).drop_last() =~= seq!['0'] + d.drop_last());
        assert((seq!['0'] + d).last() == d.last());
    }
}

proof fn lemma_pad2(n: nat)
    ensures
        all_digits(pad2(dec(n))),
        pad2(dec(n)).len() >= 1,
        decimal_value(pad2(dec(n))) == n,
{
    lemma_dec_digits(n);
    let d = dec(n);
    if d.len() < 2 {
        lemma_leading_zero(d);
        let p = seq!['0'] + d;
        assert forall|i: int| 0 <= i < p.len() implies is_digit(#[trigger] p[i]) by {
            if i > 0 {
                assert(p[i] == d[i - 1]);
            }
        }
    }
}

proof fn lemma_split_single(y: Seq<char>, c: char)
    requires
        !has_char(y, c),
    ensures
        split_on(y, c) == seq![y],
    decreases y.len(),
{
    if y.len() > 0 {
        assert(!has_char(y.drop_last(), c)) by {
            if has_char(y.drop_last(), c) {
                let i = choose|i: int| 0 <= i < y.drop_last().len() && y.drop_last()[i] == c;
                assert(y[i] == c);
            }
        }
        lemma_split_single(y.drop_last(), c);
        assert(y[y.len() - 1] != c);
        assert(y.drop_last().push(y.last()) =~= y);
    } else {
        assert(y =~= Seq::<char>::empty());
    }
}

proof fn lemma_split_after(x: Seq<char>, y: Seq<char>, c: char)
    requires
        !has_char(y, c),
    ensures
        split_on(x.push(c) + y, c) == split_on(x, c).push(y),
    decreases y.len(),
{
    let t = x.push(c) + y;
    if y.len() == 0 {
        assert(t =~= x.push(c));
        assert(t.drop_last() =~= x);
        assert(t.last() == c);
        assert(y =~= Seq::<char>::empty());
    } else {
        assert(!has_char(y.drop_last(), c)) by {
            if has_char(y.drop_last(), c) {
                let i = choose|i: int| 0 <= i < y.drop_last().len() && y.drop_last()[i] == c;
                assert(y[i] == c);
            }
        }
        lemma_split_after(x, y.drop_last(), c);
        assert(t.drop_last() =~= x.push(c) + y.drop_last());
        assert(t.last() == y.last());
        assert(y[y.len() - 1] != c);
        assert(y.drop_last().push(y.last()) =~= y);
        assert(split_on(t, c) =~= split_on(x, c).push(y));
    }
}

proof fn lemma_digits_no_char(d: Seq<char>, c: char)
    requires
        all_digits(d),
        !is_digit(c),
    ensures
        !has_char(d, c),
{
    if has_char(d, c) {
        let i = choose|i: int| 0 <= i < d.len() && d[i] == c;
        assert(is_digit(d[i]));
    }
}

/// Formatting a time and parsing it back gives the time, truncated to
/// whole seconds.
#[verifier::spinoff_prover]
#[verifier::rlimit(50)]
pub proof fn law_fmt_hms_parses_back(us: nat)
    requires
        us <= u64::MAX,
    ensures
        parse_time_spec(hms(us)) == Some(us / 1_000_000 * 1_000_000),
{
    let s = us / 1_000_000;
    let h = s / 3600;
    let m = (s % 3600) / 60;
    let sec = s % 60;
    let a = pad2(dec(h));
    let b = pad2(dec(m));
    let c = pad2(dec(sec));
    lemma_pad2(h);
    lemma_pad2(m);
    lemma_pad2(sec);
    let t = hms(us);
    assert(t =~= (a.push(':') + b).push(':') + c);
    lemma_digits_no_char(b, ':');
    lemma_digits_no_char(c, ':');
    lemma_digits_no_char(a, ':');
    lemma_digits_no_char(c, '.');
    lemma_split_single(a, ':');
    lemma_split_after(a, b, ':');
    lemma_split_after(a.push(':') + b, c, ':');
    let f = split_on(t, ':');
    assert(f =~= seq![a, b, c]);
    // the text has no surrounding whitespace
    assert(t[0] == a[0]);
    assert(is_digit(a[0]));
    assert(t.last() == c.last());
    assert(is_digit(c[c.len() - 1]));
    assert(!crate::text::is_ws(t[0]));
    assert(!crate::text::is_ws(t.last()));
    assert(crate::text::ws_prefix_len(t) == 0);
    assert(crate::text::trim_start(t) =~= t);
    assert(crate::text::ws_suffix_len(t) == 0);
    assert(trim(t) =~= t);
    reveal_strlit("N/A");
    reveal_strlit("us");
    reveal_strlit("ms");
    reveal_strlit("s");
    assert(t != "N/A"@) by {
        assert("N/A"@[0] == 'N');
    }
    assert(!ends_with(t, "us"@)) by {
        if ends_with(t, "us"@) {
            assert(t.skip(t.len() - 2)[1] == t.last());
        }
    }
    assert(!ends_with(t, "ms"@)) by {
        if ends_with(t, "ms"@) {
            assert(t.skip(t.len() - 2)[1] == t.last());
        }
    }
    assert(!ends_with(t, "s"@)) by {
        if ends_with(t, "s"@) {
            assert(t.skip(t.len() - 1)[0] == t.last());
        }
    }
    lemma_find_from(c, seq!['.'], 0);
    assert(find(c, seq!['.']) is None) by {
        if find(c, seq!['.']) is Some {
            let k = find(c, seq!['.'])->0;
            assert(c.subrange(k, k + 1)[0] == c[k]);
        }
    }
    lemma_pow10_small();
    assert(decimal_parts(c) == Some((c, Seq::<char>::empty())));
    assert(decimal_value(Seq::<char>::empty()) == 0);
    assert(frac_scaled(Seq::<char>::empty(), 6) == decimal_value(Seq::<char>::empty()) * pow10(6));
    assert(frac_scaled(Seq::<char>::empty(), 6) == 0);
    assert(scaled_decimal(c, 6) == Some(sec * 1000000));
    assert(s == h * 3600 + m * 60 + sec) by (nonlinear_arith)
        requires
            h == s / 3600,
            m == (s % 3600) / 60,
            sec == s % 60,
    ;
    assert(h * 3_600_000_000 + m * 60_000_000 + sec * 1000000 == s * 1_000_000) by (nonlinear_arith)
        requires
            s == h * 3600 + m * 60 + sec,
    ;
    assert(s * 1_000_000 <= us) by (nonlinear_arith)
        requires
            s == us / 1_000_000,
    ;
    assert(clock_micros(t) == Some(s * 1_000_000));
}

} // verus!
