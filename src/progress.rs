//! Reading download progress out of the tool's output lines, and keeping the
//! readings that are passed on strictly increasing.
use vstd::prelude::*;
use crate::text::{
    all_digits, chars_of, decimal_value, digit_value, has_prefix, is_digit, lemma_decimal_monotone,
    starts_with,
};

verus! {

/// A full download, in hundredths of a percent.
pub const FULL_PROGRESS: u32 = 10000;

pub open spec fn download_tag() -> Seq<char> {
    "[download]"@
}

/// How many characters at the front of `s` satisfy `pred`.
pub open spec fn leading_run(s: Seq<char>, pred: spec_fn(char) -> bool) -> nat
    decreases s.len(),
{
    if s.len() > 0 && pred(s[0]) {
        1 + leading_run(s.drop_first(), pred)
    } else {
        0
    }
}

pub open spec fn is_space(c: char) -> bool {
    c == ' '
}

/// The first two digits of a fraction, as hundredths; further digits are cut off.
pub open spec fn fraction_hundredths(f: Seq<char>) -> nat {
    digit_value(f[0]) * 10 + if f.len() > 1 {
        digit_value(f[1])
    } else {
        0
    }
}

/// The percentage of a line `[download]`, one or more spaces, a decimal
/// number and `%`, in hundredths of a percent.
pub open spec fn progress_hundredths(line: Seq<char>) -> Option<nat> {
    if !has_prefix(line, download_tag()) {
        None
    } else {
        let r = line.skip(download_tag().len() as int);
        let k = leading_run(r, |c: char| is_space(c));
        let n = r.skip(k as int);
        let di = leading_run(n, |c: char| is_digit(c));
        let ip = n.take(di as int);
        let after = n.skip(di as int);
        if k == 0 || di == 0 || after.len() == 0 {
            None
        } else if after[0] == '%' {
            Some(decimal_value(ip) * 100)
        } else if after[0] == '.' {
            let f = after.skip(1);
            let df = leading_run(f, |c: char| is_digit(c));
            if df == 0 || df >= f.len() || f[df as int] != '%' {
                None
            } else {
                Some(decimal_value(ip) * 100 + fraction_hundredths(f.take(df as int)))
            }
        } else {
            None
        }
    }
}

/// The progress a line reports, where it reports one between 0 and 100%.
pub open spec fn progress_reading(line: Seq<char>) -> Option<u32> {
    match progress_hundredths(line) {
        Some(v) => if v <= FULL_PROGRESS {
            Some(v as u32)
        } else {
            None
        },
        None => None,
    }
}

proof fn lemma_leading_run(s: Seq<char>, pred: spec_fn(char) -> bool, k: int)
    requires
        0 <= k <= s.len(),
        forall|j: int| 0 <= j < k ==> pred(#[trigger] s[j]),
        k == s.len() || !pred(s[k]),
    ensures
        leading_run(s, pred) == k,
    decreases k,
{
    if k > 0 {
        lemma_leading_run(s.drop_first(), pred, k - 1);
    }
}

fn fits(c: char, digits: bool) -> (r: bool)
    ensures
        r == if digits {
            is_digit(c)
        } else {
            is_space(c)
        },
{
    if digits {
        '0' <= c && c <= '9'
    } else {
        c == ' '
    }
}

/// Counts the characters from `from` on that satisfy the predicate.
fn run_end(cs: &Vec<char>, from: usize, digits: bool) -> (r: usize)
    requires
        from <= cs@.len(),
    ensures
        from <= r <= cs@.len(),
        digits ==> leading_run(cs@.skip(from as int), |c: char| is_digit(c)) == r - from,
        !digits ==> leading_run(cs@.skip(from as int), |c: char| is_space(c)) == r - from,
        digits ==> all_digits(cs@.subrange(from as int, r as int)),
{
    let mut i: usize = from;
    while i < cs.len() && fits(cs[i], digits)
        invariant
            from <= i <= cs@.len(),
            forall|j: int|
                from <= j < i ==> if digits {
                    is_digit(#[trigger] cs@[j])
                } else {
                    is_space(cs@[j])
                },
        decreases cs.len() - i,
    {
        i = i + 1;
    }
    proof {
        let s = cs@.skip(from as int);
        if digits {
            let p = |c: char| is_digit(c);
            assert forall|j: int| 0 <= j < i - from implies p(#[trigger] s[j]) by {
                assert(s[j] == cs@[from + j]);
            }
            lemma_leading_run(s, p, i - from);
            assert forall|j: int| 0 <= j < i - from implies is_digit(
                #[trigger] cs@.subrange(from as int, i as int)[j],
            ) by {
                assert(cs@.subrange(from as int, i as int)[j] == cs@[from + j]);
            }
        } else {
            let p = |c: char| is_space(c);
            assert forall|j: int| 0 <= j < i - from implies p(#[trigger] s[j]) by {
                assert(s[j] == cs@[from + j]);
            }
            lemma_leading_run(s, p, i - from);
        }
    }
    i
}

/// The value of the digits `cs[from..to]`, or `None` where it exceeds 100.
fn small_decimal(cs: &Vec<char>, from: usize, to: usize) -> (r: Option<u32>)
    requires
        from <= to <= cs@.len(),
        all_digits(cs@.subrange(from as int, to as int)),
    ensures
        r matches Some(v) ==> v == decimal_value(cs@.subrange(from as int, to as int)) && v <= 100,
        r is None ==> decimal_value(cs@.subrange(from as int, to as int)) > 100,
{
    let ghost d = cs@.subrange(from as int, to as int);
    let mut acc: u32 = 0;
    let mut i: usize = from;
    while i < to
        invariant
            from <= i <= to <= cs@.len(),
            d == cs@.subrange(from as int, to as int),
            all_digits(d),
            acc == decimal_value(d.take(i - from)),
            acc <= 100,
        decreases to - i,
    {
        let ghost k: int = i - from;
        assert(d.take(k + 1).drop_last() =~= d.take(k));
        assert(d[k] == cs@[i as int]);
        assert(is_digit(d[k]));
        let v = acc * 10 + (cs[i] as u32 - '0' as u32);
        if v > 100 {
            proof {
                lemma_decimal_monotone(d, k + 1, d.len() as int);
                assert(d.take(d.len() as int) =~= d);
            }
            return None;
        }
        acc = v;
        i = i + 1;
    }
    assert(d.take(i - from) =~= d);
    Some(acc)
}

/// The progress that a line reports, in hundredths of a percent.
pub fn parse_progress(line: &str) -> (r: Option<u32>)
    ensures
        r == progress_reading(line@),
{
    let cs = chars_of(line);
    let tag = chars_of("[download]");
    if !starts_with(cs.as_slice(), tag.as_slice()) {
        return None;
    }
    let ghost s = cs@;
    let t = tag.len();
    let ghost r = s.skip(t as int);
    let sp_end = run_end(&cs, t, false);
    let ghost k: int = sp_end - t;
    let ghost n = r.skip(k);
    assert(n =~= s.skip(sp_end as int));
    let int_end = run_end(&cs, sp_end, true);
    let ghost di: int = int_end - sp_end;
    assert(n.take(di) =~= s.subrange(sp_end as int, int_end as int));
    let ghost after = n.skip(di);
    assert(after =~= s.skip(int_end as int));
    if sp_end == t || int_end == sp_end || int_end >= cs.len() {
        return None;
    }
    let ip = small_decimal(&cs, sp_end, int_end);
    if cs[int_end] == '%' {
        return match ip {
            Some(v) => Some(v * 100),
            None => None,
        };
    }
    if cs[int_end] != '.' {
        return None;
    }
    let ghost f = after.skip(1);
    assert(f =~= s.skip(int_end + 1));
    let frac_end = run_end(&cs, int_end + 1, true);
    let ghost df: int = frac_end - (int_end + 1);
    if frac_end == int_end + 1 || frac_end >= cs.len() || cs[frac_end] != '%' {
        proof {
            if frac_end < cs.len() {
                assert(f[df] == s[frac_end as int]);
            }
        }
        return None;
    }
    assert(f.take(df) =~= s.subrange(int_end + 1, frac_end as int));
    let first = cs[int_end + 1] as u32 - '0' as u32;
    let second = if frac_end > int_end + 2 {
        cs[int_end + 2] as u32 - '0' as u32
    } else {
        0
    };
    assert(f.take(df)[0] == cs@[int_end + 1]);
    assert(is_digit(s.subrange(int_end + 1, frac_end as int)[0]));
    if frac_end > int_end + 2 {
        assert(f.take(df)[1] == cs@[int_end + 2]);
        assert(is_digit(s.subrange(int_end + 1, frac_end as int)[1]));
    }
    match ip {
        Some(v) => {
            let total = v * 100 + first * 10 + second;
            if total <= FULL_PROGRESS {
                Some(total)
            } else {
                None
            }
        },
        None => None,
    }
}

/// The readings that are passed on: the first one, and then each one that
/// is above the last passed on.
pub open spec fn accept_reading(last: Option<u32>, reading: Option<u32>) -> Option<u32> {
    match reading {
        Some(v) => match last {
            Some(l) => if v > l {
                Some(v)
            } else {
                None
            },
            None => Some(v),
        },
        None => None,
    }
}

/// The watermark of one session's progress: the last value passed on.
#[derive(Clone, Copy, Debug, PartialEq, Eq, Structural)]
pub struct ProgressTracker {
    pub last: Option<u32>,
}

impl ProgressTracker {
    pub fn new() -> (r: ProgressTracker)
        ensures
            r.last is None,
    {
        ProgressTracker { last: None }
    }

    /// The progress to pass on for a line, if any; the watermark moves to it.
    pub fn observe(&mut self, line: &str) -> (r: Option<u32>)
        ensures
            r == accept_reading(old(self).last, progress_reading(line@)),
            final(self).last == match r {
                Some(v) => Some(v),
                None => old(self).last,
            },
    {
        let reading = parse_progress(line);
        let passed = match reading {
            Some(v) => match self.last {
                Some(l) => if v > l {
                    Some(v)
                } else {
                    None
                },
                None => Some(v),
            },
            None => None,
        };
        if let Some(v) = passed {
            self.last = Some(v);
        }
        passed
    }
}

} // verus!
