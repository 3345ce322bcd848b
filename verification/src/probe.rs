//! Reading what `ffprobe` reports of a video: `key=value` lines, of which
//! the width, the height, the average frame rate and the duration count.
//! Lines are taken as `str::lines` gives them, split at the first `=`, and
//! both sides trimmed of white space as `str::trim` does; a later line for a
//! key replaces an earlier one.

use vstd::prelude::*;
use crate::lexer::{chars_of, is_whitespace_char};
use crate::token_model::{all_digits, is_digit, is_white_space};

verus! {

/// What the report says, as far as it counts: the numbers that parse, and
/// the frame rate and duration as their text.
pub struct ProbeModel {
    pub width: Option<u32>,
    pub height: Option<u32>,
    pub avg_frame_rate: Option<Seq<char>>,
    pub duration: Option<Seq<char>>,
}

/// The fields of the report that count.
pub struct ProbeFields {
    pub width: Option<u32>,
    pub height: Option<u32>,
    pub avg_frame_rate: Option<String>,
    pub duration: Option<String>,
}

impl View for ProbeFields {
    type V = ProbeModel;

    open spec fn view(&self) -> ProbeModel {
        ProbeModel {
            width: self.width,
            height: self.height,
            avg_frame_rate: match self.avg_frame_rate {
                Some(t) => Some(t@),
                None => None,
            },
            duration: match self.duration {
                Some(t) => Some(t@),
                None => None,
            },
        }
    }
}

/// The first place in `[i, hi)` that holds `c`, or `hi`.
pub open spec fn find(s: Seq<char>, i: int, hi: int, c: char) -> int
    decreases hi - i,
{
    if i >= hi || s[i] == c {
        i
    } else {
        find(s, i + 1, hi, c)
    }
}

/// Past the white space that starts `[i, hi)`.
pub open spec fn skip_space(s: Seq<char>, i: int, hi: int) -> int
    decreases hi - i,
{
    if i < hi && is_white_space(s[i]) {
        skip_space(s, i + 1, hi)
    } else {
        i
    }
}

/// Before the white space that ends `[lo, j)`.
pub open spec fn back_space(s: Seq<char>, lo: int, j: int) -> int
    decreases j - lo,
{
    if j > lo && is_white_space(s[j - 1]) {
        back_space(s, lo, j - 1)
    } else {
        j
    }
}

/// `[lo, hi)` without the white space at either end.
pub open spec fn trimmed(s: Seq<char>, lo: int, hi: int) -> Seq<char> {
    let a = skip_space(s, lo, hi);
    s.subrange(a, back_space(s, a, hi))
}

/// The value of a run of decimal digits.
pub open spec fn digits_value(d: Seq<char>) -> nat
    decreases d.len(),
{
    if d.len() == 0 {
        0
    } else {
        digits_value(d.drop_last()) * 10 + (d.last() as nat - 48) as nat
    }
}

/// What `str::parse::<u32>` gives: an optional `+`, then one or more
/// decimal digits whose value fits in 32 bits.
pub open spec fn u32_of(t: Seq<char>) -> Option<u32> {
    let d = if t.len() > 0 && t[0] == '+' {
        t.drop_first()
    } else {
        t
    };
    if d.len() == 0 || !all_digits(d) || digits_value(d) > u32::MAX {
        None
    } else {
        Some(digits_value(d) as u32)
    }
}

/// What one line `[lo, hi)` changes.
pub open spec fn probe_line(s: Seq<char>, lo: int, hi: int, acc: ProbeModel) -> ProbeModel {
    let k = find(s, lo, hi, '=');
    if k >= hi {
        acc
    } else {
        let key = trimmed(s, lo, k);
        let value = trimmed(s, k + 1, hi);
        if key == "width"@ {
            ProbeModel { width: u32_of(value), ..acc }
        } else if key == "height"@ {
            ProbeModel { height: u32_of(value), ..acc }
        } else if key == "avg_frame_rate"@ {
            ProbeModel { avg_frame_rate: Some(value), ..acc }
        } else if key == "duration"@ {
            ProbeModel { duration: Some(value), ..acc }
        } else {
            acc
        }
    }
}

/// The end of the line that starts at `i`: before its `\n`, and before a
/// `\r` that comes just before the `\n`.
pub open spec fn line_content_end(s: Seq<char>, i: int) -> int {
    let e = find(s, i, s.len() as int, '\n');
    if e < s.len() && e > i && s[e - 1] == '\r' {
        e - 1
    } else {
        e
    }
}

/// What the lines from `i` on change.
pub open spec fn probe_from(s: Seq<char>, i: int, acc: ProbeModel) -> ProbeModel
    decreases s.len() - i,
{
    if i >= s.len() || i < 0 {
        acc
    } else {
        let e = find(s, i, s.len() as int, '\n');
        let next = probe_line(s, i, line_content_end(s, i), acc);
        if i <= e < s.len() {
            probe_from(s, e + 1, next)
        } else {
            next
        }
    }
}

/// Nothing reported.
pub open spec fn no_fields() -> ProbeModel {
    ProbeModel { width: None, height: None, avg_frame_rate: None, duration: None }
}

fn find_char(s: &Vec<char>, i: usize, hi: usize, c: char) -> (r: usize)
    requires
        i <= hi <= s@.len(),
    ensures
        r == find(s@, i as int, hi as int, c),
        i <= r <= hi,
{
    let mut k = i;
    while k < hi && s[k] != c
        invariant
            i <= k <= hi <= s@.len(),
            find(s@, i as int, hi as int, c) == find(s@, k as int, hi as int, c),
        decreases hi - k,
    {
        k = k + 1;
    }
    k
}

/// The bounds of `[lo, hi)` without the white space at either end.
fn trim_range(s: &Vec<char>, lo: usize, hi: usize) -> (r: (usize, usize))
    requires
        lo <= hi <= s@.len(),
    ensures
        r.0 == skip_space(s@, lo as int, hi as int),
        r.1 == back_space(s@, r.0 as int, hi as int),
        lo <= r.0 <= r.1 <= hi,
{
    let mut a = lo;
    while a < hi && is_whitespace_char(s[a])
        invariant
            lo <= a <= hi <= s@.len(),
            skip_space(s@, lo as int, hi as int) == skip_space(s@, a as int, hi as int),
        decreases hi - a,
    {
        a = a + 1;
    }
    let mut b = hi;
    while b > a && is_whitespace_char(s[b - 1])
        invariant
            lo <= a <= b <= hi <= s@.len(),
            back_space(s@, a as int, hi as int) == back_space(s@, a as int, b as int),
        decreases b - a,
    {
        b = b - 1;
    }
    (a, b)
}

/// The characters of `[lo, hi)`.
fn text_of_range(s: &Vec<char>, lo: usize, hi: usize) -> (r: String)
    requires
        lo <= hi <= s@.len(),
    ensures
        r@ == s@.subrange(lo as int, hi as int),
{
    let mut out = String::new();
    let mut k = lo;
    while k < hi
        invariant
            lo <= k <= hi <= s@.len(),
            out@ == s@.subrange(lo as int, k as int),
        decreases hi - k,
    {
        out.push(s[k]);
        proof {
            assert(s@.subrange(lo as int, k + 1) =~= s@.subrange(lo as int, k as int).push(s@[k as int]));
        }
        k = k + 1;
    }
    out
}

/// Whether `[lo, hi)` holds exactly the characters of `word`.
fn range_is(s: &Vec<char>, lo: usize, hi: usize, word: &str) -> (r: bool)
    requires
        lo <= hi <= s@.len(),
    ensures
        r == (s@.subrange(lo as int, hi as int) == word@),
{
    let w = chars_of(word);
    if hi - lo != w.len() {
        return false;
    }
    let mut k: usize = 0;
    while k < w.len()
        invariant
            hi - lo == w@.len(),
            lo <= hi <= s@.len(),
            w@ == word@,
            k <= w@.len(),
            forall|j: int| 0 <= j < k ==> s@[lo + j] == w@[j],
        decreases w@.len() - k,
    {
        if s[lo + k] != w[k] {
            assert(s@.subrange(lo as int, hi as int)[k as int] != word@[k as int]);
            return false;
        }
        k = k + 1;
    }
    assert(s@.subrange(lo as int, hi as int) =~= word@);
    true
}

proof fn lemma_digits_value_prefix(d: Seq<char>, k: int)
    requires
        0 <= k <= d.len(),
        all_digits(d),
    ensures
        digits_value(d.take(k)) <= digits_value(d),
    decreases d.len() - k,
{
    if k < d.len() {
        lemma_digits_value_prefix(d, k + 1);
        assert(d.take(k + 1).drop_last() =~= d.take(k));
        assert(is_digit(d[k]));
    } else {
        assert(d.take(k) =~= d);
    }
}

/// What `str::parse::<u32>` gives for `[lo, hi)`.
fn parse_u32_range(s: &Vec<char>, lo: usize, hi: usize) -> (r: Option<u32>)
    requires
        lo <= hi <= s@.len(),
    ensures
        r == u32_of(s@.subrange(lo as int, hi as int)),
{
    let ghost t = s@.subrange(lo as int, hi as int);
    let mut start = lo;
    if start < hi && s[start] == '+' {
        start = start + 1;
    }
    let ghost d = s@.subrange(start as int, hi as int);
    proof {
        if t.len() > 0 && t[0] == '+' {
            assert(d =~= t.drop_first());
        } else {
            assert(d =~= t);
        }
    }
    if start == hi {
        return None;
    }
    let mut k = start;
    while k < hi
        invariant
            lo <= start <= k <= hi <= s@.len(),
            d == s@.subrange(start as int, hi as int),
            t == s@.subrange(lo as int, hi as int),
            d == (if t.len() > 0 && t[0] == '+' {
                t.drop_first()
            } else {
                t
            }),
            forall|j: int| start <= j < k ==> is_digit(#[trigger] s@[j]),
        decreases hi - k,
    {
        if !('0' <= s[k] && s[k] <= '9') {
            assert(d[k - start] == s@[k as int]);
            assert(!is_digit(d[k - start]));
            assert(!all_digits(d));
            return None;
        }
        k = k + 1;
    }
    assert(all_digits(d));
    let mut value: u64 = 0;
    let mut k = start;
    while k < hi
        invariant
            lo <= start <= k <= hi <= s@.len(),
            d == s@.subrange(start as int, hi as int),
            t == s@.subrange(lo as int, hi as int),
            d == (if t.len() > 0 && t[0] == '+' {
                t.drop_first()
            } else {
                t
            }),
            d.len() > 0,
            all_digits(d),
            value == digits_value(d.take(k - start)),
            value <= u32::MAX,
        decreases hi - k,
    {
        proof {
            assert(d.take(k - start + 1).drop_last() =~= d.take(k - start));
            assert(is_digit(d[k - start]));
            assert(d[k - start] == s@[k as int]);
        }
        let digit = (s[k] as u32 - 48) as u64;
        value = value * 10 + digit;
        if value > 0xffff_ffff {
            proof {
                lemma_digits_value_prefix(d, k - start + 1);
            }
            return None;
        }
        k = k + 1;
    }
    assert(d.take(hi - start) =~= d);
    Some(value as u32)
}

/// Reads the fields that count from what `ffprobe` printed.
pub fn parse_probe_output(stdout: &str) -> (r: ProbeFields)
    requires
        stdout@.len() < usize::MAX,
    ensures
        r@ == probe_from(stdout@, 0, no_fields()),
{
    let s = chars_of(stdout);
    let mut fields = ProbeFields { width: None, height: None, avg_frame_rate: None, duration: None };
    let mut i: usize = 0;
    proof {
        reveal_strlit("width");
        reveal_strlit("height");
        reveal_strlit("avg_frame_rate");
        reveal_strlit("duration");
    }
    while i < s.len()
        invariant
            s@ == stdout@,
            s@.len() < usize::MAX,
            i <= s@.len(),
            probe_from(s@, 0, no_fields()) == probe_from(s@, i as int, fields@),
        decreases s@.len() - i,
    {
        let e = find_char(&s, i, s.len(), '\n');
        let hi = if e < s.len() && e > i && s[e - 1] == '\r' {
            e - 1
        } else {
            e
        };
        let k = find_char(&s, i, hi, '=');
        let ghost before = fields@;
        if k < hi {
            let (ka, kb) = trim_range(&s, i, k);
            let (va, vb) = trim_range(&s, k + 1, hi);
            if range_is(&s, ka, kb, "width") {
                fields.width = parse_u32_range(&s, va, vb);
            } else if range_is(&s, ka, kb, "height") {
                fields.height = parse_u32_range(&s, va, vb);
            } else if range_is(&s, ka, kb, "avg_frame_rate") {
                fields.avg_frame_rate = Some(text_of_range(&s, va, vb));
            } else if range_is(&s, ka, kb, "duration") {
                fields.duration = Some(text_of_range(&s, va, vb));
            }
        }
        assert(fields@ == probe_line(s@, i as int, hi as int, before));
        if e < s.len() {
            i = e + 1;
        } else {
            i = s.len();
        }
    }
    fields
}

} // verus!
