//! What the frame extractor is given and what it reports: the media's
//! size as the probe prints it, and the size the source is scaled down to
//! so that it fits the terminal.

use vstd::prelude::*;
use crate::text::{decimal_value, is_digit, lemma_decimal_value_prefix_mono};

verus! {

/// Where the source is and at which frame rate it is cut into frames.
pub struct FfmpegConfig<'a> {
    pub input_path: &'a str,
    pub fps: &'a u16,
}

/// What the frame extractor reports: the number of frames and the size of
/// the source. One frame means a still image.
#[derive(Clone, Copy, Debug, PartialEq, Eq, Structural)]
pub struct FFmpegReturn {
    pub frame_count: i32,
    pub width: u16,
    pub height: u16,
}

impl FFmpegReturn {
    /// Whether the source is a still image.
    pub fn is_image(&self) -> (r: bool)
        ensures
            r == (self.frame_count == 1),
    {
        self.frame_count == 1
    }
}

/// The characters of `text`.
pub fn chars_of(text: &str) -> (r: Vec<char>)
    ensures
        r@ == text@,
{
    let mut v: Vec<char> = Vec::new();
    for c in it: text.chars()
        invariant
            it.seq() == text@,
            v@ == text@.take(it.index() as int),
    {
        assert(text@.take(it.index() + 1) =~= v@.push(c));
        v.push(c);
    }
    assert(text@.take(text@.len() as int) =~= text@);
    v
}

pub open spec fn is_space(c: char) -> bool {
    c == ' ' || c == '\t' || c == '\n' || c == '\r'
}

/// The index of the first `x` of `s` at or after `i`, or the length of `s`.
pub open spec fn find_x(s: Seq<char>, i: int) -> int
    decreases s.len() - i,
{
    if i >= s.len() {
        s.len() as int
    } else if s[i] == 'x' {
        i
    } else {
        find_x(s, i + 1)
    }
}

/// `s` without its leading spaces.
pub open spec fn trim_start(s: Seq<char>) -> Seq<char>
    decreases s.len(),
{
    if s.len() > 0 && is_space(s[0]) { trim_start(s.drop_first()) } else { s }
}

/// `s` without its trailing spaces.
pub open spec fn trim_end(s: Seq<char>) -> Seq<char>
    decreases s.len(),
{
    if s.len() > 0 && is_space(s.last()) { trim_end(s.drop_last()) } else { s }
}

/// A nonempty run of decimal digits whose value fits in a `u16`.
pub open spec fn parse_u16_spec(s: Seq<char>) -> Option<u16> {
    if s.len() > 0 && (forall|i: int| 0 <= i < s.len() ==> is_digit(#[trigger] s[i]))
        && decimal_value(s) <= u16::MAX {
        Some(decimal_value(s) as u16)
    } else {
        None
    }
}

/// The size that the probe prints as `<width>x<height>`: the width is all
/// before the first `x`, the height all between it and the next `x`, with
/// surrounding spaces and line breaks dropped.
pub open spec fn dimensions_spec(text: Seq<char>) -> Option<(u16, u16)> {
    let i = find_x(text, 0);
    if i >= text.len() {
        None
    } else {
        let rest = text.skip(i + 1);
        let j = find_x(rest, 0);
        match (parse_u16_spec(text.take(i)), parse_u16_spec(trim_end(trim_start(rest.take(j))))) {
            (Some(w), Some(h)) => Some((w, h)),
            _ => None,
        }
    }
}

fn find_x_from(v: &Vec<char>, start: usize) -> (r: usize)
    requires
        start <= v.len(),
    ensures
        r as int == find_x(v@, start as int),
        start <= r <= v.len(),
{
    let mut i = start;
    while i < v.len()
        invariant
            start <= i <= v.len(),
            find_x(v@, i as int) == find_x(v@, start as int),
        decreases v.len() - i,
    {
        if v[i] == 'x' {
            return i;
        }
        i = i + 1;
    }
    i
}

/// Reads the decimal number in `v[lo..hi]`.
fn parse_u16_range(v: &Vec<char>, lo: usize, hi: usize) -> (r: Option<u16>)
    requires
        lo <= hi <= v.len(),
    ensures
        r == parse_u16_spec(v@.subrange(lo as int, hi as int)),
{
    let ghost s = v@.subrange(lo as int, hi as int);
    if lo == hi {
        return None;
    }
    let mut value: u32 = 0;
    let mut i = lo;
    while i < hi
        invariant
            lo <= i <= hi <= v.len(),
            s == v@.subrange(lo as int, hi as int),
            forall|j: int| 0 <= j < i - lo ==> is_digit(#[trigger] s[j]),
            value == decimal_value(s.take(i - lo)),
            value <= u16::MAX,
        decreases hi - i,
    {
        let c = v[i];
        assert(s[i - lo] == c);
        if !('0' <= c && c <= '9') {
            return None;
        }
        assert(s.take(i - lo + 1).drop_last() =~= s.take(i - lo));
        let next = value * 10 + (c as u32 - '0' as u32);
        if next > 0xffff {
            proof {
                if forall|j: int| 0 <= j < s.len() ==> is_digit(#[trigger] s[j]) {
                    lemma_decimal_value_prefix_mono(s, i - lo + 1);
                }
            }
            return None;
        }
        value = next;
        i = i + 1;
    }
    assert(s.take(hi - lo) =~= s);
    Some(value as u16)
}

/// Reads the size of the media from the probe's output, `<width>x<height>`.
pub fn parse_dimensions(text: &str) -> (r: Option<(u16, u16)>)
    ensures
        r == dimensions_spec(text@),
{
    let v = chars_of(text);
    let i = find_x_from(&v, 0);
    if i >= v.len() {
        return None;
    }
    let ghost rest = v@.skip(i + 1);
    let j = find_x_from(&v, i + 1);
    proof {
        lemma_find_x_shift(v@, i as int + 1, 0);
    }
    let mut lo = i + 1;
    let mut hi = j;
    while lo < hi && (v[lo] == ' ' || v[lo] == '\t' || v[lo] == '\n' || v[lo] == '\r')
        invariant
            i + 1 <= lo <= hi <= v.len(),
            trim_start(v@.subrange(lo as int, hi as int)) == trim_start(v@.subrange(i + 1, hi as int)),
        decreases hi - lo,
    {
        assert(v@.subrange(lo as int, hi as int).drop_first() =~= v@.subrange(lo + 1, hi as int));
        lo = lo + 1;
    }
    let ghost trimmed_start = v@.subrange(lo as int, hi as int);
    assert(trim_start(trimmed_start) == trimmed_start);
    while hi > lo && (v[hi - 1] == ' ' || v[hi - 1] == '\t' || v[hi - 1] == '\n' || v[hi - 1] == '\r')
        invariant
            i + 1 <= lo <= hi <= j,
            j <= v.len(),
            trim_end(v@.subrange(lo as int, hi as int)) == trim_end(trimmed_start),
        decreases hi - lo,
    {
        assert(v@.subrange(lo as int, hi as int).drop_last() =~= v@.subrange(lo as int, hi - 1));
        hi = hi - 1;
    }
    assert(trim_end(v@.subrange(lo as int, hi as int)) == v@.subrange(lo as int, hi as int));
    assert(rest.take(j - i - 1) =~= v@.subrange(i + 1, j as int));
    assert(v@.take(i as int) =~= v@.subrange(0, i as int));
    let w = parse_u16_range(&v, 0, i);
    let h = parse_u16_range(&v, lo, hi);
    match (w, h) {
        (Some(w), Some(h)) => Some((w, h)),
        _ => None,
    }
}

/// Searching a suffix is searching the whole from where the suffix starts.
proof fn lemma_find_x_shift(s: Seq<char>, d: int, i: int)
    requires
        0 <= d <= s.len(),
        0 <= i <= s.len() - d,
    ensures
        find_x(s.skip(d), i) == find_x(s, i + d) - d,
    decreases s.len() - d - i,
{
    if i < s.len() - d {
        lemma_find_x_shift(s, d, i + 1);
    }
}

/// The size the source is scaled to so that it fits `max_width` x
/// `max_height`, keeping its aspect ratio, or none where it fits already.
/// Where the bounds are wider than the source, the height is kept at the
/// bound; else the width is.
pub open spec fn scaled_spec(width: u16, height: u16, max_width: u16, max_height: u16) -> Option<(u16, u16)> {
    if width <= max_width && height <= max_height {
        None
    } else if max_width as int * height as int > width as int * max_height as int {
        Some(((width as int * max_height as int / height as int) as u16, max_height))
    } else if width == 0 {
        Some((max_width, 0))
    } else {
        Some((max_width, (height as int * max_width as int / width as int) as u16))
    }
}

/// Computes the scaled size of a source that exceeds the bounds.
pub fn scaled_resolution(width: u16, height: u16, max_width: u16, max_height: u16) -> (r: Option<(u16, u16)>)
    ensures
        r == scaled_spec(width, height, max_width, max_height),
        r matches Some((w, h)) ==> w <= max_width && h <= max_height,
{
    if width <= max_width && height <= max_height {
        return None;
    }
    let w = width as u64;
    let h = height as u64;
    let mw = max_width as u64;
    let mh = max_height as u64;
    assert(w * h <= 65535 * 65535 && mw * h <= 65535 * 65535 && w * mh <= 65535 * 65535 && h * mw <= 65535 * 65535)
        by (nonlinear_arith) requires w <= 65535, h <= 65535, mw <= 65535, mh <= 65535;
    if mw * h > w * mh {
        assert(h > 0) by (nonlinear_arith) requires mw * h > w * mh, w >= 0, mh >= 0;
        assert((w * mh) as int / (h as int) <= mw) by (nonlinear_arith) requires mw * h > w * mh, h > 0;
        Some(((w * mh / h) as u16, max_height))
    } else if w == 0 {
        Some((max_width, 0))
    } else {
        assert((h * mw) as int / (w as int) <= mh) by (nonlinear_arith) requires mw * h <= w * mh, w > 0;
        Some((max_width, (h * mw / w) as u16))
    }
}

} // verus!
