//! The cache file: the header line, the encoder that turns one frame's codes
//! into a block of text, and the decoder that splits a cache file back into
//! frames.
//!
//! A code below the length of the brightness ramp picks a ramp character; a
//! code of 1000 or more is an edge, whose symbol is `code / 1000 - 1`.

use vstd::prelude::*;
use crate::text::{decimal, decimal_value, is_digit, lemma_decimal_value_prefix_mono, string_from_chars, u64_to_decimal};

verus! {

/// Characters from the darkest to the brightest cell.
pub open spec fn ramp() -> Seq<char> {
    seq![' ', '.', ',', ':', '?', 'c', '7', '9', 'W', 'N', 'B', '@']
}

/// Edge symbols, by orientation.
pub open spec fn edges() -> Seq<char> {
    seq!['|', '/', '_', '\\']
}

/// The brightness ramp as text.
pub fn ascii_style() -> (r: &'static str)
    ensures
        r@ == ramp(),
{
    let s = " .,:?c79WNB@";
    proof {
        reveal_strlit(" .,:?c79WNB@");
        assert(s@ =~= ramp());
    }
    s
}

/// The edge symbols as text.
pub fn ascii_edges() -> (r: &'static str)
    ensures
        r@ == edges(),
{
    let s = "|/_\\";
    proof {
        reveal_strlit("|/_\\");
        assert(s@ =~= edges());
    }
    s
}

/// The `n`-th character of `s`.
pub fn index_string(s: &str, n: u32) -> (r: char)
    requires
        (n as nat) < s@.len(),
    ensures
        r == s@[n as int],
{
    s.get_char(n as usize)
}

/// The first code of 1000 and above.
pub const EDGE_BASE: u32 = 1000;

/// Whether `code` is an edge code.
pub open spec fn is_edge_code(code: u32) -> bool {
    code >= 1000
}

/// The character for `code`, or none where the code is invalid. Edge codes
/// are valid only where edges are drawn.
pub open spec fn code_char(code: u32, draw_edges: bool) -> Option<char> {
    if (code as nat) < ramp().len() {
        Some(ramp()[code as int])
    } else if code >= 1000 && code / 1000 - 1 < 4 && draw_edges {
        Some(edges()[code / 1000 - 1])
    } else {
        None
    }
}

/// Why a cache block or a cache file was refused.
#[derive(Clone, Copy, Debug, PartialEq, Eq, Structural)]
pub enum CacheError {
    /// A code that names neither a ramp character nor an edge symbol that
    /// may be drawn.
    InvalidCode(u32),
    /// The file holds no line at all.
    MissingHeader,
    /// The first line is not `[] fps=<n>` with a positive `n`.
    BadHeader,
    /// No frame follows the header.
    NoFrames,
}

/// Maps one code to its character.
pub fn code_to_char(code: u32, draw_edges: bool) -> (r: Result<char, CacheError>)
    ensures
        match code_char(code, draw_edges) {
            Some(c) => r == Ok::<char, CacheError>(c),
            None => r == Err::<char, CacheError>(CacheError::InvalidCode(code)),
        },
{
    let style = ascii_style();
    if code < 12 {
        Ok(index_string(style, code))
    } else if code >= EDGE_BASE && code / EDGE_BASE - 1 < 4 && draw_edges {
        Ok(index_string(ascii_edges(), code / EDGE_BASE - 1))
    } else {
        Err(CacheError::InvalidCode(code))
    }
}

/// Codes from 1000 up map to the edge symbols a thousand at a time, and
/// codes past the ramp but below 1000 are refused.
pub proof fn lemma_edge_code_mapping(code: u32, draw_edges: bool)
    ensures
        1000 <= code < 5000 && draw_edges ==> code_char(code, draw_edges) == Some(edges()[code / 1000 - 1]),
        1000 <= code < 2000 && draw_edges ==> code_char(code, draw_edges) == Some(edges()[0]),
        2000 <= code < 3000 && draw_edges ==> code_char(code, draw_edges) == Some(edges()[1]),
        3000 <= code < 4000 && draw_edges ==> code_char(code, draw_edges) == Some(edges()[2]),
        4000 <= code < 5000 && draw_edges ==> code_char(code, draw_edges) == Some(edges()[3]),
        ramp().len() <= code < 1000 ==> code_char(code, draw_edges) is None,
        code >= 5000 || (code >= 1000 && !draw_edges) ==> code_char(code, draw_edges) is None,
{
}

/// The character of a code known to be valid.
pub open spec fn char_of(code: u32, draw_edges: bool) -> char {
    code_char(code, draw_edges).unwrap()
}

/// Whether every code of `codes` is valid.
pub open spec fn all_valid(codes: Seq<u32>, draw_edges: bool) -> bool {
    forall|i: int| 0 <= i < codes.len() ==> (#[trigger] code_char(codes[i], draw_edges)) is Some
}

/// The rows of characters of `codes`: a new row starts at every multiple
/// of `row_width`.
pub open spec fn grid(codes: Seq<u32>, row_width: nat, draw_edges: bool) -> Seq<Seq<char>>
    decreases codes.len(),
{
    if codes.len() == 0 {
        seq![]
    } else {
        let g = grid(codes.drop_last(), row_width, draw_edges);
        let c = char_of(codes.last(), draw_edges);
        if (codes.len() - 1) % (row_width as int) == 0 {
            g.push(seq![c])
        } else {
            g.update(g.len() - 1, g.last().push(c))
        }
    }
}

/// Rows joined by newlines, with none after the last.
pub open spec fn join_rows(rows: Seq<Seq<char>>) -> Seq<char>
    decreases rows.len(),
{
    if rows.len() == 0 {
        seq![]
    } else if rows.len() == 1 {
        rows[0]
    } else {
        join_rows(rows.drop_last()) + seq!['\n'] + rows.last()
    }
}

/// The text appended to the cache file for one frame: a newline, the rows
/// joined by newlines, and a final newline.
pub open spec fn block_spec(codes: Seq<u32>, row_width: nat, draw_edges: bool) -> Seq<char> {
    seq!['\n'] + join_rows(grid(codes, row_width, draw_edges)) + seq!['\n']
}

/// Index of the first invalid code.
pub open spec fn first_invalid(codes: Seq<u32>, draw_edges: bool, i: int) -> bool {
    &&& 0 <= i < codes.len()
    &&& code_char(codes[i], draw_edges) is None
    &&& all_valid(codes.take(i), draw_edges)
}

proof fn lemma_grid_nonempty(codes: Seq<u32>, row_width: nat, draw_edges: bool)
    requires
        row_width > 0,
        codes.len() > 0,
    ensures
        grid(codes, row_width, draw_edges).len() > 0,
    decreases codes.len(),
{
    if codes.len() > 1 {
        lemma_grid_nonempty(codes.drop_last(), row_width, draw_edges);
    }
}

/// One step of a counter that wraps after `n`: from `(i - 1) % n + 1` to
/// `i % n + 1`, where a full row starts a new one.
proof fn lemma_row_counter(i: int, n: int)
    requires
        i > 0,
        n > 0,
    ensures
        ((i - 1) % n + 1 == n) <==> (i % n == 0),
        (i - 1) % n + 1 != n ==> i % n == (i - 1) % n + 1,
{
    let q = (i - 1) / n;
    let r = (i - 1) % n;
    vstd::arithmetic::div_mod::lemma_fundamental_div_mod(i - 1, n);
    if r + 1 == n {
        assert(i == (q + 1) * n + 0) by (nonlinear_arith)
            requires i - 1 == n * q + r, r + 1 == n;
        vstd::arithmetic::div_mod::lemma_fundamental_div_mod_converse(i, n, q + 1, 0);
    } else {
        vstd::arithmetic::div_mod::lemma_fundamental_div_mod_converse(i, n, q, r + 1);
    }
}

/// Encodes one frame's codes as the block of text that the cache file
/// receives for it, with a newline after every `row_width` characters.
pub fn cache_result(codes: &Vec<u32>, row_width: u32, draw_edges: bool) -> (r: Result<String, CacheError>)
    requires
        row_width > 0,
    ensures
        r is Ok <==> all_valid(codes@, draw_edges),
        r matches Ok(s) ==> s@ == block_spec(codes@, row_width as nat, draw_edges),
        r matches Err(e) ==> exists|i: int| #[trigger] first_invalid(codes@, draw_edges, i)
            && e == CacheError::InvalidCode(codes@[i]),
{
    let mut out: Vec<char> = Vec::new();
    out.push('\n');
    let mut count: u32 = 0;
    let mut i: usize = 0;
    while i < codes.len()
        invariant
            0 <= i <= codes.len(),
            row_width > 0,
            count <= row_width,
            i == 0 ==> count == 0,
            i > 0 ==> count as int == (i - 1) % (row_width as int) + 1,
            all_valid(codes@.take(i as int), draw_edges),
            out@ == seq!['\n'] + join_rows(grid(codes@.take(i as int), row_width as nat, draw_edges)),
        decreases codes.len() - i,
    {
        let code = codes[i];
        let c = match code_to_char(code, draw_edges) {
            Ok(c) => c,
            Err(e) => {
                assert(first_invalid(codes@, draw_edges, i as int));
                return Err(e);
            },
        };
        let ghost prefix = codes@.take(i as int);
        let ghost next = codes@.take(i + 1);
        let ghost g = grid(prefix, row_width as nat, draw_edges);
        assert(next.drop_last() =~= prefix);
        proof {
            if i > 0 {
                lemma_row_counter(i as int, row_width as int);
            }
        }
        if count == row_width {
            out.push('\n');
            count = 0;
        }
        out.push(c);
        count = count + 1;
        proof {
            if i == 0 {
                assert(0int % (row_width as int) == 0);
                assert(next =~= seq![code]);
                assert(next.drop_last() =~= Seq::<u32>::empty());
                assert(grid(next, row_width as nat, draw_edges) =~= seq![seq![c]]);
                reveal_with_fuel(grid, 2);
                reveal_with_fuel(join_rows, 2);
                assert(out@ =~= seq!['\n'] + join_rows(grid(next, row_width as nat, draw_edges)));
            } else {
                lemma_grid_nonempty(prefix, row_width as nat, draw_edges);
                if i as int % (row_width as int) == 0 {
                    let g2 = g.push(seq![c]);
                    assert(g2.drop_last() =~= g);
                    assert(out@ =~= seq!['\n'] + join_rows(g2));
                } else {
                    let g2 = g.update(g.len() - 1, g.last().push(c));
                    assert(g2.drop_last() =~= g.drop_last());
                    if g.len() == 1 {
                        assert(out@ =~= seq!['\n'] + join_rows(g2));
                    } else {
                        assert(out@ =~= seq!['\n'] + join_rows(g2));
                    }
                }
            }
            assert forall|j: int| 0 <= j < next.len() implies (#[trigger] code_char(next[j], draw_edges)) is Some by {
                if j < i {
                    assert(next[j] == prefix[j]);
                }
            }
        }
        i = i + 1;
    }
    out.push('\n');
    assert(codes@.take(codes.len() as int) =~= codes@);
    Ok(string_from_chars(&out))
}

/// A line without the carriage return that ends it, if one does.
pub open spec fn strip_cr(line: Seq<char>) -> Seq<char> {
    if line.len() > 0 && line.last() == '\r' {
        line.drop_last()
    } else {
        line
    }
}

/// The characters of each line of `v`.
pub open spec fn rows_view(v: Seq<Vec<char>>) -> Seq<Seq<char>> {
    v.map_values(|r: Vec<char>| r@)
}

/// Lines finished so far, and the line under way.
pub type LineScan = (Seq<Seq<char>>, Seq<char>);

pub open spec fn line_step(st: LineScan, c: char) -> LineScan {
    if c == '\n' {
        (st.0.push(strip_cr(st.1)), seq![])
    } else {
        (st.0, st.1.push(c))
    }
}

pub open spec fn line_fold(st: LineScan, text: Seq<char>) -> LineScan
    decreases text.len(),
{
    if text.len() == 0 {
        st
    } else {
        line_step(line_fold(st, text.drop_last()), text.last())
    }
}

/// The lines of `text`: split at each newline, a carriage return before a
/// newline dropped, and no empty line after a final newline.
pub open spec fn split_lines_spec(text: Seq<char>) -> Seq<Seq<char>> {
    let st = line_fold((seq![], seq![]), text);
    if st.1.len() > 0 {
        st.0.push(st.1)
    } else {
        st.0
    }
}

/// Splits `text` into lines, as characters.
pub fn split_lines(text: &str) -> (r: Vec<Vec<char>>)
    ensures
        rows_view(r@) == split_lines_spec(text@),
{
    let mut lines: Vec<Vec<char>> = Vec::new();
    let mut cur: Vec<char> = Vec::new();
    let ghost empty: LineScan = (seq![], seq![]);
    for c in it: text.chars()
        invariant
            it.seq() == text@,
            (rows_view(lines@), cur@) == line_fold(empty, text@.take(it.index() as int)),
    {
        let ghost before = (rows_view(lines@), cur@);
        assert(text@.take(it.index() + 1).drop_last() =~= text@.take(it.index() as int));
        if c == '\n' {
            let len = cur.len();
            if len > 0 && cur[len - 1] == '\r' {
                cur.pop();
            }
            assert(cur@ =~= strip_cr(before.1));
            lines.push(cur);
            cur = Vec::new();
            assert(rows_view(lines@) =~= before.0.push(strip_cr(before.1)));
        } else {
            cur.push(c);
        }
    }
    assert(text@.take(text@.len() as int) =~= text@);
    if cur.len() > 0 {
        let ghost before = rows_view(lines@);
        let ghost last = cur@;
        lines.push(cur);
        assert(rows_view(lines@) =~= before.push(last));
    }
    lines
}

/// Frames finished so far, and the rows of the frame under way.
pub type FrameScan = (Seq<Seq<Seq<char>>>, Seq<Seq<char>>);

/// A line of at most one character ends a frame; any other line is a row
/// of the frame under way.
pub open spec fn frame_step(st: FrameScan, line: Seq<char>) -> FrameScan {
    if line.len() <= 1 {
        if st.1.len() > 0 {
            (st.0.push(st.1), seq![])
        } else {
            st
        }
    } else {
        (st.0, st.1.push(line))
    }
}

pub open spec fn frame_fold(st: FrameScan, lines: Seq<Seq<char>>) -> FrameScan
    decreases lines.len(),
{
    if lines.len() == 0 {
        st
    } else {
        frame_step(frame_fold(st, lines.drop_last()), lines.last())
    }
}

/// The frames that `lines` hold: the runs of rows between separator
/// lines, empty runs left out.
pub open spec fn frames_of(lines: Seq<Seq<char>>) -> Seq<Seq<Seq<char>>> {
    let st = frame_fold((seq![], seq![]), lines);
    if st.1.len() > 0 {
        st.0.push(st.1)
    } else {
        st.0
    }
}

/// One frame of characters, row by row.
#[derive(Debug)]
pub struct AsciiFrame {
    pub rows: Vec<Vec<char>>,
}

impl View for AsciiFrame {
    type V = Seq<Seq<char>>;

    open spec fn view(&self) -> Seq<Seq<char>> {
        rows_view(self.rows@)
    }
}

/// Rows, each followed by a newline.
pub open spec fn lines_text(rows: Seq<Seq<char>>) -> Seq<char>
    decreases rows.len(),
{
    if rows.len() == 0 {
        seq![]
    } else {
        lines_text(rows.drop_last()) + rows.last() + seq!['\n']
    }
}

impl AsciiFrame {
    /// The frame as it is printed: each row followed by a newline.
    pub fn text(&self) -> (r: String)
        ensures
            r@ == lines_text(self@),
    {
        let mut out: Vec<char> = Vec::new();
        let mut i: usize = 0;
        while i < self.rows.len()
            invariant
                0 <= i <= self.rows.len(),
                out@ == lines_text(self@.take(i as int)),
            decreases self.rows.len() - i,
        {
            let ghost before = out@;
            out.extend_from_slice(self.rows[i].as_slice());
            assert(out@ =~= before + self.rows@[i as int]@);
            out.push('\n');
            assert(self@.take(i + 1).drop_last() =~= self@.take(i as int));
            i = i + 1;
        }
        assert(self@.take(self.rows.len() as int) =~= self@);
        string_from_chars(&out)
    }

    /// Number of rows.
    pub fn height(&self) -> (r: usize)
        ensures
            r == self@.len(),
    {
        self.rows.len()
    }

    /// Length of the longest row.
    pub fn width(&self) -> (r: usize)
        ensures
            r == max_row_len(self@, self@.len() as int),
    {
        let mut w: usize = 0;
        let mut i: usize = 0;
        while i < self.rows.len()
            invariant
                0 <= i <= self.rows.len(),
                w == max_row_len(self@, i as int),
            decreases self.rows.len() - i,
        {
            let len = self.rows[i].len();
            if len > w {
                w = len;
            }
            i = i + 1;
        }
        w
    }
}

/// Length of the longest of the first `n` rows.
pub open spec fn max_row_len(rows: Seq<Seq<char>>, n: int) -> nat
    decreases n,
{
    if n <= 0 {
        0
    } else {
        let m = max_row_len(rows, n - 1);
        if rows[n - 1].len() > m { rows[n - 1].len() } else { m }
    }
}

/// `n`, or the largest `u32` where `n` is larger.
pub open spec fn saturate_u32(n: nat) -> u32 {
    if n > u32::MAX { u32::MAX } else { n as u32 }
}

/// The width and height of the first frame of a cache file's text, or
/// zeros where it holds none.
pub open spec fn frame_size_spec(text: Seq<char>) -> (u32, u32) {
    let lines = split_lines_spec(text);
    let frames = if lines.len() == 0 { seq![] } else { frames_of(lines.skip(1)) };
    if frames.len() == 0 {
        (0, 0)
    } else {
        (saturate_u32(max_row_len(frames[0], frames[0].len() as int)), saturate_u32(frames[0].len()))
    }
}

/// Reads the width and height, in characters, of the first frame of a
/// cache file's text.
pub fn read_frame_size(text: &str) -> (r: (u32, u32))
    ensures
        r == frame_size_spec(text@),
{
    let lines = split_lines(text);
    if lines.len() == 0 {
        return (0, 0);
    }
    let frames = split_frames(&lines, 1);
    if frames.len() == 0 {
        return (0, 0);
    }
    let first = &frames[0];
    assert(frames_view(frames@)[0] == first@);
    let w = first.width();
    let h = first.height();
    let w = if w > 0xffff_ffff { 0xffff_ffffu32 } else { w as u32 };
    let h = if h > 0xffff_ffff { 0xffff_ffffu32 } else { h as u32 };
    (w, h)
}

/// The characters of each frame of `v`.
pub open spec fn frames_view(v: Seq<AsciiFrame>) -> Seq<Seq<Seq<char>>> {
    v.map_values(|f: AsciiFrame| f@)
}

/// Splits `lines[from..]` into frames.
pub fn split_frames(lines: &Vec<Vec<char>>, from: usize) -> (r: Vec<AsciiFrame>)
    requires
        from <= lines.len(),
    ensures
        frames_view(r@) == frames_of(rows_view(lines@).skip(from as int)),
{
    let mut frames: Vec<AsciiFrame> = Vec::new();
    let mut cur: Vec<Vec<char>> = Vec::new();
    let ghost all = rows_view(lines@).skip(from as int);
    let ghost empty: FrameScan = (seq![], seq![]);
    let mut i: usize = from;
    while i < lines.len()
        invariant
            from <= i <= lines.len(),
            all == rows_view(lines@).skip(from as int),
            (frames_view(frames@), rows_view(cur@)) == frame_fold(empty, all.take(i - from)),
        decreases lines.len() - i,
    {
        let ghost before = (frames_view(frames@), rows_view(cur@));
        assert(all.take(i - from + 1).drop_last() =~= all.take(i - from));
        assert(all.take(i - from + 1).last() == lines@[i as int]@);
        let line = &lines[i];
        if line.len() <= 1 {
            if cur.len() > 0 {
                let ghost rows = rows_view(cur@);
                let frame = AsciiFrame { rows: cur };
                frames.push(frame);
                cur = Vec::new();
                assert(frames_view(frames@) =~= before.0.push(rows));
                assert(rows_view(cur@) =~= seq![]);
            }
        } else {
            let copy = line.clone();
            assert(copy@ =~= line@);
            cur.push(copy);
            assert(rows_view(cur@) =~= before.1.push(line@));
        }
        i = i + 1;
    }
    assert(all.take(lines.len() - from) =~= all);
    if cur.len() > 0 {
        let ghost before = frames_view(frames@);
        let ghost rows = rows_view(cur@);
        frames.push(AsciiFrame { rows: cur });
        assert(frames_view(frames@) =~= before.push(rows));
    }
    frames
}

/// The first seven characters of a cache header.
pub open spec fn header_prefix() -> Seq<char> {
    seq!['[', ']', ' ', 'f', 'p', 's', '=']
}

/// The frame rate that a header line gives: `[] fps=` and then decimal
/// digits, whose value is positive and fits in a `u32`.
pub open spec fn parse_fps_spec(line: Seq<char>) -> Option<u32> {
    let digits = line.skip(7);
    if line.len() > 7 && line.take(7) == header_prefix()
        && (forall|i: int| 0 <= i < digits.len() ==> is_digit(#[trigger] digits[i]))
        && 0 < decimal_value(digits) <= u32::MAX {
        Some(decimal_value(digits) as u32)
    } else {
        None
    }
}

/// Reads the frame rate from a header line.
pub fn parse_fps(line: &Vec<char>) -> (r: Option<u32>)
    ensures
        r == parse_fps_spec(line@),
{
    let n = line.len();
    if n <= 7 || line[0] != '[' || line[1] != ']' || line[2] != ' ' || line[3] != 'f'
        || line[4] != 'p' || line[5] != 's' || line[6] != '=' {
        proof {
            if n > 7 {
                assert(line@.take(7)[0] == line@[0]);
                assert(line@.take(7)[1] == line@[1]);
                assert(line@.take(7)[2] == line@[2]);
                assert(line@.take(7)[3] == line@[3]);
                assert(line@.take(7)[4] == line@[4]);
                assert(line@.take(7)[5] == line@[5]);
                assert(line@.take(7)[6] == line@[6]);
            }
        }
        return None;
    }
    assert(line@.take(7) =~= header_prefix());
    let ghost digits = line@.skip(7);
    let mut value: u64 = 0;
    let mut i: usize = 7;
    while i < n
        invariant
            7 <= i <= n,
            n == line@.len(),
            digits == line@.skip(7),
            forall|j: int| 0 <= j < i - 7 ==> is_digit(#[trigger] digits[j]),
            value == decimal_value(digits.take(i - 7)),
            value <= u32::MAX,
        decreases n - i,
    {
        let c = line[i];
        assert(digits[i - 7] == c);
        if !('0' <= c && c <= '9') {
            return None;
        }
        let d = (c as u32 - '0' as u32) as u64;
        assert(digits.take(i - 7 + 1).drop_last() =~= digits.take(i - 7));
        let next = value * 10 + d;
        if next > 0xffff_ffff {
            proof {
                if forall|j: int| 0 <= j < digits.len() ==> is_digit(#[trigger] digits[j]) {
                    lemma_decimal_value_prefix_mono(digits, i - 7 + 1);
                }
            }
            return None;
        }
        value = next;
        i = i + 1;
    }
    assert(digits.take(n - 7) =~= digits);
    if value == 0 {
        return None;
    }
    Some(value as u32)
}

/// A cache file read back: its frame rate and its frames.
#[derive(Debug)]
pub struct CacheContents {
    pub fps: u32,
    pub frames: Vec<AsciiFrame>,
}

/// What decoding `text` gives: the frame rate of its first line and the
/// frames of the lines after it, or the reason it is refused.
pub open spec fn decode_spec(text: Seq<char>) -> Result<(u32, Seq<Seq<Seq<char>>>), CacheError> {
    let lines = split_lines_spec(text);
    if lines.len() == 0 {
        Err(CacheError::MissingHeader)
    } else {
        match parse_fps_spec(lines[0]) {
            None => Err(CacheError::BadHeader),
            Some(fps) => {
                let frames = frames_of(lines.skip(1));
                if frames.len() == 0 {
                    Err(CacheError::NoFrames)
                } else {
                    Ok((fps, frames))
                }
            },
        }
    }
}

/// Reads a whole cache file: the header's frame rate, then every frame.
pub fn decode_cache(text: &str) -> (r: Result<CacheContents, CacheError>)
    ensures
        match decode_spec(text@) {
            Ok((fps, frames)) => r matches Ok(c) && c.fps == fps && frames_view(c.frames@) == frames,
            Err(e) => r == Err::<CacheContents, CacheError>(e),
        },
{
    let lines = split_lines(text);
    if lines.len() == 0 {
        return Err(CacheError::MissingHeader);
    }
    assert(rows_view(lines@)[0] == lines@[0]@);
    let fps = match parse_fps(&lines[0]) {
        Some(f) => f,
        None => {
            return Err(CacheError::BadHeader);
        },
    };
    let frames = split_frames(&lines, 1);
    if frames.len() == 0 {
        return Err(CacheError::NoFrames);
    }
    Ok(CacheContents { fps, frames })
}

/// The pause between two frames, in milliseconds: `1000 / fps` rounded up.
pub fn frame_delay_ms(fps: u32) -> (r: u64)
    requires
        fps > 0,
    ensures
        r as nat == crate::align::ceil_div(1000, fps as nat),
{
    ((1000u64 + fps as u64 - 1) / fps as u64)
}

/// The first line of a cache file, with its newline.
pub open spec fn header_spec(fps: u16) -> Seq<char> {
    header_prefix() + decimal(fps as nat) + seq!['\n']
}

/// Writes the header line of a cache file for `fps` frames per second.
pub fn header_line(fps: u16) -> (r: String)
    ensures
        r@ == header_spec(fps),
{
    let mut out: Vec<char> = Vec::new();
    out.push('[');
    out.push(']');
    out.push(' ');
    out.push('f');
    out.push('p');
    out.push('s');
    out.push('=');
    let mut s = string_from_chars(&out);
    let digits = u64_to_decimal(fps as u64);
    s.append(digits.as_str());
    s.append("\n");
    proof {
        reveal_strlit("\n");
        assert(s@ =~= header_spec(fps));
    }
    s
}

} // verus!
