//! What the cache encoder and decoder guarantee together.

use vstd::prelude::*;
use crate::codec::{
    strip_cr,
    LineScan, FrameScan, line_fold, line_step, lines_text, frame_step, split_lines_spec, frame_fold, frames_of,
    grid, join_rows, block_spec, char_of, code_char, all_valid, ramp, edges, parse_fps_spec, header_prefix, header_spec, decode_spec, CacheError,
};
use crate::text::{decimal, decimal_value, digit_char, is_digit};

verus! {

proof fn lemma_line_fold_append(st: LineScan, a: Seq<char>, b: Seq<char>)
    ensures
        line_fold(st, a + b) == line_fold(line_fold(st, a), b),
    decreases b.len(),
{
    if b.len() == 0 {
        assert(a + b =~= a);
    } else {
        lemma_line_fold_append(st, a, b.drop_last());
        assert((a + b).drop_last() =~= a + b.drop_last());
        assert((a + b).last() == b.last());
    }
}

proof fn lemma_line_fold_no_newline(st: LineScan, a: Seq<char>)
    requires
        !a.contains('\n'),
    ensures
        line_fold(st, a) == (st.0, st.1 + a),
    decreases a.len(),
{
    if a.len() == 0 {
        assert(st.1 + a =~= st.1);
    } else {
        assert(!a.drop_last().contains('\n')) by {
            if a.drop_last().contains('\n') {
                let k = choose|k: int| 0 <= k < a.drop_last().len() && a.drop_last()[k] == '\n';
                assert(a[k] == '\n');
            }
        }
        lemma_line_fold_no_newline(st, a.drop_last());
        assert(a.last() != '\n') by {
            assert(a[a.len() - 1] == a.last());
        }
        assert((st.1 + a.drop_last()).push(a.last()) =~= st.1 + a);
    }
}

/// A line that neither holds a newline nor ends in a carriage return.
pub open spec fn plain_line(l: Seq<char>) -> bool {
    !l.contains('\n') && !(l.len() > 0 && l.last() == '\r')
}

proof fn lemma_lines_text_append(a: Seq<Seq<char>>, b: Seq<Seq<char>>)
    ensures
        lines_text(a + b) == lines_text(a) + lines_text(b),
    decreases b.len(),
{
    if b.len() == 0 {
        assert(a + b =~= a);
        assert(lines_text(a) + lines_text(b) =~= lines_text(a));
    } else {
        lemma_lines_text_append(a, b.drop_last());
        assert((a + b).drop_last() =~= a + b.drop_last());
        assert((a + b).last() == b.last());
        assert(lines_text(a) + lines_text(b) =~= lines_text(a) + lines_text(b.drop_last()) + b.last() + seq!['\n']);
    }
}

proof fn lemma_line_fold_lines_text(d: Seq<Seq<char>>, rows: Seq<Seq<char>>)
    requires
        forall|i: int| 0 <= i < rows.len() ==> plain_line(#[trigger] rows[i]),
    ensures
        line_fold((d, seq![]), lines_text(rows)) == (d + rows, Seq::<char>::empty()),
    decreases rows.len(),
{
    if rows.len() == 0 {
        assert(d + rows =~= d);
    } else {
        let init = rows.drop_last();
        let last = rows.last();
        assert(plain_line(rows[rows.len() - 1]));
        lemma_line_fold_lines_text(d, init);
        lemma_line_fold_append((d, seq![]), lines_text(init), last);
        lemma_line_fold_no_newline((d + init, seq![]), last);
        lemma_line_fold_append((d, seq![]), lines_text(init) + last, seq!['\n']);
        assert(seq![] + last =~= last);
        assert(seq!['\n'].drop_last() =~= Seq::<char>::empty());
        assert(line_fold((d + init, last), seq!['\n']) == line_step(line_fold((d + init, last), seq![]), '\n'));
        assert((d + init).push(last) =~= d + rows);
    }
}

/// The lines of rows written one per line are those rows.
pub proof fn lemma_split_lines_text(rows: Seq<Seq<char>>)
    requires
        forall|i: int| 0 <= i < rows.len() ==> plain_line(#[trigger] rows[i]),
    ensures
        split_lines_spec(lines_text(rows)) == rows,
{
    lemma_line_fold_lines_text(seq![], rows);
    assert(Seq::<Seq<char>>::empty() + rows =~= rows);
}

proof fn lemma_frame_fold_append(st: FrameScan, a: Seq<Seq<char>>, b: Seq<Seq<char>>)
    ensures
        frame_fold(st, a + b) == frame_fold(frame_fold(st, a), b),
    decreases b.len(),
{
    if b.len() == 0 {
        assert(a + b =~= a);
    } else {
        lemma_frame_fold_append(st, a, b.drop_last());
        assert((a + b).drop_last() =~= a + b.drop_last());
        assert((a + b).last() == b.last());
    }
}

proof fn lemma_frame_fold_rows(st: FrameScan, rows: Seq<Seq<char>>)
    requires
        forall|i: int| 0 <= i < rows.len() ==> (#[trigger] rows[i]).len() >= 2,
    ensures
        frame_fold(st, rows) == (st.0, st.1 + rows),
    decreases rows.len(),
{
    if rows.len() == 0 {
        assert(st.1 + rows =~= st.1);
    } else {
        lemma_frame_fold_rows(st, rows.drop_last());
        assert(rows[rows.len() - 1].len() >= 2);
        assert((st.1 + rows.drop_last()).push(rows.last()) =~= st.1 + rows);
    }
}

/// A run of rows of two characters or more, closed by a separator line,
/// is one frame.
pub proof fn lemma_frames_of_block(rows: Seq<Seq<char>>, sep: Seq<char>)
    requires
        rows.len() > 0,
        forall|i: int| 0 <= i < rows.len() ==> (#[trigger] rows[i]).len() >= 2,
        sep.len() <= 1,
    ensures
        frames_of(rows.push(sep)) == seq![rows],
{
    let empty: FrameScan = (seq![], seq![]);
    lemma_frame_fold_rows(empty, rows);
    assert(Seq::<Seq<char>>::empty() + rows =~= rows);
    assert(rows.push(sep).drop_last() =~= rows);
    assert(Seq::<Seq<Seq<char>>>::empty().push(rows) =~= seq![rows]);
}

/// The decimal digits of a number spell that number.
pub proof fn lemma_decimal_round_trip(n: nat)
    ensures
        decimal_value(decimal(n)) == n,
        forall|i: int| 0 <= i < decimal(n).len() ==> is_digit(#[trigger] decimal(n)[i]),
        decimal(n).len() > 0,
    decreases n,
{
    let d = n % 10;
    assert(is_digit(digit_char(d)) && digit_char(d) as nat - '0' as nat == d) by {
        assert(d < 10);
    }
    if n >= 10 {
        lemma_decimal_round_trip(n / 10);
        let s = decimal(n);
        assert(s.drop_last() =~= decimal(n / 10));
        assert(s.last() == digit_char(d));
        assert(n == (n / 10) * 10 + d);
        assert(decimal_value(s) == decimal_value(s.drop_last()) * 10 + d);
        assert forall|i: int| 0 <= i < s.len() implies is_digit(#[trigger] s[i]) by {
            if i < s.len() - 1 {
                assert(s[i] == decimal(n / 10)[i]);
            }
        }
    } else {
        let s = decimal(n);
        assert(s.drop_last() =~= Seq::<char>::empty());
        assert(s.last() == digit_char(d));
        assert(d == n);
        assert(decimal_value(s.drop_last()) == 0);
        assert(decimal_value(s) == decimal_value(s.drop_last()) * 10 + d);
    }
}

/// A header written for a positive frame rate reads back as that rate.
pub proof fn lemma_header_round_trip(fps: u16)
    requires
        fps > 0,
    ensures
        parse_fps_spec(header_prefix() + decimal(fps as nat)) == Some(fps as u32),
{
    let line = header_prefix() + decimal(fps as nat);
    lemma_decimal_round_trip(fps as nat);
    assert(line.take(7) =~= header_prefix());
    assert(line.skip(7) =~= decimal(fps as nat));
}

/// A cache file made of a header line and one frame block, rows and then a
/// separator line, decodes to one frame that holds exactly those rows.
pub proof fn lemma_single_block_decodes(fps: u16, rows: Seq<Seq<char>>, sep: Seq<char>)
    requires
        fps > 0,
        rows.len() > 0,
        forall|i: int| 0 <= i < rows.len() ==> plain_line(#[trigger] rows[i]) && rows[i].len() >= 2,
        plain_line(sep),
        sep.len() <= 1,
    ensures
        decode_spec(header_spec(fps) + lines_text(rows.push(sep))) == Ok::<(u32, Seq<Seq<Seq<char>>>), CacheError>(
            (fps as u32, seq![rows]),
        ),
{
    let hdr = header_prefix() + decimal(fps as nat);
    lemma_header_plain(fps);
    let all = seq![hdr] + rows.push(sep);
    assert forall|i: int| 0 <= i < all.len() implies plain_line(#[trigger] all[i]) by {
        if i > 0 && i < all.len() - 1 {
            assert(all[i] == rows[i - 1]);
        }
    }
    lemma_lines_text_append(seq![hdr], rows.push(sep));
    reveal_with_fuel(lines_text, 2);
    assert(lines_text(seq![hdr]) =~= header_spec(fps)) by {
        assert(seq![hdr].drop_last() =~= Seq::<Seq<char>>::empty());
    }
    lemma_split_lines_text(all);
    assert(all.skip(1) =~= rows.push(sep));
    lemma_frames_of_block(rows, sep);
    lemma_header_round_trip(fps);
}

/// The shape of the grid of `n` codes: `(n - 1) / row_width + 1` rows, all
/// of `row_width` characters but the last, which holds the rest; the cell
/// in row `i` and column `j` is the character of code `i * row_width + j`.
pub open spec fn grid_shape(codes: Seq<u32>, row_width: nat, draw_edges: bool) -> bool {
    let g = grid(codes, row_width, draw_edges);
    let n = codes.len() as int;
    let w = row_width as int;
    &&& n == 0 ==> g.len() == 0
    &&& n > 0 ==> g.len() == (n - 1) / w + 1
    &&& forall|i: int| 0 <= i < g.len() ==> (#[trigger] g[i]).len()
        == if i < g.len() - 1 { w } else { (n - 1) % w + 1 }
    &&& forall|i: int, j: int| 0 <= i < g.len() && 0 <= j < g[i].len()
        ==> #[trigger] g[i][j] == char_of(codes[i * w + j], draw_edges)
}

/// Every cell of the grid stands for a code of the input.
pub proof fn lemma_grid_cell_in_range(codes: Seq<u32>, row_width: nat, draw_edges: bool, i: int, j: int)
    requires
        row_width > 0,
        grid_shape(codes, row_width, draw_edges),
        0 <= i < grid(codes, row_width, draw_edges).len(),
        0 <= j < grid(codes, row_width, draw_edges)[i].len(),
    ensures
        0 <= i * (row_width as int) + j < codes.len(),
{
    let g = grid(codes, row_width, draw_edges);
    let w = row_width as int;
    let n = codes.len() as int;
    let l = g.len() as int;
    assert(g[i].len() == if i < l - 1 { w } else { (n - 1) % w + 1 });
    vstd::arithmetic::div_mod::lemma_fundamental_div_mod(n - 1, w);
    assert(0 <= i * w) by (nonlinear_arith) requires i >= 0, w > 0;
    if i < l - 1 {
        assert(i * w + j < (l - 1) * w) by (nonlinear_arith)
            requires i < l - 1, j < w, w > 0;
        assert((l - 1) * w <= n - 1) by (nonlinear_arith)
            requires l - 1 == (n - 1) / w, n - 1 == w * ((n - 1) / w) + (n - 1) % w, (n - 1) % w >= 0;
    } else {
        assert(i * w + j < n) by (nonlinear_arith)
            requires i == l - 1, l - 1 == (n - 1) / w, j < (n - 1) % w + 1,
                n - 1 == w * ((n - 1) / w) + (n - 1) % w;
    }
}

proof fn lemma_div_step(k: int, w: int)
    requires
        k > 0,
        w > 0,
    ensures
        k % w == 0 ==> k / w == (k - 1) / w + 1 && (k - 1) % w == w - 1 && (k / w) * w == k,
        k % w != 0 ==> k / w == (k - 1) / w && k % w == (k - 1) % w + 1,
{
    vstd::arithmetic::div_mod::lemma_fundamental_div_mod(k - 1, w);
    let q = (k - 1) / w;
    let r = (k - 1) % w;
    if r + 1 == w {
        assert(k == (q + 1) * w + 0) by (nonlinear_arith)
            requires k - 1 == w * q + r, r + 1 == w;
        vstd::arithmetic::div_mod::lemma_fundamental_div_mod_converse(k, w, q + 1, 0);
    } else {
        assert(k == q * w + (r + 1)) by (nonlinear_arith)
            requires k - 1 == w * q + r;
        vstd::arithmetic::div_mod::lemma_fundamental_div_mod_converse(k, w, q, r + 1);
    }
}

proof fn lemma_grid_new_row(codes: Seq<u32>, row_width: nat, draw_edges: bool)
    requires
        row_width > 0,
        codes.len() > 1,
        (codes.len() - 1) % (row_width as int) == 0,
        grid_shape(codes.drop_last(), row_width, draw_edges),
    ensures
        grid_shape(codes, row_width, draw_edges),
{
    let w = row_width as int;
    let n = codes.len() as int;
    let k = n - 1;
    let prefix = codes.drop_last();
    let g0 = grid(prefix, row_width, draw_edges);
    let g = grid(codes, row_width, draw_edges);
    let c = char_of(codes.last(), draw_edges);
    lemma_div_step(k, w);
    assert(prefix.len() == k);
    assert(g0.len() == (k - 1) / w + 1);
    assert(g == g0.push(seq![c]));
    assert(g.len() == (n - 1) / w + 1);
    assert forall|i: int| 0 <= i < g.len() implies (#[trigger] g[i]).len()
        == if i < g.len() - 1 { w } else { (n - 1) % w + 1 } by {
        if i < g.len() - 1 {
            assert(g[i] == g0[i]);
        }
    }
    assert forall|i: int, j: int| 0 <= i < g.len() && 0 <= j < g[i].len()
        implies #[trigger] g[i][j] == char_of(codes[i * w + j], draw_edges) by {
        if i < g.len() - 1 {
            assert(g[i] == g0[i]);
            assert(g0[i][j] == char_of(prefix[i * w + j], draw_edges));
            lemma_grid_cell_in_range(prefix, row_width, draw_edges, i, j);
        } else {
            assert(i == k / w);
            assert(i * w + j == k);
        }
    }
}

proof fn lemma_grid_extend_row(codes: Seq<u32>, row_width: nat, draw_edges: bool)
    requires
        row_width > 0,
        codes.len() > 1,
        (codes.len() - 1) % (row_width as int) != 0,
        grid_shape(codes.drop_last(), row_width, draw_edges),
    ensures
        grid_shape(codes, row_width, draw_edges),
{
    let w = row_width as int;
    let n = codes.len() as int;
    let k = n - 1;
    let prefix = codes.drop_last();
    let g0 = grid(prefix, row_width, draw_edges);
    let g = grid(codes, row_width, draw_edges);
    let c = char_of(codes.last(), draw_edges);
    lemma_div_step(k, w);
    vstd::arithmetic::div_mod::lemma_fundamental_div_mod(k, w);
    assert(prefix.len() == k);
    assert(g0.len() == (k - 1) / w + 1);
    assert(g == g0.update(g0.len() - 1, g0.last().push(c)));
    assert(g.len() == (n - 1) / w + 1);
    assert forall|i: int| 0 <= i < g.len() implies (#[trigger] g[i]).len()
        == if i < g.len() - 1 { w } else { (n - 1) % w + 1 } by {
        if i < g.len() - 1 {
            assert(g[i] == g0[i]);
        }
    }
    assert forall|i: int, j: int| 0 <= i < g.len() && 0 <= j < g[i].len()
        implies #[trigger] g[i][j] == char_of(codes[i * w + j], draw_edges) by {
        if i < g.len() - 1 {
            assert(g[i] == g0[i]);
            assert(g0[i][j] == char_of(prefix[i * w + j], draw_edges));
            lemma_grid_cell_in_range(prefix, row_width, draw_edges, i, j);
        } else if j < g0[i].len() {
            assert(g[i][j] == g0[i][j]);
            assert(g0[i][j] == char_of(prefix[i * w + j], draw_edges));
            lemma_grid_cell_in_range(prefix, row_width, draw_edges, i, j);
        } else {
            assert(i == k / w);
            assert(j == k % w);
            assert(i * w + j == k) by (nonlinear_arith)
                requires i == k / w, j == k % w, k == w * (k / w) + k % w;
        }
    }
}

/// Every grid of codes has the shape that `grid_shape` describes.
pub proof fn lemma_grid_shape(codes: Seq<u32>, row_width: nat, draw_edges: bool)
    requires
        row_width > 0,
    ensures
        grid_shape(codes, row_width, draw_edges),
    decreases codes.len(),
{
    let w = row_width as int;
    let n = codes.len() as int;
    let g = grid(codes, row_width, draw_edges);
    if n == 0 {
        return;
    }
    if n == 1 {
        let c = char_of(codes.last(), draw_edges);
        assert(0int % w == 0 && 0int / w == 0);
        assert(codes.drop_last() =~= Seq::<u32>::empty());
        reveal_with_fuel(grid, 2);
        assert(g =~= seq![seq![c]]);
        assert forall|i: int, j: int| 0 <= i < g.len() && 0 <= j < g[i].len()
            implies #[trigger] g[i][j] == char_of(codes[i * w + j], draw_edges) by {
            assert(i * w + j == 0) by (nonlinear_arith) requires i == 0, j == 0;
        }
        return;
    }
    lemma_grid_shape(codes.drop_last(), row_width, draw_edges);
    if (n - 1) % w == 0 {
        lemma_grid_new_row(codes, row_width, draw_edges);
    } else {
        lemma_grid_extend_row(codes, row_width, draw_edges);
    }
}

proof fn lemma_join_rows_lines_text(rows: Seq<Seq<char>>)
    requires
        rows.len() > 0,
    ensures
        join_rows(rows) + seq!['\n'] == lines_text(rows),
    decreases rows.len(),
{
    if rows.len() == 1 {
        assert(rows.drop_last() =~= Seq::<Seq<char>>::empty());
        assert(rows.last() == rows[0]);
        assert(lines_text(rows) == lines_text(rows.drop_last()) + rows.last() + seq!['\n']);
        assert(join_rows(rows) + seq!['\n'] =~= lines_text(rows));
    } else {
        let init = rows.drop_last();
        lemma_join_rows_lines_text(init);
        assert(join_rows(rows) == join_rows(init) + seq!['\n'] + rows.last());
        assert(lines_text(rows) == lines_text(init) + rows.last() + seq!['\n']);
        assert(join_rows(rows) + seq!['\n'] =~= lines_text(rows));
    }
}

/// No character of the ramp or of the edge symbols is a newline or a
/// carriage return.
proof fn lemma_code_chars_plain(code: u32, draw_edges: bool)
    requires
        code_char(code, draw_edges) is Some,
    ensures
        char_of(code, draw_edges) != '\n',
        char_of(code, draw_edges) != '\r',
{
}

/// A cache block is the text of an empty line followed by the grid's
/// rows, one per line; each row is a plain line of two characters or more
/// where the codes fill the last row to two or more.
proof fn lemma_block_as_lines(codes: Seq<u32>, row_width: nat, draw_edges: bool)
    requires
        row_width >= 2,
        codes.len() > 0,
        codes.len() % row_width != 1,
        all_valid(codes, draw_edges),
    ensures
        ({
            let g = grid(codes, row_width, draw_edges);
            &&& g.len() > 0
            &&& forall|i: int| 0 <= i < g.len() ==> plain_line(#[trigger] g[i]) && g[i].len() >= 2
            &&& block_spec(codes, row_width, draw_edges) == lines_text(seq![Seq::<char>::empty()] + g)
        }),
{
    let g = grid(codes, row_width, draw_edges);
    let w = row_width as int;
    let n = codes.len() as int;
    lemma_grid_shape(codes, row_width, draw_edges);
    assert(grid_shape(codes, row_width, draw_edges));
    assert forall|i: int| 0 <= i < g.len() implies plain_line(#[trigger] g[i]) && g[i].len() >= 2 by {
        if i == g.len() - 1 {
            lemma_div_step(n, w);
        }
        assert(!g[i].contains('\n') && !g[i].contains('\r')) by {
            if g[i].contains('\n') || g[i].contains('\r') {
                let j = choose|j: int| 0 <= j < g[i].len() && (g[i][j] == '\n' || g[i][j] == '\r');
                assert(g[i][j] == char_of(codes[i * w + j], draw_edges));
                lemma_grid_cell_in_range(codes, row_width, draw_edges, i, j);
                assert(code_char(codes[i * w + j], draw_edges) is Some);
                lemma_code_chars_plain(codes[i * w + j], draw_edges);
            }
        }
        if g[i].len() > 0 {
            assert(g[i].last() == g[i][g[i].len() - 1]);
        }
    }
    lemma_join_rows_lines_text(g);
    lemma_lines_text_append(seq![Seq::<char>::empty()], g);
    reveal_with_fuel(lines_text, 2);
    assert(lines_text(seq![Seq::<char>::empty()]) =~= seq!['\n']) by {
        assert(seq![Seq::<char>::empty()].drop_last() =~= Seq::<Seq<char>>::empty());
    }
    assert(block_spec(codes, row_width, draw_edges) =~= lines_text(seq![Seq::<char>::empty()] + g));
}

/// An empty line followed by rows of two characters or more is one frame.
proof fn lemma_frames_after_blank(g: Seq<Seq<char>>)
    requires
        g.len() > 0,
        forall|i: int| 0 <= i < g.len() ==> (#[trigger] g[i]).len() >= 2,
    ensures
        frames_of(seq![Seq::<char>::empty()] + g) == seq![g],
{
    let empty: FrameScan = (seq![], seq![]);
    lemma_frame_fold_append(empty, seq![Seq::<char>::empty()], g);
    assert(seq![Seq::<char>::empty()].drop_last() =~= Seq::<Seq<char>>::empty());
    assert(seq![Seq::<char>::empty()].last() == Seq::<char>::empty());
    assert(frame_fold(empty, seq![Seq::<char>::empty()]) == frame_step(frame_fold(empty, Seq::<Seq<char>>::empty()), Seq::<char>::empty()));
    assert(frame_fold(empty, seq![Seq::<char>::empty()]) == empty);
    lemma_frame_fold_rows(empty, g);
    assert(Seq::<Seq<char>>::empty() + g =~= g);
    assert(Seq::<Seq<Seq<char>>>::empty().push(g) =~= seq![g]);
}

/// Encoding a frame's codes as a cache block and splitting that block back
/// into frames gives one frame, whose cell in row `i` and column `j` is the
/// character of code `i * row_width + j`. This needs rows of two characters
/// or more, since a line of one character separates frames.
pub proof fn lemma_round_trip(codes: Seq<u32>, row_width: nat, draw_edges: bool)
    requires
        row_width >= 2,
        codes.len() > 0,
        codes.len() % row_width != 1,
        all_valid(codes, draw_edges),
    ensures
        ({
            let frames = frames_of(split_lines_spec(block_spec(codes, row_width, draw_edges)));
            let w = row_width as int;
            &&& frames == seq![grid(codes, row_width, draw_edges)]
            &&& frames[0].len() == (codes.len() - 1) / w + 1
            &&& forall|i: int, j: int| 0 <= i < frames[0].len() && 0 <= j < frames[0][i].len()
                ==> i * w + j < codes.len() && #[trigger] frames[0][i][j] == char_of(codes[i * w + j], draw_edges)
        }),
{
    let g = grid(codes, row_width, draw_edges);
    let w = row_width as int;
    lemma_grid_shape(codes, row_width, draw_edges);
    lemma_block_as_lines(codes, row_width, draw_edges);
    let all = seq![Seq::<char>::empty()] + g;
    assert forall|i: int| 0 <= i < all.len() implies plain_line(#[trigger] all[i]) by {
        if i > 0 {
            assert(all[i] == g[i - 1]);
        }
    }
    lemma_split_lines_text(all);
    lemma_frames_after_blank(g);
    assert forall|i: int, j: int| 0 <= i < g.len() && 0 <= j < g[i].len()
        implies i * w + j < codes.len() && #[trigger] g[i][j] == char_of(codes[i * w + j], draw_edges) by {
        lemma_grid_cell_in_range(codes, row_width, draw_edges, i, j);
    }
}

/// A header line is a plain line.
proof fn lemma_header_plain(fps: u16)
    ensures
        plain_line(header_prefix() + decimal(fps as nat)),
{
    let hdr = header_prefix() + decimal(fps as nat);
    lemma_decimal_round_trip(fps as nat);
    assert(!hdr.contains('\n')) by {
        if hdr.contains('\n') {
            let k = choose|k: int| 0 <= k < hdr.len() && hdr[k] == '\n';
            if k >= 7 {
                assert(hdr[k] == decimal(fps as nat)[k - 7]);
            }
        }
    }
    let s = decimal(fps as nat);
    assert(hdr.last() == s[s.len() - 1]);
}

/// A cache file written as a header for a positive frame rate and one
/// frame's block decodes to that frame rate and that frame's grid.
pub proof fn lemma_cache_file_round_trip(fps: u16, codes: Seq<u32>, row_width: nat, draw_edges: bool)
    requires
        fps > 0,
        row_width >= 2,
        codes.len() > 0,
        codes.len() % row_width != 1,
        all_valid(codes, draw_edges),
    ensures
        decode_spec(header_spec(fps) + block_spec(codes, row_width, draw_edges))
            == Ok::<(u32, Seq<Seq<Seq<char>>>), CacheError>((fps as u32, seq![grid(codes, row_width, draw_edges)])),
{
    let g = grid(codes, row_width, draw_edges);
    let hdr = header_prefix() + decimal(fps as nat);
    lemma_header_plain(fps);
    lemma_block_as_lines(codes, row_width, draw_edges);
    let body = seq![Seq::<char>::empty()] + g;
    let all = seq![hdr] + body;
    assert forall|i: int| 0 <= i < all.len() implies plain_line(#[trigger] all[i]) by {
        if i > 1 {
            assert(all[i] == g[i - 2]);
        }
    }
    lemma_lines_text_append(seq![hdr], body);
    reveal_with_fuel(lines_text, 2);
    assert(lines_text(seq![hdr]) =~= header_spec(fps)) by {
        assert(seq![hdr].drop_last() =~= Seq::<Seq<char>>::empty());
    }
    lemma_split_lines_text(all);
    assert(all.skip(1) =~= body);
    lemma_frames_after_blank(g);
    lemma_header_round_trip(fps);
}

/// Whether `c` is one of the edge symbols.
pub open spec fn is_edge_char(c: char) -> bool {
    edges().contains(c)
}

/// Whether no character of `s` is an edge symbol.
pub open spec fn edge_free(s: Seq<char>) -> bool {
    forall|k: int| 0 <= k < s.len() ==> !is_edge_char(#[trigger] s[k])
}

proof fn lemma_edge_chars()
    ensures
        forall|k: int| 0 <= k < ramp().len() ==> !is_edge_char(#[trigger] ramp()[k]),
        !is_edge_char('\n'),
{
    assert forall|k: int| 0 <= k < ramp().len() implies !is_edge_char(#[trigger] ramp()[k]) by {
        if edges().contains(ramp()[k]) {
            let m = choose|m: int| 0 <= m < edges().len() && edges()[m] == ramp()[k];
            assert(0 <= m < 4);
        }
    }
    if edges().contains('\n') {
        let m = choose|m: int| 0 <= m < edges().len() && edges()[m] == '\n';
        assert(0 <= m < 4);
    }
}

proof fn lemma_join_rows_edge_free(rows: Seq<Seq<char>>)
    requires
        forall|i: int| 0 <= i < rows.len() ==> edge_free(#[trigger] rows[i]),
    ensures
        edge_free(join_rows(rows)),
    decreases rows.len(),
{
    lemma_edge_chars();
    if rows.len() == 1 {
        assert(edge_free(rows[0]));
    } else if rows.len() > 1 {
        let init = rows.drop_last();
        lemma_join_rows_edge_free(init);
        assert(edge_free(rows[rows.len() - 1]));
        let t = join_rows(init) + seq!['\n'] + rows.last();
        assert forall|k: int| 0 <= k < t.len() implies !is_edge_char(#[trigger] t[k]) by {
            if k < join_rows(init).len() {
                assert(t[k] == join_rows(init)[k]);
            } else if k > join_rows(init).len() {
                assert(t[k] == rows.last()[k - join_rows(init).len() - 1]);
            }
        }
    }
}

proof fn lemma_line_fold_edge_free(text: Seq<char>)
    requires
        edge_free(text),
    ensures
        ({
            let st = line_fold((seq![], seq![]), text);
            &&& forall|i: int| 0 <= i < st.0.len() ==> edge_free(#[trigger] st.0[i])
            &&& edge_free(st.1)
        }),
    decreases text.len(),
{
    if text.len() > 0 {
        let init = text.drop_last();
        assert forall|k: int| 0 <= k < init.len() implies !is_edge_char(#[trigger] init[k]) by {
            assert(init[k] == text[k]);
        }
        lemma_line_fold_edge_free(init);
        let st0 = line_fold((seq![], seq![]), init);
        let c = text.last();
        assert(!is_edge_char(text[text.len() - 1]));
        if c == '\n' {
            let l = strip_cr(st0.1);
            assert(edge_free(l)) by {
                assert forall|k: int| 0 <= k < l.len() implies !is_edge_char(#[trigger] l[k]) by {
                    assert(l[k] == st0.1[k]);
                }
            }
            let st = line_fold((seq![], seq![]), text);
            assert forall|i: int| 0 <= i < st.0.len() implies edge_free(#[trigger] st.0[i]) by {
                if i < st0.0.len() {
                    assert(st.0[i] == st0.0[i]);
                }
            }
        } else {
            let st = line_fold((seq![], seq![]), text);
            assert forall|k: int| 0 <= k < st.1.len() implies !is_edge_char(#[trigger] st.1[k]) by {
                if k < st0.1.len() {
                    assert(st.1[k] == st0.1[k]);
                }
            }
        }
    }
}

proof fn lemma_frame_fold_edge_free(lines: Seq<Seq<char>>)
    requires
        forall|i: int| 0 <= i < lines.len() ==> edge_free(#[trigger] lines[i]),
    ensures
        ({
            let st = frame_fold((seq![], seq![]), lines);
            &&& forall|f: int, r: int| 0 <= f < st.0.len() && 0 <= r < st.0[f].len() ==> edge_free(#[trigger] st.0[f][r])
            &&& forall|r: int| 0 <= r < st.1.len() ==> edge_free(#[trigger] st.1[r])
        }),
    decreases lines.len(),
{
    if lines.len() > 0 {
        let init = lines.drop_last();
        assert forall|i: int| 0 <= i < init.len() implies edge_free(#[trigger] init[i]) by {
            assert(init[i] == lines[i]);
        }
        lemma_frame_fold_edge_free(init);
        let st0 = frame_fold((seq![], seq![]), init);
        let st = frame_fold((seq![], seq![]), lines);
        assert(edge_free(lines[lines.len() - 1]));
        assert forall|f: int, r: int| 0 <= f < st.0.len() && 0 <= r < st.0[f].len() implies edge_free(#[trigger] st.0[f][r]) by {
            if f < st0.0.len() {
                assert(st.0[f] == st0.0[f]);
            } else {
                assert(st.0[f] == st0.1);
            }
        }
        assert forall|r: int| 0 <= r < st.1.len() implies edge_free(#[trigger] st.1[r]) by {
            if r < st0.1.len() && lines.last().len() > 1 {
                assert(st.1[r] == st0.1[r]);
            }
        }
    }
}

/// With edges switched off, a frame that the encoder accepts holds no edge
/// symbol, neither in its cache block nor in any frame that the decoder
/// splits out of that block.
pub proof fn lemma_no_edges_when_disabled(codes: Seq<u32>, row_width: nat)
    requires
        row_width > 0,
        all_valid(codes, false),
    ensures
        edge_free(block_spec(codes, row_width, false)),
        ({
            let frames = frames_of(split_lines_spec(block_spec(codes, row_width, false)));
            forall|f: int, r: int| 0 <= f < frames.len() && 0 <= r < frames[f].len()
                ==> edge_free(#[trigger] frames[f][r])
        }),
{
    let g = grid(codes, row_width, false);
    let w = row_width as int;
    lemma_edge_chars();
    lemma_grid_shape(codes, row_width, false);
    assert forall|i: int| 0 <= i < g.len() implies edge_free(#[trigger] g[i]) by {
        assert forall|j: int| 0 <= j < g[i].len() implies !is_edge_char(#[trigger] g[i][j]) by {
            lemma_grid_cell_in_range(codes, row_width, false, i, j);
            assert(code_char(codes[i * w + j], false) is Some);
        }
    }
    lemma_join_rows_edge_free(g);
    let text = block_spec(codes, row_width, false);
    let body = join_rows(g);
    assert forall|k: int| 0 <= k < text.len() implies !is_edge_char(#[trigger] text[k]) by {
        if 0 < k < text.len() - 1 {
            assert(text[k] == body[k - 1]);
        }
    }
    lemma_line_fold_edge_free(text);
    let st = line_fold((seq![], seq![]), text);
    let lines = split_lines_spec(text);
    assert forall|i: int| 0 <= i < lines.len() implies edge_free(#[trigger] lines[i]) by {
        if i < st.0.len() {
            assert(lines[i] == st.0[i]);
        }
    }
    lemma_frame_fold_edge_free(lines);
    let fs = frame_fold((seq![], seq![]), lines);
    let frames = frames_of(lines);
    assert forall|f: int, r: int| 0 <= f < frames.len() && 0 <= r < frames[f].len()
        implies edge_free(#[trigger] frames[f][r]) by {
        if f < fs.0.len() {
            assert(frames[f] == fs.0[f]);
        } else {
            assert(frames[f] == fs.1);
        }
    }
}

} // verus!
