//! A rectangular grid of stitch symbols.

use vstd::prelude::*;

use crate::chars::{in_class, lemma_run_end_bounds, push_char, run_end, CharClass};
use vstd::string::StringExecFns;

verus! {

/// Rows of stitch symbols, all of the same length.
#[derive(Debug)]
pub struct Chart {
    stitches: Vec<Vec<char>>,
    cols: usize,
}

/// Why a chart operation failed.
#[derive(Debug, Clone, PartialEq, Eq)]
pub enum ChartError {
    /// No line starts with `CHART`.
    IncompleteHeader,
    /// A repeat count of zero.
    ZeroNotLegal,
    /// Every stitch is empty, so there is nothing to trim to.
    EmptyChart,
    /// A row or column outside the chart.
    RangeCheck,
    /// A height above the largest a chart may have.
    TooTall(u32),
    /// A width above the largest a chart may have.
    TooWide(u32),
}

/// `g` has `rows` rows of `cols` symbols each.
pub open spec fn is_grid(g: Seq<Seq<char>>, rows: int, cols: int) -> bool {
    g.len() == rows && forall|r: int| 0 <= r < rows ==> (#[trigger] g[r]).len() == cols
}

impl View for Chart {
    type V = Seq<Seq<char>>;

    closed spec fn view(&self) -> Seq<Seq<char>> {
        self.stitches@.map_values(|row: Vec<char>| row@)
    }
}

impl Chart {
    /// The number of columns.
    pub closed spec fn width(&self) -> int {
        self.cols as int
    }

    /// Every row has `width()` symbols.
    pub closed spec fn wf(&self) -> bool {
        is_grid(self@, self.stitches@.len() as int, self.cols as int)
    }

    /// A `width` by `height` chart filled with `fill`.
    pub fn new(width: usize, height: usize, fill: char) -> (r: Chart)
        ensures
            r.wf(),
            r.width() == width,
            is_grid(r@, height as int, width as int),
            forall|i: int, j: int| 0 <= i < height && 0 <= j < width ==> r@[i][j] == fill,
    {
        let mut stitches: Vec<Vec<char>> = Vec::new();
        let mut i: usize = 0;
        while i < height
            invariant
                i <= height,
                stitches@.len() == i,
                forall|a: int| 0 <= a < i ==> (#[trigger] stitches@[a])@.len() == width,
                forall|a: int, b: int| 0 <= a < i && 0 <= b < width ==> stitches@[a]@[b] == fill,
            decreases height - i,
        {
            let mut row: Vec<char> = Vec::new();
            let mut j: usize = 0;
            while j < width
                invariant
                    j <= width,
                    row@.len() == j,
                    forall|b: int| 0 <= b < j ==> row@[b] == fill,
                decreases width - j,
            {
                row.push(fill);
                j = j + 1;
            }
            stitches.push(row);
            i = i + 1;
        }
        let r = Chart { stitches, cols: width };
        assert(is_grid(r@, height as int, width as int));
        r
    }

    /// A chart with the given rows; `None` unless every row has the length of
    /// the first.
    pub fn from_rows(rows: Vec<Vec<char>>) -> (r: Option<Chart>)
        ensures
            r is Some <==> (forall|a: int| 0 <= a < rows@.len() ==> (#[trigger] rows@[a])@.len() == rows@[0]@.len()),
            r matches Some(c) ==> c.wf() && c@ == rows@.map_values(|row: Vec<char>| row@),
    {
        let cols = if rows.len() == 0 { 0 } else { rows[0].len() };
        let mut i: usize = 0;
        while i < rows.len()
            invariant
                i <= rows@.len(),
                rows@.len() > 0 ==> cols == rows@[0]@.len(),
                forall|a: int| 0 <= a < i ==> (#[trigger] rows@[a])@.len() == cols,
            decreases rows.len() - i,
        {
            if rows[i].len() != cols {
                return None;
            }
            i = i + 1;
        }
        let r = Chart { stitches: rows, cols };
        assert(is_grid(r@, r.stitches@.len() as int, cols as int));
        Some(r)
    }

    pub fn rows(&self) -> (r: usize)
        ensures
            r == self@.len(),
    {
        self.stitches.len()
    }

    pub fn cols(&self) -> (r: usize)
        requires
            self.wf(),
        ensures
            r == self.width(),
    {
        self.cols
    }

    /// The symbol at `row`, `col`.
    fn at(&self, row: usize, col: usize) -> (r: char)
        requires
            self.wf(),
            row < self@.len(),
            col < self.width(),
        ensures
            r == self@[row as int][col as int],
    {
        assert(self@[row as int] == self.stitches@[row as int]@);
        self.stitches[row][col]
    }

    /// The symbol at `row`, `col`, or an error when that is outside the chart.
    pub fn stitch(&self, row: usize, col: usize) -> (r: Result<char, ChartError>)
        requires
            self.wf(),
        ensures
            r is Ok <==> (row < self@.len() && col < self.width()),
            r matches Ok(c) ==> c == self@[row as int][col as int],
            r matches Err(e) ==> e == ChartError::RangeCheck,
    {
        if row >= self.stitches.len() || col >= self.cols {
            return Err(ChartError::RangeCheck);
        }
        Ok(self.at(row, col))
    }

    /// Replaces the symbol at `row`, `col`; an error, with the chart
    /// unchanged, when that is outside the chart.
    pub fn set_stitch(&mut self, row: usize, col: usize, stitch: char) -> (r: Result<(), ChartError>)
        requires
            old(self).wf(),
        ensures
            final(self).wf(),
            final(self).width() == old(self).width(),
            r is Ok <==> (row < old(self)@.len() && col < old(self).width()),
            r is Ok ==> final(self)@ == old(self)@.update(row as int, old(self)@[row as int].update(col as int, stitch)),
            r matches Err(e) ==> e == ChartError::RangeCheck && final(self)@ == old(self)@,
    {
        if row >= self.stitches.len() || col >= self.cols {
            return Err(ChartError::RangeCheck);
        }
        let ghost before = self@;
        assert(before[row as int] == self.stitches@[row as int]@);
        let src = &self.stitches[row];
        let mut line: Vec<char> = Vec::new();
        let mut j: usize = 0;
        while j < src.len()
            invariant
                j <= src@.len(),
                col < src@.len(),
                line@ == src@.update(col as int, stitch).take(j as int),
            decreases src.len() - j,
        {
            if j == col {
                line.push(stitch);
            } else {
                line.push(src[j]);
            }
            j = j + 1;
            assert(line@ =~= src@.update(col as int, stitch).take(j as int));
        }
        assert(line@ =~= src@.update(col as int, stitch));
        self.stitches.set(row, line);
        assert(self@ =~= before.update(row as int, before[row as int].update(col as int, stitch)));
        Ok(())
    }

    /// A copy with the same symbols.
    pub fn duplicate(&self) -> (r: Chart)
        requires
            self.wf(),
        ensures
            r.wf(),
            r@ == self@,
            r.width() == self.width(),
    {
        let mut stitches: Vec<Vec<char>> = Vec::new();
        let mut i: usize = 0;
        while i < self.stitches.len()
            invariant
                self.wf(),
                i <= self.stitches@.len(),
                stitches@.len() == i,
                forall|a: int| 0 <= a < i ==> (#[trigger] stitches@[a])@ == self.stitches@[a]@,
            decreases self.stitches.len() - i,
        {
            let src = &self.stitches[i];
            let mut row: Vec<char> = Vec::new();
            let mut j: usize = 0;
            while j < src.len()
                invariant
                    j <= src@.len(),
                    row@ == src@.take(j as int),
                decreases src.len() - j,
            {
                row.push(src[j]);
                j = j + 1;
                assert(row@ =~= src@.take(j as int));
            }
            assert(row@ =~= src@);
            stitches.push(row);
            i = i + 1;
        }
        let r = Chart { stitches, cols: self.cols };
        assert(r@ =~= self@);
        r
    }

    /// The chart surrounded by a border of `fill` one stitch wide.
    pub fn pad(&self, fill: char) -> (r: Chart)
        requires
            self.wf(),
            self@.len() + 2 <= usize::MAX,
            self.width() + 2 <= usize::MAX,
        ensures
            r.wf(),
            is_grid(r@, self@.len() + 2int, self.width() + 2),
            forall|i: int, j: int| 0 <= i < self@.len() + 2 && 0 <= j < self.width() + 2 ==>
                r@[i][j] == if 1 <= i <= self@.len() && 1 <= j <= self.width() {
                    self@[i - 1][j - 1]
                } else {
                    fill
                },
    {
        let height = self.stitches.len();
        let width = self.cols;
        let mut stitches: Vec<Vec<char>> = Vec::new();
        let mut i: usize = 0;
        while i < height + 2
            invariant
                self.wf(),
                height == self@.len(),
                width == self.width(),
                height + 2 <= usize::MAX,
                width + 2 <= usize::MAX,
                i <= height + 2,
                stitches@.len() == i,
                forall|a: int| 0 <= a < i ==> (#[trigger] stitches@[a])@.len() == width + 2,
                forall|a: int, b: int| 0 <= a < i && 0 <= b < width + 2 ==>
                    stitches@[a]@[b] == if 1 <= a <= height && 1 <= b <= width {
                        self@[a - 1][b - 1]
                    } else {
                        fill
                    },
            decreases height + 2 - i,
        {
            let mut row: Vec<char> = Vec::new();
            let mut j: usize = 0;
            while j < width + 2
                invariant
                    self.wf(),
                    height == self@.len(),
                    width == self.width(),
                    width + 2 <= usize::MAX,
                    i < height + 2,
                    j <= width + 2,
                    row@.len() == j,
                    forall|b: int| 0 <= b < j ==> row@[b] == if 1 <= i <= height && 1 <= b <= width {
                        self@[i - 1][b - 1]
                    } else {
                        fill
                    },
                decreases width + 2 - j,
            {
                if 1 <= i && i <= height && 1 <= j && j <= width {
                    row.push(self.at(i - 1, j - 1));
                } else {
                    row.push(fill);
                }
                j = j + 1;
            }
            stitches.push(row);
            i = i + 1;
        }
        let r = Chart { stitches, cols: width + 2 };
        assert(is_grid(r@, height + 2int, width + 2int));
        r
    }
}

/// The symbol at row `i`, column `j` of `l` and `r` side by side, where
/// `l` is `lw` wide; missing rows read as empty stitches.
pub open spec fn zip_at(l: Seq<Seq<char>>, r: Seq<Seq<char>>, lw: int, i: int, j: int) -> char {
    if j < lw {
        if i < l.len() { l[i][j] } else { '.' }
    } else {
        if i < r.len() { r[i][j - lw] } else { '.' }
    }
}

/// The symbol at row `i`, column `j` of `g` with `st` (`sw` wide) laid
/// over it from row `v`, column `h`.
pub open spec fn stamp_at(g: Seq<Seq<char>>, st: Seq<Seq<char>>, sw: int, h: int, v: int, i: int, j: int) -> char {
    if v <= i < v + st.len() && h <= j < h + sw {
        st[i - v][j - h]
    } else {
        g[i][j]
    }
}

impl Chart {
    /// The chart mirrored left to right.
    pub fn reflect(&self) -> (r: Chart)
        requires
            self.wf(),
        ensures
            r.wf(),
            r.width() == self.width(),
            is_grid(r@, self@.len() as int, self.width()),
            forall|i: int, j: int| 0 <= i < self@.len() && 0 <= j < self.width() ==>
                r@[i][j] == self@[i][self.width() - 1 - j],
    {
        let height = self.stitches.len();
        let width = self.cols;
        let mut stitches: Vec<Vec<char>> = Vec::new();
        let mut i: usize = 0;
        while i < height
            invariant
                self.wf(),
                height == self@.len(),
                width == self.width(),
                i <= height,
                stitches@.len() == i,
                forall|a: int| 0 <= a < i ==> (#[trigger] stitches@[a])@.len() == width,
                forall|a: int, b: int| 0 <= a < i && 0 <= b < width ==>
                    stitches@[a]@[b] == self@[a][width - 1 - b],
            decreases height - i,
        {
            let mut row: Vec<char> = Vec::new();
            let mut j: usize = 0;
            while j < width
                invariant
                    self.wf(),
                    height == self@.len(),
                    width == self.width(),
                    i < height,
                    j <= width,
                    row@.len() == j,
                    forall|b: int| 0 <= b < j ==> row@[b] == self@[i as int][width - 1 - b],
                decreases width - j,
            {
                row.push(self.at(i, width - 1 - j));
                j = j + 1;
            }
            stitches.push(row);
            i = i + 1;
        }
        let r = Chart { stitches, cols: width };
        assert(is_grid(r@, height as int, width as int));
        r
    }

    /// The columns from `from` (inclusive) to `to` (exclusive), as a chart.
    fn columns(&self, from: usize, to: usize) -> (r: Chart)
        requires
            self.wf(),
            from <= to <= self.width(),
        ensures
            r.wf(),
            r.width() == to - from,
            is_grid(r@, self@.len() as int, to - from),
            forall|i: int, j: int| 0 <= i < self@.len() && 0 <= j < to - from ==>
                r@[i][j] == self@[i][j + from],
    {
        let height = self.stitches.len();
        let mut stitches: Vec<Vec<char>> = Vec::new();
        let mut i: usize = 0;
        while i < height
            invariant
                self.wf(),
                height == self@.len(),
                from <= to <= self.width(),
                i <= height,
                stitches@.len() == i,
                forall|a: int| 0 <= a < i ==> (#[trigger] stitches@[a])@.len() == to - from,
                forall|a: int, b: int| 0 <= a < i && 0 <= b < to - from ==>
                    stitches@[a]@[b] == self@[a][b + from],
            decreases height - i,
        {
            let mut row: Vec<char> = Vec::new();
            let mut j: usize = from;
            while j < to
                invariant
                    self.wf(),
                    height == self@.len(),
                    from <= j <= to <= self.width(),
                    i < height,
                    row@.len() == j - from,
                    forall|b: int| 0 <= b < j - from ==> row@[b] == self@[i as int][b + from],
                decreases to - j,
            {
                row.push(self.at(i, j));
                j = j + 1;
            }
            stitches.push(row);
            i = i + 1;
        }
        let r = Chart { stitches, cols: to - from };
        assert(is_grid(r@, height as int, to - from));
        r
    }

    /// The left half (rounded down) and the right half of the chart.
    pub fn split(&self) -> (r: (Chart, Chart))
        requires
            self.wf(),
        ensures
            ({
                let half = self.width() / 2;
                &&& r.0.wf() && r.1.wf()
                &&& is_grid(r.0@, self@.len() as int, half)
                &&& is_grid(r.1@, self@.len() as int, self.width() - half)
                &&& r.0.width() == half
                &&& r.1.width() == self.width() - half
                &&& forall|i: int, j: int| 0 <= i < self@.len() && 0 <= j < half ==> r.0@[i][j] == self@[i][j]
                &&& forall|i: int, j: int| 0 <= i < self@.len() && 0 <= j < self.width() - half ==>
                    r.1@[i][j] == self@[i][j + half]
            }),
    {
        let half = self.cols / 2;
        (self.columns(0, half), self.columns(half, self.cols))
    }

    /// `left` and `right` side by side; the shorter one is continued with
    /// empty stitches.
    pub fn zip(&self, right: &Chart) -> (r: Chart)
        requires
            self.wf(),
            right.wf(),
            self.width() + right.width() <= usize::MAX,
        ensures
            ({
                let lh = self@.len() as int;
                let rh = right@.len() as int;
                let lw = self.width();
                let h = if lh >= rh { lh } else { rh };
                &&& r.wf()
                &&& r.width() == lw + right.width()
                &&& is_grid(r@, h, lw + right.width())
                &&& forall|i: int, j: int| 0 <= i < h && 0 <= j < lw + right.width() ==>
                    r@[i][j] == zip_at(self@, right@, lw, i, j)
            }),
    {
        let lh = self.stitches.len();
        let rh = right.stitches.len();
        let lw = self.cols;
        let width = lw + right.cols;
        let height = if lh >= rh { lh } else { rh };
        let mut stitches: Vec<Vec<char>> = Vec::new();
        let mut i: usize = 0;
        while i < height
            invariant
                self.wf(),
                right.wf(),
                lh == self@.len(),
                rh == right@.len(),
                lw == self.width(),
                width == lw + right.width(),
                height == if lh >= rh { lh } else { rh },
                i <= height,
                stitches@.len() == i,
                forall|a: int| 0 <= a < i ==> (#[trigger] stitches@[a])@.len() == width,
                forall|a: int, b: int| 0 <= a < i && 0 <= b < width ==>
                    stitches@[a]@[b] == zip_at(self@, right@, lw as int, a, b),
            decreases height - i,
        {
            let mut row: Vec<char> = Vec::new();
            let mut j: usize = 0;
            while j < width
                invariant
                    self.wf(),
                    right.wf(),
                    lh == self@.len(),
                    rh == right@.len(),
                    lw == self.width(),
                    width == lw + right.width(),
                    i < height,
                    j <= width,
                    row@.len() == j,
                    forall|b: int| 0 <= b < j ==> row@[b] == zip_at(self@, right@, lw as int, i as int, b),
                decreases width - j,
            {
                let ch = if j < lw {
                    if i < lh { self.at(i, j) } else { '.' }
                } else {
                    if i < rh { right.at(i, j - lw) } else { '.' }
                };
                row.push(ch);
                j = j + 1;
            }
            let ghost before = stitches@;
            let ghost rv = row@;
            stitches.push(row);
            assert forall|a: int, b: int| 0 <= a < i + 1 && 0 <= b < width implies
                stitches@[a]@[b] == zip_at(self@, right@, lw as int, a, b) by {
                if a < i {
                    assert(stitches@[a] == before[a]);
                    assert(stitches@[a]@[b] == before[a]@[b]);
                } else {
                    assert(stitches@[a]@ == rv);
                    assert(rv[b] == zip_at(self@, right@, lw as int, i as int, b));
                }
            }
            i = i + 1;
        }
        let r = Chart { stitches, cols: width };
        assert(is_grid(r@, height as int, width as int));
        r
    }

    /// The chart with `stamp` laid over it, its top left corner at row
    /// `v_offset` and column `h_offset`; what falls outside is dropped.
    pub fn stamp(&self, stamp: &Chart, h_offset: usize, v_offset: usize) -> (r: Chart)
        requires
            self.wf(),
            stamp.wf(),
        ensures
            r.wf(),
            r.width() == self.width(),
            is_grid(r@, self@.len() as int, self.width()),
            forall|i: int, j: int| 0 <= i < self@.len() && 0 <= j < self.width() ==>
                r@[i][j] == stamp_at(self@, stamp@, stamp.width(), h_offset as int, v_offset as int, i, j),
    {
        let height = self.stitches.len();
        let width = self.cols;
        let sh = stamp.stitches.len();
        let sw = stamp.cols;
        let mut stitches: Vec<Vec<char>> = Vec::new();
        let mut i: usize = 0;
        while i < height
            invariant
                self.wf(),
                stamp.wf(),
                height == self@.len(),
                width == self.width(),
                sh == stamp@.len(),
                sw == stamp.width(),
                i <= height,
                stitches@.len() == i,
                forall|a: int| 0 <= a < i ==> (#[trigger] stitches@[a])@.len() == width,
                forall|a: int, b: int| 0 <= a < i && 0 <= b < width ==>
                    stitches@[a]@[b] == stamp_at(self@, stamp@, sw as int, h_offset as int, v_offset as int, a, b),
            decreases height - i,
        {
            let mut row: Vec<char> = Vec::new();
            let mut j: usize = 0;
            while j < width
                invariant
                    self.wf(),
                    stamp.wf(),
                    height == self@.len(),
                    width == self.width(),
                    sh == stamp@.len(),
                    sw == stamp.width(),
                    i < height,
                    j <= width,
                    row@.len() == j,
                    forall|b: int| 0 <= b < j ==> row@[b] == stamp_at(self@, stamp@, sw as int, h_offset as int, v_offset as int, i as int, b),
                decreases width - j,
            {
                let inside = v_offset <= i && i - v_offset < sh && h_offset <= j && j - h_offset < sw;
                let ch = if inside {
                    stamp.at(i - v_offset, j - h_offset)
                } else {
                    self.at(i, j)
                };
                row.push(ch);
                j = j + 1;
            }
            let ghost before = stitches@;
            let ghost rv = row@;
            stitches.push(row);
            assert forall|a: int, b: int| 0 <= a < i + 1 && 0 <= b < width implies
                stitches@[a]@[b] == stamp_at(self@, stamp@, sw as int, h_offset as int, v_offset as int, a, b) by {
                if a < i {
                    assert(stitches@[a] == before[a]);
                    assert(stitches@[a]@[b] == before[a]@[b]);
                } else {
                    assert(stitches@[a]@ == rv);
                    assert(rv[b] == stamp_at(self@, stamp@, sw as int, h_offset as int, v_offset as int, i as int, b));
                }
            }
            i = i + 1;
        }
        let r = Chart { stitches, cols: width };
        assert(is_grid(r@, height as int, width as int));
        r
    }

    /// The chart repeated `h` times across and `v` times down.
    pub fn repeat(&self, h: u8, v: u8) -> (r: Result<Chart, ChartError>)
        requires
            self.wf(),
            self.width() * h <= usize::MAX,
            self@.len() * v <= usize::MAX,
        ensures
            r is Err <==> (h == 0 || v == 0),
            r matches Err(e) ==> e == ChartError::ZeroNotLegal,
            r matches Ok(c) ==> c.wf() && c.width() == self.width() * h
                && is_grid(c@, self@.len() * v, self.width() * h)
                && forall|i: int, j: int| 0 <= i < self@.len() * v && 0 <= j < self.width() * h ==>
                    c@[i][j] == self@[i % (self@.len() as int)][j % self.width()],
    {
        if h == 0 || v == 0 {
            return Err(ChartError::ZeroNotLegal);
        }
        let lh = self.stitches.len();
        let lw = self.cols;
        let height = lh * (v as usize);
        let width = lw * (h as usize);
        let mut stitches: Vec<Vec<char>> = Vec::new();
        let mut i: usize = 0;
        while i < height
            invariant
                self.wf(),
                lh == self@.len(),
                lw == self.width(),
                height == lh * v,
                width == lw * h,
                v > 0,
                h > 0,
                i <= height,
                stitches@.len() == i,
                forall|a: int| 0 <= a < i ==> (#[trigger] stitches@[a])@.len() == width,
                forall|a: int, b: int| 0 <= a < i && 0 <= b < width ==>
                    stitches@[a]@[b] == self@[a % (lh as int)][b % (lw as int)],
            decreases height - i,
        {
            assert(lh > 0) by (nonlinear_arith)
                requires
                    i < height,
                    height == lh * v,
            {
            }
            let src_row = i % lh;
            let mut row: Vec<char> = Vec::new();
            let mut j: usize = 0;
            while j < width
                invariant
                    self.wf(),
                    lh == self@.len(),
                    lw == self.width(),
                    width == lw * h,
                    lh > 0,
                    src_row < lh,
                    src_row == i % lh,
                    j <= width,
                    row@.len() == j,
                    forall|b: int| 0 <= b < j ==> row@[b] == self@[src_row as int][b % (lw as int)],
                decreases width - j,
            {
                assert(lw > 0) by (nonlinear_arith)
                    requires
                        j < width,
                        width == lw * h,
                {
                }
                row.push(self.at(src_row, j % lw));
                j = j + 1;
            }
            stitches.push(row);
            i = i + 1;
        }
        let r = Chart { stitches, cols: width };
        assert(is_grid(r@, height as int, width as int));
        Ok(r)
    }
}

/// The largest width or height of a chart made from an image.
pub const MAX_DIMENSION: u32 = 65535;

/// Refuses sizes beyond `MAX_DIMENSION`, the height first.
pub fn check_chart_size(width: u32, height: u32) -> (r: Result<(), ChartError>)
    ensures
        height > MAX_DIMENSION ==> r == Err::<(), ChartError>(ChartError::TooTall(height)),
        height <= MAX_DIMENSION && width > MAX_DIMENSION ==> r == Err::<(), ChartError>(
            ChartError::TooWide(width),
        ),
        height <= MAX_DIMENSION && width <= MAX_DIMENSION ==> r is Ok,
{
    if height > MAX_DIMENSION {
        return Err(ChartError::TooTall(height));
    }
    if width > MAX_DIMENSION {
        return Err(ChartError::TooWide(width));
    }
    Ok(())
}

impl Chart {
    /// A chart from grey levels given row by row: a pixel darker than
    /// `threshold` is a stitch (`*`), any other is empty (`.`).
    pub fn from_luma(width: usize, height: usize, luma: &Vec<u8>, threshold: u8) -> (r: Chart)
        requires
            luma@.len() == width * height,
        ensures
            r.wf(),
            r.width() == width,
            is_grid(r@, height as int, width as int),
            forall|i: int, j: int| 0 <= i < height && 0 <= j < width ==>
                r@[i][j] == if luma@[i * width + j] < threshold { '*' } else { '.' },
    {
        let n = luma.len();
        let mut stitches: Vec<Vec<char>> = Vec::new();
        let mut i: usize = 0;
        while i < height
            invariant
                luma@.len() == width * height,
                n == luma@.len(),
                i <= height,
                stitches@.len() == i,
                forall|a: int| 0 <= a < i ==> (#[trigger] stitches@[a])@.len() == width,
                forall|a: int, b: int| 0 <= a < i && 0 <= b < width ==>
                    stitches@[a]@[b] == if luma@[a * width + b] < threshold { '*' } else { '.' },
            decreases height - i,
        {
            let mut row: Vec<char> = Vec::new();
            let mut j: usize = 0;
            while j < width
                invariant
                    luma@.len() == width * height,
                    n == luma@.len(),
                    i < height,
                    j <= width,
                    row@.len() == j,
                    forall|b: int| 0 <= b < j ==> row@[b] == if luma@[i * width + b] < threshold {
                        '*'
                    } else {
                        '.'
                    },
                decreases width - j,
            {
                assert(i * width + j < width * height && i * width <= i * width + j) by (nonlinear_arith)
                    requires
                        i < height,
                        j < width,
                {
                }
                assert(i * width + j < n);
                let k = i * width + j;
                row.push(if luma[k] < threshold { '*' } else { '.' });
                j = j + 1;
            }
            let ghost before = stitches@;
            let ghost rv = row@;
            stitches.push(row);
            assert forall|a: int, b: int| 0 <= a < i + 1 && 0 <= b < width implies stitches@[a]@[b]
                == if luma@[a * width + b] < threshold { '*' } else { '.' } by {
                if a < i {
                    assert(stitches@[a]@[b] == before[a]@[b]);
                } else {
                    assert(stitches@[a]@ == rv);
                }
            }
            i = i + 1;
        }
        let r = Chart { stitches, cols: width };
        assert(is_grid(r@, height as int, width as int));
        r
    }
}

/// An empty stitch: a space or a dot.
pub open spec fn is_blank(c: char) -> bool {
    c == ' ' || c == '.'
}

/// Row `i` has a non-empty stitch within the first `w` columns.
pub open spec fn row_marked(g: Seq<Seq<char>>, w: int, i: int) -> bool {
    exists|j: int| 0 <= j < w && !is_blank(#[trigger] g[i][j])
}

/// Column `j` has a non-empty stitch.
pub open spec fn col_marked(g: Seq<Seq<char>>, j: int) -> bool {
    exists|i: int| 0 <= i < g.len() && !is_blank(#[trigger] g[i][j])
}

/// Rows `t..=b` and columns `l..=r` are the smallest box that holds every
/// non-empty stitch of `g` (`w` wide).
pub open spec fn bounding_box(g: Seq<Seq<char>>, w: int, t: int, b: int, l: int, r: int) -> bool {
    &&& 0 <= t <= b < g.len()
    &&& 0 <= l <= r < w
    &&& forall|i: int, j: int| 0 <= i < g.len() && 0 <= j < w && !is_blank(#[trigger] g[i][j]) ==> t <= i <= b
        && l <= j <= r
    &&& row_marked(g, w, t)
    &&& row_marked(g, w, b)
    &&& col_marked(g, l)
    &&& col_marked(g, r)
}

impl Chart {
    fn row_has_mark(&self, i: usize) -> (r: bool)
        requires
            self.wf(),
            i < self@.len(),
        ensures
            r == row_marked(self@, self.width(), i as int),
    {
        let mut j: usize = 0;
        while j < self.cols
            invariant
                self.wf(),
                i < self@.len(),
                j <= self.width(),
                forall|b: int| 0 <= b < j ==> is_blank(#[trigger] self@[i as int][b]),
            decreases self.cols - j,
        {
            let c = self.at(i, j);
            if c != ' ' && c != '.' {
                return true;
            }
            j = j + 1;
        }
        false
    }

    fn col_has_mark(&self, j: usize) -> (r: bool)
        requires
            self.wf(),
            j < self.width(),
        ensures
            r == col_marked(self@, j as int),
    {
        let mut i: usize = 0;
        while i < self.stitches.len()
            invariant
                self.wf(),
                j < self.width(),
                i <= self@.len(),
                forall|a: int| 0 <= a < i ==> is_blank(#[trigger] self@[a][j as int]),
            decreases self.stitches.len() - i,
        {
            let c = self.at(i, j);
            if c != ' ' && c != '.' {
                return true;
            }
            i = i + 1;
        }
        false
    }

    /// The chart cut down to the smallest box that holds every non-empty
    /// stitch; an error when there is none.
    pub fn trim(&self) -> (r: Result<Chart, ChartError>)
        requires
            self.wf(),
        ensures
            r is Err <==> forall|i: int, j: int| 0 <= i < self@.len() && 0 <= j < self.width() ==> is_blank(
                #[trigger] self@[i][j],
            ),
            r matches Err(e) ==> e == ChartError::EmptyChart,
            r matches Ok(c) ==> c.wf() && exists|t: int, b: int, l: int, rr: int|
                bounding_box(self@, self.width(), t, b, l, rr) && c.width() == rr - l + 1 && is_grid(
                    c@,
                    b - t + 1,
                    rr - l + 1,
                ) && forall|i: int, j: int| 0 <= i <= b - t && 0 <= j <= rr - l ==> c@[i][j] == self@[i
                    + t][j + l],
    {
        let height = self.stitches.len();
        let width = self.cols;
        let ghost g = self@;
        let ghost w = width as int;
        // Top: the first row with a mark.
        let mut t: usize = 0;
        while t < height && !self.row_has_mark(t)
            invariant
                self.wf(),
                height == g.len(),
                g == self@,
                w == self.width(),
                t <= height,
                forall|i: int, j: int| 0 <= i < t && 0 <= j < w ==> is_blank(#[trigger] g[i][j]),
            decreases height - t,
        {
            assert forall|j: int| 0 <= j < w implies is_blank(#[trigger] g[t as int][j]) by {}
            t = t + 1;
        }
        if t == height {
            return Err(ChartError::EmptyChart);
        }
        // Bottom: the last row with a mark.
        let mut b: usize = height - 1;
        while b > t && !self.row_has_mark(b)
            invariant
                self.wf(),
                height == g.len(),
                g == self@,
                w == self.width(),
                t <= b < height,
                row_marked(g, w, t as int),
                forall|i: int, j: int| b < i < height && 0 <= j < w ==> is_blank(#[trigger] g[i][j]),
            decreases b - t,
        {
            b = b - 1;
        }
        // Left: the first column with a mark.
        let mut l: usize = 0;
        proof {
            let j0 = choose|j: int| 0 <= j < w && !is_blank(#[trigger] g[t as int][j]);
            assert(col_marked(g, j0));
        }
        while l < width && !self.col_has_mark(l)
            invariant
                self.wf(),
                height == g.len(),
                g == self@,
                w == self.width(),
                width == self.width(),
                l <= width,
                t < height,
                row_marked(g, w, t as int),
                forall|i: int, j: int| 0 <= i < height && 0 <= j < l ==> is_blank(#[trigger] g[i][j]),
            decreases width - l,
        {
            l = l + 1;
        }
        if l == width {
            return Err(ChartError::EmptyChart);
        }
        // Right: the last column with a mark.
        let mut r: usize = width - 1;
        while r > l && !self.col_has_mark(r)
            invariant
                self.wf(),
                height == g.len(),
                g == self@,
                w == self.width(),
                width == self.width(),
                l <= r < width,
                col_marked(g, l as int),
                forall|i: int, j: int| 0 <= i < height && r < j < width ==> is_blank(#[trigger] g[i][j]),
            decreases r - l,
        {
            r = r - 1;
        }
        proof {
            assert(row_marked(g, w, b as int));
            assert(col_marked(g, r as int));
        }
        let mut stitches: Vec<Vec<char>> = Vec::new();
        let mut i: usize = t;
        while i <= b
            invariant
                self.wf(),
                g == self@,
                t <= i <= b + 1,
                b < height,
                height == g.len(),
                l <= r < width,
                width == self.width(),
                stitches@.len() == i - t,
                forall|a: int| 0 <= a < i - t ==> (#[trigger] stitches@[a])@.len() == r - l + 1,
                forall|a: int, c: int| 0 <= a < i - t && 0 <= c <= r - l ==> stitches@[a]@[c] == g[a + t][c
                    + l],
            decreases b + 1 - i,
        {
            let mut row: Vec<char> = Vec::new();
            let mut j: usize = l;
            while j <= r
                invariant
                    self.wf(),
                    g == self@,
                    l <= j <= r + 1,
                    r < width,
                    width == self.width(),
                    i < height,
                    height == g.len(),
                    row@.len() == j - l,
                    forall|c: int| 0 <= c < j - l ==> row@[c] == g[i as int][c + l],
                decreases r + 1 - j,
            {
                row.push(self.at(i, j));
                j = j + 1;
            }
            let ghost before = stitches@;
            let ghost rv = row@;
            stitches.push(row);
            assert forall|a: int, c: int| 0 <= a < i + 1 - t && 0 <= c <= r - l implies stitches@[a]@[c]
                == g[a + t][c + l] by {
                if a < i - t {
                    assert(stitches@[a]@[c] == before[a]@[c]);
                } else {
                    assert(stitches@[a]@ == rv);
                    assert(rv[c] == g[i as int][c + l]);
                }
            }
            i = i + 1;
        }
        let out = Chart { stitches, cols: r - l + 1 };
        assert(is_grid(out@, b - t + 1, r - l + 1));
        assert(bounding_box(g, w, t as int, b as int, l as int, r as int));
        Ok(out)
    }
}


/// The lines of `s`: the pieces between line feeds, without the line feeds;
/// a final line feed ends the last line rather than starting an empty one.
pub open spec fn lines(s: Seq<char>) -> Seq<Seq<char>>
    decreases s.len(),
{
    if s.len() == 0 {
        Seq::empty()
    } else {
        let k = run_end(s, 0, CharClass::NotNewline);
        proof {
            lemma_run_end_bounds(s, 0, CharClass::NotNewline);
        }
        if k < s.len() {
            seq![s.subrange(0, k)] + lines(s.subrange(k + 1, s.len() as int))
        } else {
            seq![s]
        }
    }
}

pub open spec fn text_chart() -> Seq<char> {
    seq!['C', 'H', 'A', 'R', 'T']
}

/// The index of the first line that starts with `CHART`, from `k` on.
pub open spec fn header_index(ls: Seq<Seq<char>>, k: int) -> Option<int>
    decreases ls.len() - k,
{
    if k < 0 || k >= ls.len() {
        None
    } else if ls[k].len() >= 5 && ls[k].subrange(0, 5) == text_chart() {
        Some(k)
    } else {
        header_index(ls, k + 1)
    }
}

/// The length of the longest line.
pub open spec fn max_len(ls: Seq<Seq<char>>) -> int
    decreases ls.len(),
{
    if ls.len() == 0 {
        0
    } else {
        let m = max_len(ls.drop_last());
        if ls.last().len() > m {
            ls.last().len() as int
        } else {
            m
        }
    }
}

/// `r` filled up with `.` to `w` symbols.
pub open spec fn pad_row(r: Seq<char>, w: int) -> Seq<char> {
    r + Seq::new((w - r.len()) as nat, |i: int| '.')
}

/// The grid that a chart text describes: the lines after the header, each
/// filled up to the longest.
pub open spec fn chart_of_text(s: Seq<char>) -> Option<Seq<Seq<char>>> {
    let ls = lines(s);
    match header_index(ls, 0) {
        Some(h) => {
            let rows = ls.subrange(h + 1, ls.len() as int);
            Some(rows.map_values(|r: Seq<char>| pad_row(r, max_len(rows))))
        },
        None => None,
    }
}

proof fn lemma_max_len(ls: Seq<Seq<char>>)
    ensures
        max_len(ls) >= 0,
        forall|k: int| 0 <= k < ls.len() ==> (#[trigger] ls[k]).len() <= max_len(ls),
    decreases ls.len(),
{
    if ls.len() > 0 {
        lemma_max_len(ls.drop_last());
        assert forall|k: int| 0 <= k < ls.len() implies (#[trigger] ls[k]).len() <= max_len(ls) by {
            if k < ls.len() - 1 {
                assert(ls[k] == ls.drop_last()[k]);
            }
        }
    }
}

/// The lines of `text`.
fn split_lines(text: &Vec<char>) -> (r: Vec<Vec<char>>)
    ensures
        r@.map_values(|l: Vec<char>| l@) == lines(text@),
{
    let ghost s = text@;
    let mut out: Vec<Vec<char>> = Vec::new();
    let mut i: usize = 0;
    assert(s.subrange(0, s.len() as int) =~= s);
    assert(out@.map_values(|l: Vec<char>| l@) + lines(s) =~= lines(s));
    while i < text.len()
        invariant
            i <= s.len(),
            s == text@,
            lines(s) == out@.map_values(|l: Vec<char>| l@) + lines(s.subrange(i as int, s.len() as int)),
        decreases text.len() - i,
    {
        let ghost rest = s.subrange(i as int, s.len() as int);
        let mut line: Vec<char> = Vec::new();
        let mut k: usize = i;
        proof {
            lemma_run_end_bounds(rest, 0, CharClass::NotNewline);
        }
        while k < text.len() && text[k] != '\n'
            invariant
                i <= k <= s.len(),
                s == text@,
                rest == s.subrange(i as int, s.len() as int),
                line@ == s.subrange(i as int, k as int),
                run_end(rest, 0, CharClass::NotNewline) == run_end(rest, k - i, CharClass::NotNewline),
            decreases text.len() - k,
        {
            line.push(text[k]);
            k = k + 1;
            assert(line@ =~= s.subrange(i as int, k as int));
        }
        let ghost before = out@.map_values(|l: Vec<char>| l@);
        out.push(line);
        assert(out@.map_values(|l: Vec<char>| l@) =~= before.push(s.subrange(i as int, k as int)));
        if k < text.len() {
            assert(rest.subrange(k - i + 1, rest.len() as int) =~= s.subrange(k + 1, s.len() as int));
            assert(rest.subrange(0, k - i) =~= s.subrange(i as int, k as int));
            assert(before + (seq![s.subrange(i as int, k as int)] + lines(s.subrange(k + 1, s.len() as int)))
                =~= before.push(s.subrange(i as int, k as int)) + lines(s.subrange(k + 1, s.len() as int)));
            i = k + 1;
        } else {
            assert(rest =~= s.subrange(i as int, k as int));
            assert(s.subrange(s.len() as int, s.len() as int) =~= Seq::<char>::empty());
            i = k;
        }
    }
    assert(s.subrange(i as int, s.len() as int) =~= Seq::<char>::empty());
    assert(out@.map_values(|l: Vec<char>| l@) + lines(Seq::<char>::empty()) =~= out@.map_values(|l: Vec<char>| l@));
    out
}

impl Chart {
    /// Reads a chart text: lines up to one that starts with `CHART` are
    /// skipped, every later line is a row, and short rows are filled up
    /// with `.` to the longest.
    pub fn read(text: &str) -> (r: Result<Chart, ChartError>)
        ensures
            match chart_of_text(text@) {
                Some(g) => r matches Ok(c) && c.wf() && c@ == g,
                None => r == Err::<Chart, ChartError>(ChartError::IncompleteHeader),
            },
    {
        let mut chars: Vec<char> = Vec::new();
        for ch in it: text.chars()
            invariant
                it.seq() == text@,
                chars@ == it.seq().take(it.index() as int),
        {
            chars.push(ch);
        }
        assert(chars@ =~= text@);
        let ls = split_lines(&chars);
        let ghost lm = ls@.map_values(|l: Vec<char>| l@);
        // Find the header.
        let mut h: usize = 0;
        proof {
            reveal_strlit("CHART");
        }
        loop
            invariant
                h <= ls@.len(),
                lm == ls@.map_values(|l: Vec<char>| l@),
                lm == lines(text@),
                header_index(lm, 0) == header_index(lm, h as int),
            ensures
                h < ls@.len(),
                lm == lines(text@),
                header_index(lm, 0) == Some(h as int),
            decreases ls.len() - h,
        {
            if h >= ls.len() {
                return Err(ChartError::IncompleteHeader);
            }
            let line = &ls[h];
            assert(lm[h as int] == line@);
            let is_header = line.len() >= 5 && line[0] == 'C' && line[1] == 'H' && line[2] == 'A'
                && line[3] == 'R' && line[4] == 'T';
            assert(is_header == (line@.len() >= 5 && line@.subrange(0, 5) =~= text_chart()));
            if is_header {
                break;
            }
            h = h + 1;
        }
        // Rows and their widest.
        let ghost rows = lm.subrange(h + 1, lm.len() as int);
        let n = ls.len();
        assert(h < n);
        let mut width: usize = 0;
        let mut k: usize = h + 1;
        assert(rows.subrange(0, 0) =~= Seq::<Seq<char>>::empty());
        while k < ls.len()
            invariant
                h < ls@.len(),
                h + 1 <= k <= ls@.len(),
                lm == ls@.map_values(|l: Vec<char>| l@),
                lm == lines(text@),
                header_index(lm, 0) == Some(h as int),
                rows == lm.subrange(h + 1, lm.len() as int),
                width == max_len(rows.subrange(0, k - h - 1)),
            decreases ls.len() - k,
        {
            assert(rows.subrange(0, k - h).drop_last() =~= rows.subrange(0, k - h - 1));
            assert(rows.subrange(0, k - h).last() == ls@[k as int]@);
            if ls[k].len() > width {
                width = ls[k].len();
            }
            k = k + 1;
        }
        assert(rows.subrange(0, rows.len() as int) =~= rows);
        proof {
            lemma_max_len(rows);
        }
        let mut stitches: Vec<Vec<char>> = Vec::new();
        let mut k: usize = h + 1;
        while k < ls.len()
            invariant
                h < ls@.len(),
                h + 1 <= k <= ls@.len(),
                lm == ls@.map_values(|l: Vec<char>| l@),
                lm == lines(text@),
                header_index(lm, 0) == Some(h as int),
                rows == lm.subrange(h + 1, lm.len() as int),
                width == max_len(rows),
                forall|m: int| 0 <= m < rows.len() ==> (#[trigger] rows[m]).len() <= width,
                stitches@.len() == k - h - 1,
                forall|m: int| 0 <= m < stitches@.len() ==> (#[trigger] stitches@[m])@ == pad_row(rows[m], width as int),
            decreases ls.len() - k,
        {
            let src = &ls[k];
            assert(rows[k - h - 1] == src@);
            let mut row: Vec<char> = Vec::new();
            let mut j: usize = 0;
            while j < width
                invariant
                    j <= width,
                    src@.len() <= width,
                    row@.len() == j,
                    forall|b: int| 0 <= b < j ==> row@[b] == pad_row(src@, width as int)[b],
                decreases width - j,
            {
                if j < src.len() {
                    row.push(src[j]);
                } else {
                    row.push('.');
                }
                j = j + 1;
            }
            assert(row@ =~= pad_row(src@, width as int));
            stitches.push(row);
            k = k + 1;
        }
        let r = Chart { stitches, cols: width };
        assert(r@ =~= rows.map_values(|x: Seq<char>| pad_row(x, max_len(rows))));
        Ok(r)
    }
}

/// The rows, each followed by a line feed, one after another.
pub open spec fn rows_text(g: Seq<Seq<char>>) -> Seq<char>
    decreases g.len(),
{
    if g.len() == 0 {
        Seq::empty()
    } else {
        rows_text(g.drop_last()) + g.last().push('\n')
    }
}

/// The text form of a grid: a `CHART` header line, then one line per row.
pub open spec fn chart_text(g: Seq<Seq<char>>) -> Seq<char> {
    text_chart().push('\n') + rows_text(g)
}

proof fn lemma_lines_cons(x: Seq<char>, rest: Seq<char>)
    requires
        forall|m: int| 0 <= m < x.len() ==> #[trigger] x[m] != '\n',
    ensures
        lines(x.push('\n') + rest) == seq![x] + lines(rest),
{
    let t = x.push('\n') + rest;
    assert forall|m: int| 0 <= m < x.len() implies in_class(#[trigger] t[m], CharClass::NotNewline) by {
        assert(t[m] == x[m]);
    }
    lemma_run_prefix(t, 0, x.len() as int);
    assert(t.subrange(0, x.len() as int) =~= x);
    assert(t.subrange(x.len() as int + 1, t.len() as int) =~= rest);
}

proof fn lemma_run_prefix(t: Seq<char>, i: int, n: int)
    requires
        0 <= i <= n < t.len(),
        forall|m: int| i <= m < n ==> in_class(#[trigger] t[m], CharClass::NotNewline),
        t[n] == '\n',
    ensures
        run_end(t, i, CharClass::NotNewline) == n,
    decreases n - i,
{
    if i < n {
        lemma_run_prefix(t, i + 1, n);
    }
}

proof fn lemma_rows_text_front(g: Seq<Seq<char>>)
    requires
        g.len() > 0,
    ensures
        rows_text(g) == g[0].push('\n') + rows_text(g.drop_first()),
    decreases g.len(),
{
    if g.len() > 1 {
        lemma_rows_text_front(g.drop_last());
        assert(g.drop_last().drop_first() =~= g.drop_first().drop_last());
        assert(g.drop_first().last() == g.last());
        assert(g.drop_last()[0] == g[0]);
    } else {
        assert(g.drop_last() =~= Seq::<Seq<char>>::empty());
        assert(g.drop_first() =~= Seq::<Seq<char>>::empty());
    }
}

proof fn lemma_lines_of_rows(g: Seq<Seq<char>>)
    requires
        forall|r: int, c: int| 0 <= r < g.len() && 0 <= c < g[r].len() ==> g[r][c] != '\n',
    ensures
        lines(rows_text(g)) == g,
    decreases g.len(),
{
    if g.len() > 0 {
        lemma_rows_text_front(g);
        let x = g[0];
        assert forall|m: int| 0 <= m < x.len() implies #[trigger] x[m] != '\n' by {
            assert(g[0][m] != '\n');
        }
        lemma_lines_cons(x, rows_text(g.drop_first()));
        assert forall|r: int, c: int| 0 <= r < g.drop_first().len() && 0 <= c < g.drop_first()[r].len()
            implies g.drop_first()[r][c] != '\n' by {
            assert(g.drop_first()[r] == g[r + 1]);
        }
        lemma_lines_of_rows(g.drop_first());
        assert(seq![x] + g.drop_first() =~= g);
    } else {
        assert(rows_text(g) =~= Seq::<char>::empty());
    }
}

proof fn lemma_max_len_grid(g: Seq<Seq<char>>, w: int)
    requires
        g.len() > 0,
        w >= 0,
        forall|r: int| 0 <= r < g.len() ==> (#[trigger] g[r]).len() == w,
    ensures
        max_len(g) == w,
    decreases g.len(),
{
    if g.len() > 1 {
        assert forall|r: int| 0 <= r < g.drop_last().len() implies (#[trigger] g.drop_last()[r]).len() == w by {
            assert(g.drop_last()[r] == g[r]);
        }
        lemma_max_len_grid(g.drop_last(), w);
    } else {
        assert(g.drop_last() =~= Seq::<Seq<char>>::empty());
        assert(max_len(g.drop_last()) == 0);
    }
    assert(g.last().len() == w);
}

/// Reading the text form of a grid whose symbols are no line feeds gives
/// the grid back.
pub proof fn chart_text_round_trip(g: Seq<Seq<char>>, w: int)
    requires
        w >= 0,
        is_grid(g, g.len() as int, w),
        forall|r: int, c: int| 0 <= r < g.len() && 0 <= c < w ==> g[r][c] != '\n',
    ensures
        chart_of_text(chart_text(g)) == Some(g),
{
    let hdr = text_chart();
    assert forall|m: int| 0 <= m < hdr.len() implies #[trigger] hdr[m] != '\n' by {}
    lemma_lines_cons(hdr, rows_text(g));
    lemma_lines_of_rows(g);
    let ls = lines(chart_text(g));
    assert(ls == seq![hdr] + g);
    assert(ls[0] == hdr);
    assert(hdr.subrange(0, 5) =~= hdr);
    assert(header_index(ls, 0) == Some(0int));
    let rows = ls.subrange(1, ls.len() as int);
    assert(rows =~= g);
    if g.len() > 0 {
        lemma_max_len_grid(g, w);
    }
    assert(rows.map_values(|r: Seq<char>| pad_row(r, max_len(rows))) =~= g) by {
        assert forall|k: int| 0 <= k < g.len() implies pad_row(rows[k], max_len(rows)) == g[k] by {
            assert(pad_row(g[k], w) =~= g[k]);
        }
    }
}

impl Chart {
    /// The text form of the chart.
    pub fn write_to_string(&self) -> (r: String)
        ensures
            r@ == chart_text(self@),
    {
        let mut out = String::from_str("CHART\n");
        proof {
            reveal_strlit("CHART\n");
            assert(out@ =~= text_chart().push('\n'));
            assert(self@.take(0) =~= Seq::<Seq<char>>::empty());
        }
        let mut i: usize = 0;
        while i < self.stitches.len()
            invariant
                i <= self.stitches@.len(),
                out@ == text_chart().push('\n') + rows_text(self@.take(i as int)),
            decreases self.stitches.len() - i,
        {
            let row = &self.stitches[i];
            let ghost before = out@;
            let mut j: usize = 0;
            while j < row.len()
                invariant
                    j <= row@.len(),
                    out@ == before + row@.take(j as int),
                decreases row.len() - j,
            {
                push_char(&mut out, row[j]);
                j = j + 1;
                assert(out@ =~= before + row@.take(j as int));
            }
            push_char(&mut out, '\n');
            assert(self@[i as int] == row@);
            assert(self@.take(i + 1).drop_last() =~= self@.take(i as int));
            assert(row@.take(row@.len() as int) =~= row@);
            assert(out@ =~= text_chart().push('\n') + rows_text(self@.take(i + 1)));
            i = i + 1;
        }
        assert(self@.take(self@.len() as int) =~= self@);
        out
    }
}

} // verus!
