use vstd::prelude::*;

use vstd::string::to_string_from_display_ensures;

use crate::matrix::{Matrix, lemma_offset_in_bounds};

verus! {

/// The text of the cell at `(i, j)`.
pub open spec fn cell(m: Matrix<String>, i: int, j: int) -> Seq<char> {
    m.at(i, j)@
}

/// The length of the longest text among the first `n` cells of column `j`.
pub open spec fn col_width(m: Matrix<String>, j: int, n: nat) -> nat
    decreases n,
{
    if n == 0 {
        0
    } else {
        let rest = col_width(m, j, (n - 1) as nat);
        let here = cell(m, n - 1, j).len();
        if here > rest {
            here
        } else {
            rest
        }
    }
}

/// `n` spaces.
pub open spec fn spaces(n: nat) -> Seq<char> {
    Seq::new(n, |k: int| ' ')
}

/// `s` right-aligned in a field of `w` characters.
pub open spec fn field(s: Seq<char>, w: nat) -> Seq<char> {
    if s.len() < w {
        spaces((w - s.len()) as nat) + s
    } else {
        s
    }
}

/// The first `n` fields of row `i`: each cell right-aligned to one more
/// than its column's width, followed by one space.
pub open spec fn row_fields(m: Matrix<String>, i: int, n: nat) -> Seq<char>
    decreases n,
{
    if n == 0 {
        Seq::empty()
    } else {
        let j = n - 1;
        row_fields(m, i, (n - 1) as nat) + field(cell(m, i, j), col_width(m, j, m.nrows()) + 1)
            + seq![' ']
    }
}

/// Row `i` as one line: `|`, its fields, `|` and a line break.
pub open spec fn row_line(m: Matrix<String>, i: int) -> Seq<char> {
    seq!['|'] + row_fields(m, i, m.ncols()) + seq!['|', '\n']
}

/// The lines of the first `n` rows.
pub open spec fn table_lines(m: Matrix<String>, n: nat) -> Seq<char>
    decreases n,
{
    if n == 0 {
        Seq::empty()
    } else {
        table_lines(m, (n - 1) as nat) + row_line(m, n - 1)
    }
}

/// The whole table: one line per row.
pub open spec fn table_text(m: Matrix<String>) -> Seq<char> {
    table_lines(m, m.nrows())
}

/// No cell of column `j` among the first `n` rows is wider than
/// `col_width`.
proof fn lemma_col_width(m: Matrix<String>, j: int, n: nat, i: int)
    requires
        0 <= i < n,
    ensures
        cell(m, i, j).len() <= col_width(m, j, n),
    decreases n,
{
    if i < n - 1 {
        lemma_col_width(m, j, (n - 1) as nat, i);
    }
}

/// Renders a matrix of texts as a bordered table: for each row, `|`, then
/// each cell right-aligned in a field one wider than the longest text in
/// its column and followed by a space, then `|` and a line break.
pub fn render_table(m: &Matrix<String>) -> (r: String)
    requires
        m.wf(),
    ensures
        r@ == table_text(*m),
{
    let (rows, cols) = m.size();
    let mut widths: Vec<usize> = Vec::with_capacity(cols);
    let mut j: usize = 0;
    while j < cols
        invariant
            m.wf(),
            rows == m.nrows(),
            cols == m.ncols(),
            j <= cols,
            widths@.len() == j,
            forall|jj: int| 0 <= jj < j ==> #[trigger] widths@[jj] == col_width(*m, jj, rows as nat),
        decreases cols - j,
    {
        let mut width: usize = 0;
        let mut i: usize = 0;
        while i < rows
            invariant
                m.wf(),
                rows == m.nrows(),
                cols == m.ncols(),
                j < cols,
                i <= rows,
                width == col_width(*m, j as int, i as nat),
            decreases rows - i,
        {
            let len = m.get(i, j).as_str().unicode_len();
            if len > width {
                width = len;
            }
            i = i + 1;
        }
        widths.push(width);
        j = j + 1;
    }
    proof {
        reveal_strlit("|");
        reveal_strlit(" ");
        reveal_strlit("|\n");
        assert("|"@ =~= seq!['|']);
        assert(" "@ =~= seq![' ']);
        assert("|\n"@ =~= seq!['|', '\n']);
    }
    let mut out = String::new();
    let mut i: usize = 0;
    while i < rows
        invariant
            m.wf(),
            rows == m.nrows(),
            cols == m.ncols(),
            i <= rows,
            widths@.len() == cols,
            forall|jj: int| 0 <= jj < cols ==> #[trigger] widths@[jj] == col_width(*m, jj, rows as nat),
            out@ == table_lines(*m, i as nat),
            "|"@ == seq!['|'],
            " "@ == seq![' '],
            "|\n"@ == seq!['|', '\n'],
        decreases rows - i,
    {
        let ghost done = out@;
        out.append("|");
        assert(row_fields(*m, i as int, 0) =~= Seq::empty());
        assert(out@ =~= done + seq!['|'] + row_fields(*m, i as int, 0));
        let mut j: usize = 0;
        while j < cols
            invariant
                m.wf(),
                rows == m.nrows(),
                cols == m.ncols(),
                i < rows,
                j <= cols,
                widths@.len() == cols,
                forall|jj: int| 0 <= jj < cols ==> #[trigger] widths@[jj] == col_width(*m, jj, rows as nat),
                out@ == done + seq!['|'] + row_fields(*m, i as int, j as nat),
                " "@ == seq![' '],
            decreases cols - j,
        {
            let s = m.get(i, j);
            let len = s.as_str().unicode_len();
            proof {
                lemma_col_width(*m, j as int, rows as nat, i as int);
            }
            let pad = widths[j] - len;
            let ghost before = out@;
            out.append(" ");
            assert(out@ =~= before + spaces(1));
            let mut k: usize = 0;
            while k < pad
                invariant
                    k <= pad,
                    out@ == before + spaces((k + 1) as nat),
                    " "@ == seq![' '],
                decreases pad - k,
            {
                out.append(" ");
                assert(spaces((k + 1) as nat) + seq![' '] =~= spaces((k + 2) as nat));
                assert(out@ =~= before + spaces((k + 2) as nat));
                k = k + 1;
            }
            out.append(s.as_str());
            out.append(" ");
            assert(field(s@, (widths@[j as int] + 1) as nat) =~= spaces((pad + 1) as nat) + s@);
            assert(out@ =~= done + seq!['|'] + row_fields(*m, i as int, (j + 1) as nat));
            j = j + 1;
        }
        out.append("|\n");
        assert(out@ =~= table_lines(*m, (i + 1) as nat));
        i = i + 1;
    }
    out
}

impl<T: std::fmt::Display> Matrix<T> {
    /// Renders the matrix as a bordered table (see `render_table`), each
    /// element shown through its `Display` text.
    pub fn to_string(&self) -> (r: String)
        requires
            self.wf(),
        ensures
            exists|texts: Matrix<String>|
                {
                    &&& texts.wf()
                    &&& texts.nrows() == self.nrows()
                    &&& texts.ncols() == self.ncols()
                    &&& forall|i: int, j: int|
                        self.valid(i, j) ==> to_string_from_display_ensures::<T>(
                            &self.at(i, j),
                            #[trigger] texts.at(i, j),
                        )
                    &&& r@ == table_text(texts)
                },
    {
        let n = self.data.len();
        let mut cells: Vec<String> = Vec::with_capacity(n);
        let mut k: usize = 0;
        while k < n
            invariant
                n == self.cells().len(),
                k <= n,
                cells@.len() == k,
                forall|m: int|
                    0 <= m < k ==> to_string_from_display_ensures::<T>(
                        &self.cells()[m],
                        #[trigger] cells@[m],
                    ),
            decreases n - k,
        {
            cells.push(self.data[k].to_string());
            k = k + 1;
        }
        let texts = Matrix { data: cells, rows: self.rows, cols: self.cols };
        proof {
            assert forall|i: int, j: int| self.valid(i, j) implies to_string_from_display_ensures::<T>(
                &self.at(i, j),
                #[trigger] texts.at(i, j),
            ) by {
                lemma_offset_in_bounds(self.nrows() as int, self.ncols() as int, i, j);
            }
        }
        render_table(&texts)
    }
}

} // verus!
