//! Output formatting: tables and plain key/value listings.

use vstd::prelude::*;
use vstd::string::StrSliceExecFns;
use vstd::string::StringExecFns;
use vstd::utf8::encode_utf8;
use crate::error::VaultError;
use crate::text::{join, lowercase, push_char, push_str, repeat, repeat_char, spaces, to_lowercase, owned, str_eq};

verus! {

/// How command output is rendered.
#[derive(Debug, Clone, Copy, PartialEq, Eq)]
pub enum OutputFormat {
    Table,
    Json,
    Plain,
}

impl OutputFormat {
    /// Parses a format name, ignoring case: `table`, `json` or `plain`.
    pub fn from_str(s: &str) -> (r: Result<OutputFormat, VaultError>)
        ensures
            lowercase(s@) == "table"@ ==> r == Ok::<OutputFormat, VaultError>(OutputFormat::Table),
            lowercase(s@) == "json"@ ==> r == Ok::<OutputFormat, VaultError>(OutputFormat::Json),
            lowercase(s@) == "plain"@ ==> r == Ok::<OutputFormat, VaultError>(OutputFormat::Plain),
            lowercase(s@) != "table"@ && lowercase(s@) != "json"@ && lowercase(s@) != "plain"@ ==> (r matches Err(e)
                && e is Config && e.msg() == "Unknown output format: '"@ + lowercase(s@)
                + "'. Valid options: table, json, plain"@),
    {
        let l = to_lowercase(s);
        proof {
            reveal_strlit("table");
            reveal_strlit("json");
            reveal_strlit("plain");
            assert("json"@.len() == 4 && "table"@.len() == 5);
            assert("plain"@[0] == 'p' && "table"@[0] == 't');
            assert("json"@ != "table"@ && "plain"@ != "table"@);
        }
        if str_eq(l.as_str(), "table") {
            Ok(OutputFormat::Table)
        } else if str_eq(l.as_str(), "json") {
            Ok(OutputFormat::Json)
        } else if str_eq(l.as_str(), "plain") {
            Ok(OutputFormat::Plain)
        } else {
            let m = String::from_str("Unknown output format: '").concat(l.as_str()).concat(
                "'. Valid options: table, json, plain",
            );
            Err(VaultError::Config(m))
        }
    }

    /// The default format: a table.
    pub fn default() -> (r: OutputFormat)
        ensures
            r == OutputFormat::Table,
    {
        OutputFormat::Table
    }
}

/// The length in bytes of the UTF-8 encoding of `s` (`str::len`).
pub open spec fn blen(s: Seq<char>) -> nat {
    encode_utf8(s).len()
}

/// What `str::len` returns for `s` (its UTF-8 byte length).
pub open spec fn str_len(s: Seq<char>) -> usize {
    blen(s) as usize
}

/// The width of column `i`: the longest byte length among its header and the
/// cells of the rows that have an `i`-th cell.
pub open spec fn col_width(h: Seq<char>, rows: Seq<Seq<Seq<char>>>, i: int) -> nat
    decreases rows.len(),
{
    if rows.len() == 0 {
        blen(h)
    } else {
        let w = col_width(h, rows.drop_last(), i);
        let last = rows.last();
        if 0 <= i < last.len() && blen(last[i]) > w {
            blen(last[i])
        } else {
            w
        }
    }
}

/// The widths of all columns.
pub open spec fn widths(hs: Seq<Seq<char>>, rows: Seq<Seq<Seq<char>>>) -> Seq<nat> {
    Seq::new(hs.len(), |i: int| col_width(hs[i], rows, i))
}

/// `s` padded with spaces to `w` characters (`{:w$}`).
pub open spec fn pad(s: Seq<char>, w: nat) -> Seq<char> {
    if s.len() < w {
        s + spaces((w - s.len()) as nat)
    } else {
        s
    }
}

/// The dashes of each column of a separator line.
pub open spec fn dashes(ws: Seq<nat>) -> Seq<Seq<char>> {
    Seq::new(ws.len(), |i: int| repeat_char('-', ws[i] + 2))
}

/// A separator line.
pub open spec fn sep_line(ws: Seq<nat>) -> Seq<char> {
    "+"@ + join(dashes(ws), "+"@) + "+\n"@
}

/// The padded cells of a row; missing cells are empty.
pub open spec fn row_cells(cells: Seq<Seq<char>>, ws: Seq<nat>) -> Seq<Seq<char>> {
    Seq::new(ws.len(), |i: int| " "@ + pad(if i < cells.len() { cells[i] } else { Seq::empty() }, ws[i]) + " "@)
}

/// A line of the table for `cells`.
pub open spec fn row_line(cells: Seq<Seq<char>>, ws: Seq<nat>) -> Seq<char> {
    "|"@ + join(row_cells(cells, ws), "|"@) + "|\n"@
}

/// The lines of all rows.
pub open spec fn rows_text(rows: Seq<Seq<Seq<char>>>, ws: Seq<nat>) -> Seq<char>
    decreases rows.len(),
{
    if rows.len() == 0 {
        Seq::empty()
    } else {
        rows_text(rows.drop_last(), ws) + row_line(rows.last(), ws)
    }
}

/// The rendered table.
pub open spec fn table(hs: Seq<Seq<char>>, rows: Seq<Seq<Seq<char>>>) -> Seq<char> {
    if rows.len() == 0 {
        "(no entries)\n"@
    } else {
        let ws = widths(hs, rows);
        sep_line(ws) + row_line(hs, ws) + sep_line(ws) + rows_text(rows, ws) + sep_line(ws)
    }
}

/// The headers as character sequences.
pub open spec fn header_views(headers: Seq<&str>) -> Seq<Seq<char>> {
    headers.map_values(|h: &str| h@)
}

/// The rows as sequences of character sequences.
pub open spec fn row_views(rows: Seq<Vec<String>>) -> Seq<Seq<Seq<char>>> {
    rows.map_values(|r: Vec<String>| r@.map_values(|c: String| c@))
}

/// Byte lengths fit the machine (every string does).
pub open spec fn lengths_fit(hs: Seq<Seq<char>>, rows: Seq<Seq<Seq<char>>>) -> bool {
    &&& forall|i: int| 0 <= i < hs.len() ==> blen(#[trigger] hs[i]) <= isize::MAX
    &&& forall|r: int, i: int| 0 <= r < rows.len() && 0 <= i < rows[r].len() ==> blen(#[trigger] rows[r][i]) <= isize::MAX
}

fn byte_len(s: &str) -> (r: usize)
    requires
        blen(s@) <= isize::MAX,
    ensures
        r == blen(s@),
{
    s.len()
}

proof fn lemma_col_width_bound(h: Seq<char>, rows: Seq<Seq<Seq<char>>>, i: int)
    requires
        blen(h) <= isize::MAX,
        forall|r: int, j: int| 0 <= r < rows.len() && 0 <= j < rows[r].len() ==> blen(#[trigger] rows[r][j]) <= isize::MAX,
    ensures
        col_width(h, rows, i) <= isize::MAX,
    decreases rows.len(),
{
    if rows.len() > 0 {
        let rp = rows.drop_last();
        assert forall|r: int, j: int| 0 <= r < rp.len() && 0 <= j < rp[r].len() implies blen(#[trigger] rp[r][j]) <= isize::MAX by {
            assert(rp[r] == rows[r]);
        }
        lemma_col_width_bound(h, rp, i);
        if 0 <= i < rows.last().len() {
            assert(blen(rows[rows.len() - 1][i]) <= isize::MAX);
        }
    }
}

fn column_width(h: &str, rows: &[Vec<String>], i: usize) -> (w: usize)
    requires
        lengths_fit(seq![h@], row_views(rows@)),
    ensures
        w == col_width(h@, row_views(rows@), i as int),
        w <= isize::MAX,
{
    let ghost rv = row_views(rows@);
    assert(seq![h@][0] == h@);
    let mut w = byte_len(h);
    let mut r: usize = 0;
    assert(rv.take(0) =~= Seq::<Seq<Seq<char>>>::empty());
    while r < rows.len()
        invariant
            rv == row_views(rows@),
            lengths_fit(seq![h@], rv),
            r <= rows@.len(),
            w == col_width(h@, rv.take(r as int), i as int),
            w <= isize::MAX,
        decreases rows@.len() - r,
    {
        assert(rv.take(r + 1).drop_last() =~= rv.take(r as int));
        let row = &rows[r];
        if i < row.len() {
            assert(rv[r as int][i as int] == row@[i as int]@);
            let l = byte_len(row[i].as_str());
            if l > w {
                w = l;
            }
        }
        r = r + 1;
    }
    assert(rv.take(rows@.len() as int) =~= rv);
    w
}

fn sep_line_exec(ws: &Vec<usize>) -> (r: String)
    requires
        forall|i: int| 0 <= i < ws@.len() ==> ws@[i] <= isize::MAX,
    ensures
        r@ == sep_line(ws@.map_values(|w: usize| w as nat)),
{
    let ghost wn = ws@.map_values(|w: usize| w as nat);
    let ghost ds = dashes(wn);
    let mut out = String::from_str("+");
    let mut i: usize = 0;
    while i < ws.len()
        invariant
            wn == ws@.map_values(|w: usize| w as nat),
            ds == dashes(wn),
            forall|j: int| 0 <= j < ws@.len() ==> ws@[j] <= isize::MAX,
            i <= ws@.len(),
            out@ == "+"@ + join(ds.take(i as int), "+"@),
        decreases ws@.len() - i,
    {
        assert(ds.take(i + 1).drop_last() =~= ds.take(i as int));
        if i > 0 {
            push_str(&mut out, "+");
        }
        let d = repeat('-', ws[i] + 2);
        push_str(&mut out, d.as_str());
        proof {
            if i == 0 {
                assert(join(ds.take(1), "+"@) == ds[0]);
            }
            assert(ds.take(i + 1).last() == ds[i as int]);
        }
        i = i + 1;
    }
    assert(ds.take(ws@.len() as int) =~= ds);
    push_str(&mut out, "+\n");
    out
}

/// `s` padded on the left with spaces to `w` characters (`{:>w}`).
pub open spec fn lpad(s: Seq<char>, w: nat) -> Seq<char> {
    if s.len() < w {
        spaces((w - s.len()) as nat) + s
    } else {
        s
    }
}

/// `s` padded on the right with spaces to `w` characters (`{:<w}`).
pub fn pad_right(s: &str, w: usize) -> (r: String)
    ensures
        r@ == pad(s@, w as nat),
{
    let n = s.unicode_len();
    let mut out = owned(s);
    if n < w {
        let sp = repeat(' ', w - n);
        assert(sp@ =~= spaces((w - n) as nat));
        push_str(&mut out, sp.as_str());
    }
    out
}

/// `s` padded on the left with spaces to `w` characters (`{:>w}`).
pub fn pad_left(s: &str, w: usize) -> (r: String)
    ensures
        r@ == lpad(s@, w as nat),
{
    let n = s.unicode_len();
    if n < w {
        let mut out = repeat(' ', w - n);
        assert(out@ =~= spaces((w - n) as nat));
        push_str(&mut out, s);
        out
    } else {
        owned(s)
    }
}

fn padded_cell(s: &str, w: usize) -> (r: String)
    ensures
        r@ == " "@ + pad(s@, w as nat) + " "@,
{
    let n = s.unicode_len();
    let mut out = String::from_str(" ");
    push_str(&mut out, s);
    if n < w {
        let sp = repeat(' ', w - n);
        assert(sp@ =~= spaces((w - n) as nat));
        push_str(&mut out, sp.as_str());
    }
    push_str(&mut out, " ");
    out
}

fn row_line_exec(cells: &Vec<String>, ws: &Vec<usize>) -> (r: String)
    ensures
        r@ == row_line(cells@.map_values(|c: String| c@), ws@.map_values(|w: usize| w as nat)),
{
    let ghost cv = cells@.map_values(|c: String| c@);
    let ghost wn = ws@.map_values(|w: usize| w as nat);
    let ghost ps = row_cells(cv, wn);
    let mut out = String::from_str("|");
    let mut i: usize = 0;
    while i < ws.len()
        invariant
            cv == cells@.map_values(|c: String| c@),
            wn == ws@.map_values(|w: usize| w as nat),
            ps == row_cells(cv, wn),
            i <= ws@.len(),
            out@ == "|"@ + join(ps.take(i as int), "|"@),
        decreases ws@.len() - i,
    {
        assert(ps.take(i + 1).drop_last() =~= ps.take(i as int));
        if i > 0 {
            push_str(&mut out, "|");
        }
        let c = if i < cells.len() {
            padded_cell(cells[i].as_str(), ws[i])
        } else {
            padded_cell("", ws[i])
        };
        proof {
            if i >= cells.len() {
                assert(""@ =~= Seq::<char>::empty()) by { reveal_strlit(""); }
            }
            assert(c@ == ps[i as int]);
            if i == 0 {
                assert(join(ps.take(1), "|"@) == ps[0]);
            }
            assert(ps.take(i + 1).last() == ps[i as int]);
        }
        push_str(&mut out, c.as_str());
        i = i + 1;
    }
    assert(ps.take(ws@.len() as int) =~= ps);
    push_str(&mut out, "|\n");
    out
}

/// Renders `rows` under `headers` as a table with `+---+` borders. Each column
/// is as wide as its longest header or cell (in bytes); cells are padded with
/// spaces, missing cells are empty and cells beyond the headers are left out.
/// With no rows the result is `(no entries)`.
pub fn render_table(headers: &[&str], rows: &[Vec<String>]) -> (r: String)
    requires
        lengths_fit(header_views(headers@), row_views(rows@)),
    ensures
        r@ == table(header_views(headers@), row_views(rows@)),
{
    let ghost hv = header_views(headers@);
    let ghost rv = row_views(rows@);
    if rows.len() == 0 {
        return String::from_str("(no entries)\n");
    }
    let col_count = headers.len();
    let mut ws: Vec<usize> = Vec::new();
    let mut hs: Vec<String> = Vec::new();
    let mut i: usize = 0;
    while i < col_count
        invariant
            hv == header_views(headers@),
            rv == row_views(rows@),
            lengths_fit(hv, rv),
            col_count == headers@.len(),
            i <= col_count,
            ws@.len() == i,
            hs@.len() == i,
            forall|j: int| 0 <= j < i ==> ws@[j] == col_width(hv[j], rv, j) && ws@[j] <= isize::MAX,
            forall|j: int| 0 <= j < i ==> #[trigger] hs@[j]@ == hv[j],
        decreases col_count - i,
    {
        assert(hv[i as int] == headers@[i as int]@);
        assert(lengths_fit(seq![headers@[i as int]@], rv)) by {
            assert(seq![headers@[i as int]@][0] == hv[i as int]);
        }
        let w = column_width(headers[i], rows, i);
        ws.push(w);
        hs.push(owned(headers[i]));
        i = i + 1;
    }
    let ghost wn = ws@.map_values(|w: usize| w as nat);
    assert(wn =~= widths(hv, rv));
    assert(hs@.map_values(|c: String| c@) =~= hv);
    let sep = sep_line_exec(&ws);
    let mut out = String::new();
    push_str(&mut out, sep.as_str());
    let header = row_line_exec(&hs, &ws);
    push_str(&mut out, header.as_str());
    push_str(&mut out, sep.as_str());
    let ghost prefix = out@;
    let mut r: usize = 0;
    assert(rv.take(0) =~= Seq::<Seq<Seq<char>>>::empty());
    while r < rows.len()
        invariant
            rv == row_views(rows@),
            wn == widths(hv, rv),
            wn == ws@.map_values(|w: usize| w as nat),
            r <= rows@.len(),
            out@ == prefix + rows_text(rv.take(r as int), wn),
        decreases rows@.len() - r,
    {
        assert(rv.take(r + 1).drop_last() =~= rv.take(r as int));
        let line = row_line_exec(&rows[r], &ws);
        assert(rv[r as int] == rows@[r as int]@.map_values(|c: String| c@));
        push_str(&mut out, line.as_str());
        assert(out@ =~= prefix + rows_text(rv.take(r + 1), wn));
        r = r + 1;
    }
    assert(rv.take(rows@.len() as int) =~= rv);
    push_str(&mut out, sep.as_str());
    out
}

/// The lines of `render_plain`.
pub open spec fn plain_lines(pairs: Seq<(String, String)>) -> Seq<Seq<char>> {
    pairs.map_values(|p: (String, String)| p.0@ + ": "@ + p.1@)
}

/// Renders pairs as `key: value` lines, each ending with a newline.
pub fn render_plain(pairs: &[(String, String)]) -> (r: String)
    ensures
        r@ == join(plain_lines(pairs@), "\n"@) + "\n"@,
{
    let ghost ls = plain_lines(pairs@);
    let mut out = String::new();
    let mut i: usize = 0;
    while i < pairs.len()
        invariant
            ls == plain_lines(pairs@),
            i <= pairs@.len(),
            out@ == join(ls.take(i as int), "\n"@),
        decreases pairs@.len() - i,
    {
        assert(ls.take(i + 1).drop_last() =~= ls.take(i as int));
        if i > 0 {
            push_str(&mut out, "\n");
        }
        let ghost before = out@;
        push_str(&mut out, pairs[i].0.as_str());
        push_str(&mut out, ": ");
        push_str(&mut out, pairs[i].1.as_str());
        proof {
            assert(ls[i as int] == pairs@[i as int].0@ + ": "@ + pairs@[i as int].1@);
            if i == 0 {
                assert(join(ls.take(1), "\n"@) == ls[0]);
                assert(out@ =~= ls[0]);
            } else {
                assert(out@ =~= before + ls[i as int]);
            }
        }
        i = i + 1;
    }
    assert(ls.take(pairs@.len() as int) =~= ls);
    push_str(&mut out, "\n");
    out
}

} // verus!
