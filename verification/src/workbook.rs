//! Tables of text as a spreadsheet workbook.

use rust_xlsxwriter::{Workbook, Worksheet};
use vstd::prelude::*;
use vstd::string::*;

use crate::text::push_decimal;
use crate::text;

verus! {

/// `rust_xlsxwriter::Worksheet`, a sheet that is being filled.
#[verifier::external_type_specification]
#[verifier::external_body]
pub struct ExWorksheet(Worksheet);

/// `rust_xlsxwriter::Workbook`, the sheets of a file.
#[verifier::external_type_specification]
#[verifier::external_body]
pub struct ExWorkbook(Workbook);

/// The texts that a sheet holds, by row and column.
pub uninterp spec fn sheet_cells(w: Worksheet) -> Map<(int, int), Seq<char>>;

/// The texts of the sheets that a workbook holds.
pub uninterp spec fn book_cells(b: Workbook) -> Seq<Map<(int, int), Seq<char>>>;

/// The texts of the sheets that the bytes of a workbook file hold. Only of plain
/// texts are they known: others are written with escapes that can coincide.
pub uninterp spec fn file_cells(bytes: Seq<u8>) -> Seq<Map<(int, int), Seq<char>>>;

/// Code units of a text in UTF-16.
pub open spec fn utf16_len(s: Seq<char>) -> nat
    decreases s.len(),
{
    if s.len() == 0 {
        0
    } else {
        utf16_len(s.drop_last()) + (if (s.last() as int) >= 0x10000 {
            2nat
        } else {
            1nat
        })
    }
}

/// Why a cell cannot take a text.
pub open spec fn cell_problem(row: int, col: int, s: Seq<char>) -> Option<Seq<char>> {
    if s.len() == 0 {
        None
    } else if row >= 1_048_576 || col >= 16_384 {
        Some("Row or column exceeds Excel's allowed limits (1,048,576 x 16,384)."@)
    } else if utf16_len(s) > 32_767 {
        Some("String exceeds Excel's limit of 32,767 characters."@)
    } else {
        None
    }
}

/// The cells with one more text; an empty text leaves no trace.
pub open spec fn with_cell(
    cells: Map<(int, int), Seq<char>>,
    row: int,
    col: int,
    s: Seq<char>,
) -> Map<(int, int), Seq<char>> {
    if s.len() == 0 {
        cells
    } else {
        cells.insert((row, col), s)
    }
}

/// No cells at all.
pub open spec fn no_cells() -> Map<(int, int), Seq<char>> {
    Map::empty()
}

/// Two characters stand next to each other in a text.
pub open spec fn has_pair(s: Seq<char>, a: char, b: char) -> bool {
    exists|i: int| 0 <= i < s.len() - 1 && #[trigger] s[i] == a && s[i + 1] == b
}

/// A text that a workbook file holds as it is: nothing that looks like an
/// escape, no control character but tab and line feed, none of the two last
/// characters of the first plane, and not the markup of rich text.
pub open spec fn plain_text(s: Seq<char>) -> bool {
    &&& !has_pair(s, '_', 'x')
    &&& forall|i: int|
        0 <= i < s.len() ==> ((#[trigger] s[i]) as int >= 0x20 || s[i] == '\t' || s[i] == '\n')
            && s[i] as int != 0xfffe && s[i] as int != 0xffff
    &&& !(text::begins(s, "<r>"@) && text::ends(s, "</r>"@))
}

/// All texts of a sheet are plain.
pub open spec fn plain_cells(cells: Map<(int, int), Seq<char>>) -> bool {
    forall|at: (int, int)| #[trigger] cells.dom().contains(at) ==> plain_text(cells[at])
}

/// All texts of a table are plain.
pub open spec fn plain_rows(rows: Seq<Seq<Seq<char>>>) -> bool {
    forall|i: int, j: int|
        0 <= i < rows.len() && 0 <= j < rows[i].len() ==> plain_text(#[trigger] rows[i][j])
}

/// `rust_xlsxwriter::Worksheet::new`: a sheet without cells.
#[verifier::external_body]
fn new_sheet() -> (w: Worksheet)
    ensures
        sheet_cells(w) == no_cells(),
{
    Worksheet::new()
}

/// `rust_xlsxwriter::Worksheet::set_name`: the cells stay as they are. Names
/// of up to 31 ASCII letters and digits are accepted; the error is given as
/// its text.
#[verifier::external_body]
fn name_sheet(w: &mut Worksheet, name: &str) -> (r: Result<(), String>)
    ensures
        sheet_cells(*final(w)) == sheet_cells(*old(w)),
        0 < name@.len() <= 31 && (forall|i: int|
            0 <= i < name@.len() ==> text::is_ascii_alnum(#[trigger] name@[i])) ==> r is Ok,
{
    w.set_name(name).map(|_| ()).map_err(|e| e.to_string())
}

/// `rust_xlsxwriter::Worksheet::write_string`: the text goes into the cell,
/// unless it is empty; cells past the limits and texts that are too long are
/// refused, with the error given as its text.
#[verifier::external_body]
fn write_cell(w: &mut Worksheet, row: u32, col: u16, s: &str) -> (r: Result<(), String>)
    ensures
        match r {
            Ok(_) => cell_problem(row as int, col as int, s@) is None && sheet_cells(*final(w))
                == with_cell(sheet_cells(*old(w)), row as int, col as int, s@),
            Err(e) => cell_problem(row as int, col as int, s@) == Some(e@) && sheet_cells(
                *final(w),
            ) == sheet_cells(*old(w)),
        },
{
    w.write_string(row, col, s).map(|_| ()).map_err(|e| e.to_string())
}

/// `rust_xlsxwriter::Workbook::new`: a workbook without sheets.
#[verifier::external_body]
fn new_book() -> (b: Workbook)
    ensures
        book_cells(b).len() == 0,
{
    Workbook::new()
}

/// `rust_xlsxwriter::Workbook::push_worksheet`: the sheet comes behind those
/// that are there.
#[verifier::external_body]
fn push_sheet(b: &mut Workbook, w: Worksheet)
    ensures
        book_cells(*final(b)) == book_cells(*old(b)).push(sheet_cells(w)),
{
    b.push_worksheet(w);
}

/// `rust_xlsxwriter::Workbook::save_to_buffer`: where all texts are plain, a
/// file that holds the cells of the workbook's sheets. Of a file with other
/// texts nothing is said: control characters and what looks like their escapes
/// can be written alike, and a text in the markup of rich text loses it. The
/// bytes also tell when they were made, so they are not the same each time;
/// when saving fails nothing says. The error is given as its text.
#[verifier::external_body]
fn save_book(b: &mut Workbook) -> (r: Result<Vec<u8>, String>)
    requires
        book_cells(*old(b)).len() > 0,
    ensures
        r matches Ok(bytes) ==> (forall|i: int|
            0 <= i < book_cells(*old(b)).len() ==> plain_cells(#[trigger] book_cells(*old(b))[i]))
            ==> file_cells(bytes@) == book_cells(*old(b)),
{
    b.save_to_buffer().map_err(|e| e.to_string())
}

/// The cells of a table, row by row.
pub open spec fn table_cells(rows: Seq<Seq<Seq<char>>>) -> Map<(int, int), Seq<char>>
    decreases rows.len(),
{
    if rows.len() == 0 {
        Map::empty()
    } else {
        row_cells(table_cells(rows.drop_last()), rows.len() - 1, rows.last())
    }
}

/// Cells with one more row.
pub open spec fn row_cells(
    cells: Map<(int, int), Seq<char>>,
    row: int,
    texts: Seq<Seq<char>>,
) -> Map<(int, int), Seq<char>>
    decreases texts.len(),
{
    if texts.len() == 0 {
        cells
    } else {
        with_cell(row_cells(cells, row, texts.drop_last()), row, texts.len() - 1, texts.last())
    }
}

/// Why a row cannot be written: the problem of its first cell that has one.
pub open spec fn row_problem(row: int, texts: Seq<Seq<char>>) -> Option<Seq<char>>
    decreases texts.len(),
{
    if texts.len() == 0 {
        None
    } else {
        match row_problem(row, texts.drop_last()) {
            Some(e) => Some(e),
            None => cell_problem(row, texts.len() - 1, texts.last()),
        }
    }
}

/// Write a row.
fn write_row(w: &mut Worksheet, row: u32, texts: &Vec<String>) -> (r: Result<(), String>)
    requires
        texts@.len() <= u16::MAX,
    ensures
        match r {
            Ok(_) => row_problem(row as int, text::texts(texts@)) is None && sheet_cells(*final(w))
                == row_cells(sheet_cells(*old(w)), row as int, text::texts(texts@)),
            Err(e) => row_problem(row as int, text::texts(texts@)) == Some(e@),
        },
{
    let ghost all = text::texts(texts@);
    let ghost before = sheet_cells(*w);
    let mut i: usize = 0;
    assert(all.subrange(0, 0) =~= Seq::empty());
    while i < texts.len()
        invariant
            i <= texts@.len() <= u16::MAX,
            all == text::texts(texts@),
            row_problem(row as int, all.subrange(0, i as int)) is None,
            sheet_cells(*w) == row_cells(before, row as int, all.subrange(0, i as int)),
        decreases texts@.len() - i,
    {
        assert(all.subrange(0, i + 1).drop_last() =~= all.subrange(0, i as int));
        assert(all.subrange(0, i + 1).last() == texts@[i as int]@);
        match write_cell(w, row, i as u16, texts[i].as_str()) {
            Ok(_) => {},
            Err(e) => {
                proof {
                    lemma_row_problem(row as int, all, i + 1);
                }
                return Err(e);
            },
        }
        i = i + 1;
    }
    assert(all.subrange(0, i as int) =~= all);
    Ok(())
}

proof fn lemma_row_problem(row: int, texts: Seq<Seq<char>>, n: int)
    requires
        0 <= n <= texts.len(),
        row_problem(row, texts.subrange(0, n)) is Some,
    ensures
        row_problem(row, texts) == row_problem(row, texts.subrange(0, n)),
    decreases texts.len(),
{
    if n == texts.len() {
        assert(texts.subrange(0, n) =~= texts);
    } else {
        let t = texts.drop_last();
        assert(t.subrange(0, n) =~= texts.subrange(0, n));
        lemma_row_problem(row, t, n);
    }
}

/// The first row that cannot be written is at this place.
pub open spec fn first_problem(rows: Seq<Seq<Seq<char>>>, i: int) -> bool {
    &&& 0 <= i < rows.len()
    &&& row_problem(i, rows[i]) is Some
    &&& forall|j: int| 0 <= j < i ==> row_problem(j, #[trigger] rows[j]) is None
}

/// The words for a row that cannot be written; the first row is the header.
pub open spec fn problem_text(row: int, why: Seq<char>) -> Seq<char> {
    if row == 0 {
        "xlsx header: "@ + why
    } else {
        "xlsx row "@ + text::decimal(row as nat) + ": "@ + why
    }
}

/// The texts of a table, row by row.
pub open spec fn table_texts(rows: Seq<Vec<String>>) -> Seq<Seq<Seq<char>>> {
    rows.map_values(|r: Vec<String>| text::texts(r@))
}

proof fn lemma_plain_row(
    cells: Map<(int, int), Seq<char>>,
    row: int,
    texts: Seq<Seq<char>>,
)
    requires
        plain_cells(cells),
        forall|j: int| 0 <= j < texts.len() ==> plain_text(#[trigger] texts[j]),
    ensures
        plain_cells(row_cells(cells, row, texts)),
    decreases texts.len(),
{
    if texts.len() > 0 {
        let front = texts.drop_last();
        assert forall|j: int| 0 <= j < front.len() implies plain_text(#[trigger] front[j]) by {
            assert(front[j] == texts[j]);
        }
        lemma_plain_row(cells, row, front);
        assert(plain_text(texts[texts.len() - 1]));
    }
}

/// A table of plain texts makes a sheet of plain texts.
pub proof fn plain_rows_make_plain_cells(rows: Seq<Seq<Seq<char>>>)
    requires
        plain_rows(rows),
    ensures
        plain_cells(table_cells(rows)),
    decreases rows.len(),
{
    if rows.len() > 0 {
        let front = rows.drop_last();
        assert forall|i: int, j: int| 0 <= i < front.len() && 0 <= j < front[i].len() implies plain_text(
            #[trigger] front[i][j],
        ) by {
            assert(front[i][j] == rows[i][j]);
        }
        plain_rows_make_plain_cells(front);
        let last = rows.last();
        assert forall|j: int| 0 <= j < last.len() implies plain_text(#[trigger] last[j]) by {
            assert(rows[rows.len() - 1][j] == last[j]);
        }
        lemma_plain_row(table_cells(front), rows.len() - 1, last);
    }
}

/// A sheet that holds a table. A table is refused exactly for its first row
/// that breaks a limit.
pub fn fill_sheet(name: &str, rows: &Vec<Vec<String>>) -> (r: Result<Worksheet, String>)
    requires
        0 < name@.len() <= 31,
        forall|i: int| 0 <= i < name@.len() ==> text::is_ascii_alnum(#[trigger] name@[i]),
        rows@.len() <= u32::MAX,
        forall|i: int| 0 <= i < rows@.len() ==> (#[trigger] rows@[i])@.len() <= u16::MAX,
    ensures
        match r {
            Ok(w) => (forall|i: int| !first_problem(table_texts(rows@), i)) && sheet_cells(w)
                == table_cells(table_texts(rows@)),
            Err(m) => exists|i: int| #[trigger]
                first_problem(table_texts(rows@), i) && m@ == problem_text(
                    i,
                    row_problem(i, table_texts(rows@)[i])->0,
                ),
        },
{
    let ghost all = table_texts(rows@);
    let mut sheet = new_sheet();
    match name_sheet(&mut sheet, name) {
        Ok(_) => {},
        Err(e) => {
            return Err(e);
        },
    }
    let mut i: usize = 0;
    assert(all.subrange(0, 0) =~= Seq::empty());
    while i < rows.len()
        invariant
            i <= rows@.len(),
            all == table_texts(rows@),
            rows@.len() <= u32::MAX,
            forall|k: int| 0 <= k < rows@.len() ==> (#[trigger] rows@[k])@.len() <= u16::MAX,
            forall|j: int| 0 <= j < i ==> row_problem(j, #[trigger] all[j]) is None,
            sheet_cells(sheet) == table_cells(all.subrange(0, i as int)),
        decreases rows@.len() - i,
    {
        assert(all[i as int] == text::texts(rows@[i as int]@));
        assert(all.subrange(0, i + 1).drop_last() =~= all.subrange(0, i as int));
        match write_row(&mut sheet, i as u32, &rows[i]) {
            Ok(_) => {},
            Err(e) => {
                assert(first_problem(all, i as int));
                if i == 0 {
                    let mut s = String::from_str("xlsx header: ");
                    s.append(e.as_str());
                    return Err(s);
                }
                let mut s = String::from_str("xlsx row ");
                push_decimal(&mut s, i as u64);
                s.append(": ");
                s.append(e.as_str());
                return Err(s);
            },
        }
        i = i + 1;
    }
    assert(all.subrange(0, i as int) =~= all);
    assert forall|k: int| !first_problem(all, k) by {
        if 0 <= k < all.len() {
            assert(row_problem(k, all[k]) is None);
        }
    }
    Ok(sheet)
}

/// A workbook with one sheet that holds a table. Saving may fail on its own
/// account; apart from that, a table is refused exactly for its first row that
/// breaks a limit.
pub fn pack_table(name: &str, rows: &Vec<Vec<String>>) -> (r: Result<Vec<u8>, String>)
    requires
        0 < name@.len() <= 31,
        forall|i: int| 0 <= i < name@.len() ==> text::is_ascii_alnum(#[trigger] name@[i]),
        rows@.len() <= u32::MAX,
        forall|i: int| 0 <= i < rows@.len() ==> (#[trigger] rows@[i])@.len() <= u16::MAX,
    ensures
        match r {
            Ok(bytes) => (forall|i: int| !first_problem(table_texts(rows@), i)) && (plain_rows(
                table_texts(rows@),
            ) ==> file_cells(bytes@) == seq![table_cells(table_texts(rows@))]),
            Err(m) => {
                ||| (forall|i: int| !first_problem(table_texts(rows@), i)) && text::begins(
                    m@,
                    "xlsx pack: "@,
                )
                ||| exists|i: int| #[trigger]
                    first_problem(table_texts(rows@), i) && m@ == problem_text(
                        i,
                        row_problem(i, table_texts(rows@)[i])->0,
                    )
            },
        },
{
    let ghost all = table_texts(rows@);
    let sheet = match fill_sheet(name, rows) {
        Ok(w) => w,
        Err(e) => {
            return Err(e);
        },
    };
    let mut book = new_book();
    push_sheet(&mut book, sheet);
    assert(book_cells(book) =~= seq![table_cells(all)]);
    proof {
        if plain_rows(all) {
            plain_rows_make_plain_cells(all);
        }
    }
    match save_book(&mut book) {
        Ok(bytes) => Ok(bytes),
        Err(e) => {
            let mut s = String::from_str("xlsx pack: ");
            s.append(e.as_str());
            assert(s@.subrange(0, "xlsx pack: "@.len() as int) =~= "xlsx pack: "@);
            Err(s)
        },
    }
}

proof fn lemma_row_cells(
    cells: Map<(int, int), Seq<char>>,
    row: int,
    texts: Seq<Seq<char>>,
    r: int,
    c: int,
)
    ensures
        r != row ==> (row_cells(cells, row, texts).dom().contains((r, c)) <==> cells.dom().contains((r, c)))
            && (cells.dom().contains((r, c)) ==> row_cells(cells, row, texts)[(r, c)] == cells[(r, c)]),
        0 <= c < texts.len() && texts[c].len() > 0 ==> row_cells(cells, row, texts).dom().contains(
            (row, c),
        ) && row_cells(cells, row, texts)[(row, c)] == texts[c],
        !cells.dom().contains((row, c)) && !(0 <= c < texts.len() && texts[c].len() > 0) ==> !row_cells(
            cells,
            row,
            texts,
        ).dom().contains((row, c)),
    decreases texts.len(),
{
    if texts.len() > 0 {
        lemma_row_cells(cells, row, texts.drop_last(), r, c);
    }
}

/// A table lies on its sheet as it is: each text in the cell of its row and
/// column, and no cell where there is no text.
pub proof fn tables_lie_as_they_are(rows: Seq<Seq<Seq<char>>>, r: int, c: int)
    ensures
        table_cells(rows).dom().contains((r, c)) <==> 0 <= r < rows.len() && 0 <= c < rows[r].len()
            && rows[r][c].len() > 0,
        0 <= r < rows.len() && 0 <= c < rows[r].len() && rows[r][c].len() > 0 ==> table_cells(rows)[(r, c)]
            == rows[r][c],
    decreases rows.len(),
{
    if rows.len() > 0 {
        let front = rows.drop_last();
        let n = rows.len() - 1;
        tables_lie_as_they_are(front, r, c);
        lemma_row_cells(table_cells(front), n, rows.last(), r, c);
        if r < n && 0 <= r {
            assert(front[r] == rows[r]);
        }
    }
}

/// A text is refused exactly where it lies outside of the largest sheet, or is
/// longer than a cell takes; no text never is.
pub proof fn sheets_have_their_limits(row: int, col: int, s: Seq<char>)
    ensures
        cell_problem(row, col, s) is None <==> s.len() == 0 || (row < 1_048_576 && col < 16_384
            && utf16_len(s) <= 32_767),
{
}

} // verus!
