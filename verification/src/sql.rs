//! Reading the result page of the ErogameScape SQL form into a table.
use vstd::prelude::*;
use vstd::string::StringExecFns;

use crate::deserializer::DeserializeError;
use crate::error::{Error, ErrorView};
use crate::html::{html_nested_text_nodes, html_text_nodes, select_nested_text_nodes, select_text_nodes};
use crate::text::{join_texts, same_text, trim, trimmed};

verus! {

/// The rows of a result page, ready to be turned into values one by one.
#[derive(Debug)]
pub struct SqlTable {
    /// The column names, from the first row of the result table.
    pub headers: Vec<String>,
    /// The data rows in page order, up to the first one whose number of
    /// cells differs from the number of headers.
    pub rows: Vec<Vec<String>>,
    /// The error for that first malformed row, to be reported once the rows
    /// before it have been read.
    pub trailing_error: Option<Error>,
}

/// An [`SqlTable`] with its texts as characters.
pub struct SqlTableView {
    pub headers: Seq<Seq<char>>,
    pub rows: Seq<Seq<Seq<char>>>,
    pub trailing_error: Option<ErrorView>,
}

impl View for SqlTable {
    type V = SqlTableView;

    open spec fn view(&self) -> SqlTableView {
        SqlTableView {
            headers: self.headers.deep_view(),
            rows: self.rows.deep_view(),
            trailing_error: match self.trailing_error {
                Some(e) => Some(e@),
                None => None,
            },
        }
    }
}

/// The outcome of reading a result page, seen through views.
pub open spec fn outcome_view(r: Result<SqlTable, Error>) -> Result<SqlTableView, ErrorView> {
    match r {
        Ok(t) => Ok(t@),
        Err(e) => Err(e@),
    }
}

/// The title the site gives a page for SQL it could not run.
pub open spec fn sql_error_title() -> Seq<char> {
    "エラー(SQL間違い)"@
}

/// The message for a data row whose number of cells is not the number of headers.
pub open spec fn column_mismatch_message() -> Seq<char> {
    "The number of columns is different from the number of headers."@
}

/// The message for a selector that `scraper` does not accept.
pub open spec fn invalid_selector_message() -> Seq<char> {
    "Invalid selector"@
}

/// Each cell's text nodes put end to end.
pub open spec fn joined_cells(cells: Seq<Seq<Seq<char>>>) -> Seq<Seq<char>> {
    cells.map_values(|nodes: Seq<Seq<char>>| nodes.flatten())
}

/// How many rows from the start have exactly `width` cells.
pub open spec fn accepted_rows(rows: Seq<Seq<Seq<char>>>, width: nat) -> nat
    decreases rows.len(),
{
    if rows.len() == 0 {
        0
    } else if rows[0].len() == width {
        1 + accepted_rows(rows.drop_first(), width)
    } else {
        0
    }
}

/// The table made of a header row and the data rows: rows are kept up to the
/// first one of another width, which becomes the trailing error.
pub open spec fn table_of(headers: Seq<Seq<char>>, rows: Seq<Seq<Seq<char>>>) -> SqlTableView {
    let n = accepted_rows(rows, headers.len());
    SqlTableView {
        headers,
        rows: rows.take(n as int),
        trailing_error: if n < rows.len() {
            Some(ErrorView::HtmlParse(column_mismatch_message()))
        } else {
            None
        },
    }
}

/// What a result page reads as, given what its selectors find: `titles`, the
/// text nodes of each `#query_result_header`; `mains`, those of each
/// `#query_result_main`; `ths` and `tds`, for each row of
/// `#query_result_main`, the text nodes of its `th` and of its `td` cells
/// (none where a selector is not valid). The title is the first text node
/// of the first header; for the error title the outcome is the text of the
/// first `#query_result_main`; otherwise the `th` cells of the first row are
/// the headers and the `td` cells of each later row are the data.
pub open spec fn page_outcome(
    titles: Option<Seq<Seq<Seq<char>>>>,
    mains: Option<Seq<Seq<Seq<char>>>>,
    ths: Option<Seq<Seq<Seq<Seq<char>>>>>,
    tds: Option<Seq<Seq<Seq<Seq<char>>>>>,
) -> Result<SqlTableView, ErrorView> {
    match titles {
        None => Err(ErrorView::HtmlParse(invalid_selector_message())),
        Some(titles) => if titles.len() == 0 || titles[0].len() == 0 {
            Err(ErrorView::HtmlParse("No result title"@))
        } else if trimmed(titles[0][0]) == sql_error_title() {
            match mains {
                None => Err(ErrorView::HtmlParse(invalid_selector_message())),
                Some(mains) => if mains.len() == 0 {
                    Err(ErrorView::HtmlParse("No error message"@))
                } else {
                    Err(ErrorView::SqlExecute(mains[0].flatten()))
                },
            }
        } else {
            match (ths, tds) {
                (Some(ths), Some(tds)) => if ths.len() == 0 {
                    Ok(SqlTableView { headers: seq![], rows: seq![], trailing_error: None })
                } else {
                    let data = if tds.len() == 0 {
                        seq![]
                    } else {
                        tds.drop_first()
                    };
                    Ok(table_of(joined_cells(ths[0]), data.map_values(|r| joined_cells(r))))
                },
                _ => Err(ErrorView::HtmlParse(invalid_selector_message())),
            }
        },
    }
}

/// What a result page with HTML `html` reads as, through what `scraper`
/// finds for each selector.
pub open spec fn sql_response(html: Seq<char>) -> Result<SqlTableView, ErrorView> {
    page_outcome(
        html_text_nodes(html, "#query_result_header"@),
        html_text_nodes(html, "#query_result_main"@),
        html_nested_text_nodes(html, "#query_result_main tr"@, "th"@),
        html_nested_text_nodes(html, "#query_result_main tr"@, "td"@),
    )
}

proof fn lemma_accepted_rows_bound(rows: Seq<Seq<Seq<char>>>, width: nat)
    ensures
        accepted_rows(rows, width) <= rows.len(),
    decreases rows.len(),
{
    if rows.len() > 0 && rows[0].len() == width {
        lemma_accepted_rows_bound(rows.drop_first(), width);
    }
}

/// The rows kept are the data rows from the start, as long as each has one
/// cell per header; the table ends with an error exactly when a row was left
/// out, and the first row left out has another width.
pub proof fn law_table_keeps_rows_up_to_a_bad_width(
    headers: Seq<Seq<char>>,
    rows: Seq<Seq<Seq<char>>>,
)
    ensures
        ({
            let t = table_of(headers, rows);
            &&& t.headers == headers
            &&& t.rows.is_prefix_of(rows)
            &&& forall|i: int| 0 <= i < t.rows.len() ==> (#[trigger] t.rows[i]).len() == headers.len()
            &&& t.trailing_error is None <==> t.rows.len() == rows.len()
            &&& t.trailing_error is Some ==> rows[t.rows.len() as int].len() != headers.len()
                && t.trailing_error == Some(ErrorView::HtmlParse(column_mismatch_message()))
        }),
    decreases rows.len(),
{
    let w = headers.len();
    let n = accepted_rows(rows, w);
    lemma_accepted_rows_bound(rows, w);
    if rows.len() > 0 && rows[0].len() == w {
        law_table_keeps_rows_up_to_a_bad_width(headers, rows.drop_first());
        let m = accepted_rows(rows.drop_first(), w);
        lemma_accepted_rows_bound(rows.drop_first(), w);
        assert(n == m + 1);
        assert(rows.take(n as int) =~= seq![rows[0]] + rows.drop_first().take(m as int));
        assert forall|i: int| 0 <= i < n implies (#[trigger] rows.take(n as int)[i]).len() == w by {
            if i > 0 {
                assert(rows.take(n as int)[i] == rows.drop_first().take(m as int)[i - 1]);
            }
        }
        if n < rows.len() {
            assert(rows[n as int] == rows.drop_first()[m as int]);
        }
    }
    assert(rows.take(n as int).is_prefix_of(rows)) by {
        assert(rows.subrange(0, n as int) =~= rows.take(n as int));
    }
}

/// A page titled with the SQL error never gives a table: it gives the site's
/// message, the text of the first `#query_result_main` put end to end.
pub proof fn law_error_page_gives_the_site_message(
    titles: Seq<Seq<Seq<char>>>,
    mains: Seq<Seq<Seq<char>>>,
    ths: Option<Seq<Seq<Seq<Seq<char>>>>>,
    tds: Option<Seq<Seq<Seq<Seq<char>>>>>,
)
    requires
        titles.len() > 0,
        titles[0].len() > 0,
        trimmed(titles[0][0]) == sql_error_title(),
        mains.len() > 0,
    ensures
        page_outcome(Some(titles), Some(mains), ths, tds) == Err::<SqlTableView, ErrorView>(
            ErrorView::SqlExecute(mains[0].flatten()),
        ),
{
}

/// A page with another title and with result rows gives a table whose headers
/// are the texts of the first row's `th` cells and whose rows are taken, in
/// order, from the `td` cells of the rows after it.
pub proof fn law_result_page_gives_the_first_row_as_headers(
    titles: Seq<Seq<Seq<char>>>,
    mains: Option<Seq<Seq<Seq<char>>>>,
    ths: Seq<Seq<Seq<Seq<char>>>>,
    tds: Seq<Seq<Seq<Seq<char>>>>,
)
    requires
        titles.len() > 0,
        titles[0].len() > 0,
        trimmed(titles[0][0]) != sql_error_title(),
        ths.len() > 0,
        tds.len() > 0,
    ensures
        page_outcome(Some(titles), mains, Some(ths), Some(tds)) matches Ok(t) && t.headers.len()
            == ths[0].len() && (forall|j: int|
            0 <= j < ths[0].len() ==> #[trigger] t.headers[j] == ths[0][j].flatten()) && t.rows.len()
            <= tds.len() - 1 && (forall|i: int, j: int|
            0 <= i < t.rows.len() && 0 <= j < t.rows[i].len() ==> #[trigger] t.rows[i][j] == tds[i
                + 1][j].flatten()),
{
    let data = tds.drop_first().map_values(|r| joined_cells(r));
    let headers = joined_cells(ths[0]);
    law_table_keeps_rows_up_to_a_bad_width(headers, data);
    let t = table_of(headers, data);
    assert forall|i: int, j: int| 0 <= i < t.rows.len() && 0 <= j < t.rows[i].len() implies #[trigger] t.rows[i][j]
        == tds[i + 1][j].flatten() by {
        assert(t.rows[i] == data[i]);
        assert(data[i] == joined_cells(tds[i + 1]));
    }
}

/// Each cell's text nodes joined.
fn join_cells(cells: &Vec<Vec<String>>) -> (r: Vec<String>)
    ensures
        r.deep_view() == joined_cells(cells.deep_view()),
{
    let mut r: Vec<String> = Vec::new();
    let mut i: usize = 0;
    while i < cells.len()
        invariant
            i <= cells.len(),
            r.deep_view() == joined_cells(cells.deep_view()).take(i as int),
        decreases cells.len() - i,
    {
        let t = join_texts(&cells[i]);
        let ghost before = r.deep_view();
        r.push(t);
        proof {
            let j = joined_cells(cells.deep_view());
            assert(cells.deep_view()[i as int] == cells[i as int].deep_view());
            assert(j[i as int] == cells.deep_view()[i as int].flatten());
            assert(r.deep_view() =~= before.push(t@));
            assert(j.take(i + 1) =~= j.take(i as int).push(j[i as int]));
        }
        i += 1;
    }
    assert(joined_cells(cells.deep_view()).take(i as int) =~= joined_cells(cells.deep_view()));
    r
}

fn html_error(message: &str) -> (e: Error)
    ensures
        e@ == ErrorView::HtmlParse(message@),
{
    Error::HtmlParse(String::from_str(message))
}

/// Builds the table from the cells of the result rows: the `th` cells of the
/// first row name the columns, the `td` cells of each later row are the data.
fn table_from_cells(ths: Vec<Vec<Vec<String>>>, tds: Vec<Vec<Vec<String>>>) -> (t: SqlTable)
    requires
        ths.len() > 0,
    ensures
        t@ == table_of(
            joined_cells(ths.deep_view()[0]),
            (if tds.len() == 0 {
                seq![]
            } else {
                tds.deep_view().drop_first()
            }).map_values(|r| joined_cells(r)),
        ),
        forall|i: int| 0 <= i < t@.rows.len() ==> #[trigger] t@.rows[i].len() == t@.headers.len(),
{
    let headers = join_cells(&ths[0]);
    let ghost data = (if tds.len() == 0 {
        seq![]
    } else {
        tds.deep_view().drop_first()
    }).map_values(|r| joined_cells(r));
    let ghost width = headers.len() as nat;
    let mut rows: Vec<Vec<String>> = Vec::new();
    let mut k: usize = 1;
    assert(data.skip(0) =~= data);
    while k < tds.len()
        invariant
            1 <= k,
            tds.len() > 0 ==> k <= tds.len(),
            tds.len() == 0 ==> data.len() == 0,
            tds.len() > 0 ==> data.len() == tds.len() - 1,
            headers.deep_view() == joined_cells(ths.deep_view()[0]),
            width == headers.len(),
            data == (if tds.len() == 0 {
                seq![]
            } else {
                tds.deep_view().drop_first()
            }).map_values(|r| joined_cells(r)),
            rows.deep_view() == data.take(k - 1),
            forall|i: int| 0 <= i < rows.len() ==> #[trigger] rows.deep_view()[i].len() == width,
            accepted_rows(data, width) == (k - 1) + accepted_rows(data.skip(k - 1), width),
        decreases tds.len() - k,
    {
        let row = join_cells(&tds[k]);
        assert(row.deep_view() == data[k - 1]);
        if row.len() != headers.len() {
            let table = SqlTable {
                headers,
                rows,
                trailing_error: Some(html_error(
                    "The number of columns is different from the number of headers.",
                )),
            };
            assert(data.skip(k - 1)[0] == data[k - 1]);
            return table;
        }
        proof {
            assert(data.skip(k - 1).drop_first() =~= data.skip(k as int));
            assert(data.skip(k - 1)[0] == data[k - 1]);
        }
        let ghost before = rows.deep_view();
        let ghost row_view = row.deep_view();
        rows.push(row);
        proof {
            assert(rows.deep_view() =~= before.push(row_view));
            assert(data.take(k as int) =~= data.take(k - 1).push(data[k - 1]));
            assert(rows.deep_view() =~= data.take(k as int));
            assert(rows.deep_view()[rows.len() - 1] == row_view);
        }
        k += 1;
    }
    proof {
        if tds.len() > 0 {
            assert(data.skip(k - 1).len() == 0);
        } else {
            assert(data.skip(0).len() == 0);
        }
        assert(data.take(k - 1) =~= data.take(accepted_rows(data, width) as int));
    }
    SqlTable { headers, rows, trailing_error: None }
}

/// Reads a result page from what its selectors find (see [`page_outcome`]).
/// Every row of a table that is read has one cell per header.
pub fn read_result_page(
    titles: Option<Vec<Vec<String>>>,
    mains: Option<Vec<Vec<String>>>,
    ths: Option<Vec<Vec<Vec<String>>>>,
    tds: Option<Vec<Vec<Vec<String>>>>,
) -> (r: Result<SqlTable, Error>)
    ensures
        outcome_view(r) == page_outcome(
            titles.deep_view(),
            mains.deep_view(),
            ths.deep_view(),
            tds.deep_view(),
        ),
        r matches Ok(t) ==> forall|i: int|
            0 <= i < t@.rows.len() ==> #[trigger] t@.rows[i].len() == t@.headers.len(),
{
    let titles = match titles {
        Some(t) => t,
        None => return Err(html_error("Invalid selector")),
    };
    if titles.len() == 0 || titles[0].len() == 0 {
        return Err(html_error("No result title"));
    }
    let title = trim(titles[0][0].as_str());
    proof {
        assert(titles.deep_view()[0][0] == titles[0][0]@);
    }
    if same_text(title, "エラー(SQL間違い)") {
        let mains = match mains {
            Some(m) => m,
            None => return Err(html_error("Invalid selector")),
        };
        if mains.len() == 0 {
            return Err(html_error("No error message"));
        }
        let message = join_texts(&mains[0]);
        return Err(Error::SqlExecute(message));
    }
    let (ths, tds) = match (ths, tds) {
        (Some(ths), Some(tds)) => (ths, tds),
        _ => return Err(html_error("Invalid selector")),
    };
    if ths.len() == 0 {
        let empty = SqlTable { headers: Vec::new(), rows: Vec::new(), trailing_error: None };
        assert(empty@.headers =~= seq![]);
        assert(empty@.rows =~= seq![]);
        return Ok(empty);
    }
    Ok(table_from_cells(ths, tds))
}

/// Whether `read` can turn the row into a value.
pub open spec fn row_reads<T, F: Fn(&Vec<String>, &Vec<String>) -> Result<T, DeserializeError>>(
    read: F,
    headers: &Vec<String>,
    row: &Vec<String>,
) -> bool {
    exists|x: T| #[trigger] call_ensures(read, (headers, row), Ok(x))
}

/// Turns the rows of a table into values with `read`, in order: the first row
/// that `read` refuses gives its error; once every row is read, the table's
/// trailing error, if any, is given; else the values.
pub fn read_rows<T, F>(table: SqlTable, read: F) -> (r: Result<Vec<T>, Error>)
    where
        F: Fn(&Vec<String>, &Vec<String>) -> Result<T, DeserializeError>,
    requires
        forall|i: int|
            0 <= i < table.rows.len() ==> call_requires(read, (&table.headers, #[trigger] &table.rows[i])),
    ensures
        match r {
            Ok(v) => {
                &&& table.trailing_error is None
                &&& v.len() == table.rows.len()
                &&& forall|i: int|
                    0 <= i < v.len() ==> call_ensures(
                        read,
                        (&table.headers, &table.rows[i]),
                        Ok(#[trigger] v[i]),
                    )
            },
            Err(e) => {
                ||| exists|i: int, d: DeserializeError|
                    0 <= i < table.rows.len() && #[trigger] call_ensures(
                        read,
                        (&table.headers, &table.rows[i]),
                        Err(d),
                    ) && e@ == ErrorView::SqlDeserialize(d@) && forall|j: int|
                        0 <= j < i ==> #[trigger] row_reads(read, &table.headers, &table.rows[j])
                ||| table.trailing_error matches Some(t) && e@ == t@ && forall|j: int|
                    0 <= j < table.rows.len() ==> #[trigger] row_reads(read, &table.headers, &table.rows[j])
            },
        },
{
    let mut values: Vec<T> = Vec::new();
    let mut i: usize = 0;
    while i < table.rows.len()
        invariant
            i <= table.rows.len(),
            values.len() == i,
            forall|k: int|
                0 <= k < table.rows.len() ==> call_requires(read, (&table.headers, #[trigger] &table.rows[k])),
            forall|k: int|
                0 <= k < i ==> call_ensures(read, (&table.headers, &table.rows[k]), Ok(#[trigger] values[k])),
        decreases table.rows.len() - i,
    {
        match read(&table.headers, &table.rows[i]) {
            Ok(x) => values.push(x),
            Err(d) => {
                proof {
                    assert forall|j: int| 0 <= j < i implies #[trigger] row_reads(read, &table.headers, &table.rows[j]) by {
                        assert(call_ensures(read, (&table.headers, &table.rows[j]), Ok(values[j])));
                    }
                }
                return Err(Error::SqlDeserialize(d));
            },
        }
        i += 1;
    }
    proof {
        assert forall|j: int| 0 <= j < table.rows.len() implies #[trigger] row_reads(read, &table.headers, &table.rows[j]) by {
            assert(call_ensures(read, (&table.headers, &table.rows[j]), Ok(values[j])));
        }
    }
    match table.trailing_error {
        Some(e) => Err(e),
        None => Ok(values),
    }
}

/// Reads the result page of the ErogameScape SQL form.
///
/// A page titled `エラー(SQL間違い)` gives the error the site reports; a page
/// with no result rows gives an empty table; otherwise the table holds the
/// headers and the rows. Every row of a table that is read has one cell per
/// header.
pub fn parse_sql_reponse(text: &str) -> (r: Result<SqlTable, Error>)
    ensures
        outcome_view(r) == sql_response(text@),
        r matches Ok(t) ==> forall|i: int|
            0 <= i < t@.rows.len() ==> #[trigger] t@.rows[i].len() == t@.headers.len(),
{
    let titles = select_text_nodes(text, "#query_result_header");
    let mains = select_text_nodes(text, "#query_result_main");
    let ths = select_nested_text_nodes(text, "#query_result_main tr", "th");
    let tds = select_nested_text_nodes(text, "#query_result_main tr", "td");
    read_result_page(titles, mains, ths, tds)
}

} // verus!
