//! The column extractor: finds named columns in a header line and turns each
//! following line into a tagged amount.

use crate::csv::CsvError;
use crate::csv::parse_clusters_spec;
use crate::csv::parse_csv;
use crate::shims::decimal_parses;
use crate::shims::decimal_value;
use crate::shims::graphemes_of;
use crate::shims::parse_decimal;
use crate::shims::push_char;
use crate::text::split_char;
use crate::text::split_on;
use crate::text::trim_text;
use crate::text::trimmed;
use vstd::prelude::*;

verus! {

/// One tagged amount read from a data line.
#[derive(Debug)]
pub struct CostItem {
    pub tag: String,
    pub amount: rust_decimal::Decimal,
}

impl CostItem {
    pub fn new(tag: &str, amount: rust_decimal::Decimal) -> (r: Self)
        ensures
            r.tag@ == tag@,
            r.amount == amount,
    {
        CostItem { tag: String::from_str(tag), amount }
    }
}

/// A fault while extracting tagged amounts from the lines.
#[derive(Debug, Clone, PartialEq, Eq)]
pub enum ExtractError {
    /// The header has no column of this name.
    MissingColumn(String),
    /// A data line is structurally malformed.
    Row(CsvError),
    /// A data line has no column at a configured position.
    ShortRow,
    /// This cell could not be read as a decimal amount.
    BadAmount(String),
}

/// The mathematical shape of an `ExtractError`.
pub enum ExtractErrV {
    MissingColumn(Seq<char>),
    Row(CsvError),
    ShortRow,
    BadAmount(Seq<char>),
}

impl View for ExtractError {
    type V = ExtractErrV;

    open spec fn view(&self) -> ExtractErrV {
        match self {
            ExtractError::MissingColumn(n) => ExtractErrV::MissingColumn(n@),
            ExtractError::Row(e) => ExtractErrV::Row(*e),
            ExtractError::ShortRow => ExtractErrV::ShortRow,
            ExtractError::BadAmount(t) => ExtractErrV::BadAmount(t@),
        }
    }
}

/// The amount cell as handed to the decimal parser: trimmed, with `,`
/// normalized to `.` as the decimal separator.
pub open spec fn comma_to_dot(s: Seq<char>) -> Seq<char> {
    s.map_values(
        |c: char|
            if c == ',' {
                '.'
            } else {
                c
            },
    )
}

/// The position of the first header cell whose trimmed text is `name`.
pub open spec fn find_col(cells: Seq<Seq<char>>, name: Seq<char>) -> Option<int>
    decreases cells.len(),
{
    if cells.len() == 0 {
        Option::None
    } else if trimmed(cells[0]) == name {
        Option::Some(0int)
    } else {
        match find_col(cells.drop_first(), name) {
            Option::None => Option::None,
            Option::Some(i) => Option::Some(i + 1),
        }
    }
}

/// What one already-split row yields: its trimmed tag text and its
/// normalized amount text, or the first fault.
pub open spec fn row_item_cells(cols: Seq<Seq<char>>, t: int, a: int) -> Result<
    (Seq<char>, Seq<char>),
    ExtractErrV,
> {
    if t >= cols.len() || a >= cols.len() {
        Err(ExtractErrV::ShortRow)
    } else {
        let amt = comma_to_dot(trimmed(cols[a]));
        if decimal_parses(amt) {
            Ok((trimmed(cols[t]), amt))
        } else {
            Err(ExtractErrV::BadAmount(cols[a]))
        }
    }
}

/// What one data line yields: its trimmed tag text and its normalized amount
/// text, or the first fault.
pub open spec fn row_item(line: Seq<char>, t: int, a: int) -> Result<
    (Seq<char>, Seq<char>),
    ExtractErrV,
> {
    match parse_clusters_spec(graphemes_of(line)) {
        Err(e) => Err(ExtractErrV::Row(e)),
        Ok(cols) => row_item_cells(cols, t, a),
    }
}

/// What the data lines yield in order, or the first fault.
pub open spec fn extract_data(lines: Seq<Seq<char>>, t: int, a: int) -> Result<
    Seq<(Seq<char>, Seq<char>)>,
    ExtractErrV,
>
    decreases lines.len(),
{
    if lines.len() == 0 {
        Ok(Seq::empty())
    } else {
        match row_item(lines[0], t, a) {
            Err(e) => Err(e),
            Ok(item) => match extract_data(lines.drop_first(), t, a) {
                Err(e) => Err(e),
                Ok(rest) => Ok(seq![item] + rest),
            },
        }
    }
}

/// What extraction yields for a whole input: the first line names the
/// columns; each further line contributes one tagged amount.
pub open spec fn extract_spec(lines: Seq<Seq<char>>, tag: Seq<char>, amt: Seq<char>) -> Result<
    Seq<(Seq<char>, Seq<char>)>,
    ExtractErrV,
> {
    let header = split_on(lines[0], ',');
    match find_col(header, tag) {
        Option::None => Err(ExtractErrV::MissingColumn(tag)),
        Option::Some(t) => match find_col(header, amt) {
            Option::None => Err(ExtractErrV::MissingColumn(amt)),
            Option::Some(a) => extract_data(lines.drop_first(), t, a),
        },
    }
}

proof fn lemma_find_col_some(cells: Seq<Seq<char>>, name: Seq<char>, j: int)
    requires
        0 <= j < cells.len(),
        trimmed(cells[j]) == name,
        forall|k: int| 0 <= k < j ==> trimmed(#[trigger] cells[k]) != name,
    ensures
        find_col(cells, name) == Option::Some(j),
    decreases cells.len(),
{
    if j > 0 {
        lemma_find_col_some(cells.drop_first(), name, j - 1);
    }
}

proof fn lemma_find_col_none(cells: Seq<Seq<char>>, name: Seq<char>)
    requires
        forall|k: int| 0 <= k < cells.len() ==> trimmed(#[trigger] cells[k]) != name,
    ensures
        find_col(cells, name) is None,
    decreases cells.len(),
{
    if cells.len() > 0 {
        lemma_find_col_none(cells.drop_first(), name);
    }
}

/// Finds the position of the first cell whose trimmed text is `name`.
fn find_column(cells: &Vec<String>, name: &str) -> (r: Option<usize>)
    ensures
        match r {
            Some(j) => find_col(cells.deep_view(), name@) == Option::Some(j as int),
            None => find_col(cells.deep_view(), name@) is None,
        },
{
    let wanted = String::from_str(name);
    let mut j: usize = 0;
    while j < cells.len()
        invariant
            j <= cells.len(),
            wanted@ == name@,
            forall|k: int|
                0 <= k < j ==> trimmed(#[trigger] cells.deep_view()[k]) != name@,
        decreases cells.len() - j,
    {
        let cell = trim_text(cells[j].as_str());
        if cell == wanted {
            proof {
                lemma_find_col_some(cells.deep_view(), name@, j as int);
            }
            return Some(j);
        }
        j = j + 1;
    }
    proof {
        lemma_find_col_none(cells.deep_view(), name@);
    }
    None
}

/// Normalizes an amount cell: `,` becomes `.`.
fn normalize_decimal_separator(s: &str) -> (r: String)
    ensures
        r@ == comma_to_dot(s@),
{
    let n = s.unicode_len();
    let mut out = String::new();
    proof {
        assert(out@ =~= comma_to_dot(s@.take(0)));
    }
    let mut i: usize = 0;
    while i < n
        invariant
            i <= n,
            n == s@.len(),
            out@ == comma_to_dot(s@.take(i as int)),
        decreases n - i,
    {
        let c = s.get_char(i);
        if c == ',' {
            push_char(&mut out, '.');
        } else {
            push_char(&mut out, c);
        }
        proof {
            assert(s@.take(i + 1).drop_last() =~= s@.take(i as int));
            assert(comma_to_dot(s@.take(i + 1)) =~= comma_to_dot(s@.take(i as int)).push(
                if s@[i as int] == ',' {
                    '.'
                } else {
                    s@[i as int]
                },
            ));
        }
        i = i + 1;
    }
    proof {
        assert(s@.take(n as int) =~= s@);
    }
    out
}

/// Reads the tagged amounts out of the lines: the first line is the header
/// naming the columns, every further line is data. Row order is preserved;
/// tags are not deduplicated.
pub fn get_items(lines: Vec<&str>, tag_col_name: &str, amount_col_name: &str) -> (r: Result<
    Vec<CostItem>,
    ExtractError,
>)
    requires
        lines@.len() >= 1,
    ensures
        match r {
            Ok(items) => {
                &&& extract_spec(lines.deep_view(), tag_col_name@, amount_col_name@) matches Ok(
                    its,
                )
                &&& items@.len() == its.len()
                &&& forall|i: int|
                    0 <= i < its.len() ==> (#[trigger] items@[i]).tag@ == its[i].0
                        && items@[i].amount == decimal_value(its[i].1)
            },
            Err(e) => extract_spec(lines.deep_view(), tag_col_name@, amount_col_name@) == Err::<
                Seq<(Seq<char>, Seq<char>)>,
                _,
            >(e@),
        },
{
    proof {
        assert(lines.deep_view()[0] == lines@[0]@);
    }
    let header = split_char(lines[0], ',');
    let t = match find_column(&header, tag_col_name) {
        Some(t) => t,
        None => {
            return Err(ExtractError::MissingColumn(String::from_str(tag_col_name)));
        },
    };
    let a = match find_column(&header, amount_col_name) {
        Some(a) => a,
        None => {
            return Err(ExtractError::MissingColumn(String::from_str(amount_col_name)));
        },
    };
    let ghost data = lines.deep_view().drop_first();
    let ghost whole = extract_data(data, t as int, a as int);
    proof {
        assert(extract_spec(lines.deep_view(), tag_col_name@, amount_col_name@) == whole);
    }
    let mut items: Vec<CostItem> = Vec::new();
    let ghost mut spec_items = Seq::<(Seq<char>, Seq<char>)>::empty();
    proof {
        assert(data.skip(0) =~= data);
        if whole is Ok {
            assert(spec_items + whole->Ok_0 =~= whole->Ok_0);
        }
    }
    let mut i: usize = 1;
    while i < lines.len()
        invariant
            1 <= i <= lines.len(),
            data == lines.deep_view().drop_first(),
            data.len() == lines.len() - 1,
            whole == extract_data(data, t as int, a as int),
            extract_spec(lines.deep_view(), tag_col_name@, amount_col_name@) == whole,
            items@.len() == spec_items.len(),
            forall|k: int|
                0 <= k < spec_items.len() ==> (#[trigger] items@[k]).tag@ == spec_items[k].0
                    && items@[k].amount == decimal_value(spec_items[k].1),
            whole == (match extract_data(data.skip(i - 1), t as int, a as int) {
                Ok(more) => Ok::<_, ExtractErrV>(spec_items + more),
                Err(e) => Err::<Seq<(Seq<char>, Seq<char>)>, _>(e),
            }),
        decreases lines.len() - i,
    {
        let line = lines[i];
        proof {
            assert(data.skip(i - 1)[0] == data[i - 1]);
            assert(data[i - 1] == line@);
            assert(data.skip(i - 1).drop_first() =~= data.skip(i as int));
        }
        let ghost row = row_item(line@, t as int, a as int);
        let ghost tail = extract_data(data.skip(i as int), t as int, a as int);
        proof {
            assert(extract_data(data.skip(i - 1), t as int, a as int) == (match row {
                Err(e) => Err::<Seq<(Seq<char>, Seq<char>)>, _>(e),
                Ok(item) => match tail {
                    Err(e) => Err::<Seq<(Seq<char>, Seq<char>)>, _>(e),
                    Ok(rest) => Ok::<_, ExtractErrV>(seq![item] + rest),
                },
            }));
        }
        let cols = match parse_csv(line) {
            Ok(cols) => cols,
            Err(e) => {
                proof {
                    assert(row == Err::<(Seq<char>, Seq<char>), _>(ExtractErrV::Row(e)));
                }
                return Err(ExtractError::Row(e));
            },
        };
        if t >= cols.len() || a >= cols.len() {
            proof {
                assert(row == Err::<(Seq<char>, Seq<char>), _>(ExtractErrV::ShortRow));
            }
            return Err(ExtractError::ShortRow);
        }
        proof {
            assert(cols[t as int]@ == cols.deep_view()[t as int]);
            assert(cols[a as int]@ == cols.deep_view()[a as int]);
        }
        let tag = trim_text(cols[t].as_str());
        let amt_trimmed = trim_text(cols[a].as_str());
        let amt_text = normalize_decimal_separator(amt_trimmed.as_str());
        match parse_decimal(amt_text.as_str()) {
            Some(d) => {
                let item = CostItem { tag: tag, amount: d };
                items.push(item);
                proof {
                    assert(row == Ok::<_, ExtractErrV>((trimmed(cols.deep_view()[t as int]),
                        comma_to_dot(trimmed(cols.deep_view()[a as int])))));
                    let old_items = spec_items;
                    spec_items = spec_items.push(row->Ok_0);
                    assert(items@.last().tag@ == row->Ok_0.0);
                    assert(items@.last().amount == decimal_value(row->Ok_0.1));
                    if tail is Ok {
                        assert(old_items + (seq![row->Ok_0] + tail->Ok_0) =~= spec_items
                            + tail->Ok_0);
                    }
                }
            },
            None => {
                proof {
                    assert(row == Err::<(Seq<char>, Seq<char>), _>(ExtractErrV::BadAmount(
                        cols.deep_view()[a as int])));
                }
                return Err(ExtractError::BadAmount(cols[a].clone()));
            },
        }
        i = i + 1;
    }
    proof {
        assert(data.skip(data.len() as int) =~= Seq::<Seq<char>>::empty());
        assert(extract_data(Seq::<Seq<char>>::empty(), t as int, a as int) == Ok::<
            _,
            ExtractErrV,
        >(Seq::<(Seq<char>, Seq<char>)>::empty()));
        assert(spec_items + Seq::<(Seq<char>, Seq<char>)>::empty() =~= spec_items);
    }
    Ok(items)
}

} // verus!

verus! {

/// What already-split rows yield in order, or the first fault.
pub open spec fn extract_rows(rows: Seq<Seq<Seq<char>>>, t: int, a: int) -> Result<
    Seq<(Seq<char>, Seq<char>)>,
    ExtractErrV,
>
    decreases rows.len(),
{
    if rows.len() == 0 {
        Ok(Seq::empty())
    } else {
        match row_item_cells(rows[0], t, a) {
            Err(e) => Err(e),
            Ok(item) => match extract_rows(rows.drop_first(), t, a) {
                Err(e) => Err(e),
                Ok(rest) => Ok(seq![item] + rest),
            },
        }
    }
}

/// What extraction yields once header and rows are split into cells: the
/// named columns are found in the header, then each row contributes one
/// tagged amount.
pub open spec fn extract_cells(
    header: Seq<Seq<char>>,
    rows: Seq<Seq<Seq<char>>>,
    tag: Seq<char>,
    amt: Seq<char>,
) -> Result<Seq<(Seq<char>, Seq<char>)>, ExtractErrV> {
    match find_col(header, tag) {
        Option::None => Err(ExtractErrV::MissingColumn(tag)),
        Option::Some(t) => match find_col(header, amt) {
            Option::None => Err(ExtractErrV::MissingColumn(amt)),
            Option::Some(a) => extract_rows(rows, t, a),
        },
    }
}

proof fn lemma_extract_rows_pointwise(
    rows1: Seq<Seq<Seq<char>>>,
    rows2: Seq<Seq<Seq<char>>>,
    t1: int,
    a1: int,
    t2: int,
    a2: int,
)
    requires
        rows1.len() == rows2.len(),
        forall|r: int|
            0 <= r < rows1.len() ==> row_item_cells(#[trigger] rows1[r], t1, a1) == row_item_cells(
                rows2[r],
                t2,
                a2,
            ),
    ensures
        extract_rows(rows1, t1, a1) == extract_rows(rows2, t2, a2),
    decreases rows1.len(),
{
    if rows1.len() > 0 {
        assert(rows1[0] == rows1[0]);
        lemma_extract_rows_pointwise(rows1.drop_first(), rows2.drop_first(), t1, a1, t2, a2);
    }
}

/// Column order invariance: reordering the columns of the header and of
/// every row by one and the same permutation leaves the extraction result
/// unchanged, as long as the tag and amount column names each match exactly
/// one header cell. `p` carries the permutation and `q` its inverse; `jt`
/// and `ja` are where the named columns stand in the original header.
pub proof fn lemma_column_order_invariance(
    header1: Seq<Seq<char>>,
    header2: Seq<Seq<char>>,
    rows1: Seq<Seq<Seq<char>>>,
    rows2: Seq<Seq<Seq<char>>>,
    p: Seq<int>,
    q: Seq<int>,
    tag: Seq<char>,
    amt: Seq<char>,
    jt: int,
    ja: int,
)
    requires
        header1.len() == p.len(),
        header1.len() == q.len(),
        forall|i: int| 0 <= i < p.len() ==> 0 <= #[trigger] p[i] < p.len(),
        forall|i: int| 0 <= i < q.len() ==> 0 <= #[trigger] q[i] < q.len(),
        forall|i: int| 0 <= i < p.len() ==> p[#[trigger] q[i]] == i,
        forall|i: int| 0 <= i < p.len() ==> q[#[trigger] p[i]] == i,
        header2 == Seq::new(header1.len(), |i: int| header1[p[i]]),
        rows1.len() == rows2.len(),
        forall|r: int|
            0 <= r < rows1.len() ==> (#[trigger] rows1[r]).len() == header1.len() && rows2[r]
                == Seq::new(header1.len(), |i: int| rows1[r][p[i]]),
        0 <= jt < header1.len(),
        trimmed(header1[jt]) == tag,
        forall|k: int|
            0 <= k < header1.len() && k != jt ==> trimmed(#[trigger] header1[k]) != tag,
        0 <= ja < header1.len(),
        trimmed(header1[ja]) == amt,
        forall|k: int|
            0 <= k < header1.len() && k != ja ==> trimmed(#[trigger] header1[k]) != amt,
    ensures
        extract_cells(header2, rows2, tag, amt) == extract_cells(header1, rows1, tag, amt),
{
    let w = header1.len() as int;
    lemma_find_col_some(header1, tag, jt);
    lemma_find_col_some(header1, amt, ja);
    assert(header2[q[jt]] == header1[p[q[jt]]]);
    assert(header2[q[jt]] == header1[jt]);
    assert forall|k: int| 0 <= k < q[jt] implies trimmed(#[trigger] header2[k]) != tag by {
        assert(header2[k] == header1[p[k]]);
        if p[k] == jt {
            assert(q[p[k]] == k);
        }
    }
    lemma_find_col_some(header2, tag, q[jt]);
    assert(header2[q[ja]] == header1[p[q[ja]]]);
    assert(header2[q[ja]] == header1[ja]);
    assert forall|k: int| 0 <= k < q[ja] implies trimmed(#[trigger] header2[k]) != amt by {
        assert(header2[k] == header1[p[k]]);
        if p[k] == ja {
            assert(q[p[k]] == k);
        }
    }
    lemma_find_col_some(header2, amt, q[ja]);
    assert forall|r: int|
        0 <= r < rows2.len() implies row_item_cells(#[trigger] rows2[r], q[jt], q[ja])
        == row_item_cells(rows1[r], jt, ja) by {
        assert(rows2[r].len() == w);
        assert(rows2[r][q[jt]] == rows1[r][p[q[jt]]]);
        assert(p[q[jt]] == jt);
        assert(rows2[r][q[ja]] == rows1[r][p[q[ja]]]);
        assert(p[q[ja]] == ja);
    }
    lemma_extract_rows_pointwise(rows2, rows1, q[jt], q[ja], jt, ja);
}

} // verus!
