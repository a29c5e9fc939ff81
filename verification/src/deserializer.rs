//! A row of an SQL result table, read column by column.
use vstd::prelude::*;
use vstd::string::StringExecFns;

use crate::text::{decimal_text, law_decimal_reads_back, parse_i32, parsed_i32, unsigned_part};

verus! {

/// Errors raised while turning a result row into a value.
#[derive(Debug)]
pub enum DeserializeError {
    Parse(String),
    Unsupported(String),
    Message(String),
}

/// What a [`DeserializeError`] says, with its message as characters.
pub enum DeserializeErrorView {
    Parse(Seq<char>),
    Unsupported(Seq<char>),
    Message(Seq<char>),
}

impl View for DeserializeError {
    type V = DeserializeErrorView;

    open spec fn view(&self) -> DeserializeErrorView {
        match self {
            DeserializeError::Parse(m) => DeserializeErrorView::Parse(m@),
            DeserializeError::Unsupported(m) => DeserializeErrorView::Unsupported(m@),
            DeserializeError::Message(m) => DeserializeErrorView::Message(m@),
        }
    }
}

impl DeserializeError {
    /// The error for a message raised by the value being built.
    pub fn custom(msg: String) -> (e: Self)
        ensures
            e@ == DeserializeErrorView::Message(msg@),
    {
        DeserializeError::Message(msg)
    }

    /// The text that the error reads as.
    pub fn message(&self) -> (r: String)
        ensures
            r@ == deserialize_error_message(self@),
    {
        let (prefix, m) = match self {
            DeserializeError::Parse(m) => ("Failed to parse: ", m),
            DeserializeError::Unsupported(m) => ("Unsupported: ", m),
            DeserializeError::Message(m) => ("Error: ", m),
        };
        let mut r = String::from_str(prefix);
        r.append(m.as_str());
        r
    }
}

/// The text of an error: what went wrong, then its message.
pub open spec fn deserialize_error_message(e: DeserializeErrorView) -> Seq<char> {
    match e {
        DeserializeErrorView::Parse(m) => "Failed to parse: "@ + m,
        DeserializeErrorView::Unsupported(m) => "Unsupported: "@ + m,
        DeserializeErrorView::Message(m) => "Error: "@ + m,
    }
}

/// Walks one row of a result table: `headers[i]` names the cell `contents[i]`.
pub struct Deserializer<'de> {
    headers: &'de [String],
    contents: &'de [String],
    index: usize,
}

impl<'de> Deserializer<'de> {
    /// The column names.
    pub closed spec fn headers(&self) -> Seq<Seq<char>> {
        self.headers.deep_view()
    }

    /// The cells of the row.
    pub closed spec fn contents(&self) -> Seq<Seq<char>> {
        self.contents.deep_view()
    }

    /// The column that the next key or value is read from.
    pub closed spec fn index(&self) -> nat {
        self.index as nat
    }

    /// Starts at the first column.
    pub fn new(headers: &'de [String], contents: &'de [String]) -> (d: Self)
        ensures
            d.headers() == headers.deep_view(),
            d.contents() == contents.deep_view(),
            d.index() == 0,
    {
        Deserializer { contents, headers, index: 0 }
    }

    /// The column that the reader stands on.
    pub fn column(&self) -> (r: usize)
        ensures
            r == self.index(),
    {
        self.index
    }

    /// The cell that the reader stands on, if the row has one there.
    pub open spec fn current(&self) -> Option<Seq<char>> {
        if self.index() < self.contents().len() {
            Some(self.contents()[self.index() as int])
        } else {
            None
        }
    }

    /// The cell under the reader, or a parse error when the row has run out.
    fn content(&self) -> (r: Result<&'de String, DeserializeError>)
        ensures
            match r {
                Ok(c) => self.current() == Some(c@),
                Err(e) => self.current() is None && e@ == no_content(),
            },
    {
        if self.index < self.contents.len() {
            Ok(&self.contents[self.index])
        } else {
            Err(DeserializeError::Parse(String::from_str("No content")))
        }
    }

    /// Reads the current cell as whatever it looks like: `t` and `f` are
    /// booleans, then a decimal `i32`, then (as `float` says) a float, then an
    /// empty cell is null and anything else is text.
    pub fn deserialize_any(&self, float: bool) -> (r: Result<Cell, DeserializeError>)
        ensures
            match self.current() {
                Some(c) => r is Ok && r->Ok_0@ == cell_of(c, float),
                None => r is Err && r->Err_0@ == no_content(),
            },
    {
        let content = match self.content() {
            Ok(c) => c,
            Err(e) => return Err(e),
        };
        let text = content.as_str();
        let n = text.unicode_len();
        if n == 1 && text.get_char(0) == 't' {
            assert(content@ =~= seq!['t']);
            Ok(Cell::Bool(true))
        } else if n == 1 && text.get_char(0) == 'f' {
            assert(content@ =~= seq!['f']);
            Ok(Cell::Bool(false))
        } else {
            proof {
                if n == 1 {
                    assert(content@ != seq!['t'] && content@ != seq!['f']) by {
                        assert(seq!['t'][0] == 't');
                        assert(seq!['f'][0] == 'f');
                    }
                }
            }
            match parse_i32(text) {
                Some(num) => Ok(Cell::I32(num)),
                None => {
                    if float {
                        Ok(Cell::Float(content.clone()))
                    } else if n == 0 {
                        Ok(Cell::Null)
                    } else {
                        Ok(Cell::Text(content.clone()))
                    }
                },
            }
        }
    }

    /// Whether an optional value is present: false when the row has run out
    /// or the cell is empty.
    pub fn deserialize_option(&self) -> (r: bool)
        ensures
            r == (self.current() matches Some(c) && c.len() > 0),
    {
        if self.index < self.contents.len() {
            self.contents[self.index].as_str().unicode_len() != 0
        } else {
            false
        }
    }

    /// The current cell as text.
    pub fn deserialize_string(&self) -> (r: Result<String, DeserializeError>)
        ensures
            match self.current() {
                Some(c) => r is Ok && r->Ok_0@ == c,
                None => r is Err && r->Err_0@ == no_content(),
            },
    {
        match self.content() {
            Ok(c) => Ok(c.clone()),
            Err(e) => Err(e),
        }
    }

    /// The name of an enum variant, which is the text of the current cell.
    pub fn variant_seed(&self) -> (r: Result<&'de String, DeserializeError>)
        ensures
            match self.current() {
                Some(c) => r is Ok && r->Ok_0@ == c,
                None => r is Err && r->Err_0@ == no_content(),
            },
    {
        self.content()
    }

    /// The next key of the row seen as a map: the header of the current
    /// column, or none past the last header.
    pub fn next_key_seed(&self) -> (r: Option<&'de String>)
        ensures
            self.index() < self.headers().len() ==> r is Some && r->0@ == self.headers()[self.index() as int],
            self.index() >= self.headers().len() ==> r is None,
    {
        if self.index < self.headers.len() {
            Some(&self.headers[self.index])
        } else {
            None
        }
    }

    /// Reads the rest of the row as a map whose values are strings, the way a
    /// map visitor drives the reader: the header of each column from the
    /// current one on, paired with its cell. A row with fewer cells than
    /// headers fails on the first missing cell.
    pub fn deserialize_string_map(&mut self) -> (r: Result<Vec<(String, String)>, DeserializeError>)
        ensures
            final(self).headers() == old(self).headers(),
            final(self).contents() == old(self).contents(),
            old(self).index() >= old(self).headers().len() || old(self).headers().len()
                <= old(self).contents().len() ==> r is Ok && pairs_view(r->Ok_0@) == row_pairs(
                old(self).headers(),
                old(self).contents(),
                old(self).index(),
            ),
            old(self).index() < old(self).headers().len() && old(self).headers().len() > old(
                self,
            ).contents().len() ==> r is Err && r->Err_0@ == no_content(),
            r is Ok ==> final(self).index() == max_nat(old(self).index(), old(self).headers().len())
                && final(self).index() == old(self).index() + r->Ok_0@.len(),
            r is Err ==> final(self).index() == max_nat(old(self).index(), old(self).contents().len())
                + 1,
    {
        let mut pairs: Vec<(String, String)> = Vec::new();
        let ghost h = self.headers();
        let ghost c = self.contents();
        let ghost start = self.index();
        loop
            invariant
                self.headers() == h,
                self.contents() == c,
                h == old(self).headers(),
                c == old(self).contents(),
                start == old(self).index(),
                h.len() == self.headers.len(),
                start <= self.index(),
                start < h.len() ==> self.index() <= h.len(),
                start < h.len() ==> pairs@.len() == self.index() - start,
                start < h.len() ==> pairs_view(pairs@) == row_pairs(h, c, start).take(
                    self.index() - start,
                ),
                start >= h.len() ==> pairs@.len() == 0 && self.index() == start,
                start < self.index() ==> self.index() <= c.len(),
            decreases h.len() - self.index(),
        {
            let key = match self.next_key_seed() {
                Some(k) => k,
                None => {
                    proof {
                        if start < h.len() {
                            assert(row_pairs(h, c, start).take(self.index() - start) =~= row_pairs(
                                h,
                                c,
                                start,
                            ));
                        } else {
                            assert(pairs_view(pairs@) =~= row_pairs(h, c, start));
                        }
                    }
                    return Ok(pairs);
                },
            };
            let value = self.deserialize_string();
            self.next_value_seed();
            match value {
                Ok(v) => {
                    let ghost before = pairs@;
                    let k = key.clone();
                    let ghost pair = (k, v);
                    pairs.push((k, v));
                    proof {
                        let i = self.index() - 1;
                        assert(pairs@ =~= before.push(pair));
                        assert(row_pairs(h, c, start).take(self.index() - start) =~= row_pairs(
                            h,
                            c,
                            start,
                        ).take(i - start).push((h[i], c[i])));
                        assert(pairs_view(pairs@) =~= pairs_view(before).push((pair.0@, pair.1@)));
                    }
                },
                Err(e) => {
                    return Err(e);
                },
            }
        }
    }

    /// Moves to the next column once a value has been read.
    pub fn next_value_seed(&mut self)
        requires
            old(self).index() < usize::MAX,
        ensures
            final(self).headers() == old(self).headers(),
            final(self).contents() == old(self).contents(),
            final(self).index() == old(self).index() + 1,
    {
        self.index = self.index + 1;
    }
}

/// The sum of some counts.
pub open spec fn total(counts: Seq<nat>) -> nat
    decreases counts.len(),
{
    if counts.len() == 0 {
        0
    } else {
        total(counts.drop_last()) + counts.last()
    }
}

/// A reader's column is the number of values read since it was made, and its
/// headers and cells never change. `readers` are the states of one reader
/// after each call from [`Deserializer::new`] on, and `reads[k]` the number of
/// values call `k` read: one for [`Deserializer::next_value_seed`], the
/// columns it passed for [`Deserializer::deserialize_string_map`], none for
/// the methods that take `&self`. Those are the steps the methods' contracts
/// state.
pub proof fn law_column_counts_values_read<'de>(readers: Seq<Deserializer<'de>>, reads: Seq<nat>)
    requires
        readers.len() == reads.len() + 1,
        readers[0].index() == 0,
        forall|k: int|
            0 <= k < reads.len() ==> readers[k + 1].index() == readers[k].index() + #[trigger] reads[k]
                && readers[k + 1].headers() == readers[k].headers() && readers[k + 1].contents()
                == readers[k].contents(),
    ensures
        forall|k: int|
            0 <= k < readers.len() ==> #[trigger] readers[k].index() == total(reads.take(k))
                && readers[k].headers() == readers[0].headers() && readers[k].contents()
                == readers[0].contents(),
    decreases reads.len(),
{
    if reads.len() > 0 {
        let n = reads.len() - 1;
        let init_readers = readers.drop_last();
        let init_reads = reads.drop_last();
        assert forall|k: int| 0 <= k < init_reads.len() implies init_readers[k + 1].index()
            == init_readers[k].index() + #[trigger] init_reads[k] && init_readers[k + 1].headers()
            == init_readers[k].headers() && init_readers[k + 1].contents()
            == init_readers[k].contents() by {
            assert(reads[k] == init_reads[k]);
        }
        law_column_counts_values_read(init_readers, init_reads);
        assert forall|k: int| 0 <= k < readers.len() implies #[trigger] readers[k].index() == total(
            reads.take(k),
        ) && readers[k].headers() == readers[0].headers() && readers[k].contents()
            == readers[0].contents() by {
            if k < readers.len() - 1 {
                assert(readers[k] == init_readers[k]);
                assert(init_reads.take(k) =~= reads.take(k));
            } else {
                assert(readers[n] == init_readers[n]);
                assert(init_reads.take(n) =~= reads.take(n));
                assert(reads.take(k).drop_last() =~= reads.take(n));
                assert(reads[n] == reads.take(k).last());
            }
        }
    } else {
        assert(reads.take(0) =~= Seq::<nat>::empty());
    }
}

/// The larger of two numbers.
pub open spec fn max_nat(a: nat, b: nat) -> nat {
    if a >= b {
        a
    } else {
        b
    }
}

/// Each header from column `from` on, paired with the cell of its column.
pub open spec fn row_pairs(headers: Seq<Seq<char>>, contents: Seq<Seq<char>>, from: nat) -> Seq<
    (Seq<char>, Seq<char>),
> {
    Seq::new(
        (if from <= headers.len() { headers.len() - from } else { 0 }) as nat,
        |k: int| (headers[from + k], contents[from + k]),
    )
}

/// Key and value pairs with their texts as characters.
pub open spec fn pairs_view(pairs: Seq<(String, String)>) -> Seq<(Seq<char>, Seq<char>)> {
    pairs.map_values(|p: (String, String)| (p.0@, p.1@))
}

/// The map that inserting `pairs` in order builds: a later pair with the same
/// key replaces an earlier one.
pub open spec fn pairs_map(pairs: Seq<(Seq<char>, Seq<char>)>) -> Map<Seq<char>, Seq<char>>
    decreases pairs.len(),
{
    if pairs.len() == 0 {
        Map::empty()
    } else {
        pairs_map(pairs.drop_last()).insert(pairs.last().0, pairs.last().1)
    }
}

/// Reading a whole row as a map gives each header the cell of its column:
/// its keys are the headers, and a header that no later column repeats maps
/// to the cell under it (a repeated header keeps the cell of its last column).
pub proof fn law_row_as_map(headers: Seq<Seq<char>>, contents: Seq<Seq<char>>)
    requires
        headers.len() <= contents.len(),
    ensures
        pairs_map(row_pairs(headers, contents, 0)).dom() =~= headers.to_set(),
        forall|i: int|
            0 <= i < headers.len() && (forall|j: int| i < j < headers.len() ==> headers[j] != headers[i])
                ==> #[trigger] pairs_map(row_pairs(headers, contents, 0))[headers[i]] == contents[i],
    decreases headers.len(),
{
    let p = row_pairs(headers, contents, 0);
    if headers.len() == 0 {
        assert(headers.to_set() =~= Set::<Seq<char>>::empty());
    } else {
        let init = headers.drop_last();
        law_row_as_map(init, contents);
        assert(p.drop_last() =~= row_pairs(init, contents, 0));
        assert(headers.to_set() =~= init.to_set().insert(headers.last())) by {
            assert forall|x: Seq<char>| headers.to_set().contains(x) <==> init.to_set().insert(headers.last()).contains(x) by {
                if headers.to_set().contains(x) {
                    let k = choose|k: int| 0 <= k < headers.len() && headers[k] == x;
                    if k < headers.len() - 1 {
                        assert(init[k] == x);
                    }
                }
                if init.to_set().contains(x) {
                    let k = choose|k: int| 0 <= k < init.len() && init[k] == x;
                    assert(headers[k] == x);
                }
                if x == headers.last() {
                    assert(headers[headers.len() - 1] == x);
                }
            }
        }
        assert forall|i: int|
            0 <= i < headers.len() && (forall|j: int| i < j < headers.len() ==> headers[j] != headers[i])
                implies #[trigger] pairs_map(p)[headers[i]] == contents[i] by {
            if i < headers.len() - 1 {
                assert(init[i] == headers[i]);
                assert(headers[headers.len() - 1] != headers[i]);
                assert(forall|j: int| i < j < init.len() ==> init[j] == headers[j]);
            }
        }
    }
}

/// A reader reads the cell of the column it stands on, and a new reader
/// stands on the first column.
pub proof fn law_reader_reads_its_column<'de>(d: Deserializer<'de>)
    ensures
        d.index() < d.contents().len() ==> d.current() == Some(d.contents()[d.index() as int]),
        d.index() >= d.contents().len() ==> d.current() is None,
        d.index() == 0 && d.contents().len() > 0 ==> d.current() == Some(d.contents()[0]),
{
}

/// The error for a row that has no cell where one is read.
pub open spec fn no_content() -> DeserializeErrorView {
    DeserializeErrorView::Parse("No content"@)
}

/// What a cell is read as.
#[derive(Debug)]
pub enum Cell {
    Bool(bool),
    I32(i32),
    /// A cell that reads as a floating-point number; its text is kept.
    Float(String),
    Null,
    Text(String),
}

/// A [`Cell`] with its text as characters.
pub enum CellView {
    Bool(bool),
    I32(i32),
    Float(Seq<char>),
    Null,
    Text(Seq<char>),
}

impl View for Cell {
    type V = CellView;

    open spec fn view(&self) -> CellView {
        match self {
            Cell::Bool(b) => CellView::Bool(*b),
            Cell::I32(n) => CellView::I32(*n),
            Cell::Float(t) => CellView::Float(t@),
            Cell::Null => CellView::Null,
            Cell::Text(t) => CellView::Text(t@),
        }
    }
}

/// How a cell with text `content` is read; `float` tells whether the text
/// reads as a floating-point number.
pub open spec fn cell_of(content: Seq<char>, float: bool) -> CellView {
    if content == seq!['t'] {
        CellView::Bool(true)
    } else if content == seq!['f'] {
        CellView::Bool(false)
    } else if parsed_i32(content) is Some {
        CellView::I32(parsed_i32(content)->0)
    } else if float {
        CellView::Float(content)
    } else if content.len() == 0 {
        CellView::Null
    } else {
        CellView::Text(content)
    }
}

/// An optional value is present exactly when the cell would not read as
/// null: [`Deserializer::deserialize_option`] and
/// [`Deserializer::deserialize_any`] agree on which cells are empty. An empty
/// cell never reads as a float.
pub proof fn law_option_agrees_with_any(content: Seq<char>, float: bool)
    requires
        content.len() == 0 ==> !float,
    ensures
        (content.len() > 0) <==> !(cell_of(content, float) is Null),
{
    if content.len() == 0 {
        assert(content != seq!['t']) by {
            assert(seq!['t'].len() == 1);
        }
        assert(content != seq!['f']) by {
            assert(seq!['f'].len() == 1);
        }
    }
}

/// A cell whose text is a decimal `i32` reads as that integer, whatever the
/// float test says; only the one-character texts `t` and `f` read as
/// booleans, as true and false.
pub proof fn law_integers_read_as_integers(content: Seq<char>, float: bool)
    ensures
        parsed_i32(content) matches Some(n) ==> cell_of(content, float) == CellView::I32(n),
        cell_of(content, float) matches CellView::I32(n) ==> parsed_i32(content) == Some(n),
        cell_of(content, float) matches CellView::Bool(b) ==> content.len() == 1 && content[0] == (
        if b {
            't'
        } else {
            'f'
        }),
        content =~= seq!['t'] ==> cell_of(content, float) == CellView::Bool(true),
        content =~= seq!['f'] ==> cell_of(content, float) == CellView::Bool(false),
{
    if content =~= seq!['t'] || content =~= seq!['f'] {
        assert(unsigned_part(content) == content);
        assert(!crate::text::is_digit(content[0]));
    }
}

/// Every `i32` written in decimal reads back as that integer: no number is
/// taken for a boolean.
pub proof fn law_decimal_cells_read_as_integers(n: i32, float: bool)
    ensures
        cell_of(decimal_text(n as int), float) == CellView::I32(n),
{
    law_decimal_reads_back(n);
    law_integers_read_as_integers(decimal_text(n as int), float);
}

/// A cell reads as null exactly when it is empty and not a float, and as text
/// only when it is none of the other kinds; the text is the cell's own.
pub proof fn law_text_and_null_cells(content: Seq<char>, float: bool)
    ensures
        cell_of(content, float) is Null <==> content.len() == 0 && !float,
        cell_of(content, float) matches CellView::Text(t) ==> t == content && content.len() > 0
            && !float && parsed_i32(content) is None && content != seq!['t'] && content != seq![
            'f',
        ],
        cell_of(content, float) matches CellView::Float(t) ==> t == content && float,
{
    law_integers_read_as_integers(content, float);
    if content.len() == 0 {
        assert(content != seq!['t']) by {
            assert(seq!['t'].len() == 1);
        }
        assert(content != seq!['f']) by {
            assert(seq!['f'].len() == 1);
        }
    }
}

/// Access to an enum variant read from a cell: only variants without data.
pub struct UnitOnlyVariantAccess;

impl UnitOnlyVariantAccess {
    /// A variant without data is accepted.
    pub fn unit_variant(self) -> (r: Result<(), DeserializeError>)
        ensures
            r is Ok,
    {
        Ok(())
    }

    /// A variant holding one value is refused.
    pub fn newtype_variant_seed(self) -> (e: DeserializeError)
        ensures
            e@ == DeserializeErrorView::Unsupported("newtype variant"@),
    {
        DeserializeError::Unsupported(String::from_str("newtype variant"))
    }

    /// A variant holding a tuple is refused.
    pub fn tuple_variant(self) -> (e: DeserializeError)
        ensures
            e@ == DeserializeErrorView::Unsupported("tuple variant"@),
    {
        DeserializeError::Unsupported(String::from_str("tuple variant"))
    }

    /// A variant holding named fields is refused.
    pub fn struct_variant(self) -> (e: DeserializeError)
        ensures
            e@ == DeserializeErrorView::Unsupported("struct variant"@),
    {
        DeserializeError::Unsupported(String::from_str("struct variant"))
    }
}

} // verus!
