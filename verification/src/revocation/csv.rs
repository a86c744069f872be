//! Minimal RFC 4180 CSV writing and comma-split CSV reading.
//!
//! Writing quotes a field only when it must. Reading splits on commas
//! without honouring quotes: the files these tools produce hold only numbers,
//! plain identifiers and benchmark names.
use vstd::prelude::*;

use crate::text::{
    strings_view,
    append_chars, chars_contains, chars_eq, chars_to_string, is_whitespace, join, lemma_join_free,
    lemma_join_prefix, lemma_join_suffix, lemma_split_of_join, lines, lines_chars, split,
    split_chars, str_chars, strip_cr, trim, trim_chars, trim_end, trim_start,
};

verus! {

// ---------------------------------------------------------------------------
// Writing
// ---------------------------------------------------------------------------

pub open spec fn needs_quoting(s: Seq<char>) -> bool {
    s.contains(',') || s.contains('"') || s.contains('\n')
}

/// `s` with every `"` doubled.
pub open spec fn double_quotes(s: Seq<char>) -> Seq<char>
    decreases s.len(),
{
    if s.len() == 0 {
        Seq::empty()
    } else if s.last() == '"' {
        double_quotes(s.drop_last()) + seq!['"', '"']
    } else {
        double_quotes(s.drop_last()).push(s.last())
    }
}

/// The field as written: quoted, with inner quotes doubled, when it holds a
/// comma, a quote or a newline; as it is otherwise.
pub open spec fn escape_spec(s: Seq<char>) -> Seq<char> {
    if needs_quoting(s) {
        seq!['"'] + double_quotes(s) + seq!['"']
    } else {
        s
    }
}

/// One written row: the escaped fields joined by commas, then a newline.
pub open spec fn row_spec(fields: Seq<Seq<char>>) -> Seq<char> {
    join(fields.map_values(|f: Seq<char>| escape_spec(f)), ',').push('\n')
}

/// A whole file: the header row, then each data row.
pub open spec fn table_text_spec(headers: Seq<Seq<char>>, rows: Seq<Seq<Seq<char>>>) -> Seq<char>
    decreases rows.len(),
{
    if rows.len() == 0 {
        row_spec(headers)
    } else {
        table_text_spec(headers, rows.drop_last()) + row_spec(rows.last())
    }
}

fn escape_chars(value: &[char]) -> (v: Vec<char>)
    ensures
        v@ == escape_spec(value@),
{
    let quote = chars_contains(value, ',') || chars_contains(value, '"') || chars_contains(
        value,
        '\n',
    );
    if !quote {
        let mut v = Vec::new();
        append_chars(&mut v, value);
        assert(v@ =~= value@);
        return v;
    }
    let mut v: Vec<char> = Vec::new();
    v.push('"');
    for i in 0..value.len()
        invariant
            v@ == seq!['"'] + double_quotes(value@.take(i as int)),
    {
        assert(value@.take(i + 1).drop_last() == value@.take(i as int));
        if value[i] == '"' {
            v.push('"');
            v.push('"');
        } else {
            v.push(value[i]);
        }
        assert(v@ =~= seq!['"'] + double_quotes(value@.take(i + 1)));
    }
    assert(value@.take(value.len() as int) == value@);
    v.push('"');
    v
}

/// Quotes a field only when it needs quoting.
pub fn escape(value: &str) -> (s: String)
    ensures
        s@ == escape_spec(value@),
{
    let c = str_chars(value);
    let v = escape_chars(c.as_slice());
    chars_to_string(v.as_slice())
}

proof fn lemma_join_push(pieces: Seq<Seq<char>>, p: Seq<char>, sep: char)
    requires
        pieces.len() >= 1,
    ensures
        join(pieces.push(p), sep) == join(pieces, sep).push(sep) + p,
{
    assert(pieces.push(p).drop_last() == pieces);
}

/// Appends one written row to `out`.
pub fn write_row(out: &mut Vec<char>, fields: &[String])
    ensures
        final(out)@ == old(out)@ + row_spec(strings_view(fields@)),
{
    let ghost fv = strings_view(fields@);
    let ghost escaped = fv.map_values(|f: Seq<char>| escape_spec(f));
    let ghost start = out@;
    for i in 0..fields.len()
        invariant
            fv == strings_view(fields@),
            escaped == fv.map_values(|f: Seq<char>| escape_spec(f)),
            start == old(out)@,
            out@ == start + join(escaped.take(i as int), ','),
    {
        let ghost before = out@;
        if i > 0 {
            out.push(',');
        }
        let c = str_chars(fields[i].as_str());
        let e = escape_chars(c.as_slice());
        append_chars(out, e.as_slice());
        proof {
            assert(escaped.take(i + 1) == escaped.take(i as int).push(escaped[i as int]));
            assert(escaped[i as int] == e@);
            if i > 0 {
                lemma_join_push(escaped.take(i as int), escaped[i as int], ',');
                assert(out@ =~= start + join(escaped.take(i + 1), ','));
            } else {
                assert(join(escaped.take(1), ',') == escaped[0]);
                assert(out@ =~= start + join(escaped.take(i + 1), ','));
            }
        }
    }
    assert(escaped.take(fields.len() as int) == escaped);
    out.push('\n');
    assert(out@ =~= old(out)@ + row_spec(strings_view(fields@)));
}

/// The text of a CSV file: `headers`, then `rows`, one written row each.
pub fn table_text(headers: &[String], rows: &[Vec<String>]) -> (s: String)
    ensures
        s@ == table_text_spec(strings_view(headers@), rows@.map_values(|r: Vec<String>| strings_view(r@))),
{
    let ghost rv = rows@.map_values(|r: Vec<String>| strings_view(r@));
    let mut out: Vec<char> = Vec::new();
    write_row(&mut out, headers);
    assert(out@ =~= table_text_spec(strings_view(headers@), rv.take(0)));
    for i in 0..rows.len()
        invariant
            rv == rows@.map_values(|r: Vec<String>| strings_view(r@)),
            out@ == table_text_spec(strings_view(headers@), rv.take(i as int)),
    {
        write_row(&mut out, rows[i].as_slice());
        assert(rv.take(i + 1).drop_last() == rv.take(i as int));
    }
    assert(rv.take(rows.len() as int) == rv);
    chars_to_string(out.as_slice())
}

// ---------------------------------------------------------------------------
// Reading
// ---------------------------------------------------------------------------

/// Why a CSV value could not be read.
#[derive(Debug, PartialEq, Eq)]
pub enum CsvError {
    /// No header has this name.
    MissingColumn(String),
    /// The field of this column does not parse.
    Unparsable { column: String, raw: String },
}

/// A parsed CSV: header names plus one field vector per data row.
pub struct Table {
    headers: Vec<String>,
    rows: Vec<Vec<String>>,
}

/// The lines of the trimmed text.
pub open spec fn table_lines(text: Seq<char>) -> Seq<Seq<char>> {
    lines(trim(text))
}

/// The header names of a CSV text: the first line split on commas.
pub open spec fn headers_spec(text: Seq<char>) -> Seq<Seq<char>> {
    let ls = table_lines(text);
    split(if ls.len() > 0 { ls[0] } else { Seq::empty() }, ',')
}

/// The data rows of a CSV text: every further line split on commas.
pub open spec fn rows_spec(text: Seq<char>) -> Seq<Seq<Seq<char>>> {
    let ls = table_lines(text);
    if ls.len() > 0 {
        ls.drop_first().map_values(|l: Seq<char>| split(l, ','))
    } else {
        Seq::empty()
    }
}

fn pieces_to_strings(pieces: Vec<Vec<char>>) -> (out: Vec<String>)
    ensures
        strings_view(out@) == pieces@.map_values(|p: Vec<char>| p@),
{
    let mut out: Vec<String> = Vec::new();
    for i in 0..pieces.len()
        invariant
            out@.len() == i,
            strings_view(out@) == pieces@.take(i as int).map_values(|p: Vec<char>| p@),
    {
        let s = chars_to_string(pieces[i].as_slice());
        let ghost prev = out@;
        out.push(s);
        assert(out@ == prev.push(s));
        assert forall|k: int| 0 <= k < i + 1 implies #[trigger] strings_view(out@)[k]
            == pieces@.take(i + 1).map_values(|p: Vec<char>| p@)[k] by {
            if k < i {
                assert(strings_view(out@)[k] == strings_view(prev)[k]);
                assert(pieces@.take(i + 1)[k] == pieces@.take(i as int)[k]);
            }
        }
        assert(strings_view(out@) =~= pieces@.take(i + 1).map_values(|p: Vec<char>| p@));
    }
    assert(pieces@.take(pieces.len() as int) == pieces@);
    out
}

impl Table {
    pub closed spec fn headers_view(&self) -> Seq<Seq<char>> {
        strings_view(self.headers@)
    }

    pub closed spec fn rows_view(&self) -> Seq<Seq<Seq<char>>> {
        self.rows@.map_values(|r: Vec<String>| strings_view(r@))
    }

    /// Parses the text of a CSV file.
    pub fn from_text(text: &str) -> (t: Table)
        ensures
            t.headers_view() == headers_spec(text@),
            t.rows_view() == rows_spec(text@),
    {
        let chars = str_chars(text);
        let trimmed = trim_chars(chars.as_slice());
        let ls = lines_chars(trimmed.as_slice());
        let ghost lsv = table_lines(text@);
        let headers = if ls.len() > 0 {
            pieces_to_strings(split_chars(ls[0].as_slice(), ','))
        } else {
            let empty: Vec<char> = Vec::new();
            pieces_to_strings(split_chars(empty.as_slice(), ','))
        };
        proof {
            let first = if lsv.len() > 0 { lsv[0] } else { Seq::empty() };
            assert(strings_view(headers@) =~= split(first, ','));
        }
        let mut rows: Vec<Vec<String>> = Vec::new();
        let mut i: usize = 1;
        while i < ls.len()
            invariant
                1 <= i,
                ls.len() > 0 ==> i <= ls.len(),
                ls.len() == 0 ==> i == 1,
                lsv == table_lines(text@),
                ls@.len() == lsv.len(),
                forall|k: int| 0 <= k < ls@.len() ==> (#[trigger] ls@[k])@ == lsv[k],
                rows@.len() == i - 1,
                forall|k: int|
                    0 <= k < rows@.len() ==> strings_view((#[trigger] rows@[k])@) == split(
                        lsv[k + 1],
                        ',',
                    ),
            decreases ls.len() - i,
        {
            let r = pieces_to_strings(split_chars(ls[i].as_slice(), ','));
            proof {
                assert(strings_view(r@) =~= split(lsv[i as int], ','));
            }
            rows.push(r);
            i = i + 1;
        }
        let t = Table { headers, rows };
        proof {
            if lsv.len() > 0 {
                assert(rows@.len() == lsv.len() - 1);
                assert forall|k: int| 0 <= k < rows@.len() implies #[trigger] t.rows_view()[k]
                    == rows_spec(text@)[k] by {
                    assert(lsv.drop_first()[k] == lsv[k + 1]);
                }
                assert(t.rows_view() =~= rows_spec(text@));
            } else {
                assert(t.rows_view() =~= rows_spec(text@));
            }
        }
        t
    }

    pub fn headers(&self) -> (h: &[String])
        ensures
            strings_view(h@) == self.headers_view(),
    {
        self.headers.as_slice()
    }

    /// Index of the first column named `name`.
    pub fn column(&self, name: &str) -> (r: Result<usize, CsvError>)
        ensures
            match r {
                Ok(i) => i < self.headers_view().len() && self.headers_view()[i as int] == name@
                    && forall|k: int| 0 <= k < i ==> self.headers_view()[k] != name@,
                Err(e) => e == CsvError::MissingColumn(e->MissingColumn_0) && e->MissingColumn_0@
                    == name@ && forall|k: int|
                    0 <= k < self.headers_view().len() ==> self.headers_view()[k] != name@,
            },
    {
        let target = str_chars(name);
        for i in 0..self.headers.len()
            invariant
                target@ == name@,
                forall|k: int| 0 <= k < i ==> self.headers_view()[k] != name@,
        {
            let h = str_chars(self.headers[i].as_str());
            if chars_eq(h.as_slice(), target.as_slice()) {
                return Ok(i);
            }
        }
        Err(CsvError::MissingColumn(chars_to_string(target.as_slice())))
    }

    /// The data rows; each holds one field per header.
    pub fn rows(&self) -> (r: Vec<Record<'_>>)
        ensures
            r@.len() == self.rows_view().len(),
            forall|i: int| 0 <= i < r@.len() ==> (#[trigger] r@[i]).fields_view() == self.rows_view()[i],
    {
        let mut out: Vec<Record<'_>> = Vec::new();
        for i in 0..self.rows.len()
            invariant
                out@.len() == i,
                forall|k: int| 0 <= k < i ==> (#[trigger] out@[k]).fields_view() == self.rows_view()[k],
        {
            out.push(Record { fields: self.rows[i].as_slice() });
        }
        out
    }
}

/// A value that a CSV field can be read as.
pub trait FromField: Sized {
    /// What the field text reads as, or `None` when it does not parse.
    spec fn field_spec(text: Seq<char>) -> Option<Self>;

    fn from_field(text: &[char]) -> (r: Option<Self>)
        ensures
            r == Self::field_spec(text@),
    ;
}

impl FromField for u64 {
    open spec fn field_spec(text: Seq<char>) -> Option<u64> {
        match crate::text::parse_unsigned_spec(text, u64::MAX as nat) {
            Some(v) => Some(v as u64),
            None => None,
        }
    }

    fn from_field(text: &[char]) -> (r: Option<u64>) {
        crate::text::parse_unsigned(text, u64::MAX)
    }
}

impl FromField for usize {
    open spec fn field_spec(text: Seq<char>) -> Option<usize> {
        match crate::text::parse_unsigned_spec(text, usize::MAX as nat) {
            Some(v) => Some(v as usize),
            None => None,
        }
    }

    fn from_field(text: &[char]) -> (r: Option<usize>) {
        match crate::text::parse_unsigned(text, usize::MAX as u64) {
            Some(v) => Some(v as usize),
            None => None,
        }
    }
}

/// One data row of a [`Table`].
pub struct Record<'a> {
    fields: &'a [String],
}

/// The text of field `index`, empty when the row is shorter.
pub open spec fn field_text(fields: Seq<Seq<char>>, index: int) -> Seq<char> {
    if 0 <= index < fields.len() {
        fields[index]
    } else {
        Seq::empty()
    }
}

impl<'a> Record<'a> {
    pub closed spec fn fields_view(&self) -> Seq<Seq<char>> {
        strings_view(self.fields@)
    }

    /// The raw text of column `index`, empty when the row is short.
    pub fn text(&self, index: usize) -> (s: &str)
        ensures
            s@ == field_text(self.fields_view(), index as int),
    {
        if index < self.fields.len() {
            self.fields[index].as_str()
        } else {
            proof {
                reveal_strlit("");
            }
            ""
        }
    }

    /// Parses column `index`; an empty or malformed field is an error naming
    /// the column.
    pub fn parse<T: FromField>(&self, index: usize, name: &str) -> (r: Result<T, CsvError>)
        ensures
            match T::field_spec(field_text(self.fields_view(), index as int)) {
                Some(v) => r == Ok::<T, CsvError>(v),
                None => r matches Err(CsvError::Unparsable { column, raw }) && column@ == name@
                    && raw@ == field_text(self.fields_view(), index as int),
            },
    {
        let raw = str_chars(self.text(index));
        match T::from_field(raw.as_slice()) {
            Some(v) => Ok(v),
            None => Err(
                CsvError::Unparsable {
                    column: chars_to_string(str_chars(name).as_slice()),
                    raw: chars_to_string(raw.as_slice()),
                },
            ),
        }
    }

    /// Parses column `index`, treating an empty field as `None`.
    pub fn parse_opt<T: FromField>(&self, index: usize, name: &str) -> (r: Result<
        Option<T>,
        CsvError,
    >)
        ensures
            field_text(self.fields_view(), index as int).len() == 0 ==> r == Ok::<
                Option<T>,
                CsvError,
            >(None),
            field_text(self.fields_view(), index as int).len() > 0 ==> match T::field_spec(
                field_text(self.fields_view(), index as int),
            ) {
                Some(v) => r == Ok::<Option<T>, CsvError>(Some(v)),
                None => r matches Err(CsvError::Unparsable { column, raw }) && column@ == name@
                    && raw@ == field_text(self.fields_view(), index as int),
            },
    {
        let t = str_chars(self.text(index));
        if t.len() == 0 {
            return Ok(None);
        }
        match self.parse::<T>(index, name) {
            Ok(v) => Ok(Some(v)),
            Err(e) => Err(e),
        }
    }
}


// ---------------------------------------------------------------------------
// Writing, then reading
// ---------------------------------------------------------------------------

/// A field that the writer leaves unquoted and the reader keeps whole: no
/// comma, quote, line feed or carriage return.
pub open spec fn plain_field(f: Seq<char>) -> bool {
    !f.contains(',') && !f.contains('"') && !f.contains('\n') && !f.contains('\r')
}

/// A row of at least one plain field.
pub open spec fn plain_row(fields: Seq<Seq<char>>) -> bool {
    fields.len() >= 1 && forall|i: int| 0 <= i < fields.len() ==> plain_field(#[trigger] fields[i])
}

/// The lines a table of plain rows is written as, without their line feeds.
pub open spec fn written_lines(headers: Seq<Seq<char>>, rows: Seq<Seq<Seq<char>>>) -> Seq<
    Seq<char>,
> {
    seq![join(headers, ',')] + rows.map_values(|r: Seq<Seq<char>>| join(r, ','))
}

/// The tables that read back as written: plain rows, and a text that does
/// not begin or end with whitespace, which the reader trims away.
pub open spec fn reads_back(headers: Seq<Seq<char>>, rows: Seq<Seq<Seq<char>>>) -> bool {
    let first = join(headers, ',');
    let last = written_lines(headers, rows).last();
    &&& plain_row(headers)
    &&& forall|i: int| 0 <= i < rows.len() ==> plain_row(#[trigger] rows[i])
    &&& first.len() > 0 && !is_whitespace(first[0])
    &&& last.len() > 0 && !is_whitespace(last.last())
}

proof fn lemma_plain_row_text(fields: Seq<Seq<char>>)
    requires
        plain_row(fields),
    ensures
        row_spec(fields) == join(fields, ',').push('\n'),
        !join(fields, ',').contains('\n'),
        !join(fields, ',').contains('\r'),
{
    assert(fields.map_values(|f: Seq<char>| escape_spec(f)) =~= fields) by {
        assert forall|i: int| 0 <= i < fields.len() implies escape_spec(fields[i]) == fields[i] by {
            assert(plain_field(fields[i]));
        }
    }
    lemma_join_free(fields, ',', '\n');
    lemma_join_free(fields, ',', '\r');
}

proof fn lemma_table_text_lines(headers: Seq<Seq<char>>, rows: Seq<Seq<Seq<char>>>)
    requires
        plain_row(headers),
        forall|i: int| 0 <= i < rows.len() ==> plain_row(#[trigger] rows[i]),
    ensures
        table_text_spec(headers, rows) == join(written_lines(headers, rows), '\n').push('\n'),
        forall|i: int|
            0 <= i < written_lines(headers, rows).len() ==> !(#[trigger] written_lines(
                headers,
                rows,
            )[i]).contains('\n') && !written_lines(headers, rows)[i].contains('\r'),
    decreases rows.len(),
{
    let ls = written_lines(headers, rows);
    lemma_plain_row_text(headers);
    if rows.len() == 0 {
        assert(ls =~= seq![join(headers, ',')]);
    } else {
        let init = rows.drop_last();
        assert forall|i: int| 0 <= i < init.len() implies plain_row(#[trigger] init[i]) by {
            assert(init[i] == rows[i]);
        }
        lemma_table_text_lines(headers, init);
        assert(plain_row(rows.last())) by {
            assert(rows[rows.len() - 1] == rows.last());
        }
        lemma_plain_row_text(rows.last());
        let prev = written_lines(headers, init);
        assert(ls =~= prev.push(join(rows.last(), ',')));
        assert(ls.drop_last() =~= prev);
        assert(join(ls, '\n') == join(prev, '\n').push('\n') + join(rows.last(), ','));
        assert(table_text_spec(headers, rows) =~= join(ls, '\n').push('\n'));
        assert forall|i: int| 0 <= i < ls.len() implies !(#[trigger] ls[i]).contains('\n')
            && !ls[i].contains('\r') by {
            if i < prev.len() {
                assert(ls[i] == prev[i]);
            }
        }
    }
}

/// Reading back what `table_text` writes gives its headers and rows, for
/// every table whose fields hold no comma, quote or line break and whose
/// text neither begins nor ends with whitespace.
pub proof fn lemma_table_reads_back(headers: Seq<Seq<char>>, rows: Seq<Seq<Seq<char>>>)
    requires
        reads_back(headers, rows),
    ensures
        headers_spec(table_text_spec(headers, rows)) == headers,
        rows_spec(table_text_spec(headers, rows)) == rows,
{
    let ls = written_lines(headers, rows);
    lemma_table_text_lines(headers, rows);
    let x = join(ls, '\n');
    let t = x.push('\n');
    assert(table_text_spec(headers, rows) == t);
    // The reader's trim removes exactly the final line feed.
    lemma_join_prefix(ls, '\n');
    lemma_join_suffix(ls, '\n');
    assert(ls[0] == join(headers, ','));
    assert(x.take(ls[0].len() as int)[0] == x[0]);
    assert(t[0] == x[0]);
    assert(trim_start(t) == t);
    assert(x.skip(x.len() - ls.last().len()).last() == x.last());
    assert(t.drop_last() =~= x);
    assert(is_whitespace('\n'));
    assert(trim_end(t) == trim_end(x));
    assert(trim_end(x) == x);
    assert(trim(t) == x);
    // The lines are the written ones.
    lemma_split_of_join(ls, '\n');
    assert(ls.drop_last().map_values(|p: Seq<char>| strip_cr(p)) =~= ls.drop_last()) by {
        assert forall|i: int| 0 <= i < ls.len() - 1 implies strip_cr(ls[i]) == ls[i] by {
            assert(!ls[i].contains('\r'));
            if ls[i].len() > 0 {
                assert(ls[i][ls[i].len() - 1] == ls[i].last());
            }
        }
    }
    assert(lines(x) =~= ls);
    assert(table_lines(t) == ls);
    // Each line splits into its fields.
    lemma_split_of_join(headers, ',');
    assert(ls.drop_first() =~= rows.map_values(|r: Seq<Seq<char>>| join(r, ',')));
    assert(rows_spec(t) =~= rows) by {
        assert forall|i: int| 0 <= i < rows.len() implies split(join(rows[i], ','), ',')
            == rows[i] by {
            assert(plain_row(rows[i]));
            lemma_split_of_join(rows[i], ',');
        }
    }
}

} // verus!
