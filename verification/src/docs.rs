//! Documents read from JSON lines: which lines give a document, and how
//! documents are gathered into fixed-size column batches for indexing.

use std::sync::Arc;
use arrow_array::RecordBatch;
use arrow_schema::{ArrowError, Schema};
use vstd::prelude::*;
use crate::text::{
    chars_of, is_white_space, lemma_trim_idempotent, lemma_trim_surrounding, trim, trim_spec,
};

verus! {

/// The number of documents per batch when none is given.
pub const DEFAULT_BATCH_SIZE: usize = 10000;

/// The batch size to use: the one given, else `DEFAULT_BATCH_SIZE`.
pub fn batch_size_or_default(batch_size: Option<usize>) -> (r: usize)
    ensures
        r == match batch_size {
            Some(n) => n,
            None => DEFAULT_BATCH_SIZE,
        },
{
    match batch_size {
        Some(n) => n,
        None => DEFAULT_BATCH_SIZE,
    }
}

/// A running count of result rows plus `rows` more; `None` when the count
/// would not fit in `usize`.
pub fn add_rows(count: usize, rows: usize) -> (r: Option<usize>)
    ensures
        count + rows <= usize::MAX <==> r is Some,
        r matches Some(n) ==> n == count + rows,
{
    count.checked_add(rows)
}

/// One member of a JSON object as the document reader sees it: a string,
/// a number in its displayed form, or any other kind of value.
#[derive(Debug, Clone, PartialEq, Eq)]
pub enum JsonField {
    Text(String),
    Number(String),
    Other,
}

/// The mathematical value of a `JsonField`.
pub enum JsonFieldView {
    Text(Seq<char>),
    Number(Seq<char>),
    Other,
}

impl View for JsonField {
    type V = JsonFieldView;

    open spec fn view(&self) -> JsonFieldView {
        match self {
            JsonField::Text(s) => JsonFieldView::Text(s@),
            JsonField::Number(s) => JsonFieldView::Number(s@),
            JsonField::Other => JsonFieldView::Other,
        }
    }
}

pub open spec fn field_view(f: Option<JsonField>) -> Option<JsonFieldView> {
    match f {
        Some(x) => Some(x@),
        None => None,
    }
}

pub open spec fn fields_view(v: Vec<Option<JsonField>>) -> Seq<Option<JsonFieldView>> {
    v@.map_values(|f: Option<JsonField>| field_view(f))
}

pub open spec fn keys_view(v: Seq<String>) -> Seq<Seq<char>> {
    v.map_values(|s: String| s@)
}

/// The JSON text `text` parsed as a `serde_json::Value`: `None` when it is
/// not valid JSON; otherwise, for each key in `keys`, the member of that
/// name when the value is an object that has one (`None` else), as a
/// string, a number in its displayed form, or another kind of value.
pub uninterp spec fn json_members(text: Seq<char>, keys: Seq<Seq<char>>) -> Option<
    Seq<Option<JsonFieldView>>,
>;

/// Parses `text` with `serde_json::from_str` into a `serde_json::Value` and
/// looks up each key with `serde_json::Value::get`, telling strings and
/// numbers (shown through their `Display`) from other values. The contract
/// claims that the result is `json_members` of the arguments, with one
/// entry per key (the conversion below maps over `keys`).
#[verifier::external_body]
fn json_lookup(text: &str, keys: &Vec<String>) -> (r: Option<Vec<Option<JsonField>>>)
    ensures
        r is None <==> json_members(text@, keys_view(keys@)) is None,
        r matches Some(v) ==> json_members(text@, keys_view(keys@)) == Some(fields_view(v)),
        r matches Some(v) ==> v@.len() == keys@.len(),
{
    let value: serde_json::Value = serde_json::from_str(text).ok()?;
    Some(keys.iter().map(|k| value.get(k.as_str()).map(|v| match v {
        serde_json::Value::String(s) => JsonField::Text(s.clone()),
        serde_json::Value::Number(n) => JsonField::Number(n.to_string()),
        _ => JsonField::Other,
    })).collect())
}

/// The document that an `id` member and a `text` member give: the id may
/// be a string or a number, the text must be a string.
pub open spec fn doc_of_fields(id: Option<JsonFieldView>, text: Option<JsonFieldView>) -> Option<
    (Seq<char>, Seq<char>),
> {
    match (id, text) {
        (Some(JsonFieldView::Text(i)), Some(JsonFieldView::Text(t))) => Some((i, t)),
        (Some(JsonFieldView::Number(i)), Some(JsonFieldView::Text(t))) => Some((i, t)),
        _ => None,
    }
}

/// Any string text gives a document, the empty text included: an id given
/// as a string or as a number, with a text given as a string, is the
/// document (id, text); a missing or non-string text, or a missing id or
/// one of another kind, gives none.
pub proof fn lemma_doc_of_fields(id: Seq<char>, text: Seq<char>, other: Option<JsonFieldView>)
    ensures
        doc_of_fields(Some(JsonFieldView::Text(id)), Some(JsonFieldView::Text(text))) == Some(
            (id, text),
        ),
        doc_of_fields(Some(JsonFieldView::Number(id)), Some(JsonFieldView::Text(text))) == Some(
            (id, text),
        ),
        !(other matches Some(JsonFieldView::Text(_))) ==> doc_of_fields(
            Some(JsonFieldView::Text(id)),
            other,
        ) is None,
        !(other matches Some(JsonFieldView::Text(_))) ==> doc_of_fields(
            Some(JsonFieldView::Number(id)),
            other,
        ) is None,
        !(other matches Some(JsonFieldView::Text(_))) && !(other matches Some(
            JsonFieldView::Number(_),
        )) ==> doc_of_fields(other, Some(JsonFieldView::Text(text))) is None,
{
}

/// A line whose JSON has a string or number `id` and a string `text` gives
/// that document, whatever the text holds (the empty text included).
pub proof fn lemma_doc_line_of_members(line: Seq<char>, id: JsonFieldView, text: Seq<char>)
    requires
        trim_spec(line).len() > 0,
        id is Text || id is Number,
        json_members(trim_spec(line), seq!["id"@, "text"@]) matches Some(f) && f.len() == 2
            && f[0] == Some(id) && f[1] == Some(JsonFieldView::Text(text)),
    ensures
        doc_line_spec(line) == Some(
            (
                match id {
                    JsonFieldView::Text(i) => i,
                    JsonFieldView::Number(i) => i,
                    JsonFieldView::Other => Seq::empty(),
                },
                text,
            ),
        ),
{
}

/// The document (id, text) that one input line gives: the line, trimmed of
/// white space, must be nonempty JSON with an `id` that is a string or a
/// number and a `text` that is a string.
pub open spec fn doc_line_spec(line: Seq<char>) -> Option<(Seq<char>, Seq<char>)> {
    let t = trim_spec(line);
    if t.len() == 0 {
        None
    } else {
        match json_members(t, seq!["id"@, "text"@]) {
            None => None,
            Some(f) => doc_of_fields(f[0], f[1]),
        }
    }
}

/// The document that the members `id` and `text` give (see
/// `doc_of_fields`).
pub fn doc_from_fields(id: Option<JsonField>, text: Option<JsonField>) -> (r: Option<
    (String, String),
>)
    ensures
        r is None <==> doc_of_fields(field_view(id), field_view(text)) is None,
        r matches Some((i, t)) ==> doc_of_fields(field_view(id), field_view(text)) == Some(
            (i@, t@),
        ),
{
    let id = match id {
        Some(JsonField::Text(s)) => s,
        Some(JsonField::Number(s)) => s,
        _ => return None,
    };
    match text {
        Some(JsonField::Text(t)) => Some((id, t)),
        _ => None,
    }
}

/// The document (id, text) of one input line (see `doc_line_spec`).
pub fn parse_doc_line(line: &str) -> (r: Option<(String, String)>)
    ensures
        r is None <==> doc_line_spec(line@) is None,
        r matches Some((i, t)) ==> doc_line_spec(line@) == Some((i@, t@)),
{
    let trimmed = trim(line);
    if trimmed.as_str().is_empty() {
        return None;
    }
    let keys: Vec<String> = vec!["id".to_string(), "text".to_string()];
    assert(keys_view(keys@) == seq!["id"@, "text"@]);
    match json_lookup(trimmed.as_str(), &keys) {
        None => None,
        Some(mut fields) => {
            let ghost f = fields_view(fields);
            let text = fields.pop().unwrap();
            let id = fields.pop().unwrap();
            assert(field_view(id) == f[0]);
            assert(field_view(text) == f[1]);
            doc_from_fields(id, text)
        },
    }
}


/// White space around a line never changes the document it gives: the
/// line, the line trimmed, and the line with white space added before and
/// after it all give the same document, or all none.
pub proof fn lemma_doc_line_surrounding(pre: Seq<char>, line: Seq<char>, post: Seq<char>)
    requires
        forall|k: int| 0 <= k < pre.len() ==> is_white_space(#[trigger] pre[k]),
        forall|k: int| 0 <= k < post.len() ==> is_white_space(#[trigger] post[k]),
    ensures
        doc_line_spec(trim_spec(line)) == doc_line_spec(line),
        doc_line_spec(pre + line + post) == doc_line_spec(line),
{
    lemma_trim_idempotent(line);
    lemma_trim_surrounding(pre, line, post);
}

#[verifier::external_type_specification]
#[verifier::external_body]
pub struct ExSchema(arrow_schema::Schema);

/// A record batch of documents: an `arrow_array::RecordBatch` with an id
/// column and a text column, held as it is and read through
/// `batch_columns` and `batch_fields`.
#[verifier::external_body]
pub struct DocRecordBatch(pub RecordBatch);

#[verifier::external_type_specification]
#[verifier::external_body]
pub struct ExArrowError(arrow_schema::ArrowError);

/// A field of a schema: its name, whether its values are UTF-8 strings,
/// and whether it is nullable.
pub struct FieldSpec {
    pub name: Seq<char>,
    pub utf8: bool,
    pub nullable: bool,
}

/// The fields of the schema `s`, in order.
pub uninterp spec fn schema_fields(s: Schema) -> Seq<FieldSpec>;

/// The columns that the record batch `b` holds, in order, each as its
/// strings in row order.
pub uninterp spec fn batch_columns(b: DocRecordBatch) -> Seq<Seq<Seq<char>>>;

/// The fields of the schema of the record batch `b`.
pub uninterp spec fn batch_fields(b: DocRecordBatch) -> Seq<FieldSpec>;

/// The strings of a column, as character sequences.
pub open spec fn column_view(c: Seq<String>) -> Seq<Seq<char>> {
    c.map_values(|s: String| s@)
}

/// The UTF-8 byte length of `s`, as `str::len` gives it.
pub open spec fn byte_len(s: Seq<char>) -> nat {
    (vstd::utf8::encode_utf8(s).len() as usize) as nat
}

/// The UTF-8 bytes of all strings of a column.
pub open spec fn column_bytes(c: Seq<Seq<char>>) -> nat
    decreases c.len(),
{
    if c.len() == 0 {
        0
    } else {
        column_bytes(c.drop_last()) + byte_len(c.last())
    }
}

/// The most UTF-8 bytes that one string column of a record batch holds
/// (its offsets are `i32`).
pub open spec fn max_column_bytes() -> nat {
    0x7fff_ffff
}

/// Builds, with `arrow_schema::Schema::new` and `arrow_schema::Field::new`,
/// a schema of one UTF-8 column per name, in order, nullable as `nullable`
/// says. The contract claims just that, over `schema_fields`.
#[verifier::external_body]
fn utf8_schema(names: &Vec<String>, nullable: bool) -> (r: Arc<Schema>)
    ensures
        schema_fields(*r) == column_view(names@).map_values(
            |n: Seq<char>| FieldSpec { name: n, utf8: true, nullable },
        ),
{
    let fields: Vec<arrow_schema::Field> = names.iter().map(
        |n| arrow_schema::Field::new(n.as_str(), arrow_schema::DataType::Utf8, nullable),
    ).collect();
    Arc::new(Schema::new(fields))
}

/// Builds, with `arrow_array::StringArray::from` and
/// `arrow_array::RecordBatch::try_new`, a batch of `schema` whose columns
/// are string arrays of `columns`, in order. `StringArray::from` panics
/// when a column holds more than `i32::MAX` bytes, so `requires` leaves such
/// columns out. The string arrays have no nulls and the UTF-8 type, so on a
/// schema of UTF-8 fields `try_new` succeeds exactly when there is one
/// column per field, at least one column, and all columns have the same
/// length; the batch then holds the schema and the columns as given.
#[verifier::external_body]
fn utf8_record_batch(schema: &Arc<Schema>, columns: Vec<Vec<String>>) -> (r: Result<
    DocRecordBatch,
    ArrowError,
>)
    requires
        forall|i: int|
            0 <= i < columns@.len() ==> column_bytes(column_view(#[trigger] columns@[i]@))
                <= max_column_bytes(),
    ensures
        (forall|i: int|
            0 <= i < schema_fields(**schema).len() ==> (#[trigger] schema_fields(**schema)[i]).utf8)
            ==> (r is Ok <==> {
            &&& columns@.len() == schema_fields(**schema).len()
            &&& columns@.len() > 0
            &&& forall|i: int|
                0 <= i < columns@.len() ==> (#[trigger] columns@[i])@.len() == columns@[0]@.len()
        }),
        r matches Ok(b) ==> batch_columns(b) == columns@.map_values(|c: Vec<String>| column_view(c@))
            && batch_fields(b) == schema_fields(**schema),
{
    let arrays: Vec<arrow_array::ArrayRef> = columns.into_iter().map(
        |c| Arc::new(arrow_array::StringArray::from(c)) as arrow_array::ArrayRef,
    ).collect();
    RecordBatch::try_new(schema.clone(), arrays).map(DocRecordBatch)
}

/// Another handle on the same value, through `Arc::clone`.
#[verifier::external_body]
fn share<T>(a: &Arc<T>) -> (r: Arc<T>)
    ensures
        r == *a,
{
    a.clone()
}

/// The fields of a document batch: a non-nullable UTF-8 `id` field and a
/// non-nullable UTF-8 `text` field.
pub open spec fn doc_fields() -> Seq<FieldSpec> {
    seq![
        FieldSpec { name: "id"@, utf8: true, nullable: false },
        FieldSpec { name: "text"@, utf8: true, nullable: false },
    ]
}

/// Whether the id column and the text column of `rows` each fit in a
/// string array.
pub open spec fn rows_fit(rows: Seq<(Seq<char>, Seq<char>)>) -> bool {
    &&& column_bytes(rows.map_values(|r: (Seq<char>, Seq<char>)| r.0)) <= max_column_bytes()
    &&& column_bytes(rows.map_values(|r: (Seq<char>, Seq<char>)| r.1)) <= max_column_bytes()
}

/// Whether the strings of `c` fit in one string array.
pub fn column_fits(c: &Vec<String>) -> (r: bool)
    ensures
        r == (column_bytes(column_view(c@)) <= max_column_bytes()),
{
    let mut total: usize = 0;
    let mut i: usize = 0;
    while i < c.len()
        invariant
            i <= c.len(),
            total == column_bytes(column_view(c@).take(i as int)),
            total <= max_column_bytes(),
        decreases c.len() - i,
    {
        let n = c[i].as_str().len();
        assert(column_view(c@).take(i + 1).drop_last() == column_view(c@).take(i as int));
        assert(column_view(c@)[i as int] == c@[i as int]@);
        if n > 0x7fff_ffff - total {
            proof {
                lemma_column_bytes_prefix(column_view(c@), i + 1, c.len() as int);
                assert(column_view(c@).take(c.len() as int) == column_view(c@));
            }
            return false;
        }
        total = total + n;
        i = i + 1;
    }
    assert(column_view(c@).take(c.len() as int) == column_view(c@));
    true
}

proof fn lemma_column_bytes_prefix(c: Seq<Seq<char>>, i: int, j: int)
    requires
        0 <= i <= j <= c.len(),
    ensures
        column_bytes(c.take(i)) <= column_bytes(c.take(j)),
    decreases j - i,
{
    if i < j {
        lemma_column_bytes_prefix(c, i, j - 1);
        assert(c.take(j).drop_last() == c.take(j - 1));
    }
}

/// The state of a document batcher: its batch size, whether the input has
/// ended, and the (id, text) rows gathered for the batch being built.
pub struct DocBatchState {
    pub batch_size: nat,
    pub done: bool,
    pub rows: Seq<(Seq<char>, Seq<char>)>,
}

/// Gathers documents, one input line at a time, into batches of at most
/// `batch_size` rows with an `id` and a `text` column. The reader that
/// feeds it asks `wants_line` before each line it reads.
pub struct DocBatcher {
    schema: Arc<Schema>,
    batch_size: usize,
    done: bool,
    rows: Vec<(String, String)>,
}

pub open spec fn row_view(r: (String, String)) -> (Seq<char>, Seq<char>) {
    (r.0@, r.1@)
}

pub open spec fn rows_view(rows: Seq<(String, String)>) -> Seq<(Seq<char>, Seq<char>)> {
    rows.map_values(|r: (String, String)| row_view(r))
}

impl View for DocBatcher {
    type V = DocBatchState;

    closed spec fn view(&self) -> DocBatchState {
        DocBatchState {
            batch_size: self.batch_size as nat,
            done: self.done,
            rows: rows_view(self.rows@),
        }
    }
}

/// The id column and the text column of `rows`.
fn split_columns(rows: &Vec<(String, String)>) -> (r: (Vec<String>, Vec<String>))
    ensures
        r.0@.len() == r.1@.len() == rows@.len(),
        forall|i: int| 0 <= i < rows@.len() ==> #[trigger] row_view(rows@[i]) == (r.0@[i]@, r.1@[i]@),
{
    let mut ids: Vec<String> = Vec::new();
    let mut texts: Vec<String> = Vec::new();
    let n = rows.len();
    let mut i: usize = 0;
    while i < n
        invariant
            i <= n == rows@.len(),
            ids@.len() == i,
            texts@.len() == i,
            forall|k: int| 0 <= k < i ==> #[trigger] row_view(rows@[k]) == (ids@[k]@, texts@[k]@),
        decreases n - i,
    {
        let id = rows[i].0.clone();
        let text = rows[i].1.clone();
        ids.push(id);
        texts.push(text);
        i = i + 1;
    }
    (ids, texts)
}

impl DocBatcher {
    #[verifier::type_invariant]
    spec fn well_formed(self) -> bool {
        &&& self.rows.len() <= self.batch_size
        &&& schema_fields(*self.schema) == doc_fields()
    }

    /// A batcher for batches of `batch_size` rows, with no input read yet.
    pub fn new(batch_size: usize) -> (b: Self)
        ensures
            b@.batch_size == batch_size,
            !b@.done,
            b@.rows.len() == 0,
    {
        let names: Vec<String> = vec!["id".to_string(), "text".to_string()];
        let schema = utf8_schema(&names, false);
        assert(schema_fields(*schema) =~= doc_fields());
        DocBatcher { schema, batch_size, done: false, rows: Vec::new() }
    }

    /// The schema of the batches: a non-nullable UTF-8 `id` column and a
    /// non-nullable UTF-8 `text` column.
    pub fn schema(&self) -> (r: Arc<Schema>)
        ensures
            schema_fields(*r) == doc_fields(),
    {
        proof {
            use_type_invariant(self);
        }
        share(&self.schema)
    }

    /// Whether the rows gathered fit in a record batch: each of the id and
    /// text columns holds at most `i32::MAX` bytes of UTF-8.
    pub fn batch_fits(&self) -> (r: bool)
        ensures
            r == rows_fit(self@.rows),
    {
        let (ids, texts) = split_columns(&self.rows);
        proof {
            lemma_columns_of_rows(rows_view(self.rows@), ids@, texts@);
        }
        column_fits(&ids) && column_fits(&texts)
    }

    /// Starts a new batch, dropping rows of one that was not finished;
    /// `false`, with nothing changed, once the input has ended.
    pub fn start_batch(&mut self) -> (started: bool)
        ensures
            started == !old(self)@.done,
            final(self)@ == start_state(old(self)@),
    {
        proof {
            use_type_invariant(&*self);
        }
        if self.done {
            return false;
        }
        self.rows = Vec::new();
        assert(rows_view(self.rows@) == Seq::<(Seq<char>, Seq<char>)>::empty());
        true
    }

    /// Whether the batch being built takes another input line: the input
    /// has not ended and the batch holds fewer than `batch_size` rows.
    pub fn wants_line(&self) -> (r: bool)
        ensures
            r == wants_line_spec(self@),
            self@.rows.len() <= self@.batch_size,
    {
        proof {
            use_type_invariant(self);
        }
        !self.done && self.rows.len() < self.batch_size
    }

    /// Takes one input line: when it holds a document (see
    /// `doc_line_spec`), its row joins the batch; other lines are skipped.
    pub fn push_line(&mut self, line: &str)
        requires
            !old(self)@.done,
            old(self)@.rows.len() < old(self)@.batch_size,
        ensures
            final(self)@ == push_state(old(self)@, line@),
    {
        proof {
            use_type_invariant(&*self);
        }
        match parse_doc_line(line) {
            Some(row) => {
                let ghost rows0 = self.rows@;
                let mut rows: Vec<(String, String)> = Vec::new();
                std::mem::swap(&mut rows, &mut self.rows);
                rows.push(row);
                self.rows = rows;
                assert(rows_view(self.rows@) == rows_view(rows0).push(row_view(row)));
            },
            None => {},
        }
    }

    /// Records that the input has ended.
    pub fn end_of_input(&mut self)
        ensures
            final(self)@ == end_state(old(self)@),
    {
        proof {
            use_type_invariant(&*self);
        }
        self.done = true;
    }

    /// Hands out the rows gathered, as an id column and a text column, and
    /// empties the batch; `None`, with nothing changed, when it is empty.
    pub fn take_rows(&mut self) -> (r: Option<(Vec<String>, Vec<String>)>)
        ensures
            final(self)@.batch_size == old(self)@.batch_size,
            final(self)@.done == old(self)@.done,
            old(self)@.rows.len() == 0 <==> r is None,
            r is None ==> final(self)@.rows == old(self)@.rows,
            r matches Some((ids, texts)) ==> {
                &&& final(self)@.rows.len() == 0
                &&& ids@.len() == texts@.len() == old(self)@.rows.len()
                &&& forall|i: int|
                    0 <= i < ids@.len() ==> old(self)@.rows[i] == (#[trigger] ids@[i]@, texts@[i]@)
            },
    {
        proof {
            use_type_invariant(&*self);
        }
        if self.rows.len() == 0 {
            return None;
        }
        let mut rows: Vec<(String, String)> = Vec::new();
        std::mem::swap(&mut rows, &mut self.rows);
        assert(rows_view(self.rows@) == Seq::<(Seq<char>, Seq<char>)>::empty());
        let ghost all = rows@;
        let (ids, texts) = split_columns(&rows);
        assert forall|i: int| 0 <= i < ids@.len() implies old(self)@.rows[i] == (
            #[trigger] ids@[i]@,
            texts@[i]@,
        ) by {
            assert(row_view(all[i]) == (ids@[i]@, texts@[i]@));
        }
        Some((ids, texts))
    }

    /// The record batch of the schema's two columns holding `ids` and
    /// `texts`: it is made exactly when both columns have the same length,
    /// and then holds them, under the id and text fields.
    pub fn make_batch(&self, ids: Vec<String>, texts: Vec<String>) -> (r: Result<
        DocRecordBatch,
        ArrowError,
    >)
        requires
            column_bytes(column_view(ids@)) <= max_column_bytes(),
            column_bytes(column_view(texts@)) <= max_column_bytes(),
        ensures
            r is Ok <==> ids@.len() == texts@.len(),
            r matches Ok(b) ==> batch_columns(b) == seq![column_view(ids@), column_view(texts@)]
                && batch_fields(b) == doc_fields(),
    {
        proof {
            use_type_invariant(self);
        }
        let ghost idv = ids@;
        let ghost textv = texts@;
        let columns: Vec<Vec<String>> = vec![ids, texts];
        assert(columns@[0]@ == idv && columns@[1]@ == textv);
        let r = utf8_record_batch(&self.schema, columns);
        proof {
            if r is Ok {
                assert(columns@.map_values(|c: Vec<String>| column_view(c@)) =~= seq![
                    column_view(idv),
                    column_view(textv),
                ]);
            }
            if idv.len() == textv.len() {
                assert forall|i: int| 0 <= i < columns@.len() implies (#[trigger] columns@[i])@.len()
                    == columns@[0]@.len() by {}
            }
        }
        r
    }

    /// Finishes the batch being built: `None` when it has no rows, else its
    /// record batch, which holds the id column and the text column of the
    /// rows in order; the batcher holds no rows afterwards.
    pub fn finish_batch(&mut self) -> (r: Option<Result<DocRecordBatch, ArrowError>>)
        requires
            rows_fit(old(self)@.rows),
        ensures
            final(self)@ == finish_state(old(self)@),
            old(self)@.rows.len() == 0 <==> r is None,
            r matches Some(res) ==> res matches Ok(b) && batch_fields(b) == doc_fields()
                && batch_columns(b) == seq![
                old(self)@.rows.map_values(|r: (Seq<char>, Seq<char>)| r.0),
                old(self)@.rows.map_values(|r: (Seq<char>, Seq<char>)| r.1),
            ],
    {
        let ghost rows = old(self)@.rows;
        let r = match self.take_rows() {
            None => None,
            Some((ids, texts)) => {
                proof {
                    lemma_columns_of_rows(rows, ids@, texts@);
                }
                Some(self.make_batch(ids, texts))
            },
        };
        assert(self@.rows =~= Seq::<(Seq<char>, Seq<char>)>::empty());
        r
    }
}

/// The state after `start_batch`: the rows of an unfinished batch are
/// dropped, unless the input has ended.
pub open spec fn start_state(s: DocBatchState) -> DocBatchState {
    if s.done {
        s
    } else {
        DocBatchState { rows: Seq::empty(), ..s }
    }
}

/// Whether the batch takes another line (see `wants_line`).
pub open spec fn wants_line_spec(s: DocBatchState) -> bool {
    !s.done && s.rows.len() < s.batch_size
}

/// The state after `push_line(line)`: the line's document, if it gives
/// one, joins the rows.
pub open spec fn push_state(s: DocBatchState, line: Seq<char>) -> DocBatchState {
    DocBatchState {
        rows: match doc_line_spec(line) {
            Some(row) => s.rows.push(row),
            None => s.rows,
        },
        ..s
    }
}

/// The state after `end_of_input`.
pub open spec fn end_state(s: DocBatchState) -> DocBatchState {
    DocBatchState { done: true, ..s }
}

/// The state after `finish_batch`: no rows.
pub open spec fn finish_state(s: DocBatchState) -> DocBatchState {
    DocBatchState { rows: Seq::empty(), ..s }
}

/// The documents of `lines`, in order: one per line that gives one.
pub open spec fn parsed_docs(lines: Seq<Seq<char>>) -> Seq<(Seq<char>, Seq<char>)>
    decreases lines.len(),
{
    if lines.len() == 0 {
        Seq::empty()
    } else {
        let before = parsed_docs(lines.drop_last());
        match doc_line_spec(lines.last()) {
            Some(d) => before.push(d),
            None => before,
        }
    }
}

/// Feeding the batch from `input` while it wants a line: each line is
/// pushed, and the end of input is recorded when the lines run out.
/// Gives the state and the lines left.
pub open spec fn fill(s: DocBatchState, input: Seq<Seq<char>>) -> (DocBatchState, Seq<Seq<char>>)
    decreases input.len(),
{
    if !wants_line_spec(s) {
        (s, input)
    } else if input.len() == 0 {
        (end_state(s), input)
    } else {
        fill(push_state(s, input[0]), input.drop_first())
    }
}

/// One batch read from `input`, the lines that are left to read: start a
/// batch (none once the input has ended), fill it, and finish it. Gives
/// the state after, the lines left, and the rows of the batch, if it has
/// any.
pub open spec fn next_batch(s: DocBatchState, input: Seq<Seq<char>>) -> (
    DocBatchState,
    Seq<Seq<char>>,
    Option<Seq<(Seq<char>, Seq<char>)>>,
) {
    if s.done {
        (s, input, None)
    } else {
        let (t, rest) = fill(start_state(s), input);
        (finish_state(t), rest, if t.rows.len() == 0 {
            None
        } else {
            Some(t.rows)
        })
    }
}

/// The batches of up to `n` reads from `input`, stopping at the first
/// read that gives none, with the state and the lines left after them.
pub open spec fn read_batches(s: DocBatchState, input: Seq<Seq<char>>, n: nat) -> (
    Seq<Seq<(Seq<char>, Seq<char>)>>,
    DocBatchState,
    Seq<Seq<char>>,
)
    decreases n,
{
    if n == 0 {
        (Seq::empty(), s, input)
    } else {
        let (t, rest, b) = next_batch(s, input);
        match b {
            None => (Seq::empty(), t, rest),
            Some(rows) => {
                let (more, u, left) = read_batches(t, rest, (n - 1) as nat);
                (seq![rows] + more, u, left)
            },
        }
    }
}

/// The rows of `batches`, one batch after another.
pub open spec fn concat_rows(batches: Seq<Seq<(Seq<char>, Seq<char>)>>) -> Seq<
    (Seq<char>, Seq<char>),
>
    decreases batches.len(),
{
    if batches.len() == 0 {
        Seq::empty()
    } else {
        batches[0] + concat_rows(batches.drop_first())
    }
}

/// The documents of two runs of lines, one after the other, are those of
/// the first run and then those of the second.
pub proof fn lemma_parsed_docs_append(a: Seq<Seq<char>>, b: Seq<Seq<char>>)
    ensures
        parsed_docs(a + b) == parsed_docs(a) + parsed_docs(b),
    decreases b.len(),
{
    if b.len() == 0 {
        assert(a + b == a);
        assert(parsed_docs(a) + parsed_docs(b) == parsed_docs(a));
    } else {
        lemma_parsed_docs_append(a, b.drop_last());
        assert((a + b).drop_last() == a + b.drop_last());
        assert((a + b).last() == b.last());
        match doc_line_spec(b.last()) {
            Some(d) => {
                assert(parsed_docs(a) + parsed_docs(b.drop_last()).push(d) == (parsed_docs(a)
                    + parsed_docs(b.drop_last())).push(d));
            },
            None => {},
        }
    }
}

proof fn lemma_fill(s: DocBatchState, input: Seq<Seq<char>>)
    requires
        !s.done,
        s.rows.len() <= s.batch_size,
    ensures
        ({
            let (t, rest) = fill(s, input);
            let k = input.len() - rest.len();
            &&& 0 <= k <= input.len()
            &&& rest == input.skip(k)
            &&& t.batch_size == s.batch_size
            &&& t.rows == s.rows + parsed_docs(input.take(k))
            &&& t.rows.len() <= s.batch_size
            &&& t.done ==> rest.len() == 0
            &&& !t.done ==> t.rows.len() == s.batch_size
            &&& (input.len() > 0 && s.rows.len() < s.batch_size) ==> k >= 1
        }),
    decreases input.len(),
{
    if !wants_line_spec(s) {
        assert(input.skip(0) == input);
        assert(input.take(0).len() == 0);
        assert(s.rows + parsed_docs(input.take(0)) == s.rows);
    } else if input.len() == 0 {
        assert(input.skip(0) == input);
        assert(s.rows + parsed_docs(input.take(0)) == s.rows);
    } else {
        let p = push_state(s, input[0]);
        let tail = input.drop_first();
        lemma_fill(p, tail);
        let (t, rest) = fill(p, tail);
        let k1 = tail.len() - rest.len();
        let k = k1 + 1;
        assert(rest == input.skip(k));
        assert(input.take(k) == seq![input[0]] + tail.take(k1));
        let one = seq![input[0]];
        lemma_parsed_docs_append(one, tail.take(k1));
        assert(one.drop_last() =~= Seq::<Seq<char>>::empty());
        assert(parsed_docs(one.drop_last()) == Seq::<(Seq<char>, Seq<char>)>::empty());
        assert(one.last() == input[0]);
        match doc_line_spec(input[0]) {
            Some(d) => {
                assert(parsed_docs(one) =~= seq![d]);
                assert(s.rows.push(d) + parsed_docs(tail.take(k1)) == s.rows + (seq![d]
                    + parsed_docs(tail.take(k1))));
            },
            None => {
                assert(parsed_docs(one) =~= Seq::<(Seq<char>, Seq<char>)>::empty());
                assert(Seq::<(Seq<char>, Seq<char>)>::empty() + parsed_docs(tail.take(k1))
                    == parsed_docs(tail.take(k1)));
            },
        }
    }
}

/// One read of a batch, for a batch size of at least one: once the input
/// has ended it gives nothing and reads nothing. Otherwise it reads some
/// lines from the front of the input and gives their documents, in order,
/// as a batch of at most `batch_size` rows, or nothing when there are
/// none; a batch is short, or there is none, only when the input has ended
/// during this read.
pub proof fn lemma_next_batch(s: DocBatchState, input: Seq<Seq<char>>)
    requires
        s.batch_size > 0,
    ensures
        ({
            let (t, rest, b) = next_batch(s, input);
            let k = input.len() - rest.len();
            &&& s.done ==> t == s && rest == input && b is None
            &&& !s.done ==> {
                &&& 0 <= k <= input.len()
                &&& rest == input.skip(k)
                &&& t.batch_size == s.batch_size
                &&& t.rows.len() == 0
                &&& parsed_docs(input.take(k)) == match b {
                    Some(rows) => rows,
                    None => Seq::empty(),
                }
                &&& t.done ==> rest.len() == 0
                &&& b is None ==> t.done
                &&& b is Some ==> k >= 1
            }
            &&& b matches Some(rows) ==> 1 <= rows.len() <= s.batch_size
            &&& b matches Some(rows) ==> (rows.len() < s.batch_size ==> t.done && rest.len() == 0)
        }),
{
    if !s.done {
        let s0 = start_state(s);
        lemma_fill(s0, input);
        let (t, rest) = fill(s0, input);
        let k = input.len() - rest.len();
        assert(s0.rows + parsed_docs(input.take(k)) == parsed_docs(input.take(k)));
        if input.len() == 0 {
            assert(input.take(0).len() == 0);
        }
    }
}

/// Reading batches until a read gives none, from a state where the input
/// has not ended and with a batch size of at least one: the batches hold
/// the documents of all input lines, in order, none dropped or repeated;
/// each batch has from one to `batch_size` rows, and all but the last have
/// exactly `batch_size`; afterwards the input has ended, every line has been
/// read, and a further read gives nothing.
pub proof fn lemma_read_batches(s: DocBatchState, input: Seq<Seq<char>>, n: nat)
    requires
        !s.done,
        s.batch_size > 0,
        n > input.len(),
    ensures
        ({
            let (batches, u, left) = read_batches(s, input, n);
            &&& concat_rows(batches) == parsed_docs(input)
            &&& forall|i: int| 0 <= i < batches.len() ==> 1 <= (#[trigger] batches[i]).len() <= s.batch_size
            &&& forall|i: int| 0 <= i < batches.len() - 1 ==> (#[trigger] batches[i]).len() == s.batch_size
            &&& u.done
            &&& u.batch_size == s.batch_size
            &&& left.len() == 0
            &&& next_batch(u, left) == (u, left, None::<Seq<(Seq<char>, Seq<char>)>>)
        }),
    decreases input.len(),
{
    lemma_next_batch(s, input);
    let (t, rest, b) = next_batch(s, input);
    let k = input.len() - rest.len();
    match b {
        None => {
            assert(k == input.len());
            assert(input.take(k) == input);
            assert(concat_rows(Seq::<Seq<(Seq<char>, Seq<char>)>>::empty()).len() == 0);
        },
        Some(rows) => {
            let (more, u, left) = read_batches(t, rest, (n - 1) as nat);
            let batches = seq![rows] + more;
            assert(batches.drop_first() == more);
            assert(batches[0] == rows);
            if t.done {
                assert(rest.len() == 0);
                assert(more.len() == 0);
                assert(concat_rows(more) == Seq::<(Seq<char>, Seq<char>)>::empty());
                assert(input.take(k) == input);
                assert(rows + Seq::<(Seq<char>, Seq<char>)>::empty() == rows);
            } else {
                lemma_read_batches(t, rest, (n - 1) as nat);
                assert(rows.len() == s.batch_size);
                assert(input == input.take(k) + input.skip(k));
                lemma_parsed_docs_append(input.take(k), input.skip(k));
                assert forall|i: int| 0 <= i < batches.len() implies 1 <= (
                #[trigger] batches[i]).len() <= s.batch_size by {
                    if i > 0 {
                        assert(batches[i] == more[i - 1]);
                    }
                }
                assert forall|i: int| 0 <= i < batches.len() - 1 implies (
                #[trigger] batches[i]).len() == s.batch_size by {
                    if i > 0 {
                        assert(batches[i] == more[i - 1]);
                    }
                }
            }
        },
    }
}

/// The id and text columns that hold rows `rows`, as views.
proof fn lemma_columns_of_rows(
    rows: Seq<(Seq<char>, Seq<char>)>,
    ids: Seq<String>,
    texts: Seq<String>,
)
    requires
        ids.len() == texts.len() == rows.len(),
        forall|i: int| 0 <= i < ids.len() ==> rows[i] == (#[trigger] ids[i]@, texts[i]@),
    ensures
        column_view(ids) == rows.map_values(|r: (Seq<char>, Seq<char>)| r.0),
        column_view(texts) == rows.map_values(|r: (Seq<char>, Seq<char>)| r.1),
{
    assert(column_view(ids) =~= rows.map_values(|r: (Seq<char>, Seq<char>)| r.0));
    assert forall|i: int| 0 <= i < texts.len() implies #[trigger] texts[i]@ == rows[i].1 by {
        assert(rows[i] == (ids[i]@, texts[i]@));
    }
    assert(column_view(texts) =~= rows.map_values(|r: (Seq<char>, Seq<char>)| r.1));
}

} // verus!
