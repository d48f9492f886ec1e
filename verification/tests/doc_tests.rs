use arrow_array::{Array, StringArray};
use arrow_schema::DataType;
use lance_engines::docs::{
    add_rows, column_fits, batch_size_or_default, doc_from_fields, parse_doc_line, DocBatcher, JsonField, DEFAULT_BATCH_SIZE,
};

fn doc(id: &str, text: &str) -> Option<(String, String)> {
    Some((id.to_string(), text.to_string()))
}

#[test]
fn doc_lines_with_string_or_number_ids() {
    assert_eq!(parse_doc_line(r#"{"id": "1", "text": "hello world"}"#), doc("1", "hello world"));
    assert_eq!(parse_doc_line("  {\"id\": 5, \"text\": \"x\"}\n"), doc("5", "x"));
    assert_eq!(parse_doc_line(r#"{"id": -3, "text": "x"}"#), doc("-3", "x"));
    assert_eq!(parse_doc_line(r#"{"id": 1.5, "text": "x", "other": [1]}"#), doc("1.5", "x"));
}

#[test]
fn lines_that_give_no_document() {
    assert_eq!(parse_doc_line(""), None);
    assert_eq!(parse_doc_line("   \n"), None);
    assert_eq!(parse_doc_line("not json"), None);
    assert_eq!(parse_doc_line(r#"{"id": true, "text": "x"}"#), None);
    assert_eq!(parse_doc_line(r#"{"id": "1", "text": 2}"#), None);
    assert_eq!(parse_doc_line(r#"{"text": "x"}"#), None);
    assert_eq!(parse_doc_line(r#"{"id": "1"}"#), None);
    assert_eq!(parse_doc_line(r#"[{"id": "1", "text": "x"}]"#), None);
}

#[test]
fn fields_to_document() {
    assert_eq!(
        doc_from_fields(Some(JsonField::Number("7".to_string())), Some(JsonField::Text("t".to_string()))),
        doc("7", "t")
    );
    assert_eq!(doc_from_fields(Some(JsonField::Other), Some(JsonField::Text("t".to_string()))), None);
    assert_eq!(doc_from_fields(None, Some(JsonField::Text("t".to_string()))), None);
    assert_eq!(doc_from_fields(Some(JsonField::Text("1".to_string())), Some(JsonField::Other)), None);
}

#[test]
fn batch_size_default() {
    assert_eq!(batch_size_or_default(Some(2)), 2);
    assert_eq!(batch_size_or_default(None), DEFAULT_BATCH_SIZE);
    assert_eq!(DEFAULT_BATCH_SIZE, 10_000);
}

#[test]
fn adding_rows() {
    assert_eq!(add_rows(3, 4), Some(7));
    assert_eq!(add_rows(usize::MAX, 1), None);
}

/// Runs a batcher over `lines` the way a reader does, returning the rows of
/// each batch.
fn batches(lines: &[&str], batch_size: usize) -> Vec<Vec<(String, String)>> {
    let mut b = DocBatcher::new(batch_size);
    let mut input = lines.iter();
    let mut out = Vec::new();
    for _ in 0..100 {
        if !b.start_batch() {
            break;
        }
        while b.wants_line() {
            match input.next() {
                None => b.end_of_input(),
                Some(line) => b.push_line(line),
            }
        }
        match b.take_rows() {
            None => break,
            Some((ids, texts)) => out.push(ids.into_iter().zip(texts).collect()),
        }
    }
    out
}

#[test]
fn batches_of_two_skip_bad_lines() {
    let lines = [
        r#"{"id": "1", "text": "hello world"}"#,
        "",
        r#"{"id": "2", "text": "hello there"}"#,
        r#"{"id": "3", "text": "world peace"}"#,
    ];
    let got = batches(&lines, 2);
    assert_eq!(got.len(), 2);
    assert_eq!(got[0], vec![("1".to_string(), "hello world".to_string()), ("2".to_string(), "hello there".to_string())]);
    assert_eq!(got[1], vec![("3".to_string(), "world peace".to_string())]);
}

#[test]
fn empty_input_gives_no_batch() {
    assert!(batches(&[], 4).is_empty());
    assert!(batches(&["junk", ""], 4).is_empty());
}

#[test]
fn record_batches_have_the_rows() {
    let mut b = DocBatcher::new(10);
    assert!(b.start_batch());
    b.push_line(r#"{"id": "a", "text": "x"}"#);
    b.push_line(r#"{"id": 2, "text": "y"}"#);
    b.end_of_input();
    assert!(!b.wants_line());
    let batch = b.finish_batch().expect("rows").expect("batch");
    assert_eq!(batch.0.num_rows(), 2);
    assert_eq!(batch.0.num_columns(), 2);
    assert_eq!(batch.0.schema(), b.schema());
    assert!(b.finish_batch().is_none());
    assert!(!b.start_batch());
}

fn column_strings(batch: &arrow_array::RecordBatch, i: usize) -> Vec<String> {
    let col = batch.column(i).as_any().downcast_ref::<StringArray>().expect("strings");
    (0..col.len()).map(|k| col.value(k).to_string()).collect()
}

#[test]
fn schema_has_id_and_text_fields() {
    let b = DocBatcher::new(3);
    let schema = b.schema();
    assert_eq!(schema.fields().len(), 2);
    assert_eq!(schema.field(0).name(), "id");
    assert_eq!(schema.field(1).name(), "text");
    for f in schema.fields() {
        assert_eq!(f.data_type(), &DataType::Utf8);
        assert!(!f.is_nullable());
    }
}

#[test]
fn make_batch_holds_the_columns() {
    let b = DocBatcher::new(3);
    let ids = vec!["a".to_string(), "b".to_string()];
    let texts = vec!["x".to_string(), "y".to_string()];
    let batch = b.make_batch(ids.clone(), texts.clone()).expect("batch");
    assert_eq!(column_strings(&batch.0, 0), ids);
    assert_eq!(column_strings(&batch.0, 1), texts);
    assert_eq!(batch.0.schema(), b.schema());
}

#[test]
fn make_batch_refuses_unequal_columns() {
    let b = DocBatcher::new(3);
    let ids = vec!["a".to_string(), "b".to_string()];
    let texts = vec!["x".to_string()];
    assert!(b.make_batch(ids, texts).is_err());
}

#[test]
fn finished_batch_columns_follow_the_rows() {
    let mut b = DocBatcher::new(5);
    assert!(b.start_batch());
    b.push_line(r#"{"id": 7, "text": "seven"}"#);
    b.push_line("not json");
    b.push_line(r#"{"id": "k", "text": "kay"}"#);
    assert!(b.batch_fits());
    let batch = b.finish_batch().expect("rows").expect("batch");
    assert_eq!(column_strings(&batch.0, 0), vec!["7".to_string(), "k".to_string()]);
    assert_eq!(column_strings(&batch.0, 1), vec!["seven".to_string(), "kay".to_string()]);
}

#[test]
fn small_columns_fit() {
    assert!(column_fits(&vec![]));
    assert!(column_fits(&vec!["abc".to_string(), "é".to_string()]));
    let mut b = DocBatcher::new(2);
    assert!(b.start_batch());
    assert!(b.batch_fits());
}

#[test]
fn only_the_last_batch_is_short() {
    let lines: Vec<String> = (0..7).map(|i| format!("{{\"id\": {}, \"text\": \"t{}\"}}", i, i)).collect();
    let refs: Vec<&str> = lines.iter().map(|s| s.as_str()).collect();
    let got = batches(&refs, 3);
    assert_eq!(got.iter().map(|b| b.len()).collect::<Vec<_>>(), vec![3, 3, 1]);
    let all: Vec<(String, String)> = got.into_iter().flatten().collect();
    let want: Vec<(String, String)> = (0..7).map(|i| (i.to_string(), format!("t{}", i))).collect();
    assert_eq!(all, want);
}

#[test]
fn white_space_around_a_line_changes_nothing() {
    let line = r#"{"id": "a", "text": "b"}"#;
    let padded = format!(" {}\r\n", line);
    assert_eq!(parse_doc_line(line), parse_doc_line(&padded));
    assert_eq!(parse_doc_line(line), parse_doc_line(line.trim()));
    assert_eq!(parse_doc_line("  \t"), None);
}
