use csv_analyzer::delimited::{parse_delimited, table_from_records, RowCollector};
use csv_analyzer::table::{file_name_of, PREVIEW_LIMIT};
use csv_analyzer::{export_to_csv, read_csv_file, read_delimited, FileReadResult, TableError};

fn owned(items: &[&str]) -> Vec<String> {
    items.iter().map(|s| s.to_string()).collect()
}

fn parse_error(r: Result<FileReadResult, TableError>) -> (usize, String) {
    match r {
        Err(TableError::ParseError { row_index, detail }) => (row_index, detail),
        other => panic!("expected a parse error, got {:?}", other),
    }
}

fn numbered_rows(count: usize) -> String {
    let mut text: String = String::from("id,value\n");
    for i in 0..count {
        text.push_str(&format!("{},v{}\n", i, i));
    }
    text
}

#[test]
fn small_file_is_read_whole() {
    let table: FileReadResult =
        read_delimited(b"a,b\n1,2\n3,4\n", "t.csv".to_string()).unwrap();
    assert_eq!(table.columns, owned(&["a", "b"]));
    assert_eq!(table.row_count, 2);
    assert_eq!(table.data_preview, vec![owned(&["1", "2"]), owned(&["3", "4"])]);
    assert_eq!(table.file_name, "t.csv");
}

#[test]
fn preview_stops_at_the_limit_and_the_count_goes_on() {
    let text: String = numbered_rows(150);
    let table: FileReadResult = read_delimited(text.as_bytes(), "big.csv".to_string()).unwrap();
    assert_eq!(table.row_count, 150);
    assert_eq!(table.data_preview.len(), 100);
    assert_eq!(table.data_preview[0], owned(&["0", "v0"]));
    assert_eq!(table.data_preview[99], owned(&["99", "v99"]));
}

#[test]
fn preview_at_and_around_the_limit() {
    assert_eq!(PREVIEW_LIMIT, 100);
    let sizes: Vec<usize> = vec![0, 1, 99, 100, 101];
    for size in sizes {
        let text: String = numbered_rows(size);
        let table: FileReadResult = read_delimited(text.as_bytes(), "n.csv".to_string()).unwrap();
        assert_eq!(table.row_count, size);
        assert_eq!(table.data_preview.len(), size.min(100));
        for row in &table.data_preview {
            assert_eq!(row.len(), table.columns.len());
        }
    }
}

#[test]
fn header_is_taken_verbatim() {
    let table: FileReadResult =
        read_delimited(b"First Name,e-mail,First Name\nx,y,z\n", "h.csv".to_string()).unwrap();
    assert_eq!(table.columns, owned(&["First Name", "e-mail", "First Name"]));
}

#[test]
fn header_alone_gives_no_rows() {
    let table: FileReadResult = read_delimited(b"a,b,c\n", "h.csv".to_string()).unwrap();
    assert_eq!(table.columns, owned(&["a", "b", "c"]));
    assert_eq!(table.row_count, 0);
    assert_eq!(table.data_preview, Vec::<Vec<String>>::new());
}

#[test]
fn empty_file_gives_an_empty_table() {
    let table: FileReadResult = read_delimited(b"", "e.csv".to_string()).unwrap();
    assert_eq!(table.columns, Vec::<String>::new());
    assert_eq!(table.row_count, 0);
    assert_eq!(table.data_preview, Vec::<Vec<String>>::new());
}

#[test]
fn row_with_too_few_fields_fails_the_read() {
    let (row_index, detail): (usize, String) =
        parse_error(read_delimited(b"a,b\n1,2\n3\n4,5\n", "bad.csv".to_string()));
    assert_eq!(row_index, 1);
    assert_eq!(
        detail,
        "CSV error: record 2 (line: 3, byte: 8): found record with 1 fields, \
but the previous record has 2 fields"
    );
}

#[test]
fn row_with_too_many_fields_fails_the_read() {
    let (row_index, detail): (usize, String) =
        parse_error(read_delimited(b"a,b\n1,2,3\n", "bad.csv".to_string()));
    assert_eq!(row_index, 0);
    assert!(detail.contains("found record with 3 fields"));
}

#[test]
fn malformed_row_past_the_preview_still_fails() {
    let mut text: String = numbered_rows(120);
    text.push_str("lonely\n");
    text.push_str("1,2\n");
    let (row_index, detail): (usize, String) =
        parse_error(read_delimited(text.as_bytes(), "b.csv".to_string()));
    assert_eq!(row_index, 120);
    assert!(detail.contains("found record with 1 fields"));
}

#[test]
fn quoted_fields_are_unquoted() {
    let table: FileReadResult = read_delimited(
        b"a,b\n\"x,y\",\"he said \"\"hi\"\"\"\n\"two\nlines\",z\n",
        "q.csv".to_string(),
    ).unwrap();
    assert_eq!(table.row_count, 2);
    assert_eq!(table.data_preview[0], owned(&["x,y", "he said \"hi\""]));
    assert_eq!(table.data_preview[1], owned(&["two\nlines", "z"]));
}

#[test]
fn shift_jis_file_is_decoded() {
    let mut bytes: Vec<u8> = vec![0x96, 0xBC, 0x91, 0x4F, b',', b'n', b'\n'];
    bytes.extend_from_slice(&[0x93, 0xFA, 0x96, 0x7B, b',', b'1', b'\n']);
    let table: FileReadResult = read_delimited(&bytes, "sjis.csv".to_string()).unwrap();
    assert_eq!(table.columns, owned(&["\u{540d}\u{524d}", "n"]));
    assert_eq!(table.data_preview, vec![owned(&["\u{65e5}\u{672c}", "1"])]);
}

#[test]
fn utf8_bom_is_not_part_of_the_first_label() {
    let mut bytes: Vec<u8> = vec![0xEF, 0xBB, 0xBF];
    bytes.extend_from_slice("n\u{e9},b\n1,2\n".as_bytes());
    let table: FileReadResult = read_delimited(&bytes, "bom.csv".to_string()).unwrap();
    assert_eq!(table.columns, owned(&["n\u{e9}", "b"]));
    assert_eq!(table.row_count, 1);
}

#[test]
fn malformed_bytes_are_replaced_not_fatal() {
    let bytes: Vec<u8> = vec![0xEF, 0xBB, 0xBF, b'a', b'\n', 0xFF, b'\n'];
    let table: FileReadResult = read_delimited(&bytes, "m.csv".to_string()).unwrap();
    assert_eq!(table.columns, owned(&["a"]));
    assert_eq!(table.data_preview, vec![owned(&["\u{fffd}"])]);
}

#[test]
fn table_is_named_after_the_last_segment_of_the_path() {
    let table: FileReadResult = read_csv_file("/data/in/sales 2024.csv", b"a\n1\n").unwrap();
    assert_eq!(table.file_name, "sales 2024.csv");
    assert_eq!(table.columns, owned(&["a"]));
    assert_eq!(table.row_count, 1);
    let bare: FileReadResult = read_csv_file("plain.csv", b"a\n").unwrap();
    assert_eq!(bare.file_name, "plain.csv");
}

#[test]
fn table_read_from_a_plain_name_carries_that_name() {
    let names: Vec<&str> = vec!["a", "data.csv", "two words.txt", "...", ".hidden", "x.y.z"];
    for name in names {
        let table: FileReadResult = read_csv_file(name, b"h\n").unwrap();
        assert_eq!(table.file_name, name);
    }
}

#[test]
fn table_is_named_after_what_follows_the_last_separator() {
    let cases: Vec<(&str, &str)> = vec![
        ("/tmp/data/sales.csv", "sales.csv"),
        ("relative/dir/x.csv", "x.csv"),
        ("C:\\Users\\me\\data.csv", "data.csv"),
        ("mixed\\dir/file.tsv", "file.tsv"),
        ("mixed/dir\\file.tsv", "file.tsv"),
        ("/x", "x"),
        ("a//b", "b"),
        ("dir/", ""),
        ("/", ""),
        ("", ""),
        ("..", ".."),
        ("a/..", ".."),
    ];
    for (path, name) in cases {
        let table: FileReadResult = read_csv_file(path, b"h\n").unwrap();
        assert_eq!(table.file_name, name);
        assert_eq!(file_name_of(path), name);
    }
}

#[test]
fn read_csv_file_reports_the_malformed_row() {
    let (row_index, detail): (usize, String) = parse_error(read_csv_file("/x/y.csv", b"a,b\n1\n"));
    assert_eq!(row_index, 0);
    assert!(!detail.is_empty());
}

#[test]
fn parse_delimited_takes_text() {
    let table: FileReadResult = parse_delimited("k,v\nx,1\n", "p.csv".to_string()).unwrap();
    assert_eq!(table.columns, owned(&["k", "v"]));
    assert_eq!(table.data_preview, vec![owned(&["x", "1"])]);
    assert_eq!(table.file_name, "p.csv");
}

#[test]
fn export_then_read_gives_the_same_table() {
    let data: Vec<Vec<String>> = vec![owned(&["1", "2"]), owned(&["3", "4"])];
    let bytes: Vec<u8> = export_to_csv(data, owned(&["a", "b"])).unwrap();
    let table: FileReadResult = read_delimited(&bytes, "round.csv".to_string()).unwrap();
    assert_eq!(table.columns, owned(&["a", "b"]));
    assert_eq!(table.row_count, 2);
    assert_eq!(table.data_preview, vec![owned(&["1", "2"]), owned(&["3", "4"])]);
}

#[test]
fn export_then_read_keeps_awkward_fields() {
    let data: Vec<Vec<String>> =
        vec![owned(&["x,y", "say \"hi\""]), owned(&["two\nlines", " padded "])];
    let bytes: Vec<u8> = export_to_csv(data.clone(), owned(&["first col", "second"])).unwrap();
    let table: FileReadResult = read_delimited(&bytes, "round.csv".to_string()).unwrap();
    assert_eq!(table.columns, owned(&["first col", "second"]));
    assert_eq!(table.data_preview, data);
}

#[test]
fn export_then_read_of_many_rows_keeps_count_and_preview() {
    let headers: Vec<String> = owned(&["id", "name", "note"]);
    let mut data: Vec<Vec<String>> = Vec::new();
    for i in 0..150usize {
        data.push(vec![i.to_string(), format!("n{}", i), format!("a,b \"{}\"", i)]);
    }
    let bytes: Vec<u8> = export_to_csv(data.clone(), headers.clone()).unwrap();
    let table: FileReadResult = read_csv_file("many.csv", &bytes).unwrap();
    assert_eq!(table.columns, headers);
    assert_eq!(table.row_count, 150);
    assert_eq!(table.data_preview, data[..100].to_vec());
    assert_eq!(table.file_name, "many.csv");
}

#[test]
fn export_then_read_of_one_column_and_of_no_rows() {
    let one: Vec<Vec<String>> = vec![owned(&["x"]), owned(&[""]), owned(&["z"])];
    let bytes: Vec<u8> = export_to_csv(one.clone(), owned(&["only"])).unwrap();
    let table: FileReadResult = read_csv_file("one.csv", &bytes).unwrap();
    assert_eq!(table.columns, owned(&["only"]));
    assert_eq!(table.row_count, 3);
    assert_eq!(table.data_preview, one);
    let none: Vec<u8> = export_to_csv(Vec::new(), owned(&["a", "b"])).unwrap();
    let empty: FileReadResult = read_csv_file("none.csv", &none).unwrap();
    assert_eq!(empty.columns, owned(&["a", "b"]));
    assert_eq!(empty.row_count, 0);
    assert_eq!(empty.data_preview, Vec::<Vec<String>>::new());
}

#[test]
fn records_at_hand_make_the_same_table() {
    let rows: Vec<Result<Vec<String>, String>> =
        vec![Ok(owned(&["1", "2"])), Ok(owned(&["3", "4"]))];
    let table: FileReadResult =
        table_from_records(Ok(owned(&["a", "b"])), rows, "r.csv".to_string()).unwrap();
    assert_eq!(table.columns, owned(&["a", "b"]));
    assert_eq!(table.row_count, 2);
    assert_eq!(table.data_preview, vec![owned(&["1", "2"]), owned(&["3", "4"])]);
    assert_eq!(table.file_name, "r.csv");
}

#[test]
fn unreadable_header_is_its_own_error() {
    let rows: Vec<Result<Vec<String>, String>> = vec![Ok(owned(&["1"]))];
    assert_eq!(
        table_from_records(Err("no header".to_string()), rows, "r.csv".to_string()),
        Err(TableError::HeaderError { detail: "no header".to_string() })
    );
    assert_eq!(
        table_from_records(Err(String::new()), Vec::new(), "r.csv".to_string()),
        Err(TableError::HeaderError { detail: String::new() })
    );
}

#[test]
fn first_malformed_record_is_reported() {
    let rows: Vec<Result<Vec<String>, String>> = vec![
        Ok(owned(&["1"])),
        Ok(owned(&["2"])),
        Err("first".to_string()),
        Ok(owned(&["4"])),
        Err("second".to_string()),
    ];
    assert_eq!(
        table_from_records(Ok(owned(&["a"])), rows, "r.csv".to_string()),
        Err(TableError::ParseError { row_index: 2, detail: "first".to_string() })
    );
    let at_once: Vec<Result<Vec<String>, String>> = vec![Err("only".to_string())];
    assert_eq!(
        table_from_records(Ok(owned(&["a"])), at_once, "r.csv".to_string()),
        Err(TableError::ParseError { row_index: 0, detail: "only".to_string() })
    );
}

#[test]
fn records_at_hand_are_previewed_up_to_the_limit() {
    let mut rows: Vec<Result<Vec<String>, String>> = Vec::new();
    for i in 0..130usize {
        rows.push(Ok(vec![i.to_string()]));
    }
    let table: FileReadResult =
        table_from_records(Ok(owned(&["n"])), rows, "r.csv".to_string()).unwrap();
    assert_eq!(table.row_count, 130);
    assert_eq!(table.data_preview.len(), 100);
    assert_eq!(table.data_preview[99], owned(&["99"]));
}

#[test]
fn collector_counts_all_and_keeps_the_first() {
    let mut collector: RowCollector = RowCollector::new();
    assert_eq!(collector.count, 0);
    for i in 0..103usize {
        collector.accept(vec![i.to_string()]);
    }
    assert_eq!(collector.count, 103);
    assert_eq!(collector.preview.len(), 100);
    assert_eq!(collector.preview[0], owned(&["0"]));
    assert_eq!(collector.preview[99], owned(&["99"]));
    let table: FileReadResult = collector.finish(owned(&["n"]), "c.csv".to_string());
    assert_eq!(table.row_count, 103);
    assert_eq!(table.columns, owned(&["n"]));
    assert_eq!(table.file_name, "c.csv");
}

#[test]
fn collector_count_stops_at_the_largest_word() {
    let mut collector: RowCollector =
        RowCollector { count: usize::MAX, preview: Vec::new() };
    collector.accept(owned(&["late"]));
    assert_eq!(collector.count, usize::MAX);
    assert_eq!(collector.preview.len(), 0);
}
