use csv_analyzer::{export_header, export_to_csv, export_to_excel, TableError, WriteStage};

fn owned(items: &[&str]) -> Vec<String> {
    items.iter().map(|s| s.to_string()).collect()
}

#[test]
fn export_writes_header_then_rows() {
    let data: Vec<Vec<String>> = vec![owned(&["1", "2"]), owned(&["3", "4"])];
    let bytes: Vec<u8> = export_to_csv(data, owned(&["a", "b"])).unwrap();
    assert_eq!(bytes, b"a,b\n1,2\n3,4\n".to_vec());
}

#[test]
fn export_begins_with_the_header_bytes() {
    let headers: Vec<String> = owned(&["a", "b,c", "d"]);
    let head: Vec<u8> = export_header(&headers);
    assert_eq!(head, b"a,\"b,c\",d\n".to_vec());
    let data: Vec<Vec<String>> = vec![owned(&["1", "2", "3"]), owned(&["4", "5", "6"])];
    let bytes: Vec<u8> = export_to_csv(data, headers).unwrap();
    assert_eq!(bytes[..head.len()].to_vec(), head);
    assert_eq!(bytes[head.len()..].to_vec(), b"1,2,3\n4,5,6\n".to_vec());
}

#[test]
fn refused_row_does_not_spoil_a_later_export() {
    let bad: Vec<Vec<String>> = vec![owned(&["1"])];
    assert!(export_to_csv(bad, owned(&["a", "b", "c"])).is_err());
    let good: Vec<Vec<String>> = vec![owned(&["1", "2"])];
    assert_eq!(export_to_csv(good, owned(&["a", "b"])).unwrap(), b"a,b\n1,2\n".to_vec());
}

#[test]
fn export_of_no_rows_is_the_header() {
    let bytes: Vec<u8> = export_to_csv(Vec::new(), owned(&["only", "header"])).unwrap();
    assert_eq!(bytes, b"only,header\n".to_vec());
}

#[test]
fn export_quotes_where_needed() {
    let data: Vec<Vec<String>> = vec![owned(&["x,y", "say \"hi\"", "plain"])];
    let bytes: Vec<u8> = export_to_csv(data, owned(&["a", "b", "c"])).unwrap();
    assert_eq!(bytes, b"a,b,c\n\"x,y\",\"say \"\"hi\"\"\",plain\n".to_vec());
}

#[test]
fn export_refuses_a_row_of_another_width() {
    let short: Vec<Vec<String>> = vec![owned(&["1", "2"]), owned(&["3"]), owned(&["4", "5", "6"])];
    assert_eq!(
        export_to_csv(short, owned(&["a", "b"])),
        Err(TableError::WriteError {
            stage: WriteStage::Row,
            detail: "CSV error: found record with 1 fields, but the previous record has 2 fields"
                .to_string(),
        })
    );
    let long: Vec<Vec<String>> = vec![vec!["x".to_string(); 12]];
    assert_eq!(
        export_to_csv(long, owned(&["a", "b"])),
        Err(TableError::WriteError {
            stage: WriteStage::Row,
            detail: "CSV error: found record with 12 fields, but the previous record has 2 fields"
                .to_string(),
        })
    );
}

#[test]
fn workbook_export_is_refused() {
    let data: Vec<Vec<String>> = vec![owned(&["1"])];
    assert_eq!(
        export_to_excel(data, "out.xlsx".to_string(), owned(&["a"])),
        Err(TableError::Unsupported)
    );
    assert_eq!(
        export_to_excel(Vec::new(), String::new(), Vec::new()),
        Err(TableError::Unsupported)
    );
}
