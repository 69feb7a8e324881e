use std::io::Write;
use trading_maid::download::{first_csv_of_zip, kept_rows, ArchiveError};

fn zip_with(name: &str, text: &str) -> Vec<u8> {
    let mut writer = zip::ZipWriter::new(std::io::Cursor::new(Vec::new()));
    let options = zip::write::SimpleFileOptions::default().compression_method(zip::CompressionMethod::Stored);
    writer.start_file(name, options).unwrap();
    writer.write_all(text.as_bytes()).unwrap();
    writer.finish().unwrap().into_inner()
}

#[test]
fn kept_rows_cut_each_line_after_the_header() {
    let text = "open_time,open,high,low,close,volume,close_time\n1,2,3,4,5,6,7\r\n8,9,10,11,12,13,14\n";
    let rows = kept_rows(text).unwrap();
    assert_eq!(rows, vec!["1,2,3,4,5,6".to_string(), "8,9,10,11,12,13".to_string()]);
    let last_without_newline = kept_rows("h\n1,2,3,4,5,6,7").unwrap();
    assert_eq!(last_without_newline, vec!["1,2,3,4,5,6".to_string()]);
}

#[test]
fn kept_rows_refuse_short_lines_and_accept_empty_text() {
    assert_eq!(kept_rows("h\n1,2,3\n"), None);
    assert_eq!(kept_rows(""), Some(Vec::new()));
    assert_eq!(kept_rows("only a header\n"), Some(Vec::new()));
}

#[test]
fn first_csv_of_zip_reads_the_csv_entry() {
    let bytes = zip_with("BTCUSDT-1m-2024-01.csv", "a,b\n1,2\n");
    assert_eq!(first_csv_of_zip(&bytes), Ok("a,b\n1,2\n".to_string()));
    let no_csv = zip_with("readme.txt", "x");
    assert_eq!(first_csv_of_zip(&no_csv), Err(ArchiveError::NoCsv));
    assert_eq!(first_csv_of_zip(b"not a zip"), Err(ArchiveError::Unreadable));
}
