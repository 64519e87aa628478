use yunodo::record::{collect_records, scan_files, sort_by_priority, SourceFile, TodoRecord};
use yunodo::render::{
    out_as_json_object, out_as_md_table, out_as_toml_file, out_as_yaml_file, parse_format,
    render, split_and_print, split_csv, OutputFormat,
};

fn file(name: &str, lines: &[&str]) -> SourceFile {
    SourceFile {
        name: name.to_string(),
        lines: lines.iter().map(|l| l.to_string()).collect(),
    }
}

fn record(path: &str, name: &str, line: usize, text: &str, priority: u8) -> TodoRecord {
    TodoRecord {
        file_path: path.to_string(),
        file_name: name.to_string(),
        line_number: line,
        comment_text: text.to_string(),
        priority,
    }
}

fn summary(rs: &[TodoRecord]) -> Vec<(String, String, usize, String, u8)> {
    rs.iter()
        .map(|r| {
            (
                r.file_path.clone(),
                r.file_name.clone(),
                r.line_number,
                r.comment_text.clone(),
                r.priority,
            )
        })
        .collect()
}

#[test]
fn stable_descending_sort() {
    let rs: Vec<TodoRecord> = [(3, "a"), (0, "b"), (5, "c"), (5, "d"), (1, "e")]
        .iter()
        .map(|(p, t)| record("r", "f", 1, t, *p))
        .collect();
    let sorted = sort_by_priority(&rs);
    let got: Vec<(u8, String)> = sorted.iter().map(|r| (r.priority, r.comment_text.clone())).collect();
    assert_eq!(
        got,
        vec![
            (5, "c".to_string()),
            (5, "d".to_string()),
            (3, "a".to_string()),
            (1, "e".to_string()),
            (0, "b".to_string()),
        ]
    );
    assert!(sort_by_priority(&Vec::new()).is_empty());
}

#[test]
fn end_to_end_single_file() {
    let files = vec![file("lib.rs", &["foo();", "//TODO: fix bounds check :ODOT//", "bar();"])];
    let rs = scan_files("proj", &files);
    assert_eq!(rs.len(), 1);
    assert_eq!(rs[0].line_number, 2);
    assert_eq!(rs[0].comment_text, "fix bounds check");
    assert_eq!(rs[0].priority, 0);
    assert_eq!(
        out_as_md_table(&rs),
        "| File Path | File Name | Line Number | Comment | Uscore |\n\
         |:----------|:---------:|:-----------:|:--------|:------|\n\
         | proj | lib.rs | 2 | fix bounds check | 0 |\n"
    );
}

#[test]
fn rescanning_gives_the_same_records() {
    let a = file("a.rs", &["//TODO: one :ODOT//", "x", "// //TODO: U:4 two :ODOT//"]);
    let b = file("b.rs", &["//TODO: U:4 three :ODOT//", "//TODO: open"]);
    let first = scan_files("root", &vec![a.clone(), b.clone()]);
    let second = scan_files("root", &vec![a.clone(), b.clone()]);
    assert_eq!(summary(&first), summary(&second));
    let mut walked_otherwise = summary(&scan_files("root", &vec![b, a]));
    let mut expected = summary(&first);
    walked_otherwise.sort();
    expected.sort();
    assert_eq!(walked_otherwise, expected);
}

#[test]
fn discovery_order_and_line_numbers() {
    let files = vec![
        file("a.rs", &["", "//TODO: first :ODOT//", "", "", "//TODO: second :ODOT//"]),
        file("b.rs", &["//TODO: third :ODOT//"]),
        file("empty.rs", &[]),
    ];
    let rs = collect_records("root", &files);
    let got: Vec<(String, usize, String)> = rs
        .iter()
        .map(|r| (r.file_name.clone(), r.line_number, r.comment_text.clone()))
        .collect();
    assert_eq!(
        got,
        vec![
            ("a.rs".to_string(), 2, "first".to_string()),
            ("a.rs".to_string(), 5, "second".to_string()),
            ("b.rs".to_string(), 1, "third".to_string()),
        ]
    );
    assert!(scan_files("root", &Vec::new()).is_empty());
}

#[test]
fn table_rows_and_numbers() {
    let mut table = String::from("head\n");
    split_and_print(&vec![record("p", "n", 1234, "c", 255), record("p", "m", 7, "d", 0)], &mut table);
    assert_eq!(table, "head\n| p | n | 1234 | c | 255 |\n| p | m | 7 | d | 0 |\n");
    assert_eq!(
        out_as_md_table(&Vec::new()),
        "| File Path | File Name | Line Number | Comment | Uscore |\n\
         |:----------|:---------:|:-----------:|:--------|:------|\n"
    );
}

#[test]
fn json_keeps_trailing_comma() {
    let out = out_as_json_object(&vec![record("p", "n", 3, "fix", 9)]);
    let expected = "{\n    {\n        \"file_path\":\"p\",\n        \"file_name\":\"n\",\n        \"line_number\":\"3\",\n        \"todo_comment\":\"fix\",\n        \"uscore\":\"9\",\n    },\n}\n";
    assert_eq!(out, expected);
    assert_eq!(out_as_json_object(&Vec::new()), "{\n}\n");
}

#[test]
fn toml_groups_by_path_and_name() {
    let rs = vec![
        record("p/", "a.rs", 1, "one", 2),
        record("p/", "b.rs", 4, "two", 0),
        record("p/", "a.rs", 9, "three", 0),
    ];
    let expected = "[p/a.rs]\n[[todo]]\nline = 1\ncomment = \"one\"\nuscore = 2\n\n[[todo]]\nline = 9\ncomment = \"three\"\nuscore = 0\n[p/b.rs]\n[[todo]]\nline = 4\ncomment = \"two\"\nuscore = 0\n\n";
    assert_eq!(out_as_toml_file(&rs), expected);
    assert_eq!(out_as_toml_file(&Vec::new()), "\n");
}

#[test]
fn yaml_repeats_item_key() {
    let rs = vec![record("p/", "a.rs", 1, "one", 2), record("p/", "a.rs", 9, "three", 0)];
    let expected = "\"p/a.rs\":\n    \"item\":\n        \"line_number\": \"1\"\n        \"comment\": \"one\"\n        \"uscore\": \"2\"\n    \"item\":\n        \"line_number\": \"9\"\n        \"comment\": \"three\"\n        \"uscore\": \"0\"\n\n";
    assert_eq!(out_as_yaml_file(&rs), expected);
}

#[test]
fn format_names_ignore_case() {
    assert_eq!(parse_format("md"), Some(OutputFormat::Md));
    assert_eq!(parse_format("MD"), Some(OutputFormat::Md));
    assert_eq!(parse_format("Json"), Some(OutputFormat::Json));
    assert_eq!(parse_format("yAmL"), Some(OutputFormat::Yaml));
    assert_eq!(parse_format("TOML"), Some(OutputFormat::Toml));
    assert_eq!(parse_format("xml"), None);
    assert_eq!(parse_format(""), None);
    assert_eq!(parse_format("mdx"), None);
}

#[test]
fn render_dispatches_on_format() {
    let rs = vec![record("p", "n", 3, "fix", 9)];
    assert_eq!(render(OutputFormat::Md, &rs), out_as_md_table(&rs));
    assert_eq!(render(OutputFormat::Json, &rs), out_as_json_object(&rs));
    assert_eq!(render(OutputFormat::Yaml, &rs), out_as_yaml_file(&rs));
    assert_eq!(render(OutputFormat::Toml, &rs), out_as_toml_file(&rs));
}

#[test]
fn fields_grouped_into_rows() {
    let fields: Vec<String> = ["a", "b", "c", "d", "e", "f", "g"].iter().map(|s| s.to_string()).collect();
    assert_eq!(split_csv(&fields, 3), vec!["a,b,c".to_string(), "d,e,f".to_string(), "g".to_string()]);
    assert_eq!(split_csv(&fields[..6].to_vec(), 3), vec!["a,b,c".to_string(), "d,e,f".to_string()]);
    assert!(split_csv(&Vec::new(), 5).is_empty());
}
