use yunodo::annotation::{
    annotation_of_line, extract_todo_comment, extract_uscore, in_comment_context,
};
use yunodo::record::scan_line;

#[test]
fn closed_annotation_without_priority() {
    let line = "    foo(); // note //TODO:   fix bounds check  :ODOT// trailing";
    assert_eq!(extract_todo_comment(line), Some("fix bounds check".to_string()));
    assert_eq!(
        annotation_of_line(line),
        Some(("fix bounds check".to_string(), 0))
    );
}

#[test]
fn priority_field_is_cut_out() {
    assert_eq!(extract_uscore("U:42 do the thing"), ("do the thing".to_string(), 42));
    let line = "//TODO: U:42 do the thing :ODOT//";
    assert_eq!(annotation_of_line(line), Some(("do the thing".to_string(), 42)));
}

#[test]
fn priority_field_in_the_middle() {
    assert_eq!(extract_uscore("fix U:7 this"), ("fix this".to_string(), 7));
    assert_eq!(extract_uscore("U:+9 signed"), ("signed".to_string(), 9));
    assert_eq!(extract_uscore("U:255 top"), ("top".to_string(), 255));
    assert_eq!(extract_uscore("U:007 zeros"), ("zeros".to_string(), 7));
}

#[test]
fn priority_overflow_leaves_payload() {
    assert_eq!(extract_uscore("U:300 overflow"), ("U:300 overflow".to_string(), 0));
    let line = "//TODO: U:300 overflow :ODOT//";
    assert_eq!(annotation_of_line(line), Some(("U:300 overflow".to_string(), 0)));
}

#[test]
fn priority_without_space_or_number() {
    assert_eq!(extract_uscore("fix U:3"), ("fix U:3".to_string(), 0));
    assert_eq!(extract_uscore("U:abc text"), ("U:abc text".to_string(), 0));
    assert_eq!(extract_uscore("U: text"), ("U: text".to_string(), 0));
    assert_eq!(extract_uscore("U:-1 text"), ("U:-1 text".to_string(), 0));
    assert_eq!(extract_uscore("plain"), ("plain".to_string(), 0));
    assert_eq!(extract_uscore(""), ("".to_string(), 0));
}

#[test]
fn unclosed_annotation_yields_nothing() {
    let line = "//TODO: forgot to close";
    assert_eq!(extract_todo_comment(line), None);
    assert!(scan_line("root", "a.rs", 1, line).is_none());
}

#[test]
fn slashes_inside_a_string_are_no_comment() {
    let line = "let s = \"http://example.com\";";
    assert!(!in_comment_context(line));
    assert!(scan_line("root", "a.rs", 1, line).is_none());
    let quoted = "let s = \"//TODO: x :ODOT//\";";
    assert!(!in_comment_context(quoted));
    assert!(scan_line("root", "a.rs", 1, quoted).is_none());
}

#[test]
fn comment_context_cases() {
    assert!(in_comment_context("x(); // hi"));
    assert!(in_comment_context("/* open block"));
    assert!(!in_comment_context("/* closed */ //TODO: x :ODOT//"));
    assert!(!in_comment_context("plain code"));
    assert!(!in_comment_context(""));
    assert!(in_comment_context("let s = \"a\"; // after string"));
}

#[test]
fn closed_block_before_annotation_suppresses_it() {
    let line = "/* c */ //TODO: hidden :ODOT//";
    assert_eq!(extract_todo_comment(line), Some("hidden".to_string()));
    assert!(annotation_of_line(line).is_none());
}

#[test]
fn first_markers_delimit_payload() {
    let line = "//TODO: a :ODOT// //TODO: b :ODOT//";
    assert_eq!(extract_todo_comment(line), Some("a".to_string()));
    assert_eq!(extract_todo_comment("//TODO::ODOT//"), Some("".to_string()));
    assert_eq!(extract_todo_comment("no markers"), None);
    assert_eq!(extract_todo_comment(":ODOT// //TODO: late"), None);
}

#[test]
fn scan_line_fills_the_record() {
    let r = scan_line("src", "main.rs", 12, "// //TODO: U:5 tidy up :ODOT//").unwrap();
    assert_eq!(r.file_path, "src");
    assert_eq!(r.file_name, "main.rs");
    assert_eq!(r.line_number, 12);
    assert_eq!(r.comment_text, "tidy up");
    assert_eq!(r.priority, 5);
}
