use course_sync::entry::{FileTask, RemoteEntry};
use course_sync::names::{child_dir, contains_text, filename_filter, resolve_filename};

fn file(title: &str, extension: &str) -> RemoteEntry {
    RemoteEntry {
        id: 1,
        title: String::from(title),
        extension: String::from(extension),
        downloadable: true,
        declared_size: 10,
        remote_path: String::from("https://files.example/1"),
    }
}

#[test]
fn filename_filter_blanks_reserved_characters() {
    assert_eq!(
        filename_filter(String::from("a/b\\c:d*e?f\"g<h>i|j")),
        "a b c d e f g h i j"
    );
}

#[test]
fn filename_filter_blanks_the_three_other_characters() {
    assert_eq!(filename_filter(String::from("x\u{201a}y\u{c4}z\u{f9}")), "x y z ");
}

#[test]
fn filename_filter_keeps_everything_else() {
    assert_eq!(filename_filter(String::from("Week 1 - intro.pdf")), "Week 1 - intro.pdf");
    assert_eq!(filename_filter(String::from("\u{8bfe}\u{4ef6}_01")), "\u{8bfe}\u{4ef6}_01");
    assert_eq!(filename_filter(String::new()), "");
}

#[test]
fn filename_filter_keeps_the_length_and_is_idempotent() {
    let once = filename_filter(String::from("a:b?c"));
    assert_eq!(once.chars().count(), 5);
    assert_eq!(filename_filter(once.clone()), once);
    assert!(!once.contains('/') && !once.contains('\\') && !once.contains(':'));
}

#[test]
fn contains_text_finds_unbroken_runs() {
    assert!(contains_text("report.pdf", "pdf"));
    assert!(contains_text("report.pdf", "report.pdf"));
    assert!(contains_text("report.pdf", ""));
    assert!(contains_text("", ""));
    assert!(contains_text("aab", "ab"));
    assert!(!contains_text("report.pd", "pdf"));
    assert!(!contains_text("p.d.f", "pdf"));
    assert!(!contains_text("", "pdf"));
    assert!(!contains_text("pd", "pdf"));
}

#[test]
fn resolve_filename_appends_a_missing_extension() {
    assert_eq!(resolve_filename("report", "pdf"), "report.pdf");
    assert_eq!(resolve_filename("notes v2", "docx"), "notes v2.docx");
}

#[test]
fn resolve_filename_keeps_a_title_that_holds_the_extension() {
    assert_eq!(resolve_filename("report.pdf", "pdf"), "report.pdf");
    assert_eq!(resolve_filename("pdf_notes", "pdf"), "pdf_notes");
    assert_eq!(resolve_filename("plain", ""), "plain");
}

#[test]
fn resolve_filename_sanitizes_the_whole_name() {
    assert_eq!(resolve_filename("a/b", "txt"), "a b.txt");
    assert_eq!(resolve_filename("what?", "t:t"), "what .t t");
    assert_eq!(resolve_filename("x<1>.zip", "zip"), "x 1 .zip");
}

#[test]
fn child_dir_joins_with_a_slash_and_sanitizes_the_title() {
    assert_eq!(child_dir(".", "Week 1"), "./Week 1");
    assert_eq!(child_dir("./Week 1", "a/b"), "./Week 1/a b");
    assert_eq!(child_dir(".", ""), "./");
}

#[test]
fn entry_file_name_follows_the_naming_rule() {
    assert_eq!(file("slides", "pptx").file_name(), "slides.pptx");
    assert_eq!(file("slides.pptx", "pptx").file_name(), "slides.pptx");
}

#[test]
fn task_local_path_is_directory_slash_name() {
    let task = FileTask { entry: file("slides", "pptx"), local_relative_dir: String::from("./Week 1") };
    assert_eq!(task.local_path(), "./Week 1/slides.pptx");
    let top = FileTask { entry: file("a:b", "txt"), local_relative_dir: String::from(".") };
    assert_eq!(top.local_path(), "./a b.txt");
}

#[test]
fn equal_names_in_one_directory_share_a_path() {
    let mut first = file("notes", "pdf");
    first.id = 1;
    first.declared_size = 10;
    let mut second = file("notes", "pdf");
    second.id = 2;
    second.declared_size = 20;
    let a = FileTask { entry: first, local_relative_dir: String::from("./w") };
    let b = FileTask { entry: second, local_relative_dir: String::from("./w") };
    assert_eq!(a.local_path(), b.local_path());
    let c = FileTask { entry: file("notes", "pdf"), local_relative_dir: String::from("./v") };
    assert_ne!(a.local_path(), c.local_path());
}
