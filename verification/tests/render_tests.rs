use flatten::file_processing::{
    calculate_directory_size, is_admitted, process_files, ContentWriter, EntryKind, SourceFile,
    TraversalEntry, DEFAULT_EXTENSION, PLACEHOLDER,
};

fn entry(path: &str, kind: EntryKind, size: u64) -> TraversalEntry {
    TraversalEntry { path: path.to_string(), kind, size }
}

fn file(path: &str, contents: &[u8]) -> SourceFile {
    SourceFile {
        entry: entry(path, EntryKind::File, contents.len() as u64),
        contents: contents.to_vec(),
    }
}

#[test]
fn kind_is_file_before_directory_before_other() {
    assert_eq!(EntryKind::of(true, false), EntryKind::File);
    assert_eq!(EntryKind::of(true, true), EntryKind::File);
    assert_eq!(EntryKind::of(false, true), EntryKind::Directory);
    assert_eq!(EntryKind::of(false, false), EntryKind::Other);
}

#[test]
fn size_counts_files_only() {
    let entries = vec![
        entry("/r", EntryKind::Directory, 4096),
        entry("/r/a.txt", EntryKind::File, 10),
        entry("/r/sub", EntryKind::Directory, 4096),
        entry("/r/sub/b.txt", EntryKind::File, 32),
        entry("/r/socket", EntryKind::Other, 7),
        entry("/r/empty", EntryKind::File, 0),
    ];
    assert_eq!(calculate_directory_size(&entries), Some(42));
    assert_eq!(calculate_directory_size(&Vec::new()), Some(0));
}

#[test]
fn size_that_does_not_fit_is_none() {
    let entries = vec![
        entry("/r/a", EntryKind::File, u64::MAX - 1),
        entry("/r/b", EntryKind::File, 1),
    ];
    assert_eq!(calculate_directory_size(&entries), Some(u64::MAX));
    let entries = vec![
        entry("/r/a", EntryKind::File, u64::MAX - 1),
        entry("/r/d", EntryKind::Directory, 100),
        entry("/r/b", EntryKind::File, 2),
        entry("/r/c", EntryKind::File, 0),
    ];
    assert_eq!(calculate_directory_size(&entries), None);
}

#[test]
fn admission_takes_files_other_than_the_output() {
    assert!(is_admitted(&entry("/r/a.txt", EntryKind::File, 1), "/r/out.txt"));
    assert!(!is_admitted(&entry("/r/out.txt", EntryKind::File, 1), "/r/out.txt"));
    assert!(!is_admitted(&entry("/r/a", EntryKind::Directory, 1), "/r/out.txt"));
    assert!(!is_admitted(&entry("/r/a", EntryKind::Other, 1), "/r/out.txt"));
}

#[test]
fn block_has_header_fence_body_and_separator() {
    let writer = ContentWriter::new("/r", "/r/out.txt");
    assert_eq!(
        writer.block("/r/src/main.rs", b"fn main() {}\n"),
        "## src/main.rs\n```rust\nfn main() {}\n\n```\n\n"
    );
    assert_eq!(writer.block("/r/notes.txt", b"no newline"), "## notes.txt\n```plain text\nno newline\n```\n\n");
}

#[test]
fn block_of_an_empty_file() {
    let writer = ContentWriter::new("/r", "/r/out.txt");
    assert_eq!(writer.block("/r/empty_file.txt", b""), "## empty_file.txt\n```plain text\n```\n\n");
    assert_eq!(writer.block("/r/empty.rs", b""), "## empty.rs\n```rust\n```\n\n");
    // One line end is contents, and is followed by the end of its line.
    assert_eq!(writer.block("/r/line.txt", b"\n"), "## line.txt\n```plain text\n\n\n```\n\n");
}

#[test]
fn block_of_bytes_that_are_no_text() {
    let writer = ContentWriter::new("/r", "/r/out.txt");
    assert_eq!(
        writer.block("/r/non_utf8_file.bin", b"\xFF\xFE\xFD"),
        "## non_utf8_file.bin\n```plain text\n<non-UTF-8 data>\n```\n\n"
    );
    assert_eq!(PLACEHOLDER, "<non-UTF-8 data>");
    // A text that is cut in the middle of a character is no text either.
    assert_eq!(
        writer.block("/r/cut.txt", &"é".as_bytes()[..1]),
        "## cut.txt\n```plain text\n<non-UTF-8 data>\n```\n\n"
    );
}

#[test]
fn block_keeps_text_beyond_ascii() {
    let writer = ContentWriter::new("/r", "/r/out.txt");
    assert_eq!(
        writer.block("/r/grüße.md", "Grüße, 世界\n".as_bytes()),
        "## grüße.md\n```markdown\nGrüße, 世界\n\n```\n\n"
    );
}

#[test]
fn block_of_a_file_outside_the_directory_names_it_in_full() {
    let writer = ContentWriter::new("/r", "/r/out.txt");
    assert_eq!(writer.block("/other/a.txt", b"x"), "## /other/a.txt\n```plain text\nx\n```\n\n");
}

#[test]
fn language_tags_follow_the_extension() {
    let writer = ContentWriter::new("/r", "/r/out.txt");
    assert_eq!(writer.language_tag("/r/main.rs"), "rust");
    assert_eq!(writer.language_tag("/r/MAIN.RS"), "rust");
    assert_eq!(writer.language_tag("/r/page.html"), "html");
    assert_eq!(writer.language_tag("/r/script.py"), "python");
    assert_eq!(writer.language_tag("/r/readme.md"), "markdown");
    assert_eq!(writer.language_tag("/r/notes.txt"), "plain text");
}

#[test]
fn language_tag_falls_back_to_plain_text() {
    let writer = ContentWriter::new("/r", "/r/out.txt");
    assert_eq!(DEFAULT_EXTENSION, "txt");
    // No extension at all.
    assert_eq!(writer.language_tag("/r/LICENSE"), "plain text");
    // A leading dot begins a name, not an extension.
    assert_eq!(writer.language_tag("/r/.rs"), "plain text");
    // An extension that no syntax is for.
    assert_eq!(writer.language_tag("/r/data.no_such_language"), "plain text");
    // An empty extension.
    assert_eq!(writer.language_tag("/r/odd."), "plain text");
    // The extension is that of the last component only.
    assert_eq!(writer.language_tag("/r/dir.rs/file"), "plain text");
}

#[test]
fn document_holds_the_admitted_files_in_order() {
    let files = vec![
        SourceFile { entry: entry("/r", EntryKind::Directory, 0), contents: Vec::new() },
        file("/r/b.txt", b"b\n"),
        file("/r/out.txt", b"## earlier\n"),
        SourceFile { entry: entry("/r/sub", EntryKind::Directory, 0), contents: Vec::new() },
        file("/r/sub/a.rs", b"fn a() {}"),
        SourceFile { entry: entry("/r/pipe", EntryKind::Other, 0), contents: b"ignored".to_vec() },
    ];
    let document = process_files("/r", "/r/out.txt", &files);
    assert_eq!(
        document,
        "## b.txt\n```plain text\nb\n\n```\n\n## sub/a.rs\n```rust\nfn a() {}\n```\n\n"
    );
    let writer = ContentWriter::new("/r", "/r/out.txt");
    assert_eq!(writer.document(&files), document);
}

#[test]
fn document_closes_the_fence_of_an_empty_file_at_once() {
    let files = vec![file("/r/a.txt", b"a"), file("/r/empty_file.txt", b""), file("/r/b.txt", b"b")];
    assert_eq!(
        process_files("/r", "/r/out.txt", &files),
        "## a.txt\n```plain text\na\n```\n\n## empty_file.txt\n```plain text\n```\n\n## b.txt\n```plain text\nb\n```\n\n"
    );
}

#[test]
fn document_of_nothing_is_empty() {
    assert_eq!(process_files("/r", "/r/out.txt", &Vec::new()), "");
    let only_output = vec![file("/r/out.txt", b"x")];
    assert_eq!(process_files("/r", "/r/out.txt", &only_output), "");
}

#[test]
fn document_is_the_same_with_or_without_the_output_entry() {
    let with = vec![file("/r/a.txt", b"a"), file("/r/out.txt", b"old"), file("/r/b.txt", b"b")];
    let without = vec![file("/r/a.txt", b"a"), file("/r/b.txt", b"b")];
    assert_eq!(
        process_files("/r", "/r/out.txt", &with),
        process_files("/r", "/r/out.txt", &without)
    );
}

#[test]
fn document_does_not_depend_on_recorded_sizes() {
    let mut first = vec![file("/r/a.txt", b"a"), file("/r/b.txt", b"b")];
    let second = vec![file("/r/a.txt", b"a"), file("/r/b.txt", b"b")];
    first[0].entry.size = 1000;
    assert_eq!(
        process_files("/r", "/r/out.txt", &first),
        process_files("/r", "/r/out.txt", &second)
    );
}
