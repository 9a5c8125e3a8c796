use flatten::cli::{
    confirms, exceeds_size_limit, is_affirmative, Cli, NAMELESS, SIZE_LIMIT, TIMESTAMP_FORMAT, YES,
};

fn cli(output: Option<&str>) -> Cli {
    Cli {
        directory: ".".to_string(),
        output: output.map(|o| o.to_string()),
        excludes: Vec::new(),
        includes: Vec::new(),
        allow_hidden: false,
    }
}

#[test]
fn given_output_is_kept() {
    assert_eq!(
        cli(Some("out/all.txt")).output_file("/home/me/project", "2024-05-06_07-08-09"),
        "out/all.txt"
    );
}

#[test]
fn output_name_is_made_from_directory_and_time() {
    assert_eq!(
        cli(None).output_file("/home/me/project", "2024-05-06_07-08-09"),
        "flatten-project-2024-05-06_07-08-09.txt"
    );
    assert_eq!(
        cli(None).output_file("/home/me/site.d/", "2024-05-06_07-08-09"),
        "flatten-site-2024-05-06_07-08-09.txt"
    );
    assert_eq!(
        cli(None).output_file("/home/me/.config", "2024-05-06_07-08-09"),
        "flatten-.config-2024-05-06_07-08-09.txt"
    );
}

#[test]
fn directory_without_a_name_is_called_root() {
    assert_eq!(NAMELESS, "root");
    assert_eq!(cli(None).output_file("/", "2024-05-06_07-08-09"), "flatten-root-2024-05-06_07-08-09.txt");
    assert_eq!(cli(None).output_file("", "t"), "flatten-root-t.txt");
}

#[test]
fn timestamp_has_date_and_time() {
    assert_eq!(TIMESTAMP_FORMAT, "%Y-%m-%d_%H-%M-%S");
}

#[test]
fn size_limit_is_ten_mebibytes() {
    assert_eq!(SIZE_LIMIT, 10 * 1024 * 1024);
    assert!(!exceeds_size_limit(0));
    assert!(!exceeds_size_limit(10 * 1024 * 1024));
    assert!(exceeds_size_limit(10 * 1024 * 1024 + 1));
    assert!(exceeds_size_limit(11 * 1024 * 1024));
    assert!(exceeds_size_limit(u64::MAX));
}

#[test]
fn only_yes_confirms() {
    assert_eq!(YES, "y");
    assert!(confirms("y"));
    assert!(confirms("y\n"));
    assert!(confirms("Y\r\n"));
    assert!(confirms("  y \t"));
    assert!(!confirms("n"));
    assert!(!confirms("n\n"));
    assert!(!confirms(""));
    assert!(!confirms("\n"));
    assert!(!confirms("yes"));
    assert!(!confirms("y y"));
    assert!(!confirms("no"));
}

#[test]
fn normalised_answer_must_be_exactly_yes() {
    assert!(is_affirmative("y"));
    assert!(!is_affirmative("Y"));
    assert!(!is_affirmative(" y"));
    assert!(!is_affirmative("y\n"));
    assert!(!is_affirmative("n"));
    assert!(!is_affirmative(""));
    assert!(!is_affirmative("yy"));
}

/// The code points with the property `White_Space`.
fn is_white_space(c: char) -> bool {
    matches!(
        c,
        '\u{9}'..='\u{D}'
            | ' '
            | '\u{85}'
            | '\u{A0}'
            | '\u{1680}'
            | '\u{2000}'..='\u{200A}'
            | '\u{2028}'
            | '\u{2029}'
            | '\u{202F}'
            | '\u{205F}'
            | '\u{3000}'
    )
}

#[test]
fn white_space_and_nothing_else_is_taken_off_the_ends() {
    let mut around = String::new();
    for code in 0..=0x10FFFFu32 {
        if let Some(c) = char::from_u32(code) {
            around.clear();
            around.push(c);
            around.push('y');
            assert_eq!(confirms(&around), is_white_space(c), "U+{:04X} before", code);
            around.clear();
            around.push('Y');
            around.push(c);
            assert_eq!(confirms(&around), is_white_space(c), "U+{:04X} after", code);
        }
    }
}

#[test]
fn white_space_inside_an_answer_stays() {
    assert!(confirms("\u{3000}\t y\u{2028}\r\n"));
    assert!(!confirms("y\u{200B}"));
    assert!(!confirms("\u{FEFF}y"));
    assert!(!confirms("\u{180E}y"));
    assert!(!confirms(" y n "));
}
