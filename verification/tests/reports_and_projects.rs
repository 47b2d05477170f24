use guppty::error::{classify, ErrorKind, ErrorPhase, GupError, Span};
use guppty::project::{
    check_manifest, display_executable_path, manifest_text, manifest_value, positional_after_command, starter_program,
    validate_project_name,
};

#[test]
fn span_new_keeps_positions_at_least_one() {
    let s = Span::new(0, 0, 0);
    assert_eq!((s.line, s.column, s.length), (1, 1, 1));
    let t = Span::new(4, 9, 3);
    assert_eq!((t.line, t.column, t.length), (4, 9, 3));
    assert_eq!(t.end_column(), 12);
}

#[test]
fn merge_covers_both_spans_on_one_line() {
    let merged = Span::new(1, 3, 2).merge(Span::new(1, 7, 4));
    assert_eq!((merged.line, merged.column, merged.length), (1, 3, 8));
    let other_line = Span::new(1, 3, 2).merge(Span::new(2, 1, 1));
    assert_eq!((other_line.line, other_line.column, other_line.length), (1, 3, 2));
}

#[test]
fn render_gives_the_exact_report() {
    let error = GupError::runtime(Span::new(1, 5, 7), "Variable 'missing' is not defined yet!");
    assert_eq!(
        error.render("program.gup", "out(missing)"),
        "program.gup:1:5: NameError: Variable 'missing' is not defined yet!\n  |\n1 | out(missing)\n  |     ^^^^^^^ NameError here\n  |\n  = help: Declare it first (e.g. `name = value`) or check the spelling."
    );
}

#[test]
fn render_without_a_source_line_keeps_head_and_help() {
    let error = GupError::parse(Span::new(12, 1, 1), "Something odd.");
    assert_eq!(
        error.render("a.gup", "one line"),
        "a.gup:12:1: SyntaxError: Something odd.\n   = help: Check the syntax around here for a typo or a missing symbol."
    );
}

#[test]
fn classification_falls_back_by_phase() {
    assert_eq!(classify(ErrorPhase::Lex, "odd").0, ErrorKind::SyntaxError);
    assert_eq!(classify(ErrorPhase::Parse, "odd").0, ErrorKind::SyntaxError);
    assert_eq!(classify(ErrorPhase::Runtime, "odd").0, ErrorKind::RuntimeError);
    assert_eq!(classify(ErrorPhase::Runtime, "CANNOT DIVIDE BY ZERO").0, ErrorKind::MathError);
    assert_eq!(classify(ErrorPhase::Runtime, "Wrong number of arguments").0, ErrorKind::ArgumentError);
    assert_eq!(classify(ErrorPhase::Runtime, "Unknown opcode in bytecode.").0, ErrorKind::InternalError);
}

#[test]
fn title_and_hint_of_kinds() {
    assert_eq!(ErrorKind::IndexError.title(), "IndexError");
    assert!(!ErrorKind::MathError.default_hint().is_empty());
}

#[test]
fn project_names_are_checked() {
    assert!(validate_project_name("my-game_2").is_ok());
    assert!(validate_project_name("").is_err());
    assert!(validate_project_name("-bad").is_err());
    assert!(validate_project_name(".hidden").is_err());
    assert_eq!(
        validate_project_name("has space").unwrap_err(),
        "Project names may contain letters, numbers, dashes, and underscores."
    );
}

#[test]
fn manifest_values_are_trimmed() {
    let manifest = "[project]\nname = \"demo\"\nentry = \"src/main.gup\"\n";
    assert_eq!(manifest_value(manifest, "name"), Some("demo".to_string()));
    assert_eq!(manifest_value(manifest, "entry"), Some("src/main.gup".to_string()));
    assert_eq!(manifest_value(manifest, "missing"), None);
    assert_eq!(manifest_value("  key  =   value  ", "key"), Some("value".to_string()));
}

#[test]
fn positional_argument_skips_options_and_flags() {
    let args: Vec<String> = vec!["run".to_string(), "--interp".to_string(), "prog.gup".to_string()];
    assert_eq!(positional_after_command(&args, &vec!["--interp"]), Some("prog.gup".to_string()));
    let only: Vec<String> = vec!["run".to_string(), "--interp".to_string()];
    assert_eq!(positional_after_command(&only, &vec![]), None);
    let first: Vec<String> = vec!["run".to_string()];
    assert_eq!(positional_after_command(&first, &vec![]), None);
}

#[test]
fn manifest_with_comment_and_settings_is_accepted() {
    let manifest = "# friendly comments are valid TOML\n[project]\nname = \"nested-project\"\nentry = \"source files/main.gup\"\n";
    assert!(check_manifest(manifest).is_ok());
    assert!(check_manifest("").is_ok());
}

#[test]
fn malformed_manifest_header_is_refused() {
    assert_eq!(
        check_manifest("[project\nname = 3").unwrap_err(),
        "guppty.toml: `[project` is not a valid project setting."
    );
}

#[test]
fn unknown_manifest_setting_is_refused() {
    assert_eq!(
        check_manifest("[project]\nname = \"hello\"\nentry = \"main.gup\"\nsurprise = true\n").unwrap_err(),
        "guppty.toml: `surprise` is not a known project setting; use name and entry."
    );
}

#[test]
fn unquoted_manifest_value_is_refused() {
    assert_eq!(
        check_manifest("[project]\nname = 3\n").unwrap_err(),
        "guppty.toml: the project setting `name` needs its text in double quotes."
    );
}

#[test]
fn manifest_entry_must_be_a_gup_file() {
    assert_eq!(
        check_manifest("[project]\nname = \"hello\"\nentry = \"main.txt\"\n").unwrap_err(),
        "guppty.toml: the entry must be a .gup file, not `main.txt`."
    );
}

#[test]
fn new_project_files_read_back() {
    let manifest = manifest_text("hello-world");
    assert_eq!(manifest, "[project]\nname = \"hello-world\"\nentry = \"src/main.gup\"\n");
    assert!(check_manifest(&manifest).is_ok());
    assert_eq!(manifest_value(&manifest, "name"), Some("hello-world".to_string()));
    assert_eq!(manifest_value(&manifest, "entry"), Some("src/main.gup".to_string()));
    assert_eq!(
        starter_program("hello-world"),
        "// Welcome to hello-world!\nmessage = \"Hello from hello-world!\"\nout(message)\n"
    );
    assert!(guppty::driver::compile_source(&starter_program("hello-world")).is_ok());
}

#[test]
fn hints_are_single_lines_and_reports_end_with_help() {
    for message in ["odd", "Cannot divide by zero.", "Variable 'x' is not defined yet!", "Array index out of bounds."] {
        let (_, hint) = classify(ErrorPhase::Runtime, message);
        assert!(!hint.contains('\n'));
        let report = GupError::runtime(Span::new(2, 3, 1), message).render("f.gup", "a\nbcd\n");
        assert!(report.starts_with("f.gup:2:3: "));
        let last = report.lines().last().unwrap();
        assert_eq!(last, format!("  = help: {}", hint));
    }
}

#[test]
fn report_lines_are_six_with_a_source_line_and_two_without() {
    let e = GupError::runtime(Span::new(2, 3, 2), "Cannot divide by zero.");
    let with_line = e.render("m.gup", "x = 1\ny = 1 / 0\n");
    let lines: Vec<&str> = with_line.lines().collect();
    assert_eq!(lines.len(), 6);
    assert_eq!(lines[0], "m.gup:2:3: MathError: Cannot divide by zero.");
    assert_eq!(lines[1], "  |");
    assert_eq!(lines[2], "2 | y = 1 / 0");
    assert_eq!(lines[3], "  |   ^^ MathError here");
    assert_eq!(lines[4], "  |");
    assert_eq!(lines[5], "  = help: Make sure the divisor is not zero before dividing.");
    let without = e.render("m.gup", "x = 1");
    assert_eq!(without.lines().count(), 2);
}

#[test]
fn classification_ignores_ascii_case() {
    assert_eq!(
        classify(ErrorPhase::Runtime, "ARRAY INDEX OUT OF BOUNDS."),
        classify(ErrorPhase::Runtime, "array index out of bounds.")
    );
    assert_eq!(classify(ErrorPhase::Parse, "Expected A But Found B").0, ErrorKind::SyntaxError);
}

#[test]
fn built_executable_paths_are_shown_runnable() {
    assert_eq!(display_executable_path(2, false, "build/demo"), "./build/demo");
    assert_eq!(display_executable_path(3, false, "out/x/demo"), "out/x/demo");
    assert_eq!(display_executable_path(2, true, "/demo"), "/demo");
    assert_eq!(display_executable_path(1, false, "demo"), "demo");
}
