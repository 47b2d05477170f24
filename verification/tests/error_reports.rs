use guppty::error::{ErrorKind, GupError, Span};

#[test]
fn render_shows_location_type_and_help() {
    let source = "out(missing)";
    let error = GupError::runtime(Span::new(1, 5, 7), "Variable 'missing' is not defined yet!");
    let rendered = error.render("program.gup", source);

    // WHERE: exact file:line:column, and the source line with a caret.
    assert!(rendered.contains("program.gup:1:5:"));
    assert!(rendered.contains("out(missing)"));
    assert!(rendered.contains('^'));
    // WHAT: a specific error type, not a generic stack trace.
    assert!(rendered.contains("NameError"));
    assert!(!rendered.to_lowercase().contains("stack trace"));
    // HOW: a single-line fix suggestion.
    assert!(rendered.contains("help:"));
}

#[test]
fn classifier_picks_specific_types() {
    assert_eq!(
        GupError::runtime(Span::new(1, 1, 1), "Cannot divide by zero.").kind,
        ErrorKind::MathError
    );
    assert_eq!(
        GupError::parse(Span::new(1, 1, 1), "Expected an indented block but found end of file.")
            .kind,
        ErrorKind::IndentationError
    );
    assert_eq!(
        GupError::runtime(Span::new(1, 1, 1), "Array index out of bounds.").kind,
        ErrorKind::IndexError
    );
    assert_eq!(
        GupError::lex(Span::new(1, 1, 1), "I do not know what to do with '@'.").kind,
        ErrorKind::SyntaxError
    );
}

#[test]
fn builders_override_kind_and_hint() {
    let error = GupError::runtime(Span::new(1, 1, 1), "something went sideways")
        .with_kind(ErrorKind::InternalError)
        .with_hint("please report this with your program");

    assert_eq!(error.kind, ErrorKind::InternalError);
    let rendered = error.render("bug.gup", "boom");
    assert!(rendered.contains("InternalError"));
    assert!(rendered.contains("help: please report this with your program"));
}
