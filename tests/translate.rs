use zil2js::diagnostic::{ErrKind, TVErr};
use zil2js::pipeline::translate;

fn run(src: &str) -> Result<String, TVErr> {
    translate(0, src.as_bytes().to_vec()).map(|v| String::from_utf8(v).unwrap())
}

fn kind_of(src: &str) -> ErrKind {
    match run(src) {
        Ok(out) => panic!("expected an error, got {:?}", out),
        Err(e) => e.kind(),
    }
}

fn trace(e: &TVErr) -> String {
    String::from_utf8(e.render()).unwrap()
}

#[test]
fn tell_simple() {
    assert_eq!(run("<TELL \"hi \" N>").unwrap(), "print(\"hi \" + N)");
}

#[test]
fn object_with_text_and_int() {
    assert_eq!(
        run("<OBJECT LAMP (DESC \"a lamp\") (SIZE 5)>").unwrap(),
        "let LAMP = {\n  DESC: () => \"a lamp\",\n  SIZE: () => 5,\n};\n\n"
    );
}

#[test]
fn object_with_flags() {
    assert_eq!(
        run("<OBJECT ROCK (FLAGS TAKEBIT CLIMBBIT)>").unwrap(),
        "let ROCK = {\n  FLAGS: { TAKEBIT: true, CLIMBBIT: true },\n};\n\n"
    );
}

#[test]
fn not_form() {
    assert_eq!(run("<NOT FOO>").unwrap(), "!FOO");
}

#[test]
fn unmatched_close() {
    let e = run("<FOO)").unwrap_err();
    assert_eq!(e.kind(), ErrKind::UnmatchedClose);
    assert!(trace(&e).starts_with("UnmatchedClose"));
    assert!(trace(&e).contains("1:5"));
}

#[test]
fn not_an_integer_in_size() {
    let e = run("<OBJECT X (SIZE hello)>").unwrap_err();
    assert_eq!(e.kind(), ErrKind::NotAnInteger);
    let t = trace(&e);
    assert!(t.contains("SIZE"));
    assert!(t.contains("OBJECT"));
    let lines: Vec<&str> = t.lines().collect();
    assert_eq!(lines.len(), 3);
    assert!(lines[0].starts_with("NotAnInteger"));
    assert!(lines[1].contains("SIZE"));
    assert!(lines[2].contains("OBJECT"));
}

#[test]
fn empty_input_gives_empty_output() {
    assert_eq!(run("").unwrap(), "");
}

#[test]
fn comment_only_input_gives_empty_output() {
    assert_eq!(run("; just a comment\n;another one").unwrap(), "");
}

#[test]
fn deep_nesting_succeeds() {
    let depth = 1000;
    let mut src = String::new();
    for _ in 0..depth {
        src.push_str("<NOT ");
    }
    src.push_str("FOO");
    for _ in 0..depth {
        src.push('>');
    }
    let out = run(&src).unwrap();
    assert_eq!(out, format!("{}FOO", "!".repeat(depth)));
}

#[test]
fn bracket_counts_balance_in_accepted_input() {
    let src = "<OBJECT BOX (DESC \"(<\") (FLAGS OPENBIT)>\n<TELL <NOT X> \"y\">";
    let out = run(src);
    assert!(out.is_ok());
    let opens = src.matches('<').count() - 1;
    let closes = src.matches('>').count();
    assert_eq!(opens, closes);
}

#[test]
fn tell_nested_routine_and_escapes() {
    assert_eq!(run("<TELL \"a\\\"b\" <NOT X> Y>").unwrap(), "print(\"a\\\"b\" + !X + Y)");
}

#[test]
fn text_with_backslash_is_escaped() {
    assert_eq!(run("<TELL \"a\\\\b\">").unwrap(), "print(\"a\\\\b\")");
}

#[test]
fn object_other_keys() {
    let src = "<OBJECT SWORD (SYNONYM BLADE \"sword\") (ACTION SWORD-F) (STRENGTH -3) (IN ROOM) (LDESC WORDY)>";
    assert_eq!(
        run(src).unwrap(),
        "let SWORD = {\n  SYNONYM: () => [\"BLADE\", \"sword\"],\n  ACTION: () => SWORD-F,\n  STRENGTH: -3,\n  IN: () => ROOM,\n  LDESC: () => \"WORDY\",\n};\n\n"
    );
}

#[test]
fn object_without_subgroupings() {
    assert_eq!(run("<OBJECT EMPTY>").unwrap(), "let EMPTY = {\n};\n\n");
}

#[test]
fn unknown_form() {
    assert_eq!(kind_of("<FOO BAR>"), ErrKind::UnknownForm);
}

#[test]
fn unknown_subgrouping() {
    assert_eq!(kind_of("<OBJECT X (COLOR RED)>"), ErrKind::UnknownSubgrouping);
}

#[test]
fn unterminated_text() {
    assert_eq!(kind_of("<TELL \"never closed>"), ErrKind::UnterminatedText);
}

#[test]
fn unclosed_form() {
    assert_eq!(kind_of("<TELL \"x\""), ErrKind::UnclosedForm);
}

#[test]
fn form_without_head_word() {
    assert_eq!(kind_of("<>"), ErrKind::InvalidFormShape);
    assert_eq!(kind_of("<(A) B>"), ErrKind::InvalidFormShape);
}

#[test]
fn not_with_two_operands() {
    assert_eq!(kind_of("<NOT A B>"), ErrKind::InvalidFormShape);
}

#[test]
fn tell_without_arguments() {
    assert_eq!(kind_of("<TELL>"), ErrKind::InvalidFormShape);
}

#[test]
fn top_level_word_is_rejected() {
    assert_eq!(kind_of("HELLO"), ErrKind::InvalidFormShape);
}

#[test]
fn sequence_of_forms() {
    assert_eq!(
        run("<OBJECT A (SIZE 1)>\n<TELL B>").unwrap(),
        "let A = {\n  SIZE: () => 1,\n};\n\nprint(B)"
    );
}

#[test]
fn emission_is_repeatable() {
    let src = "<OBJECT LAMP (DESC \"a lamp\") (SIZE 5)> <TELL \"x\" Y>";
    assert_eq!(run(src).unwrap(), run(src).unwrap());
}
