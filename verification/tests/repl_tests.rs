use lib::repl::input_is_complete;

#[test]
fn balanced_input_is_complete() {
    assert!(input_is_complete("print(1);"));
    assert!(input_is_complete(""));
    assert!(input_is_complete("fun add(a, b) { return a + b; }"));
}

#[test]
fn open_braces_or_parens_need_more() {
    assert!(!input_is_complete("fun add(a, b) {"));
    assert!(!input_is_complete("print(1,"));
    assert!(input_is_complete("fun add(a, b) {\nreturn a + b;\n}"));
}

#[test]
fn more_closing_than_opening_is_complete() {
    assert!(input_is_complete("}"));
    assert!(input_is_complete(")))"));
}

#[test]
fn strings_and_comments_are_ignored() {
    assert!(input_is_complete("print(\"{(\");"));
    assert!(!input_is_complete("print(\"abc"));
    assert!(input_is_complete("x; // {"));
    assert!(!input_is_complete("{ // }\n"));
}

#[test]
fn a_comment_ends_at_its_newline() {
    assert!(input_is_complete("fun f() { // c\n}\n"));
    assert!(!input_is_complete("fun f() { // }\n"));
    assert!(input_is_complete("print(1); // (\n"));
    assert!(!input_is_complete("// c\n{"));
    assert!(input_is_complete("print(\"//\"); {\n}"));
}
