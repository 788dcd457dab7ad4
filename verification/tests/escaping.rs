use trivial_sql_builder::SQL;

fn built(sql: SQL) -> String {
    sql.build().unwrap()
}

fn failure(sql: SQL) -> String {
    sql.build().unwrap_err().to_string()
}

#[test]
fn identifier_plain_is_unchanged() {
    assert_eq!(built(SQL::identifier("lr2")), "lr2");
    assert_eq!(built(SQL::identifier("_private")), "_private");
    assert_eq!(built(SQL::identifier("a_b_9")), "a_b_9");
    assert_eq!(built(SQL::identifier("x")), "x");
}

#[test]
fn identifier_with_quote_is_quoted_and_doubled() {
    assert_eq!(built(SQL::identifier("ro\"les")), "\"ro\"\"les\"");
}

#[test]
fn identifier_starting_with_digit_is_quoted() {
    assert_eq!(built(SQL::identifier("9lives")), "\"9lives\"");
    assert_eq!(built(SQL::identifier("7")), "\"7\"");
}

#[test]
fn identifier_with_uppercase_is_quoted() {
    assert_eq!(built(SQL::identifier("Users")), "\"Users\"");
    assert_eq!(built(SQL::identifier("userId")), "\"userId\"");
}

#[test]
fn identifier_with_non_ascii_is_quoted() {
    assert_eq!(built(SQL::identifier("caf\u{e9}")), "\"caf\u{e9}\"");
    assert_eq!(built(SQL::identifier("\u{65e5}\u{672c}")), "\"\u{65e5}\u{672c}\"");
}

#[test]
fn identifier_with_space_or_dash_is_quoted() {
    assert_eq!(built(SQL::identifier("my table")), "\"my table\"");
    assert_eq!(built(SQL::identifier("a-b")), "\"a-b\"");
    assert_eq!(built(SQL::identifier("a'b")), "\"a'b\"");
    assert_eq!(built(SQL::identifier("a\\b")), "\"a\\b\"");
}

#[test]
fn identifier_control_characters_become_backslash_escapes() {
    assert_eq!(
        built(SQL::identifier("a\u{8}b\u{c}c\nd\re\tf")),
        "\"a\\bb\\fc\\nd\\re\\tf\""
    );
}

#[test]
fn identifier_empty_fails_without_text() {
    let sql = SQL::identifier("");
    assert_eq!(sql.raw_text(), "");
    assert_eq!(failure(sql), "empty identifier");
}

#[test]
fn identifier_with_nul_fails_and_drops_the_character() {
    let sql = SQL::identifier("a\0b");
    assert_eq!(sql.raw_text(), "\"ab\"");
    assert_eq!(failure(sql), "string contains the null character");
}

#[test]
fn identifier_with_several_nuls_reports_the_reason_once() {
    let sql = SQL::identifier("\0x\0\0");
    assert_eq!(sql.raw_text(), "\"x\"");
    assert_eq!(failure(sql), "string contains the null character");
}

#[test]
fn identifier_goes_on_after_a_nul() {
    let sql = SQL::identifier("a\0\"B\n");
    assert_eq!(sql.raw_text(), "\"a\"\"B\\n\"");
    assert!(sql.build().is_err());
}

#[test]
fn text_plain_is_wrapped_in_quotes() {
    assert_eq!(built(SQL::text("cat")), "'cat'");
    assert_eq!(built(SQL::text("")), "''");
    assert_eq!(built(SQL::text("two words")), "'two words'");
    assert_eq!(built(SQL::text("say \"hi\"")), "'say \"hi\"'");
}

#[test]
fn text_plain_keeps_backslashes() {
    assert_eq!(built(SQL::text("a\\b")), "'a\\b'");
    assert_eq!(built(SQL::text("\\\\")), "'\\\\'");
    assert_eq!(built(SQL::text("C:\\dir\\file")), "'C:\\dir\\file'");
}

#[test]
fn text_with_newline_and_quote_uses_extended_form() {
    assert_eq!(built(SQL::text("x\nb'z")), "E'x\\nb\\'z'");
}

#[test]
fn text_extended_form_doubles_backslashes() {
    assert_eq!(built(SQL::text("a\\b'c")), "E'a\\\\b\\'c'");
    assert_eq!(built(SQL::text("\\\n")), "E'\\\\\\n'");
    assert_eq!(built(SQL::text("\t\\\\")), "E'\\t\\\\\\\\'");
}

#[test]
fn text_each_trigger_has_its_escape() {
    assert_eq!(built(SQL::text("'")), "E'\\''");
    assert_eq!(built(SQL::text("\u{8}")), "E'\\b'");
    assert_eq!(built(SQL::text("\u{c}")), "E'\\f'");
    assert_eq!(built(SQL::text("\n")), "E'\\n'");
    assert_eq!(built(SQL::text("\r")), "E'\\r'");
    assert_eq!(built(SQL::text("\t")), "E'\\t'");
}

#[test]
fn text_non_ascii_passes_through() {
    assert_eq!(built(SQL::text("na\u{ef}ve")), "'na\u{ef}ve'");
    assert_eq!(built(SQL::text("na\u{ef}ve\n")), "E'na\u{ef}ve\\n'");
}

#[test]
fn text_with_nul_fails_and_drops_the_character() {
    let sql = SQL::text("a\0b");
    assert_eq!(sql.raw_text(), "E'ab'");
    assert_eq!(failure(sql), "Zero character in string");
}

#[test]
fn text_with_nul_among_other_characters_still_fails() {
    let sql = SQL::text("it's\0\\fine\n");
    assert_eq!(sql.raw_text(), "E'it\\'s\\\\fine\\n'");
    assert_eq!(failure(sql), "Zero character in string");
}

#[test]
fn text_with_several_nuls_reports_the_reason_once() {
    assert_eq!(failure(SQL::text("\0\0\0")), "Zero character in string");
}
