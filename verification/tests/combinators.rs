use trivial_sql_builder::SQL;

fn built(sql: SQL) -> String {
    sql.build().unwrap()
}

#[test]
fn push_sql_appends_the_text() {
    let sql = SQL::sql("SELECT ").push_sql(&SQL::identifier("name"));
    assert_eq!(built(sql), "SELECT name");
}

#[test]
fn push_sql_chains() {
    let sql = SQL::new(32)
        .push_sql(&SQL::sql("a = "))
        .push_sql(&SQL::int4(1))
        .push_sql(&SQL::sql(" AND b = "))
        .push_sql(&SQL::text("x"));
    assert_eq!(built(sql), "a = 1 AND b = 'x'");
}

#[test]
fn push_sql_leaves_the_argument_in_use() {
    let comma = SQL::sql(", ");
    let sql = SQL::sql("a").push_sql(&comma).push_sql(&SQL::sql("b")).push_sql(&comma);
    assert_eq!(built(sql), "a, b, ");
    assert_eq!(built(comma), ", ");
}

#[test]
fn append_join_puts_the_delimiter_between_items() {
    let items = vec![SQL::int4(1), SQL::int4(2), SQL::int4(3)];
    let sql = SQL::sql("VALUES ").append_join(&SQL::sql(", "), &items);
    assert_eq!(built(sql), "VALUES 1, 2, 3");
}

#[test]
fn append_join_of_one_item_has_no_delimiter() {
    let sql = SQL::sql("x=").append_join(&SQL::sql(", "), &vec![SQL::int4(1)]);
    assert_eq!(built(sql), "x=1");
}

#[test]
fn append_join_of_nothing_changes_nothing() {
    let sql = SQL::sql("x").append_join(&SQL::sql(", "), &vec![]);
    assert_eq!(built(sql), "x");
}

#[test]
fn join_starts_from_nothing() {
    let items = vec![SQL::text("cat"), SQL::identifier("Dog"), SQL::boolean(true)];
    assert_eq!(built(SQL::join(&SQL::sql(" | "), &items)), "'cat' | \"Dog\" | TRUE");
    assert_eq!(built(SQL::join(&SQL::sql(", "), &vec![])), "");
}

#[test]
fn and_of_nothing_is_the_boolean_asked_for() {
    assert_eq!(built(SQL::and(&vec![], true)), "TRUE");
    assert_eq!(built(SQL::and(&vec![], false)), "FALSE");
}

#[test]
fn or_of_nothing_is_the_boolean_asked_for() {
    assert_eq!(built(SQL::or(&vec![], true)), "TRUE");
    assert_eq!(built(SQL::or(&vec![], false)), "FALSE");
}

#[test]
fn and_of_two_is_parenthesised() {
    let items = vec![SQL::sql("a"), SQL::sql("b")];
    assert_eq!(built(SQL::and(&items, true)), "(\na AND\nb\n)");
    let items = vec![SQL::sql("a"), SQL::sql("b")];
    assert_eq!(built(SQL::and(&items, false)), "(\na AND\nb\n)");
}

#[test]
fn or_of_three_is_parenthesised() {
    let items = vec![SQL::sql("a"), SQL::sql("b"), SQL::sql("c")];
    assert_eq!(built(SQL::or(&items, false)), "(\na OR\nb OR\nc\n)");
}

#[test]
fn and_of_one_has_no_delimiter() {
    assert_eq!(built(SQL::and(&vec![SQL::sql("a = 1")], false)), "(\na = 1\n)");
}

#[test]
fn clause_uses_the_given_delimiter() {
    let items = vec![SQL::sql("p"), SQL::sql("q")];
    assert_eq!(built(SQL::clause(&SQL::sql(" XOR "), &items, true)), "(\np XOR q\n)");
    assert_eq!(built(SQL::clause(&SQL::sql(" XOR "), &vec![], true)), "TRUE");
    assert_eq!(built(SQL::clause(&SQL::sql(" XOR "), &vec![], false)), "FALSE");
}

#[test]
fn in_vec_of_nothing_is_the_boolean_asked_for() {
    assert_eq!(built(SQL::in_vec(&SQL::sql("e"), &vec![], false)), "FALSE");
    assert_eq!(built(SQL::in_vec(&SQL::sql("e"), &vec![], true)), "TRUE");
}

#[test]
fn in_vec_of_one_value() {
    assert_eq!(built(SQL::in_vec(&SQL::sql("e"), &vec![SQL::sql("v")], false)), "e IN (v)");
}

#[test]
fn in_vec_of_several_values_is_comma_joined() {
    let items = vec![SQL::int4(1), SQL::int4(2), SQL::text("x")];
    assert_eq!(
        built(SQL::in_vec(&SQL::identifier("some_variable"), &items, false)),
        "some_variable IN (1, 2, 'x')"
    );
}

#[test]
fn in_vec_of_nothing_drops_a_failed_expression() {
    let sql = SQL::in_vec(&SQL::identifier(""), &vec![], true);
    assert_eq!(built(sql), "TRUE");
}
