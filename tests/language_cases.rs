use xlsx_check::compiler::{generate_checker, CheckObj};
use xlsx_check::xlsx::{XlsTabField, ALLXLSX, XLSX};

fn compile(expr: &str, field_type: &str) -> CheckObj {
    match generate_checker(expr.to_string(), field_type.to_string(), &"t.xlsx".to_string()) {
        Ok(c) => c,
        Err(e) => panic!("{} did not compile: {:?}", expr, e),
    }
}

fn passes(c: &CheckObj, v: &str) -> bool {
    c.test(&v.to_string())
}

#[test]
fn strict_and_inclusive_bounds() {
    let gt = compile("gt(5)", "int");
    let ge = compile("ge(5)", "int");
    let lt = compile("lt(5)", "int");
    let le = compile("le(5)", "int");
    assert!(!passes(&gt, "5"));
    assert!(passes(&ge, "5"));
    assert!(!passes(&lt, "5"));
    assert!(passes(&le, "5"));
    assert!(passes(&gt, "6"));
    assert!(!passes(&lt, "6"));
    assert!(!passes(&ge, "4"));
    assert!(passes(&le, "4"));
}

#[test]
fn float_wins_over_int() {
    let c = compile("gt(1.5)", "int_or_float");
    assert!(passes(&c, "1.6"));
    assert!(!passes(&c, "1.5"));
    let i = compile("gt(1)", "int");
    assert!(!passes(&i, "1.6"));
}

#[test]
fn float_bound_on_int_field_is_malformed() {
    let r = generate_checker("gt(1.5)".to_string(), "int".to_string(), &"t.xlsx".to_string());
    assert!(r.is_err());
}

#[test]
fn comparison_without_numeric_type_never_passes() {
    let c = compile("ge(0)", "string");
    assert!(!passes(&c, "1"));
    let r = compile("range(0, 10)", "bool");
    assert!(!passes(&r, "5"));
}

#[test]
fn empty_value_fails_numeric_checks() {
    assert!(!passes(&compile("range(0, 10)", "int"), ""));
    assert!(!passes(&compile("le(10)", "float"), ""));
    assert!(!passes(&compile("ge(0)", "int"), "   "));
}

#[test]
fn len_counts_characters_not_bytes() {
    let c = compile("len(2, 2)", "string");
    assert!(passes(&c, "éé"));
    assert!(!passes(&c, "ééé"));
    let l = compile("len(1, 3)", "localize");
    assert!(passes(&l, "abc"));
}

#[test]
fn len_counts_empty_segments() {
    let c = compile("len(3, 3)", "int[]");
    assert!(passes(&c, "1,2,"));
    assert!(passes(&c, ",,"));
    assert!(!passes(&c, "1,2"));
}

#[test]
fn not_negates_empty() {
    let e = compile("empty()", "string");
    let n = compile("not empty()", "string");
    for v in ["", "  ", "x", " y "] {
        assert_eq!(passes(&n, v), !passes(&e, v));
    }
}

#[test]
fn not_with_parenthesised_call_negates() {
    let e = compile("empty()", "string");
    let n = compile("not(empty())", "string");
    assert_eq!(n.len(), 1);
    for v in ["", "  ", "x", " y "] {
        assert_eq!(passes(&n, v), !passes(&e, v));
    }
}

#[test]
fn groups_nest_combinators() {
    let n = compile("not(eq(2) or eq(3))", "int");
    assert!(!passes(&n, "2"));
    assert!(!passes(&n, "3"));
    assert!(passes(&n, "4"));
    let a = compile("ge(1) and (eq(5) or le(2))", "int");
    assert!(passes(&a, "1"));
    assert!(passes(&a, "5"));
    assert!(!passes(&a, "3"));
    assert!(!passes(&a, "0"));
    let d = compile("not((empty()))", "string");
    assert!(passes(&d, "z"));
    assert!(!passes(&d, ""));
}

#[test]
fn or_of_two_equalities() {
    let c = compile("eq(2) or eq(3)", "int");
    assert!(passes(&c, "2"));
    assert!(passes(&c, " 3 "));
    assert!(!passes(&c, "2.5"));
    assert!(!passes(&c, "100"));
}

#[test]
fn and_of_two_bounds() {
    let c = compile("ge(1) and le(3)", "int");
    assert!(passes(&c, "1"));
    assert!(passes(&c, "3"));
    assert!(!passes(&c, "0"));
    assert!(!passes(&c, "4"));
}

#[test]
fn juxtaposed_checks_all_apply() {
    let c = compile("ge(1) le(3)", "int");
    assert_eq!(c.len(), 2);
    assert!(passes(&c, "2"));
    assert!(!passes(&c, "5"));
}

#[test]
fn malformed_expressions_are_errors() {
    for e in ["eq(2", "eq(2))", "()", "(eq(7))", "(empty())", "eq(1) (eq(2))", ", eq(1)", "(eq(2)", "not()", "(eq(1) eq(2))", "eq((2))", "and()", "or eq(2)", "foo(1)", ")", "eq(2,3)", "range(1)", "len(a, 2)", "eq(2) -- note", "eq([[2]])", "gt(-1)"] {
        let r = generate_checker(e.to_string(), "int".to_string(), &"ctx.xlsx".to_string());
        match r {
            Ok(_) => panic!("{} compiled", e),
            Err(err) => {
                assert_eq!(err.context, "ctx.xlsx");
                assert_eq!(err.expr, e);
            }
        }
    }
}

#[test]
fn sentinels_accept_everything() {
    for e in ["", "c", "~", "  c  ", " "] {
        let c = compile(e, "int");
        assert!(c.is_empty());
        assert!(passes(&c, "anything"));
        assert!(passes(&c, ""));
        assert!(!c.need_full_load());
    }
}

#[test]
fn compiling_twice_agrees() {
    let a = compile("not empty() and len(1, 3)", "string");
    let b = compile("not empty() and len(1, 3)", "string");
    for v in ["", "a", "abcd", "ab"] {
        assert_eq!(passes(&a, v), passes(&b, v));
    }
}

fn dataset() -> ALLXLSX {
    let mut items = XLSX::new();
    let mut id = XlsTabField::new();
    id.set_field_name("Id".to_string());
    id.set_field_type("int".to_string());
    items.add_field(id);
    let mut name = XlsTabField::new();
    name.set_field_name("Name".to_string());
    name.set_field_type("string".to_string());
    items.add_field(name);
    items.add_row(vec!["1".to_string(), "sword".to_string()]);
    items.add_row(vec![" 2 ".to_string(), "shield".to_string()]);
    let mut all = ALLXLSX::new();
    all.add("Item", items);
    all
}

#[test]
fn expect_passes_locally_and_looks_up_globally() {
    let all = dataset();
    let c = compile("expect('Item', 'Id')", "int");
    assert!(c.need_full_load());
    assert!(passes(&c, "999"));
    assert!(c.test_on_all_load(&"1".to_string(), &all));
    assert!(c.test_on_all_load(&"2".to_string(), &all));
    assert!(c.test_on_all_load(&" 1".to_string(), &all));
    assert!(!c.test_on_all_load(&"3".to_string(), &all));
    let other = compile("expect('Item', 'Name')", "string");
    assert!(other.test_on_all_load(&"shield".to_string(), &all));
    assert!(!other.test_on_all_load(&"1".to_string(), &all));
    let missing = compile("expect('Nope', 'Id')", "int");
    assert!(!missing.test_on_all_load(&"1".to_string(), &all));
}

#[test]
fn checks_without_expect_pass_globally() {
    let all = dataset();
    let c = compile("eq(5)", "int");
    assert!(!c.need_full_load());
    assert!(c.test_on_all_load(&"1".to_string(), &all));
}

#[test]
fn has_field_compares_trimmed_values() {
    let all = dataset();
    assert!(all.has_field(&"Item".to_string(), &"Id".to_string(), &"2".to_string()));
    assert!(!all.has_field(&"Item".to_string(), &"Name".to_string(), &"2".to_string()));
    assert!(!all.has_field(&"Other".to_string(), &"Id".to_string(), &"2".to_string()));
}

#[test]
fn adding_a_table_again_replaces_it() {
    let mut all = dataset();
    let mut items = XLSX::new();
    let mut id = XlsTabField::new();
    id.set_field_name("Id".to_string());
    id.set_field_type("int".to_string());
    items.add_field(id);
    items.add_row(vec!["7".to_string()]);
    all.add("Item", items);
    assert!(all.has_field(&"Item".to_string(), &"Id".to_string(), &"7".to_string()));
    assert!(!all.has_field(&"Item".to_string(), &"Id".to_string(), &"1".to_string()));
}

#[test]
fn global_pass_reports_failing_row() {
    let mut all = dataset();
    let mut orders = XLSX::new();
    let mut item = XlsTabField::new();
    item.set_field_name("ItemId".to_string());
    item.set_field_type("int".to_string());
    item.set_condition(&"expect('Item','Id')".to_string());
    item.set_checkers(compile("expect('Item','Id')", "int"));
    orders.add_field(item);
    orders.add_row(vec!["1".to_string()]);
    orders.add_row(vec!["2".to_string()]);
    orders.add_row(vec!["9".to_string()]);
    all.add("Order", orders);
    match all.check_xlsx_valid() {
        Ok(()) => panic!("row with 9 should fail"),
        Err(e) => {
            assert_eq!(e.table, "Order");
            assert_eq!(e.field, "ItemId");
            assert_eq!(e.row, 2);
            assert_eq!(e.value, Some("9".to_string()));
            assert_eq!(e.condition, "expect('Item','Id')");
        }
    }
}

#[test]
fn local_pass_checks_fields_with_expect() {
    let mut all = dataset();
    let mut orders = XLSX::new();
    let mut item = XlsTabField::new();
    item.set_field_name("ItemId".to_string());
    item.set_field_type("int".to_string());
    item.set_checkers(compile("gt(0) expect('Item','Id')", "int"));
    orders.add_field(item);
    orders.add_row(vec!["1".to_string()]);
    orders.add_row(vec!["-5".to_string()]);
    all.add("Order", orders);
    match all.check_local() {
        Ok(()) => panic!("-5 fails gt(0)"),
        Err(e) => {
            assert_eq!(e.table, "Order");
            assert_eq!(e.row, 1);
            assert_eq!(e.value, Some("-5".to_string()));
        }
    }
}

#[test]
fn global_pass_accepts_known_values() {
    let mut all = dataset();
    let mut orders = XLSX::new();
    let mut item = XlsTabField::new();
    item.set_field_name("ItemId".to_string());
    item.set_field_type("int".to_string());
    item.set_checkers(compile("expect('Item','Id')", "int"));
    orders.add_field(item);
    orders.add_row(vec!["1".to_string()]);
    all.add("Order", orders);
    assert!(all.check_xlsx_valid().is_ok());
}

#[test]
fn field_descriptor_queries() {
    let mut f = XlsTabField::new();
    assert!(f.is_invalid_field());
    f.set_field_name("ItemKeyId".to_string());
    f.set_field_type("int".to_string());
    assert!(!f.is_invalid_field());
    assert!(f.is_key_field());
    f.set_field_name("id".to_string());
    assert!(f.is_key_field());
    f.set_field_name("Name".to_string());
    assert!(!f.is_key_field());
    f.set_client_or_server(&"none".to_string());
    assert!(f.is_remark_field(&"lua".to_string()));
    f.set_client_or_server(&"client".to_string());
    assert!(!f.is_remark_field(&"lua".to_string()));
    f.set_field_index(3);
    f.set_row_index(7);
    assert_eq!(f.as_index(), 3);
    assert_eq!(f.get_row_index(), 7);
    f.set_checkers(compile("len(1, 2)", "string"));
    assert!(f.is_valid(&"ab".to_string()));
    assert!(!f.is_valid(&"abc".to_string()));
}
