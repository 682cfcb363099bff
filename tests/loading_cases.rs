use xlsx_check::checker::{Checker, Empty, Range};
use xlsx_check::compiler::{generate_checker, CheckObj};
use xlsx_check::number::{decimal_le_exec, parse_decimal, parse_float, parse_int};
use xlsx_check::token::{opens_long_bracket, tokenize, Token};
use xlsx_check::xlsx::{ALLXLSX, XLSX};

fn s(v: &str) -> String {
    v.to_string()
}

fn sheet() -> Vec<Vec<String>> {
    vec![
        vec![s("编号"), s("名字"), s("备注"), s("数量")],
        vec![s("Id"), s("Name"), s("Note"), s("Count")],
        vec![s("gt(0)"), s("len(1, 6)"), s(""), s("range(1, 9")],
        vec![s("all"), s("client"), s("none"), s("server")],
        vec![s("int"), s("string"), s("string"), s("int")],
        vec![s("1"), s("sword"), s("x"), s("3")],
        vec![s("2"), s("shield"), s("y")],
    ]
}

#[test]
fn header_declares_kept_fields() {
    let mut x = XLSX::new();
    let errors = x.load_sheet(&sheet(), 4, &s("Item.xlsx"), false, &s("lua"));
    assert_eq!(errors.len(), 1);
    assert_eq!(errors[0].expr, "range(1, 9");
    assert_eq!(errors[0].context, "Item.xlsx");
    assert_eq!(x.field_num(), 3);
    let names: Vec<&String> = x.fields_list().iter().map(|f| f.get_field_name()).collect();
    assert_eq!(names, vec!["Id", "Name", "Count"]);
    assert_eq!(x.fields_list()[2].as_index(), 2);
    assert_eq!(x.fields_list()[2].get_row_index(), 3);
    assert_eq!(x.fields_list()[0].get_condition(), "gt(0)");
    assert_eq!(x.fields_list()[1].get_field_type(), "string");
    assert!(x.fields_list()[0].is_key_field());
}

#[test]
fn data_rows_follow_field_columns() {
    let mut x = XLSX::new();
    x.load_sheet(&sheet(), 4, &s("Item.xlsx"), false, &s("lua"));
    assert_eq!(x.value_list().len(), 2);
    assert_eq!(x.value_list()[0], vec![s("1"), s("sword"), s("3")]);
    assert_eq!(x.value_list()[1], vec![s("2"), s("shield"), s("")]);
}

#[test]
fn later_sheets_only_add_rows() {
    let mut x = XLSX::new();
    x.load_sheet(&sheet(), 4, &s("Item.xlsx"), false, &s("lua"));
    let errors = x.load_sheet(&sheet(), 4, &s("Item.xlsx"), false, &s("lua"));
    assert!(errors.is_empty());
    assert_eq!(x.field_num(), 3);
    assert_eq!(x.value_list().len(), 4);
}

#[test]
fn special_sheet_is_all_strings_from_row_one() {
    let cells = vec![vec![s("A"), s("B")], vec![s("a1"), s("b1")], vec![s("a2")]];
    let mut x = XLSX::new();
    let errors = x.load_sheet(&cells, 2, &s("lang.xlsx"), true, &s("lua"));
    assert!(errors.is_empty());
    assert_eq!(x.field_num(), 2);
    assert_eq!(x.fields_list()[1].get_field_type(), "string");
    assert_eq!(x.value_list().len(), 2);
    assert_eq!(x.value_list()[1], vec![s("a2"), s("")]);
}

#[test]
fn local_pass_finds_failing_value() {
    let mut x = XLSX::new();
    let mut cells = sheet();
    cells.push(vec![s("0"), s("toolongname"), s(""), s("1")]);
    x.load_sheet(&cells, 4, &s("Item.xlsx"), false, &s("lua"));
    let mut all = ALLXLSX::new();
    all.add("Item.xlsx", x);
    match all.check_local() {
        Ok(()) => panic!("the third row should fail"),
        Err(e) => {
            assert_eq!(e.table, "Item.xlsx");
            assert_eq!(e.field, "Id");
            assert_eq!(e.row, 2);
            assert_eq!(e.value, Some(s("0")));
        }
    }
    assert!(all.check_xlsx_valid().is_ok());
}

#[test]
fn local_pass_accepts_good_table() {
    let mut x = XLSX::new();
    x.load_sheet(&sheet(), 4, &s("Item.xlsx"), false, &s("lua"));
    let mut all = ALLXLSX::new();
    all.add("Item.xlsx", x);
    assert!(all.check_local().is_ok());
}

#[test]
fn check_set_access() {
    let mut c = CheckObj::new();
    assert!(c.is_empty());
    assert!(c.get(0).is_none());
    c.add(Checker::Empty(Empty::new()));
    assert_eq!(c.len(), 1);
    assert!(c.get(0).is_some());
    assert!(c.test(&s("  ")));
    assert!(!c.test(&s("x")));
    if let Some(e) = c.get_mut(0) {
        assert!(!e.expect_more());
        assert!(!e.add_param(s("1")));
    } else {
        panic!("no first check");
    }
    assert!(c.get_mut(1).is_none());
    assert!(c.pop().is_some());
    assert!(c.pop().is_none());
}

#[test]
fn decimals_compare_exactly() {
    let a = parse_decimal("0.1000001").unwrap();
    let b = parse_decimal("0.1").unwrap();
    assert!(decimal_le_exec(&b, &a));
    assert!(!decimal_le_exec(&a, &b));
    let c = parse_decimal("+.5").unwrap();
    let d = parse_decimal("0.50").unwrap();
    assert!(decimal_le_exec(&c, &d) && decimal_le_exec(&d, &c));
    assert!(parse_decimal("1.").is_some());
    assert!(parse_decimal(".").is_none());
    assert!(parse_decimal("1.2.3").is_none());
    assert!(parse_decimal("1e3").is_none());
    assert!(parse_decimal(" 1").is_none());
    assert!(parse_decimal("1000000000000000000").is_none());
    assert!(parse_decimal("999999999999999999").is_some());
}

#[test]
fn ints_read_like_i32() {
    assert_eq!(parse_int("-2147483648").unwrap().mantissa(), -2147483648);
    assert!(parse_int("2147483648").is_none());
    assert_eq!(parse_int("+0007").unwrap().mantissa(), 7);
    assert!(parse_int("7.0").is_none());
    assert!(parse_int("-").is_none());
    assert!(parse_int("").is_none());
}

#[test]
fn lexer_tokens() {
    let t = tokenize("not eq('a b') and len(1,2)").unwrap();
    assert_eq!(t.len(), 12);
    assert!(matches!(t[0], Token::Not));
    assert!(matches!(&t[1], Token::Name(n) if n == "eq"));
    assert!(matches!(&t[3], Token::Literal(l) if l == "'a b'"));
    assert!(matches!(t[5], Token::And));
    assert!(matches!(&t[8], Token::Numeral(n) if n == "1"));
    assert!(matches!(t[9], Token::Comma));
    assert!(tokenize("x[[y").is_none());
    assert!(opens_long_bracket("a[=b"));
    assert!(!opens_long_bracket("a[b]"));
}

#[test]
fn expect_strips_one_layer_of_quotes() {
    let c = generate_checker(s("expect(\"Item\", \"'Id'\")"), s("int"), &s("t")).unwrap();
    let mut x = XLSX::new();
    let cells = vec![
        vec![s("")],
        vec![s("'Id'")],
        vec![s("")],
        vec![s("")],
        vec![s("int")],
        vec![s("4")],
    ];
    x.load_sheet(&cells, 1, &s("Item"), false, &s("lua"));
    let mut all = ALLXLSX::new();
    all.add("Item", x);
    assert!(c.test_on_all_load(&s("4"), &all));
}

#[test]
fn trimming_covers_unicode_whitespace() {
    let c = generate_checker(s("empty()"), s("string"), &s("t")).unwrap();
    assert!(c.test(&s("\u{3000}\t\u{a0}")));
    assert!(!c.test(&s("\u{200b}")));
    let e = generate_checker(s("eq('x')"), s("string"), &s("t")).unwrap();
    assert!(e.test(&s(" 'x'\u{2003}")));
}

#[test]
fn floats_read_exponents_exactly() {
    let a = parse_float("1.5e3").unwrap();
    let b = parse_float("1500").unwrap();
    assert!(decimal_le_exec(&a, &b) && decimal_le_exec(&b, &a));
    let c = parse_float("25E-2").unwrap();
    let d = parse_float("0.25").unwrap();
    assert!(decimal_le_exec(&c, &d) && decimal_le_exec(&d, &c));
    assert!(parse_float("-2e+1").unwrap().mantissa() == -20);
    assert!(parse_float("1e").is_none());
    assert!(parse_float("1e2e3").is_none());
    assert!(parse_float("e5").is_none());
    assert!(parse_float("1e40").is_none());
    assert!(parse_float("1e-19").is_none());
    assert!(parse_float("12.5").is_some());
}

#[test]
fn float_fields_accept_exponent_notation() {
    let c = generate_checker(s("range(0, 2000)"), s("float"), &s("t")).unwrap();
    assert!(c.test(&s("1e3")));
    assert!(!c.test(&s("2.1e3")));
    let g = generate_checker(s("gt(1e2)"), s("float"), &s("t")).unwrap();
    assert!(g.test(&s("100.5")));
    assert!(!g.test(&s("100")));
    assert!(generate_checker(s("gt(1e2)"), s("int"), &s("t")).is_err());
}

#[test]
fn range_used_directly() {
    let mut r = Range::new("int");
    assert!(!r.is_in_range("5"));
    assert!(r.add_param(s("1")));
    assert!(r.add_param(s("9")));
    assert!(!r.add_param(s("10")));
    assert!(r.is_in_range("1"));
    assert!(r.is_in_range("9"));
    assert!(!r.is_in_range("10"));
    let mut f = Range::new("float");
    assert!(!f.add_param(s("x")));
    assert!(f.add_param(s("0.5")));
    assert!(f.add_param(s("1.5")));
    assert!(f.is_in_range("1.25"));
}
