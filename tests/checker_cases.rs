use xlsx_check::compiler::generate_checker;

#[test]
fn test_gt() {
    let ret = generate_checker(
        "gt(12)".to_string(),
        "int".to_string(),
        &"test.xlsx".to_string(),
    );
    if let Ok(checker) = ret {
        assert_eq!(checker.test(&"13".to_string()), true);
        assert_eq!(checker.test(&"13345463".to_string()), true);
        assert_eq!(checker.test(&"1".to_string()), false);
        assert_eq!(checker.test(&"-1232141".to_string()), false);
        assert_eq!(checker.test(&"-0".to_string()), false);
        assert_eq!(checker.test(&"0".to_string()), false);
        assert_eq!(checker.test(&"12".to_string()), false);
    } else {
        assert!(false);
    }
}

#[test]
fn test_lt() {
    let ret = generate_checker(
        "lt(12)".to_string(),
        "int".to_string(),
        &"test.xlsx".to_string(),
    );
    if let Ok(checker) = ret {
        assert_eq!(checker.test(&"13".to_string()), false);
        assert_eq!(checker.test(&"13345463".to_string()), false);
        assert_eq!(checker.test(&"1".to_string()), true);
        assert_eq!(checker.test(&"-1232141".to_string()), true);
        assert_eq!(checker.test(&"-0".to_string()), true);
        assert_eq!(checker.test(&"0".to_string()), true);
        assert_eq!(checker.test(&"12".to_string()), false);
    } else {
        assert!(false);
    }
}

#[test]
fn test_range() {
    let ret = generate_checker(
        "range(10, 100)".to_string(),
        "int".to_string(),
        &"test.xlsx".to_string(),
    );
    if let Ok(checker) = ret {
        assert_eq!(checker.test(&"13".to_string()), true);
        assert_eq!(checker.test(&"13345463".to_string()), false);
        assert_eq!(checker.test(&"1".to_string()), false);
        assert_eq!(checker.test(&"-1232141".to_string()), false);
        assert_eq!(checker.test(&"-0".to_string()), false);
        assert_eq!(checker.test(&"0".to_string()), false);
        assert_eq!(checker.test(&"10".to_string()), true);
        assert_eq!(checker.test(&"100".to_string()), true);
    } else {
        assert!(false);
    }

    let ret = generate_checker(
        "range(10, 100)".to_string(),
        "float".to_string(),
        &"test.xlsx".to_string(),
    );
    if let Ok(checker) = ret {
        assert_eq!(checker.test(&"13".to_string()), true);
        assert_eq!(checker.test(&"13345463.0".to_string()), false);
        assert_eq!(checker.test(&"1".to_string()), false);
        assert_eq!(checker.test(&"-1232141.0".to_string()), false);
        assert_eq!(checker.test(&"-0".to_string()), false);
        assert_eq!(checker.test(&"0".to_string()), false);
        assert_eq!(checker.test(&"10.0".to_string()), true);
        assert_eq!(checker.test(&"100.0".to_string()), true);
        assert_eq!(checker.test(&"9.9999".to_string()), false);
        assert_eq!(checker.test(&"10.0001".to_string()), true);
        assert_eq!(checker.test(&"99.9999".to_string()), true);
        assert_eq!(checker.test(&"100.0001".to_string()), false);
    } else {
        assert!(false);
    }
}

#[test]
fn test_length() {
    let ret = generate_checker(
        "len(2, 4)".to_string(),
        "int[]".to_string(),
        &"test.xlsx".to_string(),
    );
    if let Ok(checker) = ret {
        assert_eq!(checker.test(&"[13,13, 13, 13]".to_string()), true);
        assert_eq!(checker.test(&"13345463".to_string()), false);
        assert_eq!(checker.test(&"[12]".to_string()), false);
        assert_eq!(checker.test(&"[12,13]".to_string()), true);
        assert_eq!(checker.test(&"[12,13,14]".to_string()), true);
        assert_eq!(checker.test(&"[12,13,14,15,15,15,15]".to_string()), false);
    } else {
        assert!(false);
    }

    let ret = generate_checker(
        "len(2, 4)".to_string(),
        "string".to_string(),
        &"test.xlsx".to_string(),
    );
    if let Ok(checker) = ret {
        assert_eq!(checker.test(&"helloworld".to_string()), false);
        assert_eq!(checker.test(&"hell".to_string()), true);
        assert_eq!(checker.test(&"h".to_string()), false);
        assert_eq!(checker.test(&"".to_string()), false);
        assert_eq!(checker.test(&"world".to_string()), false);
    } else {
        assert!(false);
    }
}

#[test]
fn test_eq() {
    let ret = generate_checker(
        "eq(2)".to_string(),
        "int".to_string(),
        &"test.xlsx".to_string(),
    );
    if let Ok(checker) = ret {
        assert_eq!(checker.test(&"2".to_string()), true);
        assert_eq!(checker.test(&"13345463".to_string()), false);
        assert_eq!(checker.test(&"[12]".to_string()), false);
        assert_eq!(checker.test(&"".to_string()), false);
        assert_eq!(checker.test(&"[12,13,14,15,15,15,15]".to_string()), false);
    } else {
        assert!(false);
    }
}

#[test]
fn test_or() {
    let ret = generate_checker(
        "eq(2) or eq(3)".to_string(),
        "int".to_string(),
        &"test.xlsx".to_string(),
    );
    if let Ok(checker) = ret {
        assert_eq!(checker.test(&"2".to_string()), true);
        assert_eq!(checker.test(&"3".to_string()), true);
        assert_eq!(checker.test(&"2.5".to_string()), false);
        assert_eq!(checker.test(&"100".to_string()), false);
    } else {
        assert!(false);
    }
}
