use std::collections::HashMap;

#[test]
fn test_string_key() {
    let mut h: HashMap<String, String> = HashMap::new();
    h.insert("test".to_string(), String::from("waht"));
    if let Some(_) = h.get(&String::from("test")) {
        assert!(true);
    } else {
        assert!(false);
    }

    if let Some(_) = h.get(&String::from("xxxx")) {
        assert!(false);
    } else {
        assert!(true);
    }
}
