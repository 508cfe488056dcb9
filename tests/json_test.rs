use fastweb::json::Serde;
use fastweb::string_map::StringMap;

#[test]
fn test_string_to_json() {
    let my_string = "Hello, world!".to_string();
    assert_eq!(my_string.to_json(), "\"Hello, world!\"");
}

#[test]
fn test_string_from_json() {
    let json_str = "\"Hello, world!\"";
    let my_string: String = Serde::from_json(json_str).unwrap();
    assert_eq!(my_string, "Hello, world!");
}

#[test]
fn test_i32_to_json() {
    let my_int = 42;
    assert_eq!(my_int.to_json(), "42");
}

#[test]
fn test_i32_from_json() {
    let json_int = "42";
    let my_int: i32 = Serde::from_json(json_int).unwrap();
    assert_eq!(my_int, 42);
}

#[test]
fn test_bool_to_json() {
    let my_bool = true;
    assert_eq!(my_bool.to_json(), "true");
    let my_bool = false;
    assert_eq!(my_bool.to_json(), "false");
}

#[test]
fn test_bool_from_json() {
    let json_bool = "true";
    let my_bool: bool = Serde::from_json(json_bool).unwrap();
    assert_eq!(my_bool, true);
    let json_bool = "false";
    let my_bool: bool = Serde::from_json(json_bool).unwrap();
    assert_eq!(my_bool, false);
}

#[test]
fn test_vec_to_json() {
    let my_vec = vec![1, 2, 3];
    assert_eq!(my_vec.to_json(), "[1, 2, 3]");
}

#[test]
fn test_vec_from_json() {
    let json_vec = "[1, 2, 3]";
    let my_vec: Vec<i32> = Serde::from_json(json_vec).unwrap();
    assert_eq!(my_vec, vec![1, 2, 3]);
}

#[test]
fn test_hashmap_to_json() {
    let mut my_map = StringMap::new();
    my_map.insert("key1".to_string(), "value1".to_string());
    let json = my_map.to_json();
    assert_eq!(json, "{\"key1\": \"value1\"}");
}

#[test]
fn test_hashmap_from_json() {
    let json_map = "{\"key1\": \"value1\", \"key2\": \"value2\"}";
    let my_map: StringMap = Serde::from_json(json_map).unwrap();
    assert_eq!(my_map.get("key1").unwrap(), "value1");
    assert_eq!(my_map.get("key2").unwrap(), "value2");
}

#[test]
fn negative_and_extreme_integers_round_trip() {
    assert_eq!((-7i32).to_json(), "-7");
    assert_eq!(i32::MIN.to_json(), "-2147483648");
    assert_eq!(i32::MAX.to_json(), "2147483647");
    let v: i32 = Serde::from_json("-2147483648").unwrap();
    assert_eq!(v, i32::MIN);
    let v: i32 = Serde::from_json("+15").unwrap();
    assert_eq!(v, 15);
}

#[test]
fn malformed_values_are_rejected() {
    assert!(<i32 as Serde>::from_json("2147483648").is_err());
    assert!(<i32 as Serde>::from_json("-2147483649").is_err());
    assert!(<i32 as Serde>::from_json("").is_err());
    assert!(<i32 as Serde>::from_json("-").is_err());
    assert!(<i32 as Serde>::from_json("4x").is_err());
    assert!(<bool as Serde>::from_json("yes").is_err());
    assert!(<String as Serde>::from_json("\"").is_err());
    assert!(<String as Serde>::from_json("abc").is_err());
    assert!(<Vec<i32> as Serde>::from_json("[1, x]").is_err());
    assert!(<Vec<i32> as Serde>::from_json("1, 2").is_err());
    assert!(<StringMap as Serde>::from_json("{\"a\" \"b\"}").is_err());
    assert!(<StringMap as Serde>::from_json("[]").is_err());
}

#[test]
fn later_object_key_wins() {
    let m: StringMap = Serde::from_json("{\"a\": \"1\", \"a\": \"2\"}").unwrap();
    assert_eq!(m.get("a").unwrap(), "2");
    assert_eq!(m.len(), 1);
}
