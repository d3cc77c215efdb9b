use x_map::maps::CIndexMap;

#[test]
pub fn test_integration() {
    let string_one = String::from("foo");
    let string_two = String::from("bar");

    let mut map = CIndexMap::new();
    map.insert(string_one.to_string(), string_two.to_string()).unwrap();

    assert_eq!(map.get(string_one.to_string()), Some(&string_two));
    assert_eq!(map.get(string_two.to_string()), None);
}

#[test]
pub fn test_integration_2() {
    let mut map = CIndexMap::new();
    map.insert("foo", "bar").unwrap();

    assert_eq!(map.get("foo").unwrap(), &"bar");
}

#[test]
pub fn test_integration_3() {
    let mut map = CIndexMap::new();
    map.insert("foo", "bar").unwrap();
    assert!(map.contains_key("foo")); // true
    assert!(!map.contains_key("bar")); // false
    assert!(map.contains_value("bar")); // true
    assert!(!map.contains_value("foo")); // false
}
