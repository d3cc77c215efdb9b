use x_map::error::MapErrorKind;
use x_map::maps::CIndexMap;
use x_map::util::mem_cmp;

#[test]
fn test_insert() {
    let string_one = String::from("foo");
    let string_two = String::from("bar");
    let mut c_index: CIndexMap<String, String> = CIndexMap::new();

    c_index.insert(string_one.to_string(), string_two.to_string()).unwrap();
    c_index.insert(string_two.to_string(), string_one.to_string()).unwrap();

    assert_eq!(c_index.index(0), Some((&string_one, &string_two)));
    assert_eq!(c_index.index(1), Some((&string_two, &string_one)));
    c_index.remove(1).unwrap();
    assert_eq!(c_index.index(0), Some((&string_one, &string_two)));
    assert_eq!(c_index.index(1), None);
}

#[test]
fn scenario_insert_then_index() {
    let mut map: CIndexMap<&str, &str> = CIndexMap::new();
    map.insert("foo", "bar").unwrap();
    map.insert("baz", "qux").unwrap();

    assert_eq!(map.index(0), Some((&"foo", &"bar")));
    assert_eq!(map.index(1), Some((&"baz", &"qux")));
}

#[test]
fn scenario_remove_shifts_survivors() {
    let mut map: CIndexMap<&str, &str> = CIndexMap::new();
    map.insert("foo", "bar").unwrap();
    map.insert("baz", "qux").unwrap();

    map.remove(0).unwrap();
    assert_eq!(map.index(0), Some((&"baz", &"qux")));
    assert_eq!(map.index(1), None);
}

#[test]
fn scenario_lookups_after_inserts() {
    let mut map: CIndexMap<&str, &str> = CIndexMap::new();
    map.insert("foo", "bar").unwrap();
    map.insert("baz", "qux").unwrap();

    assert_eq!(map.get("foo"), Some(&"bar"));
    assert!(!map.contains_key("missing"));
    assert!(map.contains_value("qux"));
}

#[test]
fn scenario_remove_on_empty_map() {
    let mut map: CIndexMap<String, String> = CIndexMap::new();
    let err = map.remove(0).unwrap_err();
    assert_eq!(err.kind(), MapErrorKind::AccessError);
}

#[test]
fn remove_out_of_range_reports_access_error() {
    let mut map: CIndexMap<u32, u32> = CIndexMap::new();
    map.insert(1, 10).unwrap();
    let err = map.remove(1).unwrap_err();
    assert_eq!(err.kind(), MapErrorKind::AccessError);
    assert_eq!(
        err.message(),
        "Attempted to access a map index that surpasses the bounds of the current map."
    );
    // The failed removal left the map unchanged.
    assert_eq!(map.index(0), Some((&1, &10)));
}

#[test]
fn growth_preserves_entries() {
    // Capacity starts at one and grows by two, so many inserts cross several
    // growth steps; every earlier entry must still read back unchanged.
    let mut map: CIndexMap<u32, u32> = CIndexMap::new();
    let mut k: u32 = 0;
    while k < 100 {
        map.insert(k, 1000 + k).unwrap();
        k += 1;
    }
    let mut i: u32 = 0;
    while i < 100 {
        assert_eq!(map.index(i as usize), Some((&i, &(1000 + i))));
        i += 1;
    }
    assert_eq!(map.index(100), None);
}

#[test]
fn duplicate_keys_first_inserted_wins() {
    let mut map: CIndexMap<u32, &str> = CIndexMap::new();
    map.insert(7, "first").unwrap();
    map.insert(8, "other").unwrap();
    map.insert(7, "second").unwrap();

    assert_eq!(map.get(7), Some(&"first"));
    assert_eq!(map.get(9), None);
}

#[test]
fn removal_uncovers_later_duplicate() {
    let mut map: CIndexMap<u32, &str> = CIndexMap::new();
    map.insert(7, "first").unwrap();
    map.insert(7, "second").unwrap();

    map.remove(0).unwrap();
    assert_eq!(map.get(7), Some(&"second"));
}

#[test]
fn byte_lookup_agrees_with_get_on_u32_keys() {
    let mut map: CIndexMap<u32, u32> = CIndexMap::new();
    map.insert(0xDEAD_BEEF, 1).unwrap();
    map.insert(42, 2).unwrap();
    map.insert(42, 3).unwrap();

    assert_eq!(map.get_no_peq(0xDEAD_BEEF), map.get(0xDEAD_BEEF));
    assert_eq!(map.get_no_peq(42), map.get(42));
    assert_eq!(map.get_no_peq(42), Some(&2));
    assert_eq!(map.get_no_peq(5), None);
    assert_eq!(map.get_no_peq(5), map.get(5));
}

#[test]
fn byte_lookup_on_u8_and_u64_keys() {
    let mut bytes: CIndexMap<u8, u8> = CIndexMap::new();
    bytes.insert(3, 30).unwrap();
    assert_eq!(bytes.get_no_peq(3), Some(&30));
    assert_eq!(bytes.get_no_peq(4), None);

    let mut words: CIndexMap<u64, u64> = CIndexMap::new();
    words.insert(u64::MAX, 1).unwrap();
    words.insert(u64::MAX - 1, 2).unwrap();
    assert_eq!(words.get_no_peq(u64::MAX - 1), Some(&2));
    assert_eq!(words.get_no_peq(0), None);
}

#[test]
fn mem_cmp_reports_first_mismatch() {
    let left: Vec<u8> = vec![1, 2, 3, 4];
    let right: Vec<u8> = vec![1, 2, 9, 4];
    assert_eq!(mem_cmp(left.as_slice(), right.as_slice(), 4), Some(2));
    assert_eq!(mem_cmp(left.as_slice(), right.as_slice(), 2), None);
    assert_eq!(mem_cmp(left.as_slice(), left.as_slice(), 4), None);
    assert_eq!(mem_cmp(left.as_slice(), right.as_slice(), 0), None);
}
