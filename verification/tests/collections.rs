use est::collections::{MapExt, ReplaceKeyErr};
use indexmap::IndexMap;
use std::collections::{BTreeMap, HashMap};

fn key(text: &str) -> String {
    text.to_string()
}

fn ordered(pairs: &[(&str, i32)]) -> IndexMap<String, i32> {
    let mut map = IndexMap::new();
    for (k, v) in pairs {
        map.insert(k.to_string(), *v);
    }
    map
}

fn listed(map: &IndexMap<String, i32>) -> Vec<(String, i32)> {
    map.iter().map(|(k, v)| (k.clone(), *v)).collect()
}

fn pairs(items: &[(&str, i32)]) -> Vec<(String, i32)> {
    items.iter().map(|(k, v)| (k.to_string(), *v)).collect()
}

#[test]
fn replace_key_hashmap() {
    let mut map = HashMap::new();

    map.insert("k1".to_string(), 123);
    map.insert("k2".to_string(), 456);

    assert_eq!(map["k1"], 123);
    assert_eq!(map["k2"], 456);
    assert_eq!(
        map.replace_key("k3", "k2".to_string()),
        Err(ReplaceKeyErr::OldKeyNotExist)
    );
    assert_eq!(
        map.replace_key("k3", "k3".to_string()),
        Err(ReplaceKeyErr::OldKeyNotExist)
    );
    assert_eq!(
        map.replace_key("k3", "k4".to_string()),
        Err(ReplaceKeyErr::OldKeyNotExist)
    );

    let cloned = map.clone();
    assert_eq!(map.replace_key("k1", "k1".to_string()), Ok(()));
    assert_eq!(map, cloned);

    assert_eq!(
        map.replace_key("k1", "k2".to_string()),
        Err(ReplaceKeyErr::NewKeyOccupied)
    );
    assert_eq!(map.replace_key("k1", "k3".to_string()), Ok(()));
    assert!(!map.contains_key("k1"));
    assert_eq!(map["k3"], 123);
    assert_eq!(map["k2"], 456);
}

#[test]
fn replace_key_btreemap() {
    let mut map = BTreeMap::new();

    map.insert("k1".to_string(), 123);
    map.insert("k2".to_string(), 456);

    assert_eq!(map["k1"], 123);
    assert_eq!(map["k2"], 456);
    assert_eq!(
        map.replace_key("k3", "k2".to_string()),
        Err(ReplaceKeyErr::OldKeyNotExist)
    );
    assert_eq!(
        map.replace_key("k3", "k3".to_string()),
        Err(ReplaceKeyErr::OldKeyNotExist)
    );
    assert_eq!(
        map.replace_key("k3", "k4".to_string()),
        Err(ReplaceKeyErr::OldKeyNotExist)
    );

    let cloned = map.clone();
    assert_eq!(map.replace_key("k1", "k1".to_string()), Ok(()));
    assert_eq!(map, cloned);

    assert_eq!(
        map.replace_key("k1", "k2".to_string()),
        Err(ReplaceKeyErr::NewKeyOccupied)
    );
    assert_eq!(map.replace_key("k1", "k3".to_string()), Ok(()));
    assert!(!map.contains_key("k1"));
    assert_eq!(map["k3"], 123);
    assert_eq!(map["k2"], 456);
}

#[test]
fn replace_key_indexmap() {
    let mut map = IndexMap::new();
    map.insert("k1".to_string(), 123);
    map.insert("k2".to_string(), 456);

    assert_eq!(map["k1"], 123);
    assert_eq!(map["k2"], 456);
    assert_eq!(map.get_index_of("k1"), Some(0));
    assert_eq!(map.get_index(0), Some((&"k1".to_string(), &123)));

    assert_eq!(
        map.replace_key("k3", "k2".to_string()),
        Err(ReplaceKeyErr::OldKeyNotExist)
    );
    assert_eq!(
        map.replace_key("k3", "k3".to_string()),
        Err(ReplaceKeyErr::OldKeyNotExist)
    );
    assert_eq!(
        map.replace_key("k3", "k4".to_string()),
        Err(ReplaceKeyErr::OldKeyNotExist)
    );

    let cloned = map.clone();
    assert_eq!(map.replace_key("k1", "k1".to_string()), Ok(()));
    assert_eq!(map, cloned);

    assert_eq!(
        map.replace_key("k1", "k2".to_string()),
        Err(ReplaceKeyErr::NewKeyOccupied)
    );

    assert_eq!(map.replace_key("k1", "k3".to_string()), Ok(()));
    assert!(!map.contains_key("k1"));
    assert_eq!(map["k3"], 123);
    assert_eq!(map["k2"], 456);
    assert_eq!(map.get_index_of("k3"), Some(0));
    assert_eq!(map.get_index(0), Some((&"k3".to_string(), &123)));
}

#[test]
fn hash_rename_moves_value_and_keeps_the_rest() {
    let mut map: HashMap<u64, u64> = HashMap::new();
    map.insert(1, 10);
    map.insert(2, 20);
    map.insert(3, 30);
    assert_eq!(map.replace_key(&2, 9), Ok(()));
    let mut expected: HashMap<u64, u64> = HashMap::new();
    expected.insert(1, 10);
    expected.insert(9, 20);
    expected.insert(3, 30);
    assert_eq!(map, expected);
}

#[test]
fn hash_rename_to_itself_changes_nothing() {
    let mut map: HashMap<u64, u64> = HashMap::new();
    map.insert(1, 10);
    map.insert(2, 20);
    let before = map.clone();
    assert_eq!(map.replace_key(&2, 2), Ok(()));
    assert_eq!(map, before);
}

#[test]
fn hash_rename_of_absent_key_fails_whatever_the_new_key() {
    let mut map: HashMap<u64, u64> = HashMap::new();
    map.insert(1, 10);
    let before = map.clone();
    assert_eq!(map.replace_key(&5, 1), Err(ReplaceKeyErr::OldKeyNotExist));
    assert_eq!(map.replace_key(&5, 5), Err(ReplaceKeyErr::OldKeyNotExist));
    assert_eq!(map.replace_key(&5, 6), Err(ReplaceKeyErr::OldKeyNotExist));
    assert_eq!(map, before);
    let mut empty: HashMap<u64, u64> = HashMap::new();
    assert_eq!(empty.replace_key(&0, 0), Err(ReplaceKeyErr::OldKeyNotExist));
    assert!(empty.is_empty());
}

#[test]
fn hash_rename_to_taken_key_fails_and_changes_nothing() {
    let mut map: HashMap<u64, u64> = HashMap::new();
    map.insert(1, 10);
    map.insert(2, 20);
    let before = map.clone();
    assert_eq!(map.replace_key(&1, 2), Err(ReplaceKeyErr::NewKeyOccupied));
    assert_eq!(map, before);
}

#[test]
fn hash_scenario_with_text_keys() {
    let mut map: HashMap<String, i32> = HashMap::new();
    map.insert(key("k1"), 123);
    map.insert(key("k2"), 456);
    assert_eq!(map.replace_key("k3", key("k2")), Err(ReplaceKeyErr::OldKeyNotExist));
    assert_eq!(map.replace_key("k1", key("k2")), Err(ReplaceKeyErr::NewKeyOccupied));
    assert_eq!(map.replace_key("k1", key("k3")), Ok(()));
    let mut expected: HashMap<String, i32> = HashMap::new();
    expected.insert(key("k3"), 123);
    expected.insert(key("k2"), 456);
    assert_eq!(map, expected);
}

#[test]
fn hash_scenario_with_lookup_by_owned_key() {
    let mut map: HashMap<String, i32> = HashMap::new();
    map.insert(key("k1"), 123);
    map.insert(key("k2"), 456);
    assert_eq!(map.replace_key(&key("k3"), key("k2")), Err(ReplaceKeyErr::OldKeyNotExist));
    assert_eq!(map.replace_key(&key("k1"), key("k2")), Err(ReplaceKeyErr::NewKeyOccupied));
    assert_eq!(map.replace_key(&key("k1"), key("k1")), Ok(()));
    assert_eq!(map.replace_key(&key("k1"), key("k3")), Ok(()));
    let mut expected: HashMap<String, i32> = HashMap::new();
    expected.insert(key("k3"), 123);
    expected.insert(key("k2"), 456);
    assert_eq!(map, expected);
}

#[test]
fn text_overwrite_in_hash_and_tree_maps() {
    let mut hashed: HashMap<String, i32> = HashMap::new();
    hashed.insert(key("a"), 1);
    hashed.insert(key("b"), 2);
    hashed.insert(key("c"), 3);
    assert!(!hashed.replace_key_overwrite("x", key("a")));
    assert_eq!(hashed.len(), 3);
    assert_eq!(hashed["a"], 1);
    assert!(hashed.replace_key_overwrite("a", key("b")));
    assert!(hashed.replace_key_overwrite("c", key("c")));
    assert!(hashed.replace_key_overwrite("c", key("d")));
    let mut expected: HashMap<String, i32> = HashMap::new();
    expected.insert(key("b"), 1);
    expected.insert(key("d"), 3);
    assert_eq!(hashed, expected);

    let mut sorted: BTreeMap<String, i32> = BTreeMap::new();
    sorted.insert(key("a"), 1);
    sorted.insert(key("b"), 2);
    sorted.insert(key("c"), 3);
    assert!(!sorted.replace_key_overwrite("x", key("a")));
    assert!(sorted.replace_key_overwrite("a", key("b")));
    assert!(sorted.replace_key_overwrite("c", key("c")));
    assert!(sorted.replace_key_overwrite("c", key("d")));
    let listed: Vec<(String, i32)> = sorted.into_iter().collect();
    assert_eq!(listed, vec![(key("b"), 1), (key("d"), 3)]);
}

#[test]
fn hash_overwrite_replaces_what_the_new_key_held() {
    let mut map: HashMap<u64, u64> = HashMap::new();
    map.insert(1, 10);
    map.insert(2, 20);
    map.insert(3, 30);
    assert!(map.replace_key_overwrite(&1, 2));
    let mut expected: HashMap<u64, u64> = HashMap::new();
    expected.insert(2, 10);
    expected.insert(3, 30);
    assert_eq!(map, expected);
    assert!(!map.replace_key_overwrite(&1, 3));
    assert_eq!(map, expected);
    assert!(map.replace_key_overwrite(&3, 3));
    assert_eq!(map, expected);
    assert!(map.replace_key_overwrite(&3, 4));
    assert_eq!(map.get(&4), Some(&30));
    assert_eq!(map.len(), 2);
}

#[test]
fn tree_rename_moves_value_and_keeps_the_rest() {
    let mut map: BTreeMap<i64, u8> = BTreeMap::new();
    map.insert(-1, 1);
    map.insert(0, 2);
    map.insert(1, 3);
    assert_eq!(map.replace_key(&0, 7), Ok(()));
    let listed: Vec<(i64, u8)> = map.iter().map(|(k, v)| (*k, *v)).collect();
    assert_eq!(listed, vec![(-1, 1), (1, 3), (7, 2)]);
    assert_eq!(map.replace_key(&7, 1), Err(ReplaceKeyErr::NewKeyOccupied));
    assert_eq!(map.replace_key(&0, 1), Err(ReplaceKeyErr::OldKeyNotExist));
    assert_eq!(map.replace_key(&7, 7), Ok(()));
    let listed: Vec<(i64, u8)> = map.iter().map(|(k, v)| (*k, *v)).collect();
    assert_eq!(listed, vec![(-1, 1), (1, 3), (7, 2)]);
}

#[test]
fn tree_overwrite_replaces_what_the_new_key_held() {
    let mut map: BTreeMap<i64, u8> = BTreeMap::new();
    map.insert(-1, 1);
    map.insert(0, 2);
    map.insert(1, 3);
    assert!(map.replace_key_overwrite(&1, -1));
    let listed: Vec<(i64, u8)> = map.iter().map(|(k, v)| (*k, *v)).collect();
    assert_eq!(listed, vec![(-1, 3), (0, 2)]);
    assert!(!map.replace_key_overwrite(&1, 5));
    assert!(map.replace_key_overwrite(&0, 0));
    let listed: Vec<(i64, u8)> = map.iter().map(|(k, v)| (*k, *v)).collect();
    assert_eq!(listed, vec![(-1, 3), (0, 2)]);
}

#[test]
fn ordered_scenario_keeps_first_place() {
    let mut map = ordered(&[("k1", 123), ("k2", 456)]);
    assert_eq!(map.replace_key("k1", key("k3")), Ok(()));
    assert_eq!(listed(&map), pairs(&[("k3", 123), ("k2", 456)]));
}

#[test]
fn ordered_rename_keeps_every_place() {
    for (at, old) in ["a", "b", "c", "d"].iter().enumerate() {
        let mut map = ordered(&[("a", 1), ("b", 2), ("c", 3), ("d", 4)]);
        assert_eq!(map.replace_key(old, key("z")), Ok(()));
        let mut expected = pairs(&[("a", 1), ("b", 2), ("c", 3), ("d", 4)]);
        expected[at].0 = key("z");
        assert_eq!(listed(&map), expected);
        assert_eq!(map.get_index_of("z"), Some(at));
        assert_eq!(map.get_index_of(*old), None);
    }
}

#[test]
fn ordered_rename_in_a_map_of_one() {
    let mut map = ordered(&[("only", -5)]);
    assert_eq!(map.replace_key("only", key("one")), Ok(()));
    assert_eq!(listed(&map), pairs(&[("one", -5)]));
    assert_eq!(map.replace_key("only", key("one")), Err(ReplaceKeyErr::OldKeyNotExist));
    assert_eq!(map.replace_key("one", key("one")), Ok(()));
    assert_eq!(listed(&map), pairs(&[("one", -5)]));
}

#[test]
fn ordered_refusals_change_nothing() {
    let mut map = ordered(&[("a", 1), ("b", 2), ("c", 3)]);
    assert_eq!(map.replace_key("x", key("a")), Err(ReplaceKeyErr::OldKeyNotExist));
    assert_eq!(map.replace_key("x", key("x")), Err(ReplaceKeyErr::OldKeyNotExist));
    assert_eq!(map.replace_key("a", key("c")), Err(ReplaceKeyErr::NewKeyOccupied));
    assert_eq!(map.replace_key("c", key("a")), Err(ReplaceKeyErr::NewKeyOccupied));
    assert_eq!(listed(&map), pairs(&[("a", 1), ("b", 2), ("c", 3)]));
    let mut empty = ordered(&[]);
    assert_eq!(empty.replace_key("", key("")), Err(ReplaceKeyErr::OldKeyNotExist));
    assert!(empty.is_empty());
}

#[test]
fn ordered_lookup_by_owned_text() {
    let mut map = ordered(&[("a", 1), ("b", 2)]);
    let old = key("b");
    assert_eq!(map.replace_key(&old, key("c")), Ok(()));
    assert_eq!(listed(&map), pairs(&[("a", 1), ("c", 2)]));
}

#[test]
fn ordered_overwrite_of_free_key_keeps_place() {
    let mut map = ordered(&[("a", 1), ("b", 2), ("c", 3)]);
    assert!(map.replace_key_overwrite("b", key("z")));
    assert_eq!(listed(&map), pairs(&[("a", 1), ("z", 2), ("c", 3)]));
    assert!(map.replace_key_overwrite("c", key("y")));
    assert_eq!(listed(&map), pairs(&[("a", 1), ("z", 2), ("y", 3)]));
}

#[test]
fn ordered_overwrite_drops_the_entry_that_held_the_new_key() {
    let mut map = ordered(&[("a", 1), ("b", 2), ("c", 3), ("d", 4)]);
    assert!(map.replace_key_overwrite("c", key("a")));
    assert_eq!(listed(&map), pairs(&[("b", 2), ("a", 3), ("d", 4)]));

    let mut map = ordered(&[("a", 1), ("b", 2), ("c", 3), ("d", 4)]);
    assert!(map.replace_key_overwrite("b", key("d")));
    assert_eq!(listed(&map), pairs(&[("a", 1), ("d", 2), ("c", 3)]));

    let mut map = ordered(&[("a", 1), ("b", 2)]);
    assert!(map.replace_key_overwrite("b", key("a")));
    assert_eq!(listed(&map), pairs(&[("a", 2)]));

    let mut map = ordered(&[("a", 1), ("b", 2)]);
    assert!(map.replace_key_overwrite("a", key("b")));
    assert_eq!(listed(&map), pairs(&[("b", 1)]));
}

#[test]
fn ordered_overwrite_of_absent_or_same_key_changes_nothing() {
    let mut map = ordered(&[("a", 1), ("b", 2)]);
    assert!(!map.replace_key_overwrite("x", key("a")));
    assert_eq!(listed(&map), pairs(&[("a", 1), ("b", 2)]));
    assert!(map.replace_key_overwrite("a", key("a")));
    assert_eq!(listed(&map), pairs(&[("a", 1), ("b", 2)]));
}

#[test]
fn refusals_have_their_words() {
    assert_eq!(
        ReplaceKeyErr::OldKeyNotExist.message(),
        "replace_key: the old key does not exist"
    );
    assert_eq!(
        ReplaceKeyErr::NewKeyOccupied.message(),
        "replace_key: the new key is already occupied"
    );
    assert_ne!(ReplaceKeyErr::OldKeyNotExist, ReplaceKeyErr::NewKeyOccupied);
}
