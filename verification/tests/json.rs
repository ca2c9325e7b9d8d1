use tags_rs::{add_tag, load, restore, rm_tag, save, TagStore};

fn word(s: &str) -> String {
    s.to_string()
}

fn words(items: &[&str]) -> Vec<String> {
    items.iter().map(|s| s.to_string()).collect()
}

fn sorted_entries(store: &TagStore) -> Vec<(String, Vec<String>)> {
    let mut entries = store.entries().clone();
    entries.sort();
    entries
}

#[test]
fn load_of_empty_contents_is_the_empty_store() {
    let store = load("");
    assert!(store.is_empty());
    assert_eq!(store.len(), 0);
}

#[test]
fn load_of_text_that_is_no_json_is_the_empty_store() {
    assert!(load("this is not json").is_empty());
    assert!(load("\u{0}\u{1}garbage").is_empty());
    assert!(load("   ").is_empty());
}

#[test]
fn load_of_truncated_text_is_the_empty_store() {
    assert!(load("{\"work\":[\"/tmp/a.txt\"").is_empty());
    assert!(load("{\"work\":[\"/tmp/a.txt\"]").is_empty());
    assert!(load("{\"wor").is_empty());
    assert!(load("{").is_empty());
}

#[test]
fn load_of_json_of_another_shape_is_the_empty_store() {
    assert!(load("[\"/tmp/a.txt\"]").is_empty());
    assert!(load("{\"work\":\"/tmp/a.txt\"}").is_empty());
    assert!(load("{\"work\":[1,2]}").is_empty());
    assert!(load("{\"work\":[\"/a\"],\"bad\":null}").is_empty());
    assert!(load("42").is_empty());
    assert!(load("null").is_empty());
}

#[test]
fn load_of_text_with_something_after_the_object_is_the_empty_store() {
    assert!(load("{\"work\":[\"/a\"]} trailing").is_empty());
    assert!(load("{\"work\":[\"/a\"]}{}").is_empty());
}

#[test]
fn load_reads_tags_and_paths() {
    let store = load("{\"work\":[\"/tmp/b.txt\",\"/tmp/a.txt\"],\"idle\":[]}");
    assert_eq!(store.len(), 2);
    assert_eq!(store.get(&word("work")), Some(&words(&["/tmp/b.txt", "/tmp/a.txt"])));
    assert_eq!(store.get(&word("idle")), Some(&Vec::<String>::new()));
    assert!(store.get(&word("other")).is_none());
}

#[test]
fn load_accepts_white_space_around_the_object() {
    let store = load(" \n{ \"work\" : [ \"/a\" ] }\n");
    assert_eq!(sorted_entries(&store), vec![(word("work"), words(&["/a"]))]);
}

#[test]
fn load_of_the_empty_object_is_the_empty_store() {
    assert!(load("{}").is_empty());
}

#[test]
fn load_keeps_a_path_that_is_written_twice() {
    let store = load("{\"x\":[\"/a\",\"/a\"]}");
    assert_eq!(store.get(&word("x")), Some(&words(&["/a", "/a"])));
}

#[test]
fn load_lets_the_last_of_a_repeated_key_count() {
    let store = load("{\"x\":[\"/a\"],\"x\":[\"/b\"]}");
    assert_eq!(store.len(), 1);
    assert_eq!(store.get(&word("x")), Some(&words(&["/b"])));
}

#[test]
fn load_reads_escapes() {
    let store = load("{\"a\\\"b\":[\"C:\\\\dir\\\\f\",\"tab\\there\",\"\\u00e9\"]}");
    assert_eq!(
        store.get(&word("a\"b")),
        Some(&words(&["C:\\dir\\f", "tab\there", "\u{e9}"]))
    );
}

#[test]
fn restore_of_a_failed_parse_is_the_empty_store() {
    assert!(restore(None).is_empty());
}

#[test]
fn restore_of_a_parse_holds_its_entries() {
    let store = restore(Some(vec![(word("x"), words(&["/a", "/b"])), (word("y"), words(&[]))]));
    assert_eq!(
        sorted_entries(&store),
        vec![(word("x"), words(&["/a", "/b"])), (word("y"), words(&[]))]
    );
}

#[test]
fn save_of_the_empty_store_is_the_empty_object() {
    assert_eq!(save(&TagStore::new()).unwrap(), "{}");
}

#[test]
fn save_writes_a_tag_as_a_key_with_its_paths() {
    let mut store = TagStore::new();
    add_tag(&mut store, &word("/tmp/b.txt"), &words(&["work"]));
    add_tag(&mut store, &word("/tmp/a.txt"), &words(&["work"]));
    assert_eq!(save(&store).unwrap(), "{\"work\":[\"/tmp/b.txt\",\"/tmp/a.txt\"]}");
}

#[test]
fn save_writes_an_emptied_tag() {
    let mut store = TagStore::new();
    add_tag(&mut store, &word("/a"), &words(&["x"]));
    rm_tag(&mut store, &word("/a"), &words(&["x"]));
    assert_eq!(save(&store).unwrap(), "{\"x\":[]}");
}

#[test]
fn save_escapes_what_json_escapes() {
    let mut store = TagStore::new();
    add_tag(&mut store, &word("C:\\dir\\\"f\"\n"), &words(&["q"]));
    assert_eq!(save(&store).unwrap(), "{\"q\":[\"C:\\\\dir\\\\\\\"f\\\"\\n\"]}");
}

#[test]
fn save_writes_a_json_object_of_string_arrays() {
    let mut store = TagStore::new();
    add_tag(&mut store, &word("/a"), &words(&["x", "y"]));
    add_tag(&mut store, &word("/b"), &words(&["y"]));
    let saved = save(&store).unwrap();
    let value: serde_json::Value = serde_json::from_str(&saved).unwrap();
    let object = value.as_object().unwrap();
    assert_eq!(object.len(), 2);
    let x: Vec<&str> = object["x"].as_array().unwrap().iter().map(|p| p.as_str().unwrap()).collect();
    let y: Vec<&str> = object["y"].as_array().unwrap().iter().map(|p| p.as_str().unwrap()).collect();
    assert_eq!(x, vec!["/a"]);
    assert_eq!(y, vec!["/a", "/b"]);
}

#[test]
fn saved_store_loads_as_the_same_store() {
    let mut store = TagStore::new();
    add_tag(&mut store, &word("/tmp/b.txt"), &words(&["work", "urgent"]));
    add_tag(&mut store, &word("/tmp/a.txt"), &words(&["work"]));
    add_tag(&mut store, &word("/tmp/c.txt"), &words(&["later"]));
    rm_tag(&mut store, &word("/tmp/c.txt"), &words(&["later"]));
    let again = load(&save(&store).unwrap());
    assert_eq!(again.len(), 3);
    assert_eq!(again.get(&word("work")), Some(&words(&["/tmp/b.txt", "/tmp/a.txt"])));
    assert_eq!(again.get(&word("urgent")), Some(&words(&["/tmp/b.txt"])));
    assert_eq!(again.get(&word("later")), Some(&Vec::<String>::new()));
    assert_eq!(sorted_entries(&again), sorted_entries(&store));
}

#[test]
fn saved_store_with_odd_text_loads_as_the_same_store() {
    let store = TagStore::from_entries(&vec![
        (word(""), words(&[""])),
        (word("quote\"back\\slash"), words(&["line\nbreak", "tab\t", "nul\u{0}", "\u{1f}\u{7f}"])),
        (word("caf\u{e9} \u{1f600}"), words(&["/\u{4e2d}\u{6587}/\u{1f4c1}", "{\"x\":[]}", "\u{2028}"])),
        (word(" spaced "), words(&["a", "a", "b", "a"])),
    ]);
    let again = load(&save(&store).unwrap());
    assert_eq!(sorted_entries(&again), sorted_entries(&store));
    assert_eq!(again.len(), 4);
}

#[test]
fn saved_empty_store_loads_as_the_empty_store() {
    assert!(load(&save(&TagStore::new()).unwrap()).is_empty());
}
