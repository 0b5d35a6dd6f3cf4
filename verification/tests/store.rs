use recipe_api::{
    create, decode, delete, encode, get_recipe, list_recipes, load_ids, update, Bucket,
    Ingredient, Recipe,
};

fn payload(id: &str, name: &str) -> Recipe {
    Recipe {
        id: id.to_string(),
        name: name.to_string(),
        description: None,
        ingredients: vec![Ingredient {
            name: "salt".to_string(),
            amount: "1".to_string(),
            unit: "tsp".to_string(),
            optional: false,
            notes: None,
        }],
        instructions: vec![],
        servings: 2,
        prep_time_mins: 5,
        cook_time_mins: 6,
        difficulty: "easy".to_string(),
        tags: vec![],
        dietary_info: vec![],
        created_at: 111,
        updated_at: 222,
    }
}

#[test]
fn create_then_get() {
    let mut b = Bucket::new();
    let id = create(&mut b, payload("r1", "one"), 1700000000);
    assert_eq!(id, "r1");
    let got = get_recipe(&b, &id).unwrap().expect("created recipe must be retrievable");
    assert_eq!(got.id, "r1");
    assert_eq!(got.created_at, 1700000000);
    assert_eq!(got.updated_at, 1700000000);
    assert!(got.created_at != 0 && got.created_at == got.updated_at);
}

#[test]
fn create_synthesizes_id_when_empty() {
    let mut b = Bucket::new();
    let id = create(&mut b, payload("", "anon"), 1234567890);
    assert_eq!(id, "recipe_1234567890");
    assert!(get_recipe(&b, &id).unwrap().is_some());
}

#[test]
fn create_overrides_client_timestamps() {
    let mut b = Bucket::new();
    let id = create(&mut b, payload("t", "stamps"), 42);
    let got = get_recipe(&b, &id).unwrap().unwrap();
    assert_eq!(got.created_at, 42);
    assert_eq!(got.updated_at, 42);
}

#[test]
fn list_contains_each_created_id_once() {
    let mut b = Bucket::new();
    create(&mut b, payload("a", "one"), 1);
    create(&mut b, payload("b", "two"), 2);
    let listed = list_recipes(&b);
    let ids: Vec<String> = listed.iter().map(|r| r.id.clone()).collect();
    assert_eq!(ids, vec!["a".to_string(), "b".to_string()]);
    assert_eq!(ids.iter().filter(|i| i.as_str() == "a").count(), 1);
    assert_eq!(ids.iter().filter(|i| i.as_str() == "b").count(), 1);
}

#[test]
fn create_same_id_twice_keeps_one_index_entry() {
    let mut b = Bucket::new();
    create(&mut b, payload("dup", "first"), 1);
    create(&mut b, payload("dup", "second"), 2);
    let ids = load_ids(&b);
    assert_eq!(ids, vec!["dup".to_string()]);
    let got = get_recipe(&b, "dup").unwrap().unwrap();
    assert_eq!(got.name, "second");
}

#[test]
fn delete_removes_record_and_index_entry() {
    let mut b = Bucket::new();
    create(&mut b, payload("gone", "x"), 1);
    create(&mut b, payload("kept", "y"), 2);
    delete(&mut b, "gone");
    assert!(get_recipe(&b, "gone").unwrap().is_none());
    let ids = load_ids(&b);
    assert!(!ids.iter().any(|i| i == "gone"));
    assert!(ids.iter().any(|i| i == "kept"));
}

#[test]
fn delete_missing_id_is_a_successful_noop() {
    let mut b = Bucket::new();
    create(&mut b, payload("stay", "x"), 1);
    delete(&mut b, "never-existed");
    assert!(get_recipe(&b, "never-existed").unwrap().is_none());
    assert_eq!(load_ids(&b), vec!["stay".to_string()]);
    assert!(get_recipe(&b, "stay").unwrap().is_some());
}

#[test]
fn delete_on_empty_bucket_succeeds() {
    let mut b = Bucket::new();
    delete(&mut b, "nothing");
    assert!(get_recipe(&b, "nothing").unwrap().is_none());
    assert!(list_recipes(&b).is_empty());
}

#[test]
fn update_preserves_path_id() {
    let mut b = Bucket::new();
    create(&mut b, payload("orig", "x"), 1);
    update(&mut b, "orig", payload("some-other-id", "renamed"));
    let got = get_recipe(&b, "orig").unwrap().unwrap();
    assert_eq!(got.id, "orig");
    assert_eq!(got.name, "renamed");
}

#[test]
fn update_stores_client_timestamps_verbatim() {
    let mut b = Bucket::new();
    create(&mut b, payload("ts", "x"), 7);
    update(&mut b, "ts", payload("ts", "x"));
    let got = get_recipe(&b, "ts").unwrap().unwrap();
    assert_eq!(got.created_at, 111);
    assert_eq!(got.updated_at, 222);
}

#[test]
fn update_missing_id_creates_orphan_record() {
    let mut b = Bucket::new();
    update(&mut b, "orphan", payload("whatever", "o"));
    let got = get_recipe(&b, "orphan").unwrap().expect("record exists under the key");
    assert_eq!(got.id, "orphan");
    assert!(list_recipes(&b).is_empty(), "no index entry was made");
}

#[test]
fn persisted_layout_is_stable() {
    let mut b = Bucket::new();
    let id = create(&mut b, payload("k1", "layout"), 99);
    let blob = b.get("recipe:k1").expect("record under recipe:<id>");
    let stored = decode(&blob).unwrap();
    assert_eq!(stored.id, "k1");
    let idx = b.get("_recipe_ids").expect("index under _recipe_ids");
    assert_eq!(idx, "[\"k1\"]");
    assert_eq!(id, "k1");
}

#[test]
fn get_of_corrupt_record_is_an_error() {
    let mut b = Bucket::new();
    b.set("recipe:bad", "{not json".to_string());
    assert!(get_recipe(&b, "bad").is_err());
}

#[test]
fn list_skips_corrupt_and_missing_records() {
    let mut b = Bucket::new();
    create(&mut b, payload("ok", "fine"), 1);
    // corrupt one record and leave one dangling index entry
    b.set("recipe:broken", "garbage".to_string());
    recipe_api::add_id(&mut b, "broken");
    recipe_api::add_id(&mut b, "missing");
    let listed = list_recipes(&b);
    assert_eq!(listed.len(), 1);
    assert_eq!(listed[0].id, "ok");
}

#[test]
fn corrupt_index_reads_as_empty() {
    let mut b = Bucket::new();
    b.set("_recipe_ids", "not an array".to_string());
    assert!(load_ids(&b).is_empty());
    assert!(list_recipes(&b).is_empty());
    b.set("_recipe_ids", "[1,2]".to_string());
    assert!(load_ids(&b).is_empty(), "an array of non-strings fails open to empty");
}

#[test]
fn encode_decode_agree_with_store_blob() {
    let mut b = Bucket::new();
    create(&mut b, payload("blob", "x"), 5);
    let stored = b.get("recipe:blob").unwrap();
    let mut expect = payload("blob", "x");
    expect.created_at = 5;
    expect.updated_at = 5;
    assert_eq!(stored, encode(&expect));
}
