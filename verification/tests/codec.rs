use recipe_api::{decode, encode, Ingredient, Recipe, Step};

fn sample(id: &str) -> Recipe {
    Recipe {
        id: id.to_string(),
        name: "Pancakes".to_string(),
        description: Some("Fluffy breakfast pancakes".to_string()),
        ingredients: vec![
            Ingredient {
                name: "flour".to_string(),
                amount: "2.5".to_string(),
                unit: "cups".to_string(),
                optional: false,
                notes: None,
            },
            Ingredient {
                name: "maple syrup".to_string(),
                amount: "1e-1".to_string(),
                unit: "l".to_string(),
                optional: true,
                notes: Some("to taste".to_string()),
            },
        ],
        instructions: vec![
            Step {
                order: 1,
                instruction: "Mix the dry ingredients".to_string(),
                duration_mins: Some(5),
            },
            Step {
                order: 2,
                instruction: "Fry until golden".to_string(),
                duration_mins: None,
            },
        ],
        servings: 4,
        prep_time_mins: 10,
        cook_time_mins: 15,
        difficulty: "easy".to_string(),
        tags: vec!["breakfast".to_string(), "sweet".to_string()],
        dietary_info: vec!["vegetarian".to_string()],
        created_at: 1700000000,
        updated_at: 1700000001,
    }
}

fn assert_same(a: &Recipe, b: &Recipe) {
    assert_eq!(a.id, b.id);
    assert_eq!(a.name, b.name);
    assert_eq!(a.description, b.description);
    assert_eq!(a.ingredients.len(), b.ingredients.len());
    for (x, y) in a.ingredients.iter().zip(b.ingredients.iter()) {
        assert_eq!(x.name, y.name);
        assert_eq!(x.amount, y.amount);
        assert_eq!(x.unit, y.unit);
        assert_eq!(x.optional, y.optional);
        assert_eq!(x.notes, y.notes);
    }
    assert_eq!(a.instructions.len(), b.instructions.len());
    for (x, y) in a.instructions.iter().zip(b.instructions.iter()) {
        assert_eq!(x.order, y.order);
        assert_eq!(x.instruction, y.instruction);
        assert_eq!(x.duration_mins, y.duration_mins);
    }
    assert_eq!(a.servings, b.servings);
    assert_eq!(a.prep_time_mins, b.prep_time_mins);
    assert_eq!(a.cook_time_mins, b.cook_time_mins);
    assert_eq!(a.difficulty, b.difficulty);
    assert_eq!(a.tags, b.tags);
    assert_eq!(a.dietary_info, b.dietary_info);
    assert_eq!(a.created_at, b.created_at);
    assert_eq!(a.updated_at, b.updated_at);
}

#[test]
fn round_trip_full_recipe() {
    let r = sample("r1");
    let text = encode(&r);
    let back = decode(&text).expect("canonical text must decode");
    assert_same(&r, &back);
}

#[test]
fn round_trip_special_characters() {
    let mut r = sample("r2");
    r.name = "say \"hi\"\\\n\tdone\u{1F600}".to_string();
    r.difficulty = "тяжело".to_string();
    let text = encode(&r);
    let back = decode(&text).expect("escaped text must decode");
    assert_same(&r, &back);
}

#[test]
fn encode_exact_minimal() {
    let r = Recipe {
        id: "a".to_string(),
        name: "b".to_string(),
        description: None,
        ingredients: vec![],
        instructions: vec![],
        servings: 0,
        prep_time_mins: 0,
        cook_time_mins: 0,
        difficulty: "".to_string(),
        tags: vec![],
        dietary_info: vec![],
        created_at: 0,
        updated_at: 0,
    };
    let text = encode(&r);
    let mut expected = String::new();
    expected.push_str("{\"id\":\"a\",\"name\":\"b\",\"description\":null,\"ingredients\":[],");
    expected.push_str("\"instructions\":[],\"servings\":0,\"prep_time_mins\":0,\"cook_time_mins\":0,");
    expected.push_str("\"difficulty\":\"\",\"tags\":[],\"dietary_info\":[],\"created_at\":0,\"updated_at\":0}");
    assert_eq!(text, expected);
}

#[test]
fn decode_accepts_whitespace_and_reordering() {
    let text = " {\n  \"name\" : \"b\",\n  \"unknown\": [1, {\"x\": null}],\n  \"id\": \"a\",\
                \"ingredients\": [], \"instructions\": [], \"servings\": 2,\
                \"prep_time_mins\": 1, \"cook_time_mins\": 3, \"difficulty\": \"ok\",\
                \"tags\": [], \"dietary_info\": [], \"created_at\": 9, \"updated_at\": 10 }\n";
    let r = decode(text).expect("reordered object must decode");
    assert_eq!(r.id, "a");
    assert_eq!(r.name, "b");
    assert_eq!(r.description, None);
    assert_eq!(r.servings, 2);
    assert_eq!(r.created_at, 9);
    assert_eq!(r.updated_at, 10);
}

#[test]
fn decode_null_description_is_none() {
    let text = "{\"id\":\"a\",\"name\":\"b\",\"description\":null,\"ingredients\":[],\
                \"instructions\":[],\"servings\":1,\"prep_time_mins\":0,\"cook_time_mins\":0,\
                \"difficulty\":\"\",\"tags\":[],\"dietary_info\":[],\"created_at\":1,\"updated_at\":1}";
    let r = decode(text).expect("null description decodes");
    assert_eq!(r.description, None);
}

#[test]
fn decode_rejects_malformed() {
    assert!(decode("").is_none());
    assert!(decode("{").is_none());
    assert!(decode("not json").is_none());
    assert!(decode("[]").is_none());
    assert!(decode("{\"id\":\"a\"}").is_none(), "missing required fields");
    assert!(decode("{\"id\":1}").is_none(), "wrong field type");
    let good = encode(&sample("x"));
    let trailing = format!("{} extra", good);
    assert!(decode(&trailing).is_none(), "trailing garbage");
    assert!(decode("{\"id\":\"a\",}").is_none(), "trailing comma");
}

#[test]
fn decode_rejects_bad_numbers() {
    let text = "{\"id\":\"a\",\"name\":\"b\",\"ingredients\":[],\"instructions\":[],\
                \"servings\":01,\"prep_time_mins\":0,\"cook_time_mins\":0,\"difficulty\":\"\",\
                \"tags\":[],\"dietary_info\":[],\"created_at\":1,\"updated_at\":1}";
    assert!(decode(text).is_none(), "leading zero is not a JSON number");
    let text2 = text.replace("01", "-1");
    assert!(decode(&text2).is_none(), "negative for unsigned field");
    let text3 = text.replace("01", "2.5");
    assert!(decode(&text3).is_none(), "fraction for integer field");
    let text4 = text.replace("01", "300");
    assert!(decode(&text4).is_none(), "servings above the u8 range");
    let text5 = text.replace("01", "1").replace(
        "\"created_at\":1",
        "\"created_at\":99999999999999999999",
    );
    assert!(decode(&text5).is_none(), "timestamp above the u64 range");
}

#[test]
fn decode_unicode_escapes() {
    let text = "{\"id\":\"a\\u0041\\n\",\"name\":\"\\u00e9\",\"ingredients\":[],\
                \"instructions\":[],\"servings\":1,\"prep_time_mins\":0,\"cook_time_mins\":0,\
                \"difficulty\":\"\",\"tags\":[],\"dietary_info\":[],\"created_at\":1,\"updated_at\":1}";
    let r = decode(text).expect("unicode escapes decode");
    assert_eq!(r.id, "aA\n");
    assert_eq!(r.name, "é");
}

#[test]
fn serde_json_reads_our_encoding() {
    let r = sample("interop-1");
    let text = encode(&r);
    let v: serde_json::Value = serde_json::from_str(&text).expect("output must be valid JSON");
    assert_eq!(v["id"].as_str(), Some("interop-1"));
    assert_eq!(v["name"].as_str(), Some("Pancakes"));
    assert_eq!(v["servings"].as_u64(), Some(4));
    assert_eq!(v["ingredients"].as_array().map(|a| a.len()), Some(2));
    assert_eq!(v["ingredients"][0]["amount"].as_f64(), Some(2.5));
    assert_eq!(v["instructions"][1]["duration_mins"], serde_json::Value::Null);
    assert_eq!(v["tags"][1].as_str(), Some("sweet"));
    assert_eq!(v["created_at"].as_u64(), Some(1700000000));
}

#[test]
fn decode_reads_serde_json_output() {
    let r = sample("via-serde");
    let text = encode(&r);
    let v: serde_json::Value = serde_json::from_str(&text).unwrap();
    let re_encoded = serde_json::to_string(&v).unwrap();
    let back = decode(&re_encoded).expect("serde_json's serialization must decode");
    assert_eq!(back.id, "via-serde");
    assert_eq!(back.ingredients[0].amount, "2.5");
    assert_eq!(back.instructions[0].duration_mins, Some(5));
}
