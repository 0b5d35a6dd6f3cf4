use recipe_api::{encode, handle_request, Bucket, Ingredient, Method, Recipe};

fn body_for(id: &str, name: &str) -> String {
    let r = Recipe {
        id: id.to_string(),
        name: name.to_string(),
        description: Some("d".to_string()),
        ingredients: vec![Ingredient {
            name: "water".to_string(),
            amount: "0.5".to_string(),
            unit: "l".to_string(),
            optional: false,
            notes: None,
        }],
        instructions: vec![],
        servings: 1,
        prep_time_mins: 2,
        cook_time_mins: 3,
        difficulty: "easy".to_string(),
        tags: vec!["t".to_string()],
        dietary_info: vec![],
        created_at: 0,
        updated_at: 0,
    };
    encode(&r)
}

#[test]
fn health_endpoint() {
    let mut b = Bucket::new();
    let r = handle_request(&mut b, Method::Get, "/health", None, 1);
    assert_eq!(r.status, 200);
    assert!(r.json);
    assert_eq!(r.body, "{\"status\":\"healthy\"}");
}

#[test]
fn unknown_route_is_404() {
    let mut b = Bucket::new();
    let r = handle_request(&mut b, Method::Get, "/nope", None, 1);
    assert_eq!(r.status, 404);
    assert_eq!(r.body, "Not Found");
    let r2 = handle_request(&mut b, Method::Post, "/api/other", Some("{}"), 1);
    assert_eq!(r2.status, 404);
}

#[test]
fn unhandled_method_is_405() {
    let mut b = Bucket::new();
    let r = handle_request(&mut b, Method::Other, "/api/recipes/1", None, 1);
    assert_eq!(r.status, 405);
    assert_eq!(r.body, "Method Not Allowed");
    assert!(!r.json);
}

#[test]
fn crud_through_the_router() {
    let mut b = Bucket::new();
    // create
    let body = body_for("c1", "first");
    let r = handle_request(&mut b, Method::Post, "/api/recipes", Some(&body), 1700000000);
    assert_eq!(r.status, 201);
    assert!(r.json);
    assert_eq!(r.body, "{\"id\":\"c1\"}");
    // fetch
    let r = handle_request(&mut b, Method::Get, "/api/recipes/c1", None, 1);
    assert_eq!(r.status, 200);
    assert!(r.json);
    assert!(r.body.contains("\"id\":\"c1\""));
    assert!(r.body.contains("\"created_at\":1700000000"));
    // list
    let r = handle_request(&mut b, Method::Get, "/api/recipes", None, 1);
    assert_eq!(r.status, 200);
    assert!(r.body.starts_with("[") && r.body.ends_with("]"));
    assert!(r.body.contains("\"id\":\"c1\""));
    // update
    let body2 = body_for("ignored", "renamed");
    let r = handle_request(&mut b, Method::Put, "/api/recipes/c1", Some(&body2), 2);
    assert_eq!(r.status, 200);
    assert_eq!(r.body, "{\"status\":\"updated\"}");
    let r = handle_request(&mut b, Method::Get, "/api/recipes/c1", None, 1);
    assert!(r.body.contains("\"name\":\"renamed\""));
    assert!(r.body.contains("\"id\":\"c1\""));
    // delete
    let r = handle_request(&mut b, Method::Delete, "/api/recipes/c1", None, 1);
    assert_eq!(r.status, 200);
    assert_eq!(r.body, "{\"status\":\"deleted\"}");
    let r = handle_request(&mut b, Method::Get, "/api/recipes/c1", None, 1);
    assert_eq!(r.status, 404);
    assert_eq!(r.body, "Recipe not found");
}

#[test]
fn get_missing_recipe_is_404() {
    let mut b = Bucket::new();
    let r = handle_request(&mut b, Method::Get, "/api/recipes/absent", None, 1);
    assert_eq!(r.status, 404);
    assert_eq!(r.body, "Recipe not found");
    assert!(!r.json);
}

#[test]
fn malformed_body_is_400_and_state_unchanged() {
    let mut b = Bucket::new();
    let body = body_for("keep", "kept");
    handle_request(&mut b, Method::Post, "/api/recipes", Some(&body), 1);
    let before = handle_request(&mut b, Method::Get, "/api/recipes", None, 1).body;

    let r = handle_request(&mut b, Method::Post, "/api/recipes", Some("{oops"), 2);
    assert_eq!(r.status, 400);
    assert_eq!(r.body, "Invalid JSON");
    let r = handle_request(&mut b, Method::Put, "/api/recipes/keep", Some("not json"), 2);
    assert_eq!(r.status, 400);
    assert_eq!(r.body, "Invalid JSON");
    let r = handle_request(&mut b, Method::Post, "/api/recipes", None, 2);
    assert_eq!(r.status, 400);
    assert_eq!(r.body, "Failed to read body");

    let after = handle_request(&mut b, Method::Get, "/api/recipes", None, 1).body;
    assert_eq!(before, after, "failed writes must leave the store unchanged");
}

#[test]
fn query_string_is_discarded() {
    let mut b = Bucket::new();
    let body = body_for("q1", "queried");
    handle_request(&mut b, Method::Post, "/api/recipes", Some(&body), 1);
    let r = handle_request(&mut b, Method::Get, "/api/recipes?limit=10&x=y", None, 1);
    assert_eq!(r.status, 200);
    assert!(r.body.contains("\"id\":\"q1\""));
    let r = handle_request(&mut b, Method::Get, "/api/recipes/q1?verbose=1", None, 1);
    assert_eq!(r.status, 200);
}

#[test]
fn empty_id_create_through_router() {
    let mut b = Bucket::new();
    let body = body_for("", "anon");
    let r = handle_request(&mut b, Method::Post, "/api/recipes", Some(&body), 777);
    assert_eq!(r.status, 201);
    assert_eq!(r.body, "{\"id\":\"recipe_777\"}");
    let r = handle_request(&mut b, Method::Get, "/api/recipes/recipe_777", None, 1);
    assert_eq!(r.status, 200);
}

#[test]
fn delete_is_idempotent_through_router() {
    let mut b = Bucket::new();
    let r = handle_request(&mut b, Method::Delete, "/api/recipes/ghost", None, 1);
    assert_eq!(r.status, 200);
    assert_eq!(r.body, "{\"status\":\"deleted\"}");
}

#[test]
fn corrupt_record_is_500_through_router() {
    let mut b = Bucket::new();
    b.set("recipe:bad", "###".to_string());
    let r = handle_request(&mut b, Method::Get, "/api/recipes/bad", None, 1);
    assert_eq!(r.status, 500);
    assert_eq!(r.body, "Internal Server Error");
}
