//! A recipe catalog over a key-value bucket: a verified JSON codec for the
//! recipe records and the ID index, the CRUD store that keeps the two in
//! step, and the router that maps requests onto the store.

use vstd::prelude::*;

pub mod json;
pub mod laws;
pub mod recipe;
pub mod router;
pub mod store;

pub use json::{Json, JsonList, JsonVal, MemberList};
pub use recipe::{Ingredient, IngredientV, Recipe, RecipeV, Step, StepV, decode, encode};
pub use router::{Method, Response, handle_request, segments};
pub use store::{
    Bucket, StoreError, add_id, create, delete, get_recipe, list_recipes, load_ids, remove_id,
    update,
};

verus! {

} // verus!
