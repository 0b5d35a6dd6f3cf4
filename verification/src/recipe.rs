//! The recipe record and its codec: a recipe is stored as one JSON object,
//! encoded canonically and decoded from any well-formed JSON document.
//!
//! An ingredient amount is a JSON number; it is carried as its literal
//! decimal text, which keeps the stored bytes exact.

use vstd::prelude::*;
use crate::json::{
    Json, JsonList, JsonVal, MemberList, chars_to_string, dec_tok, digit_char, jmodel,
    json_to_chars, lmodel, mmodel, num_token_ok, ser, all_digits, digits_val, digit_val, parse_json,
};

verus! {

/// One ingredient line of a recipe.
pub struct Ingredient {
    pub name: String,
    /// Decimal text of a JSON number.
    pub amount: String,
    pub unit: String,
    pub optional: bool,
    pub notes: Option<String>,
}

/// Mathematical model of an ingredient.
pub struct IngredientV {
    pub name: Seq<char>,
    pub amount: Seq<char>,
    pub unit: Seq<char>,
    pub optional: bool,
    pub notes: Option<Seq<char>>,
}

/// One instruction step of a recipe.
pub struct Step {
    pub order: u8,
    pub instruction: String,
    pub duration_mins: Option<u32>,
}

/// Mathematical model of a step.
pub struct StepV {
    pub order: u8,
    pub instruction: Seq<char>,
    pub duration_mins: Option<u32>,
}

/// The persisted recipe entity.
pub struct Recipe {
    pub id: String,
    pub name: String,
    pub description: Option<String>,
    pub ingredients: Vec<Ingredient>,
    pub instructions: Vec<Step>,
    pub servings: u8,
    pub prep_time_mins: u32,
    pub cook_time_mins: u32,
    pub difficulty: String,
    pub tags: Vec<String>,
    pub dietary_info: Vec<String>,
    pub created_at: u64,
    pub updated_at: u64,
}

/// Mathematical model of a recipe.
pub struct RecipeV {
    pub id: Seq<char>,
    pub name: Seq<char>,
    pub description: Option<Seq<char>>,
    pub ingredients: Seq<IngredientV>,
    pub instructions: Seq<StepV>,
    pub servings: u8,
    pub prep_time_mins: u32,
    pub cook_time_mins: u32,
    pub difficulty: Seq<char>,
    pub tags: Seq<Seq<char>>,
    pub dietary_info: Seq<Seq<char>>,
    pub created_at: u64,
    pub updated_at: u64,
}

pub open spec fn opt_view(o: Option<String>) -> Option<Seq<char>> {
    match o {
        Some(s) => Some(s@),
        None => None,
    }
}

impl View for Ingredient {
    type V = IngredientV;

    open spec fn view(&self) -> IngredientV {
        IngredientV {
            name: self.name@,
            amount: self.amount@,
            unit: self.unit@,
            optional: self.optional,
            notes: opt_view(self.notes),
        }
    }
}

impl View for Step {
    type V = StepV;

    open spec fn view(&self) -> StepV {
        StepV {
            order: self.order,
            instruction: self.instruction@,
            duration_mins: self.duration_mins,
        }
    }
}

impl View for Recipe {
    type V = RecipeV;

    open spec fn view(&self) -> RecipeV {
        RecipeV {
            id: self.id@,
            name: self.name@,
            description: opt_view(self.description),
            ingredients: Seq::new(self.ingredients@.len(), |i: int| self.ingredients@[i]@),
            instructions: Seq::new(self.instructions@.len(), |i: int| self.instructions@[i]@),
            servings: self.servings,
            prep_time_mins: self.prep_time_mins,
            cook_time_mins: self.cook_time_mins,
            difficulty: self.difficulty@,
            tags: Seq::new(self.tags@.len(), |i: int| self.tags@[i]@),
            dietary_info: Seq::new(self.dietary_info@.len(), |i: int| self.dietary_info@[i]@),
            created_at: self.created_at,
            updated_at: self.updated_at,
        }
    }
}

/// A recipe is well-formed when every ingredient amount is a well-formed
/// JSON number token.
pub open spec fn wf_recipe(r: RecipeV) -> bool {
    forall|i: int|
        0 <= i < r.ingredients.len() ==> num_token_ok(#[trigger] r.ingredients[i].amount)
}

// ---------------------------------------------------------------------------
// The JSON shape of a recipe
// ---------------------------------------------------------------------------

pub open spec fn k_id() -> Seq<char> { seq!['i', 'd'] }
pub open spec fn k_name() -> Seq<char> { seq!['n', 'a', 'm', 'e'] }
pub open spec fn k_description() -> Seq<char> {
    seq!['d', 'e', 's', 'c', 'r', 'i', 'p', 't', 'i', 'o', 'n']
}
pub open spec fn k_ingredients() -> Seq<char> {
    seq!['i', 'n', 'g', 'r', 'e', 'd', 'i', 'e', 'n', 't', 's']
}
pub open spec fn k_instructions() -> Seq<char> {
    seq!['i', 'n', 's', 't', 'r', 'u', 'c', 't', 'i', 'o', 'n', 's']
}
pub open spec fn k_servings() -> Seq<char> { seq!['s', 'e', 'r', 'v', 'i', 'n', 'g', 's'] }
pub open spec fn k_prep() -> Seq<char> {
    seq!['p', 'r', 'e', 'p', '_', 't', 'i', 'm', 'e', '_', 'm', 'i', 'n', 's']
}
pub open spec fn k_cook() -> Seq<char> {
    seq!['c', 'o', 'o', 'k', '_', 't', 'i', 'm', 'e', '_', 'm', 'i', 'n', 's']
}
pub open spec fn k_difficulty() -> Seq<char> {
    seq!['d', 'i', 'f', 'f', 'i', 'c', 'u', 'l', 't', 'y']
}
pub open spec fn k_tags() -> Seq<char> { seq!['t', 'a', 'g', 's'] }
pub open spec fn k_dietary() -> Seq<char> {
    seq!['d', 'i', 'e', 't', 'a', 'r', 'y', '_', 'i', 'n', 'f', 'o']
}
pub open spec fn k_created() -> Seq<char> {
    seq!['c', 'r', 'e', 'a', 't', 'e', 'd', '_', 'a', 't']
}
pub open spec fn k_updated() -> Seq<char> {
    seq!['u', 'p', 'd', 'a', 't', 'e', 'd', '_', 'a', 't']
}
pub open spec fn k_amount() -> Seq<char> { seq!['a', 'm', 'o', 'u', 'n', 't'] }
pub open spec fn k_unit() -> Seq<char> { seq!['u', 'n', 'i', 't'] }
pub open spec fn k_optional() -> Seq<char> { seq!['o', 'p', 't', 'i', 'o', 'n', 'a', 'l'] }
pub open spec fn k_notes() -> Seq<char> { seq!['n', 'o', 't', 'e', 's'] }
pub open spec fn k_order() -> Seq<char> { seq!['o', 'r', 'd', 'e', 'r'] }
pub open spec fn k_instruction() -> Seq<char> {
    seq!['i', 'n', 's', 't', 'r', 'u', 'c', 't', 'i', 'o', 'n']
}
pub open spec fn k_duration() -> Seq<char> {
    seq!['d', 'u', 'r', 'a', 't', 'i', 'o', 'n', '_', 'm', 'i', 'n', 's']
}

pub open spec fn opt_str_jv(o: Option<Seq<char>>) -> JsonVal {
    match o {
        None => JsonVal::Null,
        Some(s) => JsonVal::Str(s),
    }
}

pub open spec fn opt_u32_jv(o: Option<u32>) -> JsonVal {
    match o {
        None => JsonVal::Null,
        Some(n) => JsonVal::Num(dec_tok(n as nat)),
    }
}

/// The JSON object of one ingredient.
pub open spec fn ing_jv(i: IngredientV) -> JsonVal {
    JsonVal::Obj(
        seq![
            (k_name(), JsonVal::Str(i.name)),
            (k_amount(), JsonVal::Num(i.amount)),
            (k_unit(), JsonVal::Str(i.unit)),
            (k_optional(), JsonVal::Bool(i.optional)),
            (k_notes(), opt_str_jv(i.notes)),
        ],
    )
}

/// The JSON object of one step.
pub open spec fn step_jv(st: StepV) -> JsonVal {
    JsonVal::Obj(
        seq![
            (k_order(), JsonVal::Num(dec_tok(st.order as nat))),
            (k_instruction(), JsonVal::Str(st.instruction)),
            (k_duration(), opt_u32_jv(st.duration_mins)),
        ],
    )
}

pub open spec fn strs_jv(ss: Seq<Seq<char>>) -> Seq<JsonVal> {
    ss.map_values(|s: Seq<char>| JsonVal::Str(s))
}

pub open spec fn ings_jv(s: Seq<IngredientV>) -> Seq<JsonVal> {
    s.map_values(|i: IngredientV| ing_jv(i))
}

pub open spec fn steps_jv(s: Seq<StepV>) -> Seq<JsonVal> {
    s.map_values(|st: StepV| step_jv(st))
}

/// The JSON object of a whole recipe, members in a fixed order.
pub open spec fn recipe_jv(r: RecipeV) -> JsonVal {
    JsonVal::Obj(
        seq![
            (k_id(), JsonVal::Str(r.id)),
            (k_name(), JsonVal::Str(r.name)),
            (k_description(), opt_str_jv(r.description)),
            (k_ingredients(), JsonVal::Arr(ings_jv(r.ingredients))),
            (k_instructions(), JsonVal::Arr(steps_jv(r.instructions))),
            (k_servings(), JsonVal::Num(dec_tok(r.servings as nat))),
            (k_prep(), JsonVal::Num(dec_tok(r.prep_time_mins as nat))),
            (k_cook(), JsonVal::Num(dec_tok(r.cook_time_mins as nat))),
            (k_difficulty(), JsonVal::Str(r.difficulty)),
            (k_tags(), JsonVal::Arr(strs_jv(r.tags))),
            (k_dietary(), JsonVal::Arr(strs_jv(r.dietary_info))),
            (k_created(), JsonVal::Num(dec_tok(r.created_at as nat))),
            (k_updated(), JsonVal::Num(dec_tok(r.updated_at as nat))),
        ],
    )
}

/// Canonical encoding of a recipe: the serialization of its JSON object.
pub open spec fn spec_encode(r: RecipeV) -> Seq<char> {
    ser(recipe_jv(r))
}

// ---------------------------------------------------------------------------
// Executable encoder
// ---------------------------------------------------------------------------

fn digit_char_x(v: u64) -> (r: char)
    requires
        v < 10,
    ensures
        r == digit_char(v as nat),
{
    if v == 0 { '0' }
    else if v == 1 { '1' }
    else if v == 2 { '2' }
    else if v == 3 { '3' }
    else if v == 4 { '4' }
    else if v == 5 { '5' }
    else if v == 6 { '6' }
    else if v == 7 { '7' }
    else if v == 8 { '8' }
    else { '9' }
}

/// Render an unsigned integer as its decimal text.
pub fn u64_dec(n: u64) -> (s: String)
    ensures
        s@ == dec_tok(n as nat),
{
    let mut acc: Vec<char> = Vec::new();
    let mut m = n;
    assert(dec_tok(n as nat) =~= dec_tok(n as nat) + acc@);
    while m >= 10
        invariant
            dec_tok(n as nat) == dec_tok(m as nat) + acc@,
        decreases m,
    {
        let ghost acc0 = acc@;
        let c = digit_char_x(m % 10);
        acc.insert(0, c);
        proof {
            assert(dec_tok(m as nat) == dec_tok((m as nat) / 10).push(digit_char((m as nat) % 10)));
            assert((m as nat) / 10 == (m / 10) as nat);
            assert((m as nat) % 10 == (m % 10) as nat);
            assert(acc@ =~= seq![c] + acc0);
            assert(dec_tok((m / 10) as nat).push(c) + acc0 =~= dec_tok((m / 10) as nat) + acc@);
        }
        m = m / 10;
    }
    let ghost accf = acc@;
    let c = digit_char_x(m);
    acc.insert(0, c);
    proof {
        assert(dec_tok(m as nat) == seq![digit_char(m as nat)]);
        assert(dec_tok(m as nat) + accf =~= acc@);
    }
    let out = chars_to_string(acc);
    out
}

fn str_json(s: &String) -> (j: Json)
    ensures
        jmodel(j) == JsonVal::Str(s@),
{
    Json::Str(s.clone())
}

fn opt_str_json(o: &Option<String>) -> (j: Json)
    ensures
        jmodel(j) == opt_str_jv(opt_view(*o)),
{
    match o {
        None => Json::Null,
        Some(s) => Json::Str(s.clone()),
    }
}

fn u64_json(n: u64) -> (j: Json)
    ensures
        jmodel(j) == JsonVal::Num(dec_tok(n as nat)),
{
    Json::Num(u64_dec(n))
}

fn opt_u32_json(o: &Option<u32>) -> (j: Json)
    ensures
        jmodel(j) == opt_u32_jv(*o),
{
    match o {
        None => Json::Null,
        Some(n) => Json::Num(u64_dec(*n as u64)),
    }
}

fn key_string(k: &str) -> (s: String)
    ensures
        s@ == k@,
{
    String::from_str(k)
}

/// The JSON object of one ingredient.
fn ing_json(i: &Ingredient) -> (j: Json)
    ensures
        jmodel(j) == ing_jv(i@),
{
    let k1 = key_string("name");
    let k2 = key_string("amount");
    let k3 = key_string("unit");
    let k4 = key_string("optional");
    let k5 = key_string("notes");
    proof {
        reveal_strlit("name");
        reveal_strlit("amount");
        reveal_strlit("unit");
        reveal_strlit("optional");
        reveal_strlit("notes");
        assert(k1@ =~= k_name());
        assert(k2@ =~= k_amount());
        assert(k3@ =~= k_unit());
        assert(k4@ =~= k_optional());
        assert(k5@ =~= k_notes());
    }
    let v5 = opt_str_json(&i.notes);
    let ghost g5 = jmodel(v5);
    let m5 = MemberList::Cons(k5, Box::new(v5), Box::new(MemberList::Nil));
    let v4 = Json::Bool(i.optional);
    let ghost g4 = jmodel(v4);
    let m4 = MemberList::Cons(k4, Box::new(v4), Box::new(m5));
    let v3 = str_json(&i.unit);
    let ghost g3 = jmodel(v3);
    let m3 = MemberList::Cons(k3, Box::new(v3), Box::new(m4));
    let v2 = Json::Num(i.amount.clone());
    let ghost g2 = jmodel(v2);
    let m2 = MemberList::Cons(k2, Box::new(v2), Box::new(m3));
    let v1 = str_json(&i.name);
    let ghost g1 = jmodel(v1);
    let m1 = MemberList::Cons(k1, Box::new(v1), Box::new(m2));
    let j = Json::Obj(m1);
    proof {
        assert(mmodel(MemberList::Nil) =~= Seq::<(Seq<char>, JsonVal)>::empty());
        assert(mmodel(m5) =~= seq![(k_notes(), opt_str_jv(opt_view(i.notes)))]);
        assert(mmodel(m4) =~= seq![(k_optional(), JsonVal::Bool(i.optional)), (k_notes(), opt_str_jv(opt_view(i.notes)))]);
        assert(mmodel(m3) =~= seq![(k_unit(), JsonVal::Str(i.unit@)), (k_optional(), JsonVal::Bool(i.optional)), (k_notes(), opt_str_jv(opt_view(i.notes)))]);
        assert(mmodel(m2) =~= seq![(k_amount(), JsonVal::Num(i.amount@)), (k_unit(), JsonVal::Str(i.unit@)), (k_optional(), JsonVal::Bool(i.optional)), (k_notes(), opt_str_jv(opt_view(i.notes)))]);
        assert(mmodel(m1) =~= seq![(k_name(), JsonVal::Str(i.name@)), (k_amount(), JsonVal::Num(i.amount@)), (k_unit(), JsonVal::Str(i.unit@)), (k_optional(), JsonVal::Bool(i.optional)), (k_notes(), opt_str_jv(opt_view(i.notes)))]);
    }
    j
}

/// The JSON object of one step.
fn step_json(st: &Step) -> (j: Json)
    ensures
        jmodel(j) == step_jv(st@),
{
    let k1 = key_string("order");
    let k2 = key_string("instruction");
    let k3 = key_string("duration_mins");
    proof {
        reveal_strlit("order");
        reveal_strlit("instruction");
        reveal_strlit("duration_mins");
        assert(k1@ =~= k_order());
        assert(k2@ =~= k_instruction());
        assert(k3@ =~= k_duration());
    }
    let v3 = opt_u32_json(&st.duration_mins);
    let m3 = MemberList::Cons(k3, Box::new(v3), Box::new(MemberList::Nil));
    let v2 = str_json(&st.instruction);
    let m2 = MemberList::Cons(k2, Box::new(v2), Box::new(m3));
    let v1 = u64_json(st.order as u64);
    let m1 = MemberList::Cons(k1, Box::new(v1), Box::new(m2));
    let j = Json::Obj(m1);
    proof {
        assert(mmodel(MemberList::Nil) =~= Seq::<(Seq<char>, JsonVal)>::empty());
        assert(mmodel(m3) =~= seq![(k_duration(), opt_u32_jv(st.duration_mins))]);
        assert(mmodel(m2) =~= seq![(k_instruction(), JsonVal::Str(st.instruction@)), (k_duration(), opt_u32_jv(st.duration_mins))]);
        assert(mmodel(m1) =~= seq![(k_order(), JsonVal::Num(dec_tok(st.order as nat))), (k_instruction(), JsonVal::Str(st.instruction@)), (k_duration(), opt_u32_jv(st.duration_mins))]);
    }
    j
}

/// The JSON array elements of a string list.
pub(crate) fn strs_json(v: &Vec<String>) -> (l: JsonList)
    ensures
        lmodel(l) == strs_jv(Seq::new(v@.len(), |i: int| v@[i]@)),
{
    let ghost ss = Seq::new(v@.len(), |i: int| v@[i]@);
    let mut acc = JsonList::Nil;
    let mut i: usize = v.len();
    assert(lmodel(acc) =~= Seq::<JsonVal>::empty());
    while i > 0
        invariant
            i <= v@.len(),
            ss == Seq::new(v@.len(), |k: int| v@[k]@),
            lmodel(acc).len() == v@.len() - i,
            forall|k: int|
                0 <= k < lmodel(acc).len() ==> #[trigger] lmodel(acc)[k] == JsonVal::Str(
                    ss[i + k],
                ),
        decreases i,
    {
        i = i - 1;
        let ghost a0 = lmodel(acc);
        let h = str_json(&v[i]);
        let ghost hm = jmodel(h);
        acc = JsonList::Cons(Box::new(h), Box::new(acc));
        proof {
            assert(lmodel(acc) =~= seq![hm] + a0);
            assert(hm == JsonVal::Str(ss[i as int]));
        }
    }
    proof {
        assert(lmodel(acc) =~= strs_jv(ss));
    }
    acc
}

/// The JSON array elements of the ingredient list.
fn ings_json(v: &Vec<Ingredient>) -> (l: JsonList)
    ensures
        lmodel(l) == ings_jv(Seq::new(v@.len(), |i: int| v@[i]@)),
{
    let ghost ss = Seq::new(v@.len(), |i: int| v@[i]@);
    let mut acc = JsonList::Nil;
    let mut i: usize = v.len();
    assert(lmodel(acc) =~= Seq::<JsonVal>::empty());
    while i > 0
        invariant
            i <= v@.len(),
            ss == Seq::new(v@.len(), |k: int| v@[k]@),
            lmodel(acc).len() == v@.len() - i,
            forall|k: int|
                0 <= k < lmodel(acc).len() ==> #[trigger] lmodel(acc)[k] == ing_jv(ss[i + k]),
        decreases i,
    {
        i = i - 1;
        let ghost a0 = lmodel(acc);
        let h = ing_json(&v[i]);
        let ghost hm = jmodel(h);
        acc = JsonList::Cons(Box::new(h), Box::new(acc));
        proof {
            assert(lmodel(acc) =~= seq![hm] + a0);
            assert(hm == ing_jv(ss[i as int]));
        }
    }
    proof {
        assert(lmodel(acc) =~= ings_jv(ss));
    }
    acc
}

/// The JSON array elements of the step list.
fn steps_json(v: &Vec<Step>) -> (l: JsonList)
    ensures
        lmodel(l) == steps_jv(Seq::new(v@.len(), |i: int| v@[i]@)),
{
    let ghost ss = Seq::new(v@.len(), |i: int| v@[i]@);
    let mut acc = JsonList::Nil;
    let mut i: usize = v.len();
    assert(lmodel(acc) =~= Seq::<JsonVal>::empty());
    while i > 0
        invariant
            i <= v@.len(),
            ss == Seq::new(v@.len(), |k: int| v@[k]@),
            lmodel(acc).len() == v@.len() - i,
            forall|k: int|
                0 <= k < lmodel(acc).len() ==> #[trigger] lmodel(acc)[k] == step_jv(ss[i + k]),
        decreases i,
    {
        i = i - 1;
        let ghost a0 = lmodel(acc);
        let h = step_json(&v[i]);
        let ghost hm = jmodel(h);
        acc = JsonList::Cons(Box::new(h), Box::new(acc));
        proof {
            assert(lmodel(acc) =~= seq![hm] + a0);
            assert(hm == step_jv(ss[i as int]));
        }
    }
    proof {
        assert(lmodel(acc) =~= steps_jv(ss));
    }
    acc
}

/// The JSON object of a whole recipe.
#[verifier::rlimit(100)]
pub fn recipe_json(r: &Recipe) -> (j: Json)
    ensures
        jmodel(j) == recipe_jv(r@),
{
    let k1 = key_string("id");
    let k2 = key_string("name");
    let k3 = key_string("description");
    let k4 = key_string("ingredients");
    let k5 = key_string("instructions");
    let k6 = key_string("servings");
    let k7 = key_string("prep_time_mins");
    let k8 = key_string("cook_time_mins");
    let k9 = key_string("difficulty");
    let k10 = key_string("tags");
    let k11 = key_string("dietary_info");
    let k12 = key_string("created_at");
    let k13 = key_string("updated_at");
    proof {
        reveal_strlit("id");
        reveal_strlit("name");
        reveal_strlit("description");
        reveal_strlit("ingredients");
        reveal_strlit("instructions");
        reveal_strlit("servings");
        reveal_strlit("prep_time_mins");
        reveal_strlit("cook_time_mins");
        reveal_strlit("difficulty");
        reveal_strlit("tags");
        reveal_strlit("dietary_info");
        reveal_strlit("created_at");
        reveal_strlit("updated_at");
        assert(k1@ =~= k_id());
        assert(k2@ =~= k_name());
        assert(k3@ =~= k_description());
        assert(k4@ =~= k_ingredients());
        assert(k5@ =~= k_instructions());
        assert(k6@ =~= k_servings());
        assert(k7@ =~= k_prep());
        assert(k8@ =~= k_cook());
        assert(k9@ =~= k_difficulty());
        assert(k10@ =~= k_tags());
        assert(k11@ =~= k_dietary());
        assert(k12@ =~= k_created());
        assert(k13@ =~= k_updated());
    }
    let v13 = u64_json(r.updated_at);
    let m13 = MemberList::Cons(k13, Box::new(v13), Box::new(MemberList::Nil));
    let v12 = u64_json(r.created_at);
    let m12 = MemberList::Cons(k12, Box::new(v12), Box::new(m13));
    let v11 = Json::Arr(strs_json(&r.dietary_info));
    let ghost g11 = jmodel(v11);
    let m11 = MemberList::Cons(k11, Box::new(v11), Box::new(m12));
    let v10 = Json::Arr(strs_json(&r.tags));
    let ghost g10 = jmodel(v10);
    let m10 = MemberList::Cons(k10, Box::new(v10), Box::new(m11));
    let v9 = str_json(&r.difficulty);
    let m9 = MemberList::Cons(k9, Box::new(v9), Box::new(m10));
    let v8 = u64_json(r.cook_time_mins as u64);
    let m8 = MemberList::Cons(k8, Box::new(v8), Box::new(m9));
    let v7 = u64_json(r.prep_time_mins as u64);
    let m7 = MemberList::Cons(k7, Box::new(v7), Box::new(m8));
    let v6 = u64_json(r.servings as u64);
    let m6 = MemberList::Cons(k6, Box::new(v6), Box::new(m7));
    let v5 = Json::Arr(steps_json(&r.instructions));
    let ghost g5 = jmodel(v5);
    let m5 = MemberList::Cons(k5, Box::new(v5), Box::new(m6));
    let v4 = Json::Arr(ings_json(&r.ingredients));
    let ghost g4 = jmodel(v4);
    let m4 = MemberList::Cons(k4, Box::new(v4), Box::new(m5));
    let v3 = opt_str_json(&r.description);
    let m3 = MemberList::Cons(k3, Box::new(v3), Box::new(m4));
    let v2 = str_json(&r.name);
    let m2 = MemberList::Cons(k2, Box::new(v2), Box::new(m3));
    let v1 = str_json(&r.id);
    let m1 = MemberList::Cons(k1, Box::new(v1), Box::new(m2));
    let j = Json::Obj(m1);
    proof {
        assert(mmodel(MemberList::Nil) =~= Seq::<(Seq<char>, JsonVal)>::empty());
        let rv = r@;
        assert(mmodel(m13) =~= seq![(k_updated(), JsonVal::Num(dec_tok(rv.updated_at as nat)))]);
        assert(mmodel(m12) =~= seq![(k_created(), JsonVal::Num(dec_tok(rv.created_at as nat))), (k_updated(), JsonVal::Num(dec_tok(rv.updated_at as nat)))]);
        assert(mmodel(m11) =~= seq![(k_dietary(), JsonVal::Arr(strs_jv(rv.dietary_info))), (k_created(), JsonVal::Num(dec_tok(rv.created_at as nat))), (k_updated(), JsonVal::Num(dec_tok(rv.updated_at as nat)))]);
        assert(mmodel(m10) =~= seq![(k_tags(), JsonVal::Arr(strs_jv(rv.tags))), (k_dietary(), JsonVal::Arr(strs_jv(rv.dietary_info))), (k_created(), JsonVal::Num(dec_tok(rv.created_at as nat))), (k_updated(), JsonVal::Num(dec_tok(rv.updated_at as nat)))]);
        assert(mmodel(m9) =~= seq![(k_difficulty(), JsonVal::Str(rv.difficulty)), (k_tags(), JsonVal::Arr(strs_jv(rv.tags))), (k_dietary(), JsonVal::Arr(strs_jv(rv.dietary_info))), (k_created(), JsonVal::Num(dec_tok(rv.created_at as nat))), (k_updated(), JsonVal::Num(dec_tok(rv.updated_at as nat)))]);
        assert(mmodel(m8) =~= seq![(k_cook(), JsonVal::Num(dec_tok(rv.cook_time_mins as nat))), (k_difficulty(), JsonVal::Str(rv.difficulty)), (k_tags(), JsonVal::Arr(strs_jv(rv.tags))), (k_dietary(), JsonVal::Arr(strs_jv(rv.dietary_info))), (k_created(), JsonVal::Num(dec_tok(rv.created_at as nat))), (k_updated(), JsonVal::Num(dec_tok(rv.updated_at as nat)))]);
        assert(mmodel(m7) =~= seq![(k_prep(), JsonVal::Num(dec_tok(rv.prep_time_mins as nat))), (k_cook(), JsonVal::Num(dec_tok(rv.cook_time_mins as nat))), (k_difficulty(), JsonVal::Str(rv.difficulty)), (k_tags(), JsonVal::Arr(strs_jv(rv.tags))), (k_dietary(), JsonVal::Arr(strs_jv(rv.dietary_info))), (k_created(), JsonVal::Num(dec_tok(rv.created_at as nat))), (k_updated(), JsonVal::Num(dec_tok(rv.updated_at as nat)))]);
        assert(mmodel(m6) =~= seq![(k_servings(), JsonVal::Num(dec_tok(rv.servings as nat))), (k_prep(), JsonVal::Num(dec_tok(rv.prep_time_mins as nat))), (k_cook(), JsonVal::Num(dec_tok(rv.cook_time_mins as nat))), (k_difficulty(), JsonVal::Str(rv.difficulty)), (k_tags(), JsonVal::Arr(strs_jv(rv.tags))), (k_dietary(), JsonVal::Arr(strs_jv(rv.dietary_info))), (k_created(), JsonVal::Num(dec_tok(rv.created_at as nat))), (k_updated(), JsonVal::Num(dec_tok(rv.updated_at as nat)))]);
        assert(mmodel(m5) =~= seq![(k_instructions(), JsonVal::Arr(steps_jv(rv.instructions))), (k_servings(), JsonVal::Num(dec_tok(rv.servings as nat))), (k_prep(), JsonVal::Num(dec_tok(rv.prep_time_mins as nat))), (k_cook(), JsonVal::Num(dec_tok(rv.cook_time_mins as nat))), (k_difficulty(), JsonVal::Str(rv.difficulty)), (k_tags(), JsonVal::Arr(strs_jv(rv.tags))), (k_dietary(), JsonVal::Arr(strs_jv(rv.dietary_info))), (k_created(), JsonVal::Num(dec_tok(rv.created_at as nat))), (k_updated(), JsonVal::Num(dec_tok(rv.updated_at as nat)))]);
        assert(mmodel(m4) =~= seq![(k_ingredients(), JsonVal::Arr(ings_jv(rv.ingredients))), (k_instructions(), JsonVal::Arr(steps_jv(rv.instructions))), (k_servings(), JsonVal::Num(dec_tok(rv.servings as nat))), (k_prep(), JsonVal::Num(dec_tok(rv.prep_time_mins as nat))), (k_cook(), JsonVal::Num(dec_tok(rv.cook_time_mins as nat))), (k_difficulty(), JsonVal::Str(rv.difficulty)), (k_tags(), JsonVal::Arr(strs_jv(rv.tags))), (k_dietary(), JsonVal::Arr(strs_jv(rv.dietary_info))), (k_created(), JsonVal::Num(dec_tok(rv.created_at as nat))), (k_updated(), JsonVal::Num(dec_tok(rv.updated_at as nat)))]);
        assert(mmodel(m3) =~= seq![(k_description(), opt_str_jv(rv.description)), (k_ingredients(), JsonVal::Arr(ings_jv(rv.ingredients))), (k_instructions(), JsonVal::Arr(steps_jv(rv.instructions))), (k_servings(), JsonVal::Num(dec_tok(rv.servings as nat))), (k_prep(), JsonVal::Num(dec_tok(rv.prep_time_mins as nat))), (k_cook(), JsonVal::Num(dec_tok(rv.cook_time_mins as nat))), (k_difficulty(), JsonVal::Str(rv.difficulty)), (k_tags(), JsonVal::Arr(strs_jv(rv.tags))), (k_dietary(), JsonVal::Arr(strs_jv(rv.dietary_info))), (k_created(), JsonVal::Num(dec_tok(rv.created_at as nat))), (k_updated(), JsonVal::Num(dec_tok(rv.updated_at as nat)))]);
        assert(mmodel(m2) =~= seq![(k_name(), JsonVal::Str(rv.name)), (k_description(), opt_str_jv(rv.description)), (k_ingredients(), JsonVal::Arr(ings_jv(rv.ingredients))), (k_instructions(), JsonVal::Arr(steps_jv(rv.instructions))), (k_servings(), JsonVal::Num(dec_tok(rv.servings as nat))), (k_prep(), JsonVal::Num(dec_tok(rv.prep_time_mins as nat))), (k_cook(), JsonVal::Num(dec_tok(rv.cook_time_mins as nat))), (k_difficulty(), JsonVal::Str(rv.difficulty)), (k_tags(), JsonVal::Arr(strs_jv(rv.tags))), (k_dietary(), JsonVal::Arr(strs_jv(rv.dietary_info))), (k_created(), JsonVal::Num(dec_tok(rv.created_at as nat))), (k_updated(), JsonVal::Num(dec_tok(rv.updated_at as nat)))]);
        assert(mmodel(m1) =~= seq![(k_id(), JsonVal::Str(rv.id)), (k_name(), JsonVal::Str(rv.name)), (k_description(), opt_str_jv(rv.description)), (k_ingredients(), JsonVal::Arr(ings_jv(rv.ingredients))), (k_instructions(), JsonVal::Arr(steps_jv(rv.instructions))), (k_servings(), JsonVal::Num(dec_tok(rv.servings as nat))), (k_prep(), JsonVal::Num(dec_tok(rv.prep_time_mins as nat))), (k_cook(), JsonVal::Num(dec_tok(rv.cook_time_mins as nat))), (k_difficulty(), JsonVal::Str(rv.difficulty)), (k_tags(), JsonVal::Arr(strs_jv(rv.tags))), (k_dietary(), JsonVal::Arr(strs_jv(rv.dietary_info))), (k_created(), JsonVal::Num(dec_tok(rv.created_at as nat))), (k_updated(), JsonVal::Num(dec_tok(rv.updated_at as nat)))]);
    }
    j
}

/// Encode a recipe as its canonical JSON text.
pub fn encode(r: &Recipe) -> (s: String)
    ensures
        s@ == spec_encode(r@),
{
    let j = recipe_json(r);
    let chars = json_to_chars(&j);
    chars_to_string(chars)
}

// ---------------------------------------------------------------------------
// Decoder specification
// ---------------------------------------------------------------------------

/// First member of an object with the given key, if any.
pub open spec fn jv_lookup(ms: Seq<(Seq<char>, JsonVal)>, k: Seq<char>) -> Option<JsonVal>
    decreases ms.len(),
{
    if ms.len() == 0 {
        None
    } else if ms[0].0 == k {
        Some(ms[0].1)
    } else {
        jv_lookup(ms.subrange(1, ms.len() as int), k)
    }
}

/// A required string member.
pub open spec fn req_str(ms: Seq<(Seq<char>, JsonVal)>, k: Seq<char>) -> Option<Seq<char>> {
    match jv_lookup(ms, k) {
        Some(JsonVal::Str(s)) => Some(s),
        _ => None,
    }
}

/// An optional string member: absent or null means none.
pub open spec fn opt_str_field(ms: Seq<(Seq<char>, JsonVal)>, k: Seq<char>) -> Option<
    Option<Seq<char>>,
> {
    match jv_lookup(ms, k) {
        None => Some(None),
        Some(JsonVal::Null) => Some(None),
        Some(JsonVal::Str(s)) => Some(Some(s)),
        _ => None,
    }
}

/// A required boolean member.
pub open spec fn bool_field(ms: Seq<(Seq<char>, JsonVal)>, k: Seq<char>) -> Option<bool> {
    match jv_lookup(ms, k) {
        Some(JsonVal::Bool(b)) => Some(b),
        _ => None,
    }
}

/// A required number member, kept as its token.
pub open spec fn num_field(ms: Seq<(Seq<char>, JsonVal)>, k: Seq<char>) -> Option<Seq<char>> {
    match jv_lookup(ms, k) {
        Some(JsonVal::Num(t)) => Some(t),
        _ => None,
    }
}

/// An unsigned integer read from a number token: all digits, in range.
pub open spec fn tok_u64(t: Seq<char>) -> Option<u64> {
    if t.len() > 0 && all_digits(t) && digits_val(t) <= u64::MAX {
        Some(digits_val(t) as u64)
    } else {
        None
    }
}

/// A required unsigned integer member.
pub open spec fn u64_field(ms: Seq<(Seq<char>, JsonVal)>, k: Seq<char>) -> Option<u64> {
    match num_field(ms, k) {
        Some(t) => tok_u64(t),
        None => None,
    }
}

/// An optional unsigned integer member: absent or null means none.
pub open spec fn opt_u32_field(ms: Seq<(Seq<char>, JsonVal)>, k: Seq<char>) -> Option<
    Option<u32>,
> {
    match jv_lookup(ms, k) {
        None => Some(None),
        Some(JsonVal::Null) => Some(None),
        Some(JsonVal::Num(t)) => match tok_u64(t) {
            Some(v) => if v <= u32::MAX as u64 {
                Some(Some(v as u32))
            } else {
                None
            },
            None => None,
        },
        _ => None,
    }
}

/// Read one ingredient from its JSON value.
pub open spec fn ing_of_jv(j: JsonVal) -> Option<IngredientV> {
    match j {
        JsonVal::Obj(ms) => {
            let name = req_str(ms, k_name());
            let amount = num_field(ms, k_amount());
            let unit = req_str(ms, k_unit());
            let optional = bool_field(ms, k_optional());
            let notes = opt_str_field(ms, k_notes());
            if name is Some && amount is Some && unit is Some && optional is Some
                && notes is Some {
                Some(
                    IngredientV {
                        name: name.unwrap(),
                        amount: amount.unwrap(),
                        unit: unit.unwrap(),
                        optional: optional.unwrap(),
                        notes: notes.unwrap(),
                    },
                )
            } else {
                None
            }
        },
        _ => None,
    }
}

/// Read one step from its JSON value.
pub open spec fn step_of_jv(j: JsonVal) -> Option<StepV> {
    match j {
        JsonVal::Obj(ms) => {
            let order = u64_field(ms, k_order());
            let instruction = req_str(ms, k_instruction());
            let duration = opt_u32_field(ms, k_duration());
            if order is Some && order.unwrap() <= u8::MAX as u64 && instruction is Some
                && duration is Some {
                Some(
                    StepV {
                        order: order.unwrap() as u8,
                        instruction: instruction.unwrap(),
                        duration_mins: duration.unwrap(),
                    },
                )
            } else {
                None
            }
        },
        _ => None,
    }
}

/// Read a whole ingredient array.
pub open spec fn ings_of_jv(es: Seq<JsonVal>) -> Option<Seq<IngredientV>>
    decreases es.len(),
{
    if es.len() == 0 {
        Some(Seq::empty())
    } else {
        match ing_of_jv(es[0]) {
            None => None,
            Some(i) => match ings_of_jv(es.subrange(1, es.len() as int)) {
                None => None,
                Some(r) => Some(seq![i] + r),
            },
        }
    }
}

/// Read a whole step array.
pub open spec fn steps_of_jv(es: Seq<JsonVal>) -> Option<Seq<StepV>>
    decreases es.len(),
{
    if es.len() == 0 {
        Some(Seq::empty())
    } else {
        match step_of_jv(es[0]) {
            None => None,
            Some(i) => match steps_of_jv(es.subrange(1, es.len() as int)) {
                None => None,
                Some(r) => Some(seq![i] + r),
            },
        }
    }
}

/// Read an array of strings.
pub open spec fn strs_of_jv(es: Seq<JsonVal>) -> Option<Seq<Seq<char>>>
    decreases es.len(),
{
    if es.len() == 0 {
        Some(Seq::empty())
    } else {
        match es[0] {
            JsonVal::Str(s) => match strs_of_jv(es.subrange(1, es.len() as int)) {
                None => None,
                Some(r) => Some(seq![s] + r),
            },
            _ => None,
        }
    }
}

pub open spec fn ings_field(ms: Seq<(Seq<char>, JsonVal)>) -> Option<Seq<IngredientV>> {
    match jv_lookup(ms, k_ingredients()) {
        Some(JsonVal::Arr(es)) => ings_of_jv(es),
        _ => None,
    }
}

pub open spec fn steps_field(ms: Seq<(Seq<char>, JsonVal)>) -> Option<Seq<StepV>> {
    match jv_lookup(ms, k_instructions()) {
        Some(JsonVal::Arr(es)) => steps_of_jv(es),
        _ => None,
    }
}

pub open spec fn strs_field(ms: Seq<(Seq<char>, JsonVal)>, k: Seq<char>) -> Option<
    Seq<Seq<char>>,
> {
    match jv_lookup(ms, k) {
        Some(JsonVal::Arr(es)) => strs_of_jv(es),
        _ => None,
    }
}

/// Read a whole recipe from its JSON value.
pub open spec fn recipe_of_jv(j: JsonVal) -> Option<RecipeV> {
    match j {
        JsonVal::Obj(ms) => {
            let id = req_str(ms, k_id());
            let name = req_str(ms, k_name());
            let description = opt_str_field(ms, k_description());
            let ingredients = ings_field(ms);
            let instructions = steps_field(ms);
            let servings = u64_field(ms, k_servings());
            let prep = u64_field(ms, k_prep());
            let cook = u64_field(ms, k_cook());
            let difficulty = req_str(ms, k_difficulty());
            let tags = strs_field(ms, k_tags());
            let dietary = strs_field(ms, k_dietary());
            let created = u64_field(ms, k_created());
            let updated = u64_field(ms, k_updated());
            if id is Some && name is Some && description is Some && ingredients is Some
                && instructions is Some && servings is Some && servings.unwrap() <= u8::MAX as u64
                && prep is Some && prep.unwrap() <= u32::MAX as u64 && cook is Some
                && cook.unwrap() <= u32::MAX as u64 && difficulty is Some && tags is Some
                && dietary is Some && created is Some && updated is Some {
                Some(
                    RecipeV {
                        id: id.unwrap(),
                        name: name.unwrap(),
                        description: description.unwrap(),
                        ingredients: ingredients.unwrap(),
                        instructions: instructions.unwrap(),
                        servings: servings.unwrap() as u8,
                        prep_time_mins: prep.unwrap() as u32,
                        cook_time_mins: cook.unwrap() as u32,
                        difficulty: difficulty.unwrap(),
                        tags: tags.unwrap(),
                        dietary_info: dietary.unwrap(),
                        created_at: created.unwrap(),
                        updated_at: updated.unwrap(),
                    },
                )
            } else {
                None
            }
        },
        _ => None,
    }
}

/// Decode a recipe from JSON text: strict about well-formedness of the
/// document and the shape of each required field.
pub open spec fn spec_decode(s: Seq<char>) -> Option<RecipeV> {
    match parse_json(s) {
        Some(j) => recipe_of_jv(j),
        None => None,
    }
}

// ---------------------------------------------------------------------------
// Executable decoder
// ---------------------------------------------------------------------------

/// Character-for-character string equality.
pub fn eq_str(a: &str, b: &str) -> (r: bool)
    ensures
        r == (a@ == b@),
{
    let n = a.unicode_len();
    let m = b.unicode_len();
    if n != m {
        return false;
    }
    let mut i: usize = 0;
    while i < n
        invariant
            n == a@.len(),
            n == b@.len(),
            0 <= i <= n,
            forall|k: int| 0 <= k < i ==> a@[k] == #[trigger] b@[k],
        decreases n - i,
    {
        if a.get_char(i) != b.get_char(i) {
            return false;
        }
        i = i + 1;
    }
    proof {
        assert(a@ =~= b@);
    }
    true
}

/// Find the first member with the given key.
fn mlist_lookup<'a>(m: &'a MemberList, k: &str) -> (r: Option<&'a Json>)
    ensures
        (r matches Some(j) ==> jv_lookup(mmodel(*m), k@) == Some(jmodel(*j))),
        r is None ==> jv_lookup(mmodel(*m), k@) is None,
    decreases m,
{
    match m {
        MemberList::Nil => {
            assert(mmodel(*m) =~= Seq::<(Seq<char>, JsonVal)>::empty());
            None
        },
        MemberList::Cons(mk, v, t) => {
            proof {
                assert(mmodel(*m)[0] == (mk@, jmodel(**v)));
                assert(mmodel(*m).subrange(1, mmodel(*m).len() as int) =~= mmodel(**t));
            }
            if eq_str(mk.as_str(), k) {
                Some(v)
            } else {
                mlist_lookup(t, k)
            }
        },
    }
}

fn get_req_str(m: &MemberList, k: &str) -> (r: Option<String>)
    ensures
        (r matches Some(s) ==> req_str(mmodel(*m), k@) == Some(s@)),
        r is None ==> req_str(mmodel(*m), k@) is None,
{
    match mlist_lookup(m, k) {
        Some(Json::Str(s)) => Some(s.clone()),
        _ => None,
    }
}

fn get_opt_str(m: &MemberList, k: &str) -> (r: Option<Option<String>>)
    ensures
        (r matches Some(o) ==> opt_str_field(mmodel(*m), k@) == Some(opt_view(o))),
        r is None ==> opt_str_field(mmodel(*m), k@) is None,
{
    match mlist_lookup(m, k) {
        None => Some(None),
        Some(Json::Null) => Some(None),
        Some(Json::Str(s)) => Some(Some(s.clone())),
        _ => None,
    }
}

fn get_bool(m: &MemberList, k: &str) -> (r: Option<bool>)
    ensures
        r == bool_field(mmodel(*m), k@),
{
    match mlist_lookup(m, k) {
        Some(Json::Bool(b)) => Some(*b),
        _ => None,
    }
}

fn get_num_tok(m: &MemberList, k: &str) -> (r: Option<String>)
    ensures
        (r matches Some(t) ==> num_field(mmodel(*m), k@) == Some(t@)),
        r is None ==> num_field(mmodel(*m), k@) is None,
{
    match mlist_lookup(m, k) {
        Some(Json::Num(t)) => Some(t.clone()),
        _ => None,
    }
}

/// The value of a digit prefix never exceeds the value of the whole run.
proof fn lemma_digits_val_mono(t: Seq<char>, i: int)
    requires
        0 <= i <= t.len(),
        all_digits(t),
    ensures
        digits_val(t.take(i)) <= digits_val(t),
    decreases t.len() - i,
{
    if i == t.len() {
        assert(t.take(i) =~= t);
    } else {
        assert(t.take(i + 1).drop_last() =~= t.take(i));
        assert(t.take(i + 1).last() == t[i]);
        assert(digits_val(t.take(i + 1)) == digits_val(t.take(i)) * 10 + digit_val(t[i]));
        lemma_digits_val_mono(t, i + 1);
    }
}

/// Read an unsigned integer from decimal text.
fn tok_u64_x(t: &str) -> (r: Option<u64>)
    ensures
        r == tok_u64(t@),
{
    let n = t.unicode_len();
    if n == 0 {
        return None;
    }
    let mut val: u64 = 0;
    let mut i: usize = 0;
    assert(t@.take(0) =~= Seq::<char>::empty());
    while i < n
        invariant
            n == t@.len(),
            0 <= i <= n,
            forall|k: int| 0 <= k < i ==> crate::json::is_digit(#[trigger] t@[k]),
            val == digits_val(t@.take(i as int)),
        decreases n - i,
    {
        let c = t.get_char(i);
        let v = c as u32;
        if !(48 <= v && v <= 57) {
            assert(!all_digits(t@));
            return None;
        }
        let d = (v - 48) as u64;
        proof {
            assert(t@.take(i + 1 as int).drop_last() =~= t@.take(i as int));
            assert(t@.take(i + 1 as int).last() == t@[i as int]);
            assert(digits_val(t@.take(i + 1 as int)) == digits_val(t@.take(i as int)) * 10
                + crate::json::digit_val(t@[i as int]));
        }
        if val > (u64::MAX - d) / 10 {
            proof {
                assert(digits_val(t@.take(i + 1 as int)) > u64::MAX);
                if all_digits(t@) {
                    lemma_digits_val_mono(t@, i + 1);
                }
            }
            return None;
        }
        val = val * 10 + d;
        i = i + 1;
    }
    proof {
        assert(t@.take(n as int) =~= t@);
        assert(all_digits(t@));
    }
    Some(val)
}

fn get_u64(m: &MemberList, k: &str) -> (r: Option<u64>)
    ensures
        r == u64_field(mmodel(*m), k@),
{
    match get_num_tok(m, k) {
        Some(t) => tok_u64_x(t.as_str()),
        None => None,
    }
}

fn get_opt_u32(m: &MemberList, k: &str) -> (r: Option<Option<u32>>)
    ensures
        r == opt_u32_field(mmodel(*m), k@),
{
    match mlist_lookup(m, k) {
        None => Some(None),
        Some(Json::Null) => Some(None),
        Some(Json::Num(t)) => match tok_u64_x(t.as_str()) {
            Some(v) => if v <= u32::MAX as u64 {
                Some(Some(v as u32))
            } else {
                None
            },
            None => None,
        },
        _ => None,
    }
}

/// Read one ingredient from its JSON value.
fn ing_from_json(j: &Json) -> (r: Option<Ingredient>)
    ensures
        (r matches Some(i) ==> ing_of_jv(jmodel(*j)) == Some(i@)),
        r is None ==> ing_of_jv(jmodel(*j)) is None,
{
    match j {
        Json::Obj(ms) => {
            let name = get_req_str(ms, "name");
            let amount = get_num_tok(ms, "amount");
            let unit = get_req_str(ms, "unit");
            let optional = get_bool(ms, "optional");
            let notes = get_opt_str(ms, "notes");
            proof {
                reveal_strlit("name");
                reveal_strlit("amount");
                reveal_strlit("unit");
                reveal_strlit("optional");
                reveal_strlit("notes");
                assert("name"@ =~= k_name());
                assert("amount"@ =~= k_amount());
                assert("unit"@ =~= k_unit());
                assert("optional"@ =~= k_optional());
                assert("notes"@ =~= k_notes());
            }
            if name.is_some() && amount.is_some() && unit.is_some() && optional.is_some()
                && notes.is_some() {
                Some(
                    Ingredient {
                        name: name.unwrap(),
                        amount: amount.unwrap(),
                        unit: unit.unwrap(),
                        optional: optional.unwrap(),
                        notes: notes.unwrap(),
                    },
                )
            } else {
                None
            }
        },
        _ => None,
    }
}

/// Read one step from its JSON value.
fn step_from_json(j: &Json) -> (r: Option<Step>)
    ensures
        (r matches Some(st) ==> step_of_jv(jmodel(*j)) == Some(st@)),
        r is None ==> step_of_jv(jmodel(*j)) is None,
{
    match j {
        Json::Obj(ms) => {
            let order = get_u64(ms, "order");
            let instruction = get_req_str(ms, "instruction");
            let duration = get_opt_u32(ms, "duration_mins");
            proof {
                reveal_strlit("order");
                reveal_strlit("instruction");
                reveal_strlit("duration_mins");
                assert("order"@ =~= k_order());
                assert("instruction"@ =~= k_instruction());
                assert("duration_mins"@ =~= k_duration());
            }
            if order.is_some() && instruction.is_some() && duration.is_some() {
                let o = order.unwrap();
                if o <= 255 {
                    Some(
                        Step {
                            order: o as u8,
                            instruction: instruction.unwrap(),
                            duration_mins: duration.unwrap(),
                        },
                    )
                } else {
                    None
                }
            } else {
                None
            }
        },
        _ => None,
    }
}

pub open spec fn ing_views(v: Seq<Ingredient>) -> Seq<IngredientV> {
    Seq::new(v.len(), |i: int| v[i]@)
}

pub open spec fn step_views(v: Seq<Step>) -> Seq<StepV> {
    Seq::new(v.len(), |i: int| v[i]@)
}

pub open spec fn str_views(v: Seq<String>) -> Seq<Seq<char>> {
    Seq::new(v.len(), |i: int| v[i]@)
}

/// Read the whole ingredient array.
fn ings_from_list(l: &JsonList) -> (r: Option<Vec<Ingredient>>)
    ensures
        (r matches Some(v) ==> ings_of_jv(lmodel(*l)) == Some(ing_views(v@))),
        r is None ==> ings_of_jv(lmodel(*l)) is None,
    decreases l,
{
    match l {
        JsonList::Nil => {
            let v: Vec<Ingredient> = Vec::new();
            proof {
                assert(lmodel(*l) =~= Seq::<JsonVal>::empty());
                assert(ing_views(v@) =~= Seq::<IngredientV>::empty());
            }
            Some(v)
        },
        JsonList::Cons(h, t) => {
            proof {
                assert(lmodel(*l)[0] == jmodel(**h));
                assert(lmodel(*l).subrange(1, lmodel(*l).len() as int) =~= lmodel(**t));
            }
            match ing_from_json(h) {
                None => None,
                Some(i) => match ings_from_list(t) {
                    None => None,
                    Some(v) => {
                        let ghost iv = i@;
                        let ghost vv = ing_views(v@);
                        let mut v2 = v;
                        v2.insert(0, i);
                        proof {
                            assert(ing_views(v2@) =~= seq![iv] + vv);
                        }
                        Some(v2)
                    },
                },
            }
        },
    }
}

/// Read the whole step array.
fn steps_from_list(l: &JsonList) -> (r: Option<Vec<Step>>)
    ensures
        (r matches Some(v) ==> steps_of_jv(lmodel(*l)) == Some(step_views(v@))),
        r is None ==> steps_of_jv(lmodel(*l)) is None,
    decreases l,
{
    match l {
        JsonList::Nil => {
            let v: Vec<Step> = Vec::new();
            proof {
                assert(lmodel(*l) =~= Seq::<JsonVal>::empty());
                assert(step_views(v@) =~= Seq::<StepV>::empty());
            }
            Some(v)
        },
        JsonList::Cons(h, t) => {
            proof {
                assert(lmodel(*l)[0] == jmodel(**h));
                assert(lmodel(*l).subrange(1, lmodel(*l).len() as int) =~= lmodel(**t));
            }
            match step_from_json(h) {
                None => None,
                Some(i) => match steps_from_list(t) {
                    None => None,
                    Some(v) => {
                        let ghost iv = i@;
                        let ghost vv = step_views(v@);
                        let mut v2 = v;
                        v2.insert(0, i);
                        proof {
                            assert(step_views(v2@) =~= seq![iv] + vv);
                        }
                        Some(v2)
                    },
                },
            }
        },
    }
}

/// Read an array of strings.
pub(crate) fn strs_from_list(l: &JsonList) -> (r: Option<Vec<String>>)
    ensures
        (r matches Some(v) ==> strs_of_jv(lmodel(*l)) == Some(str_views(v@))),
        r is None ==> strs_of_jv(lmodel(*l)) is None,
    decreases l,
{
    match l {
        JsonList::Nil => {
            let v: Vec<String> = Vec::new();
            proof {
                assert(lmodel(*l) =~= Seq::<JsonVal>::empty());
                assert(str_views(v@) =~= Seq::<Seq<char>>::empty());
            }
            Some(v)
        },
        JsonList::Cons(h, t) => {
            proof {
                assert(lmodel(*l)[0] == jmodel(**h));
                assert(lmodel(*l).subrange(1, lmodel(*l).len() as int) =~= lmodel(**t));
            }
            match &**h {
                Json::Str(s) => match strs_from_list(t) {
                    None => None,
                    Some(v) => {
                        let ghost sv = s@;
                        let ghost vv = str_views(v@);
                        let mut v2 = v;
                        v2.insert(0, s.clone());
                        proof {
                            assert(str_views(v2@) =~= seq![sv] + vv);
                        }
                        Some(v2)
                    },
                },
                _ => None,
            }
        },
    }
}

/// Read a whole recipe from its JSON value.
#[verifier::rlimit(100)]
pub fn recipe_from_json(j: &Json) -> (r: Option<Recipe>)
    ensures
        (r matches Some(rec) ==> recipe_of_jv(jmodel(*j)) == Some(rec@)),
        r is None ==> recipe_of_jv(jmodel(*j)) is None,
{
    match j {
        Json::Obj(ms) => {
            proof {
                reveal_strlit("id");
                reveal_strlit("name");
                reveal_strlit("description");
                reveal_strlit("ingredients");
                reveal_strlit("instructions");
                reveal_strlit("servings");
                reveal_strlit("prep_time_mins");
                reveal_strlit("cook_time_mins");
                reveal_strlit("difficulty");
                reveal_strlit("tags");
                reveal_strlit("dietary_info");
                reveal_strlit("created_at");
                reveal_strlit("updated_at");
                assert("id"@ =~= k_id());
                assert("name"@ =~= k_name());
                assert("description"@ =~= k_description());
                assert("ingredients"@ =~= k_ingredients());
                assert("instructions"@ =~= k_instructions());
                assert("servings"@ =~= k_servings());
                assert("prep_time_mins"@ =~= k_prep());
                assert("cook_time_mins"@ =~= k_cook());
                assert("difficulty"@ =~= k_difficulty());
                assert("tags"@ =~= k_tags());
                assert("dietary_info"@ =~= k_dietary());
                assert("created_at"@ =~= k_created());
                assert("updated_at"@ =~= k_updated());
            }
            let id = get_req_str(ms, "id");
            let name = get_req_str(ms, "name");
            let description = get_opt_str(ms, "description");
            let ingredients: Option<Vec<Ingredient>> = match mlist_lookup(ms, "ingredients") {
                Some(Json::Arr(es)) => ings_from_list(es),
                _ => None,
            };
            let instructions: Option<Vec<Step>> = match mlist_lookup(ms, "instructions") {
                Some(Json::Arr(es)) => steps_from_list(es),
                _ => None,
            };
            let servings = get_u64(ms, "servings");
            let prep = get_u64(ms, "prep_time_mins");
            let cook = get_u64(ms, "cook_time_mins");
            let difficulty = get_req_str(ms, "difficulty");
            let tags: Option<Vec<String>> = match mlist_lookup(ms, "tags") {
                Some(Json::Arr(es)) => strs_from_list(es),
                _ => None,
            };
            let dietary: Option<Vec<String>> = match mlist_lookup(ms, "dietary_info") {
                Some(Json::Arr(es)) => strs_from_list(es),
                _ => None,
            };
            let created = get_u64(ms, "created_at");
            let updated = get_u64(ms, "updated_at");
            if id.is_some() && name.is_some() && description.is_some() && ingredients.is_some()
                && instructions.is_some() && servings.is_some() && prep.is_some() && cook.is_some()
                && difficulty.is_some() && tags.is_some() && dietary.is_some() && created.is_some()
                && updated.is_some() {
                let sv = servings.unwrap();
                let pv = prep.unwrap();
                let cv = cook.unwrap();
                if sv <= 255 && pv <= u32::MAX as u64 && cv <= u32::MAX as u64 {
                    Some(
                        Recipe {
                            id: id.unwrap(),
                            name: name.unwrap(),
                            description: description.unwrap(),
                            ingredients: ingredients.unwrap(),
                            instructions: instructions.unwrap(),
                            servings: sv as u8,
                            prep_time_mins: pv as u32,
                            cook_time_mins: cv as u32,
                            difficulty: difficulty.unwrap(),
                            tags: tags.unwrap(),
                            dietary_info: dietary.unwrap(),
                            created_at: created.unwrap(),
                            updated_at: updated.unwrap(),
                        },
                    )
                } else {
                    None
                }
            } else {
                None
            }
        },
        _ => None,
    }
}

/// The characters of a string as a vector.
pub fn str_chars(s: &str) -> (v: Vec<char>)
    ensures
        v@ == s@,
{
    let n = s.unicode_len();
    let mut v: Vec<char> = Vec::new();
    let mut i: usize = 0;
    while i < n
        invariant
            n == s@.len(),
            0 <= i <= n,
            v@ == s@.subrange(0, i as int),
        decreases n - i,
    {
        v.push(s.get_char(i));
        assert(s@.subrange(0, i + 1 as int) =~= s@.subrange(0, i as int).push(s@[i as int]));
        i = i + 1;
    }
    assert(s@.subrange(0, n as int) =~= s@);
    v
}

/// Decode a recipe from JSON text.
pub fn decode(s: &str) -> (r: Option<Recipe>)
    ensures
        (r matches Some(rec) ==> spec_decode(s@) == Some(rec@)),
        r is None ==> spec_decode(s@) is None,
{
    let chars = str_chars(s);
    match crate::json::parse_json_x(&chars) {
        None => None,
        Some(j) => recipe_from_json(&j),
    }
}

} // verus!
