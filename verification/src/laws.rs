//! The laws of the library, each stated and proved over the specification
//! functions that the public contracts use: the codec round trip, and what
//! each store operation leaves behind for the next read.

use vstd::prelude::*;
use crate::json::{
    JsonVal, all_digits, dec_tok, digit_char, digit_val, digits_run, digits_val, lemma_parse_ser,
    num_token_ok, parse_json, wf_elems, wf_json, wf_members,
};
use crate::recipe::{
    IngredientV, RecipeV, StepV, bool_field, ing_jv, ing_of_jv, ings_field, ings_jv, ings_of_jv,
    jv_lookup, k_amount, k_cook, k_created, k_description, k_dietary, k_difficulty, k_duration,
    k_id, k_ingredients, k_instruction, k_instructions, k_name, k_notes, k_optional, k_order,
    k_prep, k_servings, k_tags, k_unit, k_updated, num_field, opt_str_field, opt_str_jv,
    opt_u32_field, opt_u32_jv, recipe_jv, recipe_of_jv, req_str, spec_decode, spec_encode,
    step_jv, step_of_jv, steps_field, steps_jv, steps_of_jv, strs_field, strs_jv, strs_of_jv,
    tok_u64, u64_field, wf_recipe,
};
use crate::store::{
    StoreError, effective_id, idx_key, ids_blob, ids_of_jv, rec_key, remove_all, spec_add_id,
    spec_get, spec_index, spec_list, spec_list_ids, spec_remove_id, stamped, synth_id, with_id,
};

verus! {

// ---------------------------------------------------------------------------
// Decimal tokens
// ---------------------------------------------------------------------------

proof fn lemma_digits_run_all(t: Seq<char>, k: int)
    requires
        all_digits(t),
        0 <= k <= t.len(),
    ensures
        digits_run(t, k) == t.len(),
    decreases t.len() - k,
{
    if k < t.len() {
        lemma_digits_run_all(t, k + 1);
    }
}

proof fn lemma_dec_tok_first(n: nat)
    ensures
        dec_tok(n).len() >= 1,
        n > 0 ==> dec_tok(n)[0] != '0',
    decreases n,
{
    if n >= 10 {
        lemma_dec_tok_first(n / 10);
        assert(dec_tok(n)[0] == dec_tok(n / 10)[0]);
    }
}

/// The decimal text of `n` is a well-formed number token whose digits read
/// back as `n`.
pub proof fn lemma_dec_tok_ok(n: nat)
    ensures
        dec_tok(n).len() >= 1,
        all_digits(dec_tok(n)),
        num_token_ok(dec_tok(n)),
        digits_val(dec_tok(n)) == n,
    decreases n,
{
    let t = dec_tok(n);
    if n < 10 {
        assert(t =~= seq![digit_char(n)]);
        assert(is_digit_char(digit_char(n), n));
        assert forall|k: int| 0 <= k < t.len() implies crate::json::is_digit(#[trigger] t[k]) by {
            assert(t[k] == digit_char(n));
        }
        assert(t.drop_last() =~= Seq::<char>::empty());
        assert(digits_val(t) == digits_val(t.drop_last()) * 10 + digit_val(t.last()));
        assert(digit_val(digit_char(n)) == n);
        lemma_digits_run_all(t, 0);
        assert(num_token_ok(t));
    } else {
        lemma_dec_tok_ok(n / 10);
        let pre = dec_tok(n / 10);
        assert(t == pre.push(digit_char(n % 10)));
        assert forall|k: int| 0 <= k < t.len() implies crate::json::is_digit(#[trigger] t[k]) by {
            if k < pre.len() {
                assert(t[k] == pre[k]);
            } else {
                assert(t[k] == digit_char(n % 10));
                assert(digit_val(digit_char(n % 10)) == n % 10);
            }
        }
        assert(t.drop_last() =~= pre);
        assert(t.last() == digit_char(n % 10));
        assert(digit_val(digit_char(n % 10)) == n % 10);
        assert(digits_val(t) == digits_val(pre) * 10 + n % 10);
        assert(digits_val(t) == n);
        lemma_dec_tok_first(n);
        assert(t[0] == pre[0]);
        lemma_digits_run_all(t, 0);
        assert(num_token_ok(t));
    }
}

spec fn is_digit_char(c: char, n: nat) -> bool {
    crate::json::is_digit(c) && digit_val(c) == n
}

/// Reading the decimal text of `n` back yields `n`.
pub proof fn lemma_tok_u64(n: u64)
    ensures
        tok_u64(dec_tok(n as nat)) == Some(n),
{
    lemma_dec_tok_ok(n as nat);
}

// ---------------------------------------------------------------------------
// Well-formedness of what the encoder emits
// ---------------------------------------------------------------------------

proof fn lemma_wf_ing(i: IngredientV)
    requires
        num_token_ok(i.amount),
    ensures
        wf_json(ing_jv(i)),
{
    let ms0 = seq![(k_name(), JsonVal::Str(i.name)), (k_amount(), JsonVal::Num(i.amount)), (k_unit(), JsonVal::Str(i.unit)), (k_optional(), JsonVal::Bool(i.optional)), (k_notes(), opt_str_jv(i.notes))];
    let ms1 = ms0.subrange(1, ms0.len() as int);
    assert(ms1 =~= seq![(k_amount(), JsonVal::Num(i.amount)), (k_unit(), JsonVal::Str(i.unit)), (k_optional(), JsonVal::Bool(i.optional)), (k_notes(), opt_str_jv(i.notes))]);
    let ms2 = ms1.subrange(1, ms1.len() as int);
    assert(ms2 =~= seq![(k_unit(), JsonVal::Str(i.unit)), (k_optional(), JsonVal::Bool(i.optional)), (k_notes(), opt_str_jv(i.notes))]);
    let ms3 = ms2.subrange(1, ms2.len() as int);
    assert(ms3 =~= seq![(k_optional(), JsonVal::Bool(i.optional)), (k_notes(), opt_str_jv(i.notes))]);
    let ms4 = ms3.subrange(1, ms3.len() as int);
    assert(ms4 =~= seq![(k_notes(), opt_str_jv(i.notes))]);
    assert(ms0[0] == (k_name(), JsonVal::Str(i.name)));
    assert(ms1[0] == (k_amount(), JsonVal::Num(i.amount)));
    assert(ms2[0] == (k_unit(), JsonVal::Str(i.unit)));
    assert(ms3[0] == (k_optional(), JsonVal::Bool(i.optional)));
    assert(ms4[0] == (k_notes(), opt_str_jv(i.notes)));
    assert(wf_json(JsonVal::Str(i.name)));
    assert(wf_json(JsonVal::Num(i.amount)));
    assert(wf_json(JsonVal::Str(i.unit)));
    assert(wf_json(JsonVal::Bool(i.optional)));
    assert(wf_json(opt_str_jv(i.notes)));
    assert(wf_members(ms4.subrange(1, ms4.len() as int))) by {
        assert(ms4.subrange(1, ms4.len() as int) =~= Seq::<(Seq<char>, JsonVal)>::empty());
    }
    assert(wf_members(ms4));
    assert(wf_members(ms3));
    assert(wf_members(ms2));
    assert(wf_members(ms1));
    assert(wf_members(ms0));
}

proof fn lemma_wf_step(st: StepV)
    ensures
        wf_json(step_jv(st)),
{
    lemma_dec_tok_ok(st.order as nat);
    if st.duration_mins is Some {
        lemma_dec_tok_ok(st.duration_mins.unwrap() as nat);
    }
    let ms0 = seq![(k_order(), JsonVal::Num(dec_tok(st.order as nat))), (k_instruction(), JsonVal::Str(st.instruction)), (k_duration(), opt_u32_jv(st.duration_mins))];
    let ms1 = ms0.subrange(1, ms0.len() as int);
    assert(ms1 =~= seq![(k_instruction(), JsonVal::Str(st.instruction)), (k_duration(), opt_u32_jv(st.duration_mins))]);
    let ms2 = ms1.subrange(1, ms1.len() as int);
    assert(ms2 =~= seq![(k_duration(), opt_u32_jv(st.duration_mins))]);
    assert(ms0[0] == (k_order(), JsonVal::Num(dec_tok(st.order as nat))));
    assert(ms1[0] == (k_instruction(), JsonVal::Str(st.instruction)));
    assert(ms2[0] == (k_duration(), opt_u32_jv(st.duration_mins)));
    assert(wf_json(JsonVal::Num(dec_tok(st.order as nat))));
    assert(wf_json(JsonVal::Str(st.instruction)));
    assert(wf_json(opt_u32_jv(st.duration_mins)));
    assert(wf_members(ms2.subrange(1, ms2.len() as int))) by {
        assert(ms2.subrange(1, ms2.len() as int) =~= Seq::<(Seq<char>, JsonVal)>::empty());
    }
    assert(wf_members(ms2));
    assert(wf_members(ms1));
    assert(wf_members(ms0));
}

proof fn lemma_wf_strs(ss: Seq<Seq<char>>)
    ensures
        wf_elems(strs_jv(ss)),
    decreases ss.len(),
{
    if ss.len() > 0 {
        assert(strs_jv(ss)[0] == JsonVal::Str(ss[0]));
        assert(wf_json(JsonVal::Str(ss[0])));
        assert(strs_jv(ss).subrange(1, strs_jv(ss).len() as int) =~= strs_jv(
            ss.subrange(1, ss.len() as int),
        ));
        lemma_wf_strs(ss.subrange(1, ss.len() as int));
    }
}

proof fn lemma_wf_ings(s: Seq<IngredientV>)
    requires
        forall|i: int| 0 <= i < s.len() ==> num_token_ok(#[trigger] s[i].amount),
    ensures
        wf_elems(ings_jv(s)),
    decreases s.len(),
{
    if s.len() > 0 {
        assert(ings_jv(s)[0] == ing_jv(s[0]));
        lemma_wf_ing(s[0]);
        assert(ings_jv(s).subrange(1, ings_jv(s).len() as int) =~= ings_jv(
            s.subrange(1, s.len() as int),
        ));
        assert forall|i: int|
            0 <= i < s.subrange(1, s.len() as int).len() implies num_token_ok(
            #[trigger] s.subrange(1, s.len() as int)[i].amount,
        ) by {
            assert(s.subrange(1, s.len() as int)[i] == s[i + 1]);
        }
        lemma_wf_ings(s.subrange(1, s.len() as int));
    }
}

proof fn lemma_wf_steps(s: Seq<StepV>)
    ensures
        wf_elems(steps_jv(s)),
    decreases s.len(),
{
    if s.len() > 0 {
        assert(steps_jv(s)[0] == step_jv(s[0]));
        lemma_wf_step(s[0]);
        assert(steps_jv(s).subrange(1, steps_jv(s).len() as int) =~= steps_jv(
            s.subrange(1, s.len() as int),
        ));
        lemma_wf_steps(s.subrange(1, s.len() as int));
    }
}

/// The JSON object of a well-formed recipe is well-formed.
pub proof fn lemma_wf_recipe_jv(r: RecipeV)
    requires
        wf_recipe(r),
    ensures
        wf_json(recipe_jv(r)),
{
    lemma_dec_tok_ok(r.servings as nat);
    lemma_dec_tok_ok(r.prep_time_mins as nat);
    lemma_dec_tok_ok(r.cook_time_mins as nat);
    lemma_dec_tok_ok(r.created_at as nat);
    lemma_dec_tok_ok(r.updated_at as nat);
    lemma_wf_ings(r.ingredients);
    lemma_wf_steps(r.instructions);
    lemma_wf_strs(r.tags);
    lemma_wf_strs(r.dietary_info);
    let ms0 = seq![(k_id(), JsonVal::Str(r.id)), (k_name(), JsonVal::Str(r.name)), (k_description(), opt_str_jv(r.description)), (k_ingredients(), JsonVal::Arr(ings_jv(r.ingredients))), (k_instructions(), JsonVal::Arr(steps_jv(r.instructions))), (k_servings(), JsonVal::Num(dec_tok(r.servings as nat))), (k_prep(), JsonVal::Num(dec_tok(r.prep_time_mins as nat))), (k_cook(), JsonVal::Num(dec_tok(r.cook_time_mins as nat))), (k_difficulty(), JsonVal::Str(r.difficulty)), (k_tags(), JsonVal::Arr(strs_jv(r.tags))), (k_dietary(), JsonVal::Arr(strs_jv(r.dietary_info))), (k_created(), JsonVal::Num(dec_tok(r.created_at as nat))), (k_updated(), JsonVal::Num(dec_tok(r.updated_at as nat)))];
    let ms1 = ms0.subrange(1, ms0.len() as int);
    assert(ms1 =~= seq![(k_name(), JsonVal::Str(r.name)), (k_description(), opt_str_jv(r.description)), (k_ingredients(), JsonVal::Arr(ings_jv(r.ingredients))), (k_instructions(), JsonVal::Arr(steps_jv(r.instructions))), (k_servings(), JsonVal::Num(dec_tok(r.servings as nat))), (k_prep(), JsonVal::Num(dec_tok(r.prep_time_mins as nat))), (k_cook(), JsonVal::Num(dec_tok(r.cook_time_mins as nat))), (k_difficulty(), JsonVal::Str(r.difficulty)), (k_tags(), JsonVal::Arr(strs_jv(r.tags))), (k_dietary(), JsonVal::Arr(strs_jv(r.dietary_info))), (k_created(), JsonVal::Num(dec_tok(r.created_at as nat))), (k_updated(), JsonVal::Num(dec_tok(r.updated_at as nat)))]);
    let ms2 = ms1.subrange(1, ms1.len() as int);
    assert(ms2 =~= seq![(k_description(), opt_str_jv(r.description)), (k_ingredients(), JsonVal::Arr(ings_jv(r.ingredients))), (k_instructions(), JsonVal::Arr(steps_jv(r.instructions))), (k_servings(), JsonVal::Num(dec_tok(r.servings as nat))), (k_prep(), JsonVal::Num(dec_tok(r.prep_time_mins as nat))), (k_cook(), JsonVal::Num(dec_tok(r.cook_time_mins as nat))), (k_difficulty(), JsonVal::Str(r.difficulty)), (k_tags(), JsonVal::Arr(strs_jv(r.tags))), (k_dietary(), JsonVal::Arr(strs_jv(r.dietary_info))), (k_created(), JsonVal::Num(dec_tok(r.created_at as nat))), (k_updated(), JsonVal::Num(dec_tok(r.updated_at as nat)))]);
    let ms3 = ms2.subrange(1, ms2.len() as int);
    assert(ms3 =~= seq![(k_ingredients(), JsonVal::Arr(ings_jv(r.ingredients))), (k_instructions(), JsonVal::Arr(steps_jv(r.instructions))), (k_servings(), JsonVal::Num(dec_tok(r.servings as nat))), (k_prep(), JsonVal::Num(dec_tok(r.prep_time_mins as nat))), (k_cook(), JsonVal::Num(dec_tok(r.cook_time_mins as nat))), (k_difficulty(), JsonVal::Str(r.difficulty)), (k_tags(), JsonVal::Arr(strs_jv(r.tags))), (k_dietary(), JsonVal::Arr(strs_jv(r.dietary_info))), (k_created(), JsonVal::Num(dec_tok(r.created_at as nat))), (k_updated(), JsonVal::Num(dec_tok(r.updated_at as nat)))]);
    let ms4 = ms3.subrange(1, ms3.len() as int);
    assert(ms4 =~= seq![(k_instructions(), JsonVal::Arr(steps_jv(r.instructions))), (k_servings(), JsonVal::Num(dec_tok(r.servings as nat))), (k_prep(), JsonVal::Num(dec_tok(r.prep_time_mins as nat))), (k_cook(), JsonVal::Num(dec_tok(r.cook_time_mins as nat))), (k_difficulty(), JsonVal::Str(r.difficulty)), (k_tags(), JsonVal::Arr(strs_jv(r.tags))), (k_dietary(), JsonVal::Arr(strs_jv(r.dietary_info))), (k_created(), JsonVal::Num(dec_tok(r.created_at as nat))), (k_updated(), JsonVal::Num(dec_tok(r.updated_at as nat)))]);
    let ms5 = ms4.subrange(1, ms4.len() as int);
    assert(ms5 =~= seq![(k_servings(), JsonVal::Num(dec_tok(r.servings as nat))), (k_prep(), JsonVal::Num(dec_tok(r.prep_time_mins as nat))), (k_cook(), JsonVal::Num(dec_tok(r.cook_time_mins as nat))), (k_difficulty(), JsonVal::Str(r.difficulty)), (k_tags(), JsonVal::Arr(strs_jv(r.tags))), (k_dietary(), JsonVal::Arr(strs_jv(r.dietary_info))), (k_created(), JsonVal::Num(dec_tok(r.created_at as nat))), (k_updated(), JsonVal::Num(dec_tok(r.updated_at as nat)))]);
    let ms6 = ms5.subrange(1, ms5.len() as int);
    assert(ms6 =~= seq![(k_prep(), JsonVal::Num(dec_tok(r.prep_time_mins as nat))), (k_cook(), JsonVal::Num(dec_tok(r.cook_time_mins as nat))), (k_difficulty(), JsonVal::Str(r.difficulty)), (k_tags(), JsonVal::Arr(strs_jv(r.tags))), (k_dietary(), JsonVal::Arr(strs_jv(r.dietary_info))), (k_created(), JsonVal::Num(dec_tok(r.created_at as nat))), (k_updated(), JsonVal::Num(dec_tok(r.updated_at as nat)))]);
    let ms7 = ms6.subrange(1, ms6.len() as int);
    assert(ms7 =~= seq![(k_cook(), JsonVal::Num(dec_tok(r.cook_time_mins as nat))), (k_difficulty(), JsonVal::Str(r.difficulty)), (k_tags(), JsonVal::Arr(strs_jv(r.tags))), (k_dietary(), JsonVal::Arr(strs_jv(r.dietary_info))), (k_created(), JsonVal::Num(dec_tok(r.created_at as nat))), (k_updated(), JsonVal::Num(dec_tok(r.updated_at as nat)))]);
    let ms8 = ms7.subrange(1, ms7.len() as int);
    assert(ms8 =~= seq![(k_difficulty(), JsonVal::Str(r.difficulty)), (k_tags(), JsonVal::Arr(strs_jv(r.tags))), (k_dietary(), JsonVal::Arr(strs_jv(r.dietary_info))), (k_created(), JsonVal::Num(dec_tok(r.created_at as nat))), (k_updated(), JsonVal::Num(dec_tok(r.updated_at as nat)))]);
    let ms9 = ms8.subrange(1, ms8.len() as int);
    assert(ms9 =~= seq![(k_tags(), JsonVal::Arr(strs_jv(r.tags))), (k_dietary(), JsonVal::Arr(strs_jv(r.dietary_info))), (k_created(), JsonVal::Num(dec_tok(r.created_at as nat))), (k_updated(), JsonVal::Num(dec_tok(r.updated_at as nat)))]);
    let ms10 = ms9.subrange(1, ms9.len() as int);
    assert(ms10 =~= seq![(k_dietary(), JsonVal::Arr(strs_jv(r.dietary_info))), (k_created(), JsonVal::Num(dec_tok(r.created_at as nat))), (k_updated(), JsonVal::Num(dec_tok(r.updated_at as nat)))]);
    let ms11 = ms10.subrange(1, ms10.len() as int);
    assert(ms11 =~= seq![(k_created(), JsonVal::Num(dec_tok(r.created_at as nat))), (k_updated(), JsonVal::Num(dec_tok(r.updated_at as nat)))]);
    let ms12 = ms11.subrange(1, ms11.len() as int);
    assert(ms12 =~= seq![(k_updated(), JsonVal::Num(dec_tok(r.updated_at as nat)))]);
    assert(ms0[0] == (k_id(), JsonVal::Str(r.id)));
    assert(ms1[0] == (k_name(), JsonVal::Str(r.name)));
    assert(ms2[0] == (k_description(), opt_str_jv(r.description)));
    assert(ms3[0] == (k_ingredients(), JsonVal::Arr(ings_jv(r.ingredients))));
    assert(ms4[0] == (k_instructions(), JsonVal::Arr(steps_jv(r.instructions))));
    assert(ms5[0] == (k_servings(), JsonVal::Num(dec_tok(r.servings as nat))));
    assert(ms6[0] == (k_prep(), JsonVal::Num(dec_tok(r.prep_time_mins as nat))));
    assert(ms7[0] == (k_cook(), JsonVal::Num(dec_tok(r.cook_time_mins as nat))));
    assert(ms8[0] == (k_difficulty(), JsonVal::Str(r.difficulty)));
    assert(ms9[0] == (k_tags(), JsonVal::Arr(strs_jv(r.tags))));
    assert(ms10[0] == (k_dietary(), JsonVal::Arr(strs_jv(r.dietary_info))));
    assert(ms11[0] == (k_created(), JsonVal::Num(dec_tok(r.created_at as nat))));
    assert(ms12[0] == (k_updated(), JsonVal::Num(dec_tok(r.updated_at as nat))));
    assert(wf_json(JsonVal::Str(r.id)));
    assert(wf_json(JsonVal::Str(r.name)));
    assert(wf_json(opt_str_jv(r.description)));
    assert(wf_json(JsonVal::Arr(ings_jv(r.ingredients))));
    assert(wf_json(JsonVal::Arr(steps_jv(r.instructions))));
    assert(wf_json(JsonVal::Num(dec_tok(r.servings as nat))));
    assert(wf_json(JsonVal::Num(dec_tok(r.prep_time_mins as nat))));
    assert(wf_json(JsonVal::Num(dec_tok(r.cook_time_mins as nat))));
    assert(wf_json(JsonVal::Str(r.difficulty)));
    assert(wf_json(JsonVal::Arr(strs_jv(r.tags))));
    assert(wf_json(JsonVal::Arr(strs_jv(r.dietary_info))));
    assert(wf_json(JsonVal::Num(dec_tok(r.created_at as nat))));
    assert(wf_json(JsonVal::Num(dec_tok(r.updated_at as nat))));
    assert(wf_members(ms12.subrange(1, ms12.len() as int))) by {
        assert(ms12.subrange(1, ms12.len() as int) =~= Seq::<(Seq<char>, JsonVal)>::empty());
    }
    assert(wf_members(ms12));
    assert(wf_members(ms11));
    assert(wf_members(ms10));
    assert(wf_members(ms9));
    assert(wf_members(ms8));
    assert(wf_members(ms7));
    assert(wf_members(ms6));
    assert(wf_members(ms5));
    assert(wf_members(ms4));
    assert(wf_members(ms3));
    assert(wf_members(ms2));
    assert(wf_members(ms1));
    assert(wf_members(ms0));
}

// ---------------------------------------------------------------------------
// Extraction inverts construction
// ---------------------------------------------------------------------------

proof fn lemma_extract_ing(i: IngredientV)
    ensures
        ing_of_jv(ing_jv(i)) == Some(i),
{
    let ms0 = seq![(k_name(), JsonVal::Str(i.name)), (k_amount(), JsonVal::Num(i.amount)), (k_unit(), JsonVal::Str(i.unit)), (k_optional(), JsonVal::Bool(i.optional)), (k_notes(), opt_str_jv(i.notes))];
    let ms1 = ms0.subrange(1, ms0.len() as int);
    assert(ms1 =~= seq![(k_amount(), JsonVal::Num(i.amount)), (k_unit(), JsonVal::Str(i.unit)), (k_optional(), JsonVal::Bool(i.optional)), (k_notes(), opt_str_jv(i.notes))]);
    let ms2 = ms1.subrange(1, ms1.len() as int);
    assert(ms2 =~= seq![(k_unit(), JsonVal::Str(i.unit)), (k_optional(), JsonVal::Bool(i.optional)), (k_notes(), opt_str_jv(i.notes))]);
    let ms3 = ms2.subrange(1, ms2.len() as int);
    assert(ms3 =~= seq![(k_optional(), JsonVal::Bool(i.optional)), (k_notes(), opt_str_jv(i.notes))]);
    let ms4 = ms3.subrange(1, ms3.len() as int);
    assert(ms4 =~= seq![(k_notes(), opt_str_jv(i.notes))]);
    assert(k_unit() != k_name()) by {
        assert(k_unit()[0] == 'u' && k_name()[0] == 'n');
    }
    assert(ms0[0] == (k_name(), JsonVal::Str(i.name)));
    assert(ms1[0] == (k_amount(), JsonVal::Num(i.amount)));
    assert(ms2[0] == (k_unit(), JsonVal::Str(i.unit)));
    assert(ms3[0] == (k_optional(), JsonVal::Bool(i.optional)));
    assert(ms4[0] == (k_notes(), opt_str_jv(i.notes)));
    assert(jv_lookup(ms0, k_name()) == Some(JsonVal::Str(i.name)));
    assert(jv_lookup(ms1, k_amount()) == Some(JsonVal::Num(i.amount)));
    assert(jv_lookup(ms0, k_amount()) == Some(JsonVal::Num(i.amount)));
    assert(jv_lookup(ms2, k_unit()) == Some(JsonVal::Str(i.unit)));
    assert(jv_lookup(ms1, k_unit()) == Some(JsonVal::Str(i.unit)));
    assert(jv_lookup(ms0, k_unit()) == Some(JsonVal::Str(i.unit)));
    assert(jv_lookup(ms3, k_optional()) == Some(JsonVal::Bool(i.optional)));
    assert(jv_lookup(ms2, k_optional()) == Some(JsonVal::Bool(i.optional)));
    assert(jv_lookup(ms1, k_optional()) == Some(JsonVal::Bool(i.optional)));
    assert(jv_lookup(ms0, k_optional()) == Some(JsonVal::Bool(i.optional)));
    assert(jv_lookup(ms4, k_notes()) == Some(opt_str_jv(i.notes)));
    assert(jv_lookup(ms3, k_notes()) == Some(opt_str_jv(i.notes)));
    assert(jv_lookup(ms2, k_notes()) == Some(opt_str_jv(i.notes)));
    assert(jv_lookup(ms1, k_notes()) == Some(opt_str_jv(i.notes)));
    assert(jv_lookup(ms0, k_notes()) == Some(opt_str_jv(i.notes)));
}

proof fn lemma_extract_step(st: StepV)
    ensures
        step_of_jv(step_jv(st)) == Some(st),
{
    let ms0 = seq![(k_order(), JsonVal::Num(dec_tok(st.order as nat))), (k_instruction(), JsonVal::Str(st.instruction)), (k_duration(), opt_u32_jv(st.duration_mins))];
    let ms1 = ms0.subrange(1, ms0.len() as int);
    assert(ms1 =~= seq![(k_instruction(), JsonVal::Str(st.instruction)), (k_duration(), opt_u32_jv(st.duration_mins))]);
    let ms2 = ms1.subrange(1, ms1.len() as int);
    assert(ms2 =~= seq![(k_duration(), opt_u32_jv(st.duration_mins))]);
    assert(ms0[0] == (k_order(), JsonVal::Num(dec_tok(st.order as nat))));
    assert(ms1[0] == (k_instruction(), JsonVal::Str(st.instruction)));
    assert(ms2[0] == (k_duration(), opt_u32_jv(st.duration_mins)));
    assert(jv_lookup(ms0, k_order()) == Some(JsonVal::Num(dec_tok(st.order as nat))));
    assert(jv_lookup(ms1, k_instruction()) == Some(JsonVal::Str(st.instruction)));
    assert(jv_lookup(ms0, k_instruction()) == Some(JsonVal::Str(st.instruction)));
    assert(jv_lookup(ms2, k_duration()) == Some(opt_u32_jv(st.duration_mins)));
    assert(jv_lookup(ms1, k_duration()) == Some(opt_u32_jv(st.duration_mins)));
    assert(jv_lookup(ms0, k_duration()) == Some(opt_u32_jv(st.duration_mins)));
    lemma_tok_u64(st.order as u64);
    if st.duration_mins is Some {
        lemma_tok_u64(st.duration_mins.unwrap() as u64);
    }
}

proof fn lemma_extract_ings(s: Seq<IngredientV>)
    ensures
        ings_of_jv(ings_jv(s)) == Some(s),
    decreases s.len(),
{
    if s.len() == 0 {
        assert(ings_jv(s).len() == 0);
        assert(s =~= Seq::<IngredientV>::empty());
    } else {
        assert(ings_jv(s)[0] == ing_jv(s[0]));
        lemma_extract_ing(s[0]);
        assert(ings_jv(s).subrange(1, ings_jv(s).len() as int) =~= ings_jv(
            s.subrange(1, s.len() as int),
        ));
        lemma_extract_ings(s.subrange(1, s.len() as int));
        assert(seq![s[0]] + s.subrange(1, s.len() as int) =~= s);
    }
}

proof fn lemma_extract_steps(s: Seq<StepV>)
    ensures
        steps_of_jv(steps_jv(s)) == Some(s),
    decreases s.len(),
{
    if s.len() == 0 {
        assert(steps_jv(s).len() == 0);
        assert(s =~= Seq::<StepV>::empty());
    } else {
        assert(steps_jv(s)[0] == step_jv(s[0]));
        lemma_extract_step(s[0]);
        assert(steps_jv(s).subrange(1, steps_jv(s).len() as int) =~= steps_jv(
            s.subrange(1, s.len() as int),
        ));
        lemma_extract_steps(s.subrange(1, s.len() as int));
        assert(seq![s[0]] + s.subrange(1, s.len() as int) =~= s);
    }
}

proof fn lemma_extract_strs(ss: Seq<Seq<char>>)
    ensures
        strs_of_jv(strs_jv(ss)) == Some(ss),
    decreases ss.len(),
{
    if ss.len() == 0 {
        assert(strs_jv(ss).len() == 0);
        assert(ss =~= Seq::<Seq<char>>::empty());
    } else {
        assert(strs_jv(ss)[0] == JsonVal::Str(ss[0]));
        assert(strs_jv(ss).subrange(1, strs_jv(ss).len() as int) =~= strs_jv(
            ss.subrange(1, ss.len() as int),
        ));
        lemma_extract_strs(ss.subrange(1, ss.len() as int));
        assert(seq![ss[0]] + ss.subrange(1, ss.len() as int) =~= ss);
    }
}

/// Reading back the JSON object built from a recipe yields that recipe.
#[verifier::rlimit(100)]
pub proof fn lemma_extract_recipe(r: RecipeV)
    ensures
        recipe_of_jv(recipe_jv(r)) == Some(r),
{
    let ms0 = seq![(k_id(), JsonVal::Str(r.id)), (k_name(), JsonVal::Str(r.name)), (k_description(), opt_str_jv(r.description)), (k_ingredients(), JsonVal::Arr(ings_jv(r.ingredients))), (k_instructions(), JsonVal::Arr(steps_jv(r.instructions))), (k_servings(), JsonVal::Num(dec_tok(r.servings as nat))), (k_prep(), JsonVal::Num(dec_tok(r.prep_time_mins as nat))), (k_cook(), JsonVal::Num(dec_tok(r.cook_time_mins as nat))), (k_difficulty(), JsonVal::Str(r.difficulty)), (k_tags(), JsonVal::Arr(strs_jv(r.tags))), (k_dietary(), JsonVal::Arr(strs_jv(r.dietary_info))), (k_created(), JsonVal::Num(dec_tok(r.created_at as nat))), (k_updated(), JsonVal::Num(dec_tok(r.updated_at as nat)))];
    let ms1 = ms0.subrange(1, ms0.len() as int);
    assert(ms1 =~= seq![(k_name(), JsonVal::Str(r.name)), (k_description(), opt_str_jv(r.description)), (k_ingredients(), JsonVal::Arr(ings_jv(r.ingredients))), (k_instructions(), JsonVal::Arr(steps_jv(r.instructions))), (k_servings(), JsonVal::Num(dec_tok(r.servings as nat))), (k_prep(), JsonVal::Num(dec_tok(r.prep_time_mins as nat))), (k_cook(), JsonVal::Num(dec_tok(r.cook_time_mins as nat))), (k_difficulty(), JsonVal::Str(r.difficulty)), (k_tags(), JsonVal::Arr(strs_jv(r.tags))), (k_dietary(), JsonVal::Arr(strs_jv(r.dietary_info))), (k_created(), JsonVal::Num(dec_tok(r.created_at as nat))), (k_updated(), JsonVal::Num(dec_tok(r.updated_at as nat)))]);
    let ms2 = ms1.subrange(1, ms1.len() as int);
    assert(ms2 =~= seq![(k_description(), opt_str_jv(r.description)), (k_ingredients(), JsonVal::Arr(ings_jv(r.ingredients))), (k_instructions(), JsonVal::Arr(steps_jv(r.instructions))), (k_servings(), JsonVal::Num(dec_tok(r.servings as nat))), (k_prep(), JsonVal::Num(dec_tok(r.prep_time_mins as nat))), (k_cook(), JsonVal::Num(dec_tok(r.cook_time_mins as nat))), (k_difficulty(), JsonVal::Str(r.difficulty)), (k_tags(), JsonVal::Arr(strs_jv(r.tags))), (k_dietary(), JsonVal::Arr(strs_jv(r.dietary_info))), (k_created(), JsonVal::Num(dec_tok(r.created_at as nat))), (k_updated(), JsonVal::Num(dec_tok(r.updated_at as nat)))]);
    let ms3 = ms2.subrange(1, ms2.len() as int);
    assert(ms3 =~= seq![(k_ingredients(), JsonVal::Arr(ings_jv(r.ingredients))), (k_instructions(), JsonVal::Arr(steps_jv(r.instructions))), (k_servings(), JsonVal::Num(dec_tok(r.servings as nat))), (k_prep(), JsonVal::Num(dec_tok(r.prep_time_mins as nat))), (k_cook(), JsonVal::Num(dec_tok(r.cook_time_mins as nat))), (k_difficulty(), JsonVal::Str(r.difficulty)), (k_tags(), JsonVal::Arr(strs_jv(r.tags))), (k_dietary(), JsonVal::Arr(strs_jv(r.dietary_info))), (k_created(), JsonVal::Num(dec_tok(r.created_at as nat))), (k_updated(), JsonVal::Num(dec_tok(r.updated_at as nat)))]);
    let ms4 = ms3.subrange(1, ms3.len() as int);
    assert(ms4 =~= seq![(k_instructions(), JsonVal::Arr(steps_jv(r.instructions))), (k_servings(), JsonVal::Num(dec_tok(r.servings as nat))), (k_prep(), JsonVal::Num(dec_tok(r.prep_time_mins as nat))), (k_cook(), JsonVal::Num(dec_tok(r.cook_time_mins as nat))), (k_difficulty(), JsonVal::Str(r.difficulty)), (k_tags(), JsonVal::Arr(strs_jv(r.tags))), (k_dietary(), JsonVal::Arr(strs_jv(r.dietary_info))), (k_created(), JsonVal::Num(dec_tok(r.created_at as nat))), (k_updated(), JsonVal::Num(dec_tok(r.updated_at as nat)))]);
    let ms5 = ms4.subrange(1, ms4.len() as int);
    assert(ms5 =~= seq![(k_servings(), JsonVal::Num(dec_tok(r.servings as nat))), (k_prep(), JsonVal::Num(dec_tok(r.prep_time_mins as nat))), (k_cook(), JsonVal::Num(dec_tok(r.cook_time_mins as nat))), (k_difficulty(), JsonVal::Str(r.difficulty)), (k_tags(), JsonVal::Arr(strs_jv(r.tags))), (k_dietary(), JsonVal::Arr(strs_jv(r.dietary_info))), (k_created(), JsonVal::Num(dec_tok(r.created_at as nat))), (k_updated(), JsonVal::Num(dec_tok(r.updated_at as nat)))]);
    let ms6 = ms5.subrange(1, ms5.len() as int);
    assert(ms6 =~= seq![(k_prep(), JsonVal::Num(dec_tok(r.prep_time_mins as nat))), (k_cook(), JsonVal::Num(dec_tok(r.cook_time_mins as nat))), (k_difficulty(), JsonVal::Str(r.difficulty)), (k_tags(), JsonVal::Arr(strs_jv(r.tags))), (k_dietary(), JsonVal::Arr(strs_jv(r.dietary_info))), (k_created(), JsonVal::Num(dec_tok(r.created_at as nat))), (k_updated(), JsonVal::Num(dec_tok(r.updated_at as nat)))]);
    let ms7 = ms6.subrange(1, ms6.len() as int);
    assert(ms7 =~= seq![(k_cook(), JsonVal::Num(dec_tok(r.cook_time_mins as nat))), (k_difficulty(), JsonVal::Str(r.difficulty)), (k_tags(), JsonVal::Arr(strs_jv(r.tags))), (k_dietary(), JsonVal::Arr(strs_jv(r.dietary_info))), (k_created(), JsonVal::Num(dec_tok(r.created_at as nat))), (k_updated(), JsonVal::Num(dec_tok(r.updated_at as nat)))]);
    let ms8 = ms7.subrange(1, ms7.len() as int);
    assert(ms8 =~= seq![(k_difficulty(), JsonVal::Str(r.difficulty)), (k_tags(), JsonVal::Arr(strs_jv(r.tags))), (k_dietary(), JsonVal::Arr(strs_jv(r.dietary_info))), (k_created(), JsonVal::Num(dec_tok(r.created_at as nat))), (k_updated(), JsonVal::Num(dec_tok(r.updated_at as nat)))]);
    let ms9 = ms8.subrange(1, ms8.len() as int);
    assert(ms9 =~= seq![(k_tags(), JsonVal::Arr(strs_jv(r.tags))), (k_dietary(), JsonVal::Arr(strs_jv(r.dietary_info))), (k_created(), JsonVal::Num(dec_tok(r.created_at as nat))), (k_updated(), JsonVal::Num(dec_tok(r.updated_at as nat)))]);
    let ms10 = ms9.subrange(1, ms9.len() as int);
    assert(ms10 =~= seq![(k_dietary(), JsonVal::Arr(strs_jv(r.dietary_info))), (k_created(), JsonVal::Num(dec_tok(r.created_at as nat))), (k_updated(), JsonVal::Num(dec_tok(r.updated_at as nat)))]);
    let ms11 = ms10.subrange(1, ms10.len() as int);
    assert(ms11 =~= seq![(k_created(), JsonVal::Num(dec_tok(r.created_at as nat))), (k_updated(), JsonVal::Num(dec_tok(r.updated_at as nat)))]);
    let ms12 = ms11.subrange(1, ms11.len() as int);
    assert(ms12 =~= seq![(k_updated(), JsonVal::Num(dec_tok(r.updated_at as nat)))]);
    assert(k_name() != k_tags()) by {
        assert(k_name()[0] == 'n' && k_tags()[0] == 't');
    }
    assert(k_ingredients() != k_description()) by {
        assert(k_ingredients()[1] == 'n' && k_description()[1] == 'e');
    }
    assert(k_instructions() != k_dietary()) by {
        assert(k_instructions().len() == 12 && k_dietary().len() == 12);
        assert(k_instructions()[0] == 'i' && k_dietary()[0] == 'd');
    }
    assert(k_difficulty() != k_created()) by {
        assert(k_difficulty()[0] == 'd' && k_created()[0] == 'c');
    }
    assert(k_difficulty() != k_updated()) by {
        assert(k_difficulty()[0] == 'd' && k_updated()[0] == 'u');
    }
    assert(k_created() != k_updated()) by {
        assert(k_created()[0] == 'c' && k_updated()[0] == 'u');
    }
    assert(k_prep() != k_cook()) by {
        assert(k_prep()[0] == 'p' && k_cook()[0] == 'c');
    }
    assert(ms0[0] == (k_id(), JsonVal::Str(r.id)));
    assert(ms1[0] == (k_name(), JsonVal::Str(r.name)));
    assert(ms2[0] == (k_description(), opt_str_jv(r.description)));
    assert(ms3[0] == (k_ingredients(), JsonVal::Arr(ings_jv(r.ingredients))));
    assert(ms4[0] == (k_instructions(), JsonVal::Arr(steps_jv(r.instructions))));
    assert(ms5[0] == (k_servings(), JsonVal::Num(dec_tok(r.servings as nat))));
    assert(ms6[0] == (k_prep(), JsonVal::Num(dec_tok(r.prep_time_mins as nat))));
    assert(ms7[0] == (k_cook(), JsonVal::Num(dec_tok(r.cook_time_mins as nat))));
    assert(ms8[0] == (k_difficulty(), JsonVal::Str(r.difficulty)));
    assert(ms9[0] == (k_tags(), JsonVal::Arr(strs_jv(r.tags))));
    assert(ms10[0] == (k_dietary(), JsonVal::Arr(strs_jv(r.dietary_info))));
    assert(ms11[0] == (k_created(), JsonVal::Num(dec_tok(r.created_at as nat))));
    assert(ms12[0] == (k_updated(), JsonVal::Num(dec_tok(r.updated_at as nat))));
    assert(jv_lookup(ms0, k_id()) == Some(JsonVal::Str(r.id)));
    assert(jv_lookup(ms1, k_name()) == Some(JsonVal::Str(r.name)));
    assert(jv_lookup(ms0, k_name()) == Some(JsonVal::Str(r.name)));
    assert(jv_lookup(ms2, k_description()) == Some(opt_str_jv(r.description)));
    assert(jv_lookup(ms1, k_description()) == Some(opt_str_jv(r.description)));
    assert(jv_lookup(ms0, k_description()) == Some(opt_str_jv(r.description)));
    assert(jv_lookup(ms3, k_ingredients()) == Some(JsonVal::Arr(ings_jv(r.ingredients))));
    assert(jv_lookup(ms2, k_ingredients()) == Some(JsonVal::Arr(ings_jv(r.ingredients))));
    assert(jv_lookup(ms1, k_ingredients()) == Some(JsonVal::Arr(ings_jv(r.ingredients))));
    assert(jv_lookup(ms0, k_ingredients()) == Some(JsonVal::Arr(ings_jv(r.ingredients))));
    assert(jv_lookup(ms4, k_instructions()) == Some(JsonVal::Arr(steps_jv(r.instructions))));
    assert(jv_lookup(ms3, k_instructions()) == Some(JsonVal::Arr(steps_jv(r.instructions))));
    assert(jv_lookup(ms2, k_instructions()) == Some(JsonVal::Arr(steps_jv(r.instructions))));
    assert(jv_lookup(ms1, k_instructions()) == Some(JsonVal::Arr(steps_jv(r.instructions))));
    assert(jv_lookup(ms0, k_instructions()) == Some(JsonVal::Arr(steps_jv(r.instructions))));
    assert(jv_lookup(ms5, k_servings()) == Some(JsonVal::Num(dec_tok(r.servings as nat))));
    assert(jv_lookup(ms4, k_servings()) == Some(JsonVal::Num(dec_tok(r.servings as nat))));
    assert(jv_lookup(ms3, k_servings()) == Some(JsonVal::Num(dec_tok(r.servings as nat))));
    assert(jv_lookup(ms2, k_servings()) == Some(JsonVal::Num(dec_tok(r.servings as nat))));
    assert(jv_lookup(ms1, k_servings()) == Some(JsonVal::Num(dec_tok(r.servings as nat))));
    assert(jv_lookup(ms0, k_servings()) == Some(JsonVal::Num(dec_tok(r.servings as nat))));
    assert(jv_lookup(ms6, k_prep()) == Some(JsonVal::Num(dec_tok(r.prep_time_mins as nat))));
    assert(jv_lookup(ms5, k_prep()) == Some(JsonVal::Num(dec_tok(r.prep_time_mins as nat))));
    assert(jv_lookup(ms4, k_prep()) == Some(JsonVal::Num(dec_tok(r.prep_time_mins as nat))));
    assert(jv_lookup(ms3, k_prep()) == Some(JsonVal::Num(dec_tok(r.prep_time_mins as nat))));
    assert(jv_lookup(ms2, k_prep()) == Some(JsonVal::Num(dec_tok(r.prep_time_mins as nat))));
    assert(jv_lookup(ms1, k_prep()) == Some(JsonVal::Num(dec_tok(r.prep_time_mins as nat))));
    assert(jv_lookup(ms0, k_prep()) == Some(JsonVal::Num(dec_tok(r.prep_time_mins as nat))));
    assert(jv_lookup(ms7, k_cook()) == Some(JsonVal::Num(dec_tok(r.cook_time_mins as nat))));
    assert(jv_lookup(ms6, k_cook()) == Some(JsonVal::Num(dec_tok(r.cook_time_mins as nat))));
    assert(jv_lookup(ms5, k_cook()) == Some(JsonVal::Num(dec_tok(r.cook_time_mins as nat))));
    assert(jv_lookup(ms4, k_cook()) == Some(JsonVal::Num(dec_tok(r.cook_time_mins as nat))));
    assert(jv_lookup(ms3, k_cook()) == Some(JsonVal::Num(dec_tok(r.cook_time_mins as nat))));
    assert(jv_lookup(ms2, k_cook()) == Some(JsonVal::Num(dec_tok(r.cook_time_mins as nat))));
    assert(jv_lookup(ms1, k_cook()) == Some(JsonVal::Num(dec_tok(r.cook_time_mins as nat))));
    assert(jv_lookup(ms0, k_cook()) == Some(JsonVal::Num(dec_tok(r.cook_time_mins as nat))));
    assert(jv_lookup(ms8, k_difficulty()) == Some(JsonVal::Str(r.difficulty)));
    assert(jv_lookup(ms7, k_difficulty()) == Some(JsonVal::Str(r.difficulty)));
    assert(jv_lookup(ms6, k_difficulty()) == Some(JsonVal::Str(r.difficulty)));
    assert(jv_lookup(ms5, k_difficulty()) == Some(JsonVal::Str(r.difficulty)));
    assert(jv_lookup(ms4, k_difficulty()) == Some(JsonVal::Str(r.difficulty)));
    assert(jv_lookup(ms3, k_difficulty()) == Some(JsonVal::Str(r.difficulty)));
    assert(jv_lookup(ms2, k_difficulty()) == Some(JsonVal::Str(r.difficulty)));
    assert(jv_lookup(ms1, k_difficulty()) == Some(JsonVal::Str(r.difficulty)));
    assert(jv_lookup(ms0, k_difficulty()) == Some(JsonVal::Str(r.difficulty)));
    assert(jv_lookup(ms9, k_tags()) == Some(JsonVal::Arr(strs_jv(r.tags))));
    assert(jv_lookup(ms8, k_tags()) == Some(JsonVal::Arr(strs_jv(r.tags))));
    assert(jv_lookup(ms7, k_tags()) == Some(JsonVal::Arr(strs_jv(r.tags))));
    assert(jv_lookup(ms6, k_tags()) == Some(JsonVal::Arr(strs_jv(r.tags))));
    assert(jv_lookup(ms5, k_tags()) == Some(JsonVal::Arr(strs_jv(r.tags))));
    assert(jv_lookup(ms4, k_tags()) == Some(JsonVal::Arr(strs_jv(r.tags))));
    assert(jv_lookup(ms3, k_tags()) == Some(JsonVal::Arr(strs_jv(r.tags))));
    assert(jv_lookup(ms2, k_tags()) == Some(JsonVal::Arr(strs_jv(r.tags))));
    assert(jv_lookup(ms1, k_tags()) == Some(JsonVal::Arr(strs_jv(r.tags))));
    assert(jv_lookup(ms0, k_tags()) == Some(JsonVal::Arr(strs_jv(r.tags))));
    assert(jv_lookup(ms10, k_dietary()) == Some(JsonVal::Arr(strs_jv(r.dietary_info))));
    assert(jv_lookup(ms9, k_dietary()) == Some(JsonVal::Arr(strs_jv(r.dietary_info))));
    assert(jv_lookup(ms8, k_dietary()) == Some(JsonVal::Arr(strs_jv(r.dietary_info))));
    assert(jv_lookup(ms7, k_dietary()) == Some(JsonVal::Arr(strs_jv(r.dietary_info))));
    assert(jv_lookup(ms6, k_dietary()) == Some(JsonVal::Arr(strs_jv(r.dietary_info))));
    assert(jv_lookup(ms5, k_dietary()) == Some(JsonVal::Arr(strs_jv(r.dietary_info))));
    assert(jv_lookup(ms4, k_dietary()) == Some(JsonVal::Arr(strs_jv(r.dietary_info))));
    assert(jv_lookup(ms3, k_dietary()) == Some(JsonVal::Arr(strs_jv(r.dietary_info))));
    assert(jv_lookup(ms2, k_dietary()) == Some(JsonVal::Arr(strs_jv(r.dietary_info))));
    assert(jv_lookup(ms1, k_dietary()) == Some(JsonVal::Arr(strs_jv(r.dietary_info))));
    assert(jv_lookup(ms0, k_dietary()) == Some(JsonVal::Arr(strs_jv(r.dietary_info))));
    assert(jv_lookup(ms11, k_created()) == Some(JsonVal::Num(dec_tok(r.created_at as nat))));
    assert(jv_lookup(ms10, k_created()) == Some(JsonVal::Num(dec_tok(r.created_at as nat))));
    assert(jv_lookup(ms9, k_created()) == Some(JsonVal::Num(dec_tok(r.created_at as nat))));
    assert(jv_lookup(ms8, k_created()) == Some(JsonVal::Num(dec_tok(r.created_at as nat))));
    assert(jv_lookup(ms7, k_created()) == Some(JsonVal::Num(dec_tok(r.created_at as nat))));
    assert(jv_lookup(ms6, k_created()) == Some(JsonVal::Num(dec_tok(r.created_at as nat))));
    assert(jv_lookup(ms5, k_created()) == Some(JsonVal::Num(dec_tok(r.created_at as nat))));
    assert(jv_lookup(ms4, k_created()) == Some(JsonVal::Num(dec_tok(r.created_at as nat))));
    assert(jv_lookup(ms3, k_created()) == Some(JsonVal::Num(dec_tok(r.created_at as nat))));
    assert(jv_lookup(ms2, k_created()) == Some(JsonVal::Num(dec_tok(r.created_at as nat))));
    assert(jv_lookup(ms1, k_created()) == Some(JsonVal::Num(dec_tok(r.created_at as nat))));
    assert(jv_lookup(ms0, k_created()) == Some(JsonVal::Num(dec_tok(r.created_at as nat))));
    assert(jv_lookup(ms12, k_updated()) == Some(JsonVal::Num(dec_tok(r.updated_at as nat))));
    assert(jv_lookup(ms11, k_updated()) == Some(JsonVal::Num(dec_tok(r.updated_at as nat))));
    assert(jv_lookup(ms10, k_updated()) == Some(JsonVal::Num(dec_tok(r.updated_at as nat))));
    assert(jv_lookup(ms9, k_updated()) == Some(JsonVal::Num(dec_tok(r.updated_at as nat))));
    assert(jv_lookup(ms8, k_updated()) == Some(JsonVal::Num(dec_tok(r.updated_at as nat))));
    assert(jv_lookup(ms7, k_updated()) == Some(JsonVal::Num(dec_tok(r.updated_at as nat))));
    assert(jv_lookup(ms6, k_updated()) == Some(JsonVal::Num(dec_tok(r.updated_at as nat))));
    assert(jv_lookup(ms5, k_updated()) == Some(JsonVal::Num(dec_tok(r.updated_at as nat))));
    assert(jv_lookup(ms4, k_updated()) == Some(JsonVal::Num(dec_tok(r.updated_at as nat))));
    assert(jv_lookup(ms3, k_updated()) == Some(JsonVal::Num(dec_tok(r.updated_at as nat))));
    assert(jv_lookup(ms2, k_updated()) == Some(JsonVal::Num(dec_tok(r.updated_at as nat))));
    assert(jv_lookup(ms1, k_updated()) == Some(JsonVal::Num(dec_tok(r.updated_at as nat))));
    assert(jv_lookup(ms0, k_updated()) == Some(JsonVal::Num(dec_tok(r.updated_at as nat))));
    lemma_extract_ings(r.ingredients);
    lemma_extract_steps(r.instructions);
    lemma_extract_strs(r.tags);
    lemma_extract_strs(r.dietary_info);
    lemma_tok_u64(r.servings as u64);
    lemma_tok_u64(r.prep_time_mins as u64);
    lemma_tok_u64(r.cook_time_mins as u64);
    lemma_tok_u64(r.created_at);
    lemma_tok_u64(r.updated_at);
}

/// Round trip: decoding the encoding of any well-formed recipe yields
/// exactly that recipe, every field included.
pub proof fn lemma_codec_roundtrip(r: RecipeV)
    requires
        wf_recipe(r),
    ensures
        spec_decode(spec_encode(r)) == Some(r),
{
    lemma_wf_recipe_jv(r);
    lemma_parse_ser(recipe_jv(r));
    lemma_extract_recipe(r);
}

// ---------------------------------------------------------------------------
// Keys and the index blob
// ---------------------------------------------------------------------------

/// A record key is never the index key.
proof fn lemma_keys_disjoint(id: Seq<char>)
    ensures
        rec_key(id) != idx_key(),
{
    assert(rec_key(id)[0] == 'r');
    assert(idx_key()[0] == '_');
}

/// Distinct IDs have distinct record keys.
proof fn lemma_rec_key_inj(a: Seq<char>, b: Seq<char>)
    requires
        rec_key(a) == rec_key(b),
    ensures
        a == b,
{
    assert(rec_key(a).len() == 7 + a.len());
    assert(rec_key(b).len() == 7 + b.len());
    assert forall|i: int| 0 <= i < a.len() implies a[i] == b[i] by {
        assert(rec_key(a)[7 + i] == a[i]);
        assert(rec_key(b)[7 + i] == b[i]);
    }
    assert(a =~= b);
}

/// The stored index blob reads back as exactly its ID list.
proof fn lemma_ids_roundtrip(ids: Seq<Seq<char>>)
    ensures
        parse_json(ids_blob(ids)) == Some(JsonVal::Arr(strs_jv(ids))),
        ids_of_jv(JsonVal::Arr(strs_jv(ids))) == ids,
{
    lemma_wf_strs(ids);
    assert(wf_json(JsonVal::Arr(strs_jv(ids))));
    lemma_parse_ser(JsonVal::Arr(strs_jv(ids)));
    lemma_extract_strs(ids);
}

/// After writing the blob of `ids` under the index key, the index is `ids`.
proof fn lemma_index_after_write(m: Map<Seq<char>, Seq<char>>, ids: Seq<Seq<char>>)
    ensures
        spec_index(m.insert(idx_key(), ids_blob(ids))) == ids,
{
    lemma_ids_roundtrip(ids);
}

/// Writing a record key does not move the index.
proof fn lemma_index_stable(m: Map<Seq<char>, Seq<char>>, id: Seq<char>, v: Seq<char>)
    ensures
        spec_index(m.insert(rec_key(id), v)) == spec_index(m),
{
    lemma_keys_disjoint(id);
}

/// Nothing survives its own removal.
proof fn lemma_remove_all_gone(ids: Seq<Seq<char>>, id: Seq<char>)
    ensures
        !remove_all(ids, id).contains(id),
    decreases ids.len(),
{
    if ids.len() > 0 {
        lemma_remove_all_gone(ids.subrange(1, ids.len() as int), id);
        let r = remove_all(ids, id);
        if r.contains(id) {
            let k = choose|k: int| 0 <= k < r.len() && r[k] == id;
            if ids[0] != id {
                if k == 0 {
                } else {
                    assert(r[k] == remove_all(ids.subrange(1, ids.len() as int), id)[k - 1]);
                }
            }
        }
    }
}

/// Removing an absent ID changes nothing.
proof fn lemma_remove_all_absent(ids: Seq<Seq<char>>, id: Seq<char>)
    requires
        !ids.contains(id),
    ensures
        remove_all(ids, id) == ids,
    decreases ids.len(),
{
    if ids.len() > 0 {
        assert(ids[0] != id);
        assert(!ids.subrange(1, ids.len() as int).contains(id)) by {
            if ids.subrange(1, ids.len() as int).contains(id) {
                let k = choose|k: int|
                    0 <= k < ids.subrange(1, ids.len() as int).len() && ids.subrange(
                        1,
                        ids.len() as int,
                    )[k] == id;
                assert(ids[k + 1] == id);
            }
        }
        lemma_remove_all_absent(ids.subrange(1, ids.len() as int), id);
        assert(seq![ids[0]] + ids.subrange(1, ids.len() as int) =~= ids);
    }
}

// ---------------------------------------------------------------------------
// Store laws
// ---------------------------------------------------------------------------

/// Create then get: after a create at time `now`, reading the returned ID
/// yields the stored recipe; its ID is that ID, and both timestamps are
/// `now`, hence equal and nonzero when the clock is.
pub proof fn lemma_create_then_get(m: Map<Seq<char>, Seq<char>>, payload: RecipeV, now: u64)
    requires
        wf_recipe(payload),
        now > 0,
    ensures
        ({
            let eff = effective_id(payload.id, now);
            let st = stamped(payload, now);
            let m1 = spec_add_id(m.insert(rec_key(eff), spec_encode(st)), eff);
            &&& spec_get(m1, eff) == Ok::<Option<RecipeV>, StoreError>(Some(st))
            &&& st.id == eff
            &&& st.created_at == st.updated_at
            &&& st.created_at != 0
        }),
{
    let eff = effective_id(payload.id, now);
    let st = stamped(payload, now);
    let mr = m.insert(rec_key(eff), spec_encode(st));
    let m1 = spec_add_id(mr, eff);
    lemma_keys_disjoint(eff);
    assert(m1.contains_key(rec_key(eff)));
    assert(m1[rec_key(eff)] == spec_encode(st));
    assert(wf_recipe(st));
    lemma_codec_roundtrip(st);
}

/// Delete removes both the record and the index entry: after a delete,
/// the ID reads back as not found and is gone from the index.
pub proof fn lemma_delete_removes(m: Map<Seq<char>, Seq<char>>, id: Seq<char>)
    ensures
        ({
            let m1 = spec_remove_id(m.remove(rec_key(id)), id);
            &&& spec_get(m1, id) == Ok::<Option<RecipeV>, StoreError>(None)
            &&& !spec_index(m1).contains(id)
        }),
{
    let mr = m.remove(rec_key(id));
    let m1 = spec_remove_id(mr, id);
    lemma_keys_disjoint(id);
    assert(!m1.contains_key(rec_key(id)));
    if mr.contains_key(idx_key()) {
        lemma_index_after_write(mr, remove_all(spec_index(mr), id));
        lemma_remove_all_gone(spec_index(mr), id);
    }
}

/// Deleting an ID that has no record and no index entry succeeds and leaves
/// every read unchanged: the ID still reads as not found, the index keeps
/// its IDs, and every other record reads as before.
pub proof fn lemma_delete_idempotent(m: Map<Seq<char>, Seq<char>>, id: Seq<char>)
    requires
        !m.contains_key(rec_key(id)),
        !spec_index(m).contains(id),
    ensures
        ({
            let m1 = spec_remove_id(m.remove(rec_key(id)), id);
            &&& spec_get(m1, id) == Ok::<Option<RecipeV>, StoreError>(None)
            &&& spec_index(m1) == spec_index(m)
            &&& forall|o: Seq<char>| o != id ==> spec_get(m1, o) == spec_get(m, o)
        }),
{
    let mr = m.remove(rec_key(id));
    let m1 = spec_remove_id(mr, id);
    assert(mr =~= m);
    lemma_keys_disjoint(id);
    if m.contains_key(idx_key()) {
        lemma_remove_all_absent(spec_index(m), id);
        lemma_index_after_write(m, spec_index(m));
        assert forall|o: Seq<char>| o != id implies spec_get(m1, o) == spec_get(m, o) by {
            lemma_keys_disjoint(o);
        }
    } else {
        assert(m1 =~= m);
    }
}

/// Update preserves the path ID: whatever ID the body carried, the stored
/// record reads back with the path's ID.
pub proof fn lemma_update_preserves_id(m: Map<Seq<char>, Seq<char>>, id: Seq<char>, payload: RecipeV)
    requires
        wf_recipe(payload),
    ensures
        ({
            let m1 = m.insert(rec_key(id), spec_encode(with_id(payload, id)));
            &&& spec_get(m1, id) == Ok::<Option<RecipeV>, StoreError>(Some(with_id(payload, id)))
            &&& with_id(payload, id).id == id
        }),
{
    let st = with_id(payload, id);
    assert(wf_recipe(st));
    lemma_codec_roundtrip(st);
}

/// An empty-ID create synthesizes a non-empty ID, deterministic in the
/// clock: `recipe_` followed by the decimal timestamp.
pub proof fn lemma_empty_id_create(payload_id: Seq<char>, now: u64)
    requires
        payload_id.len() == 0,
    ensures
        effective_id(payload_id, now) == synth_id(now),
        synth_id(now) == seq!['r', 'e', 'c', 'i', 'p', 'e', '_'] + dec_tok(now as nat),
        synth_id(now).len() >= 8,
{
    lemma_dec_tok_ok(now as nat);
}

/// Two creates against an empty bucket leave exactly the two IDs in the
/// index, once each, and both records retrievable as stored.
#[verifier::rlimit(100)]
pub proof fn lemma_two_creates(r1: RecipeV, r2: RecipeV, now1: u64, now2: u64)
    requires
        wf_recipe(r1),
        wf_recipe(r2),
        effective_id(r1.id, now1) != effective_id(r2.id, now2),
    ensures
        ({
            let id1 = effective_id(r1.id, now1);
            let id2 = effective_id(r2.id, now2);
            let st1 = stamped(r1, now1);
            let st2 = stamped(r2, now2);
            let m0 = Map::<Seq<char>, Seq<char>>::empty();
            let m1 = spec_add_id(m0.insert(rec_key(id1), spec_encode(st1)), id1);
            let m2 = spec_add_id(m1.insert(rec_key(id2), spec_encode(st2)), id2);
            &&& spec_index(m2) == seq![id1, id2]
            &&& spec_list(m2) == seq![st1, st2]
        }),
{
    let id1 = effective_id(r1.id, now1);
    let id2 = effective_id(r2.id, now2);
    let st1 = stamped(r1, now1);
    let st2 = stamped(r2, now2);
    let m0 = Map::<Seq<char>, Seq<char>>::empty();
    let ma = m0.insert(rec_key(id1), spec_encode(st1));
    lemma_keys_disjoint(id1);
    lemma_keys_disjoint(id2);
    lemma_rec_key_inj_contra(id1, id2);
    assert(spec_index(ma) =~= Seq::<Seq<char>>::empty());
    assert(!spec_index(ma).contains(id1)) by {
        if spec_index(ma).contains(id1) {
            let k = choose|k: int|
                0 <= k < spec_index(ma).len() && spec_index(ma)[k] == id1;
        }
    }
    let m1 = spec_add_id(ma, id1);
    assert(m1 == ma.insert(idx_key(), ids_blob(spec_index(ma).push(id1))));
    assert(spec_index(ma).push(id1) =~= seq![id1]);
    lemma_index_after_write(ma, seq![id1]);
    assert(spec_index(m1) == seq![id1]);
    let mb = m1.insert(rec_key(id2), spec_encode(st2));
    lemma_index_stable(m1, id2, spec_encode(st2));
    assert(spec_index(mb) == seq![id1]);
    assert(!spec_index(mb).contains(id2)) by {
        if spec_index(mb).contains(id2) {
            let k = choose|k: int|
                0 <= k < spec_index(mb).len() && spec_index(mb)[k] == id2;
            assert(spec_index(mb)[k] == id1);
        }
    }
    let m2 = spec_add_id(mb, id2);
    assert(m2 == mb.insert(idx_key(), ids_blob(seq![id1].push(id2))));
    assert(seq![id1].push(id2) =~= seq![id1, id2]);
    lemma_index_after_write(mb, seq![id1, id2]);
    assert(spec_index(m2) == seq![id1, id2]);
    // the two records are present and decode to the stamped recipes
    assert(m2.contains_key(rec_key(id1)));
    assert(m2[rec_key(id1)] == spec_encode(st1));
    assert(m2.contains_key(rec_key(id2)));
    assert(m2[rec_key(id2)] == spec_encode(st2));
    assert(wf_recipe(st1));
    assert(wf_recipe(st2));
    lemma_codec_roundtrip(st1);
    lemma_codec_roundtrip(st2);
    let ids = seq![id1, id2];
    assert(ids.subrange(1, 2) =~= seq![id2]);
    assert(seq![id2].subrange(1, 1) =~= Seq::<Seq<char>>::empty());
    assert(spec_list_ids(m2, Seq::<Seq<char>>::empty()) =~= Seq::<RecipeV>::empty());
    assert(spec_list_ids(m2, seq![id2]) == seq![st2] + Seq::<RecipeV>::empty());
    assert(spec_list_ids(m2, ids) == seq![st1] + (seq![st2] + Seq::<RecipeV>::empty()));
    assert(seq![st1] + (seq![st2] + Seq::<RecipeV>::empty()) =~= seq![st1, st2]);
}

/// Distinct IDs give distinct record keys, stated the useful way round.
proof fn lemma_rec_key_inj_contra(a: Seq<char>, b: Seq<char>)
    requires
        a != b,
    ensures
        rec_key(a) != rec_key(b),
{
    if rec_key(a) == rec_key(b) {
        lemma_rec_key_inj(a, b);
    }
}

} // verus!
