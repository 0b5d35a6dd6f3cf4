//! The recipe store: a key-value bucket holding one JSON record per recipe
//! under `recipe:<id>`, and the index of all IDs as a JSON array of strings
//! under the reserved key `_recipe_ids`.
//!
//! The record write and the index update are two separate bucket writes, in
//! that order; the contracts state the exact bucket contents after each
//! operation.

use vstd::prelude::*;
use vstd::hash_map::StringHashMap;
use crate::json::{JsonVal, parse_json, ser};
use crate::recipe::{
    Recipe, RecipeV, decode, encode, eq_str, spec_decode, spec_encode, str_chars, str_views,
    strs_from_list, strs_jv, strs_of_jv, u64_dec,
};
use crate::json::{Json, dec_tok, lmodel, jmodel, parse_json_x};

verus! {

/// The key-value bucket: string keys to string values.
pub struct Bucket {
    map: StringHashMap<String>,
}

impl View for Bucket {
    type V = Map<Seq<char>, Seq<char>>;

    closed spec fn view(&self) -> Map<Seq<char>, Seq<char>> {
        self.map@.map_values(|v: String| v@)
    }
}

impl Bucket {
    /// An empty bucket.
    pub fn new() -> (b: Bucket)
        ensures
            b@ == Map::<Seq<char>, Seq<char>>::empty(),
    {
        let b = Bucket { map: StringHashMap::new() };
        proof {
            assert(b@ =~= Map::<Seq<char>, Seq<char>>::empty());
        }
        b
    }

    /// Read one key.
    pub fn get(&self, k: &str) -> (r: Option<String>)
        ensures
            (r matches Some(v) ==> self@.contains_key(k@) && self@[k@] == v@),
            r is None ==> !self@.contains_key(k@),
    {
        match self.map.get(k) {
            Some(v) => Some(v.clone()),
            None => None,
        }
    }

    /// Write one key.
    pub fn set(&mut self, k: &str, v: String)
        ensures
            final(self)@ == old(self)@.insert(k@, v@),
    {
        let ghost vv = v@;
        self.map.insert(k.to_owned(), v);
        proof {
            assert(self@ =~= old(self)@.insert(k@, vv));
        }
    }

    /// Delete one key; deleting an absent key changes nothing.
    pub fn delete(&mut self, k: &str)
        ensures
            final(self)@ == old(self)@.remove(k@),
    {
        self.map.remove(k);
        proof {
            assert(self@ =~= old(self)@.remove(k@));
        }
    }
}

// ---------------------------------------------------------------------------
// Keys and the ID index
// ---------------------------------------------------------------------------

/// The reserved index key `_recipe_ids`.
pub open spec fn idx_key() -> Seq<char> {
    seq!['_', 'r', 'e', 'c', 'i', 'p', 'e', '_', 'i', 'd', 's']
}

/// The record key `recipe:<id>`.
pub open spec fn rec_key(id: Seq<char>) -> Seq<char> {
    seq!['r', 'e', 'c', 'i', 'p', 'e', ':'] + id
}

/// The stored form of the index: a JSON array of ID strings.
pub open spec fn ids_blob(ids: Seq<Seq<char>>) -> Seq<char> {
    ser(JsonVal::Arr(strs_jv(ids)))
}

/// The IDs held by an index value; anything but an array of strings counts
/// as an empty index (the index is derived data and reading it fails open).
pub open spec fn ids_of_jv(v: JsonVal) -> Seq<Seq<char>> {
    match v {
        JsonVal::Arr(es) => match strs_of_jv(es) {
            Some(ids) => ids,
            None => Seq::empty(),
        },
        _ => Seq::empty(),
    }
}

/// The index the bucket currently holds: absent or undecodable means empty.
pub open spec fn spec_index(m: Map<Seq<char>, Seq<char>>) -> Seq<Seq<char>> {
    if !m.contains_key(idx_key()) {
        Seq::empty()
    } else {
        match parse_json(m[idx_key()]) {
            Some(v) => ids_of_jv(v),
            None => Seq::empty(),
        }
    }
}

/// `ids` with every occurrence of `id` removed, order otherwise kept.
pub open spec fn remove_all(ids: Seq<Seq<char>>, id: Seq<char>) -> Seq<Seq<char>>
    decreases ids.len(),
{
    if ids.len() == 0 {
        Seq::empty()
    } else if ids[0] == id {
        remove_all(ids.subrange(1, ids.len() as int), id)
    } else {
        seq![ids[0]] + remove_all(ids.subrange(1, ids.len() as int), id)
    }
}

/// The bucket after an idempotent index add: unchanged when `id` is already
/// present, else the index is rewritten with `id` appended.
pub open spec fn spec_add_id(m: Map<Seq<char>, Seq<char>>, id: Seq<char>) -> Map<
    Seq<char>,
    Seq<char>,
> {
    if spec_index(m).contains(id) {
        m
    } else {
        m.insert(idx_key(), ids_blob(spec_index(m).push(id)))
    }
}

/// The bucket after an idempotent index remove: unchanged when no index is
/// stored, else the index is rewritten with every occurrence of `id` dropped.
pub open spec fn spec_remove_id(m: Map<Seq<char>, Seq<char>>, id: Seq<char>) -> Map<
    Seq<char>,
    Seq<char>,
> {
    if !m.contains_key(idx_key()) {
        m
    } else {
        m.insert(idx_key(), ids_blob(remove_all(spec_index(m), id)))
    }
}

fn idx_key_x() -> (s: String)
    ensures
        s@ == idx_key(),
{
    let s = String::from_str("_recipe_ids");
    proof {
        reveal_strlit("_recipe_ids");
        assert(s@ =~= idx_key());
    }
    s
}

/// The record key for an ID.
pub fn rec_key_x(id: &str) -> (s: String)
    ensures
        s@ == rec_key(id@),
{
    let mut s = String::from_str("recipe:");
    proof {
        reveal_strlit("recipe:");
        assert(s@ =~= seq!['r', 'e', 'c', 'i', 'p', 'e', ':']);
    }
    s.append(id);
    s
}

/// Load the ID index from the bucket; absent or undecodable data yields the
/// empty list.
pub fn load_ids(b: &Bucket) -> (r: Vec<String>)
    ensures
        str_views(r@) == spec_index(b@),
{
    let ik = idx_key_x();
    match b.get(ik.as_str()) {
        None => {
            let v: Vec<String> = Vec::new();
            proof {
                assert(str_views(v@) =~= spec_index(b@));
            }
            v
        },
        Some(blob) => {
            let chars = str_chars(blob.as_str());
            match parse_json_x(&chars) {
                Some(Json::Arr(l)) => match strs_from_list(&l) {
                    Some(v) => {
                        proof {
                            assert(jmodel(Json::Arr(l)) == JsonVal::Arr(lmodel(l)));
                            assert(str_views(v@) =~= spec_index(b@));
                        }
                        v
                    },
                    None => {
                        let v: Vec<String> = Vec::new();
                        proof {
                            assert(str_views(v@) =~= spec_index(b@));
                        }
                        v
                    },
                },
                Some(j) => {
                    let v: Vec<String> = Vec::new();
                    proof {
                        assert(str_views(v@) =~= spec_index(b@));
                    }
                    v
                },
                None => {
                    let v: Vec<String> = Vec::new();
                    proof {
                        assert(str_views(v@) =~= spec_index(b@));
                    }
                    v
                },
            }
        },
    }
}

/// Whether the list holds the ID.
fn contains_id(ids: &Vec<String>, id: &str) -> (r: bool)
    ensures
        r == str_views(ids@).contains(id@),
{
    let mut i: usize = 0;
    while i < ids.len()
        invariant
            0 <= i <= ids@.len(),
            forall|k: int| 0 <= k < i ==> str_views(ids@)[k] != id@,
        decreases ids@.len() - i,
    {
        if eq_str(ids[i].as_str(), id) {
            assert(str_views(ids@)[i as int] == id@);
            return true;
        }
        i = i + 1;
    }
    proof {
        if str_views(ids@).contains(id@) {
            let k = choose|k: int| 0 <= k < str_views(ids@).len() && str_views(ids@)[k] == id@;
            assert(str_views(ids@)[k] != id@);
        }
    }
    false
}

/// Serialize an ID list back into its stored form.
fn ids_to_blob(ids: &Vec<String>) -> (s: String)
    ensures
        s@ == ids_blob(str_views(ids@)),
{
    let l = crate::recipe::strs_json(ids);
    let j = Json::Arr(l);
    let chars = crate::json::json_to_chars(&j);
    proof {
        assert(jmodel(j) == JsonVal::Arr(strs_jv(str_views(ids@))));
    }
    crate::json::chars_to_string(chars)
}

/// Idempotent index add: append `id` only when absent, then persist; a
/// no-op when already present.
pub fn add_id(b: &mut Bucket, id: &str)
    ensures
        final(b)@ == spec_add_id(old(b)@, id@),
{
    let mut ids = load_ids(b);
    if contains_id(&ids, id) {
        return;
    }
    let ghost ids0 = str_views(ids@);
    ids.push(id.to_owned());
    proof {
        assert(str_views(ids@) =~= ids0.push(id@));
    }
    let blob = ids_to_blob(&ids);
    let ik = idx_key_x();
    b.set(ik.as_str(), blob);
}

/// Idempotent index remove: when an index is stored, rewrite it with every
/// occurrence of `id` dropped; a no-op when none is stored.
pub fn remove_id(b: &mut Bucket, id: &str)
    ensures
        final(b)@ == spec_remove_id(old(b)@, id@),
{
    let ik = idx_key_x();
    match b.get(ik.as_str()) {
        None => {},
        Some(_) => {
            let ids = load_ids(b);
            let ghost full = str_views(ids@);
            let mut out: Vec<String> = Vec::new();
            let mut i: usize = 0;
            proof {
                assert(full.subrange(0, full.len() as int) =~= full);
                assert(str_views(out@) =~= Seq::<Seq<char>>::empty());
            }
            while i < ids.len()
                invariant
                    0 <= i <= ids@.len(),
                    full == str_views(ids@),
                    remove_all(full, id@) == str_views(out@) + remove_all(
                        full.subrange(i as int, full.len() as int),
                        id@,
                    ),
                decreases ids@.len() - i,
            {
                let ghost rem = full.subrange(i as int, full.len() as int);
                proof {
                    assert(rem[0] == full[i as int]);
                    assert(rem.subrange(1, rem.len() as int) =~= full.subrange(
                        i + 1,
                        full.len() as int,
                    ));
                }
                let ghost out0 = str_views(out@);
                if !eq_str(ids[i].as_str(), id) {
                    out.push(ids[i].clone());
                    proof {
                        assert(str_views(out@) =~= out0.push(full[i as int]));
                        assert(out0.push(full[i as int]) =~= out0 + seq![full[i as int]]);
                        assert(str_views(out@) + remove_all(
                            full.subrange(i + 1, full.len() as int),
                            id@,
                        ) =~= out0 + (seq![full[i as int]] + remove_all(
                            full.subrange(i + 1, full.len() as int),
                            id@,
                        )));
                    }
                }
                i = i + 1;
            }
            proof {
                assert(full.subrange(ids@.len() as int, full.len() as int) =~= Seq::<
                    Seq<char>,
                >::empty());
                assert(str_views(out@) + Seq::<Seq<char>>::empty() =~= str_views(out@));
                assert(str_views(out@) == remove_all(full, id@));
            }
            let blob = ids_to_blob(&out);
            b.set(ik.as_str(), blob);
        },
    }
}

// ---------------------------------------------------------------------------
// CRUD operations
// ---------------------------------------------------------------------------

/// A stored record that should decode does not: data corruption or a schema
/// gap, surfaced as an internal failure.
#[derive(Clone, Copy, Debug, PartialEq, Eq, Structural)]
pub enum StoreError {
    DecodeError,
}

/// What reading one ID yields from a bucket.
pub open spec fn spec_get(m: Map<Seq<char>, Seq<char>>, id: Seq<char>) -> Result<
    Option<RecipeV>,
    StoreError,
> {
    if !m.contains_key(rec_key(id)) {
        Ok(None)
    } else {
        match spec_decode(m[rec_key(id)]) {
            Some(r) => Ok(Some(r)),
            None => Err(StoreError::DecodeError),
        }
    }
}

/// The model of an executable get result.
pub open spec fn get_model(r: Result<Option<Recipe>, StoreError>) -> Result<
    Option<RecipeV>,
    StoreError,
> {
    match r {
        Ok(None) => Ok(None),
        Ok(Some(rec)) => Ok(Some(rec@)),
        Err(e) => Err(e),
    }
}

/// Read one recipe: an absent key is not found, a present but undecodable
/// record is an internal decode failure.
pub fn get_recipe(b: &Bucket, id: &str) -> (r: Result<Option<Recipe>, StoreError>)
    ensures
        get_model(r) == spec_get(b@, id@),
{
    let k = rec_key_x(id);
    match b.get(k.as_str()) {
        None => Ok(None),
        Some(blob) => match decode(blob.as_str()) {
            Some(rec) => Ok(Some(rec)),
            None => Err(StoreError::DecodeError),
        },
    }
}

/// The recipes a listing yields for the given IDs: IDs whose record is
/// missing or undecodable are silently skipped.
pub open spec fn spec_list_ids(m: Map<Seq<char>, Seq<char>>, ids: Seq<Seq<char>>) -> Seq<RecipeV>
    decreases ids.len(),
{
    if ids.len() == 0 {
        Seq::empty()
    } else {
        let rest = spec_list_ids(m, ids.subrange(1, ids.len() as int));
        if m.contains_key(rec_key(ids[0])) && spec_decode(m[rec_key(ids[0])]) is Some {
            seq![spec_decode(m[rec_key(ids[0])]).unwrap()] + rest
        } else {
            rest
        }
    }
}

/// What listing the whole store yields, in index order.
pub open spec fn spec_list(m: Map<Seq<char>, Seq<char>>) -> Seq<RecipeV> {
    spec_list_ids(m, spec_index(m))
}

pub open spec fn recipe_views(v: Seq<Recipe>) -> Seq<RecipeV> {
    Seq::new(v.len(), |i: int| v[i]@)
}

/// List every recipe the index knows, best effort.
pub fn list_recipes(b: &Bucket) -> (r: Vec<Recipe>)
    ensures
        recipe_views(r@) == spec_list(b@),
{
    let ids = load_ids(b);
    let ghost full = str_views(ids@);
    let mut out: Vec<Recipe> = Vec::new();
    let mut i: usize = 0;
    proof {
        assert(full.subrange(0, full.len() as int) =~= full);
        assert(recipe_views(out@) =~= Seq::<RecipeV>::empty());
    }
    while i < ids.len()
        invariant
            0 <= i <= ids@.len(),
            full == str_views(ids@),
            full == spec_index(b@),
            spec_list_ids(b@, full) == recipe_views(out@) + spec_list_ids(
                b@,
                full.subrange(i as int, full.len() as int),
            ),
        decreases ids@.len() - i,
    {
        let ghost rem = full.subrange(i as int, full.len() as int);
        proof {
            assert(rem[0] == full[i as int]);
            assert(rem.subrange(1, rem.len() as int) =~= full.subrange(
                i + 1,
                full.len() as int,
            ));
        }
        let ghost out0 = recipe_views(out@);
        match get_recipe(b, ids[i].as_str()) {
            Ok(Some(rec)) => {
                let ghost rv = rec@;
                out.push(rec);
                proof {
                    assert(recipe_views(out@) =~= out0.push(rv));
                    assert(out0.push(rv) =~= out0 + seq![rv]);
                    assert(recipe_views(out@) + spec_list_ids(
                        b@,
                        full.subrange(i + 1, full.len() as int),
                    ) =~= out0 + (seq![rv] + spec_list_ids(
                        b@,
                        full.subrange(i + 1, full.len() as int),
                    )));
                }
            },
            _ => {},
        }
        i = i + 1;
    }
    proof {
        assert(full.subrange(ids@.len() as int, full.len() as int) =~= Seq::<Seq<char>>::empty());
        assert(recipe_views(out@) + Seq::<RecipeV>::empty() =~= recipe_views(out@));
    }
    out
}

/// The ID synthesized for an empty-ID create: `recipe_<timestamp>`.
pub open spec fn synth_id(now: u64) -> Seq<char> {
    seq!['r', 'e', 'c', 'i', 'p', 'e', '_'] + dec_tok(now as nat)
}

/// The ID a create stores under: the payload's own ID, or a synthesized one
/// when the payload's ID is empty.
pub open spec fn effective_id(payload_id: Seq<char>, now: u64) -> Seq<char> {
    if payload_id.len() == 0 {
        synth_id(now)
    } else {
        payload_id
    }
}

/// The record a create stores: the payload with its ID made effective and
/// both timestamps set to the server's clock.
pub open spec fn stamped(r: RecipeV, now: u64) -> RecipeV {
    RecipeV { id: effective_id(r.id, now), created_at: now, updated_at: now, ..r }
}

/// Create a recipe: write the record first, then add its ID to the index.
/// The current time is handed in by the caller.
pub fn create(b: &mut Bucket, payload: Recipe, now: u64) -> (id: String)
    ensures
        id@ == effective_id(payload.id@, now),
        final(b)@ == spec_add_id(
            old(b)@.insert(rec_key(effective_id(payload.id@, now)), spec_encode(stamped(payload@, now))),
            effective_id(payload.id@, now),
        ),
{
    let eff: String = if payload.id.as_str().unicode_len() == 0 {
        let mut s = String::from_str("recipe_");
        proof {
            reveal_strlit("recipe_");
            assert(s@ =~= seq!['r', 'e', 'c', 'i', 'p', 'e', '_']);
        }
        let d = u64_dec(now);
        s.append(d.as_str());
        s
    } else {
        payload.id.clone()
    };
    let rec = Recipe {
        id: eff.clone(),
        created_at: now,
        updated_at: now,
        ..payload
    };
    proof {
        assert(rec@ == stamped(payload@, now));
    }
    let blob = encode(&rec);
    let k = rec_key_x(eff.as_str());
    b.set(k.as_str(), blob);
    add_id(b, eff.as_str());
    eff
}

/// The payload with its ID forced to the given one.
pub open spec fn with_id(r: RecipeV, id: Seq<char>) -> RecipeV {
    RecipeV { id: id, ..r }
}

/// Replace a record wholesale. The body's ID is overridden by the path ID;
/// no existence check is made (updating an absent ID creates a record with
/// no index entry) and the client's timestamps are stored verbatim.
pub fn update(b: &mut Bucket, id: &str, payload: Recipe)
    ensures
        final(b)@ == old(b)@.insert(rec_key(id@), spec_encode(with_id(payload@, id@))),
{
    let rec = Recipe { id: id.to_owned(), ..payload };
    proof {
        assert(rec@ == with_id(payload@, id@));
    }
    let blob = encode(&rec);
    let k = rec_key_x(id);
    b.set(k.as_str(), blob);
}

/// Delete a record unconditionally, then drop its ID from the index.
/// Deleting an absent ID is a successful no-op.
pub fn delete(b: &mut Bucket, id: &str)
    ensures
        final(b)@ == spec_remove_id(old(b)@.remove(rec_key(id@)), id@),
{
    let k = rec_key_x(id);
    b.delete(k.as_str());
    remove_id(b, id);
}

} // verus!
