//! The request router and response encoder: maps (method, path, body) onto
//! a store operation and turns its outcome into a status code, a
//! content-type flag and a body.

use vstd::prelude::*;
use crate::json::{Json, JsonList, JsonVal, MemberList, jmodel, lmodel, mmodel, ser,
    chars_to_string, json_to_chars};
use crate::recipe::{
    Recipe, RecipeV, decode, encode, eq_str, recipe_json, recipe_jv, spec_decode, spec_encode,
    k_id,
};
use crate::store::{
    Bucket, StoreError, create, delete, effective_id, get_recipe, list_recipes, rec_key,
    recipe_views, spec_add_id, spec_get, spec_list, spec_remove_id, stamped, update,
    with_id,
};

verus! {

/// The request method, as far as the routing table cares.
#[derive(Clone, Copy, PartialEq, Eq, Structural)]
pub enum Method {
    Get,
    Post,
    Put,
    Delete,
    /// Any method outside the routing table.
    Other,
}

/// An outbound response: status code, whether the body is JSON (and the
/// `content-type: application/json` header is owed), and the body text.
pub struct Response {
    pub status: u16,
    pub json: bool,
    pub body: String,
}

// ---------------------------------------------------------------------------
// Path segmentation
// ---------------------------------------------------------------------------

/// Position of the first `?` at or after `pos`, or the end.
pub open spec fn qpos(s: Seq<char>, pos: int) -> int
    decreases s.len() - pos,
{
    if 0 <= pos < s.len() && s[pos] != '?' {
        qpos(s, pos + 1)
    } else {
        pos
    }
}

/// The non-empty `/`-separated segments of `s` from `pos`, with `cur` the
/// segment read so far.
pub open spec fn segs_acc(s: Seq<char>, pos: int, cur: Seq<char>) -> Seq<Seq<char>>
    decreases s.len() - pos,
{
    if pos < 0 || pos >= s.len() {
        if cur.len() > 0 {
            seq![cur]
        } else {
            Seq::empty()
        }
    } else if s[pos] == '/' {
        if cur.len() > 0 {
            seq![cur] + segs_acc(s, pos + 1, Seq::empty())
        } else {
            segs_acc(s, pos + 1, Seq::empty())
        }
    } else {
        segs_acc(s, pos + 1, cur.push(s[pos]))
    }
}

/// The path segments of a request target: the query string is discarded,
/// then the path split on `/` with empty segments dropped.
pub open spec fn spec_segments(t: Seq<char>) -> Seq<Seq<char>> {
    segs_acc(t.subrange(0, qpos(t, 0)), 0, Seq::empty())
}

pub open spec fn str_views2(v: Seq<String>) -> Seq<Seq<char>> {
    Seq::new(v.len(), |i: int| v[i]@)
}

fn qpos_x(t: &str) -> (r: usize)
    ensures
        r as int == qpos(t@, 0),
        r <= t@.len(),
{
    let n = t.unicode_len();
    let mut i: usize = 0;
    loop
        invariant
            n == t@.len(),
            0 <= i <= n,
            qpos(t@, 0) == qpos(t@, i as int),
        decreases n - i,
    {
        if i >= n {
            return i;
        }
        if t.get_char(i) == '?' {
            return i;
        }
        i = i + 1;
    }
}

/// Split a request target into its path segments.
pub fn segments(t: &str) -> (r: Vec<String>)
    ensures
        str_views2(r@) == spec_segments(t@),
{
    let q = qpos_x(t);
    let ghost path = t@.subrange(0, q as int);
    let mut out: Vec<String> = Vec::new();
    let mut cur: Vec<char> = Vec::new();
    let mut i: usize = 0;
    proof {
        assert(str_views2(out@) =~= Seq::<Seq<char>>::empty());
        assert(Seq::<Seq<char>>::empty() + segs_acc(path, 0, cur@) =~= segs_acc(path, 0, cur@));
        assert(cur@ =~= Seq::<char>::empty());
    }
    while i < q
        invariant
            q as int == qpos(t@, 0),
            q <= t@.len(),
            0 <= i <= q,
            path == t@.subrange(0, q as int),
            spec_segments(t@) == str_views2(out@) + segs_acc(path, i as int, cur@),
        decreases q - i,
    {
        let c = t.get_char(i);
        let ghost out0 = str_views2(out@);
        let ghost cur0 = cur@;
        proof {
            assert(path[i as int] == t@[i as int]);
        }
        if c == '/' {
            if cur.len() > 0 {
                let s = chars_to_string(cur);
                out.push(s);
                cur = Vec::new();
                proof {
                    assert(cur@ =~= Seq::<char>::empty());
                    assert(str_views2(out@) =~= out0.push(cur0));
                    assert(out0.push(cur0) =~= out0 + seq![cur0]);
                    assert(str_views2(out@) + segs_acc(path, i + 1 as int, cur@) =~= out0 + (
                    seq![cur0] + segs_acc(path, i + 1 as int, cur@)));
                }
            } else {
                proof {
                    assert(cur@ =~= Seq::<char>::empty());
                }
            }
        } else {
            cur.push(c);
            proof {
                assert(cur@ =~= cur0.push(path[i as int]));
            }
        }
        i = i + 1;
    }
    proof {
        assert(path.len() == q as int);
    }
    if cur.len() > 0 {
        let ghost out0 = str_views2(out@);
        let ghost cur0 = cur@;
        let s = chars_to_string(cur);
        out.push(s);
        proof {
            assert(segs_acc(path, path.len() as int, cur0) =~= seq![cur0]);
            assert(str_views2(out@) =~= out0.push(cur0));
            assert(out0.push(cur0) =~= out0 + seq![cur0]);
        }
    } else {
        proof {
            assert(segs_acc(path, path.len() as int, cur@) =~= Seq::<Seq<char>>::empty());
            assert(str_views2(out@) + Seq::<Seq<char>>::empty() =~= str_views2(out@));
        }
    }
    out
}

// ---------------------------------------------------------------------------
// Response bodies
// ---------------------------------------------------------------------------

pub open spec fn api_seg() -> Seq<char> { seq!['a', 'p', 'i'] }
pub open spec fn recipes_seg() -> Seq<char> { seq!['r', 'e', 'c', 'i', 'p', 'e', 's'] }
pub open spec fn health_seg() -> Seq<char> { seq!['h', 'e', 'a', 'l', 't', 'h'] }
pub open spec fn k_status() -> Seq<char> { seq!['s', 't', 'a', 't', 'u', 's'] }

/// A one-member JSON object, serialized.
pub open spec fn obj1(k: Seq<char>, v: JsonVal) -> Seq<char> {
    ser(JsonVal::Obj(seq![(k, v)]))
}

/// Build `{"<k>":"<w>"}`.
fn obj1_str_x(k: &str, w: &str) -> (s: String)
    ensures
        s@ == obj1(k@, JsonVal::Str(w@)),
{
    let v = Json::Str(w.to_owned());
    let ghost gv = jmodel(v);
    let m = MemberList::Cons(k.to_owned(), Box::new(v), Box::new(MemberList::Nil));
    let ghost gm = mmodel(m);
    let j = Json::Obj(m);
    proof {
        assert(mmodel(MemberList::Nil) =~= Seq::<(Seq<char>, JsonVal)>::empty());
        assert(gm =~= seq![(k@, JsonVal::Str(w@))]);
    }
    let chars = json_to_chars(&j);
    chars_to_string(chars)
}

/// The recipes of a listing as JSON values.
pub open spec fn recipes_jv(rs: Seq<RecipeV>) -> Seq<JsonVal> {
    rs.map_values(|r: RecipeV| recipe_jv(r))
}

/// The body of a listing: a JSON array of the recipes, in index order.
pub open spec fn list_body(rs: Seq<RecipeV>) -> Seq<char> {
    ser(JsonVal::Arr(recipes_jv(rs)))
}

/// Build the JSON array of a recipe listing.
fn recipes_body_x(v: &Vec<Recipe>) -> (s: String)
    ensures
        s@ == list_body(recipe_views(v@)),
{
    let ghost ss = recipe_views(v@);
    let mut acc = JsonList::Nil;
    let mut i: usize = v.len();
    assert(lmodel(acc) =~= Seq::<JsonVal>::empty());
    while i > 0
        invariant
            i <= v@.len(),
            ss == recipe_views(v@),
            lmodel(acc).len() == v@.len() - i,
            forall|k: int|
                0 <= k < lmodel(acc).len() ==> #[trigger] lmodel(acc)[k] == recipe_jv(ss[i + k]),
        decreases i,
    {
        i = i - 1;
        let ghost a0 = lmodel(acc);
        let h = recipe_json(&v[i]);
        let ghost hm = jmodel(h);
        acc = JsonList::Cons(Box::new(h), Box::new(acc));
        proof {
            assert(lmodel(acc) =~= seq![hm] + a0);
            assert(hm == recipe_jv(ss[i as int]));
        }
    }
    proof {
        assert(lmodel(acc) =~= recipes_jv(ss));
    }
    let j = Json::Arr(acc);
    let chars = json_to_chars(&j);
    chars_to_string(chars)
}

fn plain(status: u16, text: &str) -> (r: Response)
    ensures
        r.status == status,
        !r.json,
        r.body@ == text@,
{
    Response { status, json: false, body: text.to_owned() }
}

// ---------------------------------------------------------------------------
// The router
// ---------------------------------------------------------------------------

/// Handle a GET: listing, a single fetch, or the health check. Reads only.
fn handle_get(b: &Bucket, segs: &Vec<String>) -> (r: Response)
    ensures
        ({
            let sv = str_views2(segs@);
            let m0 = b@;
            &&& (sv == seq![health_seg()] ==> r.status == 200 && r.json && r.body@ == obj1(
                k_status(),
                JsonVal::Str(seq!['h', 'e', 'a', 'l', 't', 'h', 'y']),
            ))
            &&& (sv == seq![api_seg(), recipes_seg()] ==> r.status == 200 && r.json && r.body@
                == list_body(spec_list(m0)))
            &&& (sv.len() == 3 && sv[0] == api_seg() && sv[1] == recipes_seg() ==> {
                &&& (spec_get(m0, sv[2]) matches Ok(Some(rv)) ==> r.status == 200 && r.json
                    && r.body@ == spec_encode(rv))
                &&& (spec_get(m0, sv[2]) == Ok::<Option<RecipeV>, StoreError>(None) ==> r.status
                    == 404 && !r.json && r.body@ == "Recipe not found"@)
                &&& (spec_get(m0, sv[2]) is Err ==> r.status == 500 && !r.json && r.body@
                    == "Internal Server Error"@)
            })
            &&& (sv != seq![health_seg()] && sv != seq![api_seg(), recipes_seg()] && !(sv.len()
                == 3 && sv[0] == api_seg() && sv[1] == recipes_seg()) ==> r.status == 404 && !r.json
                && r.body@ == "Not Found"@)
        }),
{
    let ghost sv = str_views2(segs@);
    proof {
        reveal_strlit("api");
        reveal_strlit("recipes");
        reveal_strlit("health");
        assert("api"@ =~= api_seg());
        assert("recipes"@ =~= recipes_seg());
        assert("health"@ =~= health_seg());
        if segs@.len() == 1 {
            assert(sv =~= seq![segs@[0]@]);
        }
        if segs@.len() == 2 {
            assert(sv =~= seq![segs@[0]@, segs@[1]@]);
        }
        if sv == seq![health_seg()] {
            assert(sv.len() == 1 && sv[0] == health_seg());
        }
        if sv == seq![api_seg(), recipes_seg()] {
            assert(sv.len() == 2 && sv[0] == api_seg() && sv[1] == recipes_seg());
        }
    }
    let is_api_recipes = segs.len() >= 2 && eq_str(segs[0].as_str(), "api") && eq_str(
        segs[1].as_str(),
        "recipes",
    );
    if segs.len() == 1 && eq_str(segs[0].as_str(), "health") {
        let body_s = obj1_str_x("status", "healthy");
        proof {
            reveal_strlit("status");
            reveal_strlit("healthy");
            assert("status"@ =~= k_status());
            assert("healthy"@ =~= seq!['h', 'e', 'a', 'l', 't', 'h', 'y']);
        }
        Response { status: 200, json: true, body: body_s }
    } else if segs.len() == 2 && is_api_recipes {
        let rs = list_recipes(b);
        let body_s = recipes_body_x(&rs);
        Response { status: 200, json: true, body: body_s }
    } else if segs.len() == 3 && is_api_recipes {
        match get_recipe(b, segs[2].as_str()) {
            Ok(Some(rec)) => {
                let body_s = encode(&rec);
                Response { status: 200, json: true, body: body_s }
            },
            Ok(None) => plain(404, "Recipe not found"),
            Err(_) => plain(500, "Internal Server Error"),
        }
    } else {
        plain(404, "Not Found")
    }
}

/// Handle a POST: create under `/api/recipes`, with the body required.
#[verifier::rlimit(100)]
fn handle_post(b: &mut Bucket, segs: &Vec<String>, body: Option<&str>, now: u64) -> (r: Response)
    ensures
        ({
            let sv = str_views2(segs@);
            let m0 = old(b)@;
            &&& (sv == seq![api_seg(), recipes_seg()] ==> {
                &&& (body is None ==> r.status == 400 && !r.json && r.body@
                    == "Failed to read body"@ && final(b)@ == m0)
                &&& (body matches Some(bs) ==> {
                    &&& (spec_decode(bs@) is None ==> r.status == 400 && !r.json && r.body@
                        == "Invalid JSON"@ && final(b)@ == m0)
                    &&& (spec_decode(bs@) matches Some(pv) ==> r.status == 201 && r.json
                        && r.body@ == obj1(k_id(), JsonVal::Str(effective_id(pv.id, now)))
                        && final(b)@ == spec_add_id(
                        m0.insert(
                            rec_key(effective_id(pv.id, now)),
                            spec_encode(stamped(pv, now)),
                        ),
                        effective_id(pv.id, now),
                    ))
                })
            })
            &&& (sv != seq![api_seg(), recipes_seg()] ==> r.status == 404 && !r.json && r.body@
                == "Not Found"@ && final(b)@ == m0)
        }),
{
    let ghost sv = str_views2(segs@);
    proof {
        reveal_strlit("api");
        reveal_strlit("recipes");
        assert("api"@ =~= api_seg());
        assert("recipes"@ =~= recipes_seg());
        if segs@.len() == 2 {
            assert(sv =~= seq![segs@[0]@, segs@[1]@]);
        }
        if sv == seq![api_seg(), recipes_seg()] {
            assert(sv.len() == 2 && sv[0] == api_seg() && sv[1] == recipes_seg());
        }
    }
    if segs.len() == 2 && eq_str(segs[0].as_str(), "api") && eq_str(segs[1].as_str(), "recipes") {
        match body {
            None => plain(400, "Failed to read body"),
            Some(bs) => match decode(bs) {
                None => plain(400, "Invalid JSON"),
                Some(payload) => {
                    let id = create(b, payload, now);
                    let body_s = obj1_str_x("id", id.as_str());
                    proof {
                        reveal_strlit("id");
                        assert("id"@ =~= k_id());
                    }
                    Response { status: 201, json: true, body: body_s }
                },
            },
        }
    } else {
        plain(404, "Not Found")
    }
}

/// Handle a PUT: full replace under `/api/recipes/{id}`, body required; the
/// path ID overrides the body's ID.
fn handle_put(b: &mut Bucket, segs: &Vec<String>, body: Option<&str>) -> (r: Response)
    ensures
        ({
            let sv = str_views2(segs@);
            let m0 = old(b)@;
            &&& (sv.len() == 3 && sv[0] == api_seg() && sv[1] == recipes_seg() ==> {
                &&& (body is None ==> r.status == 400 && !r.json && r.body@
                    == "Failed to read body"@ && final(b)@ == m0)
                &&& (body matches Some(bs) ==> {
                    &&& (spec_decode(bs@) is None ==> r.status == 400 && !r.json && r.body@
                        == "Invalid JSON"@ && final(b)@ == m0)
                    &&& (spec_decode(bs@) matches Some(pv) ==> r.status == 200 && r.json
                        && r.body@ == obj1(
                        k_status(),
                        JsonVal::Str(seq!['u', 'p', 'd', 'a', 't', 'e', 'd']),
                    ) && final(b)@ == m0.insert(
                        rec_key(sv[2]),
                        spec_encode(with_id(pv, sv[2])),
                    ))
                })
            })
            &&& (!(sv.len() == 3 && sv[0] == api_seg() && sv[1] == recipes_seg()) ==> r.status
                == 404 && !r.json && r.body@ == "Not Found"@ && final(b)@ == m0)
        }),
{
    proof {
        reveal_strlit("api");
        reveal_strlit("recipes");
        assert("api"@ =~= api_seg());
        assert("recipes"@ =~= recipes_seg());
    }
    if segs.len() == 3 && eq_str(segs[0].as_str(), "api") && eq_str(segs[1].as_str(), "recipes") {
        match body {
            None => plain(400, "Failed to read body"),
            Some(bs) => match decode(bs) {
                None => plain(400, "Invalid JSON"),
                Some(payload) => {
                    update(b, segs[2].as_str(), payload);
                    let body_s = obj1_str_x("status", "updated");
                    proof {
                        reveal_strlit("status");
                        reveal_strlit("updated");
                        assert("status"@ =~= k_status());
                        assert("updated"@ =~= seq!['u', 'p', 'd', 'a', 't', 'e', 'd']);
                    }
                    Response { status: 200, json: true, body: body_s }
                },
            },
        }
    } else {
        plain(404, "Not Found")
    }
}

/// Handle a DELETE: unconditional removal under `/api/recipes/{id}`.
fn handle_delete(b: &mut Bucket, segs: &Vec<String>) -> (r: Response)
    ensures
        ({
            let sv = str_views2(segs@);
            let m0 = old(b)@;
            &&& (sv.len() == 3 && sv[0] == api_seg() && sv[1] == recipes_seg() ==> r.status == 200
                && r.json && r.body@ == obj1(
                k_status(),
                JsonVal::Str(seq!['d', 'e', 'l', 'e', 't', 'e', 'd']),
            ) && final(b)@ == spec_remove_id(m0.remove(rec_key(sv[2])), sv[2]))
            &&& (!(sv.len() == 3 && sv[0] == api_seg() && sv[1] == recipes_seg()) ==> r.status
                == 404 && !r.json && r.body@ == "Not Found"@ && final(b)@ == m0)
        }),
{
    proof {
        reveal_strlit("api");
        reveal_strlit("recipes");
        assert("api"@ =~= api_seg());
        assert("recipes"@ =~= recipes_seg());
    }
    if segs.len() == 3 && eq_str(segs[0].as_str(), "api") && eq_str(segs[1].as_str(), "recipes") {
        delete(b, segs[2].as_str());
        let body_s = obj1_str_x("status", "deleted");
        proof {
            reveal_strlit("status");
            reveal_strlit("deleted");
            assert("status"@ =~= k_status());
            assert("deleted"@ =~= seq!['d', 'e', 'l', 'e', 't', 'e', 'd']);
        }
        Response { status: 200, json: true, body: body_s }
    } else {
        plain(404, "Not Found")
    }
}

/// Route one request onto the store and encode the outcome.
///
/// `target` is the request path with an optional query string; `body` is
/// the request body where one could be read, `None` where reading it
/// failed; `now` is the server clock in unix seconds, used by create.
pub fn handle_request(b: &mut Bucket, method: Method, target: &str, body: Option<&str>, now: u64)
    -> (r: Response)
    ensures
        ({
            let segs = spec_segments(target@);
            let m0 = old(b)@;
            &&& (method is Other ==> r.status == 405 && !r.json && r.body@ == "Method Not Allowed"@
                && final(b)@ == m0)
            &&& (method is Get ==> final(b)@ == m0)
            &&& (method is Get && segs == seq![health_seg()] ==> r.status == 200 && r.json
                && r.body@ == obj1(k_status(), JsonVal::Str(seq!['h', 'e', 'a', 'l', 't', 'h', 'y'])))
            &&& (method is Get && segs == seq![api_seg(), recipes_seg()] ==> r.status == 200
                && r.json && r.body@ == list_body(spec_list(m0)))
            &&& (method is Get && segs.len() == 3 && segs[0] == api_seg() && segs[1]
                == recipes_seg() ==> {
                &&& (spec_get(m0, segs[2]) matches Ok(Some(rv)) ==> r.status == 200 && r.json
                    && r.body@ == spec_encode(rv))
                &&& (spec_get(m0, segs[2]) == Ok::<Option<RecipeV>, StoreError>(None) ==> r.status
                    == 404 && !r.json && r.body@ == "Recipe not found"@)
                &&& (spec_get(m0, segs[2]) is Err ==> r.status == 500 && !r.json && r.body@
                    == "Internal Server Error"@)
            })
            &&& (method is Get && segs != seq![health_seg()] && segs != seq![
                api_seg(),
                recipes_seg(),
            ] && !(segs.len() == 3 && segs[0] == api_seg() && segs[1] == recipes_seg())
                ==> r.status == 404 && !r.json && r.body@ == "Not Found"@)
            &&& (method is Post && segs == seq![api_seg(), recipes_seg()] ==> {
                &&& (body is None ==> r.status == 400 && !r.json && r.body@
                    == "Failed to read body"@ && final(b)@ == m0)
                &&& (body matches Some(bs) ==> {
                    &&& (spec_decode(bs@) is None ==> r.status == 400 && !r.json && r.body@
                        == "Invalid JSON"@ && final(b)@ == m0)
                    &&& (spec_decode(bs@) matches Some(pv) ==> r.status == 201 && r.json
                        && r.body@ == obj1(k_id(), JsonVal::Str(effective_id(pv.id, now)))
                        && final(b)@ == spec_add_id(
                        m0.insert(
                            rec_key(effective_id(pv.id, now)),
                            spec_encode(stamped(pv, now)),
                        ),
                        effective_id(pv.id, now),
                    ))
                })
            })
            &&& (method is Post && segs != seq![api_seg(), recipes_seg()] ==> r.status == 404
                && !r.json && r.body@ == "Not Found"@ && final(b)@ == m0)
            &&& (method is Put && segs.len() == 3 && segs[0] == api_seg() && segs[1]
                == recipes_seg() ==> {
                &&& (body is None ==> r.status == 400 && !r.json && r.body@
                    == "Failed to read body"@ && final(b)@ == m0)
                &&& (body matches Some(bs) ==> {
                    &&& (spec_decode(bs@) is None ==> r.status == 400 && !r.json && r.body@
                        == "Invalid JSON"@ && final(b)@ == m0)
                    &&& (spec_decode(bs@) matches Some(pv) ==> r.status == 200 && r.json
                        && r.body@ == obj1(
                        k_status(),
                        JsonVal::Str(seq!['u', 'p', 'd', 'a', 't', 'e', 'd']),
                    ) && final(b)@ == m0.insert(
                        rec_key(segs[2]),
                        spec_encode(with_id(pv, segs[2])),
                    ))
                })
            })
            &&& (method is Put && !(segs.len() == 3 && segs[0] == api_seg() && segs[1]
                == recipes_seg()) ==> r.status == 404 && !r.json && r.body@ == "Not Found"@
                && final(b)@ == m0)
            &&& (method is Delete && segs.len() == 3 && segs[0] == api_seg() && segs[1]
                == recipes_seg() ==> r.status == 200 && r.json && r.body@ == obj1(
                k_status(),
                JsonVal::Str(seq!['d', 'e', 'l', 'e', 't', 'e', 'd']),
            ) && final(b)@ == spec_remove_id(m0.remove(rec_key(segs[2])), segs[2]))
            &&& (method is Delete && !(segs.len() == 3 && segs[0] == api_seg() && segs[1]
                == recipes_seg()) ==> r.status == 404 && !r.json && r.body@ == "Not Found"@
                && final(b)@ == m0)
        }),
{
    let segs = segments(target);
    match method {
        Method::Other => plain(405, "Method Not Allowed"),
        Method::Get => handle_get(b, &segs),
        Method::Post => handle_post(b, &segs, body, now),
        Method::Put => handle_put(b, &segs, body),
        Method::Delete => handle_delete(b, &segs),
    }
}

} // verus!
