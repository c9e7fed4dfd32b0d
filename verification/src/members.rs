//! Looking a member up in a decoded JSON object, by key.

use vstd::prelude::*;

use crate::json::JsonValue;
use crate::json::JsonView;
use crate::json::json_view;
use crate::json::lemma_obj_views;
use crate::json::obj_views;
use crate::json::wf_json;
use crate::json::wf_members;

verus! {

/// The value under the first member with the given key, if any.
pub open spec fn find_val(ms: Seq<(Seq<char>, JsonView)>, key: Seq<char>) -> Option<JsonView>
    decreases ms,
{
    if ms.len() == 0 {
        None
    } else if ms[0].0 == key {
        Some(ms[0].1)
    } else {
        find_val(ms.drop_first(), key)
    }
}

/// A member found in a well-formed object is well-formed.
pub proof fn lemma_find_wf(ms: Seq<(Seq<char>, JsonView)>, key: Seq<char>)
    requires
        wf_members(ms),
        find_val(ms, key) is Some,
    ensures
        wf_json(find_val(ms, key)->0),
    decreases ms,
{
    if ms.len() > 0 && ms[0].0 != key {
        lemma_find_wf(ms.drop_first(), key);
    }
}

/// Character-for-character string comparison.
pub fn str_eq_str(a: &str, b: &str) -> (r: bool)
    ensures
        r == (a@ == b@),
{
    let n = a.unicode_len();
    let m = b.unicode_len();
    if n != m {
        proof {
            assert(a@.len() != b@.len());
        }
        return false;
    }
    let mut i: usize = 0;
    while i < n
        invariant
            n == a@.len(),
            n == b@.len(),
            i <= n,
            forall|k: int| 0 <= k < i ==> a@[k] == b@[k],
        decreases n - i,
    {
        if a.get_char(i) != b.get_char(i) {
            return false;
        }
        i = i + 1;
    }
    proof {
        assert(a@ =~= b@);
    }
    true
}

/// The first member with the given key, if any.
pub fn find_member<'a>(ms: &'a Vec<(String, JsonValue)>, key: &str) -> (r: Option<
    &'a JsonValue,
>)
    ensures
        match r {
            Some(p) => find_val(obj_views(ms@, ms@.len() as int), key@) == Some(json_view(*p)),
            None => find_val(obj_views(ms@, ms@.len() as int), key@) is None,
        },
{
    let ghost vs = obj_views(ms@, ms@.len() as int);
    proof {
        lemma_obj_views(ms@, ms@.len() as int);
        assert(vs.skip(0) =~= vs);
    }
    let mut i: usize = 0;
    while i < ms.len()
        invariant
            i <= ms@.len(),
            vs == obj_views(ms@, ms@.len() as int),
            vs.len() == ms@.len(),
            forall|k: int| 0 <= k < ms@.len() ==> vs[k] == (
            #[trigger] ms@[k].0@,
            json_view(ms@[k].1),
            ),
            find_val(vs, key@) == find_val(vs.skip(i as int), key@),
        decreases ms@.len() - i,
    {
        let hit = str_eq_str(ms[i].0.as_str(), key);
        proof {
            assert(vs.skip(i as int)[0] == vs[i as int]);
            assert(vs.skip(i as int).drop_first() =~= vs.skip(i + 1));
        }
        if hit {
            return Some(&ms[i].1);
        }
        i = i + 1;
    }
    proof {
        assert(vs.skip(ms@.len() as int).len() == 0);
    }
    None
}

} // verus!
