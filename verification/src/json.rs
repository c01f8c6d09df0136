//! The object structure of a settings document, and merging a patch into
//! it: objects merge key by key, anything else replaces what was there.

use vstd::prelude::*;
use crate::text::same_text;

verus! {

/// A JSON value; the library only carries it through.
#[verifier::external_type_specification]
#[verifier::external_body]
pub struct ExJsonValue(serde_json::Value);

/// A JSON document as far as merging looks into it: objects, as their
/// entries in order, and every other value as it is.
pub enum JsonTree {
    Object(Vec<(String, JsonTree)>),
    Leaf(serde_json::Value),
}

/// A document as the contracts see it: keys as character sequences.
pub enum JsonView {
    Object(Seq<(Seq<char>, JsonView)>),
    Leaf(serde_json::Value),
}

pub open spec fn tree_view(t: JsonTree) -> JsonView
    decreases t,
{
    match t {
        JsonTree::Object(entries) => JsonView::Object(entries_view(entries@)),
        JsonTree::Leaf(v) => JsonView::Leaf(v),
    }
}

pub open spec fn entries_view(s: Seq<(String, JsonTree)>) -> Seq<(Seq<char>, JsonView)>
    decreases s,
{
    if s.len() == 0 {
        seq![]
    } else {
        entries_view(s.drop_last()).push((s.last().0@, tree_view(s.last().1)))
    }
}

proof fn lemma_entries_view(s: Seq<(String, JsonTree)>)
    ensures
        entries_view(s).len() == s.len(),
        forall|i: int|
            0 <= i < s.len() ==> #[trigger] entries_view(s)[i] == (s[i].0@, tree_view(s[i].1)),
    decreases s.len(),
{
    if s.len() > 0 {
        lemma_entries_view(s.drop_last());
        assert forall|i: int| 0 <= i < s.len() implies #[trigger] entries_view(s)[i] == (
        s[i].0@,
        tree_view(s[i].1),
        ) by {
            if i < s.len() - 1 {
                assert(s.drop_last()[i] == s[i]);
            }
        }
    }
}

/// The first position of `key` among the entries.
pub open spec fn key_index(s: Seq<(Seq<char>, JsonView)>, key: Seq<char>) -> Option<int>
    decreases s.len(),
{
    if s.len() == 0 {
        None
    } else {
        match key_index(s.drop_last(), key) {
            Some(i) => Some(i),
            None => if s.last().0 == key {
                Some(s.len() - 1)
            } else {
                None
            },
        }
    }
}

/// Merging `patch` into `target`: two objects merge key by key, and any
/// other patch replaces the target.
pub open spec fn merged(target: JsonView, patch: JsonView) -> JsonView
    decreases patch,
{
    match patch {
        JsonView::Object(p) => match target {
            JsonView::Object(t) => JsonView::Object(merged_entries(t, p)),
            JsonView::Leaf(_) => patch,
        },
        JsonView::Leaf(_) => patch,
    }
}

/// The patch entries go in one by one: a key the target has merges into
/// its value in place, a new key is added at the end.
pub open spec fn merged_entries(
    t: Seq<(Seq<char>, JsonView)>,
    p: Seq<(Seq<char>, JsonView)>,
) -> Seq<(Seq<char>, JsonView)>
    decreases p,
{
    if p.len() == 0 {
        t
    } else {
        let before = merged_entries(t, p.drop_last());
        let key = p.last().0;
        let value = p.last().1;
        match key_index(before, key) {
            Some(i) => before.update(i, (key, merged(before[i].1, value))),
            None => before.push((key, value)),
        }
    }
}

fn find_key(entries: &Vec<(String, JsonTree)>, key: &str) -> (r: Option<usize>)
    ensures
        match key_index(entries_view(entries@), key@) {
            Some(i) => r == Some(i as usize),
            None => r is None,
        },
{
    proof {
        lemma_entries_view(entries@);
    }
    let ghost all = entries_view(entries@);
    let n = entries.len();
    let mut i: usize = 0;
    while i < n
        invariant
            n == entries@.len(),
            i <= n,
            all == entries_view(entries@),
            all.len() == n,
            forall|k: int| 0 <= k < n ==> #[trigger] all[k] == (entries@[k].0@, tree_view(entries@[k].1)),
            key_index(all.take(i as int), key@) is None,
        decreases n - i,
    {
        proof {
            assert(all.take(i + 1).drop_last() =~= all.take(i as int));
        }
        if same_text(entries[i].0.as_str(), key) {
            proof {
                lemma_key_index_prefix(all, key@, i + 1);
            }
            return Some(i);
        }
        i = i + 1;
    }
    assert(all.take(n as int) =~= all);
    None
}

proof fn lemma_key_index_prefix(s: Seq<(Seq<char>, JsonView)>, key: Seq<char>, k: int)
    requires
        0 <= k <= s.len(),
        key_index(s.take(k), key) is Some,
    ensures
        key_index(s, key) == key_index(s.take(k), key),
    decreases s.len() - k,
{
    if k < s.len() {
        assert(s.take(k + 1).drop_last() =~= s.take(k));
        lemma_key_index_prefix(s, key, k + 1);
    } else {
        assert(s.take(k) =~= s);
    }
}

proof fn lemma_key_index_found(s: Seq<(Seq<char>, JsonView)>, key: Seq<char>)
    ensures
        key_index(s, key) matches Some(i) ==> 0 <= i < s.len() && s[i].0 == key,
    decreases s.len(),
{
    if s.len() > 0 {
        lemma_key_index_found(s.drop_last(), key);
    }
}

/// Merges `patch` into `target`.
pub fn merge_json(target: JsonTree, patch: JsonTree) -> (r: JsonTree)
    ensures
        tree_view(r) == merged(tree_view(target), tree_view(patch)),
    decreases patch,
{
    let ghost patch_view = tree_view(patch);
    match patch {
        JsonTree::Object(p) => match target {
            JsonTree::Object(t) => {
                let ghost p0 = p@;
                let ghost t0 = entries_view(t@);
                proof {
                    lemma_entries_view(p0);
                }
                let ghost pv = entries_view(p0);
                let mut rest = p;
                let mut t = t;
                let ghost mut j: int = 0;
                assert(pv.take(0) =~= Seq::<(Seq<char>, JsonView)>::empty());
                while rest.len() > 0
                    invariant
                        0 <= j <= p0.len(),
                        rest@ == p0.subrange(j, p0.len() as int),
                        pv == entries_view(p0),
                        pv.len() == p0.len(),
                        forall|k: int|
                            0 <= k < p0.len() ==> #[trigger] pv[k] == (p0[k].0@, tree_view(p0[k].1)),
                        entries_view(t@) == merged_entries(t0, pv.take(j)),
                        decreases_to!(patch => p0),
                    decreases rest.len(),
                {
                    let ghost before = t@;
                    let (key, value) = rest.remove(0);
                    assert((key, value) == p0[j]);
                    assert(decreases_to!(patch => value)) by {
                        assert(decreases_to!(p0 => p0[j]));
                    }
                    proof {
                        lemma_entries_view(before);
                        assert(pv.take(j + 1).drop_last() =~= pv.take(j));
                        assert(pv.take(j + 1).last() == pv[j]);
                    }
                    match find_key(&t, key.as_str()) {
                        Some(i) => {
                            proof {
                                lemma_key_index_found(entries_view(before), key@);
                            }
                            let (existing_key, existing) = t.remove(i);
                            assert((existing_key, existing) == before[i as int]);
                            let combined = merge_json(existing, value);
                            t.insert(i, (existing_key, combined));
                            proof {
                                assert(t@ =~= before.update(i as int, (existing_key, combined)));
                                lemma_entries_view(t@);
                                assert(entries_view(t@) =~= entries_view(before).update(
                                    i as int,
                                    (key@, merged(entries_view(before)[i as int].1, tree_view(value))),
                                ));
                            }
                        },
                        None => {
                            t.push((key, value));
                            proof {
                                assert(t@.drop_last() =~= before);
                            }
                        },
                    }
                    proof {
                        j = j + 1;
                        assert(rest@ =~= p0.subrange(j, p0.len() as int));
                    }
                }
                assert(pv.take(j) =~= pv);
                JsonTree::Object(t)
            },
            JsonTree::Leaf(_) => JsonTree::Object(p),
        },
        JsonTree::Leaf(v) => JsonTree::Leaf(v),
    }
}

} // verus!
