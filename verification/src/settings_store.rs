//! Settings: objects under keys, changed by patches.

use vstd::prelude::*;

use crate::chat_ops;
use crate::json;
use crate::json::{Json, JsonObject};
use crate::text;

verus! {

/// The object after the first `n` fields of a patch: a field replaces the old value, `null`
/// removes it.
pub open spec fn patched(o: json::Fields, patch: json::Fields, n: int) -> json::Fields
    decreases n,
{
    if n <= 0 {
        o
    } else {
        let before = patched(o, patch, n - 1);
        if patch[n - 1].1 is Null {
            json::without(before, patch[n - 1].0)
        } else {
            json::with(before, patch[n - 1].0, patch[n - 1].1)
        }
    }
}

/// Applies a patch to an object.
pub fn apply_patch(target: &mut JsonObject, patch: &JsonObject)
    ensures
        final(target)@ == patched(old(target)@, patch@, patch@.len() as int),
{
    proof {
        json::lemma_fields_view(patch.fields@);
    }
    let ghost start = target@;
    let mut i: usize = 0;
    while i < patch.fields.len()
        invariant
            i <= patch.fields@.len(),
            patch@.len() == patch.fields@.len(),
            forall|k: int|
                0 <= k < patch.fields@.len() ==> #[trigger] patch@[k] == (
                    patch.fields@[k].0@,
                    json::value_view(patch.fields@[k].1),
                ),
            target@ == patched(start, patch@, i as int),
        decreases patch.fields@.len() - i,
    {
        assert(patch@[i as int].0 == patch.fields@[i as int].0@);
        if patch.fields[i].1.is_null() {
            target.remove(patch.fields[i].0.as_str());
        } else {
            let value = patch.fields[i].1.duplicate();
            target.insert(patch.fields[i].0.as_str(), value);
        }
        i += 1;
    }
}

pub open spec fn stored_view(v: Option<Json>) -> Option<json::JsonView> {
    match v {
        Some(j) => Some(j@),
        None => None,
    }
}

/// The object of a stored value; nothing, or something else, counts as an empty one.
pub fn get_object(stored: Option<Json>) -> (r: JsonObject)
    ensures
        r@ == chat_ops::object_or_empty(stored_view(stored)),
{
    match stored {
        Some(Json::Object(o)) => o,
        _ => JsonObject::new(),
    }
}

/// The settings after a patch.
pub fn merge_object(stored: Option<Json>, patch: &JsonObject) -> (r: JsonObject)
    ensures
        r@ == patched(
            chat_ops::object_or_empty(stored_view(stored)),
            patch@,
            patch@.len() as int,
        ),
{
    let mut current = get_object(stored);
    apply_patch(&mut current, patch);
    current
}

/// What has to hold of the settings for a write to be applied.
#[derive(Debug)]
pub struct Expectations {
    /// These fields have exactly these values.
    pub expected: JsonObject,
    /// These fields are absent.
    pub expected_absent: Vec<String>,
    /// These paths of field names lead nowhere.
    pub expected_absent_paths: Vec<Vec<String>>,
}

pub open spec fn paths_view(s: Seq<Vec<String>>) -> Seq<Seq<Seq<char>>> {
    Seq::new(s.len(), |i: int| text::views(s[i]@))
}

/// What the first `n` names of a path lead to.
pub open spec fn at_path(v: json::JsonView, path: Seq<Seq<char>>, n: int) -> Option<json::JsonView>
    decreases n,
{
    if n <= 0 {
        Some(v)
    } else {
        match at_path(v, path, n - 1) {
            Some(node) => json::member(node, path[n - 1]),
            None => None,
        }
    }
}

/// Whether a path of field names leads to a value; the empty path does not.
pub open spec fn path_in(o: json::Fields, path: Seq<Seq<char>>) -> bool {
    path.len() > 0 && at_path(json::JsonView::Object(o), path, path.len() as int) is Some
}

pub open spec fn expected_values(current: json::Fields, expected: json::Fields) -> bool {
    forall|i: int|
        0 <= i < expected.len() ==> ({
            let e = #[trigger] expected[i];
            json::field(current, e.0) is Some && json::same_value(
                json::field(current, e.0)->Some_0,
                e.1,
            )
        })
}

/// Whether the settings are what a write expects.
pub open spec fn met(
    current: json::Fields,
    expected: json::Fields,
    absent: Seq<Seq<char>>,
    absent_paths: Seq<Seq<Seq<char>>>,
) -> bool {
    &&& expected_values(current, expected)
    &&& forall|i: int| 0 <= i < absent.len() ==> json::field(current, #[trigger] absent[i]) is None
    &&& forall|i: int|
        0 <= i < absent_paths.len() ==> !path_in(current, #[trigger] absent_paths[i])
}

/// Whether a path of field names leads to a value.
pub fn path_exists(object: &JsonObject, path: &Vec<String>) -> (r: bool)
    ensures
        r == path_in(object@, text::views(path@)),
{
    let ghost names = text::views(path@);
    let ghost root = json::JsonView::Object(object@);
    if path.len() == 0 {
        return false;
    }
    assert(names[0] == path@[0]@);
    let mut node = match object.get(path[0].as_str()) {
        Some(node) => node,
        None => {
            proof {
                assert(at_path(root, names, 0) == Some(root));
                assert(at_path(root, names, 1) is None);
                lemma_path_ends(root, names, 1, names.len() as int);
            }
            return false;
        },
    };
    let mut i: usize = 1;
    proof {
        assert(at_path(root, names, 0) == Some(root));
        assert(at_path(root, names, 1) == Some(node@));
    }
    while i < path.len()
        invariant
            1 <= i <= path@.len(),
            names == text::views(path@),
            root == json::JsonView::Object(object@),
            at_path(root, names, i as int) == Some(node@),
        decreases path@.len() - i,
    {
        assert(names[i as int] == path@[i as int]@);
        node =
        match node.get(path[i].as_str()) {
            Some(next) => next,
            None => {
                proof {
                    lemma_path_ends(root, names, i + 1, names.len() as int);
                }
                return false;
            },
        };
        i += 1;
    }
    true
}

proof fn lemma_path_ends(v: json::JsonView, path: Seq<Seq<char>>, k: int, n: int)
    requires
        0 <= k <= n,
        at_path(v, path, k) is None,
    ensures
        at_path(v, path, n) is None,
    decreases n,
{
    if k < n {
        lemma_path_ends(v, path, k, n - 1);
    }
}

fn values_expected(current: &JsonObject, expected: &JsonObject) -> (r: bool)
    ensures
        r == expected_values(current@, expected@),
{
    proof {
        json::lemma_fields_view(expected.fields@);
    }
    let ghost view = expected@;
    let mut i: usize = 0;
    while i < expected.fields.len()
        invariant
            i <= expected.fields@.len(),
            view == expected@,
            view.len() == expected.fields@.len(),
            forall|k: int|
                0 <= k < expected.fields@.len() ==> #[trigger] view[k] == (
                    expected.fields@[k].0@,
                    json::value_view(expected.fields@[k].1),
                ),
            forall|k: int|
                0 <= k < i ==> ({
                    let e = #[trigger] view[k];
                    json::field(current@, e.0) is Some && json::same_value(
                        json::field(current@, e.0)->Some_0,
                        e.1,
                    )
                }),
        decreases expected.fields@.len() - i,
    {
        let ghost e = view[i as int];
        assert(e.0 == expected.fields@[i as int].0@);
        let same = match current.get(expected.fields[i].0.as_str()) {
            Some(value) => value.same(&expected.fields[i].1),
            None => false,
        };
        if !same {
            return false;
        }
        i += 1;
    }
    true
}

/// Whether the settings are what a write expects.
pub fn expectations_met(current: &JsonObject, e: &Expectations) -> (r: bool)
    ensures
        r == met(
            current@,
            e.expected@,
            text::views(e.expected_absent@),
            paths_view(e.expected_absent_paths@),
        ),
{
    if !values_expected(current, &e.expected) {
        return false;
    }
    let ghost absent = text::views(e.expected_absent@);
    let mut i: usize = 0;
    while i < e.expected_absent.len()
        invariant
            i <= e.expected_absent@.len(),
            absent == text::views(e.expected_absent@),
            forall|k: int| 0 <= k < i ==> json::field(current@, #[trigger] absent[k]) is None,
        decreases e.expected_absent@.len() - i,
    {
        assert(absent[i as int] == e.expected_absent@[i as int]@);
        if current.contains_key(e.expected_absent[i].as_str()) {
            return false;
        }
        i += 1;
    }
    let ghost paths = paths_view(e.expected_absent_paths@);
    let mut j: usize = 0;
    while j < e.expected_absent_paths.len()
        invariant
            j <= e.expected_absent_paths@.len(),
            paths == paths_view(e.expected_absent_paths@),
            forall|k: int| 0 <= k < j ==> !path_in(current@, #[trigger] paths[k]),
        decreases e.expected_absent_paths@.len() - j,
    {
        assert(paths[j as int] == text::views(e.expected_absent_paths@[j as int]@));
        if path_exists(current, &e.expected_absent_paths[j]) {
            return false;
        }
        j += 1;
    }
    true
}

/// A conditional write: the patch is applied only if the settings are still what the writer saw.
/// Returns the settings and whether the patch was applied.
pub fn compare_and_set(stored: Option<Json>, expectations: &Expectations, patch: &JsonObject) -> (r:
    (JsonObject, bool))
    ensures
        ({
            let current = chat_ops::object_or_empty(stored_view(stored));
            &&& r.1 == met(
                current,
                expectations.expected@,
                text::views(expectations.expected_absent@),
                paths_view(expectations.expected_absent_paths@),
            )
            &&& r.0@ == (if r.1 {
                patched(current, patch@, patch@.len() as int)
            } else {
                current
            })
        }),
{
    let mut current = get_object(stored);
    let matches = expectations_met(&current, expectations);
    if matches {
        apply_patch(&mut current, patch);
    }
    (current, matches)
}

proof fn lemma_field_of_longer(o: json::Fields, key: Seq<char>, name: Seq<char>, v: json::JsonView)
    ensures
        json::field(o.push((name, v)), key) == (if json::field(o, key) is Some {
            json::field(o, key)
        } else if name == key {
            Some(v)
        } else {
            None
        }),
    decreases o.len(),
{
    let longer = o.push((name, v));
    if o.len() == 0 {
        assert(longer.drop_first().len() == 0);
        assert(json::field(longer.drop_first(), key) is None);
        assert(longer[0] == (name, v));
    } else if o[0].0 == key {
        assert(longer[0] == o[0]);
    } else {
        assert(longer[0] == o[0]);
        assert(longer.drop_first() =~= o.drop_first().push((name, v)));
        lemma_field_of_longer(o.drop_first(), key, name, v);
    }
}

proof fn lemma_field_is_there(o: json::Fields, key: Seq<char>)
    ensures
        json::field(o, key) is Some ==> exists|i: int|
            0 <= i < o.len() && (#[trigger] o[i]).0 == key,
    decreases o.len(),
{
    if o.len() > 0 && o[0].0 != key {
        lemma_field_is_there(o.drop_first(), key);
        if json::field(o, key) is Some {
            let i = choose|i: int|
                0 <= i < o.drop_first().len() && (#[trigger] o.drop_first()[i]).0 == key;
            assert(o[i + 1].0 == key);
        }
    } else if o.len() > 0 {
        assert(o[0].0 == key);
    }
}

proof fn lemma_patched(o: json::Fields, patch: json::Fields, n: int, key: Seq<char>)
    requires
        json::ordered(o),
        json::ordered(patch),
        0 <= n <= patch.len(),
    ensures
        json::ordered(patched(o, patch, n)),
        json::field(patched(o, patch, n), key) == (match json::field(patch.take(n), key) {
            None => json::field(o, key),
            Some(json::JsonView::Null) => None,
            Some(v) => Some(v),
        }),
    decreases n,
{
    if n > 0 {
        lemma_patched(o, patch, n - 1, key);
        let before = patched(o, patch, n - 1);
        let (name, v) = patch[n - 1];
        assert(patch.take(n) =~= patch.take(n - 1).push((name, v)));
        lemma_field_of_longer(patch.take(n - 1), key, name, v);
        json::law_setting_keeps_order(before, name, v);
        json::law_removing_keeps_order(before, name);
        json::law_set_field_is_read_back(before, name, v, key);
        json::law_removed_field_is_gone(before, name, key);
        if name == key && json::field(patch.take(n - 1), key) is Some {
            lemma_field_is_there(patch.take(n - 1), key);
            let head = patch.take(n - 1);
            let i = choose|i: int| 0 <= i < head.len() && (#[trigger] head[i]).0 == key;
            assert(patch[i].0 == key);
            assert(text::before(patch[i].0, patch[n - 1].0));
            text::lemma_before_is_total(key, key);
        }
    } else {
        assert(patch.take(0) =~= json::no_fields());
    }
}

/// After a patch a field has the value that the patch gives it, is gone where the patch says
/// `null`, and is as before where the patch does not name it. The fields stay in order.
pub proof fn law_patch_sets_removes_and_keeps(
    o: json::Fields,
    patch: json::Fields,
    key: Seq<char>,
)
    requires
        json::ordered(o),
        json::ordered(patch),
    ensures
        json::ordered(patched(o, patch, patch.len() as int)),
        json::field(patched(o, patch, patch.len() as int), key) == (match json::field(patch, key) {
            None => json::field(o, key),
            Some(json::JsonView::Null) => None,
            Some(v) => Some(v),
        }),
{
    lemma_patched(o, patch, patch.len() as int, key);
    assert(patch.take(patch.len() as int) =~= patch);
}

/// Settings that a writer has just read meet its expectations: a write is refused only if they
/// changed since.
pub proof fn law_current_values_are_expected(current: json::Fields, expected: json::Fields)
    requires
        forall|i: int|
            0 <= i < expected.len() ==> json::field(current, (#[trigger] expected[i]).0) == Some(
                expected[i].1,
            ),
    ensures
        expected_values(current, expected),
{
    assert forall|i: int| 0 <= i < expected.len() implies ({
        let e = #[trigger] expected[i];
        json::field(current, e.0) is Some && json::same_value(
            json::field(current, e.0)->Some_0,
            e.1,
        )
    }) by {
        json::law_value_is_the_same_as_itself(expected[i].1);
    }
}

} // verus!
