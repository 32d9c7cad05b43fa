//! Drift detection: which resources of a plan drifted, and how.

use vstd::prelude::*;

use crate::config::{
    attribute_matches, attribute_matches_pattern, rules_view, Config, IgnoreMode, IgnoreRule,
    IgnoreRuleView,
};
use crate::drift::types::{
    action_name, changes_view, resources_view, summary_consistent, AttributeChange,
    AttributeChangeView, DriftAction, DriftReport, DriftReportView, DriftSource, DriftSummary,
    DriftedResource, DriftedResourceView,
};
use crate::json::{lemma_lookup_skip, member_lookup, JsonValue};
use crate::keymap::{
    keys_sorted, lemma_filter_sorted, lemma_sorted_same_members, map_get, KeyMap,
};
use crate::plan::schema::{Change, ResourceChange, TerraformPlan};
use crate::text::{
    chars_equal, chars_of, copy_chars, decimal, parse_usize, parse_usize_spec, push_decimal,
    split_chars, split_on, str_equal, string_from_chars, string_of, strings_contain, strings_view,
};

verus! {

// ---------------------------------------------------------------------------
// Flattening
// ---------------------------------------------------------------------------

/// The path of a member: the prefix, a dot and the member's name, or the
/// name alone at the top.
pub open spec fn join_key(prefix: Seq<char>, k: Seq<char>) -> Seq<char> {
    if prefix.len() == 0 {
        k
    } else {
        prefix + seq!['.'] + k
    }
}

/// The number of members or elements of a value.
pub open spec fn member_count(v: JsonValue) -> nat {
    match v {
        JsonValue::Array(xs) => xs@.len(),
        JsonValue::Object(ms) => ms@.len(),
        _ => 0,
    }
}

/// The text of a scalar value.
pub open spec fn leaf_text(v: JsonValue) -> Seq<char> {
    match v {
        JsonValue::Null => "null"@,
        JsonValue::Bool(b) => if b {
            "true"@
        } else {
            "false"@
        },
        JsonValue::Number(n) => n@,
        JsonValue::Str(s) => s@,
        _ => Seq::empty(),
    }
}

/// The leaves of `v` under `prefix`, with their dotted paths, in document
/// order. A scalar at the top (empty path) yields nothing.
pub open spec fn flat_entries(v: JsonValue, prefix: Seq<char>) -> Seq<(Seq<char>, Seq<char>)>
    decreases v, member_count(v) + 1,
{
    match v {
        JsonValue::Object(ms) => flat_members(v, prefix, ms@.len()),
        JsonValue::Array(xs) => flat_members(v, prefix, xs@.len()),
        _ => if prefix.len() == 0 {
            Seq::empty()
        } else {
            seq![(prefix, leaf_text(v))]
        },
    }
}

/// The leaves of the first `n` members or elements of `v`.
pub open spec fn flat_members(v: JsonValue, prefix: Seq<char>, n: nat) -> Seq<
    (Seq<char>, Seq<char>),
>
    decreases v, n,
{
    match v {
        JsonValue::Object(ms) => if n == 0 || n > ms@.len() {
            Seq::empty()
        } else {
            flat_members(v, prefix, (n - 1) as nat) + flat_entries(
                ms@[n - 1].1,
                join_key(prefix, ms@[n - 1].0@),
            )
        },
        JsonValue::Array(xs) => if n == 0 || n > xs@.len() {
            Seq::empty()
        } else {
            flat_members(v, prefix, (n - 1) as nat) + flat_entries(
                xs@[n - 1],
                join_key(prefix, decimal((n - 1) as nat)),
            )
        },
        _ => Seq::empty(),
    }
}

/// `m` after inserting the entries in order; a later entry replaces an
/// earlier one with the same path.
pub open spec fn insert_entries(
    m: Map<Seq<char>, Seq<char>>,
    es: Seq<(Seq<char>, Seq<char>)>,
) -> Map<Seq<char>, Seq<char>>
    decreases es.len(),
{
    if es.len() == 0 {
        m
    } else {
        insert_entries(m, es.drop_last()).insert(es.last().0, es.last().1)
    }
}

/// Inserting two runs of entries is inserting the first, then the second.
pub proof fn lemma_insert_entries_append(
    m: Map<Seq<char>, Seq<char>>,
    a: Seq<(Seq<char>, Seq<char>)>,
    b: Seq<(Seq<char>, Seq<char>)>,
)
    ensures
        insert_entries(m, a + b) == insert_entries(insert_entries(m, a), b),
    decreases b.len(),
{
    if b.len() == 0 {
        assert(a + b =~= a);
    } else {
        lemma_insert_entries_append(m, a, b.drop_last());
        assert((a + b).drop_last() =~= a + b.drop_last());
    }
}

/// The flattened form of a value: each leaf path mapped to the leaf's text.
pub open spec fn flat_map(v: JsonValue) -> Map<Seq<char>, Seq<char>> {
    insert_entries(Map::empty(), flat_entries(v, Seq::empty()))
}

fn join_key_chars(prefix: &Vec<char>, k: &Vec<char>) -> (r: Vec<char>)
    ensures
        r@ == join_key(prefix@, k@),
{
    if prefix.len() == 0 {
        return copy_chars(k.as_slice());
    }
    let mut r = copy_chars(prefix.as_slice());
    r.push('.');
    let n = k.len();
    for i in 0..n
        invariant
            n == k@.len(),
            r@ == prefix@ + seq!['.'] + k@.take(i as int),
    {
        r.push(k[i]);
        assert(k@.take(i + 1) =~= k@.take(i as int).push(k@[i as int]));
    }
    assert(k@.take(n as int) =~= k@);
    r
}

fn decimal_chars(n: usize) -> (r: Vec<char>)
    ensures
        r@ == decimal(n as nat),
{
    let mut s = String::new();
    push_decimal(&mut s, n);
    assert(s@ =~= decimal(n as nat));
    chars_of(s.as_str())
}

fn flatten_into(value: &JsonValue, prefix: &Vec<char>, out: &mut KeyMap<String>)
    requires
        old(out).wf(),
    ensures
        final(out).wf(),
        final(out).map() == insert_entries(old(out).map(), flat_entries(*value, prefix@)),
    decreases value,
{
    let ghost m0 = out.map();
    match value {
        JsonValue::Object(ms) => {
            let n = ms.len();
            assert(flat_members(*value, prefix@, 0) =~= Seq::<(Seq<char>, Seq<char>)>::empty());
            for j in 0..n
                invariant
                    n == ms@.len(),
                    *value == JsonValue::Object(*ms),
                    out.wf(),
                    out.map() == insert_entries(m0, flat_members(*value, prefix@, j as nat)),
            {
                let name = chars_of(ms[j].0.as_str());
                let key = join_key_chars(prefix, &name);
                proof {
                    assert(decreases_to!(*value => ms@[j as int].1));
                }
                flatten_into(&ms[j].1, &key, out);
                proof {
                    lemma_insert_entries_append(
                        m0,
                        flat_members(*value, prefix@, j as nat),
                        flat_entries(ms@[j as int].1, join_key(prefix@, ms@[j as int].0@)),
                    );
                }
            }
        },
        JsonValue::Array(xs) => {
            let n = xs.len();
            assert(flat_members(*value, prefix@, 0) =~= Seq::<(Seq<char>, Seq<char>)>::empty());
            for j in 0..n
                invariant
                    n == xs@.len(),
                    *value == JsonValue::Array(*xs),
                    out.wf(),
                    out.map() == insert_entries(m0, flat_members(*value, prefix@, j as nat)),
            {
                let idx = decimal_chars(j);
                let key = join_key_chars(prefix, &idx);
                proof {
                    assert(decreases_to!(*value => xs@[j as int]));
                }
                flatten_into(&xs[j], &key, out);
                proof {
                    lemma_insert_entries_append(
                        m0,
                        flat_members(*value, prefix@, j as nat),
                        flat_entries(xs@[j as int], join_key(prefix@, decimal(j as nat))),
                    );
                }
            }
        },
        _ => {
            if prefix.len() > 0 {
                let text = match value {
                    JsonValue::Null => string_of("null"),
                    JsonValue::Bool(b) => if *b {
                        string_of("true")
                    } else {
                        string_of("false")
                    },
                    JsonValue::Number(n) => n.clone(),
                    JsonValue::Str(s) => s.clone(),
                    _ => String::new(),
                };
                assert(text@ == leaf_text(*value));
                out.insert(copy_chars(prefix.as_slice()), text);
                let ghost es = seq![(prefix@, leaf_text(*value))];
                assert(flat_entries(*value, prefix@) == es);
                assert(es.drop_last() =~= Seq::<(Seq<char>, Seq<char>)>::empty());
                assert(insert_entries(m0, es.drop_last()) == m0);
                assert(es.last() == (prefix@, leaf_text(*value)));
                assert(insert_entries(m0, es) == m0.insert(prefix@, leaf_text(*value)));
            } else {
                assert(flat_entries(*value, prefix@) =~= Seq::<(Seq<char>, Seq<char>)>::empty());
            }
        },
    }
}

/// Flatten a JSON value into dot-separated key paths.
pub fn flatten_json(value: &JsonValue, prefix: &str, out: &mut KeyMap<String>)
    requires
        old(out).wf(),
    ensures
        final(out).wf(),
        final(out).map() == insert_entries(old(out).map(), flat_entries(*value, prefix@)),
{
    let p = chars_of(prefix);
    flatten_into(value, &p, out);
}

// ---------------------------------------------------------------------------
// Sensitivity
// ---------------------------------------------------------------------------

/// Walks the sensitivity marks along `parts`: objects by member name, arrays
/// by index, and a boolean met on the way decides.
pub open spec fn sensitive_along(parts: Seq<Seq<char>>, cur: JsonValue) -> bool
    decreases parts.len(),
{
    if parts.len() == 0 {
        cur == JsonValue::Bool(true)
    } else {
        match cur {
            JsonValue::Object(ms) => match member_lookup(ms@, parts[0]) {
                Some(v) => sensitive_along(parts.drop_first(), v),
                None => false,
            },
            JsonValue::Array(xs) => match parse_usize_spec(parts[0]) {
                Some(i) => if i < xs@.len() {
                    sensitive_along(parts.drop_first(), xs@[i as int])
                } else {
                    false
                },
                None => false,
            },
            JsonValue::Bool(b) => b,
            _ => false,
        }
    }
}

/// A flattened path is marked sensitive in `sensitive`.
pub open spec fn path_is_sensitive(path: Seq<char>, sensitive: JsonValue) -> bool {
    sensitive_along(split_on(path, '.'), sensitive)
}

fn find_member<'a>(ms: &'a Vec<(String, JsonValue)>, key: &Vec<char>) -> (r: Option<&'a JsonValue>)
    ensures
        r matches Some(v) ==> member_lookup(ms@, key@) == Some(*v),
        r is None ==> member_lookup(ms@, key@) is None,
{
    let n = ms.len();
    for i in 0..n
        invariant
            n == ms@.len(),
            forall|k: int| 0 <= k < i ==> (#[trigger] ms@[k]).0@ != key@,
    {
        let name = chars_of(ms[i].0.as_str());
        if chars_equal(name.as_slice(), key.as_slice()) {
            proof {
                lemma_lookup_skip(ms@, key@, i as int);
                assert(ms@.skip(i as int)[0] == ms@[i as int]);
            }
            return Some(&ms[i].1);
        }
    }
    proof {
        lemma_lookup_skip(ms@, key@, n as int);
        assert(ms@.skip(n as int).len() == 0);
    }
    None
}

/// Check if a flattened path is marked as sensitive.
pub fn is_sensitive_path(path: &str, sensitive: &JsonValue) -> (r: bool)
    ensures
        r == path_is_sensitive(path@, *sensitive),
{
    let cs = chars_of(path);
    let parts = split_chars(cs.as_slice(), '.');
    let ghost pv = split_on(path@, '.');
    let n = parts.len();
    let mut current = sensitive;
    assert(pv.skip(0) =~= pv);
    for i in 0..n
        invariant
            n == pv.len(),
            n == parts@.len(),
            forall|k: int| 0 <= k < n ==> (#[trigger] parts@[k])@ == pv[k],
            path_is_sensitive(path@, *sensitive) == sensitive_along(pv.skip(i as int), *current),
            pv == split_on(path@, '.'),
    {
        let part = &parts[i];
        assert(pv.skip(i as int)[0] == pv[i as int]);
        assert(pv.skip(i as int).drop_first() =~= pv.skip(i + 1));
        match current {
            JsonValue::Object(ms) => {
                match find_member(ms, part) {
                    Some(v) => {
                        current = v;
                    },
                    None => {
                        return false;
                    },
                }
            },
            JsonValue::Array(xs) => {
                match parse_usize(part.as_slice()) {
                    Some(idx) => {
                        if idx < xs.len() {
                            current = &xs[idx];
                        } else {
                            return false;
                        }
                    },
                    None => {
                        return false;
                    },
                }
            },
            JsonValue::Bool(b) => {
                return *b;
            },
            _ => {
                return false;
            },
        }
    }
    assert(pv.skip(n as int).len() == 0);
    match current {
        JsonValue::Bool(b) => *b,
        _ => false,
    }
}

// ---------------------------------------------------------------------------
// Attribute changes
// ---------------------------------------------------------------------------

/// `ks` lists the keys of `d` in strictly increasing order.
pub open spec fn sorted_keys_ok(ks: Seq<Seq<char>>, d: Set<Seq<char>>) -> bool {
    keys_sorted(ks) && forall|k: Seq<char>| ks.contains(k) <==> d.contains(k)
}

/// The keys of `d` in strictly increasing order.
pub open spec fn sorted_keys(d: Set<Seq<char>>) -> Seq<Seq<char>> {
    choose|ks: Seq<Seq<char>>| sorted_keys_ok(ks, d)
}

/// A sorted listing of a set's keys is the only one.
pub proof fn lemma_sorted_keys(ks: Seq<Seq<char>>, d: Set<Seq<char>>)
    requires
        sorted_keys_ok(ks, d),
    ensures
        sorted_keys(d) == ks,
{
    let c = sorted_keys(d);
    assert(sorted_keys_ok(c, d));
    lemma_sorted_same_members(c, ks);
}

/// The paths whose flattened values differ between `b` and `a`, counting a
/// path present on one side only.
pub open spec fn changed_paths(
    b: Map<Seq<char>, Seq<char>>,
    a: Map<Seq<char>, Seq<char>>,
) -> Set<Seq<char>> {
    Set::new(
        |k: Seq<char>|
            (b.dom().contains(k) || a.dom().contains(k)) && map_get(b, k) != map_get(a, k),
    )
}

/// The value shown for a change: masked when the path is sensitive.
pub open spec fn masked(sensitive: bool, v: Option<Seq<char>>) -> Option<Seq<char>> {
    if sensitive {
        Some("(sensitive)"@)
    } else {
        v
    }
}

/// The change of path `k` between the flattened states `b` and `a`.
pub open spec fn diff_change(
    c: Change,
    k: Seq<char>,
    b: Map<Seq<char>, Seq<char>>,
    a: Map<Seq<char>, Seq<char>>,
) -> AttributeChangeView {
    let s = path_is_sensitive(k, c.before_sensitive) || path_is_sensitive(k, c.after_sensitive);
    AttributeChangeView {
        path: k,
        before: masked(s, map_get(b, k)),
        after: masked(s, map_get(a, k)),
        sensitive: s,
    }
}

/// The change of path `k` with value `v` when only one state is present
/// (the state before when `is_before`): the value, masked when `marks`,
/// the sensitivity marks of that state, mark the path.
pub open spec fn one_sided_change(
    k: Seq<char>,
    v: Seq<char>,
    marks: JsonValue,
    is_before: bool,
) -> AttributeChangeView {
    let s = path_is_sensitive(k, marks);
    let shown = masked(s, Some(v));
    if is_before {
        AttributeChangeView { path: k, before: shown, after: None, sensitive: s }
    } else {
        AttributeChangeView { path: k, before: None, after: shown, sensitive: s }
    }
}

/// The attribute changes of a resource change, in path order: with both
/// states, the paths whose values differ; with one state, all its paths.
/// Values are masked where the marks of the states call them sensitive.
pub open spec fn attribute_changes_of(c: Change) -> Seq<AttributeChangeView> {
    match (c.before, c.after) {
        (Some(bv), Some(av)) => {
            let b = flat_map(bv);
            let a = flat_map(av);
            sorted_keys(changed_paths(b, a)).map_values(|k: Seq<char>| diff_change(c, k, b, a))
        },
        (Some(bv), None) => {
            let b = flat_map(bv);
            sorted_keys(b.dom()).map_values(
                |k: Seq<char>| one_sided_change(k, b[k], c.before_sensitive, true),
            )
        },
        (None, Some(av)) => {
            let a = flat_map(av);
            sorted_keys(a.dom()).map_values(
                |k: Seq<char>| one_sided_change(k, a[k], c.after_sensitive, false),
            )
        },
        (None, None) => Seq::empty(),
    }
}

fn flatten_value(v: &JsonValue) -> (r: KeyMap<String>)
    ensures
        r.wf(),
        r.map() == flat_map(*v),
{
    let mut m: KeyMap<String> = KeyMap::new();
    let e: Vec<char> = Vec::new();
    flatten_into(v, &e, &mut m);
    m
}

/// Every change of one state alone: all its paths, with the values on the
/// side given by `is_before`, masked where `marks` calls them sensitive.
fn one_sided_changes(m: &KeyMap<String>, marks: &JsonValue, is_before: bool) -> (r: Vec<
    AttributeChange,
>)
    requires
        m.wf(),
    ensures
        changes_view(r@) == m.keys().map_values(
            |k: Seq<char>| one_sided_change(k, m.map()[k], *marks, is_before),
        ),
{
    let ghost mk = |k: Seq<char>| one_sided_change(k, m.map()[k], *marks, is_before);
    let mut out: Vec<AttributeChange> = Vec::new();
    let n = m.len();
    let ghost ks = m.keys();
    for i in 0..n
        invariant
            n == ks.len(),
            ks == m.keys(),
            m.wf(),
            mk == (|k: Seq<char>| one_sided_change(k, m.map()[k], *marks, is_before)),
            changes_view(out@) == ks.take(i as int).map_values(mk),
    {
        proof {
            m.lemma_entry(i as int);
        }
        assert(ks[i as int] == m.entries@[i as int].0@);
        let path = string_from_chars(m.entries[i].0.as_slice());
        let sensitive = is_sensitive_path(path.as_str(), marks);
        let shown = if sensitive {
            string_of("(sensitive)")
        } else {
            m.entries[i].1.clone()
        };
        let c = if is_before {
            AttributeChange { path, before: Some(shown), after: None, sensitive }
        } else {
            AttributeChange { path, before: None, after: Some(shown), sensitive }
        };
        assert(c@ == mk(ks[i as int]));
        let ghost prev = changes_view(out@);
        out.push(c);
        assert(changes_view(out@) =~= prev.push(mk(ks[i as int])));
        assert(ks.take(i + 1).map_values(mk) =~= ks.take(i as int).map_values(mk).push(
            mk(ks[i as int]),
        ));
    }
    assert(ks.take(n as int) =~= ks);
    out
}

fn copy_opt_ref(o: Option<&String>) -> (r: Option<String>)
    ensures
        r.deep_view() == match o {
            Some(s) => Some(s@),
            None => None::<Seq<char>>,
        },
{
    match o {
        Some(s) => Some(s.clone()),
        None => None,
    }
}

/// Compute attribute-level changes by diffing before/after JSON values.
pub fn compute_attribute_changes(change: &Change) -> (r: Vec<AttributeChange>)
    ensures
        changes_view(r@) == attribute_changes_of(*change),
{
    match (&change.before, &change.after) {
        (Some(bj), Some(aj)) => {
            let b = flatten_value(bj);
            let a = flatten_value(aj);
            let ghost bm = b.map();
            let ghost am = a.map();
            // Find all keys in either map
            let mut all_keys: KeyMap<bool> = KeyMap::new();
            let nb = b.len();
            for i in 0..nb
                invariant
                    nb == b.keys().len(),
                    b.wf(),
                    all_keys.wf(),
                    forall|k: Seq<char>|
                        all_keys.map().dom().contains(k) <==> b.keys().take(i as int).contains(k),
            {
                assert(b.keys()[i as int] == b.entries@[i as int].0@);
                all_keys.insert(copy_chars(b.entries[i].0.as_slice()), true);
                assert forall|k: Seq<char>|
                    all_keys.map().dom().contains(k) <==> b.keys().take(i + 1).contains(k) by {
                    assert(b.keys().take(i + 1) =~= b.keys().take(i as int).push(
                        b.keys()[i as int],
                    ));
                    crate::seq_util::lemma_contains_push(b.keys().take(i as int), b.keys()[i as int], k);
                }
            }
            assert(b.keys().take(nb as int) =~= b.keys());
            assert(a.keys().take(0) =~= Seq::<Seq<char>>::empty());
            let na = a.len();
            for i in 0..na
                invariant
                    na == a.keys().len(),
                    a.wf(),
                    all_keys.wf(),
                    forall|k: Seq<char>|
                        #[trigger] all_keys.map().dom().contains(k) <==> (b.keys().contains(k)
                            || a.keys().take(i as int).contains(k)),
            {
                assert(a.keys()[i as int] == a.entries@[i as int].0@);
                let ghost old_dom = all_keys.map().dom();
                all_keys.insert(copy_chars(a.entries[i].0.as_slice()), true);
                assert(all_keys.map().dom() == old_dom.insert(a.keys()[i as int]));
                assert forall|k: Seq<char>|
                    all_keys.map().dom().contains(k) <==> (b.keys().contains(k) || a.keys().take(
                        i + 1,
                    ).contains(k)) by {
                    assert(a.keys().take(i + 1) =~= a.keys().take(i as int).push(
                        a.keys()[i as int],
                    ));
                    crate::seq_util::lemma_contains_push(a.keys().take(i as int), a.keys()[i as int], k);
                    assert(old_dom.contains(k) <==> (b.keys().contains(k) || a.keys().take(i as int).contains(k)));
                }
            }
            assert(a.keys().take(na as int) =~= a.keys());
            assert(forall|k: Seq<char>| all_keys.map().dom().contains(k) <==> (bm.dom().contains(k) || am.dom().contains(k)));
            let ghost ks = all_keys.keys();
            let ghost differs = |k: Seq<char>| map_get(bm, k) != map_get(am, k);
            let ghost mk = |k: Seq<char>| diff_change(*change, k, bm, am);
            let mut changes: Vec<AttributeChange> = Vec::new();
            let n = all_keys.len();
            proof {
                crate::seq_util::lemma_filter_take_zero(ks, differs);
            }
            assert(changes_view(changes@) =~= ks.take(0).filter(differs).map_values(mk));
            for i in 0..n
                invariant
                    n == ks.len(),
                    ks == all_keys.keys(),
                    all_keys.wf(),
                    b.wf(),
                    a.wf(),
                    bm == b.map(),
                    am == a.map(),
                    differs == (|k: Seq<char>| map_get(bm, k) != map_get(am, k)),
                    mk == (|k: Seq<char>| diff_change(*change, k, bm, am)),
                    changes_view(changes@) == ks.take(i as int).filter(differs).map_values(mk),
            {
                proof {
                    crate::seq_util::lemma_filter_take_step(ks, i as int, differs);
                }
                let key = &all_keys.entries[i].0;
                assert(ks[i as int] == key@);
                let bv = b.get(key.as_slice());
                let av = a.get(key.as_slice());
                let differ = match (bv, av) {
                    (Some(x), Some(y)) => !(*x == *y),
                    (None, None) => false,
                    _ => true,
                };
                assert(differ == differs(key@));
                if differ {
                    let path = string_from_chars(key.as_slice());
                    let sensitive = is_sensitive_path(path.as_str(), &change.before_sensitive)
                        || is_sensitive_path(path.as_str(), &change.after_sensitive);
                    let before = if sensitive {
                        Some(string_of("(sensitive)"))
                    } else {
                        copy_opt_ref(bv)
                    };
                    let after = if sensitive {
                        Some(string_of("(sensitive)"))
                    } else {
                        copy_opt_ref(av)
                    };
                    let c = AttributeChange { path, before, after, sensitive };
                    assert(c@ == mk(key@));
                    let ghost prev = ks.take(i as int).filter(differs);
                    let ghost old_view = changes_view(changes@);
                    changes.push(c);
                    assert(changes_view(changes@) =~= old_view.push(c@));
                    assert(old_view.push(c@) =~= prev.push(key@).map_values(mk));
                }
            }
            assert(ks.take(n as int) =~= ks);
            proof {
                let sel = ks.filter(differs);
                lemma_filter_sorted(ks, differs);
                assert forall|k: Seq<char>| sel.contains(k) <==> changed_paths(bm, am).contains(k) by {
                    if sel.contains(k) {
                        ks.lemma_filter_contains_rev(differs, k);
                        let j = choose|j: int| 0 <= j < sel.len() && sel[j] == k;
                        ks.lemma_filter_pred(differs, j);
                    }
                    if changed_paths(bm, am).contains(k) {
                        assert(all_keys.map().dom().contains(k));
                        let j = choose|j: int| 0 <= j < ks.len() && ks[j] == k;
                        ks.lemma_filter_contains(differs, j);
                    }
                }
                lemma_sorted_keys(sel, changed_paths(bm, am));
            }
            changes
        },
        (Some(bj), None) => {
            // Resource deleted
            let b = flatten_value(bj);
            proof {
                lemma_sorted_keys(b.keys(), b.map().dom());
            }
            let r = one_sided_changes(&b, &change.before_sensitive, true);
            assert(changes_view(r@) =~= attribute_changes_of(*change));
            r
        },
        (None, Some(aj)) => {
            // Resource created
            let a = flatten_value(aj);
            proof {
                lemma_sorted_keys(a.keys(), a.map().dom());
            }
            let r = one_sided_changes(&a, &change.after_sensitive, false);
            assert(changes_view(r@) =~= attribute_changes_of(*change));
            r
        },
        (None, None) => {
            let r: Vec<AttributeChange> = Vec::new();
            assert(changes_view(r@) =~= Seq::<AttributeChangeView>::empty());
            r
        },
    }
}

// ---------------------------------------------------------------------------
// Actions
// ---------------------------------------------------------------------------

/// The drift action of a plan's action list: one `update`, `delete` or
/// `create`; `create` and `delete` in either order is a replacement; one
/// `read` or `no-op` is no drift; any other non-empty list counts as an
/// update, and an empty one as nothing.
pub open spec fn classify(actions: Seq<Seq<char>>) -> Option<DriftAction> {
    if actions.len() == 1 && actions[0] == "update"@ {
        Some(DriftAction::Update)
    } else if actions.len() == 1 && actions[0] == "delete"@ {
        Some(DriftAction::Delete)
    } else if actions.len() == 1 && actions[0] == "create"@ {
        Some(DriftAction::Create)
    } else if actions.len() == 2 && ((actions[0] == "create"@ && actions[1] == "delete"@) || (
    actions[0] == "delete"@ && actions[1] == "create"@)) {
        Some(DriftAction::Replace)
    } else if actions.len() == 1 && actions[0] == "read"@ {
        None
    } else if actions.len() == 1 && actions[0] == "no-op"@ {
        None
    } else if actions.len() > 0 {
        Some(DriftAction::Update)
    } else {
        None
    }
}

/// Classifies a plan's action list as a drift action.
pub fn classify_action(actions: &[String]) -> (r: Option<DriftAction>)
    ensures
        r == classify(strings_view(actions@)),
{
    let ghost av = strings_view(actions@);
    if actions.len() == 1 {
        assert(av[0] == actions@[0]@);
        let a = actions[0].as_str();
        if str_equal(a, "update") {
            return Some(DriftAction::Update);
        }
        if str_equal(a, "delete") {
            return Some(DriftAction::Delete);
        }
        if str_equal(a, "create") {
            return Some(DriftAction::Create);
        }
        if str_equal(a, "read") {
            // data sources, not drift
            return None;
        }
        if str_equal(a, "no-op") {
            return None;
        }
        // Unknown action, treat as update
        return Some(DriftAction::Update);
    }
    if actions.len() == 2 {
        assert(av[0] == actions@[0]@);
        assert(av[1] == actions@[1]@);
        let a = actions[0].as_str();
        let b = actions[1].as_str();
        if (str_equal(a, "create") && str_equal(b, "delete")) || (str_equal(a, "delete")
            && str_equal(b, "create")) {
            return Some(DriftAction::Replace);
        }
    }
    // Unknown action combination, treat as update
    if actions.len() > 0 {
        Some(DriftAction::Update)
    } else {
        None
    }
}

/// The drifted resource that a resource change describes, if its actions
/// are drift.
pub open spec fn resource_from(rc: ResourceChange, source: DriftSource) -> Option<
    DriftedResourceView,
> {
    match classify(strings_view(rc.change.actions@)) {
        Some(action) => Some(
            DriftedResourceView {
                address: rc.address@,
                resource_type: rc.resource_type@,
                name: rc.name@,
                module_address: rc.module_address.deep_view(),
                provider: rc.provider_name@,
                action,
                attribute_changes: attribute_changes_of(rc.change),
                source,
            },
        ),
        None => None,
    }
}

/// Describes a resource change as a drifted resource, if its actions are
/// drift.
pub fn process_resource_change(rc: &ResourceChange, source: DriftSource) -> (r: Option<
    DriftedResource,
>)
    ensures
        match r {
            Some(d) => resource_from(*rc, source) == Some(d@),
            None => resource_from(*rc, source) is None,
        },
{
    let action = match classify_action(rc.change.actions.as_slice()) {
        Some(a) => a,
        None => {
            return None;
        },
    };
    let attribute_changes = compute_attribute_changes(&rc.change);
    Some(
        DriftedResource {
            address: rc.address.clone(),
            resource_type: rc.resource_type.clone(),
            name: rc.name.clone(),
            module_address: crate::drift::types::copy_opt_string(&rc.module_address),
            provider: rc.provider_name.clone(),
            action,
            attribute_changes,
            source,
        },
    )
}

// ---------------------------------------------------------------------------
// Ignore rules
// ---------------------------------------------------------------------------

/// The path matches one of the patterns.
pub open spec fn matches_some_pattern(path: Seq<char>, patterns: Seq<Seq<char>>) -> bool {
    exists|j: int| 0 <= j < patterns.len() && attribute_matches(path, #[trigger] patterns[j])
}

/// The rule applies to the resource's type.
pub open spec fn rule_type_matches(r: DriftedResourceView, rule: IgnoreRuleView) -> bool {
    rule.resource_types.len() == 0 || rule.resource_types.contains(r.resource_type)
}

/// The rule hides the whole resource: its type and action filters admit
/// it, and either it lists no attributes, or it is in `all` mode and every
/// one of the resource's (one or more) attribute changes matches a pattern.
pub open spec fn should_ignore(r: DriftedResourceView, rule: IgnoreRuleView) -> bool {
    if rule.resource_types.len() > 0 && !rule.resource_types.contains(r.resource_type) {
        false
    } else if rule.actions.len() > 0 && !rule.actions.contains(action_name(r.action)) {
        false
    } else if rule.mode == IgnoreMode::All && rule.attributes.len() > 0 {
        r.attribute_changes.len() > 0 && forall|i: int|
            0 <= i < r.attribute_changes.len() ==> matches_some_pattern(
                #[trigger] r.attribute_changes[i].path,
                rule.attributes,
            )
    } else {
        rule.attributes.len() == 0
    }
}

/// Some rule hides the whole resource.
pub open spec fn ignored_by_rules(r: DriftedResourceView, rules: Seq<IgnoreRuleView>) -> bool {
    exists|i: int| 0 <= i < rules.len() && should_ignore(r, #[trigger] rules[i])
}

/// The rule applies to the resource's action.
pub open spec fn rule_action_matches(r: DriftedResourceView, rule: IgnoreRuleView) -> bool {
    rule.actions.len() == 0 || rule.actions.contains(action_name(r.action))
}

/// Some `any`-mode rule for the resource's type and action hides this
/// attribute change.
pub open spec fn change_hidden(
    r: DriftedResourceView,
    rules: Seq<IgnoreRuleView>,
    a: AttributeChangeView,
) -> bool {
    exists|i: int|
        0 <= i < rules.len() && (#[trigger] rules[i]).mode == IgnoreMode::Any && rule_type_matches(
            r,
            rules[i],
        ) && rule_action_matches(r, rules[i]) && matches_some_pattern(a.path, rules[i].attributes)
}

/// The resource without the attribute changes that `any`-mode rules hide.
pub open spec fn prune_by_rules(
    r: DriftedResourceView,
    rules: Seq<IgnoreRuleView>,
) -> DriftedResourceView {
    DriftedResourceView {
        attribute_changes: r.attribute_changes.filter(
            |a: AttributeChangeView| !change_hidden(r, rules, a),
        ),
        ..r
    }
}

/// A resource stays in a report while it has attribute changes, or is a
/// deletion.
pub open spec fn worth_reporting(r: DriftedResourceView) -> bool {
    r.attribute_changes.len() > 0 || r.action == DriftAction::Delete
}

/// The resources that remain after the ignore rules: those no rule hides,
/// pruned by the `any`-mode rules, that are still worth reporting.
pub open spec fn ignore_rules_applied(
    rs: Seq<DriftedResourceView>,
    rules: Seq<IgnoreRuleView>,
) -> Seq<DriftedResourceView> {
    rs.filter(|r: DriftedResourceView| !ignored_by_rules(r, rules)).map_values(
        |r: DriftedResourceView| prune_by_rules(r, rules),
    ).filter(|r: DriftedResourceView| worth_reporting(r))
}

fn matches_any_pattern(path: &String, patterns: &Vec<String>) -> (r: bool)
    ensures
        r == matches_some_pattern(path@, strings_view(patterns@)),
{
    let n = patterns.len();
    let ghost pv = strings_view(patterns@);
    for j in 0..n
        invariant
            n == patterns@.len(),
            pv == strings_view(patterns@),
            forall|k: int| 0 <= k < j ==> !attribute_matches(path@, #[trigger] pv[k]),
    {
        assert(pv[j as int] == patterns@[j as int]@);
        if attribute_matches_pattern(path.as_str(), patterns[j].as_str()) {
            return true;
        }
    }
    false
}

/// Whether a rule hides a whole resource.
pub fn should_ignore_resource(resource: &DriftedResource, rule: &IgnoreRule) -> (r: bool)
    ensures
        r == should_ignore(resource@, rule@),
{
    // Check resource type filter
    if rule.resource_types.len() > 0 && !strings_contain(
        rule.resource_types.as_slice(),
        &resource.resource_type,
    ) {
        return false;
    }
    // Check action filter
    if rule.actions.len() > 0 {
        let action_str = resource.action.to_string();
        if !strings_contain(rule.actions.as_slice(), &action_str) {
            return false;
        }
    }
    // For "all" mode: ignore only if ALL attribute changes match the ignore patterns
    if rule.mode == IgnoreMode::All && rule.attributes.len() > 0 {
        if resource.attribute_changes.len() == 0 {
            return false;
        }
        let n = resource.attribute_changes.len();
        let ghost cs = changes_view(resource.attribute_changes@);
        assert(should_ignore(resource@, rule@) == (forall|i: int|
            0 <= i < cs.len() ==> matches_some_pattern(
                #[trigger] cs[i].path,
                strings_view(rule.attributes@),
            )));
        for i in 0..n
            invariant
                n == cs.len(),
                cs == changes_view(resource.attribute_changes@),
                should_ignore(resource@, rule@) == (forall|i: int|
                    0 <= i < cs.len() ==> matches_some_pattern(
                        #[trigger] cs[i].path,
                        strings_view(rule.attributes@),
                    )),
                forall|k: int|
                    0 <= k < i ==> matches_some_pattern(
                        #[trigger] cs[k].path,
                        strings_view(rule.attributes@),
                    ),
        {
            assert(cs[i as int].path == resource.attribute_changes@[i as int].path@);
            if !matches_any_pattern(&resource.attribute_changes[i].path, &rule.attributes) {
                return false;
            }
        }
        return true;
    }
    // If no attribute filter specified and type+action matched, ignore the whole resource
    rule.attributes.len() == 0
}

/// Whether a rule applies to a resource's type.
pub fn rule_matches_resource_type(resource: &DriftedResource, rule: &IgnoreRule) -> (r: bool)
    ensures
        r == rule_type_matches(resource@, rule@),
{
    if rule.resource_types.len() == 0 {
        return true;
    }
    strings_contain(rule.resource_types.as_slice(), &resource.resource_type)
}

fn ignored_by_some_rule(resource: &DriftedResource, rules: &[IgnoreRule]) -> (r: bool)
    ensures
        r == ignored_by_rules(resource@, rules_view(rules@)),
{
    let n = rules.len();
    let ghost rv = rules_view(rules@);
    for i in 0..n
        invariant
            n == rules@.len(),
            rv == rules_view(rules@),
            forall|k: int| 0 <= k < i ==> !should_ignore(resource@, #[trigger] rv[k]),
    {
        assert(rv[i as int] == rules@[i as int]@);
        if should_ignore_resource(resource, &rules[i]) {
            return true;
        }
    }
    false
}

fn rule_matches_resource_action(resource: &DriftedResource, rule: &IgnoreRule) -> (r: bool)
    ensures
        r == rule_action_matches(resource@, rule@),
{
    if rule.actions.len() == 0 {
        return true;
    }
    let action_str = resource.action.to_string();
    strings_contain(rule.actions.as_slice(), &action_str)
}

fn hidden_by_rules(resource: &DriftedResource, rules: &[IgnoreRule], change: &AttributeChange) -> (r: bool)
    ensures
        r == change_hidden(resource@, rules_view(rules@), change@),
{
    let n = rules.len();
    let ghost rv = rules_view(rules@);
    for i in 0..n
        invariant
            n == rules@.len(),
            rv == rules_view(rules@),
            forall|k: int|
                0 <= k < i ==> !((#[trigger] rv[k]).mode == IgnoreMode::Any && rule_type_matches(
                    resource@,
                    rv[k],
                ) && rule_action_matches(resource@, rv[k]) && matches_some_pattern(
                    change@.path,
                    rv[k].attributes,
                )),
    {
        let rule = &rules[i];
        assert(rv[i as int] == rule@);
        if rule.mode == IgnoreMode::Any && rule_matches_resource_type(resource, rule)
            && rule_matches_resource_action(resource, rule)
            && matches_any_pattern(&change.path, &rule.attributes) {
            return true;
        }
    }
    false
}

fn prune_resource_by_rules(resource: &DriftedResource, rules: &[IgnoreRule]) -> (r: DriftedResource)
    ensures
        r@ == prune_by_rules(resource@, rules_view(rules@)),
{
    let ghost rv = rules_view(rules@);
    let ghost cs = changes_view(resource.attribute_changes@);
    let ghost keep = |a: AttributeChangeView| !change_hidden(resource@, rv, a);
    let mut kept: Vec<AttributeChange> = Vec::new();
    let n = resource.attribute_changes.len();
    proof {
        crate::seq_util::lemma_filter_take_zero(cs, keep);
    }
    assert(changes_view(kept@) =~= Seq::<AttributeChangeView>::empty());
    for i in 0..n
        invariant
            n == cs.len(),
            cs == changes_view(resource.attribute_changes@),
            rv == rules_view(rules@),
            keep == (|a: AttributeChangeView| !change_hidden(resource@, rv, a)),
            changes_view(kept@) == cs.take(i as int).filter(keep),
    {
        proof {
            crate::seq_util::lemma_filter_take_step(cs, i as int, keep);
        }
        let c = &resource.attribute_changes[i];
        assert(cs[i as int] == c@);
        let ghost prev = changes_view(kept@);
        if !hidden_by_rules(resource, rules, c) {
            kept.push(c.clone());
            assert(changes_view(kept@) =~= prev.push(c@));
        }
    }
    assert(cs.take(n as int) =~= cs);
    resource.with_changes(kept)
}

/// Apply ignore rules to the drifted resources list.
pub fn apply_ignore_rules(resources: &mut Vec<DriftedResource>, rules: &[IgnoreRule])
    ensures
        resources_view(final(resources)@) == ignore_rules_applied(
            resources_view(old(resources)@),
            rules_view(rules@),
        ),
{
    let ghost rv = rules_view(rules@);
    let ghost rs = resources_view(resources@);
    let ghost not_ignored = |r: DriftedResourceView| !ignored_by_rules(r, rv);
    let ghost pruned_all = rs.filter(not_ignored).map_values(
        |r: DriftedResourceView| prune_by_rules(r, rv),
    );
    let ghost worth = |r: DriftedResourceView| worth_reporting(r);
    // Drop the resources that a rule ignores entirely
    let mut kept: Vec<DriftedResource> = Vec::new();
    let n = resources.len();
    proof {
        crate::seq_util::lemma_filter_take_zero(rs, not_ignored);
    }
    assert(resources_view(kept@) =~= Seq::<DriftedResourceView>::empty());
    for i in 0..n
        invariant
            n == rs.len(),
            rs == resources_view(resources@),
            rv == rules_view(rules@),
            not_ignored == (|r: DriftedResourceView| !ignored_by_rules(r, rv)),
            resources_view(kept@) == rs.take(i as int).filter(not_ignored),
    {
        proof {
            crate::seq_util::lemma_filter_take_step(rs, i as int, not_ignored);
        }
        let r = &resources[i];
        assert(rs[i as int] == r@);
        let ghost prev = resources_view(kept@);
        if !ignored_by_some_rule(r, rules) {
            kept.push(r.clone());
            assert(resources_view(kept@) =~= prev.push(r@));
        }
    }
    assert(rs.take(n as int) =~= rs);
    // For "any" mode rules, prune individual attribute changes, then remove
    // resources with no remaining attribute changes
    let mut out: Vec<DriftedResource> = Vec::new();
    let m = kept.len();
    let ghost ks = resources_view(kept@);
    proof {
        crate::seq_util::lemma_filter_take_zero(pruned_all, worth);
    }
    assert(resources_view(out@) =~= Seq::<DriftedResourceView>::empty());
    for i in 0..m
        invariant
            m == ks.len(),
            ks == resources_view(kept@),
            rv == rules_view(rules@),
            pruned_all == ks.map_values(|r: DriftedResourceView| prune_by_rules(r, rv)),
            worth == (|r: DriftedResourceView| worth_reporting(r)),
            resources_view(out@) == pruned_all.take(i as int).filter(worth),
    {
        proof {
            crate::seq_util::lemma_filter_take_step(pruned_all, i as int, worth);
        }
        assert(ks[i as int] == kept@[i as int]@);
        let p = prune_resource_by_rules(&kept[i], rules);
        assert(p@ == pruned_all[i as int]);
        let ghost prev = resources_view(out@);
        if p.attribute_changes.len() > 0 || p.action == DriftAction::Delete {
            out.push(p);
            assert(resources_view(out@) =~= prev.push(pruned_all[i as int]));
        }
    }
    assert(pruned_all.take(m as int) =~= pruned_all);
    *resources = out;
}

// ---------------------------------------------------------------------------
// Detection
// ---------------------------------------------------------------------------

/// The resource change asks for nothing (`no-op`) or only creates a new
/// resource (`create`): configuration, not drift.
pub open spec fn config_only(rc: ResourceChange) -> bool {
    strings_view(rc.change.actions@) == seq!["no-op"@]
        || strings_view(rc.change.actions@) == seq!["create"@]
}

/// The drifted resources that the `resource_drift` list describes.
pub open spec fn drift_key_resources(plan: TerraformPlan) -> Seq<DriftedResourceView> {
    plan.resource_drift@.filter_map(
        |rc: ResourceChange| resource_from(rc, DriftSource::ResourceDriftKey),
    )
}

/// The drifted resources inferred from `resource_changes`.
pub open spec fn inferred_resources(plan: TerraformPlan) -> Seq<DriftedResourceView> {
    plan.resource_changes@.filter_map(
        |rc: ResourceChange|
            if config_only(rc) {
                None
            } else {
                resource_from(rc, DriftSource::InferredFromChanges)
            },
    )
}

/// The drifted resources of a plan before ignore rules: those of
/// `resource_drift` when it yields any, else those inferred from
/// `resource_changes`.
pub open spec fn drift_candidates(plan: TerraformPlan) -> Seq<DriftedResourceView> {
    if drift_key_resources(plan).len() > 0 {
        drift_key_resources(plan)
    } else {
        inferred_resources(plan)
    }
}

/// The report that drift detection gives for a plan and ignore rules.
pub open spec fn drift_report_of(
    plan: TerraformPlan,
    rules: Seq<IgnoreRuleView>,
    report: DriftReportView,
) -> bool {
    &&& report.terraform_version == plan.terraform_version.deep_view()
    &&& report.drifted_resources == ignore_rules_applied(drift_candidates(plan), rules)
    &&& summary_consistent(report)
}

fn is_single(actions: &Vec<String>, word: &str) -> (r: bool)
    ensures
        r == (strings_view(actions@) == seq![word@]),
{
    if actions.len() != 1 {
        assert(strings_view(actions@).len() != seq![word@].len());
        return false;
    }
    let r = str_equal(actions[0].as_str(), word);
    assert(strings_view(actions@)[0] == actions@[0]@);
    if r {
        assert(strings_view(actions@) =~= seq![word@]);
    } else {
        assert(strings_view(actions@)[0] != seq![word@][0]);
    }
    r
}

/// Detect drift from a parsed Terraform plan.
pub fn detect_drift(plan: &TerraformPlan, config: &Config) -> (r: DriftReport)
    ensures
        drift_report_of(*plan, config@, r@),
{
    let mut drifted_resources: Vec<DriftedResource> = Vec::new();
    let ghost f1 = |rc: ResourceChange| resource_from(rc, DriftSource::ResourceDriftKey);
    let ghost f2 = |rc: ResourceChange|
        if config_only(rc) {
            None
        } else {
            resource_from(rc, DriftSource::InferredFromChanges)
        };
    // Phase 1: Use resource_drift key if available (Terraform 1.4+)
    let n1 = plan.resource_drift.len();
    proof {
        crate::seq_util::lemma_filter_map_take_zero(plan.resource_drift@, f1);
    }
    assert(resources_view(drifted_resources@) =~= Seq::<DriftedResourceView>::empty());
    for i in 0..n1
        invariant
            n1 == plan.resource_drift@.len(),
            f1 == (|rc: ResourceChange| resource_from(rc, DriftSource::ResourceDriftKey)),
            resources_view(drifted_resources@) == plan.resource_drift@.take(i as int).filter_map(
                f1,
            ),
    {
        proof {
            crate::seq_util::lemma_filter_map_take_step(plan.resource_drift@, i as int, f1);
        }
        let ghost prev = resources_view(drifted_resources@);
        if let Some(drifted) = process_resource_change(
            &plan.resource_drift[i],
            DriftSource::ResourceDriftKey,
        ) {
            drifted_resources.push(drifted);
            assert(resources_view(drifted_resources@) =~= prev.push(drifted@));
        }
    }
    assert(plan.resource_drift@.take(n1 as int) =~= plan.resource_drift@);
    // Phase 2: Fallback to resource_changes if resource_drift yielded nothing
    if drifted_resources.len() == 0 {
        let n2 = plan.resource_changes.len();
        proof {
            crate::seq_util::lemma_filter_map_take_zero(plan.resource_changes@, f2);
        }
        for i in 0..n2
            invariant
                n2 == plan.resource_changes@.len(),
                f2 == (|rc: ResourceChange|
                    if config_only(rc) {
                        None
                    } else {
                        resource_from(rc, DriftSource::InferredFromChanges)
                    }),
                resources_view(drifted_resources@) == plan.resource_changes@.take(
                    i as int,
                ).filter_map(f2),
        {
            proof {
                crate::seq_util::lemma_filter_map_take_step(plan.resource_changes@, i as int, f2);
            }
            let rc = &plan.resource_changes[i];
            let ghost prev = resources_view(drifted_resources@);
            // Skip no-op changes and pure creates (new resources in config, not drift)
            if !is_single(&rc.change.actions, "no-op") && !is_single(&rc.change.actions, "create") {
                if let Some(drifted) = process_resource_change(
                    rc,
                    DriftSource::InferredFromChanges,
                ) {
                    drifted_resources.push(drifted);
                    assert(resources_view(drifted_resources@) =~= prev.push(drifted@));
                }
            }
        }
        assert(plan.resource_changes@.take(n2 as int) =~= plan.resource_changes@);
    }
    // Apply ignore rules from config
    apply_ignore_rules(&mut drifted_resources, config.ignore.as_slice());
    let mut report = DriftReport {
        terraform_version: crate::drift::types::copy_opt_string(&plan.terraform_version),
        drifted_resources,
        summary: DriftSummary { total_drifted: 0, updates: 0, deletes: 0, creates: 0, replaces: 0 },
    };
    report.recalculate_summary();
    report
}

} // verus!
