//! Command-line filters on a drift report, and address globs.

use vstd::prelude::*;

use crate::drift::properties::{part_of, part_of_some};
use crate::drift::types::{
    changes_view, resources_view, summary_consistent, AttributeChange, AttributeChangeView,
    DriftReport, DriftReportView, DriftedResource, DriftedResourceView,
};
use crate::text::{
    chars_of, chars_occur_at, chars_starts_with, find_from, has_prefix, has_suffix,
    lemma_split_join, lemma_split_nonempty, lemma_split_without_sep, occurs_at, split_chars, split_on,
    str_equal, strings_contain, strings_view,
};

verus! {

// ---------------------------------------------------------------------------
// Globs
// ---------------------------------------------------------------------------

/// The parts occur in `s` in order and without overlapping: the last part
/// occurs somewhere, and the other parts occur in order before it.
pub open spec fn parts_in_order(parts: Seq<Seq<char>>, s: Seq<char>) -> bool
    decreases parts.len(),
{
    if parts.len() == 0 {
        true
    } else {
        exists|i: int|
            occurs_at(s, parts.last(), i) && parts_in_order(parts.drop_last(), #[trigger] s.take(i))
    }
}

/// `text` matches `pattern`, where each `*` stands for any substring
/// (possibly empty) and every other character stands for itself.
pub open spec fn glob_matches(pattern: Seq<char>, text: Seq<char>) -> bool {
    let parts = split_on(pattern, '*');
    if parts.len() == 1 {
        text == pattern
    } else {
        let first = parts[0];
        let last = parts.last();
        &&& has_prefix(text, first)
        &&& has_suffix(text, last)
        &&& first.len() + last.len() <= text.len()
        &&& parts_in_order(
            parts.subrange(1, parts.len() - 1),
            text.subrange(first.len() as int, text.len() - last.len()),
        )
    }
}

/// A pattern without `*` matches exactly the text equal to it.
pub proof fn law_glob_without_star_is_exact(pattern: Seq<char>, text: Seq<char>)
    requires
        !pattern.contains('*'),
    ensures
        glob_matches(pattern, text) <==> text == pattern,
{
    lemma_split_without_sep(pattern, '*');
}

/// A pattern with one `*` between two star-free parts matches exactly the
/// texts that start with the first part and end with the second, the two
/// not overlapping: `module.app.*` matches every address under
/// `module.app.`, `*.web` every address ending in `.web`, and `*` alone
/// every address.
pub proof fn law_glob_one_star(prefix: Seq<char>, suffix: Seq<char>, text: Seq<char>)
    requires
        !prefix.contains('*'),
        !suffix.contains('*'),
    ensures
        glob_matches(prefix + seq!['*'] + suffix, text) <==> (has_prefix(text, prefix) && has_suffix(
            text,
            suffix,
        ) && prefix.len() + suffix.len() <= text.len()),
{
    lemma_split_without_sep(prefix, '*');
    lemma_split_without_sep(suffix, '*');
    lemma_split_join(prefix, suffix, '*');
    let parts = split_on(prefix + seq!['*'] + suffix, '*');
    assert(parts =~= seq![prefix, suffix]);
    assert(parts.subrange(1, parts.len() - 1) =~= Seq::<Seq<char>>::empty());
}

/// Parts in order in a prefix of `u` are in order in `u`.
proof fn lemma_in_order_extend(parts: Seq<Seq<char>>, t: Seq<char>, u: Seq<char>)
    requires
        parts_in_order(parts, t),
        t.len() <= u.len(),
        u.take(t.len() as int) == t,
    ensures
        parts_in_order(parts, u),
{
    if parts.len() > 0 {
        let i = choose|i: int|
            occurs_at(t, parts.last(), i) && parts_in_order(parts.drop_last(), #[trigger] t.take(i));
        assert(u.take(i) =~= t.take(i));
        assert(u.subrange(i, i + parts.last().len()) =~= t.subrange(i, i + parts.last().len()));
        assert(occurs_at(u, parts.last(), i));
    }
}

/// When parts occur in order in `s`, their first `m` parts occur in order in
/// some prefix of `s`.
proof fn lemma_in_order_prefix(parts: Seq<Seq<char>>, s: Seq<char>, m: int)
    requires
        parts_in_order(parts, s),
        0 <= m <= parts.len(),
    ensures
        exists|e: int| 0 <= e <= s.len() && parts_in_order(parts.take(m), #[trigger] s.take(e)),
    decreases parts.len() - m,
{
    if m == parts.len() {
        assert(parts.take(m) =~= parts);
        assert(s.take(s.len() as int) =~= s);
    } else {
        let i = choose|i: int|
            occurs_at(s, parts.last(), i) && parts_in_order(parts.drop_last(), #[trigger] s.take(i));
        lemma_in_order_prefix(parts.drop_last(), s.take(i), m);
        let e = choose|e: int|
            0 <= e <= s.take(i).len() && parts_in_order(
                parts.drop_last().take(m),
                #[trigger] s.take(i).take(e),
            );
        assert(parts.drop_last().take(m) =~= parts.take(m));
        assert(s.take(i).take(e) =~= s.take(e));
    }
}

/// Simple glob matching with `*` as wildcard for any substring.
pub fn glob_match(pattern: &str, text: &str) -> (r: bool)
    ensures
        r == glob_matches(pattern@, text@),
{
    let pat = chars_of(pattern);
    let txt = chars_of(text);
    let parts = split_chars(pat.as_slice(), '*');
    let ghost pv = split_on(pattern@, '*');
    proof {
        lemma_split_nonempty(pattern@, '*');
    }
    assert(forall|k: int| 0 <= k < pv.len() ==> (#[trigger] parts@[k])@ == pv[k]);
    if parts.len() == 1 {
        // No wildcard, exact match
        return str_equal(pattern, text);
    }
    let np = parts.len();
    let n = txt.len();
    let ghost t = text@;
    let first = &parts[0];
    let a = first.len();
    let mut pos: usize = 0;
    // First part must match at the start
    if a > 0 {
        if !chars_starts_with(txt.as_slice(), first.as_slice()) {
            return false;
        }
        pos = a;
    }
    if a > n {
        return false;
    }
    assert(has_prefix(t, pv[0])) by {
        if a == 0 {
            assert(t.subrange(0, 0) =~= pv[0]);
        }
    }
    let ghost mids = pv.subrange(1, np - 1);
    assert(mids.take(0) =~= Seq::<Seq<char>>::empty());
    // Middle parts must appear in order
    let mut k: usize = 1;
    while k < np - 1
        invariant
            np == pv.len(),
            np >= 2,
            pv == split_on(pattern@, '*'),
            t == text@,
            has_prefix(t, pv[0]),
            parts@.len() == np,
            forall|q: int| 0 <= q < pv.len() ==> (#[trigger] parts@[q])@ == pv[q],
            mids == pv.subrange(1, np - 1),
            t == txt@,
            n == t.len(),
            a == pv[0].len(),
            1 <= k <= np - 1,
            a <= pos <= n,
            parts_in_order(mids.take(k - 1), t.subrange(a as int, pos as int)),
            forall|e: int|
                a <= e <= n && parts_in_order(mids.take(k - 1), #[trigger] t.subrange(a as int, e))
                    ==> pos <= e,
        decreases np - 1 - k,
    {
        let part = &parts[k];
        let ghost p = pv[k as int];
        assert(part@ == p);
        assert(mids[k - 1] == p);
        assert(mids.take(k as int).drop_last() =~= mids.take(k - 1));
        assert(mids.take(k as int).last() == p);
        let ghost old_pos = pos;
        if part.len() > 0 {
            match find_from(txt.as_slice(), part.as_slice(), pos) {
                Some(found) => {
                    pos = found + part.len();
                    proof {
                        // soundness: the parts so far, then this one
                        let w = t.subrange(a as int, pos as int);
                        assert(w.take(found - a) =~= t.subrange(a as int, found as int));
                        assert(t.subrange(a as int, found as int).take(old_pos - a) =~= t.subrange(
                            a as int,
                            old_pos as int,
                        ));
                        lemma_in_order_extend(
                            mids.take(k - 1),
                            t.subrange(a as int, old_pos as int),
                            t.subrange(a as int, found as int),
                        );
                        assert(w.subrange(found - a, found - a + p.len()) =~= t.subrange(
                            found as int,
                            found + p.len(),
                        ));
                        assert(occurs_at(w, p, found - a));
                        assert(parts_in_order(mids.take(k as int), w));
                        // completeness: no placement ends earlier
                        assert forall|e: int|
                            a <= e <= n && parts_in_order(
                                mids.take(k as int),
                                #[trigger] t.subrange(a as int, e),
                            ) implies pos <= e by {
                            let we = t.subrange(a as int, e);
                            let i = choose|i: int|
                                occurs_at(we, p, i) && parts_in_order(
                                    mids.take(k - 1),
                                    #[trigger] we.take(i),
                                );
                            assert(we.take(i) =~= t.subrange(a as int, a + i));
                            assert(we.subrange(i, i + p.len()) =~= t.subrange(
                                a + i,
                                a + i + p.len(),
                            ));
                            assert(occurs_at(t, p, a + i));
                        }
                    }
                },
                None => {
                    proof {
                        if glob_matches(pattern@, text@) {
                            let last = pv.last();
                            let win = t.subrange(a as int, t.len() - last.len());
                            lemma_in_order_prefix(mids, win, k as int);
                            let e = choose|e: int|
                                0 <= e <= win.len() && parts_in_order(
                                    mids.take(k as int),
                                    #[trigger] win.take(e),
                                );
                            let we = win.take(e);
                            assert(we =~= t.subrange(a as int, a + e));
                            let i = choose|i: int|
                                occurs_at(we, p, i) && parts_in_order(
                                    mids.take(k - 1),
                                    #[trigger] we.take(i),
                                );
                            assert(we.take(i) =~= t.subrange(a as int, a + i));
                            assert(we.subrange(i, i + p.len()) =~= t.subrange(
                                a + i,
                                a + i + p.len(),
                            ));
                            assert(occurs_at(t, p, a + i));
                        }
                    }
                    return false;
                },
            }
        } else {
            proof {
                let w = t.subrange(a as int, pos as int);
                assert(w.take(pos - a) =~= w);
                assert(w.subrange(pos - a, pos - a) =~= p);
                assert(occurs_at(w, p, pos - a));
                assert(parts_in_order(mids.take(k as int), w));
                assert forall|e: int|
                    a <= e <= n && parts_in_order(
                        mids.take(k as int),
                        #[trigger] t.subrange(a as int, e),
                    ) implies pos <= e by {
                    let we = t.subrange(a as int, e);
                    let i = choose|i: int|
                        occurs_at(we, p, i) && parts_in_order(mids.take(k - 1), #[trigger] we.take(i));
                    assert(we.take(i) =~= t.subrange(a as int, a + i));
                }
            }
        }
        k = k + 1;
    }
    assert(mids.take(np - 2) =~= mids);
    // Last part must match at the end
    let last = &parts[np - 1];
    let ghost lv = pv.last();
    assert(last@ == lv);
    if last.len() > 0 {
        if last.len() > n - pos || !chars_occur_at(txt.as_slice(), last.as_slice(), n - last.len()) {
            proof {
                if glob_matches(pattern@, text@) {
                    let e = t.len() - lv.len();
                    assert(a <= e <= n);
                    assert(parts_in_order(mids, t.subrange(a as int, e)));
                    assert(t.subrange(e, t.len() as int) == lv);
                }
            }
            return false;
        }
        proof {
            let e = t.len() - lv.len();
            assert(t.subrange(a as int, e).take(pos - a) =~= t.subrange(a as int, pos as int));
            lemma_in_order_extend(mids, t.subrange(a as int, pos as int), t.subrange(a as int, e));
        }
    } else {
        proof {
            assert(t.subrange(a as int, t.len() as int).take(pos - a) =~= t.subrange(
                a as int,
                pos as int,
            ));
            lemma_in_order_extend(
                mids,
                t.subrange(a as int, pos as int),
                t.subrange(a as int, t.len() as int),
            );
            assert(t.subrange(t.len() as int, t.len() as int) =~= lv);
        }
    }
    true
}

// ---------------------------------------------------------------------------
// Filters
// ---------------------------------------------------------------------------

/// Filters on resource type, address and changed attributes.
pub struct Filters {
    /// Resource types to keep (empty keeps every type).
    pub resource_types: Vec<String>,
    /// Address globs to keep (empty keeps every address).
    pub resource_names: Vec<String>,
    /// Attribute prefixes to keep (empty keeps every attribute).
    pub attributes: Vec<String>,
}

/// The mathematical content of [`Filters`].
pub struct FiltersView {
    pub resource_types: Seq<Seq<char>>,
    pub resource_names: Seq<Seq<char>>,
    pub attributes: Seq<Seq<char>>,
}

impl View for Filters {
    type V = FiltersView;

    open spec fn view(&self) -> FiltersView {
        FiltersView {
            resource_types: strings_view(self.resource_types@),
            resource_names: strings_view(self.resource_names@),
            attributes: strings_view(self.attributes@),
        }
    }
}

/// No filter is given.
pub open spec fn filters_empty(f: FiltersView) -> bool {
    f.resource_types.len() == 0 && f.resource_names.len() == 0 && f.attributes.len() == 0
}

/// The resource type passes the type filter.
pub open spec fn type_selected(f: FiltersView, resource_type: Seq<char>) -> bool {
    f.resource_types.len() == 0 || f.resource_types.contains(resource_type)
}

/// The address matches one of the address globs, or there are none.
pub open spec fn name_selected(f: FiltersView, address: Seq<char>) -> bool {
    f.resource_names.len() == 0 || exists|i: int|
        0 <= i < f.resource_names.len() && glob_matches(
            #[trigger] f.resource_names[i],
            address,
        )
}

/// The attribute path starts with (or is) one of the attribute filters.
pub open spec fn attribute_selected(f: FiltersView, path: Seq<char>) -> bool {
    exists|i: int|
        0 <= i < f.attributes.len() && (has_prefix(path, #[trigger] f.attributes[i]) || path
            == f.attributes[i])
}

/// Some attribute change passes the attribute filter, or there is none.
pub open spec fn changes_selected(f: FiltersView, changes: Seq<AttributeChangeView>) -> bool {
    f.attributes.len() == 0 || exists|j: int|
        0 <= j < changes.len() && attribute_selected(f, #[trigger] changes[j].path)
}

/// The resource passes all three filters.
pub open spec fn resource_selected(f: FiltersView, r: DriftedResourceView) -> bool {
    &&& type_selected(f, r.resource_type)
    &&& name_selected(f, r.address)
    &&& changes_selected(f, r.attribute_changes)
}

/// The attribute changes of a resource that pass the attribute filter.
pub open spec fn selected_changes(f: FiltersView, changes: Seq<AttributeChangeView>) -> Seq<
    AttributeChangeView,
> {
    changes.filter(|a: AttributeChangeView| attribute_selected(f, a.path))
}

/// A resource with only its selected attribute changes.
pub open spec fn prune_resource(f: FiltersView, r: DriftedResourceView) -> DriftedResourceView {
    DriftedResourceView { attribute_changes: selected_changes(f, r.attribute_changes), ..r }
}

/// The resources that filtering keeps: those that pass the filters, and,
/// when attributes are filtered, each with only its selected changes, and
/// only if some remain.
pub open spec fn filtered_resources(f: FiltersView, rs: Seq<DriftedResourceView>) -> Seq<
    DriftedResourceView,
> {
    let kept = rs.filter(|r: DriftedResourceView| resource_selected(f, r));
    if f.attributes.len() == 0 {
        kept
    } else {
        kept.map_values(|r: DriftedResourceView| prune_resource(f, r)).filter(
            |r: DriftedResourceView| r.attribute_changes.len() > 0,
        )
    }
}

/// What applying the filters makes of a report.
pub open spec fn filters_applied(
    f: FiltersView,
    before: DriftReportView,
    after: DriftReportView,
) -> bool {
    if filters_empty(f) {
        after == before
    } else {
        &&& after.terraform_version == before.terraform_version
        &&& after.drifted_resources == filtered_resources(f, before.drifted_resources)
        &&& summary_consistent(after)
    }
}

impl Filters {
    /// No filter is given.
    pub fn is_empty(&self) -> (r: bool)
        ensures
            r == filters_empty(self@),
    {
        self.resource_types.len() == 0 && self.resource_names.len() == 0
            && self.attributes.len() == 0
    }

    fn matches_type(&self, resource_type: &String) -> (r: bool)
        ensures
            r == type_selected(self@, resource_type@),
    {
        if self.resource_types.len() == 0 {
            return true;
        }
        strings_contain(self.resource_types.as_slice(), resource_type)
    }

    fn matches_name(&self, address: &String) -> (r: bool)
        ensures
            r == name_selected(self@, address@),
    {
        if self.resource_names.len() == 0 {
            return true;
        }
        let n = self.resource_names.len();
        let ghost f = self@;
        for i in 0..n
            invariant
                n == self.resource_names@.len(),
                f == self@,
                forall|k: int| 0 <= k < i ==> !glob_matches(#[trigger] f.resource_names[k], address@),
        {
            if glob_match(self.resource_names[i].as_str(), address.as_str()) {
                assert(f.resource_names[i as int] == self.resource_names@[i as int]@);
                return true;
            }
            assert(f.resource_names[i as int] == self.resource_names@[i as int]@);
        }
        false
    }

    fn attribute_matches(&self, path: &String) -> (r: bool)
        ensures
            r == attribute_selected(self@, path@),
    {
        let p = chars_of(path.as_str());
        let n = self.attributes.len();
        let ghost f = self@;
        for i in 0..n
            invariant
                n == self.attributes@.len(),
                f == self@,
                p@ == path@,
                forall|k: int|
                    0 <= k < i ==> !(has_prefix(path@, #[trigger] f.attributes[k]) || path@
                        == f.attributes[k]),
        {
            let a = chars_of(self.attributes[i].as_str());
            assert(f.attributes[i as int] == self.attributes@[i as int]@);
            if chars_starts_with(p.as_slice(), a.as_slice()) || *path == self.attributes[i] {
                return true;
            }
        }
        false
    }

    fn matches_attributes(&self, attribute_changes: &Vec<AttributeChange>) -> (r: bool)
        ensures
            r == changes_selected(self@, changes_view(attribute_changes@)),
    {
        if self.attributes.len() == 0 {
            return true;
        }
        // At least one attribute change must match a filter
        let n = attribute_changes.len();
        let ghost cs = changes_view(attribute_changes@);
        for j in 0..n
            invariant
                n == attribute_changes@.len(),
                cs == changes_view(attribute_changes@),
                forall|k: int| 0 <= k < j ==> !attribute_selected(self@, #[trigger] cs[k].path),
        {
            assert(cs[j as int].path == attribute_changes@[j as int].path@);
            if self.attribute_matches(&attribute_changes[j].path) {
                return true;
            }
        }
        false
    }

    /// The attribute changes that pass the attribute filter.
    fn select_changes(&self, changes: &Vec<AttributeChange>) -> (r: Vec<AttributeChange>)
        ensures
            changes_view(r@) == selected_changes(self@, changes_view(changes@)),
    {
        let mut out: Vec<AttributeChange> = Vec::new();
        let n = changes.len();
        let ghost cs = changes_view(changes@);
        let ghost pred = |a: AttributeChangeView| attribute_selected(self@, a.path);
        proof {
            crate::seq_util::lemma_filter_take_zero(cs, pred);
        }
        assert(changes_view(out@) =~= Seq::<AttributeChangeView>::empty());
        for j in 0..n
            invariant
                n == changes@.len(),
                cs == changes_view(changes@),
                pred == (|a: AttributeChangeView| attribute_selected(self@, a.path)),
                changes_view(out@) == cs.take(j as int).filter(pred),
        {
            proof {
                crate::seq_util::lemma_filter_take_step(cs, j as int, pred);
            }
            assert(cs[j as int] == changes@[j as int]@);
            let ghost prev = changes_view(out@);
            if self.attribute_matches(&changes[j].path) {
                out.push(changes[j].clone());
                assert(changes_view(out@) =~= prev.push(cs[j as int]));
            }
        }
        assert(cs.take(n as int) =~= cs);
        out
    }

    /// Applies the filters to a report and recomputes its summary.
    pub fn apply(&self, report: &mut DriftReport)
        ensures
            filters_applied(self@, old(report)@, final(report)@),
    {
        if self.is_empty() {
            return;
        }
        let ghost f = self@;
        let ghost rs = old(report)@.drifted_resources;
        let ghost sel = |r: DriftedResourceView| resource_selected(f, r);
        let n = report.drifted_resources.len();
        let mut kept: Vec<DriftedResource> = Vec::new();
        proof {
            crate::seq_util::lemma_filter_take_zero(rs, sel);
        }
        assert(resources_view(kept@) =~= Seq::<DriftedResourceView>::empty());
        for i in 0..n
            invariant
                n == report.drifted_resources@.len(),
                rs == resources_view(report.drifted_resources@),
                f == self@,
                sel == (|r: DriftedResourceView| resource_selected(f, r)),
                resources_view(kept@) == rs.take(i as int).filter(sel),
        {
            proof {
                crate::seq_util::lemma_filter_take_step(rs, i as int, sel);
            }
            let r = &report.drifted_resources[i];
            assert(rs[i as int] == r@);
            let ghost prev = resources_view(kept@);
            if self.matches_type(&r.resource_type) && self.matches_name(&r.address)
                && self.matches_attributes(&r.attribute_changes) {
                kept.push(r.clone());
                assert(resources_view(kept@) =~= prev.push(rs[i as int]));
            }
        }
        assert(rs.take(n as int) =~= rs);
        // If attribute filter is active, prune non-matching attribute changes
        // and remove resources with no remaining attribute changes
        if self.attributes.len() > 0 {
            let ghost ks = resources_view(kept@);
            let ghost pruned_all = ks.map_values(|r: DriftedResourceView| prune_resource(f, r));
            let ghost nonempty = |r: DriftedResourceView| r.attribute_changes.len() > 0;
            let m = kept.len();
            let mut pruned: Vec<DriftedResource> = Vec::new();
            proof {
                crate::seq_util::lemma_filter_take_zero(pruned_all, nonempty);
            }
            assert(resources_view(pruned@) =~= Seq::<DriftedResourceView>::empty());
            for i in 0..m
                invariant
                    m == kept@.len(),
                    ks == resources_view(kept@),
                    f == self@,
                    pruned_all == ks.map_values(|r: DriftedResourceView| prune_resource(f, r)),
                    nonempty == (|r: DriftedResourceView| r.attribute_changes.len() > 0),
                    resources_view(pruned@) == pruned_all.take(i as int).filter(nonempty),
            {
                proof {
                    crate::seq_util::lemma_filter_take_step(pruned_all, i as int, nonempty);
                }
                let r = &kept[i];
                assert(ks[i as int] == r@);
                let changes = self.select_changes(&r.attribute_changes);
                assert(pruned_all[i as int] == prune_resource(f, r@));
                let ghost prev = resources_view(pruned@);
                if changes.len() > 0 {
                    let nr = r.with_changes(changes);
                    assert(nr@ == pruned_all[i as int]);
                    pruned.push(nr);
                    assert(resources_view(pruned@) =~= prev.push(pruned_all[i as int]));
                }
            }
            assert(pruned_all.take(m as int) =~= pruned_all);
            kept = pruned;
        }
        report.drifted_resources = kept;
        report.recalculate_summary();
    }
}

// ---------------------------------------------------------------------------
// Properties of filtering
// ---------------------------------------------------------------------------

/// What filtering keeps passes the filters again unchanged.
proof fn lemma_filtered_stable(f: FiltersView, rs: Seq<DriftedResourceView>)
    ensures
        filtered_resources(f, filtered_resources(f, rs)) == filtered_resources(f, rs),
{
    broadcast use Seq::lemma_filter_pred, Seq::lemma_filter_contains_rev;

    let sel = |r: DriftedResourceView| resource_selected(f, r);
    let kept = rs.filter(sel);
    let out = filtered_resources(f, rs);
    if f.attributes.len() == 0 {
        assert forall|i: int| 0 <= i < kept.len() implies sel(#[trigger] kept[i]) by {}
        crate::seq_util::lemma_filter_keeps_all(kept, sel);
    } else {
        let prune = |r: DriftedResourceView| prune_resource(f, r);
        let nonempty = |r: DriftedResourceView| r.attribute_changes.len() > 0;
        let pk = kept.map_values(prune);
        assert(out == pk.filter(nonempty));
        assert forall|i: int| 0 <= i < out.len() implies sel(#[trigger] out[i]) && prune(out[i])
            == out[i] && nonempty(out[i]) by {
            assert(nonempty(out[i]));
            assert(out.contains(out[i]));
            assert(pk.contains(out[i]));
            let k = choose|k: int| 0 <= k < pk.len() && pk[k] == out[i];
            let r = kept[k];
            assert(sel(r));
            let asel = |a: AttributeChangeView| attribute_selected(f, a.path);
            let cs = out[i].attribute_changes;
            assert(cs == r.attribute_changes.filter(asel));
            assert forall|j: int| 0 <= j < cs.len() implies asel(#[trigger] cs[j]) by {}
            assert(attribute_selected(f, cs[0].path));
            assert(changes_selected(f, cs));
            crate::seq_util::lemma_filter_keeps_all(cs, asel);
            assert(prune(out[i]) =~= out[i]);
        }
        crate::seq_util::lemma_filter_keeps_all(out, sel);
        assert(out.map_values(prune) =~= out);
        assert forall|i: int| 0 <= i < out.len() implies nonempty(#[trigger] out[i]) by {}
        crate::seq_util::lemma_filter_keeps_all(out, nonempty);
    }
}

/// Filtering a report a second time with the same filters changes
/// nothing.
pub proof fn law_filters_idempotent(
    f: FiltersView,
    report: DriftReportView,
    once: DriftReportView,
    twice: DriftReportView,
)
    requires
        filters_applied(f, report, once),
        filters_applied(f, once, twice),
    ensures
        twice == once,
{
    if !filters_empty(f) {
        lemma_filtered_stable(f, report.drifted_resources);
        assert(twice.drifted_resources == once.drifted_resources);
        assert(twice.summary == once.summary);
    }
}

/// Filtering only selects: every resource it keeps is one of the report's
/// resources, with some of its attribute changes.
pub proof fn law_filters_only_select(f: FiltersView, rs: Seq<DriftedResourceView>)
    ensures
        forall|i: int|
            0 <= i < filtered_resources(f, rs).len() ==> part_of_some(
                #[trigger] filtered_resources(f, rs)[i],
                rs,
            ),
{
    broadcast use Seq::lemma_filter_contains_rev;

    let sel = |r: DriftedResourceView| resource_selected(f, r);
    let kept = rs.filter(sel);
    let out = filtered_resources(f, rs);
    assert forall|k: int| 0 <= k < kept.len() implies part_of_some(#[trigger] kept[k], rs) by {
        assert(kept.contains(kept[k]));
        let m = choose|m: int| 0 <= m < rs.len() && rs[m] == kept[k];
        assert forall|j: int| 0 <= j < rs[m].attribute_changes.len() implies rs[m].attribute_changes.contains(
            #[trigger] rs[m].attribute_changes[j],
        ) by {}
        assert(part_of(kept[k], rs[m]));
    }
    if f.attributes.len() > 0 {
        let prune = |r: DriftedResourceView| prune_resource(f, r);
        let nonempty = |r: DriftedResourceView| r.attribute_changes.len() > 0;
        let pk = kept.map_values(prune);
        assert(out == pk.filter(nonempty));
        assert forall|i: int| 0 <= i < out.len() implies part_of_some(#[trigger] out[i], rs) by {
            assert(out.contains(out[i]));
            let k = choose|k: int| 0 <= k < pk.len() && pk[k] == out[i];
            assert(part_of_some(kept[k], rs));
            let m = choose|m: int| 0 <= m < rs.len() && part_of(kept[k], #[trigger] rs[m]);
            let asel = |a: AttributeChangeView| attribute_selected(f, a.path);
            let cs = out[i].attribute_changes;
            assert(cs == kept[k].attribute_changes.filter(asel));
            assert forall|j: int| 0 <= j < cs.len() implies rs[m].attribute_changes.contains(
                #[trigger] cs[j],
            ) by {
                assert(cs.contains(cs[j]));
                let n = choose|n: int|
                    0 <= n < kept[k].attribute_changes.len() && kept[k].attribute_changes[n] == cs[j];
                assert(rs[m].attribute_changes.contains(kept[k].attribute_changes[n]));
            }
            assert(part_of(out[i], rs[m]));
        }
    }
}

/// A resource narrowed by the attribute filter: with only its selected
/// changes, or whole when attributes are not filtered.
pub open spec fn narrowed(f: FiltersView, r: DriftedResourceView) -> DriftedResourceView {
    if f.attributes.len() == 0 {
        r
    } else {
        prune_resource(f, r)
    }
}

/// What filtering makes of one resource: nothing, or the resource
/// narrowed.
pub open spec fn filter_step(f: FiltersView, r: DriftedResourceView) -> Option<DriftedResourceView> {
    if resource_selected(f, r) {
        Some(narrowed(f, r))
    } else {
        None
    }
}

/// Filtering is taking each resource's step in turn.
proof fn lemma_filtered_by_steps(f: FiltersView, rs: Seq<DriftedResourceView>)
    ensures
        filtered_resources(f, rs) == rs.filter_map(|r: DriftedResourceView| filter_step(f, r)),
{
    broadcast use Seq::lemma_filter_contains_rev, Seq::lemma_filter_contains, Seq::lemma_filter_pred;

    let sel = |r: DriftedResourceView| resource_selected(f, r);
    let nar = |r: DriftedResourceView| narrowed(f, r);
    let kept = rs.filter(sel);
    crate::seq_util::lemma_filter_then_map(rs, sel, nar);
    assert((|x: DriftedResourceView|
        if sel(x) {
            Some(nar(x))
        } else {
            None
        }) =~= (|r: DriftedResourceView| filter_step(f, r)));
    if f.attributes.len() == 0 {
        assert(kept.map_values(nar) =~= kept);
    } else {
        let prune = |r: DriftedResourceView| prune_resource(f, r);
        let nonempty = |r: DriftedResourceView| r.attribute_changes.len() > 0;
        let pk = kept.map_values(prune);
        assert(pk =~= kept.map_values(nar));
        assert forall|k: int| 0 <= k < pk.len() implies nonempty(#[trigger] pk[k]) by {
            assert(kept.contains(kept[k]));
            assert(sel(kept[k]));
            let cs = kept[k].attribute_changes;
            let j = choose|j: int| 0 <= j < cs.len() && attribute_selected(f, #[trigger] cs[j].path);
            let asel = |a: AttributeChangeView| attribute_selected(f, a.path);
            assert(asel(cs[j]));
            assert(cs.filter(asel).contains(cs[j]));
        }
        crate::seq_util::lemma_filter_keeps_all(pk, nonempty);
    }
}

/// Some change passes the filters' attribute selection, or attributes are
/// not filtered.
proof fn lemma_changes_selected_as_exists(f: FiltersView, cs: Seq<AttributeChangeView>)
    ensures
        changes_selected(f, cs) == (f.attributes.len() == 0 || exists|j: int|
            0 <= j < cs.len() && (|a: AttributeChangeView| attribute_selected(f, a.path))(
                #[trigger] cs[j],
            )),
{
}

/// The steps of two filters, taken one after the other, give the same
/// result in either order.
proof fn lemma_steps_commute(f: FiltersView, g: FiltersView, r: DriftedResourceView)
    ensures
        (match filter_step(f, r) {
            Some(y) => filter_step(g, y),
            None => None,
        }) == (match filter_step(g, r) {
            Some(y) => filter_step(f, y),
            None => None,
        }),
{
    let cs = r.attribute_changes;
    let af = |a: AttributeChangeView| attribute_selected(f, a.path);
    let ag = |a: AttributeChangeView| attribute_selected(g, a.path);
    crate::seq_util::lemma_filter_exists(cs, af, ag);
    crate::seq_util::lemma_filter_exists(cs, ag, af);
    crate::seq_util::lemma_filter_commute(cs, af, ag);
    lemma_changes_selected_as_exists(f, cs);
    lemma_changes_selected_as_exists(g, cs);
    lemma_changes_selected_as_exists(f, cs.filter(ag));
    lemma_changes_selected_as_exists(g, cs.filter(af));
    let nf = narrowed(f, r);
    let ng = narrowed(g, r);
    lemma_changes_selected_as_exists(g, nf.attribute_changes);
    lemma_changes_selected_as_exists(f, ng.attribute_changes);
    let both_fg = resource_selected(f, r) && resource_selected(g, nf);
    let both_gf = resource_selected(g, r) && resource_selected(f, ng);
    assert(both_fg == both_gf) by {
        if f.attributes.len() > 0 && g.attributes.len() > 0 {
            if both_fg {
                let j = choose|j: int| 0 <= j < cs.len() && af(#[trigger] cs[j]) && ag(cs[j]);
                assert(ag(cs[j]));
            }
            if both_gf {
                let j = choose|j: int| 0 <= j < cs.len() && ag(#[trigger] cs[j]) && af(cs[j]);
                assert(af(cs[j]));
            }
        }
    }
    if both_fg {
        assert(narrowed(g, nf) == narrowed(f, ng));
    }
}

/// Two filters commute: filtering a report by one and then the other
/// gives the same report in either order.
pub proof fn law_filters_commute(
    f: FiltersView,
    g: FiltersView,
    report: DriftReportView,
    by_f: DriftReportView,
    by_f_then_g: DriftReportView,
    by_g: DriftReportView,
    by_g_then_f: DriftReportView,
)
    requires
        filters_applied(f, report, by_f),
        filters_applied(g, by_f, by_f_then_g),
        filters_applied(g, report, by_g),
        filters_applied(f, by_g, by_g_then_f),
    ensures
        by_f_then_g == by_g_then_f,
{
    let rs = report.drifted_resources;
    let sf = |r: DriftedResourceView| filter_step(f, r);
    let sg = |r: DriftedResourceView| filter_step(g, r);
    if !filters_empty(f) && !filters_empty(g) {
        lemma_filtered_by_steps(f, rs);
        lemma_filtered_by_steps(g, rs);
        lemma_filtered_by_steps(g, by_f.drifted_resources);
        lemma_filtered_by_steps(f, by_g.drifted_resources);
        let c1 = |x: DriftedResourceView|
            match sf(x) {
                Some(y) => sg(y),
                None => None,
            };
        let c2 = |x: DriftedResourceView|
            match sg(x) {
                Some(y) => sf(y),
                None => None,
            };
        assert forall|x: DriftedResourceView| #[trigger] c1(x) == c2(x) by {
            lemma_steps_commute(f, g, x);
        }
        assert(c1 =~= c2);
        crate::seq_util::lemma_filter_map_twice(rs, sf, sg, c1);
        crate::seq_util::lemma_filter_map_twice(rs, sg, sf, c2);
    }
    assert(by_f_then_g.drifted_resources == by_g_then_f.drifted_resources);
    assert(by_f_then_g.summary == by_g_then_f.summary);
}

/// Filtering keeps only what the filters ask for: with resource types
/// given, every resource kept has one of them as its type; with address
/// globs given, every address kept matches one of them; with attributes
/// given, every resource kept has attribute changes, and each one kept has
/// a path that starts with (or is) one of the attributes.
pub proof fn law_filters_keep_only_matching(
    f: FiltersView,
    before: DriftReportView,
    after: DriftReportView,
)
    requires
        filters_applied(f, before, after),
    ensures
        forall|i: int|
            0 <= i < after.drifted_resources.len() && f.resource_types.len() > 0
                ==> f.resource_types.contains((#[trigger] after.drifted_resources[i]).resource_type),
        forall|i: int|
            0 <= i < after.drifted_resources.len() && f.resource_names.len() > 0 ==> exists|j: int|
                0 <= j < f.resource_names.len() && glob_matches(
                    f.resource_names[j],
                    (#[trigger] after.drifted_resources[i]).address,
                ),
        forall|i: int|
            0 <= i < after.drifted_resources.len() && f.attributes.len() > 0 ==> (
            #[trigger] after.drifted_resources[i]).attribute_changes.len() > 0,
        forall|i: int, c: int|
            0 <= i < after.drifted_resources.len() && f.attributes.len() > 0 && 0 <= c
                < after.drifted_resources[i].attribute_changes.len() ==> exists|j: int|
                0 <= j < f.attributes.len() && (has_prefix(
                    (#[trigger] after.drifted_resources[i].attribute_changes[c]).path,
                    f.attributes[j],
                ) || after.drifted_resources[i].attribute_changes[c].path == f.attributes[j]),
{
    broadcast use Seq::lemma_filter_map_contains, Seq::lemma_filter_pred;

    if !filters_empty(f) {
        let rs = before.drifted_resources;
        let out = after.drifted_resources;
        lemma_filtered_by_steps(f, rs);
        assert forall|i: int| 0 <= i < out.len() implies exists|t: DriftedResourceView|
            resource_selected(f, t) && #[trigger] out[i] == narrowed(f, t) by {
            assert(out.contains(out[i]));
            let t = choose|t: DriftedResourceView|
                #[trigger] rs.contains(t) && filter_step(f, t) == Some(out[i]);
            assert(resource_selected(f, t) && out[i] == narrowed(f, t));
        }
        assert forall|i: int, c: int|
            0 <= i < out.len() && f.attributes.len() > 0 && 0 <= c
                < out[i].attribute_changes.len() implies exists|j: int|
            0 <= j < f.attributes.len() && (has_prefix(
                (#[trigger] out[i].attribute_changes[c]).path,
                f.attributes[j],
            ) || out[i].attribute_changes[c].path == f.attributes[j]) by {
            let t = choose|t: DriftedResourceView|
                resource_selected(f, t) && #[trigger] out[i] == narrowed(f, t);
            let asel = |a: AttributeChangeView| attribute_selected(f, a.path);
            assert(out[i].attribute_changes == t.attribute_changes.filter(asel));
            assert(asel(out[i].attribute_changes[c]));
        }
        assert forall|i: int| 0 <= i < out.len() && f.attributes.len() > 0 implies (
        #[trigger] out[i]).attribute_changes.len() > 0 by {
            let t = choose|t: DriftedResourceView|
                resource_selected(f, t) && #[trigger] out[i] == narrowed(f, t);
            let asel = |a: AttributeChangeView| attribute_selected(f, a.path);
            let j = choose|j: int|
                0 <= j < t.attribute_changes.len() && attribute_selected(
                    f,
                    #[trigger] t.attribute_changes[j].path,
                );
            broadcast use Seq::lemma_filter_contains;

            assert(asel(t.attribute_changes[j]));
            assert(t.attribute_changes.filter(asel).contains(t.attribute_changes[j]));
        }
    }
}

/// With an attribute filter, every attribute change whose path starts with
/// (or is) one of the attributes is kept, on its resource, when the
/// resource passes the type and address filters.
pub proof fn law_filters_keep_matching_changes(
    f: FiltersView,
    before: DriftReportView,
    after: DriftReportView,
    k: int,
    c: int,
    j: int,
)
    requires
        filters_applied(f, before, after),
        0 <= k < before.drifted_resources.len(),
        0 <= c < before.drifted_resources[k].attribute_changes.len(),
        0 <= j < f.attributes.len(),
        has_prefix(before.drifted_resources[k].attribute_changes[c].path, f.attributes[j])
            || before.drifted_resources[k].attribute_changes[c].path == f.attributes[j],
        f.resource_types.len() == 0 || f.resource_types.contains(
            before.drifted_resources[k].resource_type,
        ),
        f.resource_names.len() == 0 || exists|q: int|
            0 <= q < f.resource_names.len() && glob_matches(
                #[trigger] f.resource_names[q],
                before.drifted_resources[k].address,
            ),
    ensures
        exists|i: int|
            0 <= i < after.drifted_resources.len() && (#[trigger] after.drifted_resources[i]).address
                == before.drifted_resources[k].address
                && after.drifted_resources[i].attribute_changes.contains(
                before.drifted_resources[k].attribute_changes[c],
            ),
{
    broadcast use vstd::seq_lib::group_filter_ensures;

    let rs = before.drifted_resources;
    let r = rs[k];
    let x = r.attribute_changes[c];
    assert(attribute_selected(f, x.path));
    assert(changes_selected(f, r.attribute_changes));
    let sel = |t: DriftedResourceView| resource_selected(f, t);
    assert(sel(r));
    let kept = rs.filter(sel);
    assert(kept.contains(r));
    let m = choose|m: int| 0 <= m < kept.len() && kept[m] == r;
    let prune = |t: DriftedResourceView| prune_resource(f, t);
    let pk = kept.map_values(prune);
    let asel = |a: AttributeChangeView| attribute_selected(f, a.path);
    assert(asel(x));
    assert(r.attribute_changes.filter(asel).contains(x));
    assert(pk[m] == prune_resource(f, r));
    assert(pk[m].attribute_changes.contains(x));
    let nonempty = |t: DriftedResourceView| t.attribute_changes.len() > 0;
    assert(nonempty(pk[m]));
    assert(pk.filter(nonempty).contains(pk[m]));
    let out = pk.filter(nonempty);
    let i = choose|i: int| 0 <= i < out.len() && out[i] == pk[m];
    assert(after.drifted_resources == out);
    assert(after.drifted_resources[i] == pk[m]);
}

/// Without an attribute filter, filtering keeps every resource whose type
/// is one of the given types (or no types are given) and whose address one
/// of the given globs matches (or no globs are given).
pub proof fn law_filters_keep_every_match(
    f: FiltersView,
    before: DriftReportView,
    after: DriftReportView,
    k: int,
)
    requires
        filters_applied(f, before, after),
        f.attributes.len() == 0,
        0 <= k < before.drifted_resources.len(),
        f.resource_types.len() == 0 || f.resource_types.contains(
            before.drifted_resources[k].resource_type,
        ),
        f.resource_names.len() == 0 || exists|j: int|
            0 <= j < f.resource_names.len() && glob_matches(
                #[trigger] f.resource_names[j],
                before.drifted_resources[k].address,
            ),
    ensures
        after.drifted_resources.contains(before.drifted_resources[k]),
{
    broadcast use Seq::lemma_filter_contains;

    let rs = before.drifted_resources;
    if filters_empty(f) {
        assert(after.drifted_resources[k] == rs[k]);
    } else {
        let sel = |r: DriftedResourceView| resource_selected(f, r);
        assert(sel(rs[k]));
    }
}

} // verus!
