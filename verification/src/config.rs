//! Ignore rules: their model, their validation and attribute patterns.

use vstd::prelude::*;

use crate::text::{
    chars_contain_seq, chars_ends_with, chars_equal, chars_of, chars_starts_with, contains_seq,
    decimal, has_prefix, has_suffix, lemma_split_join, lemma_split_nonempty, lemma_split_without_sep,
    occurs_at, push_decimal, split_chars, split_on, str_equal, strings_view,
};

verus! {

/// How an ignore rule treats the attribute patterns it lists.
#[derive(PartialEq, Eq, Structural, Clone, Copy, Debug)]
pub enum IgnoreMode {
    /// Ignore a resource only if all its attribute changes match the patterns.
    All,
    /// Drop the matching attribute changes and keep the resource.
    Any,
}

/// The mode a rule has when its `mode` is not given.
pub fn default_mode() -> (r: IgnoreMode)
    ensures
        r == IgnoreMode::All,
{
    IgnoreMode::All
}

/// One rule of expected drift.
#[derive(Debug)]
pub struct IgnoreRule {
    /// Resource types to match (empty means every type).
    pub resource_types: Vec<String>,
    /// Actions to match (empty means every action).
    pub actions: Vec<String>,
    /// Attribute patterns, dot separated, with `*` for one segment.
    pub attributes: Vec<String>,
    /// How the attribute patterns are applied.
    pub mode: IgnoreMode,
}

/// The mathematical content of an [`IgnoreRule`].
pub struct IgnoreRuleView {
    pub resource_types: Seq<Seq<char>>,
    pub actions: Seq<Seq<char>>,
    pub attributes: Seq<Seq<char>>,
    pub mode: IgnoreMode,
}

impl View for IgnoreRule {
    type V = IgnoreRuleView;

    open spec fn view(&self) -> IgnoreRuleView {
        IgnoreRuleView {
            resource_types: strings_view(self.resource_types@),
            actions: strings_view(self.actions@),
            attributes: strings_view(self.attributes@),
            mode: self.mode,
        }
    }
}

/// A copy of a vector of strings.
pub fn copy_strings(v: &Vec<String>) -> (r: Vec<String>)
    ensures
        r@ == v@,
{
    let mut r: Vec<String> = Vec::new();
    let n = v.len();
    for i in 0..n
        invariant
            n == v@.len(),
            r@ == v@.take(i as int),
    {
        r.push(v[i].clone());
        assert(v@.take(i + 1) =~= v@.take(i as int).push(v@[i as int]));
    }
    assert(v@.take(n as int) =~= v@);
    r
}

impl Clone for IgnoreRule {
    fn clone(&self) -> (r: Self)
        ensures
            r@ == self@,
    {
        IgnoreRule {
            resource_types: copy_strings(&self.resource_types),
            actions: copy_strings(&self.actions),
            attributes: copy_strings(&self.attributes),
            mode: self.mode,
        }
    }
}

/// The configuration file: a list of ignore rules.
#[derive(Debug)]
pub struct Config {
    pub ignore: Vec<IgnoreRule>,
}

/// The views of a sequence of rules.
pub open spec fn rules_view(rules: Seq<IgnoreRule>) -> Seq<IgnoreRuleView> {
    rules.map_values(|r: IgnoreRule| r@)
}

impl View for Config {
    type V = Seq<IgnoreRuleView>;

    open spec fn view(&self) -> Seq<IgnoreRuleView> {
        rules_view(self.ignore@)
    }
}

impl Default for Config {
    fn default() -> (r: Self)
        ensures
            r@ == Seq::<IgnoreRuleView>::empty(),
    {
        let r = Config { ignore: Vec::new() };
        assert(r@ =~= Seq::<IgnoreRuleView>::empty());
        r
    }
}

// ---------------------------------------------------------------------------
// Attribute patterns
// ---------------------------------------------------------------------------

/// The one-segment wildcard.
pub open spec fn is_wildcard(seg: Seq<char>) -> bool {
    seg == seq!['*']
}

/// The segments of `pattern` match the leading segments of `attr`, where
/// `*` matches any single segment.
pub open spec fn segments_match(attr: Seq<Seq<char>>, pattern: Seq<Seq<char>>) -> bool {
    &&& pattern.len() <= attr.len()
    &&& forall|i: int|
        0 <= i < pattern.len() ==> is_wildcard(#[trigger] pattern[i]) || pattern[i] == attr[i]
}

/// An attribute path matches a pattern when, split at dots, the pattern's
/// segments match the path's leading segments (so `tags` matches
/// `tags.Name`, and `*` stands for one segment).
pub open spec fn attribute_matches(attr_path: Seq<char>, pattern: Seq<char>) -> bool {
    segments_match(split_on(attr_path, '.'), split_on(pattern, '.'))
}

fn is_star(seg: &[char]) -> (r: bool)
    ensures
        r == is_wildcard(seg@),
{
    if seg.len() == 1 && seg[0] == '*' {
        assert(seg@ =~= seq!['*']);
        true
    } else {
        false
    }
}

/// Check if an attribute path matches a glob pattern.
/// Supports `*` as a wildcard for a single path segment.
pub fn attribute_matches_pattern(attr_path: &str, pattern: &str) -> (r: bool)
    ensures
        r == attribute_matches(attr_path@, pattern@),
{
    let a = chars_of(attr_path);
    let p = chars_of(pattern);
    let attr_parts = split_chars(a.as_slice(), '.');
    let pattern_parts = split_chars(p.as_slice(), '.');
    let ghost av = split_on(attr_path@, '.');
    let ghost pv = split_on(pattern@, '.');
    proof {
        lemma_split_nonempty(attr_path@, '.');
        lemma_split_nonempty(pattern@, '.');
    }
    assert(attr_parts@.len() == av.len());
    assert(pattern_parts@.len() == pv.len());
    assert(forall|k: int| 0 <= k < av.len() ==> (#[trigger] attr_parts@[k])@ == av[k]);
    assert(forall|k: int| 0 <= k < pv.len() ==> (#[trigger] pattern_parts@[k])@ == pv[k]);
    if attr_parts.len() < pattern_parts.len() {
        // Allow prefix matching: pattern "tags" should match "tags.Name"
        if pattern_parts.len() == 1 {
            return chars_equal(attr_parts[0].as_slice(), pattern_parts[0].as_slice());
        }
        return false;
    }
    let n = pattern_parts.len();
    for i in 0..n
        invariant
            n == pv.len(),
            pv.len() <= av.len(),
            attr_parts@.len() == av.len(),
            pattern_parts@.len() == pv.len(),
            av == split_on(attr_path@, '.'),
            pv == split_on(pattern@, '.'),
            forall|k: int| 0 <= k < av.len() ==> (#[trigger] attr_parts@[k])@ == av[k],
            forall|k: int| 0 <= k < pv.len() ==> (#[trigger] pattern_parts@[k])@ == pv[k],
            forall|k: int| 0 <= k < i ==> is_wildcard(#[trigger] pv[k]) || pv[k] == av[k],
    {
        assert(pattern_parts@[i as int]@ == pv[i as int]);
        if !is_star(pattern_parts[i].as_slice()) {
            if i >= attr_parts.len() {
                return false;
            }
            assert(attr_parts@[i as int]@ == av[i as int]);
            if !chars_equal(pattern_parts[i].as_slice(), attr_parts[i].as_slice()) {
                return false;
            }
        }
    }
    true
}

/// Every attribute path matches itself as a pattern.
pub proof fn law_pattern_matches_itself(path: Seq<char>)
    ensures
        attribute_matches(path, path),
{
}

/// A pattern matches every path below it: `tags` matches `tags.Name`,
/// `template.*` matches `template.0.image`.
pub proof fn law_pattern_matches_paths_below(pattern: Seq<char>, rest: Seq<char>)
    ensures
        attribute_matches(pattern + seq!['.'] + rest, pattern),
{
    lemma_split_join(pattern, rest, '.');
    let p = split_on(pattern, '.');
    let a = split_on(pattern + seq!['.'] + rest, '.');
    assert forall|i: int| 0 <= i < p.len() implies is_wildcard(#[trigger] p[i]) || p[i] == a[i] by {
        assert(a[i] == p[i]);
    }
}

/// A pattern with more segments than a path does not match it, and
/// neither does one with a segment, other than `*`, that differs from the
/// path's segment at the same place: `tag` does not match `tags`, nor
/// `tags.Name` match `tags`.
pub proof fn law_pattern_segments_must_agree(path: Seq<char>, pattern: Seq<char>, i: int)
    ensures
        split_on(pattern, '.').len() > split_on(path, '.').len() ==> !attribute_matches(path, pattern),
        0 <= i < split_on(pattern, '.').len() && i < split_on(path, '.').len() && split_on(
            pattern,
            '.',
        )[i] != seq!['*'] && split_on(pattern, '.')[i] != split_on(path, '.')[i]
            ==> !attribute_matches(path, pattern),
{
}

/// Between names without dots, a pattern other than `*` matches only the
/// name equal to it: `tag` does not match `tags`, nor `tags` match `tag`.
pub proof fn law_plain_names_match_only_themselves(path: Seq<char>, pattern: Seq<char>)
    requires
        !path.contains('.'),
        !pattern.contains('.'),
        pattern != seq!['*'],
    ensures
        attribute_matches(path, pattern) <==> path == pattern,
{
    lemma_split_without_sep(path, '.');
    lemma_split_without_sep(pattern, '.');
    let a = split_on(path, '.');
    let p = split_on(pattern, '.');
    assert(a[0] == path && p[0] == pattern);
    if attribute_matches(path, pattern) {
        assert(is_wildcard(p[0]) || p[0] == a[0]);
    }
}

// ---------------------------------------------------------------------------
// Validation
// ---------------------------------------------------------------------------

/// What `str::to_lowercase` returns for a string.
pub uninterp spec fn unicode_lowercase(s: Seq<char>) -> Seq<char>;

/// The ASCII lower-case form of a character.
pub open spec fn ascii_lower_char(c: char) -> char {
    if 'A' <= c && c <= 'Z' {
        ((c as int) + 32) as char
    } else {
        c
    }
}

/// Every character of `s` is ASCII.
pub open spec fn all_ascii(s: Seq<char>) -> bool {
    forall|i: int| 0 <= i < s.len() ==> (#[trigger] s[i] as int) < 128
}

/// Calls `str::to_lowercase`. The result is named `unicode_lowercase` of the
/// argument; for an all-ASCII argument the documentation's mapping is the
/// ASCII one, which is stated here. What it gives for other characters
/// (the Unicode `Lowercase` mapping) is left unstated.
#[verifier::external_body]
fn to_lowercase(s: &str) -> (r: String)
    ensures
        r@ == unicode_lowercase(s@),
        all_ascii(s@) ==> r@ == s@.map_values(|c: char| ascii_lower_char(c)),
{
    s.to_lowercase()
}

/// An action name accepted in a rule, compared in lower case.
pub open spec fn is_valid_action(action: Seq<char>) -> bool {
    let l = unicode_lowercase(action);
    ||| l == "update"@
    ||| l == "delete"@
    ||| l == "create"@
    ||| l == "replace"@
}

/// The text that starts every message about the rule numbered `n`.
pub open spec fn rule_prefix(n: nat) -> Seq<char> {
    "ignore rule #"@ + decimal(n) + ": "@
}

/// The message for a configuration without rules.
pub open spec fn no_rules_message() -> Seq<char> {
    "no ignore rules defined (file is valid but has no effect)"@
}

/// The message for a rule in `any` mode that lists no attributes.
pub open spec fn any_without_attributes_message(n: nat) -> Seq<char> {
    rule_prefix(n)
        + "mode is \"any\" but no attributes are defined (mode has no effect without attributes)"@
}

/// The message for an action name that is not accepted.
pub open spec fn unknown_action_message(n: nat, action: Seq<char>) -> Seq<char> {
    rule_prefix(n) + "unknown action \""@ + action
        + "\" (valid: update, delete, create, replace)"@
}

/// The message for an empty attribute pattern.
pub open spec fn empty_pattern_message(n: nat) -> Seq<char> {
    rule_prefix(n) + "empty attribute pattern"@
}

/// The message for a pattern that starts or ends with a dot.
pub open spec fn dotted_pattern_message(n: nat, attr: Seq<char>) -> Seq<char> {
    rule_prefix(n) + "attribute pattern \""@ + attr
        + "\" should not start or end with \".\""@
}

/// The message for a pattern with two dots in a row.
pub open spec fn empty_segment_message(n: nat, attr: Seq<char>) -> Seq<char> {
    rule_prefix(n) + "attribute pattern \""@ + attr + "\" has empty segment (\"..\")"@
}

/// The message for a rule that restricts nothing.
pub open spec fn catch_all_message(n: nat) -> Seq<char> {
    rule_prefix(n)
        + "no resource_types, actions, or attributes specified (matches all drift — this will hide everything)"@
}

/// Messages about the actions of rule `n`: one per unknown action, in order.
pub open spec fn action_messages(n: nat, actions: Seq<Seq<char>>) -> Seq<Seq<char>>
    decreases actions.len(),
{
    if actions.len() == 0 {
        Seq::empty()
    } else {
        action_messages(n, actions.drop_last()) + if is_valid_action(actions.last()) {
            Seq::<Seq<char>>::empty()
        } else {
            seq![unknown_action_message(n, actions.last())]
        }
    }
}

/// The message about one attribute pattern of rule `n`, if it is malformed.
pub open spec fn pattern_message(n: nat, attr: Seq<char>) -> Seq<Seq<char>> {
    if attr.len() == 0 {
        seq![empty_pattern_message(n)]
    } else if has_prefix(attr, "."@) || has_suffix(attr, "."@) {
        seq![dotted_pattern_message(n, attr)]
    } else if contains_seq(attr, ".."@) {
        seq![empty_segment_message(n, attr)]
    } else {
        Seq::empty()
    }
}

/// Messages about the attribute patterns of rule `n`, in order.
pub open spec fn pattern_messages(n: nat, attrs: Seq<Seq<char>>) -> Seq<Seq<char>>
    decreases attrs.len(),
{
    if attrs.len() == 0 {
        Seq::empty()
    } else {
        pattern_messages(n, attrs.drop_last()) + pattern_message(n, attrs.last())
    }
}

/// All messages about rule `n`.
pub open spec fn rule_messages(n: nat, rule: IgnoreRuleView) -> Seq<Seq<char>> {
    (if rule.attributes.len() == 0 && rule.mode == IgnoreMode::Any {
        seq![any_without_attributes_message(n)]
    } else {
        Seq::<Seq<char>>::empty()
    }) + action_messages(n, rule.actions) + pattern_messages(n, rule.attributes) + (if rule.attributes.len()
        == 0 && rule.resource_types.len() == 0 && rule.actions.len() == 0 {
        seq![catch_all_message(n)]
    } else {
        Seq::<Seq<char>>::empty()
    })
}

/// Messages about every rule, numbered from 1.
pub open spec fn rules_messages(rules: Seq<IgnoreRuleView>) -> Seq<Seq<char>>
    decreases rules.len(),
{
    if rules.len() == 0 {
        Seq::empty()
    } else {
        rules_messages(rules.drop_last()) + rule_messages(rules.len(), rules.last())
    }
}

/// What validating a configuration reports.
pub open spec fn validation_messages(rules: Seq<IgnoreRuleView>) -> Seq<Seq<char>> {
    if rules.len() == 0 {
        seq![no_rules_message()]
    } else {
        rules_messages(rules)
    }
}

/// The message `m` about rule `n` begins, after its rule prefix, with the
/// character `c`.
pub open spec fn message_topic(n: nat, m: Seq<char>, c: char) -> bool {
    m.len() > rule_prefix(n).len() && m[rule_prefix(n).len() as int] == c
}

/// Every message about the actions of a rule is an unknown-action message.
proof fn lemma_action_messages_topic(n: nat, actions: Seq<Seq<char>>)
    ensures
        forall|i: int|
            0 <= i < action_messages(n, actions).len() ==> message_topic(
                n,
                #[trigger] action_messages(n, actions)[i],
                'u',
            ),
    decreases actions.len(),
{
    reveal_strlit("unknown action \"");
    if actions.len() > 0 {
        lemma_action_messages_topic(n, actions.drop_last());
        let a = actions.last();
        let rp = rule_prefix(n);
        let head = rp + "unknown action \""@;
        let m = unknown_action_message(n, a);
        assert(head[rp.len() as int] == 'u');
        assert((head + a)[rp.len() as int] == 'u');
        assert(m[rp.len() as int] == 'u');
        let rest = action_messages(n, actions.drop_last());
        let tail = if is_valid_action(a) {
            Seq::<Seq<char>>::empty()
        } else {
            seq![m]
        };
        assert(action_messages(n, actions) == rest + tail);
        assert forall|i: int| 0 <= i < (rest + tail).len() implies message_topic(
            n,
            (rest + tail)[i],
            'u',
        ) by {
            if i < rest.len() {
                assert((rest + tail)[i] == rest[i]);
            } else {
                assert((rest + tail)[i] == m);
            }
        }
    }
}

/// Every message about the attribute patterns of a rule is about an empty
/// pattern or about a pattern's dots.
proof fn lemma_pattern_messages_topic(n: nat, attrs: Seq<Seq<char>>)
    ensures
        forall|i: int|
            0 <= i < pattern_messages(n, attrs).len() ==> message_topic(
                n,
                #[trigger] pattern_messages(n, attrs)[i],
                'e',
            ) || message_topic(n, pattern_messages(n, attrs)[i], 'a'),
    decreases attrs.len(),
{
    reveal_strlit("empty attribute pattern");
    reveal_strlit("attribute pattern \"");
    if attrs.len() > 0 {
        lemma_pattern_messages_topic(n, attrs.drop_last());
        let a = attrs.last();
        let rp = rule_prefix(n);
        let p = rp.len() as int;
        let head = rp + "attribute pattern \""@;
        assert(head[p] == 'a');
        assert((head + a)[p] == 'a');
        assert(empty_pattern_message(n)[p] == 'e');
        assert(dotted_pattern_message(n, a)[p] == 'a');
        assert(empty_segment_message(n, a)[p] == 'a');
        let rest = pattern_messages(n, attrs.drop_last());
        let tail = pattern_message(n, a);
        assert(pattern_messages(n, attrs) == rest + tail);
        assert forall|i: int| 0 <= i < (rest + tail).len() implies message_topic(
            n,
            (rest + tail)[i],
            'e',
        ) || message_topic(n, (rest + tail)[i], 'a') by {
            if i < rest.len() {
                assert((rest + tail)[i] == rest[i]);
            } else {
                assert((rest + tail)[i] == tail[i - rest.len()]);
            }
        }
    }
}

/// Validation warns that a rule matches all drift exactly when the rule
/// lists no resource types, no actions and no attributes: a rule that
/// restricts anything gets no such warning.
pub proof fn law_catch_all_warning(n: nat, rule: IgnoreRuleView)
    ensures
        rule_messages(n, rule).contains(catch_all_message(n)) <==> (rule.resource_types.len() == 0
            && rule.actions.len() == 0 && rule.attributes.len() == 0),
{
    reveal_strlit("no resource_types, actions, or attributes specified (matches all drift — this will hide everything)");
    reveal_strlit("mode is \"any\" but no attributes are defined (mode has no effect without attributes)");
    let ms = rule_messages(n, rule);
    let c = catch_all_message(n);
    let p = rule_prefix(n).len() as int;
    assert(c[p] == 'n');
    if rule.resource_types.len() == 0 && rule.actions.len() == 0 && rule.attributes.len() == 0 {
        assert(ms[ms.len() - 1] == c);
    } else {
        lemma_action_messages_topic(n, rule.actions);
        lemma_pattern_messages_topic(n, rule.attributes);
        assert(any_without_attributes_message(n)[p] == 'm');
        let first = if rule.attributes.len() == 0 && rule.mode == IgnoreMode::Any {
            seq![any_without_attributes_message(n)]
        } else {
            Seq::<Seq<char>>::empty()
        };
        let am = action_messages(n, rule.actions);
        let pm = pattern_messages(n, rule.attributes);
        assert(ms =~= first + am + pm);
        assert forall|i: int| 0 <= i < ms.len() implies ms[i] != c by {
            if i < first.len() {
                assert(ms[i][p] == 'm');
            } else if i < first.len() + am.len() {
                assert(ms[i] == am[i - first.len()]);
                assert(message_topic(n, am[i - first.len()], 'u'));
            } else {
                assert(ms[i] == pm[i - first.len() - am.len()]);
                assert(message_topic(n, pm[i - first.len() - am.len()], 'e') || message_topic(
                    n,
                    pm[i - first.len() - am.len()],
                    'a',
                ));
            }
        }
    }
}

/// Validation warns that `any` mode has no effect exactly when the rule is
/// in `any` mode and lists no attributes.
pub proof fn law_any_mode_warning(n: nat, rule: IgnoreRuleView)
    ensures
        rule_messages(n, rule).contains(any_without_attributes_message(n)) <==> (
        rule.attributes.len() == 0 && rule.mode == IgnoreMode::Any),
{
    reveal_strlit("no resource_types, actions, or attributes specified (matches all drift — this will hide everything)");
    reveal_strlit("mode is \"any\" but no attributes are defined (mode has no effect without attributes)");
    let ms = rule_messages(n, rule);
    let w = any_without_attributes_message(n);
    let p = rule_prefix(n).len() as int;
    assert(w[p] == 'm');
    if rule.attributes.len() == 0 && rule.mode == IgnoreMode::Any {
        assert(ms[0] == w);
    } else {
        lemma_action_messages_topic(n, rule.actions);
        lemma_pattern_messages_topic(n, rule.attributes);
        let c = catch_all_message(n);
        assert(c[p] == 'n');
        let am = action_messages(n, rule.actions);
        let pm = pattern_messages(n, rule.attributes);
        let last = if rule.attributes.len() == 0 && rule.resource_types.len() == 0
            && rule.actions.len() == 0 {
            seq![c]
        } else {
            Seq::<Seq<char>>::empty()
        };
        assert(ms =~= am + pm + last);
        assert forall|i: int| 0 <= i < ms.len() implies ms[i] != w by {
            if i < am.len() {
                assert(ms[i] == am[i]);
                assert(message_topic(n, am[i], 'u'));
            } else if i < am.len() + pm.len() {
                assert(ms[i] == pm[i - am.len()]);
                assert(message_topic(n, pm[i - am.len()], 'e') || message_topic(
                    n,
                    pm[i - am.len()],
                    'a',
                ));
            } else {
                assert(ms[i] == c);
            }
        }
    }
}

/// Each action that a rule lists and that is not a known action name gets
/// its own message.
proof fn lemma_unknown_action_listed(n: nat, actions: Seq<Seq<char>>, i: int)
    requires
        0 <= i < actions.len(),
        !is_valid_action(actions[i]),
    ensures
        action_messages(n, actions).contains(unknown_action_message(n, actions[i])),
    decreases actions.len(),
{
    let rest = action_messages(n, actions.drop_last());
    let m = unknown_action_message(n, actions[i]);
    if i == actions.len() - 1 {
        let all = rest + seq![m];
        assert(action_messages(n, actions) == all);
        assert(all[rest.len() as int] == m);
    } else {
        assert(actions.drop_last()[i] == actions[i]);
        lemma_unknown_action_listed(n, actions.drop_last(), i);
        let k = choose|k: int| 0 <= k < rest.len() && rest[k] == m;
        let tail = if is_valid_action(actions.last()) {
            Seq::<Seq<char>>::empty()
        } else {
            seq![unknown_action_message(n, actions.last())]
        };
        assert(action_messages(n, actions) == rest + tail);
        assert((rest + tail)[k] == m);
    }
}

/// Validation names every action of a rule that is not `update`,
/// `delete`, `create` or `replace` (in any case) in a message of its own.
pub proof fn law_unknown_actions_warned(n: nat, rule: IgnoreRuleView, i: int)
    requires
        0 <= i < rule.actions.len(),
        !is_valid_action(rule.actions[i]),
    ensures
        rule_messages(n, rule).contains(unknown_action_message(n, rule.actions[i])),
{
    lemma_unknown_action_listed(n, rule.actions, i);
    let am = action_messages(n, rule.actions);
    let m = unknown_action_message(n, rule.actions[i]);
    let k = choose|k: int| 0 <= k < am.len() && am[k] == m;
    let first = if rule.attributes.len() == 0 && rule.mode == IgnoreMode::Any {
        seq![any_without_attributes_message(n)]
    } else {
        Seq::<Seq<char>>::empty()
    };
    let pm = pattern_messages(n, rule.attributes);
    let last = if rule.attributes.len() == 0 && rule.resource_types.len() == 0
        && rule.actions.len() == 0 {
        seq![catch_all_message(n)]
    } else {
        Seq::<Seq<char>>::empty()
    };
    assert(rule_messages(n, rule) == first + am + pm + last);
    assert((first + am + pm + last)[first.len() + k] == m);
}

/// The messages about each attribute pattern are among the messages about
/// the patterns.
proof fn lemma_pattern_listed(n: nat, attrs: Seq<Seq<char>>, i: int, m: Seq<char>)
    requires
        0 <= i < attrs.len(),
        pattern_message(n, attrs[i]).contains(m),
    ensures
        pattern_messages(n, attrs).contains(m),
    decreases attrs.len(),
{
    let rest = pattern_messages(n, attrs.drop_last());
    let here = pattern_message(n, attrs.last());
    assert(pattern_messages(n, attrs) == rest + here);
    if i == attrs.len() - 1 {
        let k = choose|k: int| 0 <= k < here.len() && here[k] == m;
        assert((rest + here)[rest.len() + k] == m);
    } else {
        assert(attrs.drop_last()[i] == attrs[i]);
        lemma_pattern_listed(n, attrs.drop_last(), i, m);
        let k = choose|k: int| 0 <= k < rest.len() && rest[k] == m;
        assert((rest + here)[k] == m);
    }
}

/// Validation reports a malformed attribute pattern of a rule: an empty
/// pattern; else a pattern that starts or ends with a dot; else a pattern
/// with two dots in a row.
pub proof fn law_malformed_patterns_warned(n: nat, rule: IgnoreRuleView, i: int)
    requires
        0 <= i < rule.attributes.len(),
    ensures
        ({
            let a = rule.attributes[i];
            let ms = rule_messages(n, rule);
            &&& a.len() == 0 ==> ms.contains(empty_pattern_message(n))
            &&& a.len() > 0 && (a[0] == '.' || a[a.len() - 1] == '.') ==> ms.contains(
                dotted_pattern_message(n, a),
            )
            &&& a.len() > 0 && a[0] != '.' && a[a.len() - 1] != '.' && (exists|j: int|
                0 <= j < a.len() - 1 && #[trigger] a[j] == '.' && a[j + 1] == '.') ==> ms.contains(
                empty_segment_message(n, a),
            )
        }),
{
    reveal_strlit(".");
    reveal_strlit("..");
    let a = rule.attributes[i];
    let pm = pattern_messages(n, rule.attributes);
    let here = pattern_message(n, a);
    if a.len() > 0 {
        assert(has_prefix(a, "."@) <==> a[0] == '.') by {
            if a[0] == '.' {
                assert(a.subrange(0, 1) =~= "."@);
            }
            if has_prefix(a, "."@) {
                assert(a.subrange(0, 1)[0] == a[0]);
            }
        }
        assert(has_suffix(a, "."@) <==> a[a.len() - 1] == '.') by {
            if a[a.len() - 1] == '.' {
                assert(a.subrange(a.len() - 1, a.len() as int) =~= "."@);
            }
            if has_suffix(a, "."@) {
                assert(a.subrange(a.len() - 1, a.len() as int)[0] == a[a.len() - 1]);
            }
        }
        if exists|j: int| 0 <= j < a.len() - 1 && #[trigger] a[j] == '.' && a[j + 1] == '.' {
            let j = choose|j: int| 0 <= j < a.len() - 1 && #[trigger] a[j] == '.' && a[j + 1] == '.';
            assert(a.subrange(j, j + 2) =~= ".."@);
            assert(occurs_at(a, ".."@, j));
        }
    }
    if here.len() > 0 {
        assert(here.contains(here[0]));
        lemma_pattern_listed(n, rule.attributes, i, here[0]);
        let k = choose|k: int| 0 <= k < pm.len() && pm[k] == here[0];
        let first = if rule.attributes.len() == 0 && rule.mode == IgnoreMode::Any {
            seq![any_without_attributes_message(n)]
        } else {
            Seq::<Seq<char>>::empty()
        };
        let am = action_messages(n, rule.actions);
        let last = if rule.attributes.len() == 0 && rule.resource_types.len() == 0
            && rule.actions.len() == 0 {
            seq![catch_all_message(n)]
        } else {
            Seq::<Seq<char>>::empty()
        };
        assert(rule_messages(n, rule) == first + am + pm + last);
        assert((first + am + pm + last)[first.len() + am.len() + k] == here[0]);
    }
}

fn rule_prefix_string(n: usize) -> (r: String)
    ensures
        r@ == rule_prefix(n as nat),
{
    let mut s = String::new();
    s.push_str("ignore rule #");
    push_decimal(&mut s, n);
    s.push_str(": ");
    s
}

/// An action name whose ASCII lower case is `update`, `delete`, `create`
/// or `replace`.
pub open spec fn ascii_action_valid(a: Seq<char>) -> bool {
    let l = a.map_values(|c: char| ascii_lower_char(c));
    ||| l == "update"@
    ||| l == "delete"@
    ||| l == "create"@
    ||| l == "replace"@
}

/// For an all-ASCII action name, being accepted is being so in ASCII lower
/// case.
pub open spec fn ascii_case_known(a: Seq<char>) -> bool {
    all_ascii(a) ==> (is_valid_action(a) == ascii_action_valid(a))
}

/// Whether an action name is accepted in a rule: `update`, `delete`,
/// `create` or `replace`, compared in lower case.
pub fn action_is_valid(action: &str) -> (r: bool)
    ensures
        r == is_valid_action(action@),
        all_ascii(action@) ==> r == ascii_action_valid(action@),
{
    let lower = to_lowercase(action);
    str_equal(lower.as_str(), "update") || str_equal(lower.as_str(), "delete") || str_equal(
        lower.as_str(),
        "create",
    ) || str_equal(lower.as_str(), "replace")
}

fn push_action_messages(out: &mut Vec<String>, n: usize, actions: &Vec<String>)
    ensures
        strings_view(final(out)@) == strings_view(old(out)@) + action_messages(
            n as nat,
            strings_view(actions@),
        ),
        forall|j: int|
            0 <= j < actions@.len() ==> ascii_case_known(#[trigger] strings_view(actions@)[j]),
{
    let len = actions.len();
    let ghost acts = strings_view(actions@);
    assert(acts.take(0) =~= Seq::<Seq<char>>::empty());
    for j in 0..len
        invariant
            len == actions@.len(),
            acts == strings_view(actions@),
            strings_view(out@) == strings_view(old(out)@) + action_messages(
                n as nat,
                acts.take(j as int),
            ),
            forall|k: int| 0 <= k < j ==> ascii_case_known(#[trigger] acts[k]),
    {
        let action = &actions[j];
        assert(acts[j as int] == action@);
        assert(acts.take(j + 1).drop_last() =~= acts.take(j as int));
        assert(acts.take(j + 1).last() == action@);
        let ghost prev = strings_view(out@);
        if !action_is_valid(action.as_str()) {
            let mut m = rule_prefix_string(n);
            m.push_str("unknown action \"");
            m.push_str(action.as_str());
            m.push_str("\" (valid: update, delete, create, replace)");
            out.push(m);
            assert(strings_view(out@) =~= prev.push(unknown_action_message(n as nat, action@)));
        } else {
            assert(strings_view(out@) =~= prev);
        }
    }
    assert(acts.take(len as int) =~= acts);
}

fn push_pattern_messages(out: &mut Vec<String>, n: usize, attrs: &Vec<String>)
    ensures
        strings_view(final(out)@) == strings_view(old(out)@) + pattern_messages(
            n as nat,
            strings_view(attrs@),
        ),
{
    let len = attrs.len();
    let ghost ats = strings_view(attrs@);
    assert(ats.take(0) =~= Seq::<Seq<char>>::empty());
    for j in 0..len
        invariant
            len == attrs@.len(),
            ats == strings_view(attrs@),
            strings_view(out@) == strings_view(old(out)@) + pattern_messages(
                n as nat,
                ats.take(j as int),
            ),
    {
        let attr = &attrs[j];
        assert(ats.take(j + 1).drop_last() =~= ats.take(j as int));
        assert(ats.take(j + 1).last() == attr@);
        let ghost prev = strings_view(out@);
        let cs = chars_of(attr.as_str());
        let dot = ['.'];
        let dots = ['.', '.'];
        assert(dot@ =~= "."@) by {
            reveal_strlit(".");
        }
        assert(dots@ =~= ".."@) by {
            reveal_strlit("..");
        }
        if cs.len() == 0 {
            let mut m = rule_prefix_string(n);
            m.push_str("empty attribute pattern");
            out.push(m);
            assert(strings_view(out@) =~= prev + pattern_message(n as nat, attr@));
        } else if chars_starts_with(cs.as_slice(), dot.as_slice()) || chars_ends_with(
            cs.as_slice(),
            dot.as_slice(),
        ) {
            let mut m = rule_prefix_string(n);
            m.push_str("attribute pattern \"");
            m.push_str(attr.as_str());
            m.push_str("\" should not start or end with \".\"");
            out.push(m);
            assert(strings_view(out@) =~= prev + pattern_message(n as nat, attr@));
        } else if chars_contain_seq(cs.as_slice(), dots.as_slice()) {
            let mut m = rule_prefix_string(n);
            m.push_str("attribute pattern \"");
            m.push_str(attr.as_str());
            m.push_str("\" has empty segment (\"..\")");
            out.push(m);
            assert(strings_view(out@) =~= prev + pattern_message(n as nat, attr@));
        } else {
            assert(strings_view(out@) =~= prev + pattern_message(n as nat, attr@));
        }
    }
    assert(ats.take(len as int) =~= ats);
}

fn push_rule_messages(out: &mut Vec<String>, n: usize, rule: &IgnoreRule)
    ensures
        strings_view(final(out)@) == strings_view(old(out)@) + rule_messages(n as nat, rule@),
        forall|j: int| 0 <= j < rule@.actions.len() ==> ascii_case_known(#[trigger] rule@.actions[j]),
{
    let ghost start = strings_view(out@);
    // Check for empty attributes with non-default mode
    if rule.attributes.len() == 0 && rule.mode == IgnoreMode::Any {
        let mut m = rule_prefix_string(n);
        m.push_str(
            "mode is \"any\" but no attributes are defined (mode has no effect without attributes)",
        );
        out.push(m);
    }
    let ghost after_mode = strings_view(out@);
    assert(after_mode =~= start + (if rule@.attributes.len() == 0 && rule@.mode == IgnoreMode::Any {
        seq![any_without_attributes_message(n as nat)]
    } else {
        Seq::<Seq<char>>::empty()
    }));
    // Validate action values
    push_action_messages(out, n, &rule.actions);
    // Validate attribute patterns
    push_pattern_messages(out, n, &rule.attributes);
    let ghost after_patterns = strings_view(out@);
    // Warn if rule has no attributes and mode is "all" (catches everything)
    if rule.attributes.len() == 0 && rule.resource_types.len() == 0 && rule.actions.len() == 0 {
        let mut m = rule_prefix_string(n);
        m.push_str(
            "no resource_types, actions, or attributes specified (matches all drift — this will hide everything)",
        );
        out.push(m);
    }
    assert(strings_view(out@) =~= after_patterns + (if rule@.attributes.len() == 0
        && rule@.resource_types.len() == 0 && rule@.actions.len() == 0 {
        seq![catch_all_message(n as nat)]
    } else {
        Seq::<Seq<char>>::empty()
    }));
    assert(strings_view(out@) =~= start + rule_messages(n as nat, rule@));
}

impl Config {
    /// Validate the config and return a list of warnings/errors.
    pub fn validate(&self) -> (r: Vec<String>)
        ensures
            strings_view(r@) == validation_messages(self@),
            forall|i: int, j: int|
                0 <= i < self@.len() && 0 <= j < self@[i].actions.len() ==> ascii_case_known(
                    #[trigger] self@[i].actions[j],
                ),
    {
        let mut errors: Vec<String> = Vec::new();
        if self.ignore.len() == 0 {
            errors.push(crate::text::string_of(
                "no ignore rules defined (file is valid but has no effect)",
            ));
            assert(strings_view(errors@) =~= seq![no_rules_message()]);
            return errors;
        }
        let n = self.ignore.len();
        let ghost rules = self@;
        assert(rules.take(0) =~= Seq::<IgnoreRuleView>::empty());
        assert(strings_view(errors@) =~= Seq::<Seq<char>>::empty());
        for i in 0..n
            invariant
                n == self.ignore@.len(),
                rules == self@,
                strings_view(errors@) == rules_messages(rules.take(i as int)),
                forall|k: int, j: int|
                    0 <= k < i && 0 <= j < rules[k].actions.len() ==> ascii_case_known(
                        #[trigger] rules[k].actions[j],
                    ),
        {
            let rule = &self.ignore[i];
            assert(rules.take(i + 1).drop_last() =~= rules.take(i as int));
            assert(rules.take(i + 1).last() == rule@);
            push_rule_messages(&mut errors, i + 1, rule);
        }
        assert(rules.take(n as int) =~= rules);
        errors
    }
}

} // verus!
