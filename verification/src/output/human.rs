//! Coloured, human-readable output grouped by resource.

use vstd::prelude::*;

use crate::drift::types::{
    AttributeChange, AttributeChangeView, DriftAction, DriftReport, DriftReportView, DriftSource,
    DriftedResource, DriftedResourceView,
};
use crate::output::hcl::opt_or;
use crate::seq_util::{
    concat_seqs, lemma_concat_seqs_part, lemma_concat_seqs_take_step, lemma_concat_seqs_take_zero,
    lemma_runs_left, lemma_runs_right, lemma_runs_trans, runs_at,
};
use crate::text::{
    concat_all, contains_seq, decimal, has_prefix, has_suffix, push_decimal, string_of,
};

verus! {

/// How a piece of text is coloured.
#[derive(PartialEq, Eq, Structural, Clone, Copy, Debug)]
pub enum Style {
    Plain,
    Green,
    RedBold,
    Yellow,
    Red,
    Magenta,
    Cyan,
    Dimmed,
    Bold,
}

/// A piece of the report and its colouring.
pub struct Segment {
    pub text: String,
    pub style: Style,
}

/// The views of segments.
pub open spec fn segments_view(v: Seq<Segment>) -> Seq<(Seq<char>, Style)> {
    v.map_values(|s: Segment| (s.text@, s.style))
}

/// The sequence that ends coloured text.
pub open spec fn ansi_reset() -> Seq<char> {
    seq!['\x1b', '[', '0', 'm']
}

/// The sequence that starts text in the style with SGR code `code`.
pub open spec fn ansi_open(code: Seq<char>) -> Seq<char> {
    seq!['\x1b', '['] + code + seq!['m']
}

/// What `colored` prints for `text` in the style with SGR code `code`: the
/// text unchanged while colouring is off; while it is on, the text between
/// the style's opening sequence and the reset sequence (a reset sequence
/// inside the text is followed by the opening sequence again, which is
/// only bounded here).
pub open spec fn colored_as(out: Seq<char>, text: Seq<char>, code: Seq<char>) -> bool {
    ||| out == text
    ||| !contains_seq(text, ansi_reset()) && out == ansi_open(code) + text + ansi_reset()
    ||| contains_seq(text, ansi_reset()) && has_prefix(out, ansi_open(code)) && has_suffix(
        out,
        ansi_reset(),
    )
}

/// The SGR code of a style, as `colored` writes it.
pub open spec fn style_code(s: Style) -> Seq<char> {
    match s {
        Style::Plain => Seq::empty(),
        Style::Green => seq!['3', '2'],
        Style::RedBold => seq!['1', ';', '3', '1'],
        Style::Yellow => seq!['3', '3'],
        Style::Red => seq!['3', '1'],
        Style::Magenta => seq!['3', '5'],
        Style::Cyan => seq!['3', '6'],
        Style::Dimmed => seq!['2'],
        Style::Bold => seq!['1'],
    }
}

/// The SGR code after adding bold: bold comes first among the styles
/// `colored` writes, and adding it twice changes nothing.
pub open spec fn with_bold(code: Seq<char>) -> Seq<char> {
    if code == seq!['1'] || has_prefix(code, seq!['1', ';']) {
        code
    } else if code.len() == 0 {
        seq!['1']
    } else {
        seq!['1', ';'] + code
    }
}

#[verifier::external_type_specification]
#[verifier::external_body]
pub struct ExColoredString(colored::ColoredString);

/// What a `ColoredString` holds: its text, and the SGR code of its colour
/// and styles as `colored` writes them (empty when it has none).
pub uninterp spec fn colored_view(s: colored::ColoredString) -> (Seq<char>, Seq<char>);

/// Calls `colored::control::set_override(false)`, which turns colouring
/// off for the rest of the process.
#[verifier::external_body]
fn disable_colors() {
    colored::control::set_override(false);
}

/// Calls `Colorize::green` on a string slice: the text, in green (SGR 32).
#[verifier::external_body]
fn green(text: &str) -> (r: colored::ColoredString)
    ensures
        colored_view(r) == (text@, seq!['3', '2']),
{
    colored::Colorize::green(text)
}

/// Calls `Colorize::red` on a string slice: the text, in red (SGR 31).
#[verifier::external_body]
fn red(text: &str) -> (r: colored::ColoredString)
    ensures
        colored_view(r) == (text@, seq!['3', '1']),
{
    colored::Colorize::red(text)
}

/// Calls `Colorize::yellow` on a string slice: the text, in yellow (SGR 33).
#[verifier::external_body]
fn yellow(text: &str) -> (r: colored::ColoredString)
    ensures
        colored_view(r) == (text@, seq!['3', '3']),
{
    colored::Colorize::yellow(text)
}

/// Calls `Colorize::magenta` on a string slice: the text, in magenta
/// (SGR 35).
#[verifier::external_body]
fn magenta(text: &str) -> (r: colored::ColoredString)
    ensures
        colored_view(r) == (text@, seq!['3', '5']),
{
    colored::Colorize::magenta(text)
}

/// Calls `Colorize::cyan` on a string slice: the text, in cyan (SGR 36).
#[verifier::external_body]
fn cyan(text: &str) -> (r: colored::ColoredString)
    ensures
        colored_view(r) == (text@, seq!['3', '6']),
{
    colored::Colorize::cyan(text)
}

/// Calls `Colorize::dimmed` on a string slice: the text, dimmed (SGR 2).
#[verifier::external_body]
fn dimmed(text: &str) -> (r: colored::ColoredString)
    ensures
        colored_view(r) == (text@, seq!['2']),
{
    colored::Colorize::dimmed(text)
}

/// Calls `Colorize::bold` on a string slice: the text, in bold (SGR 1).
#[verifier::external_body]
fn bold(text: &str) -> (r: colored::ColoredString)
    ensures
        colored_view(r) == (text@, seq!['1']),
{
    colored::Colorize::bold(text)
}

/// Calls `Colorize::bold` on a coloured string: the same text and colour,
/// in bold as well.
#[verifier::external_body]
fn make_bold(s: colored::ColoredString) -> (r: colored::ColoredString)
    ensures
        colored_view(r) == (colored_view(s).0, with_bold(colored_view(s).1)),
{
    colored::Colorize::bold(s)
}

/// Prints a coloured string with its `Display`: the text as it is while
/// colouring is off, the text in escape sequences while it is on. Which
/// of the two depends on the process (its override, environment and
/// terminal), and is left open.
#[verifier::external_body]
fn colored_text(s: &colored::ColoredString) -> (r: String)
    ensures
        colored_as(r@, colored_view(*s).0, colored_view(*s).1),
{
    s.to_string()
}

/// What printing a segment can give: plain text as it is, coloured text as
/// `colored` prints it.
pub open spec fn painted_as(seg: (Seq<char>, Style), out: Seq<char>) -> bool {
    if seg.1 == Style::Plain {
        out == seg.0
    } else {
        colored_as(out, seg.0, style_code(seg.1))
    }
}

/// `pieces` are the segments as printed, one for one.
pub open spec fn painted_pieces(segs: Seq<(Seq<char>, Style)>, pieces: Seq<Seq<char>>) -> bool {
    pieces.len() == segs.len() && forall|i: int|
        0 <= i < segs.len() ==> painted_as(#[trigger] segs[i], pieces[i])
}

/// The action label and its colour.
pub open spec fn action_segment(a: DriftAction) -> (Seq<char>, Style) {
    match a {
        DriftAction::Update => ("~ update"@, Style::Yellow),
        DriftAction::Delete => ("- delete"@, Style::Red),
        DriftAction::Create => ("+ create"@, Style::Green),
        DriftAction::Replace => ("-/+ replace"@, Style::Magenta),
    }
}

/// The source badge and its colour.
pub open spec fn source_segment(s: DriftSource) -> (Seq<char>, Style) {
    match s {
        DriftSource::ResourceDriftKey => ("[drift]"@, Style::Cyan),
        DriftSource::InferredFromChanges => ("[inferred]"@, Style::Dimmed),
    }
}

/// The segments of one attribute change line.
pub open spec fn change_segments(a: AttributeChangeView) -> Seq<(Seq<char>, Style)> {
    if a.sensitive {
        seq![
            ("      "@ + a.path + " = "@, Style::Plain),
            ("(sensitive)"@, Style::Yellow),
            (" -> "@, Style::Plain),
            ("(sensitive)"@, Style::Yellow),
            ("\n"@, Style::Plain),
        ]
    } else {
        seq![
            ("      "@ + a.path + " = "@, Style::Plain),
            (opt_or(a.before, "(none)"@), Style::Red),
            (" -> "@, Style::Plain),
            (opt_or(a.after, "(none)"@), Style::Green),
            ("\n"@, Style::Plain),
        ]
    }
}

/// The segments of one resource: its heading line, its changes, a blank line.
pub open spec fn resource_segments(r: DriftedResourceView) -> Seq<(Seq<char>, Style)> {
    seq![
        ("  "@, Style::Plain),
        action_segment(r.action),
        (" "@, Style::Plain),
        (r.address, Style::Bold),
        (" "@, Style::Plain),
        source_segment(r.source),
        (" ("@, Style::Plain),
        (r.resource_type, Style::Dimmed),
        (")\n"@, Style::Plain),
    ] + concat_seqs(
        r.attribute_changes.map_values(|a: AttributeChangeView| change_segments(a)),
    ) + seq![("\n"@, Style::Plain)]
}

/// A summary line, present when its count is not zero.
pub open spec fn count_line(n: usize, sign: Seq<char>, word: Seq<char>) -> Seq<
    (Seq<char>, Style),
> {
    if n > 0 {
        seq![("  "@ + sign + " "@ + decimal(n as nat) + " "@ + word + "\n"@, Style::Plain)]
    } else {
        Seq::empty()
    }
}

/// The segments of the whole human-readable report.
pub open spec fn human_segments_of(report: DriftReportView) -> Seq<(Seq<char>, Style)> {
    if report.drifted_resources.len() == 0 {
        seq![("No drift detected."@, Style::Green), ("\n"@, Style::Plain)]
    } else {
        seq![
            ("Drift detected: "@ + decimal(report.summary.total_drifted as nat) + " resource(s)"@, Style::RedBold),
            ("\n"@, Style::Plain),
        ] + match report.terraform_version {
            Some(v) => seq![("Terraform version: "@ + v + "\n"@, Style::Plain)],
            None => Seq::empty(),
        } + seq![("\n"@, Style::Plain)] + concat_seqs(
            report.drifted_resources.map_values(|r: DriftedResourceView| resource_segments(r)),
        ) + seq![("Summary:"@, Style::Bold), ("\n"@, Style::Plain)] + count_line(
            report.summary.updates,
            "~"@,
            "updated"@,
        ) + count_line(report.summary.deletes, "-"@, "deleted"@) + count_line(
            report.summary.creates,
            "+"@,
            "created"@,
        ) + count_line(report.summary.replaces, "-/+"@, "replaced"@)
    }
}

/// The segments of each attribute change run in the segments of its
/// resource.
proof fn lemma_change_in_resource_segments(r: DriftedResourceView, j: int)
    requires
        0 <= j < r.attribute_changes.len(),
    ensures
        exists|k: int| runs_at(resource_segments(r), change_segments(r.attribute_changes[j]), k),
{
    let parts = r.attribute_changes.map_values(|a: AttributeChangeView| change_segments(a));
    let c = concat_seqs(parts);
    assert(parts[j] == change_segments(r.attribute_changes[j]));
    lemma_concat_seqs_part(parts, j);
    let k1 = concat_seqs(parts.take(j)).len() as int;
    let head = seq![
        ("  "@, Style::Plain),
        action_segment(r.action),
        (" "@, Style::Plain),
        (r.address, Style::Bold),
        (" "@, Style::Plain),
        source_segment(r.source),
        (" ("@, Style::Plain),
        (r.resource_type, Style::Dimmed),
        (")\n"@, Style::Plain),
    ];
    let tail = seq![("\n"@, Style::Plain)];
    assert(resource_segments(r) == head + c + tail);
    lemma_runs_right(head, c);
    lemma_runs_left(head + c, tail);
    lemma_runs_trans(head + c + tail, head + c, c, 0, head.len() as int);
    lemma_runs_trans(head + c + tail, c, parts[j], head.len() as int, k1);
}

/// The segments of each reported resource run in the report's segments.
proof fn lemma_resource_in_report_segments(report: DriftReportView, i: int)
    requires
        0 <= i < report.drifted_resources.len(),
    ensures
        exists|k: int| runs_at(human_segments_of(report), resource_segments(report.drifted_resources[i]), k),
{
    let rs = report.drifted_resources;
    let parts = rs.map_values(|r: DriftedResourceView| resource_segments(r));
    let c = concat_seqs(parts);
    assert(parts[i] == resource_segments(rs[i]));
    lemma_concat_seqs_part(parts, i);
    let k1 = concat_seqs(parts.take(i)).len() as int;
    let pre = seq![
        ("Drift detected: "@ + decimal(report.summary.total_drifted as nat) + " resource(s)"@, Style::RedBold),
        ("\n"@, Style::Plain),
    ] + match report.terraform_version {
        Some(v) => seq![("Terraform version: "@ + v + "\n"@, Style::Plain)],
        None => Seq::empty(),
    } + seq![("\n"@, Style::Plain)];
    let s1 = seq![("Summary:"@, Style::Bold), ("\n"@, Style::Plain)];
    let l1 = count_line(report.summary.updates, "~"@, "updated"@);
    let l2 = count_line(report.summary.deletes, "-"@, "deleted"@);
    let l3 = count_line(report.summary.creates, "+"@, "created"@);
    let l4 = count_line(report.summary.replaces, "-/+"@, "replaced"@);
    let x0 = pre + c;
    let x1 = x0 + s1;
    let x2 = x1 + l1;
    let x3 = x2 + l2;
    let x4 = x3 + l3;
    let x5 = x4 + l4;
    assert(human_segments_of(report) == x5);
    lemma_runs_right(pre, c);
    lemma_runs_left(x0, s1);
    lemma_runs_left(x1, l1);
    lemma_runs_left(x2, l2);
    lemma_runs_left(x3, l3);
    lemma_runs_left(x4, l4);
    lemma_runs_trans(x1, x0, c, 0, pre.len() as int);
    lemma_runs_trans(x2, x1, c, 0, pre.len() as int);
    lemma_runs_trans(x3, x2, c, 0, pre.len() as int);
    lemma_runs_trans(x4, x3, c, 0, pre.len() as int);
    lemma_runs_trans(x5, x4, c, 0, pre.len() as int);
    lemma_runs_trans(x5, c, parts[i], pre.len() as int, k1);
}

/// Every attribute change of every reported resource has its line in the
/// human-readable report: its path, then its value before in red and its
/// value after in green, `(none)` standing for an absent one, or
/// `(sensitive)` in yellow on both sides when the change is sensitive.
pub proof fn law_human_line_per_change(report: DriftReportView, i: int, j: int)
    requires
        0 <= i < report.drifted_resources.len(),
        0 <= j < report.drifted_resources[i].attribute_changes.len(),
    ensures
        ({
            let a = report.drifted_resources[i].attribute_changes[j];
            let h = human_segments_of(report);
            exists|k: int|
                0 <= k && k + 5 <= h.len() && #[trigger] h[k] == ("      "@ + a.path + " = "@, Style::Plain)
                    && h[k + 1] == (if a.sensitive {
                    ("(sensitive)"@, Style::Yellow)
                } else {
                    (
                        match a.before {
                            Some(v) => v,
                            None => "(none)"@,
                        },
                        Style::Red,
                    )
                }) && h[k + 2] == (" -> "@, Style::Plain) && h[k + 3] == (if a.sensitive {
                    ("(sensitive)"@, Style::Yellow)
                } else {
                    (
                        match a.after {
                            Some(v) => v,
                            None => "(none)"@,
                        },
                        Style::Green,
                    )
                }) && h[k + 4] == ("\n"@, Style::Plain)
        }),
{
    let a = report.drifted_resources[i].attribute_changes[j];
    let h = human_segments_of(report);
    lemma_change_in_report_segments(report, i, j);
    let m = choose|m: int| runs_at(h, change_segments(a), m);
    let cs = change_segments(a);
    assert forall|q: int| 0 <= q < 5 implies h[m + q] == cs[q] by {
        assert(h.subrange(m, m + 5)[q] == h[m + q]);
    }
    assert(h[m] == ("      "@ + a.path + " = "@, Style::Plain));
}

/// The segments of each attribute change of each reported resource run in
/// the report's segments.
proof fn lemma_change_in_report_segments(report: DriftReportView, i: int, j: int)
    requires
        0 <= i < report.drifted_resources.len(),
        0 <= j < report.drifted_resources[i].attribute_changes.len(),
    ensures
        exists|m: int|
            runs_at(
                human_segments_of(report),
                change_segments(report.drifted_resources[i].attribute_changes[j]),
                m,
            ),
{
    let r = report.drifted_resources[i];
    let a = r.attribute_changes[j];
    lemma_change_in_resource_segments(r, j);
    lemma_resource_in_report_segments(report, i);
    let k = choose|k: int| runs_at(resource_segments(r), change_segments(a), k);
    let m = choose|m: int| runs_at(human_segments_of(report), resource_segments(r), m);
    lemma_runs_trans(human_segments_of(report), resource_segments(r), change_segments(a), m, k);
}

fn push_segment(segs: &mut Vec<Segment>, text: String, style: Style)
    ensures
        segments_view(final(segs)@) == segments_view(old(segs)@).push((text@, style)),
{
    let ghost prev = segments_view(segs@);
    segs.push(Segment { text, style });
    assert(segments_view(segs@) =~= prev.push((text@, style)));
}

fn push_change_segments(segs: &mut Vec<Segment>, attr: &AttributeChange)
    ensures
        segments_view(final(segs)@) == segments_view(old(segs)@) + change_segments(attr@),
{
    let ghost start = segments_view(segs@);
    let mut lead = string_of("      ");
    lead.push_str(attr.path.as_str());
    lead.push_str(" = ");
    push_segment(segs, lead, Style::Plain);
    if attr.sensitive {
        push_segment(segs, string_of("(sensitive)"), Style::Yellow);
        push_segment(segs, string_of(" -> "), Style::Plain);
        push_segment(segs, string_of("(sensitive)"), Style::Yellow);
    } else {
        let before = match &attr.before {
            Some(b) => b.clone(),
            None => string_of("(none)"),
        };
        let after = match &attr.after {
            Some(a) => a.clone(),
            None => string_of("(none)"),
        };
        push_segment(segs, before, Style::Red);
        push_segment(segs, string_of(" -> "), Style::Plain);
        push_segment(segs, after, Style::Green);
    }
    push_segment(segs, string_of("\n"), Style::Plain);
    assert(segments_view(segs@) =~= start + change_segments(attr@));
}

fn push_resource_segments(segs: &mut Vec<Segment>, resource: &DriftedResource)
    ensures
        segments_view(final(segs)@) == segments_view(old(segs)@) + resource_segments(resource@),
{
    let ghost start = segments_view(segs@);
    push_segment(segs, string_of("  "), Style::Plain);
    match resource.action {
        DriftAction::Update => push_segment(segs, string_of("~ update"), Style::Yellow),
        DriftAction::Delete => push_segment(segs, string_of("- delete"), Style::Red),
        DriftAction::Create => push_segment(segs, string_of("+ create"), Style::Green),
        DriftAction::Replace => push_segment(segs, string_of("-/+ replace"), Style::Magenta),
    }
    push_segment(segs, string_of(" "), Style::Plain);
    push_segment(segs, resource.address.clone(), Style::Bold);
    push_segment(segs, string_of(" "), Style::Plain);
    match resource.source {
        DriftSource::ResourceDriftKey => push_segment(segs, string_of("[drift]"), Style::Cyan),
        DriftSource::InferredFromChanges => push_segment(
            segs,
            string_of("[inferred]"),
            Style::Dimmed,
        ),
    }
    push_segment(segs, string_of(" ("), Style::Plain);
    push_segment(segs, resource.resource_type.clone(), Style::Dimmed);
    push_segment(segs, string_of(")\n"), Style::Plain);
    let ghost head = segments_view(segs@);
    let ghost parts = resource@.attribute_changes.map_values(
        |a: AttributeChangeView| change_segments(a),
    );
    proof {
        lemma_concat_seqs_take_zero(parts);
    }
    assert(head =~= head + concat_seqs(parts.take(0)));
    let n = resource.attribute_changes.len();
    for i in 0..n
        invariant
            n == parts.len(),
            n == resource.attribute_changes@.len(),
            parts == resource@.attribute_changes.map_values(
                |a: AttributeChangeView| change_segments(a),
            ),
            segments_view(segs@) == head + concat_seqs(parts.take(i as int)),
    {
        proof {
            lemma_concat_seqs_take_step(parts, i as int);
        }
        assert(parts[i as int] == change_segments(resource.attribute_changes@[i as int]@));
        push_change_segments(segs, &resource.attribute_changes[i]);
        assert(segments_view(segs@) =~= head + concat_seqs(parts.take(i + 1)));
    }
    assert(parts.take(n as int) =~= parts);
    push_segment(segs, string_of("\n"), Style::Plain);
    assert(segments_view(segs@) =~= start + resource_segments(resource@));
}

fn push_count_line(segs: &mut Vec<Segment>, n: usize, sign: &str, word: &str)
    ensures
        segments_view(final(segs)@) == segments_view(old(segs)@) + count_line(n, sign@, word@),
{
    let ghost start = segments_view(segs@);
    if n > 0 {
        let mut line = string_of("  ");
        line.push_str(sign);
        line.push_str(" ");
        push_decimal(&mut line, n);
        line.push_str(" ");
        line.push_str(word);
        line.push_str("\n");
        push_segment(segs, line, Style::Plain);
    }
    assert(segments_view(segs@) =~= start + count_line(n, sign@, word@));
}

/// The pieces of the human-readable report and their colours.
#[verifier::rlimit(30)]
pub fn human_segments(report: &DriftReport) -> (r: Vec<Segment>)
    ensures
        segments_view(r@) == human_segments_of(report@),
{
    let mut segs: Vec<Segment> = Vec::new();
    if report.drifted_resources.len() == 0 {
        push_segment(&mut segs, string_of("No drift detected."), Style::Green);
        push_segment(&mut segs, string_of("\n"), Style::Plain);
        assert(segments_view(segs@) =~= human_segments_of(report@));
        return segs;
    }
    let mut title = string_of("Drift detected: ");
    push_decimal(&mut title, report.summary.total_drifted);
    title.push_str(" resource(s)");
    push_segment(&mut segs, title, Style::RedBold);
    push_segment(&mut segs, string_of("\n"), Style::Plain);
    match &report.terraform_version {
        Some(ver) => {
            let mut line = string_of("Terraform version: ");
            line.push_str(ver.as_str());
            line.push_str("\n");
            push_segment(&mut segs, line, Style::Plain);
        },
        None => {},
    }
    push_segment(&mut segs, string_of("\n"), Style::Plain);
    let ghost head = segments_view(segs@);
    let ghost parts = report@.drifted_resources.map_values(
        |r: DriftedResourceView| resource_segments(r),
    );
    proof {
        lemma_concat_seqs_take_zero(parts);
    }
    assert(head =~= head + concat_seqs(parts.take(0)));
    let n = report.drifted_resources.len();
    for i in 0..n
        invariant
            n == parts.len(),
            n == report.drifted_resources@.len(),
            parts == report@.drifted_resources.map_values(
                |r: DriftedResourceView| resource_segments(r),
            ),
            segments_view(segs@) == head + concat_seqs(parts.take(i as int)),
    {
        proof {
            lemma_concat_seqs_take_step(parts, i as int);
        }
        assert(parts[i as int] == resource_segments(report.drifted_resources@[i as int]@));
        push_resource_segments(&mut segs, &report.drifted_resources[i]);
        assert(segments_view(segs@) =~= head + concat_seqs(parts.take(i + 1)));
    }
    assert(parts.take(n as int) =~= parts);
    // Summary
    push_segment(&mut segs, string_of("Summary:"), Style::Bold);
    push_segment(&mut segs, string_of("\n"), Style::Plain);
    push_count_line(&mut segs, report.summary.updates, "~", "updated");
    push_count_line(&mut segs, report.summary.deletes, "-", "deleted");
    push_count_line(&mut segs, report.summary.creates, "+", "created");
    push_count_line(&mut segs, report.summary.replaces, "-/+", "replaced");
    assert(segments_view(segs@) =~= human_segments_of(report@));
    segs
}

fn paint(text: &String, style: Style) -> (r: String)
    ensures
        painted_as((text@, style), r@),
{
    let t = text.as_str();
    let coloured = match style {
        Style::Plain => {
            return text.clone();
        },
        Style::Green => green(t),
        Style::RedBold => {
            proof {
                assert(seq!['3', '1'].len() != seq!['1'].len());
                assert(seq!['3', '1'].subrange(0, 2)[0] != seq!['1', ';'][0]);
                assert(with_bold(seq!['3', '1']) =~= seq!['1', ';', '3', '1']);
            }
            make_bold(red(t))
        },
        Style::Yellow => yellow(t),
        Style::Red => red(t),
        Style::Magenta => magenta(t),
        Style::Cyan => cyan(t),
        Style::Dimmed => dimmed(t),
        Style::Bold => bold(t),
    };
    colored_text(&coloured)
}

/// The texts of the segments, without colour.
pub open spec fn segment_texts(segs: Seq<(Seq<char>, Style)>) -> Seq<Seq<char>> {
    segs.map_values(|s: (Seq<char>, Style)| s.0)
}

/// Renders the report as coloured text. With `no_color`, colouring is
/// turned off, as `colored` allows, and the text is the segments' own
/// texts, with no escape sequence.
pub fn render(report: &DriftReport, no_color: bool) -> (r: String)
    ensures
        exists|pieces: Seq<Seq<char>>|
            painted_pieces(human_segments_of(report@), pieces) && r@ == concat_all(pieces),
        no_color ==> r@ == concat_all(segment_texts(human_segments_of(report@))),
{
    if no_color {
        disable_colors();
    }
    let segs = human_segments(report);
    let ghost sv = segments_view(segs@);
    let mut out = String::new();
    let ghost mut pieces: Seq<Seq<char>> = Seq::empty();
    let n = segs.len();
    assert(sv.take(0) =~= Seq::<(Seq<char>, Style)>::empty());
    assert(segment_texts(sv.take(0)) =~= pieces);
    for i in 0..n
        invariant
            n == sv.len(),
            sv == segments_view(segs@),
            painted_pieces(sv.take(i as int), pieces),
            no_color ==> pieces == segment_texts(sv.take(i as int)),
            out@ == concat_all(pieces),
    {
        let piece = if no_color {
            segs[i].text.clone()
        } else {
            paint(&segs[i].text, segs[i].style)
        };
        assert(sv[i as int] == (segs@[i as int].text@, segs@[i as int].style));
        out.push_str(piece.as_str());
        proof {
            let old_pieces = pieces;
            pieces = pieces.push(piece@);
            assert(pieces.drop_last() =~= old_pieces);
            assert(painted_pieces(sv.take(i + 1), pieces)) by {
                assert forall|k: int| 0 <= k < i + 1 implies painted_as(
                    #[trigger] sv.take(i + 1)[k],
                    pieces[k],
                ) by {
                    if k < i {
                        assert(sv.take(i + 1)[k] == sv.take(i as int)[k]);
                    }
                }
            }
            if no_color {
                assert(segment_texts(sv.take(i + 1)) =~= segment_texts(sv.take(i as int)).push(
                    sv[i as int].0,
                ));
            }
        }
    }
    assert(sv.take(n as int) =~= sv);
    out
}

} // verus!
