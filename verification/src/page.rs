//! The dynamic parts of the configuration web page: one card per
//! destination with its recommendation, one row per data source, and the
//! warning banners. The static page around them is served as it is.
use vstd::prelude::*;
use crate::domain::{DecisionModel, TripDecision};
use crate::text::{append_str, chars_of, string_from_chars};
use crate::web::{html_escape, html_escaped, url_encoded, urlencoding, SourceStatus};

verus! {

broadcast use vstd::seq_lib::group_seq_properties;

/// The badge text of a recommendation.
pub open spec fn badge_text(d: DecisionModel) -> Seq<char> {
    match d {
        DecisionModel::Go => "GO"@,
        DecisionModel::Caution(_) => "CAUTION"@,
        DecisionModel::NoGo(_) => "NO GO"@,
        DecisionModel::Unknown(_) => "UNKNOWN"@,
    }
}

/// The CSS class of a recommendation's badge.
pub open spec fn badge_class(d: DecisionModel) -> Seq<char> {
    match d {
        DecisionModel::Go => "go"@,
        DecisionModel::Caution(_) => "caution"@,
        DecisionModel::NoGo(_) => "nogo"@,
        DecisionModel::Unknown(_) => "unknown"@,
    }
}

/// The explanation lines of a recommendation: none for GO.
pub open spec fn decision_messages(d: DecisionModel) -> Seq<Seq<char>> {
    match d {
        DecisionModel::Go => Seq::empty(),
        DecisionModel::Caution(ws) => ws,
        DecisionModel::NoGo(rs) => rs,
        DecisionModel::Unknown(ms) => ms,
    }
}

/// One `<li>` per line, each escaped.
pub open spec fn list_items(lines: Seq<Seq<char>>) -> Seq<char>
    decreases lines.len(),
{
    if lines.len() == 0 {
        Seq::empty()
    } else {
        list_items(lines.drop_last()) + "<li>"@ + html_escaped(lines.last()) + "</li>"@
    }
}

/// The list of explanation lines, or nothing when there are none.
pub open spec fn reasons_block(lines: Seq<Seq<char>>) -> Seq<char> {
    if lines.len() == 0 {
        Seq::empty()
    } else {
        "<ul class=\"reasons\">"@ + list_items(lines) + "</ul>"@
    }
}

/// The parts joined with `sep` between neighbours.
pub open spec fn joined(parts: Seq<Seq<char>>, sep: Seq<char>) -> Seq<char>
    decreases parts.len(),
{
    if parts.len() == 0 {
        Seq::empty()
    } else if parts.len() == 1 {
        parts[0]
    } else {
        joined(parts.drop_last(), sep) + sep + parts.last()
    }
}

/// The criteria summary line, or nothing when no criterion is configured.
pub open spec fn criteria_block(parts: Seq<Seq<char>>) -> Seq<char> {
    if parts.len() == 0 {
        Seq::empty()
    } else {
        "<p class=\"criteria-summary\">"@ + html_escaped(joined(parts, " · "@)) + "</p>"@
    }
}

/// A name as it appears in element ids: its UTF-8 bytes percent-encoded.
pub open spec fn url_id(name: Seq<char>) -> Seq<char> {
    url_encoded(vstd::utf8::encode_utf8(name))
}

/// The card of a destination.
pub open spec fn dest_card(name: Seq<char>, d: DecisionModel, parts: Seq<Seq<char>>) -> Seq<char> {
    "<div class=\"dest-card\" id=\"card-"@ + url_id(name)
        + "\">\n  <div class=\"card-header\">\n    <span class=\"dest-name\">"@ + html_escaped(name)
        + "</span>\n    <span class=\"badge "@ + badge_class(d) + "\">"@ + badge_text(d)
        + "</span>\n  </div>\n  "@ + reasons_block(decision_messages(d))
        + "\n  "@ + criteria_block(parts)
        + "\n  <div class=\"card-actions\">\n    <button class=\"btn-delete\" onclick=\"deleteDestination('"@
        + html_escaped(name) + "')\">Delete</button>\n  </div>\n</div>"@
}

/// Appends the HTML-escaped form of `s`.
fn push_escaped(v: &mut Vec<char>, s: &str)
    ensures
        final(v)@ == old(v)@ + html_escaped(s@),
{
    let e = html_escape(s);
    append_str(v, e.as_str());
}

/// The explanation lines of a decision, borrowed.
fn messages_of(decision: &TripDecision) -> (m: Option<&Vec<String>>)
    ensures
        match m {
            Some(v) => v.deep_view() == decision_messages(decision.model()) && !(decision is Go),
            None => decision is Go,
        },
{
    match decision {
        TripDecision::Go => None,
        TripDecision::Caution { warnings } => Some(warnings),
        TripDecision::NoGo { reasons } => Some(reasons),
        TripDecision::Unknown { missing } => Some(missing),
    }
}

/// Appends the list of explanation lines (nothing when there are none).
fn push_reasons(v: &mut Vec<char>, lines: &Vec<String>)
    ensures
        final(v)@ == old(v)@ + reasons_block(lines.deep_view()),
{
    if lines.len() == 0 {
        assert(lines.deep_view().len() == 0);
        assert(old(v)@ + reasons_block(lines.deep_view()) =~= old(v)@);
        return;
    }
    let ghost v0 = v@;
    let ghost lv = lines.deep_view();
    append_str(v, "<ul class=\"reasons\">");
    let ghost v1 = v@;
    let mut i: usize = 0;
    while i < lines.len()
        invariant
            i <= lines@.len(),
            lv == lines.deep_view(),
            v@ == v1 + list_items(lv.take(i as int)),
        decreases lines.len() - i,
    {
        assert(lv.take(i + 1).drop_last() =~= lv.take(i as int));
        append_str(v, "<li>");
        push_escaped(v, lines[i].as_str());
        append_str(v, "</li>");
        assert(v@ =~= v1 + list_items(lv.take(i + 1)));
        i = i + 1;
    }
    assert(lv.take(lines.len() as int) =~= lv);
    append_str(v, "</ul>");
    assert(v@ =~= v0 + reasons_block(lv));
}

/// The parts joined with `sep` between neighbours.
pub fn join_parts(parts: &Vec<String>, sep: &str) -> (r: String)
    ensures
        r@ == joined(parts.deep_view(), sep@),
{
    let ghost pv = parts.deep_view();
    let mut v: Vec<char> = Vec::new();
    let mut i: usize = 0;
    while i < parts.len()
        invariant
            i <= parts@.len(),
            pv == parts.deep_view(),
            v@ == joined(pv.take(i as int), sep@),
        decreases parts.len() - i,
    {
        assert(pv.take(i + 1).drop_last() =~= pv.take(i as int));
        if i > 0 {
            append_str(&mut v, sep);
        }
        append_str(&mut v, parts[i].as_str());
        proof {
            if i == 0 {
                assert(pv.take(1) =~= seq![pv[0]]);
                assert(v@ =~= pv.take(1)[0]);
            }
        }
        i = i + 1;
    }
    assert(pv.take(parts.len() as int) =~= pv);
    string_from_chars(v.as_slice())
}

/// Appends the criteria summary line (nothing when there are no parts).
fn push_criteria(v: &mut Vec<char>, parts: &Vec<String>)
    ensures
        final(v)@ == old(v)@ + criteria_block(parts.deep_view()),
{
    if parts.len() == 0 {
        assert(old(v)@ + criteria_block(parts.deep_view()) =~= old(v)@);
        return;
    }
    let ghost v0 = v@;
    append_str(v, "<p class=\"criteria-summary\">");
    let joined_text = join_parts(parts, " · ");
    push_escaped(v, joined_text.as_str());
    append_str(v, "</p>");
    assert(v@ =~= v0 + criteria_block(parts.deep_view()));
}

/// The card of one destination on the configuration page: its name, the
/// badge of its recommendation, the explanation lines, the summary of its
/// configured criteria (already written as text, one part per criterion)
/// and a delete button.
#[verifier::spinoff_prover]
pub fn dest_card_html(name: &str, decision: &TripDecision, criteria_parts: &Vec<String>) -> (r: String)
    ensures
        r@ == dest_card(name@, decision.model(), criteria_parts.deep_view()),
{
    let ghost d = decision.model();
    let id = urlencoding(name);
    let (badge, class): (&str, &str) = match decision {
        TripDecision::Go => ("GO", "go"),
        TripDecision::Caution { .. } => ("CAUTION", "caution"),
        TripDecision::NoGo { .. } => ("NO GO", "nogo"),
        TripDecision::Unknown { .. } => ("UNKNOWN", "unknown"),
    };
    let mut v = chars_of("<div class=\"dest-card\" id=\"card-");
    append_str(&mut v, id.as_str());
    append_str(&mut v, "\">\n  <div class=\"card-header\">\n    <span class=\"dest-name\">");
    push_escaped(&mut v, name);
    append_str(&mut v, "</span>\n    <span class=\"badge ");
    append_str(&mut v, class);
    append_str(&mut v, "\">");
    append_str(&mut v, badge);
    append_str(&mut v, "</span>\n  </div>\n  ");
    let ghost before_reasons = v@;
    match messages_of(decision) {
        Some(lines) => push_reasons(&mut v, lines),
        None => {
            assert(decision_messages(decision.model()) =~= Seq::<Seq<char>>::empty());
            assert(v@ =~= before_reasons + reasons_block(decision_messages(decision.model())));
        },
    }
    append_str(&mut v, "\n  ");
    push_criteria(&mut v, criteria_parts);
    append_str(&mut v, "\n  <div class=\"card-actions\">\n    <button class=\"btn-delete\" onclick=\"deleteDestination('");
    push_escaped(&mut v, name);
    append_str(&mut v, "')\">Delete</button>\n  </div>\n</div>");
    assert(v@ =~= dest_card(name@, decision.model(), criteria_parts.deep_view()));
    string_from_chars(v.as_slice())
}

// ── Source rows and banners ──────────────────────────────────────────────────

/// The error note of a source row, or nothing.
pub open spec fn error_span(e: Option<Seq<char>>) -> Seq<char> {
    match e {
        Some(msg) => "<span class=\"src-error\">"@ + html_escaped(msg) + "</span>"@,
        None => Seq::empty(),
    }
}

/// The start of a source's row: its name, whether it is enabled and its
/// last error.
pub open spec fn source_row_info(s: SourceStatus) -> Seq<char> {
    let on = s.enabled;
    "<div class=\"source-row\" id=\"src-"@ + url_id(s.name@)
        + "\">\n  <div class=\"src-info\">\n    <span class=\"src-name\">"@ + html_escaped(s.name@)
        + "</span>\n    <span class=\"src-status "@ + (if on { "enabled"@ } else { "disabled"@ }) + "\">"@
        + (if on { "Enabled"@ } else { "Disabled"@ })
        + "</span>\n    "@ + error_span(match s.last_error { Some(e) => Some(e@), None => None })
}

/// The end of a source's row: the button that toggles it.
pub open spec fn source_row_button(s: SourceStatus) -> Seq<char> {
    let on = s.enabled;
    "\n  </div>\n  <button class=\"btn-toggle\" onclick=\"toggleSource('"@ + html_escaped(s.name@) + "', '"@
        + (if on { "disable"@ } else { "enable"@ }) + "')\">"@ + (if on { "Disable"@ } else { "Enable"@ })
        + "</button>\n</div>"@
}

/// The row of one data source: its name, whether it is enabled, its last
/// error, and a button that toggles it.
pub open spec fn source_row(s: SourceStatus) -> Seq<char> {
    source_row_info(s) + source_row_button(s)
}

/// The rows of all sources, in order.
pub open spec fn source_rows(ss: Seq<SourceStatus>) -> Seq<char>
    decreases ss.len(),
{
    if ss.len() == 0 {
        Seq::empty()
    } else {
        source_rows(ss.drop_last()) + source_row(ss.last())
    }
}

/// Appends the start of the row of one source.
#[verifier::spinoff_prover]
#[verifier::rlimit(30)]
fn push_source_info(v: &mut Vec<char>, s: &SourceStatus)
    ensures
        final(v)@ == old(v)@ + source_row_info(*s),
{
    let ghost v0 = v@;
    let on = s.enabled;
    let id = urlencoding(s.name.as_str());
    append_str(v, "<div class=\"source-row\" id=\"src-");
    append_str(v, id.as_str());
    append_str(v, "\">\n  <div class=\"src-info\">\n    <span class=\"src-name\">");
    push_escaped(v, s.name.as_str());
    append_str(v, "</span>\n    <span class=\"src-status ");
    append_str(v, if on { "enabled" } else { "disabled" });
    append_str(v, "\">");
    append_str(v, if on { "Enabled" } else { "Disabled" });
    append_str(v, "</span>\n    ");
    let ghost before_err = v@;
    match &s.last_error {
        Some(e) => {
            append_str(v, "<span class=\"src-error\">");
            push_escaped(v, e.as_str());
            append_str(v, "</span>");
        },
        None => {},
    }
    assert(v@ =~= before_err + error_span(match s.last_error { Some(e) => Some(e@), None => None }));
    assert(v@ =~= v0 + source_row_info(*s));
}

/// Appends the row of one source.
#[verifier::spinoff_prover]
#[verifier::rlimit(30)]
fn push_source_row(v: &mut Vec<char>, s: &SourceStatus)
    ensures
        final(v)@ == old(v)@ + source_row(*s),
{
    let ghost v0 = v@;
    let on = s.enabled;
    push_source_info(v, s);
    let ghost v1 = v@;
    append_str(v, "\n  </div>\n  <button class=\"btn-toggle\" onclick=\"toggleSource('");
    push_escaped(v, s.name.as_str());
    append_str(v, "', '");
    append_str(v, if on { "disable" } else { "enable" });
    append_str(v, "')\">");
    append_str(v, if on { "Disable" } else { "Enable" });
    append_str(v, "</button>\n</div>");
    assert(v@ =~= v1 + source_row_button(*s));
    assert(v@ =~= v0 + source_row(*s));
}

/// The rows of the data sources section of the configuration page.
pub fn source_rows_html(statuses: &Vec<SourceStatus>) -> (r: String)
    ensures
        r@ == source_rows(statuses@),
{
    let mut v: Vec<char> = Vec::new();
    let mut i: usize = 0;
    while i < statuses.len()
        invariant
            i <= statuses@.len(),
            v@ == source_rows(statuses@.take(i as int)),
        decreases statuses.len() - i,
    {
        assert(statuses@.take(i + 1).drop_last() =~= statuses@.take(i as int));
        push_source_row(&mut v, &statuses[i]);
        i = i + 1;
    }
    assert(statuses@.take(statuses.len() as int) =~= statuses@);
    string_from_chars(v.as_slice())
}

/// The banner of a hardware failure, or nothing.
pub open spec fn hw_banner(e: Option<Seq<char>>) -> Seq<char> {
    match e {
        Some(msg) => "<div class=\"hw-error-banner\"><span class=\"hw-icon\">&#9888;</span><div class=\"hw-msg\"><strong>Hardware Error</strong>"@
            + html_escaped(msg) + "</div></div>"@,
        None => Seq::empty(),
    }
}

/// The banner shown when the display hardware failed to start, with the
/// error message escaped; empty when the hardware is fine.
pub fn hw_error_banner(err: &Option<String>) -> (r: String)
    ensures
        r@ == hw_banner(match err { Some(e) => Some(e@), None => None }),
{
    match err {
        None => String::new(),
        Some(msg) => {
            let mut v = chars_of("<div class=\"hw-error-banner\"><span class=\"hw-icon\">&#9888;</span><div class=\"hw-msg\"><strong>Hardware Error</strong>");
            push_escaped(&mut v, msg.as_str());
            append_str(&mut v, "</div></div>");
            string_from_chars(v.as_slice())
        },
    }
}

/// The banner shown while fixture data stands in for the live sources.
pub open spec fn fixture_banner_text(on: bool) -> Seq<char> {
    if on {
        "<div class=\"fixture-banner\">&#9888; FIXTURE DATA MODE — not showing live conditions</div>"@
    } else {
        Seq::empty()
    }
}

/// The fixture-data banner when `fixture_data` is set, else nothing.
pub fn fixture_banner(fixture_data: bool) -> (r: &'static str)
    ensures
        r@ == fixture_banner_text(fixture_data),
{
    if fixture_data {
        "<div class=\"fixture-banner\">&#9888; FIXTURE DATA MODE — not showing live conditions</div>"
    } else {
        proof {
            reveal_strlit("");
        }
        ""
    }
}

} // verus!
