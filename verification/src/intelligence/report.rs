//! The plain-text project-understanding report.
use vstd::prelude::*;
use crate::intelligence::insight::{ProjectInsight, ProjectLimitation, ProjectRisk};
use crate::intelligence::model::ProjectIntelligence;
use crate::intelligence::status::{Availability, VerificationValidity};
use crate::knowledge::operator::views;
use crate::text::{decimal, owned, push_decimal, push_str};

verus! {

/// `  label: value` and a line break.
pub open spec fn line_text(label: Seq<char>, value: Seq<char>) -> Seq<char> {
    "  "@ + label + ": "@ + value + "\n"@
}

/// The lines of a list, each `prefix value` and a line break.
pub open spec fn items_text(prefix: Seq<char>, values: Seq<Seq<char>>) -> Seq<char>
    decreases values.len(),
{
    if values.len() == 0 {
        Seq::empty()
    } else {
        items_text(prefix, values.drop_last()) + prefix + values.last() + "\n"@
    }
}

/// A labelled list; an empty one reads `unavailable`.
pub open spec fn list_text(label: Seq<char>, values: Seq<Seq<char>>) -> Seq<char> {
    "  "@ + label + ":\n"@ + if values.len() == 0 {
        "    - unavailable\n"@
    } else {
        items_text("    - "@, values)
    }
}

/// A titled section; an empty one says so.
pub open spec fn section_text(title: Seq<char>, values: Seq<Seq<char>>) -> Seq<char> {
    "\n"@ + title + "\n"@ + if values.len() == 0 {
        "  None detected from available evidence.\n"@
    } else {
        items_text("  - "@, values)
    }
}

pub open spec fn text_availability(a: Availability<String>) -> Seq<char> {
    match a {
        Availability::Available(v) => v@,
        Availability::Unavailable => "unavailable"@,
        Availability::Unknown => "unknown"@,
    }
}

pub open spec fn bool_text(b: bool) -> Seq<char> {
    if b {
        "true"@
    } else {
        "false"@
    }
}

pub open spec fn bool_availability(a: Availability<bool>) -> Seq<char> {
    match a {
        Availability::Available(v) => bool_text(v),
        Availability::Unavailable => "unavailable"@,
        Availability::Unknown => "unknown"@,
    }
}

pub open spec fn validity_availability(a: Availability<VerificationValidity>) -> Seq<char> {
    match a {
        Availability::Available(v) => v.as_str_spec(),
        Availability::Unavailable => "unavailable"@,
        Availability::Unknown => "unknown"@,
    }
}

pub open spec fn insight_entry(x: ProjectInsight) -> Seq<char> {
    "["@ + x.rule_id@ + "] "@ + x.statement@ + "\n  Confidence: "@ + x.confidence.as_str_spec()
}

pub open spec fn insight_entries(s: Seq<ProjectInsight>) -> Seq<Seq<char>> {
    s.map_values(|x: ProjectInsight| insight_entry(x))
}

pub open spec fn risk_entries(s: Seq<ProjectRisk>) -> Seq<Seq<char>> {
    s.map_values(|x: ProjectRisk| x.statement@)
}

pub open spec fn limitation_entries(s: Seq<ProjectLimitation>) -> Seq<Seq<char>> {
    s.map_values(|x: ProjectLimitation| x.statement@)
}

/// The full text of a report, section by section.
#[verifier::opaque]
pub open spec fn report_text(p: ProjectIntelligence) -> Seq<char> {
    "Project Understanding Report\n\n"@ + "Identity\n"@ + line_text("Name"@, p.project.name@)
        + line_text("Type"@, text_availability(p.identity.project_type)) + line_text(
        "Packages"@,
        decimal(p.identity.package_count as nat),
    ) + list_text("Languages"@, views(p.identity.languages@)) + list_text(
        "Build systems"@,
        views(p.identity.build_systems@),
    ) + line_text("Workspace"@, text_availability(p.identity.workspace)) + "\nArchitecture\n"@
        + line_text("Workspace detected"@, bool_availability(p.architecture.workspace_detected))
        + line_text("Package structure"@, text_availability(p.architecture.package_structure))
        + "\nCapabilities\n"@ + list_text("Discovered"@, views(p.capabilities.discovered_actions@))
        + list_text("Controlled execution"@, views(p.capabilities.controlled_execution_actions@))
        + list_text("Dry-run only"@, views(p.capabilities.dry_run_only_actions@))
        + "\nVerification\n"@ + line_text(
        "Availability"@,
        text_availability(p.verification.availability),
    ) + line_text("Latest action"@, text_availability(p.verification.latest_action)) + line_text(
        "Verdict"@,
        text_availability(p.verification.verdict),
    ) + line_text("Validity"@, validity_availability(p.verification.validity)) + "\nKnowledge\n"@
        + line_text("Facts"@, decimal(p.knowledge.facts as nat)) + line_text(
        "Decisions"@,
        decimal(p.knowledge.decisions as nat),
    ) + line_text("Verifications"@, decimal(p.knowledge.verifications as nat)) + line_text(
        "Goals"@,
        decimal(p.knowledge.goals as nat),
    ) + section_text("Derived Insights"@, insight_entries(p.insights@)) + section_text(
        "Risks"@,
        risk_entries(p.risks@),
    ) + section_text("Limitations"@, limitation_entries(p.limitations@))
}

fn line(output: &mut String, label: &str, value: &str)
    ensures
        final(output)@ == old(output)@ + line_text(label@, value@),
{
    push_str(output, "  ");
    push_str(output, label);
    push_str(output, ": ");
    push_str(output, value);
    push_str(output, "\n");
    assert(output@ =~= old(output)@ + line_text(label@, value@));
}

fn count_line(output: &mut String, label: &str, n: usize)
    ensures
        final(output)@ == old(output)@ + line_text(label@, decimal(n as nat)),
{
    push_str(output, "  ");
    push_str(output, label);
    push_str(output, ": ");
    push_decimal(output, n as u64);
    push_str(output, "\n");
    assert(output@ =~= old(output)@ + line_text(label@, decimal(n as nat)));
}

fn items(output: &mut String, prefix: &str, values: &Vec<String>)
    ensures
        final(output)@ == old(output)@ + items_text(prefix@, views(values@)),
{
    let ghost start = output@;
    let mut i: usize = 0;
    while i < values.len()
        invariant
            i <= values@.len(),
            output@ == start + items_text(prefix@, views(values@.take(i as int))),
        decreases values@.len() - i,
    {
        push_str(output, prefix);
        push_str(output, values[i].as_str());
        push_str(output, "\n");
        proof {
            let t = views(values@.take(i + 1));
            assert(t.drop_last() =~= views(values@.take(i as int)));
            assert(t.last() == values@[i as int]@);
        }
        i = i + 1;
        assert(output@ =~= start + items_text(prefix@, views(values@.take(i as int))));
    }
    assert(values@.take(values@.len() as int) =~= values@);
}

fn list(output: &mut String, label: &str, values: &Vec<String>)
    ensures
        final(output)@ == old(output)@ + list_text(label@, views(values@)),
{
    let ghost start = output@;
    push_str(output, "  ");
    push_str(output, label);
    push_str(output, ":\n");
    if values.len() == 0 {
        push_str(output, "    - unavailable\n");
    } else {
        items(output, "    - ", values);
    }
    assert(output@ =~= start + list_text(label@, views(values@)));
}

fn section(output: &mut String, title: &str, values: &Vec<String>)
    ensures
        final(output)@ == old(output)@ + section_text(title@, views(values@)),
{
    let ghost start = output@;
    push_str(output, "\n");
    push_str(output, title);
    push_str(output, "\n");
    if values.len() == 0 {
        push_str(output, "  None detected from available evidence.\n");
    } else {
        items(output, "  - ", values);
    }
    assert(output@ =~= start + section_text(title@, views(values@)));
}

fn text_of(a: &Availability<String>) -> (r: &str)
    ensures
        r@ == text_availability(*a),
{
    match a {
        Availability::Available(v) => v.as_str(),
        Availability::Unavailable => "unavailable",
        Availability::Unknown => "unknown",
    }
}

fn bool_of(a: &Availability<bool>) -> (r: &str)
    ensures
        r@ == bool_availability(*a),
{
    match a {
        Availability::Available(v) => if *v {
            "true"
        } else {
            "false"
        },
        Availability::Unavailable => "unavailable",
        Availability::Unknown => "unknown",
    }
}

fn validity_of(a: &Availability<VerificationValidity>) -> (r: &str)
    ensures
        r@ == validity_availability(*a),
{
    match a {
        Availability::Available(v) => v.as_str(),
        Availability::Unavailable => "unavailable",
        Availability::Unknown => "unknown",
    }
}

fn insight_lines(s: &Vec<ProjectInsight>) -> (r: Vec<String>)
    ensures
        views(r@) == insight_entries(s@),
{
    let mut r: Vec<String> = Vec::new();
    let mut i: usize = 0;
    while i < s.len()
        invariant
            i <= s@.len(),
            r@.len() == i,
            forall|k: int| 0 <= k < i ==> (#[trigger] r@[k])@ == insight_entry(s@[k]),
        decreases s@.len() - i,
    {
        let x = &s[i];
        let mut e = owned("[");
        push_str(&mut e, x.rule_id.as_str());
        push_str(&mut e, "] ");
        push_str(&mut e, x.statement.as_str());
        push_str(&mut e, "\n  Confidence: ");
        push_str(&mut e, x.confidence.as_str());
        assert(e@ =~= insight_entry(*x));
        r.push(e);
        i = i + 1;
    }
    assert(views(r@) =~= insight_entries(s@));
    r
}

fn risk_lines(s: &Vec<ProjectRisk>) -> (r: Vec<String>)
    ensures
        views(r@) == risk_entries(s@),
{
    let mut r: Vec<String> = Vec::new();
    let mut i: usize = 0;
    while i < s.len()
        invariant
            i <= s@.len(),
            r@.len() == i,
            forall|k: int| 0 <= k < i ==> (#[trigger] r@[k])@ == s@[k].statement@,
        decreases s@.len() - i,
    {
        r.push(s[i].statement.clone());
        i = i + 1;
    }
    assert(views(r@) =~= risk_entries(s@));
    r
}

fn limitation_lines(s: &Vec<ProjectLimitation>) -> (r: Vec<String>)
    ensures
        views(r@) == limitation_entries(s@),
{
    let mut r: Vec<String> = Vec::new();
    let mut i: usize = 0;
    while i < s.len()
        invariant
            i <= s@.len(),
            r@.len() == i,
            forall|k: int| 0 <= k < i ==> (#[trigger] r@[k])@ == s@[k].statement@,
        decreases s@.len() - i,
    {
        r.push(s[i].statement.clone());
        i = i + 1;
    }
    assert(views(r@) =~= limitation_entries(s@));
    r
}

/// Renders the same typed model that the JSON output serializes.
pub fn render_text(report: &ProjectIntelligence) -> (r: String)
    ensures
        r@ == report_text(*report),
{
    let mut output = owned("Project Understanding Report\n\n");
    push_str(&mut output, "Identity\n");
    line(&mut output, "Name", report.project.name.as_str());
    line(&mut output, "Type", text_of(&report.identity.project_type));
    count_line(&mut output, "Packages", report.identity.package_count);
    list(&mut output, "Languages", &report.identity.languages);
    list(&mut output, "Build systems", &report.identity.build_systems);
    line(&mut output, "Workspace", text_of(&report.identity.workspace));
    push_str(&mut output, "\nArchitecture\n");
    line(&mut output, "Workspace detected", bool_of(&report.architecture.workspace_detected));
    line(&mut output, "Package structure", text_of(&report.architecture.package_structure));
    push_str(&mut output, "\nCapabilities\n");
    list(&mut output, "Discovered", &report.capabilities.discovered_actions);
    list(&mut output, "Controlled execution", &report.capabilities.controlled_execution_actions);
    list(&mut output, "Dry-run only", &report.capabilities.dry_run_only_actions);
    push_str(&mut output, "\nVerification\n");
    line(&mut output, "Availability", text_of(&report.verification.availability));
    line(&mut output, "Latest action", text_of(&report.verification.latest_action));
    line(&mut output, "Verdict", text_of(&report.verification.verdict));
    line(&mut output, "Validity", validity_of(&report.verification.validity));
    push_str(&mut output, "\nKnowledge\n");
    count_line(&mut output, "Facts", report.knowledge.facts);
    count_line(&mut output, "Decisions", report.knowledge.decisions);
    count_line(&mut output, "Verifications", report.knowledge.verifications);
    count_line(&mut output, "Goals", report.knowledge.goals);
    section(&mut output, "Derived Insights", &insight_lines(&report.insights));
    section(&mut output, "Risks", &risk_lines(&report.risks));
    section(&mut output, "Limitations", &limitation_lines(&report.limitations));
    proof {
        reveal(report_text);
    }
    output
}


/// How a labelled list reads: `  label:`, then one `    - item` line per
/// item, in order, or the single line `    - unavailable` when there is none.
pub open spec fn bulleted(label: Seq<char>, values: Seq<Seq<char>>) -> Seq<char> {
    "  "@ + label + ":\n"@ + if values.len() == 0 {
        "    - unavailable\n"@
    } else {
        values.map_values(|v: Seq<char>| "    - "@ + v + "\n"@).flatten()
    }
}

proof fn lemma_items_flatten(prefix: Seq<char>, values: Seq<Seq<char>>)
    ensures
        items_text(prefix, values) == values.map_values(|v: Seq<char>| prefix + v + "\n"@).flatten(),
    decreases values.len(),
{
    let lines = values.map_values(|v: Seq<char>| prefix + v + "\n"@);
    lines.lemma_flatten_and_flatten_alt_are_equivalent();
    if values.len() > 0 {
        lemma_items_flatten(prefix, values.drop_last());
        let shorter = values.drop_last().map_values(|v: Seq<char>| prefix + v + "\n"@);
        assert(lines.drop_last() =~= shorter);
        shorter.lemma_flatten_and_flatten_alt_are_equivalent();
        assert(items_text(prefix, values) =~= items_text(prefix, values.drop_last()) + lines.last());
    } else {
        assert(lines =~= Seq::<Seq<char>>::empty());
    }
}

proof fn lemma_bulleted(label: Seq<char>, values: Seq<Seq<char>>)
    ensures
        list_text(label, values) == bulleted(label, values),
{
    lemma_items_flatten("    - "@, values);
}

/// The capabilities are listed under their own labels: after the
/// `Capabilities` heading come the discovered actions, then exactly the
/// controlled-execution actions under `Controlled execution`, then exactly
/// the dry-run-only actions under `Dry-run only`, each in order.
pub proof fn law_capabilities_listed_under_their_labels(p: ProjectIntelligence)
    ensures
        exists|pre: Seq<char>, post: Seq<char>|
            report_text(p) == pre + "\nCapabilities\n"@ + bulleted("Discovered"@, views(p.capabilities.discovered_actions@))
                + bulleted("Controlled execution"@, views(p.capabilities.controlled_execution_actions@)) + bulleted(
                "Dry-run only"@,
                views(p.capabilities.dry_run_only_actions@),
            ) + "\nVerification\n"@ + post,
{
    reveal(report_text);
    lemma_bulleted("Discovered"@, views(p.capabilities.discovered_actions@));
    lemma_bulleted("Controlled execution"@, views(p.capabilities.controlled_execution_actions@));
    lemma_bulleted("Dry-run only"@, views(p.capabilities.dry_run_only_actions@));
    let pre = "Project Understanding Report\n\n"@ + "Identity\n"@ + line_text("Name"@, p.project.name@)
        + line_text("Type"@, text_availability(p.identity.project_type)) + line_text(
        "Packages"@,
        decimal(p.identity.package_count as nat),
    ) + list_text("Languages"@, views(p.identity.languages@)) + list_text(
        "Build systems"@,
        views(p.identity.build_systems@),
    ) + line_text("Workspace"@, text_availability(p.identity.workspace)) + "\nArchitecture\n"@
        + line_text("Workspace detected"@, bool_availability(p.architecture.workspace_detected))
        + line_text("Package structure"@, text_availability(p.architecture.package_structure));
    let post = line_text("Availability"@, text_availability(p.verification.availability)) + line_text(
        "Latest action"@,
        text_availability(p.verification.latest_action),
    ) + line_text("Verdict"@, text_availability(p.verification.verdict)) + line_text(
        "Validity"@,
        validity_availability(p.verification.validity),
    ) + "\nKnowledge\n"@ + line_text("Facts"@, decimal(p.knowledge.facts as nat)) + line_text(
        "Decisions"@,
        decimal(p.knowledge.decisions as nat),
    ) + line_text("Verifications"@, decimal(p.knowledge.verifications as nat)) + line_text(
        "Goals"@,
        decimal(p.knowledge.goals as nat),
    ) + section_text("Derived Insights"@, insight_entries(p.insights@)) + section_text(
        "Risks"@,
        risk_entries(p.risks@),
    ) + section_text("Limitations"@, limitation_entries(p.limitations@));
    assert(report_text(p) =~= pre + "\nCapabilities\n"@ + bulleted("Discovered"@, views(p.capabilities.discovered_actions@))
        + bulleted("Controlled execution"@, views(p.capabilities.controlled_execution_actions@)) + bulleted(
        "Dry-run only"@,
        views(p.capabilities.dry_run_only_actions@),
    ) + "\nVerification\n"@ + post);
}


/// The identity section names each field under its own label: the project
/// name, its type, the package count, exactly the languages under
/// `Languages` and exactly the build systems under `Build systems`, then the
/// workspace.
#[verifier::rlimit(60)]
pub proof fn law_identity_listed_under_its_labels(p: ProjectIntelligence)
    ensures
        exists|post: Seq<char>|
            report_text(p) == "Project Understanding Report\n\n"@ + "Identity\n"@ + line_text("Name"@, p.project.name@)
                + line_text("Type"@, text_availability(p.identity.project_type)) + line_text(
                "Packages"@,
                decimal(p.identity.package_count as nat),
            ) + bulleted("Languages"@, views(p.identity.languages@)) + bulleted(
                "Build systems"@,
                views(p.identity.build_systems@),
            ) + line_text("Workspace"@, text_availability(p.identity.workspace)) + "\nArchitecture\n"@ + post,
{
    reveal(report_text);
    lemma_bulleted("Languages"@, views(p.identity.languages@));
    lemma_bulleted("Build systems"@, views(p.identity.build_systems@));
    let post = line_text("Workspace detected"@, bool_availability(p.architecture.workspace_detected)) + line_text(
        "Package structure"@,
        text_availability(p.architecture.package_structure),
    ) + "\nCapabilities\n"@ + list_text("Discovered"@, views(p.capabilities.discovered_actions@)) + list_text(
        "Controlled execution"@,
        views(p.capabilities.controlled_execution_actions@),
    ) + list_text("Dry-run only"@, views(p.capabilities.dry_run_only_actions@)) + "\nVerification\n"@ + line_text(
        "Availability"@,
        text_availability(p.verification.availability),
    ) + line_text("Latest action"@, text_availability(p.verification.latest_action)) + line_text(
        "Verdict"@,
        text_availability(p.verification.verdict),
    ) + line_text("Validity"@, validity_availability(p.verification.validity)) + "\nKnowledge\n"@ + line_text(
        "Facts"@,
        decimal(p.knowledge.facts as nat),
    ) + line_text("Decisions"@, decimal(p.knowledge.decisions as nat)) + line_text(
        "Verifications"@,
        decimal(p.knowledge.verifications as nat),
    ) + line_text("Goals"@, decimal(p.knowledge.goals as nat)) + section_text(
        "Derived Insights"@,
        insight_entries(p.insights@),
    ) + section_text("Risks"@, risk_entries(p.risks@)) + section_text("Limitations"@, limitation_entries(p.limitations@));
    assert(report_text(p) =~= "Project Understanding Report\n\n"@ + "Identity\n"@ + line_text("Name"@, p.project.name@)
        + line_text("Type"@, text_availability(p.identity.project_type)) + line_text(
        "Packages"@,
        decimal(p.identity.package_count as nat),
    ) + bulleted("Languages"@, views(p.identity.languages@)) + bulleted(
        "Build systems"@,
        views(p.identity.build_systems@),
    ) + line_text("Workspace"@, text_availability(p.identity.workspace)) + "\nArchitecture\n"@ + post);
}

/// The knowledge section gives each count under its own label, in the order
/// facts, decisions, verifications, goals, before the derived insights.
pub proof fn law_knowledge_counts_under_their_labels(p: ProjectIntelligence)
    ensures
        exists|pre: Seq<char>|
            report_text(p) == pre + "\nKnowledge\n"@ + line_text("Facts"@, decimal(p.knowledge.facts as nat)) + line_text(
                "Decisions"@,
                decimal(p.knowledge.decisions as nat),
            ) + line_text("Verifications"@, decimal(p.knowledge.verifications as nat)) + line_text(
                "Goals"@,
                decimal(p.knowledge.goals as nat),
            ) + section_text("Derived Insights"@, insight_entries(p.insights@)) + section_text(
                "Risks"@,
                risk_entries(p.risks@),
            ) + section_text("Limitations"@, limitation_entries(p.limitations@)),
{
    reveal(report_text);
    let pre = "Project Understanding Report\n\n"@ + "Identity\n"@ + line_text("Name"@, p.project.name@)
        + line_text("Type"@, text_availability(p.identity.project_type)) + line_text(
        "Packages"@,
        decimal(p.identity.package_count as nat),
    ) + list_text("Languages"@, views(p.identity.languages@)) + list_text(
        "Build systems"@,
        views(p.identity.build_systems@),
    ) + line_text("Workspace"@, text_availability(p.identity.workspace)) + "\nArchitecture\n"@
        + line_text("Workspace detected"@, bool_availability(p.architecture.workspace_detected))
        + line_text("Package structure"@, text_availability(p.architecture.package_structure))
        + "\nCapabilities\n"@ + list_text("Discovered"@, views(p.capabilities.discovered_actions@))
        + list_text("Controlled execution"@, views(p.capabilities.controlled_execution_actions@))
        + list_text("Dry-run only"@, views(p.capabilities.dry_run_only_actions@))
        + "\nVerification\n"@ + line_text(
        "Availability"@,
        text_availability(p.verification.availability),
    ) + line_text("Latest action"@, text_availability(p.verification.latest_action)) + line_text(
        "Verdict"@,
        text_availability(p.verification.verdict),
    ) + line_text("Validity"@, validity_availability(p.verification.validity));
    assert(report_text(p) == pre + "\nKnowledge\n"@ + line_text("Facts"@, decimal(p.knowledge.facts as nat)) + line_text(
        "Decisions"@,
        decimal(p.knowledge.decisions as nat),
    ) + line_text("Verifications"@, decimal(p.knowledge.verifications as nat)) + line_text(
        "Goals"@,
        decimal(p.knowledge.goals as nat),
    ) + section_text("Derived Insights"@, insight_entries(p.insights@)) + section_text(
        "Risks"@,
        risk_entries(p.risks@),
    ) + section_text("Limitations"@, limitation_entries(p.limitations@)));
}

} // verus!
