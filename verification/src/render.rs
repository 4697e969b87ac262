//! The report renderer: a deterministic, read-only rendering of a report
//! to lines of text. Printing the lines is the caller's business.
use vstd::prelude::*;
use vstd::string::StringExecFns;
use crate::chars::{dec_digits, u32_to_string};
use crate::outcome::{effective, result_label};
use crate::report::{ReportView, RunStats};
use crate::rollup::feature_result;
use crate::stats::{FeatureStats, FeatureView, ScenarioStats, ScenarioView, StepStats, StepView};

verus! {

/// The character sequences of a vector of lines.
pub open spec fn views_of(v: Seq<String>) -> Seq<Seq<char>> {
    v.map_values(|l: String| l@)
}

proof fn lemma_views_push(v: Seq<String>, x: String)
    ensures
        views_of(v.push(x)) == views_of(v).push(x@),
{
    assert(views_of(v.push(x)) =~= views_of(v).push(x@));
}

proof fn lemma_views_concat(a: Seq<String>, b: Seq<String>)
    ensures
        views_of(a + b) == views_of(a) + views_of(b),
{
    assert(views_of(a + b) =~= views_of(a) + views_of(b));
}

/// The one line describing a step.
pub open spec fn step_text(st: StepView) -> Seq<char> {
    "Step: '"@ + st.keyword + " "@ + st.name + "'; Status: '"@ + result_label(
        effective(st.result),
    ) + "'"@
}

/// The one line describing a scenario.
pub open spec fn scenario_text(sc: ScenarioView) -> Seq<char> {
    "Scenario: '"@ + sc.name + "'; Status: '"@ + result_label(effective(sc.result)) + "'"@
}

/// The one line describing a feature, with its derived outcome
/// (Skipped standing in when the outcome is undefined).
pub open spec fn feature_text(f: FeatureView) -> Seq<char> {
    "Feature: '"@ + f.name + "'; Status: '"@ + result_label(
        effective(feature_result(f.scenarios)),
    ) + "'"@
}

pub open spec fn step_lines(sts: Seq<StepView>) -> Seq<Seq<char>>
    decreases sts.len(),
{
    if sts.len() == 0 {
        Seq::empty()
    } else {
        step_lines(sts.drop_last()).push("\t\t"@ + step_text(sts.last()))
    }
}

/// A scenario's block: its line, its steps' lines, a blank line.
pub open spec fn scenario_block(sc: ScenarioView) -> Seq<Seq<char>> {
    seq!["\t"@ + scenario_text(sc)] + step_lines(sc.steps) + seq![Seq::<char>::empty()]
}

pub open spec fn scenario_blocks(scs: Seq<ScenarioView>) -> Seq<Seq<char>>
    decreases scs.len(),
{
    if scs.len() == 0 {
        Seq::empty()
    } else {
        scenario_blocks(scs.drop_last()) + scenario_block(scs.last())
    }
}

/// A feature's block: its line, a blank line, its scenarios' blocks.
pub open spec fn feature_block(f: FeatureView) -> Seq<Seq<char>> {
    seq![feature_text(f), Seq::<char>::empty()] + scenario_blocks(f.scenarios)
}

pub open spec fn feature_blocks(fs: Seq<FeatureView>) -> Seq<Seq<char>>
    decreases fs.len(),
{
    if fs.len() == 0 {
        Seq::empty()
    } else {
        feature_blocks(fs.drop_last()) + feature_block(fs.last())
    }
}

/// The fixed overview block: the run-level counters.
pub open spec fn overview_lines(rv: ReportView) -> Seq<Seq<char>> {
    seq![
        Seq::<char>::empty(),
        "Result overview!"@,
        "------------------------------------------------"@,
        "Total features: "@ + dec_digits(rv.total_features as int),
        "Total scenarios: "@ + dec_digits(rv.total_scenarios as int),
        "Skipped scenarios: "@ + dec_digits(rv.skipped_scenarios as int),
        "Passed scenarios: "@ + dec_digits(rv.passed_scenarios as int),
        "Failed scenarios: "@ + dec_digits(rv.failed_scenarios as int),
        "------------------------------------------------"@,
    ]
}

/// Every line of the rendered report, in order: the overview, then — only
/// if at least one feature exists — the per-feature blocks.
pub open spec fn report_lines(rv: ReportView) -> Seq<Seq<char>> {
    if rv.features.len() == 0 {
        overview_lines(rv)
    } else {
        overview_lines(rv) + seq![
            Seq::<char>::empty(),
            "Feature overview:"@,
            "------------------------------------------------"@,
        ] + feature_blocks(rv.features) + seq![Seq::<char>::empty()]
    }
}

impl StepStats {
    /// This step's report line.
    pub fn display_line(&self) -> (r: String)
        ensures
            r@ == step_text(self@),
    {
        let r = String::from_str("Step: '").concat(self.keyword.as_str()).concat(" ").concat(
            self.name.as_str(),
        ).concat("'; Status: '").concat(crate::outcome::effective_of(&self.result).as_label())
            .concat("'");
        proof {
            assert(r@ =~= step_text(self@));
        }
        r
    }
}

impl ScenarioStats {
    /// This scenario's report line.
    pub fn display_line(&self) -> (r: String)
        ensures
            r@ == scenario_text(self@),
    {
        let r = String::from_str("Scenario: '").concat(self.name.as_str()).concat(
            "'; Status: '",
        ).concat(crate::outcome::effective_of(&self.result).as_label()).concat("'");
        proof {
            assert(r@ =~= scenario_text(self@));
        }
        r
    }
}

impl FeatureStats {
    /// This feature's report line, with its derived outcome.
    pub fn display_line(&self) -> (r: String)
        ensures
            r@ == feature_text(self@),
    {
        let r = String::from_str("Feature: '").concat(self.name.as_str()).concat(
            "'; Status: '",
        ).concat(crate::outcome::effective_of(&self.get_result()).as_label()).concat("'");
        proof {
            assert(r@ =~= feature_text(self@));
        }
        r
    }
}

/// A counter line: fixed prefix plus the decimal value.
fn counter_line(prefix: &str, n: u32) -> (r: String)
    ensures
        r@ == prefix@ + dec_digits(n as int),
{
    let v = u32_to_string(n);
    String::from_str(prefix).concat(v.as_str())
}

/// Render one scenario's block of lines.
fn render_scenario(sc: &ScenarioStats) -> (lines: Vec<String>)
    ensures
        views_of(lines@) == scenario_block(sc@),
{
    let mut lines: Vec<String> = Vec::new();
    let ghost e: Seq<String> = lines@;
    let head = String::from_str("\t").concat(sc.display_line().as_str());
    lines.push(head);
    proof {
        lemma_views_push(e, lines@.last());
        assert(views_of(lines@) =~= seq!["\t"@ + scenario_text(sc@)] + step_lines(
            Seq::<StepView>::empty(),
        ));
    }
    let ghost sts = sc@.steps;
    let mut i: usize = 0;
    while i < sc.steps.len()
        invariant
            i <= sc.steps.len(),
            sts == sc@.steps,
            sts.len() == sc.steps.len(),
            views_of(lines@) == seq!["\t"@ + scenario_text(sc@)] + step_lines(sts.take(i as int)),
        decreases sc.steps.len() - i,
    {
        proof {
            assert(sts[i as int] == sc.steps@.map_values(|s: StepStats| s@)[i as int]);
        }
        let line = String::from_str("\t\t").concat(sc.steps[i].display_line().as_str());
        let ghost prev = lines@;
        lines.push(line);
        i = i + 1;
        proof {
            lemma_views_push(prev, lines@.last());
            assert(sts.take(i as int).drop_last() =~= sts.take(i as int - 1));
            assert(sts.take(i as int).last() == sts[i as int - 1]);
            assert(step_lines(sts.take(i as int)) == step_lines(sts.take(i as int - 1)).push(
                "\t\t"@ + step_text(sts[i as int - 1]),
            ));
            assert(views_of(lines@) =~= seq!["\t"@ + scenario_text(sc@)] + step_lines(
                sts.take(i as int),
            ));
        }
    }
    let ghost prev = lines@;
    lines.push(String::new());
    proof {
        lemma_views_push(prev, lines@.last());
        assert(sts.take(sts.len() as int) =~= sts);
        assert(views_of(lines@) =~= scenario_block(sc@));
    }
    lines
}

/// Render one feature's block of lines.
fn render_feature(f: &FeatureStats) -> (lines: Vec<String>)
    ensures
        views_of(lines@) == feature_block(f@),
{
    let mut lines: Vec<String> = Vec::new();
    let ghost e0: Seq<String> = lines@;
    lines.push(f.display_line());
    let ghost e1: Seq<String> = lines@;
    lines.push(String::new());
    let ghost scs = f@.scenarios;
    proof {
        lemma_views_push(e0, e1.last());
        lemma_views_push(e1, lines@.last());
        assert(views_of(lines@) =~= seq![feature_text(f@), Seq::<char>::empty()]
            + scenario_blocks(scs.take(0)));
    }
    let mut i: usize = 0;
    while i < f.scenarios.len()
        invariant
            i <= f.scenarios.len(),
            scs == f@.scenarios,
            scs.len() == f.scenarios.len(),
            views_of(lines@) == seq![feature_text(f@), Seq::<char>::empty()] + scenario_blocks(
                scs.take(i as int),
            ),
        decreases f.scenarios.len() - i,
    {
        proof {
            assert(scs[i as int] == f.scenarios@.map_values(|s: ScenarioStats| s@)[i as int]);
        }
        let mut block = render_scenario(&f.scenarios[i]);
        let ghost prev = lines@;
        let ghost blockv = block@;
        lines.append(&mut block);
        i = i + 1;
        proof {
            lemma_views_concat(prev, blockv);
            assert(scs.take(i as int).drop_last() =~= scs.take(i as int - 1));
            assert(scs.take(i as int).last() == scs[i as int - 1]);
            assert(scenario_blocks(scs.take(i as int)) == scenario_blocks(
                scs.take(i as int - 1),
            ) + scenario_block(scs[i as int - 1]));
            assert(views_of(lines@) =~= seq![feature_text(f@), Seq::<char>::empty()]
                + scenario_blocks(scs.take(i as int)));
        }
    }
    proof {
        assert(scs.take(scs.len() as int) =~= scs);
        assert(views_of(lines@) =~= feature_block(f@));
    }
    lines
}

/// Render the whole report: the overview block, then the feature blocks.
/// Reads only; the report is unchanged.
pub fn render_report(stats: &RunStats) -> (lines: Vec<String>)
    ensures
        views_of(lines@) == report_lines(stats@),
{
    let mut lines: Vec<String> = Vec::new();
    push_line(&mut lines, String::new());
    push_line(&mut lines, String::from_str("Result overview!"));
    push_line(&mut lines, String::from_str("------------------------------------------------"));
    push_line(&mut lines, counter_line("Total features: ", stats.total_features));
    push_line(&mut lines, counter_line("Total scenarios: ", stats.total_scenarios));
    push_line(&mut lines, counter_line("Skipped scenarios: ", stats.skipped_scenarios));
    push_line(&mut lines, counter_line("Passed scenarios: ", stats.passed_scenarios));
    push_line(&mut lines, counter_line("Failed scenarios: ", stats.failed_scenarios));
    push_line(&mut lines, String::from_str("------------------------------------------------"));
    proof {
        assert(views_of(lines@) =~= overview_lines(stats@));
    }
    if stats.features.len() == 0 {
        return lines;
    }
    push_line(&mut lines, String::new());
    push_line(&mut lines, String::from_str("Feature overview:"));
    push_line(&mut lines, String::from_str("------------------------------------------------"));
    let ghost header = views_of(lines@);
    proof {
        assert(header =~= overview_lines(stats@) + seq![
            Seq::<char>::empty(),
            "Feature overview:"@,
            "------------------------------------------------"@,
        ]);
    }
    let ghost fs = stats@.features;
    let mut i: usize = 0;
    while i < stats.features.len()
        invariant
            i <= stats.features.len(),
            fs == stats@.features,
            fs.len() == stats.features.len(),
            views_of(lines@) == header + feature_blocks(fs.take(i as int)),
        decreases stats.features.len() - i,
    {
        proof {
            assert(fs[i as int] == stats.features@.map_values(|f: FeatureStats| f@)[i as int]);
        }
        let mut block = render_feature(&stats.features[i]);
        let ghost prev = lines@;
        let ghost blockv = block@;
        lines.append(&mut block);
        i = i + 1;
        proof {
            lemma_views_concat(prev, blockv);
            assert(fs.take(i as int).drop_last() =~= fs.take(i as int - 1));
            assert(fs.take(i as int).last() == fs[i as int - 1]);
            assert(feature_blocks(fs.take(i as int)) == feature_blocks(fs.take(i as int - 1))
                + feature_block(fs[i as int - 1]));
            assert(views_of(lines@) =~= header + feature_blocks(fs.take(i as int)));
        }
    }
    let ghost prev = lines@;
    push_line(&mut lines, String::new());
    proof {
        assert(fs.take(fs.len() as int) =~= fs);
        assert(views_of(lines@) =~= report_lines(stats@));
    }
    lines
}

/// Push one line, keeping the views relation visible.
fn push_line(lines: &mut Vec<String>, line: String)
    ensures
        final(lines)@ == old(lines)@.push(line),
        views_of(final(lines)@) == views_of(old(lines)@).push(line@),
{
    proof {
        lemma_views_push(old(lines)@, line);
    }
    lines.push(line);
}

} // verus!
