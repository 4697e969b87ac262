//! The snapshot codec: a report rendered as one structured UTF-8
//! document with fixed field names, and the decoder that reads such a
//! document back. Decoding an encoded report yields the original, field
//! for field.
use vstd::prelude::*;
use crate::chars::{
    append_chars, chars_to_string, dec_digits, digits_val, is_digit, lemma_dec_digits,
    lemma_digits_val_monotone, lemma_digits_val_nonneg, push_str_chars, str_to_chars, u32_to_chars,
};
use crate::outcome::StatResult;
use crate::report::{ReportView, RunStats};
use crate::stats::{FeatureStats, FeatureView, ScenarioStats, ScenarioView, StepStats, StepView};

verus! {

// ---------------------------------------------------------------------
// Encoding, in specification.
// ---------------------------------------------------------------------
/// How one character is written inside a quoted string: quote and
/// backslash are escaped with a backslash, all else stands as it is.
pub open spec fn esc_char(c: char) -> Seq<char> {
    if c == '"' || c == '\\' {
        seq!['\\', c]
    } else {
        seq![c]
    }
}

pub open spec fn esc_str(s: Seq<char>) -> Seq<char>
    decreases s.len(),
{
    if s.len() == 0 {
        Seq::empty()
    } else {
        esc_char(s[0]) + esc_str(s.drop_first())
    }
}

/// A quoted, escaped string value.
pub open spec fn enc_string(s: Seq<char>) -> Seq<char> {
    seq!['"'] + esc_str(s) + seq!['"']
}

/// An optional status: its quoted label, or the null word.
pub open spec fn enc_result(r: Option<StatResult>) -> Seq<char> {
    match r {
        None => "null"@,
        Some(StatResult::Passed) => "\"Passed\""@,
        Some(StatResult::Failed) => "\"Failed\""@,
        Some(StatResult::Skipped) => "\"Skipped\""@,
    }
}

pub open spec fn enc_step(st: StepView) -> Seq<char> {
    "{\"name\":"@ + enc_string(st.name) + ",\"keyword\":"@ + enc_string(st.keyword)
        + ",\"result\":"@ + enc_result(st.result) + "}"@
}

pub open spec fn enc_steps_from(sts: Seq<StepView>, k: int) -> Seq<char>
    decreases sts.len() - k,
{
    if k < 0 || k >= sts.len() {
        Seq::empty()
    } else if k == sts.len() - 1 {
        enc_step(sts[k])
    } else {
        enc_step(sts[k]) + seq![','] + enc_steps_from(sts, k + 1)
    }
}

pub open spec fn enc_steps(sts: Seq<StepView>) -> Seq<char> {
    seq!['['] + enc_steps_from(sts, 0) + seq![']']
}

pub open spec fn enc_scenario(sc: ScenarioView) -> Seq<char> {
    "{\"name\":"@ + enc_string(sc.name) + ",\"result\":"@ + enc_result(sc.result) + ",\"steps\":"@
        + enc_steps(sc.steps) + "}"@
}

pub open spec fn enc_scenarios_from(scs: Seq<ScenarioView>, k: int) -> Seq<char>
    decreases scs.len() - k,
{
    if k < 0 || k >= scs.len() {
        Seq::empty()
    } else if k == scs.len() - 1 {
        enc_scenario(scs[k])
    } else {
        enc_scenario(scs[k]) + seq![','] + enc_scenarios_from(scs, k + 1)
    }
}

pub open spec fn enc_scenarios(scs: Seq<ScenarioView>) -> Seq<char> {
    seq!['['] + enc_scenarios_from(scs, 0) + seq![']']
}

pub open spec fn enc_feature(f: FeatureView) -> Seq<char> {
    "{\"name\":"@ + enc_string(f.name) + ",\"scenarios\":"@ + enc_scenarios(f.scenarios) + "}"@
}

pub open spec fn enc_features_from(fs: Seq<FeatureView>, k: int) -> Seq<char>
    decreases fs.len() - k,
{
    if k < 0 || k >= fs.len() {
        Seq::empty()
    } else if k == fs.len() - 1 {
        enc_feature(fs[k])
    } else {
        enc_feature(fs[k]) + seq![','] + enc_features_from(fs, k + 1)
    }
}

pub open spec fn enc_features(fs: Seq<FeatureView>) -> Seq<char> {
    seq!['['] + enc_features_from(fs, 0) + seq![']']
}

/// The run-level counter fields of the snapshot document.
pub open spec fn enc_counters(rv: ReportView) -> Seq<char> {
    "{\"totalFeatures\":"@ + dec_digits(rv.total_features as int) + ",\"totalScenarios\":"@
        + dec_digits(rv.total_scenarios as int) + ",\"skippedScenarios\":"@ + dec_digits(
        rv.skipped_scenarios as int,
    ) + ",\"passedScenarios\":"@ + dec_digits(rv.passed_scenarios as int)
        + ",\"failedScenarios\":"@ + dec_digits(rv.failed_scenarios as int)
}

/// The whole snapshot document of one report.
pub open spec fn enc_report(rv: ReportView) -> Seq<char> {
    enc_counters(rv) + ",\"features\":"@ + enc_features(rv.features) + "}"@
}

// ---------------------------------------------------------------------
// Encoding, executable.
// ---------------------------------------------------------------------
proof fn lemma_esc_push(v: Seq<char>, c: char)
    ensures
        esc_str(v.push(c)) == esc_str(v) + esc_char(c),
    decreases v.len(),
{
    if v.len() == 0 {
        assert(v.push(c).drop_first() =~= Seq::<char>::empty());
        assert(v.push(c)[0] == c);
        assert(esc_str(v.push(c)) == esc_char(c) + esc_str(v.push(c).drop_first()));
        assert(esc_str(v.push(c)) =~= esc_str(v) + esc_char(c));
    } else {
        assert(v.push(c).drop_first() =~= v.drop_first().push(c));
        lemma_esc_push(v.drop_first(), c);
        assert(esc_str(v.push(c)) =~= esc_str(v) + esc_char(c));
    }
}

/// Write a quoted, escaped string value.
fn emit_string(out: &mut Vec<char>, s: &str)
    ensures
        final(out)@ == old(out)@ + enc_string(s@),
{
    let cs = str_to_chars(s);
    out.push('"');
    let mut i: usize = 0;
    while i < cs.len()
        invariant
            i <= cs.len(),
            cs@ == s@,
            out@ == old(out)@ + seq!['"'] + esc_str(cs@.take(i as int)),
        decreases cs.len() - i,
    {
        let c = cs[i];
        if c == '"' || c == '\\' {
            out.push('\\');
            out.push(c);
        } else {
            out.push(c);
        }
        i = i + 1;
        proof {
            assert(cs@.take(i as int) =~= cs@.take(i as int - 1).push(cs@[i as int - 1]));
            lemma_esc_push(cs@.take(i as int - 1), cs@[i as int - 1]);
            assert(out@ =~= old(out)@ + seq!['"'] + esc_str(cs@.take(i as int)));
        }
    }
    out.push('"');
    proof {
        assert(cs@.take(cs@.len() as int) =~= s@);
        assert(out@ =~= old(out)@ + enc_string(s@));
    }
}

/// Write an optional status value.
fn emit_result(out: &mut Vec<char>, r: &Option<StatResult>)
    ensures
        final(out)@ == old(out)@ + enc_result(*r),
{
    match r {
        None => push_str_chars(out, "null"),
        Some(StatResult::Passed) => push_str_chars(out, "\"Passed\""),
        Some(StatResult::Failed) => push_str_chars(out, "\"Failed\""),
        Some(StatResult::Skipped) => push_str_chars(out, "\"Skipped\""),
    }
}

/// Write one step object.
fn emit_step(out: &mut Vec<char>, st: &StepStats)
    ensures
        final(out)@ == old(out)@ + enc_step(st@),
{
    push_str_chars(out, "{\"name\":");
    emit_string(out, st.name.as_str());
    push_str_chars(out, ",\"keyword\":");
    emit_string(out, st.keyword.as_str());
    push_str_chars(out, ",\"result\":");
    emit_result(out, &st.result);
    push_str_chars(out, "}");
    proof {
        assert(out@ =~= old(out)@ + enc_step(st@));
    }
}

/// Write the step objects from index `k` on, comma-separated.
fn emit_steps_from(out: &mut Vec<char>, steps: &Vec<StepStats>, k: usize)
    requires
        k < steps@.len(),
    ensures
        final(out)@ == old(out)@ + enc_steps_from(
            steps@.map_values(|s: StepStats| s@),
            k as int,
        ),
    decreases steps@.len() - k,
{
    let ghost sv = steps@.map_values(|s: StepStats| s@);
    proof {
        assert(sv[k as int] == steps@[k as int]@);
    }
    let n = steps.len();
    emit_step(out, &steps[k]);
    if k < n - 1 {
        out.push(',');
        emit_steps_from(out, steps, k + 1);
        proof {
            assert(out@ =~= old(out)@ + enc_steps_from(sv, k as int));
        }
    }
}

/// Write a step list.
fn emit_steps(out: &mut Vec<char>, steps: &Vec<StepStats>)
    ensures
        final(out)@ == old(out)@ + enc_steps(steps@.map_values(|s: StepStats| s@)),
{
    out.push('[');
    if steps.len() > 0 {
        emit_steps_from(out, steps, 0);
    }
    out.push(']');
    proof {
        assert(out@ =~= old(out)@ + enc_steps(steps@.map_values(|s: StepStats| s@)));
    }
}

/// Write one scenario object.
fn emit_scenario(out: &mut Vec<char>, sc: &ScenarioStats)
    ensures
        final(out)@ == old(out)@ + enc_scenario(sc@),
{
    push_str_chars(out, "{\"name\":");
    emit_string(out, sc.name.as_str());
    push_str_chars(out, ",\"result\":");
    emit_result(out, &sc.result);
    push_str_chars(out, ",\"steps\":");
    emit_steps(out, &sc.steps);
    push_str_chars(out, "}");
    proof {
        assert(out@ =~= old(out)@ + enc_scenario(sc@));
    }
}

/// Write the scenario objects from index `k` on, comma-separated.
fn emit_scenarios_from(out: &mut Vec<char>, scs: &Vec<ScenarioStats>, k: usize)
    requires
        k < scs@.len(),
    ensures
        final(out)@ == old(out)@ + enc_scenarios_from(
            scs@.map_values(|s: ScenarioStats| s@),
            k as int,
        ),
    decreases scs@.len() - k,
{
    let ghost sv = scs@.map_values(|s: ScenarioStats| s@);
    proof {
        assert(sv[k as int] == scs@[k as int]@);
    }
    let n = scs.len();
    emit_scenario(out, &scs[k]);
    if k < n - 1 {
        out.push(',');
        emit_scenarios_from(out, scs, k + 1);
        proof {
            assert(out@ =~= old(out)@ + enc_scenarios_from(sv, k as int));
        }
    }
}

/// Write a scenario list.
fn emit_scenarios(out: &mut Vec<char>, scs: &Vec<ScenarioStats>)
    ensures
        final(out)@ == old(out)@ + enc_scenarios(scs@.map_values(|s: ScenarioStats| s@)),
{
    out.push('[');
    if scs.len() > 0 {
        emit_scenarios_from(out, scs, 0);
    }
    out.push(']');
    proof {
        assert(out@ =~= old(out)@ + enc_scenarios(scs@.map_values(|s: ScenarioStats| s@)));
    }
}

/// Write one feature object.
fn emit_feature(out: &mut Vec<char>, f: &FeatureStats)
    ensures
        final(out)@ == old(out)@ + enc_feature(f@),
{
    push_str_chars(out, "{\"name\":");
    emit_string(out, f.name.as_str());
    push_str_chars(out, ",\"scenarios\":");
    emit_scenarios(out, &f.scenarios);
    push_str_chars(out, "}");
    proof {
        assert(out@ =~= old(out)@ + enc_feature(f@));
    }
}

/// Write the feature objects from index `k` on, comma-separated.
fn emit_features_from(out: &mut Vec<char>, fs: &Vec<FeatureStats>, k: usize)
    requires
        k < fs@.len(),
    ensures
        final(out)@ == old(out)@ + enc_features_from(
            fs@.map_values(|f: FeatureStats| f@),
            k as int,
        ),
    decreases fs@.len() - k,
{
    let ghost fv = fs@.map_values(|f: FeatureStats| f@);
    proof {
        assert(fv[k as int] == fs@[k as int]@);
    }
    let n = fs.len();
    emit_feature(out, &fs[k]);
    if k < n - 1 {
        out.push(',');
        emit_features_from(out, fs, k + 1);
        proof {
            assert(out@ =~= old(out)@ + enc_features_from(fv, k as int));
        }
    }
}

/// Write a feature list.
fn emit_features(out: &mut Vec<char>, fs: &Vec<FeatureStats>)
    ensures
        final(out)@ == old(out)@ + enc_features(fs@.map_values(|f: FeatureStats| f@)),
{
    out.push('[');
    if fs.len() > 0 {
        emit_features_from(out, fs, 0);
    }
    out.push(']');
    proof {
        assert(out@ =~= old(out)@ + enc_features(fs@.map_values(|f: FeatureStats| f@)));
    }
}

/// Encode a report as its snapshot document.
pub fn encode_report(stats: &RunStats) -> (r: String)
    ensures
        r@ == enc_report(stats@),
{
    let mut out: Vec<char> = Vec::new();
    push_str_chars(&mut out, "{\"totalFeatures\":");
    let d1 = u32_to_chars(stats.total_features);
    append_chars(&mut out, &d1);
    push_str_chars(&mut out, ",\"totalScenarios\":");
    let d2 = u32_to_chars(stats.total_scenarios);
    append_chars(&mut out, &d2);
    push_str_chars(&mut out, ",\"skippedScenarios\":");
    let d3 = u32_to_chars(stats.skipped_scenarios);
    append_chars(&mut out, &d3);
    push_str_chars(&mut out, ",\"passedScenarios\":");
    let d4 = u32_to_chars(stats.passed_scenarios);
    append_chars(&mut out, &d4);
    push_str_chars(&mut out, ",\"failedScenarios\":");
    let d5 = u32_to_chars(stats.failed_scenarios);
    append_chars(&mut out, &d5);
    push_str_chars(&mut out, ",\"features\":");
    emit_features(&mut out, &stats.features);
    push_str_chars(&mut out, "}");
    proof {
        assert(out@ =~= enc_report(stats@));
    }
    chars_to_string(&out)
}

// ---------------------------------------------------------------------
// Decoding, in specification: a strict parser for the snapshot grammar.
// Each parser takes the document and a position and yields the parsed
// value with the position after it.
// ---------------------------------------------------------------------
pub open spec fn sp_lit(s: Seq<char>, i: int, lit: Seq<char>) -> Option<int> {
    if 0 <= i && i + lit.len() <= s.len() && s.subrange(i, i + lit.len()) == lit {
        Some(i + lit.len())
    } else {
        None
    }
}

/// The position just after the digit run starting at `i`.
pub open spec fn digit_run_end(s: Seq<char>, i: int) -> int
    decreases s.len() - i,
{
    if 0 <= i && i < s.len() && is_digit(s[i]) {
        digit_run_end(s, i + 1)
    } else {
        i
    }
}

pub open spec fn sp_u32(s: Seq<char>, i: int) -> Option<(u32, int)> {
    let j = digit_run_end(s, i);
    if j == i {
        None
    } else {
        let v = digits_val(s.subrange(i, j));
        if v <= u32::MAX {
            Some((v as u32, j))
        } else {
            None
        }
    }
}

/// The rest of a quoted string, after the opening quote: characters up
/// to the closing quote, a backslash taking the next character literally.
pub open spec fn sp_strbody(s: Seq<char>, i: int) -> Option<(Seq<char>, int)>
    decreases s.len() - i,
{
    if i < 0 || i >= s.len() {
        None
    } else if s[i] == '"' {
        Some((Seq::empty(), i + 1))
    } else if s[i] == '\\' {
        if i + 1 < s.len() {
            match sp_strbody(s, i + 2) {
                Some(t) => Some((seq![s[i + 1]] + t.0, t.1)),
                None => None,
            }
        } else {
            None
        }
    } else {
        match sp_strbody(s, i + 1) {
            Some(t) => Some((seq![s[i]] + t.0, t.1)),
            None => None,
        }
    }
}

pub open spec fn sp_string(s: Seq<char>, i: int) -> Option<(Seq<char>, int)> {
    if 0 <= i && i < s.len() && s[i] == '"' {
        sp_strbody(s, i + 1)
    } else {
        None
    }
}

pub open spec fn sp_result(s: Seq<char>, i: int) -> Option<(Option<StatResult>, int)> {
    match sp_lit(s, i, "null"@) {
        Some(j) => Some((None, j)),
        None => match sp_lit(s, i, "\"Passed\""@) {
            Some(j) => Some((Some(StatResult::Passed), j)),
            None => match sp_lit(s, i, "\"Failed\""@) {
                Some(j) => Some((Some(StatResult::Failed), j)),
                None => match sp_lit(s, i, "\"Skipped\""@) {
                    Some(j) => Some((Some(StatResult::Skipped), j)),
                    None => None,
                },
            },
        },
    }
}

pub open spec fn sp_step(s: Seq<char>, i: int) -> Option<(StepView, int)> {
    match sp_lit(s, i, "{\"name\":"@) {
        None => None,
        Some(j1) => match sp_string(s, j1) {
            None => None,
            Some(nm) => match sp_lit(s, nm.1, ",\"keyword\":"@) {
                None => None,
                Some(j2) => match sp_string(s, j2) {
                    None => None,
                    Some(kw) => match sp_lit(s, kw.1, ",\"result\":"@) {
                        None => None,
                        Some(j3) => match sp_result(s, j3) {
                            None => None,
                            Some(rs) => match sp_lit(s, rs.1, "}"@) {
                                None => None,
                                Some(j4) => Some(
                                    (StepView { keyword: kw.0, name: nm.0, result: rs.0 }, j4),
                                ),
                            },
                        },
                    },
                },
            },
        },
    }
}

pub open spec fn sp_steps_items(s: Seq<char>, i: int) -> Option<(Seq<StepView>, int)>
    decreases s.len() - i,
{
    match sp_step(s, i) {
        None => None,
        Some(st) => {
            let j = st.1;
            if !(i < j && j < s.len()) {
                None
            } else if s[j] == ',' {
                match sp_steps_items(s, j + 1) {
                    Some(t) => Some((seq![st.0] + t.0, t.1)),
                    None => None,
                }
            } else if s[j] == ']' {
                Some((seq![st.0], j + 1))
            } else {
                None
            }
        },
    }
}

pub open spec fn sp_steps(s: Seq<char>, i: int) -> Option<(Seq<StepView>, int)> {
    if 0 <= i && i < s.len() && s[i] == '[' {
        if i + 1 < s.len() && s[i + 1] == ']' {
            Some((Seq::empty(), i + 2))
        } else {
            sp_steps_items(s, i + 1)
        }
    } else {
        None
    }
}

pub open spec fn sp_scenario(s: Seq<char>, i: int) -> Option<(ScenarioView, int)> {
    match sp_lit(s, i, "{\"name\":"@) {
        None => None,
        Some(j1) => match sp_string(s, j1) {
            None => None,
            Some(nm) => match sp_lit(s, nm.1, ",\"result\":"@) {
                None => None,
                Some(j2) => match sp_result(s, j2) {
                    None => None,
                    Some(rs) => match sp_lit(s, rs.1, ",\"steps\":"@) {
                        None => None,
                        Some(j3) => match sp_steps(s, j3) {
                            None => None,
                            Some(ss) => match sp_lit(s, ss.1, "}"@) {
                                None => None,
                                Some(j4) => Some(
                                    (
                                        ScenarioView { name: nm.0, steps: ss.0, result: rs.0 },
                                        j4,
                                    ),
                                ),
                            },
                        },
                    },
                },
            },
        },
    }
}

pub open spec fn sp_scenarios_items(s: Seq<char>, i: int) -> Option<(Seq<ScenarioView>, int)>
    decreases s.len() - i,
{
    match sp_scenario(s, i) {
        None => None,
        Some(sc) => {
            let j = sc.1;
            if !(i < j && j < s.len()) {
                None
            } else if s[j] == ',' {
                match sp_scenarios_items(s, j + 1) {
                    Some(t) => Some((seq![sc.0] + t.0, t.1)),
                    None => None,
                }
            } else if s[j] == ']' {
                Some((seq![sc.0], j + 1))
            } else {
                None
            }
        },
    }
}

pub open spec fn sp_scenarios(s: Seq<char>, i: int) -> Option<(Seq<ScenarioView>, int)> {
    if 0 <= i && i < s.len() && s[i] == '[' {
        if i + 1 < s.len() && s[i + 1] == ']' {
            Some((Seq::empty(), i + 2))
        } else {
            sp_scenarios_items(s, i + 1)
        }
    } else {
        None
    }
}

pub open spec fn sp_feature(s: Seq<char>, i: int) -> Option<(FeatureView, int)> {
    match sp_lit(s, i, "{\"name\":"@) {
        None => None,
        Some(j1) => match sp_string(s, j1) {
            None => None,
            Some(nm) => match sp_lit(s, nm.1, ",\"scenarios\":"@) {
                None => None,
                Some(j2) => match sp_scenarios(s, j2) {
                    None => None,
                    Some(ss) => match sp_lit(s, ss.1, "}"@) {
                        None => None,
                        Some(j3) => Some(
                            (FeatureView { name: nm.0, scenarios: ss.0 }, j3),
                        ),
                    },
                },
            },
        },
    }
}

pub open spec fn sp_features_items(s: Seq<char>, i: int) -> Option<(Seq<FeatureView>, int)>
    decreases s.len() - i,
{
    match sp_feature(s, i) {
        None => None,
        Some(f) => {
            let j = f.1;
            if !(i < j && j < s.len()) {
                None
            } else if s[j] == ',' {
                match sp_features_items(s, j + 1) {
                    Some(t) => Some((seq![f.0] + t.0, t.1)),
                    None => None,
                }
            } else if s[j] == ']' {
                Some((seq![f.0], j + 1))
            } else {
                None
            }
        },
    }
}

pub open spec fn sp_features(s: Seq<char>, i: int) -> Option<(Seq<FeatureView>, int)> {
    if 0 <= i && i < s.len() && s[i] == '[' {
        if i + 1 < s.len() && s[i + 1] == ']' {
            Some((Seq::empty(), i + 2))
        } else {
            sp_features_items(s, i + 1)
        }
    } else {
        None
    }
}

pub open spec fn sp_counters(s: Seq<char>, i: int) -> Option<((u32, u32, u32, u32, u32), int)> {
    match sp_lit(s, i, "{\"totalFeatures\":"@) {
        None => None,
        Some(j1) => match sp_u32(s, j1) {
            None => None,
            Some(n1) => match sp_lit(s, n1.1, ",\"totalScenarios\":"@) {
                None => None,
                Some(j2) => match sp_u32(s, j2) {
                    None => None,
                    Some(n2) => match sp_lit(s, n2.1, ",\"skippedScenarios\":"@) {
                        None => None,
                        Some(j3) => match sp_u32(s, j3) {
                            None => None,
                            Some(n3) => match sp_lit(s, n3.1, ",\"passedScenarios\":"@) {
                                None => None,
                                Some(j4) => match sp_u32(s, j4) {
                                    None => None,
                                    Some(n4) => match sp_lit(s, n4.1, ",\"failedScenarios\":"@) {
                                        None => None,
                                        Some(j5) => match sp_u32(s, j5) {
                                            None => None,
                                            Some(n5) => Some(
                                                ((n1.0, n2.0, n3.0, n4.0, n5.0), n5.1),
                                            ),
                                        },
                                    },
                                },
                            },
                        },
                    },
                },
            },
        },
    }
}

pub open spec fn sp_report(s: Seq<char>, i: int) -> Option<(ReportView, int)> {
    match sp_counters(s, i) {
        None => None,
        Some(c) => match sp_lit(s, c.1, ",\"features\":"@) {
            None => None,
            Some(j6) => match sp_features(s, j6) {
                None => None,
                Some(ff) => match sp_lit(s, ff.1, "}"@) {
                    None => None,
                    Some(j7) => Some(
                        (
                            ReportView {
                                total_features: c.0.0,
                                total_scenarios: c.0.1,
                                skipped_scenarios: c.0.2,
                                passed_scenarios: c.0.3,
                                failed_scenarios: c.0.4,
                                features: ff.0,
                            },
                            j7,
                        ),
                    ),
                },
            },
        },
    }
}

/// A whole document decodes to a report exactly when the report grammar
/// consumes every character.
pub open spec fn spec_decode(s: Seq<char>) -> Option<ReportView> {
    match sp_report(s, 0) {
        Some(r) => if r.1 == s.len() {
            Some(r.0)
        } else {
            None
        },
        None => None,
    }
}

// ---------------------------------------------------------------------
// Decoding, executable: each function mirrors its parser above.
// ---------------------------------------------------------------------
fn x_lit(s: &Vec<char>, i: usize, lit: &str) -> (r: Option<usize>)
    requires
        i <= s@.len(),
    ensures
        match sp_lit(s@, i as int, lit@) {
            Some(j) => r matches Some(jj) && jj == j,
            None => r is None,
        },
{
    let n = lit.unicode_len();
    let m = s.len();
    if n > m - i {
        return None;
    }
    let mut k: usize = 0;
    while k < n
        invariant
            n == lit@.len(),
            m == s@.len(),
            i + n <= m,
            k <= n,
            forall|t: int| 0 <= t < k ==> s@[i + t] == lit@[t],
        decreases n - k,
    {
        if s[i + k] != lit.get_char(k) {
            proof {
                assert(s@.subrange(i as int, i as int + n as int)[k as int] == s@[i + k]);
            }
            return None;
        }
        k = k + 1;
    }
    proof {
        assert(s@.subrange(i as int, i as int + n as int) =~= lit@);
    }
    Some(i + n)
}

/// Whether position `j` holds a decimal digit.
fn digit_at(s: &Vec<char>, j: usize) -> (b: bool)
    ensures
        b == (j < s@.len() && is_digit(s@[j as int])),
{
    if j < s.len() {
        crate::chars::digit_of(s[j]).is_some()
    } else {
        false
    }
}

fn x_u32(s: &Vec<char>, i: usize) -> (r: Option<(u32, usize)>)
    requires
        i <= s@.len(),
    ensures
        match sp_u32(s@, i as int) {
            Some(p) => r matches Some(q) && q.0 == p.0 && q.1 == p.1 && p.1 <= s@.len(),
            None => r is None,
        },
{
    let m = s.len();
    let mut j: usize = i;
    let mut acc: u64 = 0;
    let mut over: bool = false;
    while digit_at(s, j)
        invariant
            m == s@.len(),
            i <= j <= s@.len(),
            digit_run_end(s@, i as int) == digit_run_end(s@, j as int),
            forall|t: int| i <= t < j ==> is_digit(#[trigger] s@[t]),
            !over ==> acc as int == digits_val(s@.subrange(i as int, j as int)) && acc
                <= u32::MAX as u64,
            over ==> digits_val(s@.subrange(i as int, j as int)) > u32::MAX,
        decreases s@.len() - j,
    {
        let d: u32 = match crate::chars::digit_of(s[j]) {
            Some(v) => v,
            None => 0,
        };
        proof {
            assert(s@.subrange(i as int, j as int + 1) =~= s@.subrange(i as int, j as int).push(
                s@[j as int],
            ));
            assert forall|t: int|
                0 <= t < j as int - i implies is_digit(
                #[trigger] s@.subrange(i as int, j as int)[t],
            ) by {
                assert(s@.subrange(i as int, j as int)[t] == s@[i + t]);
            }
            lemma_digits_val_nonneg(s@.subrange(i as int, j as int));
            lemma_digits_val_monotone(s@.subrange(i as int, j as int), s@[j as int]);
            assert(digit_run_end(s@, j as int) == digit_run_end(s@, j as int + 1));
        }
        if !over {
            let t: u64 = acc * 10 + (d as u64);
            if t > (u32::MAX as u64) {
                over = true;
            } else {
                acc = t;
            }
        }
        j = j + 1;
    }
    proof {
        assert(digit_run_end(s@, j as int) == j as int);
    }
    if j == i {
        return None;
    }
    if over {
        return None;
    }
    Some((acc as u32, j))
}

fn x_strbody(s: &Vec<char>, i: usize) -> (r: Option<(Vec<char>, usize)>)
    requires
        i <= s@.len(),
    ensures
        match sp_strbody(s@, i as int) {
            Some(t) => r matches Some(p) && p.0@ == t.0 && p.1 == t.1 && t.1 <= s@.len(),
            None => r is None,
        },
    decreases s@.len() - i,
{
    if i >= s.len() {
        return None;
    }
    let c = s[i];
    if c == '"' {
        let v: Vec<char> = Vec::new();
        proof {
            assert(v@ =~= Seq::<char>::empty());
        }
        Some((v, i + 1))
    } else if c == '\\' {
        if i + 1 < s.len() {
            match x_strbody(s, i + 2) {
                Some((mut v, j)) => {
                    let ghost before = v@;
                    v.insert(0, s[i + 1]);
                    proof {
                        assert(v@ =~= seq![s@[i as int + 1]] + before);
                    }
                    Some((v, j))
                },
                None => None,
            }
        } else {
            None
        }
    } else {
        match x_strbody(s, i + 1) {
            Some((mut v, j)) => {
                let ghost before = v@;
                v.insert(0, c);
                proof {
                    assert(v@ =~= seq![s@[i as int]] + before);
                }
                Some((v, j))
            },
            None => None,
        }
    }
}

fn x_string(s: &Vec<char>, i: usize) -> (r: Option<(String, usize)>)
    requires
        i <= s@.len(),
    ensures
        match sp_string(s@, i as int) {
            Some(t) => r matches Some(p) && p.0@ == t.0 && p.1 == t.1 && t.1 <= s@.len(),
            None => r is None,
        },
{
    if i < s.len() && s[i] == '"' {
        match x_strbody(s, i + 1) {
            Some((v, j)) => Some((chars_to_string(&v), j)),
            None => None,
        }
    } else {
        None
    }
}

fn x_result(s: &Vec<char>, i: usize) -> (r: Option<(Option<StatResult>, usize)>)
    requires
        i <= s@.len(),
    ensures
        match sp_result(s@, i as int) {
            Some(t) => r matches Some(p) && p.0 == t.0 && p.1 == t.1 && t.1 <= s@.len(),
            None => r is None,
        },
{
    match x_lit(s, i, "null") {
        Some(j) => Some((None, j)),
        None => match x_lit(s, i, "\"Passed\"") {
            Some(j) => Some((Some(StatResult::Passed), j)),
            None => match x_lit(s, i, "\"Failed\"") {
                Some(j) => Some((Some(StatResult::Failed), j)),
                None => match x_lit(s, i, "\"Skipped\"") {
                    Some(j) => Some((Some(StatResult::Skipped), j)),
                    None => None,
                },
            },
        },
    }
}

fn x_step(s: &Vec<char>, i: usize) -> (r: Option<(StepStats, usize)>)
    requires
        i <= s@.len(),
    ensures
        match sp_step(s@, i as int) {
            Some(t) => r matches Some(p) && p.0@ == t.0 && p.1 == t.1 && t.1 <= s@.len(),
            None => r is None,
        },
{
    match x_lit(s, i, "{\"name\":") {
        None => None,
        Some(j1) => match x_string(s, j1) {
            None => None,
            Some((nm, k1)) => match x_lit(s, k1, ",\"keyword\":") {
                None => None,
                Some(j2) => match x_string(s, j2) {
                    None => None,
                    Some((kw, k2)) => match x_lit(s, k2, ",\"result\":") {
                        None => None,
                        Some(j3) => match x_result(s, j3) {
                            None => None,
                            Some((rs, k3)) => match x_lit(s, k3, "}") {
                                None => None,
                                Some(j4) => Some(
                                    (StepStats { name: nm, keyword: kw, result: rs }, j4),
                                ),
                            },
                        },
                    },
                },
            },
        },
    }
}

fn x_steps_items(s: &Vec<char>, i: usize) -> (r: Option<(Vec<StepStats>, usize)>)
    requires
        i <= s@.len(),
    ensures
        match sp_steps_items(s@, i as int) {
            Some(t) => r matches Some(p) && p.0@.map_values(|x: StepStats| x@) == t.0 && p.1
                == t.1 && t.1 <= s@.len(),
            None => r is None,
        },
    decreases s@.len() - i,
{
    match x_step(s, i) {
        None => None,
        Some((st, j)) => {
            if !(i < j && j < s.len()) {
                None
            } else if s[j] == ',' {
                match x_steps_items(s, j + 1) {
                    Some((mut v, k)) => {
                        let ghost before = v@;
                        let ghost stv = st@;
                        v.insert(0, st);
                        proof {
                            assert(v@.map_values(|x: StepStats| x@) =~= seq![stv]
                                + before.map_values(|x: StepStats| x@));
                        }
                        Some((v, k))
                    },
                    None => None,
                }
            } else if s[j] == ']' {
                let ghost stv = st@;
                let mut v: Vec<StepStats> = Vec::new();
                v.push(st);
                proof {
                    assert(v@.map_values(|x: StepStats| x@) =~= seq![stv]);
                }
                Some((v, j + 1))
            } else {
                None
            }
        },
    }
}

fn x_steps(s: &Vec<char>, i: usize) -> (r: Option<(Vec<StepStats>, usize)>)
    requires
        i <= s@.len(),
    ensures
        match sp_steps(s@, i as int) {
            Some(t) => r matches Some(p) && p.0@.map_values(|x: StepStats| x@) == t.0 && p.1
                == t.1 && t.1 <= s@.len(),
            None => r is None,
        },
{
    if i < s.len() && s[i] == '[' {
        if i + 1 < s.len() && s[i + 1] == ']' {
            let v: Vec<StepStats> = Vec::new();
            proof {
                assert(v@.map_values(|x: StepStats| x@) =~= Seq::<StepView>::empty());
            }
            Some((v, i + 2))
        } else {
            x_steps_items(s, i + 1)
        }
    } else {
        None
    }
}

fn x_scenario(s: &Vec<char>, i: usize) -> (r: Option<(ScenarioStats, usize)>)
    requires
        i <= s@.len(),
    ensures
        match sp_scenario(s@, i as int) {
            Some(t) => r matches Some(p) && p.0@ == t.0 && p.1 == t.1 && t.1 <= s@.len(),
            None => r is None,
        },
{
    match x_lit(s, i, "{\"name\":") {
        None => None,
        Some(j1) => match x_string(s, j1) {
            None => None,
            Some((nm, k1)) => match x_lit(s, k1, ",\"result\":") {
                None => None,
                Some(j2) => match x_result(s, j2) {
                    None => None,
                    Some((rs, k2)) => match x_lit(s, k2, ",\"steps\":") {
                        None => None,
                        Some(j3) => match x_steps(s, j3) {
                            None => None,
                            Some((ss, k3)) => match x_lit(s, k3, "}") {
                                None => None,
                                Some(j4) => Some(
                                    (ScenarioStats { name: nm, steps: ss, result: rs }, j4),
                                ),
                            },
                        },
                    },
                },
            },
        },
    }
}

fn x_scenarios_items(s: &Vec<char>, i: usize) -> (r: Option<(Vec<ScenarioStats>, usize)>)
    requires
        i <= s@.len(),
    ensures
        match sp_scenarios_items(s@, i as int) {
            Some(t) => r matches Some(p) && p.0@.map_values(|x: ScenarioStats| x@) == t.0 && p.1
                == t.1 && t.1 <= s@.len(),
            None => r is None,
        },
    decreases s@.len() - i,
{
    match x_scenario(s, i) {
        None => None,
        Some((sc, j)) => {
            if !(i < j && j < s.len()) {
                None
            } else if s[j] == ',' {
                match x_scenarios_items(s, j + 1) {
                    Some((mut v, k)) => {
                        let ghost before = v@;
                        let ghost scv = sc@;
                        v.insert(0, sc);
                        proof {
                            assert(v@.map_values(|x: ScenarioStats| x@) =~= seq![scv]
                                + before.map_values(|x: ScenarioStats| x@));
                        }
                        Some((v, k))
                    },
                    None => None,
                }
            } else if s[j] == ']' {
                let ghost scv = sc@;
                let mut v: Vec<ScenarioStats> = Vec::new();
                v.push(sc);
                proof {
                    assert(v@.map_values(|x: ScenarioStats| x@) =~= seq![scv]);
                }
                Some((v, j + 1))
            } else {
                None
            }
        },
    }
}

fn x_scenarios(s: &Vec<char>, i: usize) -> (r: Option<(Vec<ScenarioStats>, usize)>)
    requires
        i <= s@.len(),
    ensures
        match sp_scenarios(s@, i as int) {
            Some(t) => r matches Some(p) && p.0@.map_values(|x: ScenarioStats| x@) == t.0 && p.1
                == t.1 && t.1 <= s@.len(),
            None => r is None,
        },
{
    if i < s.len() && s[i] == '[' {
        if i + 1 < s.len() && s[i + 1] == ']' {
            let v: Vec<ScenarioStats> = Vec::new();
            proof {
                assert(v@.map_values(|x: ScenarioStats| x@) =~= Seq::<ScenarioView>::empty());
            }
            Some((v, i + 2))
        } else {
            x_scenarios_items(s, i + 1)
        }
    } else {
        None
    }
}

fn x_feature(s: &Vec<char>, i: usize) -> (r: Option<(FeatureStats, usize)>)
    requires
        i <= s@.len(),
    ensures
        match sp_feature(s@, i as int) {
            Some(t) => r matches Some(p) && p.0@ == t.0 && p.1 == t.1 && t.1 <= s@.len(),
            None => r is None,
        },
{
    match x_lit(s, i, "{\"name\":") {
        None => None,
        Some(j1) => match x_string(s, j1) {
            None => None,
            Some((nm, k1)) => match x_lit(s, k1, ",\"scenarios\":") {
                None => None,
                Some(j2) => match x_scenarios(s, j2) {
                    None => None,
                    Some((ss, k2)) => match x_lit(s, k2, "}") {
                        None => None,
                        Some(j3) => Some((FeatureStats { name: nm, scenarios: ss }, j3)),
                    },
                },
            },
        },
    }
}

fn x_features_items(s: &Vec<char>, i: usize) -> (r: Option<(Vec<FeatureStats>, usize)>)
    requires
        i <= s@.len(),
    ensures
        match sp_features_items(s@, i as int) {
            Some(t) => r matches Some(p) && p.0@.map_values(|x: FeatureStats| x@) == t.0 && p.1
                == t.1 && t.1 <= s@.len(),
            None => r is None,
        },
    decreases s@.len() - i,
{
    match x_feature(s, i) {
        None => None,
        Some((f, j)) => {
            if !(i < j && j < s.len()) {
                None
            } else if s[j] == ',' {
                match x_features_items(s, j + 1) {
                    Some((mut v, k)) => {
                        let ghost before = v@;
                        let ghost fv = f@;
                        v.insert(0, f);
                        proof {
                            assert(v@.map_values(|x: FeatureStats| x@) =~= seq![fv]
                                + before.map_values(|x: FeatureStats| x@));
                        }
                        Some((v, k))
                    },
                    None => None,
                }
            } else if s[j] == ']' {
                let ghost fv = f@;
                let mut v: Vec<FeatureStats> = Vec::new();
                v.push(f);
                proof {
                    assert(v@.map_values(|x: FeatureStats| x@) =~= seq![fv]);
                }
                Some((v, j + 1))
            } else {
                None
            }
        },
    }
}

fn x_features(s: &Vec<char>, i: usize) -> (r: Option<(Vec<FeatureStats>, usize)>)
    requires
        i <= s@.len(),
    ensures
        match sp_features(s@, i as int) {
            Some(t) => r matches Some(p) && p.0@.map_values(|x: FeatureStats| x@) == t.0 && p.1
                == t.1 && t.1 <= s@.len(),
            None => r is None,
        },
{
    if i < s.len() && s[i] == '[' {
        if i + 1 < s.len() && s[i + 1] == ']' {
            let v: Vec<FeatureStats> = Vec::new();
            proof {
                assert(v@.map_values(|x: FeatureStats| x@) =~= Seq::<FeatureView>::empty());
            }
            Some((v, i + 2))
        } else {
            x_features_items(s, i + 1)
        }
    } else {
        None
    }
}

fn x_counters(s: &Vec<char>, i: usize) -> (r: Option<((u32, u32, u32, u32, u32), usize)>)
    requires
        i <= s@.len(),
    ensures
        match sp_counters(s@, i as int) {
            Some(t) => r matches Some(p) && p.0 == t.0 && p.1 == t.1 && t.1 <= s@.len(),
            None => r is None,
        },
{
    match x_lit(s, i, "{\"totalFeatures\":") {
        None => None,
        Some(j1) => match x_u32(s, j1) {
            None => None,
            Some((n1, k1)) => match x_lit(s, k1, ",\"totalScenarios\":") {
                None => None,
                Some(j2) => match x_u32(s, j2) {
                    None => None,
                    Some((n2, k2)) => match x_lit(s, k2, ",\"skippedScenarios\":") {
                        None => None,
                        Some(j3) => match x_u32(s, j3) {
                            None => None,
                            Some((n3, k3)) => match x_lit(s, k3, ",\"passedScenarios\":") {
                                None => None,
                                Some(j4) => match x_u32(s, j4) {
                                    None => None,
                                    Some((n4, k4)) => match x_lit(s, k4, ",\"failedScenarios\":") {
                                        None => None,
                                        Some(j5) => match x_u32(s, j5) {
                                            None => None,
                                            Some((n5, k5)) => Some(
                                                ((n1, n2, n3, n4, n5), k5),
                                            ),
                                        },
                                    },
                                },
                            },
                        },
                    },
                },
            },
        },
    }
}

fn x_report(s: &Vec<char>, i: usize) -> (r: Option<(RunStats, usize)>)
    requires
        i <= s@.len(),
    ensures
        match sp_report(s@, i as int) {
            Some(t) => r matches Some(p) && p.0@ == t.0 && p.1 == t.1 && t.1 <= s@.len(),
            None => r is None,
        },
{
    match x_counters(s, i) {
        None => None,
        Some(((n1, n2, n3, n4, n5), k5)) => match x_lit(s, k5, ",\"features\":") {
            None => None,
            Some(j6) => match x_features(s, j6) {
                None => None,
                Some((ff, k6)) => match x_lit(s, k6, "}") {
                    None => None,
                    Some(j7) => Some(
                        (
                            RunStats {
                                total_features: n1,
                                total_scenarios: n2,
                                skipped_scenarios: n3,
                                passed_scenarios: n4,
                                failed_scenarios: n5,
                                features: ff,
                            },
                            j7,
                        ),
                    ),
                },
            },
        },
    }
}

// ---------------------------------------------------------------------
// The round trip: a parser applied to an encoding yields the encoded
// value and stops right after it.
// ---------------------------------------------------------------------
proof fn lemma_skip_split(s: Seq<char>, i: int, a: Seq<char>, b: Seq<char>)
    requires
        0 <= i <= s.len(),
        s.skip(i) == a + b,
    ensures
        i + a.len() <= s.len(),
        s.subrange(i, i + a.len()) == a,
        s.skip(i + a.len()) == b,
{
    let m = a.len() as int;
    assert(s.subrange(i, s.len() as int).len() == s.len() - i);
    assert(s.len() - i == m + b.len());
    assert forall|k: int| 0 <= k < m implies s.subrange(i, i + m)[k] == a[k] by {
        assert(s.subrange(i, s.len() as int)[k] == (a + b)[k]);
        assert(s.subrange(i, s.len() as int)[k] == s[i + k]);
        assert(s.subrange(i, i + m)[k] == s[i + k]);
        assert((a + b)[k] == a[k]);
    }
    assert(s.subrange(i, i + m) =~= a);
    assert forall|k: int| 0 <= k < b.len() implies s.subrange(i + m, s.len() as int)[k] == b[k]
        by {
        assert(s.subrange(i, s.len() as int)[m + k] == (a + b)[m + k]);
        assert(s.subrange(i, s.len() as int)[m + k] == s[i + m + k]);
        assert(s.subrange(i + m, s.len() as int)[k] == s[i + m + k]);
        assert((a + b)[m + k] == b[k]);
    }
    assert(s.skip(i + m) =~= b);
}

proof fn lemma_parse_lit(s: Seq<char>, i: int, lit: Seq<char>, rest: Seq<char>)
    requires
        0 <= i <= s.len(),
        s.skip(i) == lit + rest,
    ensures
        sp_lit(s, i, lit) == Some(i + lit.len()),
        s.skip(i + lit.len()) == rest,
{
    lemma_skip_split(s, i, lit, rest);
}

proof fn lemma_dre(s: Seq<char>, i: int, j: int)
    requires
        0 <= i <= j <= s.len(),
        forall|t: int| i <= t < j ==> is_digit(#[trigger] s[t]),
        j == s.len() || !is_digit(s[j]),
    ensures
        digit_run_end(s, i) == j,
    decreases j - i,
{
    if i < j {
        assert(is_digit(s[i]));
        lemma_dre(s, i + 1, j);
    }
}

proof fn lemma_parse_u32(s: Seq<char>, i: int, n: u32, rest: Seq<char>)
    requires
        0 <= i <= s.len(),
        s.skip(i) == dec_digits(n as int) + rest,
        rest.len() == 0 || !is_digit(rest[0]),
    ensures
        sp_u32(s, i) == Some((n, i + dec_digits(n as int).len())),
        s.skip(i + dec_digits(n as int).len()) == rest,
{
    lemma_dec_digits(n as int);
    let e = dec_digits(n as int);
    lemma_skip_split(s, i, e, rest);
    let j = i + e.len();
    assert forall|t: int| i <= t < j implies is_digit(#[trigger] s[t]) by {
        assert(s.subrange(i, j)[t - i] == s[t]);
        assert(is_digit(e[t - i]));
    }
    if j < s.len() {
        assert(s.skip(j)[0] == s[j]);
        assert(s[j] == rest[0]);
    }
    lemma_dre(s, i, j);
    assert(s.subrange(i, j) == e);
    assert(digits_val(s.subrange(i, j)) == n);
}

proof fn lemma_parse_strbody(s: Seq<char>, i: int, v: Seq<char>, rest: Seq<char>)
    requires
        0 <= i <= s.len(),
        s.skip(i) == esc_str(v) + seq!['"'] + rest,
    ensures
        sp_strbody(s, i) == Some((v, i + esc_str(v).len() + 1)),
        s.skip(i + esc_str(v).len() + 1) == rest,
    decreases v.len(),
{
    if v.len() == 0 {
        assert(esc_str(v) =~= Seq::<char>::empty());
        assert(s.skip(i) =~= seq!['"'] + rest);
        lemma_skip_split(s, i, seq!['"'], rest);
        assert(s.subrange(i, i + 1)[0] == s[i]);
        assert(s[i] == '"');
    } else {
        let c = v[0];
        let tail = v.drop_first();
        assert(esc_str(v) == esc_char(c) + esc_str(tail));
        assert(s.skip(i) =~= esc_char(c) + (esc_str(tail) + seq!['"'] + rest));
        lemma_skip_split(s, i, esc_char(c), esc_str(tail) + seq!['"'] + rest);
        if c == '"' || c == '\\' {
            assert(s.subrange(i, i + 2)[0] == s[i]);
            assert(s.subrange(i, i + 2)[1] == s[i + 1]);
            assert(s[i] == '\\');
            assert(s[i + 1] == c);
            lemma_parse_strbody(s, i + 2, tail, rest);
            assert(seq![s[i + 1]] + tail =~= v);
        } else {
            assert(s.subrange(i, i + 1)[0] == s[i]);
            assert(s[i] == c);
            lemma_parse_strbody(s, i + 1, tail, rest);
            assert(seq![s[i]] + tail =~= v);
        }
    }
}

proof fn lemma_parse_string(s: Seq<char>, i: int, v: Seq<char>, rest: Seq<char>)
    requires
        0 <= i <= s.len(),
        s.skip(i) == enc_string(v) + rest,
    ensures
        sp_string(s, i) == Some((v, i + enc_string(v).len())),
        s.skip(i + enc_string(v).len()) == rest,
{
    assert(s.skip(i) =~= seq!['"'] + (esc_str(v) + seq!['"'] + rest));
    lemma_skip_split(s, i, seq!['"'], esc_str(v) + seq!['"'] + rest);
    assert(s.subrange(i, i + 1)[0] == s[i]);
    assert(s[i] == '"');
    lemma_parse_strbody(s, i + 1, v, rest);
}

/// The concrete shape of the fixed words of the grammar, as far as the
/// round-trip proof needs it.
proof fn lemma_literal_facts()
    ensures
        "null"@.len() == 4,
        "null"@[0] == 'n',
        "\"Passed\""@.len() == 8,
        "\"Passed\""@[0] == '"',
        "\"Passed\""@[1] == 'P',
        "\"Failed\""@.len() == 8,
        "\"Failed\""@[0] == '"',
        "\"Failed\""@[1] == 'F',
        "\"Skipped\""@.len() == 9,
        "\"Skipped\""@[0] == '"',
        "\"Skipped\""@[1] == 'S',
        "{\"name\":"@.len() == 8,
        "{\"name\":"@[0] == '{',
        ",\"keyword\":"@.len() == 11,
        ",\"keyword\":"@[0] == ',',
        ",\"result\":"@.len() == 10,
        ",\"result\":"@[0] == ',',
        ",\"steps\":"@.len() == 9,
        ",\"steps\":"@[0] == ',',
        ",\"scenarios\":"@.len() == 13,
        ",\"scenarios\":"@[0] == ',',
        "}"@.len() == 1,
        "}"@[0] == '}',
        "{\"totalFeatures\":"@.len() == 17,
        "{\"totalFeatures\":"@[0] == '{',
        ",\"totalScenarios\":"@.len() == 18,
        ",\"totalScenarios\":"@[0] == ',',
        ",\"skippedScenarios\":"@.len() == 20,
        ",\"skippedScenarios\":"@[0] == ',',
        ",\"passedScenarios\":"@.len() == 19,
        ",\"passedScenarios\":"@[0] == ',',
        ",\"failedScenarios\":"@.len() == 19,
        ",\"failedScenarios\":"@[0] == ',',
        ",\"features\":"@.len() == 12,
        ",\"features\":"@[0] == ',',
{
    reveal_strlit("null");
    reveal_strlit("\"Passed\"");
    reveal_strlit("\"Failed\"");
    reveal_strlit("\"Skipped\"");
    reveal_strlit("{\"name\":");
    reveal_strlit(",\"keyword\":");
    reveal_strlit(",\"result\":");
    reveal_strlit(",\"steps\":");
    reveal_strlit(",\"scenarios\":");
    reveal_strlit("}");
    reveal_strlit("{\"totalFeatures\":");
    reveal_strlit(",\"totalScenarios\":");
    reveal_strlit(",\"skippedScenarios\":");
    reveal_strlit(",\"passedScenarios\":");
    reveal_strlit(",\"failedScenarios\":");
    reveal_strlit(",\"features\":");
}

proof fn lemma_parse_result(s: Seq<char>, i: int, r: Option<StatResult>, rest: Seq<char>)
    requires
        0 <= i <= s.len(),
        s.skip(i) == enc_result(r) + rest,
    ensures
        sp_result(s, i) == Some((r, i + enc_result(r).len())),
        s.skip(i + enc_result(r).len()) == rest,
{
    lemma_literal_facts();
    match r {
        None => {
            lemma_parse_lit(s, i, "null"@, rest);
        },
        Some(x) => {
            let lit = enc_result(r);
            lemma_skip_split(s, i, lit, rest);
            assert(s.subrange(i, i + lit.len())[0] == s[i]);
            assert(s.subrange(i, i + lit.len())[1] == s[i + 1]);
            assert(s[i] == '"');
            if sp_lit(s, i, "null"@) is Some {
                assert(s.subrange(i, i + "null"@.len())[0] == s[i]);
                assert(false);
            }
            match x {
                StatResult::Passed => {
                    lemma_parse_lit(s, i, "\"Passed\""@, rest);
                },
                StatResult::Failed => {
                    assert(s[i + 1] == 'F');
                    if sp_lit(s, i, "\"Passed\""@) is Some {
                        assert(s.subrange(i, i + "\"Passed\""@.len())[1] == s[i + 1]);
                        assert(false);
                    }
                    lemma_parse_lit(s, i, "\"Failed\""@, rest);
                },
                StatResult::Skipped => {
                    assert(s[i + 1] == 'S');
                    if sp_lit(s, i, "\"Passed\""@) is Some {
                        assert(s.subrange(i, i + "\"Passed\""@.len())[1] == s[i + 1]);
                        assert(false);
                    }
                    if sp_lit(s, i, "\"Failed\""@) is Some {
                        assert(s.subrange(i, i + "\"Failed\""@.len())[1] == s[i + 1]);
                        assert(false);
                    }
                    lemma_parse_lit(s, i, "\"Skipped\""@, rest);
                },
            }
        },
    }
}

proof fn lemma_parse_step(s: Seq<char>, i: int, st: StepView, rest: Seq<char>)
    requires
        0 <= i <= s.len(),
        s.skip(i) == enc_step(st) + rest,
    ensures
        sp_step(s, i) == Some((st, i + enc_step(st).len())),
        s.skip(i + enc_step(st).len()) == rest,
{
    let r5 = "}"@ + rest;
    let r4 = enc_result(st.result) + r5;
    let r3 = ",\"result\":"@ + r4;
    let r2 = enc_string(st.keyword) + r3;
    let r1 = ",\"keyword\":"@ + r2;
    let r0 = enc_string(st.name) + r1;
    assert(s.skip(i) =~= "{\"name\":"@ + r0);
    lemma_parse_lit(s, i, "{\"name\":"@, r0);
    let j1 = i + "{\"name\":"@.len();
    lemma_parse_string(s, j1, st.name, r1);
    let k1 = j1 + enc_string(st.name).len();
    lemma_parse_lit(s, k1, ",\"keyword\":"@, r2);
    let j2 = k1 + ",\"keyword\":"@.len();
    lemma_parse_string(s, j2, st.keyword, r3);
    let k2 = j2 + enc_string(st.keyword).len();
    lemma_parse_lit(s, k2, ",\"result\":"@, r4);
    let j3 = k2 + ",\"result\":"@.len();
    lemma_parse_result(s, j3, st.result, r5);
    let k3 = j3 + enc_result(st.result).len();
    lemma_parse_lit(s, k3, "}"@, rest);
    assert(sp_step(s, i) matches Some(t) && t.0 == st);
}

#[verifier::rlimit(100)]
proof fn lemma_parse_steps_items(s: Seq<char>, i: int, sts: Seq<StepView>, k: int, rest: Seq<
    char,
>)
    requires
        0 <= i <= s.len(),
        0 <= k < sts.len(),
        s.skip(i) == enc_steps_from(sts, k) + seq![']'] + rest,
    ensures
        sp_steps_items(s, i) == Some((sts.skip(k), i + enc_steps_from(sts, k).len() + 1)),
        s.skip(i + enc_steps_from(sts, k).len() + 1) == rest,
    decreases sts.len() - k,
{
    lemma_literal_facts();
    if k == sts.len() - 1 {
        assert(enc_steps_from(sts, k) == enc_step(sts[k]));
        assert(s.skip(i) =~= enc_step(sts[k]) + (seq![']'] + rest));
        lemma_parse_step(s, i, sts[k], seq![']'] + rest);
        let j = i + enc_step(sts[k]).len();
        assert(enc_step(sts[k]).len() >= 8);
        assert(s.skip(j)[0] == s[j]);
        assert(s[j] == ']');
        lemma_skip_split(s, j, seq![']'], rest);
        assert(sts.skip(k) =~= seq![sts[k]]);
    } else {
        let tail = seq![','] + (enc_steps_from(sts, k + 1) + seq![']'] + rest);
        assert(enc_steps_from(sts, k) == enc_step(sts[k]) + seq![','] + enc_steps_from(
            sts,
            k + 1,
        ));
        assert(s.skip(i) =~= enc_step(sts[k]) + tail);
        lemma_parse_step(s, i, sts[k], tail);
        let j = i + enc_step(sts[k]).len();
        assert(enc_step(sts[k]).len() >= 8);
        assert(s.skip(j)[0] == s[j]);
        assert(s[j] == ',');
        lemma_skip_split(s, j, seq![','], enc_steps_from(sts, k + 1) + seq![']'] + rest);
        lemma_parse_steps_items(s, j + 1, sts, k + 1, rest);
        assert(seq![sts[k]] + sts.skip(k + 1) =~= sts.skip(k));
    }
}

proof fn lemma_parse_steps(s: Seq<char>, i: int, sts: Seq<StepView>, rest: Seq<char>)
    requires
        0 <= i <= s.len(),
        s.skip(i) == enc_steps(sts) + rest,
    ensures
        sp_steps(s, i) == Some((sts, i + enc_steps(sts).len())),
        s.skip(i + enc_steps(sts).len()) == rest,
{
    lemma_literal_facts();
    assert(s.skip(i) =~= seq!['['] + (enc_steps_from(sts, 0) + seq![']'] + rest));
    lemma_skip_split(s, i, seq!['['], enc_steps_from(sts, 0) + seq![']'] + rest);
    assert(s.subrange(i, i + 1)[0] == s[i]);
    assert(s[i] == '[');
    if sts.len() == 0 {
        assert(enc_steps_from(sts, 0) =~= Seq::<char>::empty());
        assert(s.skip(i + 1) =~= seq![']'] + rest);
        lemma_skip_split(s, i + 1, seq![']'], rest);
        assert(s.subrange(i + 1, i + 2)[0] == s[i + 1]);
        assert(s[i + 1] == ']');
        assert(sp_steps(s, i) matches Some(t) && t.0 =~= sts);
    } else {
        assert(enc_steps_from(sts, 0)[0] == enc_step(sts[0])[0]);
        assert(enc_step(sts[0])[0] == '{');
        assert(s.skip(i + 1)[0] == s[i + 1]);
        assert(s[i + 1] == '{');
        lemma_parse_steps_items(s, i + 1, sts, 0, rest);
        assert(sts.skip(0) =~= sts);
    }
}

proof fn lemma_parse_scenario(s: Seq<char>, i: int, sc: ScenarioView, rest: Seq<char>)
    requires
        0 <= i <= s.len(),
        s.skip(i) == enc_scenario(sc) + rest,
    ensures
        sp_scenario(s, i) == Some((sc, i + enc_scenario(sc).len())),
        s.skip(i + enc_scenario(sc).len()) == rest,
{
    let r5 = "}"@ + rest;
    let r4 = enc_steps(sc.steps) + r5;
    let r3 = ",\"steps\":"@ + r4;
    let r2 = enc_result(sc.result) + r3;
    let r1 = ",\"result\":"@ + r2;
    let r0 = enc_string(sc.name) + r1;
    assert(s.skip(i) =~= "{\"name\":"@ + r0);
    lemma_parse_lit(s, i, "{\"name\":"@, r0);
    let j1 = i + "{\"name\":"@.len();
    lemma_parse_string(s, j1, sc.name, r1);
    let k1 = j1 + enc_string(sc.name).len();
    lemma_parse_lit(s, k1, ",\"result\":"@, r2);
    let j2 = k1 + ",\"result\":"@.len();
    lemma_parse_result(s, j2, sc.result, r3);
    let k2 = j2 + enc_result(sc.result).len();
    lemma_parse_lit(s, k2, ",\"steps\":"@, r4);
    let j3 = k2 + ",\"steps\":"@.len();
    lemma_parse_steps(s, j3, sc.steps, r5);
    let k3 = j3 + enc_steps(sc.steps).len();
    lemma_parse_lit(s, k3, "}"@, rest);
    assert(sp_scenario(s, i) matches Some(t) && t.0 == sc);
}

#[verifier::rlimit(100)]
proof fn lemma_parse_scenarios_items(
    s: Seq<char>,
    i: int,
    scs: Seq<ScenarioView>,
    k: int,
    rest: Seq<char>,
)
    requires
        0 <= i <= s.len(),
        0 <= k < scs.len(),
        s.skip(i) == enc_scenarios_from(scs, k) + seq![']'] + rest,
    ensures
        sp_scenarios_items(s, i) == Some((scs.skip(k), i + enc_scenarios_from(scs, k).len() + 1)),
        s.skip(i + enc_scenarios_from(scs, k).len() + 1) == rest,
    decreases scs.len() - k,
{
    lemma_literal_facts();
    if k == scs.len() - 1 {
        assert(enc_scenarios_from(scs, k) == enc_scenario(scs[k]));
        assert(s.skip(i) =~= enc_scenario(scs[k]) + (seq![']'] + rest));
        lemma_parse_scenario(s, i, scs[k], seq![']'] + rest);
        let j = i + enc_scenario(scs[k]).len();
        assert(enc_scenario(scs[k]).len() >= 8);
        assert(s.skip(j)[0] == s[j]);
        assert(s[j] == ']');
        lemma_skip_split(s, j, seq![']'], rest);
        assert(scs.skip(k) =~= seq![scs[k]]);
    } else {
        let tail = seq![','] + (enc_scenarios_from(scs, k + 1) + seq![']'] + rest);
        assert(enc_scenarios_from(scs, k) == enc_scenario(scs[k]) + seq![',']
            + enc_scenarios_from(scs, k + 1));
        assert(s.skip(i) =~= enc_scenario(scs[k]) + tail);
        lemma_parse_scenario(s, i, scs[k], tail);
        let j = i + enc_scenario(scs[k]).len();
        assert(enc_scenario(scs[k]).len() >= 8);
        assert(s.skip(j)[0] == s[j]);
        assert(s[j] == ',');
        lemma_skip_split(s, j, seq![','], enc_scenarios_from(scs, k + 1) + seq![']'] + rest);
        lemma_parse_scenarios_items(s, j + 1, scs, k + 1, rest);
        assert(seq![scs[k]] + scs.skip(k + 1) =~= scs.skip(k));
    }
}

proof fn lemma_parse_scenarios(s: Seq<char>, i: int, scs: Seq<ScenarioView>, rest: Seq<char>)
    requires
        0 <= i <= s.len(),
        s.skip(i) == enc_scenarios(scs) + rest,
    ensures
        sp_scenarios(s, i) == Some((scs, i + enc_scenarios(scs).len())),
        s.skip(i + enc_scenarios(scs).len()) == rest,
{
    lemma_literal_facts();
    assert(s.skip(i) =~= seq!['['] + (enc_scenarios_from(scs, 0) + seq![']'] + rest));
    lemma_skip_split(s, i, seq!['['], enc_scenarios_from(scs, 0) + seq![']'] + rest);
    assert(s.subrange(i, i + 1)[0] == s[i]);
    assert(s[i] == '[');
    if scs.len() == 0 {
        assert(enc_scenarios_from(scs, 0) =~= Seq::<char>::empty());
        assert(s.skip(i + 1) =~= seq![']'] + rest);
        lemma_skip_split(s, i + 1, seq![']'], rest);
        assert(s.subrange(i + 1, i + 2)[0] == s[i + 1]);
        assert(s[i + 1] == ']');
        assert(sp_scenarios(s, i) matches Some(t) && t.0 =~= scs);
    } else {
        assert(enc_scenarios_from(scs, 0)[0] == enc_scenario(scs[0])[0]);
        assert(enc_scenario(scs[0])[0] == '{');
        assert(s.skip(i + 1)[0] == s[i + 1]);
        assert(s[i + 1] == '{');
        lemma_parse_scenarios_items(s, i + 1, scs, 0, rest);
        assert(scs.skip(0) =~= scs);
    }
}

proof fn lemma_parse_feature(s: Seq<char>, i: int, f: FeatureView, rest: Seq<char>)
    requires
        0 <= i <= s.len(),
        s.skip(i) == enc_feature(f) + rest,
    ensures
        sp_feature(s, i) == Some((f, i + enc_feature(f).len())),
        s.skip(i + enc_feature(f).len()) == rest,
{
    let r3 = "}"@ + rest;
    let r2 = enc_scenarios(f.scenarios) + r3;
    let r1 = ",\"scenarios\":"@ + r2;
    let r0 = enc_string(f.name) + r1;
    assert(s.skip(i) =~= "{\"name\":"@ + r0);
    lemma_parse_lit(s, i, "{\"name\":"@, r0);
    let j1 = i + "{\"name\":"@.len();
    lemma_parse_string(s, j1, f.name, r1);
    let k1 = j1 + enc_string(f.name).len();
    lemma_parse_lit(s, k1, ",\"scenarios\":"@, r2);
    let j2 = k1 + ",\"scenarios\":"@.len();
    lemma_parse_scenarios(s, j2, f.scenarios, r3);
    let k2 = j2 + enc_scenarios(f.scenarios).len();
    lemma_parse_lit(s, k2, "}"@, rest);
    assert(sp_feature(s, i) matches Some(t) && t.0 == f);
}

#[verifier::rlimit(100)]
proof fn lemma_parse_features_items(
    s: Seq<char>,
    i: int,
    fs: Seq<FeatureView>,
    k: int,
    rest: Seq<char>,
)
    requires
        0 <= i <= s.len(),
        0 <= k < fs.len(),
        s.skip(i) == enc_features_from(fs, k) + seq![']'] + rest,
    ensures
        sp_features_items(s, i) == Some((fs.skip(k), i + enc_features_from(fs, k).len() + 1)),
        s.skip(i + enc_features_from(fs, k).len() + 1) == rest,
    decreases fs.len() - k,
{
    lemma_literal_facts();
    if k == fs.len() - 1 {
        assert(enc_features_from(fs, k) == enc_feature(fs[k]));
        assert(s.skip(i) =~= enc_feature(fs[k]) + (seq![']'] + rest));
        lemma_parse_feature(s, i, fs[k], seq![']'] + rest);
        let j = i + enc_feature(fs[k]).len();
        assert(enc_feature(fs[k]).len() >= 8);
        assert(s.skip(j)[0] == s[j]);
        assert(s[j] == ']');
        lemma_skip_split(s, j, seq![']'], rest);
        assert(fs.skip(k) =~= seq![fs[k]]);
    } else {
        let tail = seq![','] + (enc_features_from(fs, k + 1) + seq![']'] + rest);
        assert(enc_features_from(fs, k) == enc_feature(fs[k]) + seq![','] + enc_features_from(
            fs,
            k + 1,
        ));
        assert(s.skip(i) =~= enc_feature(fs[k]) + tail);
        lemma_parse_feature(s, i, fs[k], tail);
        let j = i + enc_feature(fs[k]).len();
        assert(enc_feature(fs[k]).len() >= 8);
        assert(s.skip(j)[0] == s[j]);
        assert(s[j] == ',');
        lemma_skip_split(s, j, seq![','], enc_features_from(fs, k + 1) + seq![']'] + rest);
        lemma_parse_features_items(s, j + 1, fs, k + 1, rest);
        assert(seq![fs[k]] + fs.skip(k + 1) =~= fs.skip(k));
    }
}

proof fn lemma_parse_features(s: Seq<char>, i: int, fs: Seq<FeatureView>, rest: Seq<char>)
    requires
        0 <= i <= s.len(),
        s.skip(i) == enc_features(fs) + rest,
    ensures
        sp_features(s, i) == Some((fs, i + enc_features(fs).len())),
        s.skip(i + enc_features(fs).len()) == rest,
{
    lemma_literal_facts();
    assert(s.skip(i) =~= seq!['['] + (enc_features_from(fs, 0) + seq![']'] + rest));
    lemma_skip_split(s, i, seq!['['], enc_features_from(fs, 0) + seq![']'] + rest);
    assert(s.subrange(i, i + 1)[0] == s[i]);
    assert(s[i] == '[');
    if fs.len() == 0 {
        assert(enc_features_from(fs, 0) =~= Seq::<char>::empty());
        assert(s.skip(i + 1) =~= seq![']'] + rest);
        lemma_skip_split(s, i + 1, seq![']'], rest);
        assert(s.subrange(i + 1, i + 2)[0] == s[i + 1]);
        assert(s[i + 1] == ']');
        assert(sp_features(s, i) matches Some(t) && t.0 =~= fs);
    } else {
        assert(enc_features_from(fs, 0)[0] == enc_feature(fs[0])[0]);
        assert(enc_feature(fs[0])[0] == '{');
        assert(s.skip(i + 1)[0] == s[i + 1]);
        assert(s[i + 1] == '{');
        lemma_parse_features_items(s, i + 1, fs, 0, rest);
        assert(fs.skip(0) =~= fs);
    }
}

#[verifier::rlimit(100)]
proof fn lemma_parse_counters(s: Seq<char>, i: int, rv: ReportView, rest: Seq<char>)
    requires
        0 <= i <= s.len(),
        s.skip(i) == enc_counters(rv) + rest,
        rest.len() == 0 || !is_digit(rest[0]),
    ensures
        sp_counters(s, i) == Some(
            (
                (
                    rv.total_features,
                    rv.total_scenarios,
                    rv.skipped_scenarios,
                    rv.passed_scenarios,
                    rv.failed_scenarios,
                ),
                i + enc_counters(rv).len(),
            ),
        ),
        s.skip(i + enc_counters(rv).len()) == rest,
{
    lemma_literal_facts();
    let e1 = dec_digits(rv.total_features as int);
    let e2 = dec_digits(rv.total_scenarios as int);
    let e3 = dec_digits(rv.skipped_scenarios as int);
    let e4 = dec_digits(rv.passed_scenarios as int);
    let e5 = dec_digits(rv.failed_scenarios as int);
    let r9 = e5 + rest;
    let r8 = ",\"failedScenarios\":"@ + r9;
    let r7 = e4 + r8;
    let r6 = ",\"passedScenarios\":"@ + r7;
    let r5 = e3 + r6;
    let r4 = ",\"skippedScenarios\":"@ + r5;
    let r3 = e2 + r4;
    let r2 = ",\"totalScenarios\":"@ + r3;
    let r1 = e1 + r2;
    assert(s.skip(i) =~= "{\"totalFeatures\":"@ + r1);
    lemma_parse_lit(s, i, "{\"totalFeatures\":"@, r1);
    let j1 = i + "{\"totalFeatures\":"@.len();
    assert(r2[0] == ',');
    lemma_parse_u32(s, j1, rv.total_features, r2);
    let k1 = j1 + e1.len();
    lemma_parse_lit(s, k1, ",\"totalScenarios\":"@, r3);
    let j2 = k1 + ",\"totalScenarios\":"@.len();
    assert(r4[0] == ',');
    lemma_parse_u32(s, j2, rv.total_scenarios, r4);
    let k2 = j2 + e2.len();
    lemma_parse_lit(s, k2, ",\"skippedScenarios\":"@, r5);
    let j3 = k2 + ",\"skippedScenarios\":"@.len();
    assert(r6[0] == ',');
    lemma_parse_u32(s, j3, rv.skipped_scenarios, r6);
    let k3 = j3 + e3.len();
    lemma_parse_lit(s, k3, ",\"passedScenarios\":"@, r7);
    let j4 = k3 + ",\"passedScenarios\":"@.len();
    assert(r8[0] == ',');
    lemma_parse_u32(s, j4, rv.passed_scenarios, r8);
    let k4 = j4 + e4.len();
    lemma_parse_lit(s, k4, ",\"failedScenarios\":"@, r9);
    let j5 = k4 + ",\"failedScenarios\":"@.len();
    lemma_parse_u32(s, j5, rv.failed_scenarios, rest);
}

#[verifier::rlimit(100)]
proof fn lemma_parse_report(s: Seq<char>, i: int, rv: ReportView, rest: Seq<char>)
    requires
        0 <= i <= s.len(),
        s.skip(i) == enc_report(rv) + rest,
    ensures
        sp_report(s, i) == Some((rv, i + enc_report(rv).len())),
        s.skip(i + enc_report(rv).len()) == rest,
{
    lemma_literal_facts();
    let r12 = "}"@ + rest;
    let r11 = enc_features(rv.features) + r12;
    let r10 = ",\"features\":"@ + r11;
    assert(s.skip(i) =~= enc_counters(rv) + r10);
    assert(r10[0] == ',');
    lemma_parse_counters(s, i, rv, r10);
    let k5 = i + enc_counters(rv).len();
    lemma_parse_lit(s, k5, ",\"features\":"@, r11);
    let j6 = k5 + ",\"features\":"@.len();
    lemma_parse_features(s, j6, rv.features, r12);
    let k6 = j6 + enc_features(rv.features).len();
    lemma_parse_lit(s, k6, "}"@, rest);
    assert(sp_report(s, i) matches Some(t) && t.0 == rv);
}

/// Round trip: decoding the snapshot document of any report yields that
/// report, field for field.
pub proof fn lemma_snapshot_round_trip(rv: ReportView)
    ensures
        spec_decode(enc_report(rv)) == Some(rv),
{
    let s = enc_report(rv);
    assert(s.skip(0) =~= enc_report(rv) + Seq::<char>::empty());
    lemma_parse_report(s, 0, rv, Seq::empty());
}

/// Decode a snapshot document back to a report. A document produced by
/// `encode_report` always decodes, to an equal report.
pub fn decode_report(s: &str) -> (r: Option<RunStats>)
    ensures
        match spec_decode(s@) {
            Some(rv) => r matches Some(st) && st@ == rv,
            None => r is None,
        },
{
    let cs = str_to_chars(s);
    match x_report(&cs, 0) {
        Some((st, j)) => if j == cs.len() {
            Some(st)
        } else {
            None
        },
        None => None,
    }
}

} // verus!

