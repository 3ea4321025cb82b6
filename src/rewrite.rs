//! Line classification: which lines of a configuration are patched, with
//! which sensor's index, and which are copied as they are.
use vstd::prelude::*;
use crate::config::Config;
use crate::patch::{index_of, law_marker_kept, law_patch_idempotent, marker, patched};
use crate::sensor::SensorKind;
use crate::text::{
    chars_of, contains, find, first_occurrence, lemma_first_occurrence_from, matches_at,
    occurs_at, starts_with,
};

verus! {

/// What becomes of one configuration line.
#[derive(Clone, Copy, Debug, PartialEq, Eq, Structural)]
pub enum LineAction {
    /// The line is written out as it is.
    Keep,
    /// The line is patched with the index of this sensor.
    Patch(SensorKind),
}

/// The action for `line`: comments and lines that never mention `hwmon` are
/// kept; a line that opens with a sensor's section marker is patched for
/// that sensor unless the sensor is suppressed; anything else is kept.
pub open spec fn action_of(line: Seq<char>, no_coretemp: bool, no_nvme: bool) -> LineAction {
    if starts_with(line, "--"@) {
        LineAction::Keep
    } else if !contains(line, "hwmon"@) {
        LineAction::Keep
    } else if starts_with(line, SensorKind::CoreTemperature.section()) && !no_coretemp {
        LineAction::Patch(SensorKind::CoreTemperature)
    } else if starts_with(line, SensorKind::NvmeDisk.section()) && !no_nvme {
        LineAction::Patch(SensorKind::NvmeDisk)
    } else {
        LineAction::Keep
    }
}

/// The output line for `line`, given the flags and the index found for each
/// sensor.
pub open spec fn rewritten(
    line: Seq<char>,
    no_coretemp: bool,
    no_nvme: bool,
    cpu: Option<int>,
    nvme: Option<int>,
) -> Seq<char> {
    match action_of(line, no_coretemp, no_nvme) {
        LineAction::Keep => line,
        LineAction::Patch(SensorKind::CoreTemperature) => patched(line, cpu),
        LineAction::Patch(SensorKind::NvmeDisk) => patched(line, nvme),
    }
}

/// Whether `s` begins with `pre`.
fn has_prefix(s: &Vec<char>, pre: &str) -> (r: bool)
    ensures
        r == starts_with(s@, pre@),
{
    let p = chars_of(pre);
    matches_at(s, &p, 0)
}

/// Whether `pat` occurs anywhere in `s`.
fn has_infix(s: &Vec<char>, pat: &str) -> (r: bool)
    ensures
        r == contains(s@, pat@),
{
    let p = chars_of(pat);
    proof {
        lemma_first_occurrence_from(s@, p@, 0);
    }
    find(s, &p).is_some()
}

/// Decides what becomes of `line` under `config`.
pub fn classify(line: &str, config: &Config) -> (r: LineAction)
    ensures
        r == action_of(line@, config.no_coretemp, config.no_nvme),
{
    let cs = chars_of(line);
    if has_prefix(&cs, "--") {
        LineAction::Keep
    } else if !has_infix(&cs, "hwmon") {
        LineAction::Keep
    } else if has_prefix(&cs, SensorKind::CoreTemperature.section_marker()) && !config.no_coretemp {
        LineAction::Patch(SensorKind::CoreTemperature)
    } else if has_prefix(&cs, SensorKind::NvmeDisk.section_marker()) && !config.no_nvme {
        LineAction::Patch(SensorKind::NvmeDisk)
    } else {
        LineAction::Keep
    }
}

/// Two texts that agree on their first `n` characters agree on whether
/// they begin with a prefix of at most that length.
proof fn lemma_prefix_agree(s: Seq<char>, t: Seq<char>, pre: Seq<char>, n: int)
    requires
        pre.len() <= n <= s.len(),
        n <= t.len(),
        s.subrange(0, n) == t.subrange(0, n),
    ensures
        starts_with(s, pre) == starts_with(t, pre),
{
    assert(s.subrange(0, pre.len() as int) =~= s.subrange(0, n).subrange(0, pre.len() as int));
    assert(t.subrange(0, pre.len() as int) =~= t.subrange(0, n).subrange(0, pre.len() as int));
}

/// A line that never mentions `hwmon` is copied as it is, whatever the flags
/// and the indices; the patcher alone leaves it as it is too.
pub proof fn law_lines_without_hwmon_kept(
    line: Seq<char>,
    no_coretemp: bool,
    no_nvme: bool,
    cpu: Option<int>,
    nvme: Option<int>,
    mon: Option<int>,
)
    requires
        !contains(line, "hwmon"@),
    ensures
        action_of(line, no_coretemp, no_nvme) == LineAction::Keep,
        rewritten(line, no_coretemp, no_nvme, cpu, nvme) == line,
        patched(line, mon) == line,
{
    reveal_strlit("hwmon");
    lemma_first_occurrence_from(line, marker(), 0);
    if let Some(i) = first_occurrence(line, marker()) {
        assert(line.subrange(i + 1, i + 6) =~= "hwmon"@) by {
            assert(line.subrange(i, i + 7) == marker());
            assert forall|k: int| 0 <= k < 5 implies line.subrange(i + 1, i + 6)[k] == "hwmon"@[k] by {
                assert(line.subrange(i, i + 7)[k + 1] == line[i + 1 + k]);
            }
        }
        assert(occurs_at(line, "hwmon"@, i + 1));
    }
}

/// A comment line is copied as it is, whatever else it holds.
pub proof fn law_comment_lines_kept(
    line: Seq<char>,
    no_coretemp: bool,
    no_nvme: bool,
    cpu: Option<int>,
    nvme: Option<int>,
)
    requires
        starts_with(line, "--"@),
    ensures
        rewritten(line, no_coretemp, no_nvme, cpu, nvme) == line,
{
}

/// Rewriting a rewritten line again, with the same flags and indices,
/// changes nothing.
pub proof fn law_rewrite_idempotent(
    line: Seq<char>,
    no_coretemp: bool,
    no_nvme: bool,
    cpu: Option<i32>,
    nvme: Option<i32>,
)
    ensures
        rewritten(
            rewritten(line, no_coretemp, no_nvme, index_of(cpu), index_of(nvme)),
            no_coretemp,
            no_nvme,
            index_of(cpu),
            index_of(nvme),
        ) == rewritten(line, no_coretemp, no_nvme, index_of(cpu), index_of(nvme)),
{
    let action = action_of(line, no_coretemp, no_nvme);
    if let LineAction::Patch(kind) = action {
        let index = if kind == SensorKind::CoreTemperature {
            cpu
        } else {
            nvme
        };
        let p = patched(line, index_of(index));
        law_patch_idempotent(line, index);
        if p != line {
            reveal_strlit("--");
            reveal_strlit("hwmon");
            reveal_strlit("== CPU ==");
            reveal_strlit("== Disk IO ==");
            law_marker_kept(line, index_of(index));
            lemma_first_occurrence_from(line, marker(), 0);
            let i = first_occurrence(line, marker())->0;
            let sec = kind.section();
            assert(line[i + 1] == 'h') by {
                assert(line.subrange(i, i + 7)[1] == line[i + 1]);
            }
            if i + 1 < sec.len() {
                assert(line.subrange(0, sec.len() as int)[i + 1] == line[i + 1]);
            }
            assert(i + 7 >= 13);
            lemma_prefix_agree(line, p, "--"@, i + 7);
            lemma_prefix_agree(line, p, SensorKind::CoreTemperature.section(), i + 7);
            lemma_prefix_agree(line, p, SensorKind::NvmeDisk.section(), i + 7);
            assert(p.subrange(i + 1, i + 6) =~= "hwmon"@) by {
                assert forall|k: int| 0 <= k < 5 implies p.subrange(i + 1, i + 6)[k] == "hwmon"@[k] by {
                    assert(p.subrange(i, i + 7)[k + 1] == p[i + 1 + k]);
                }
            }
            assert(occurs_at(p, "hwmon"@, i + 1));
            assert(action_of(p, no_coretemp, no_nvme) == action);
        }
    }
}

} // verus!
