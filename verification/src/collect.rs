//! Accumulation of per-target build events into a final result map.
//!
//! Producers emit one event stream per build; this module folds the
//! events, in order, into one record per configured target label:
//! preparation data, indexed outputs (kept sorted and de-duplicated by
//! index, first report winning), the configured graph size, and the
//! errors attached to the target. Errors that belong to no configured
//! target are grouped by their optional label. With `fail_fast`, folding
//! stops right after the first failed output or target error.

use vstd::prelude::*;

use crate::error::ClassifiedError;

verus! {

/// Identity of a configured providers label.
#[derive(Clone, Copy, PartialEq, Eq, Structural, Hash, Debug)]
pub struct LabelKey(pub u64);

/// The kind of provider that requested an output.
#[derive(Clone, Copy, PartialEq, Eq, Structural, Debug)]
pub enum BuildProviderType {
    Default,
    DefaultOther,
    Run,
    Test,
}

/// A computed value that may be incompatible with the configuration.
#[derive(Clone, Copy, PartialEq, Eq, Structural, Debug)]
pub enum MaybeCompatible {
    Incompatible,
    Compatible(u64),
}

/// One materialized output group and the provider it came from.
#[derive(Clone, Copy, PartialEq, Eq, Structural, Debug)]
pub struct ProviderArtifacts {
    /// Handle to the artifact-group values this output stands for.
    pub values: u64,
    pub provider_type: BuildProviderType,
}

/// What to build of each target's providers.
#[derive(Default, Clone, Copy, Debug)]
pub struct ProvidersToBuild {
    pub default: bool,
    pub default_other: bool,
    pub run: bool,
    pub tests: bool,
}

/// Options for building one configured label.
#[derive(Clone, Copy, Debug)]
pub struct BuildConfiguredLabelOptions {
    pub skippable: bool,
    pub want_configured_graph_size: bool,
}

/// Accumulated result of one configured target, generic in how outputs
/// are stored while collecting.
#[derive(Debug)]
pub struct ConfiguredBuildTargetResultGen<T> {
    pub outputs: Vec<T>,
    pub run_args: Option<Vec<String>>,
    pub target_rule_type_name: Option<String>,
    pub configured_graph_size: Option<Result<MaybeCompatible, ClassifiedError>>,
    pub errors: Vec<ClassifiedError>,
}

/// The result of one output request.
pub type OutputResult = Result<ProviderArtifacts, ClassifiedError>;

/// Final per-target result: outputs in index order.
pub type ConfiguredBuildTargetResult = ConfiguredBuildTargetResultGen<OutputResult>;

/// The collected result of a build: one record per configured label, in
/// ascending label order, plus errors attached to no configured target.
#[derive(Debug)]
pub struct BuildTargetResult {
    pub configured: Vec<(LabelKey, Option<ConfiguredBuildTargetResult>)>,
    pub other_errors: Vec<(Option<LabelKey>, Vec<ClassifiedError>)>,
}

/// What happened while building one configured target.
#[derive(Debug)]
pub enum ConfiguredBuildEventVariant {
    SkippedIncompatible,
    Prepared { run_args: Option<Vec<String>>, target_rule_type_name: String },
    Output { output: OutputResult, index: usize },
    GraphSize { configured_graph_size: Result<MaybeCompatible, ClassifiedError> },
    Error { err: ClassifiedError },
}

/// An event about one configured label.
#[derive(Debug)]
pub struct ConfiguredBuildEvent {
    pub label: LabelKey,
    pub variant: ConfiguredBuildEventVariant,
}

/// One event of the build stream.
#[derive(Debug)]
pub enum BuildEvent {
    Configured(ConfiguredBuildEvent),
    OtherError { label: Option<LabelKey>, err: ClassifiedError },
}

/// An event arrived out of order or for a target that cannot take it.
#[derive(Clone, Copy, PartialEq, Eq, Structural, Debug)]
pub enum CollectError {
    OutputBeforePrepared(LabelKey),
    OutputForSkippedTarget(LabelKey),
    GraphSizeBeforePrepared(LabelKey),
    GraphSizeForSkippedTarget(LabelKey),
    ErrorForSkippedTarget(LabelKey),
}

/// Spec-level state of one target while collecting.
pub struct TargetAcc {
    pub outputs: Seq<(usize, OutputResult)>,
    pub run_args: Option<Vec<String>>,
    pub target_rule_type_name: Option<String>,
    pub configured_graph_size: Option<Result<MaybeCompatible, ClassifiedError>>,
    pub errors: Seq<ClassifiedError>,
}

/// Strict order on optional labels: no label sorts before every label.
pub open spec fn opt_label_lt(a: Option<LabelKey>, b: Option<LabelKey>) -> bool {
    match (a, b) {
        (Option::None, Option::Some(_)) => true,
        (Option::Some(x), Option::Some(y)) => x.0 < y.0,
        _ => false,
    }
}

/// First position whose label is at least `k`, else the length.
pub open spec fn label_pos(s: Seq<(LabelKey, Option<TargetAcc>)>, k: LabelKey) -> int
    decreases s.len(),
{
    if s.len() == 0 {
        0
    } else if s[0].0.0 >= k.0 {
        0
    } else {
        1 + label_pos(s.drop_first(), k)
    }
}

pub proof fn lemma_label_pos(s: Seq<(LabelKey, Option<TargetAcc>)>, k: LabelKey)
    ensures
        0 <= label_pos(s, k) <= s.len(),
        forall|j: int| 0 <= j < label_pos(s, k) ==> (#[trigger] s[j].0).0 < k.0,
        label_pos(s, k) < s.len() ==> s[label_pos(s, k)].0.0 >= k.0,
    decreases s.len(),
{
    if s.len() > 0 && s[0].0.0 < k.0 {
        lemma_label_pos(s.drop_first(), k);
        assert(forall|j: int| 1 <= j < s.len() ==> s[j] == s.drop_first()[j - 1]);
    }
}

/// First position whose optional label is at least `k`, else the length.
pub open spec fn oth_pos(s: Seq<(Option<LabelKey>, Seq<ClassifiedError>)>, k: Option<LabelKey>) -> int
    decreases s.len(),
{
    if s.len() == 0 {
        0
    } else if !opt_label_lt(s[0].0, k) {
        0
    } else {
        1 + oth_pos(s.drop_first(), k)
    }
}

pub proof fn lemma_oth_pos(s: Seq<(Option<LabelKey>, Seq<ClassifiedError>)>, k: Option<LabelKey>)
    ensures
        0 <= oth_pos(s, k) <= s.len(),
        forall|j: int| 0 <= j < oth_pos(s, k) ==> opt_label_lt((#[trigger] s[j]).0, k),
        oth_pos(s, k) < s.len() ==> !opt_label_lt(s[oth_pos(s, k)].0, k),
    decreases s.len(),
{
    if s.len() > 0 && opt_label_lt(s[0].0, k) {
        lemma_oth_pos(s.drop_first(), k);
        assert(forall|j: int| 1 <= j < s.len() ==> s[j] == s.drop_first()[j - 1]);
    }
}

/// First position whose output index is at least `idx`, else the length.
pub open spec fn out_pos(s: Seq<(usize, OutputResult)>, idx: usize) -> int
    decreases s.len(),
{
    if s.len() == 0 {
        0
    } else if s[0].0 >= idx {
        0
    } else {
        1 + out_pos(s.drop_first(), idx)
    }
}

pub proof fn lemma_out_pos(s: Seq<(usize, OutputResult)>, idx: usize)
    ensures
        0 <= out_pos(s, idx) <= s.len(),
        forall|j: int| 0 <= j < out_pos(s, idx) ==> (#[trigger] s[j]).0 < idx,
        out_pos(s, idx) < s.len() ==> s[out_pos(s, idx)].0 >= idx,
    decreases s.len(),
{
    if s.len() > 0 && s[0].0 < idx {
        lemma_out_pos(s.drop_first(), idx);
        assert(forall|j: int| 1 <= j < s.len() ==> s[j] == s.drop_first()[j - 1]);
    }
}

/// The spec-level collecting state.
pub struct CollectState {
    pub acc: Seq<(LabelKey, Option<TargetAcc>)>,
    pub oth: Seq<(Option<LabelKey>, Seq<ClassifiedError>)>,
}

/// Fold one event into the state, or the error it provokes.
pub open spec fn step_state(st: CollectState, ev: BuildEvent) -> Result<CollectState, CollectError> {
    match ev {
        BuildEvent::OtherError { label, err } => {
            let p = oth_pos(st.oth, label);
            if p < st.oth.len() && st.oth[p].0 == label {
                Ok(
                    CollectState {
                        acc: st.acc,
                        oth: st.oth.update(p, (label, st.oth[p].1.push(err))),
                    },
                )
            } else {
                Ok(CollectState { acc: st.acc, oth: st.oth.insert(p, (label, seq![err])) })
            }
        },
        BuildEvent::Configured(c) => {
            let label = c.label;
            let p = label_pos(st.acc, label);
            let present = p < st.acc.len() && st.acc[p].0 == label;
            match c.variant {
                ConfiguredBuildEventVariant::SkippedIncompatible => {
                    if present {
                        Ok(st)
                    } else {
                        Ok(CollectState { acc: st.acc.insert(p, (label, None)), oth: st.oth })
                    }
                },
                ConfiguredBuildEventVariant::Prepared { run_args, target_rule_type_name } => {
                    if present {
                        Ok(st)
                    } else {
                        Ok(
                            CollectState {
                                acc: st.acc.insert(
                                    p,
                                    (
                                        label,
                                        Some(
                                            TargetAcc {
                                                outputs: Seq::empty(),
                                                run_args,
                                                target_rule_type_name: Some(target_rule_type_name),
                                                configured_graph_size: None,
                                                errors: Seq::empty(),
                                            },
                                        ),
                                    ),
                                ),
                                oth: st.oth,
                            },
                        )
                    }
                },
                ConfiguredBuildEventVariant::Output { output, index } => {
                    if !present {
                        Err(CollectError::OutputBeforePrepared(label))
                    } else {
                        match st.acc[p].1 {
                            Option::None => Err(CollectError::OutputForSkippedTarget(label)),
                            Option::Some(t) => {
                                let q = out_pos(t.outputs, index);
                                if q < t.outputs.len() && t.outputs[q].0 == index {
                                    Ok(st)
                                } else {
                                    Ok(
                                        CollectState {
                                            acc: st.acc.update(
                                                p,
                                                (
                                                    label,
                                                    Some(
                                                        TargetAcc {
                                                            outputs: t.outputs.insert(
                                                                q,
                                                                (index, output),
                                                            ),
                                                            ..t
                                                        },
                                                    ),
                                                ),
                                            ),
                                            oth: st.oth,
                                        },
                                    )
                                }
                            },
                        }
                    }
                },
                ConfiguredBuildEventVariant::GraphSize { configured_graph_size } => {
                    if !present {
                        Err(CollectError::GraphSizeBeforePrepared(label))
                    } else {
                        match st.acc[p].1 {
                            Option::None => Err(CollectError::GraphSizeForSkippedTarget(label)),
                            Option::Some(t) => Ok(
                                CollectState {
                                    acc: st.acc.update(
                                        p,
                                        (
                                            label,
                                            Some(
                                                TargetAcc {
                                                    configured_graph_size: Some(
                                                        configured_graph_size,
                                                    ),
                                                    ..t
                                                },
                                            ),
                                        ),
                                    ),
                                    oth: st.oth,
                                },
                            ),
                        }
                    }
                },
                ConfiguredBuildEventVariant::Error { err } => {
                    if !present {
                        Ok(
                            CollectState {
                                acc: st.acc.insert(
                                    p,
                                    (
                                        label,
                                        Some(
                                            TargetAcc {
                                                outputs: Seq::empty(),
                                                run_args: None,
                                                target_rule_type_name: None,
                                                configured_graph_size: None,
                                                errors: seq![err],
                                            },
                                        ),
                                    ),
                                ),
                                oth: st.oth,
                            },
                        )
                    } else {
                        match st.acc[p].1 {
                            Option::None => Err(CollectError::ErrorForSkippedTarget(label)),
                            Option::Some(t) => Ok(
                                CollectState {
                                    acc: st.acc.update(
                                        p,
                                        (label, Some(TargetAcc { errors: t.errors.push(err), ..t })),
                                    ),
                                    oth: st.oth,
                                },
                            ),
                        }
                    }
                },
            }
        },
    }
}

/// With `fail_fast`, folding stops right after this event.
pub open spec fn stops_after(ev: BuildEvent) -> bool {
    match ev {
        BuildEvent::Configured(c) => match c.variant {
            ConfiguredBuildEventVariant::Output { output, index: _ } => output is Err,
            ConfiguredBuildEventVariant::Error { err: _ } => true,
            _ => false,
        },
        _ => false,
    }
}

/// Fold a whole event sequence, honouring `fail_fast`.
pub open spec fn fold_state(st: CollectState, events: Seq<BuildEvent>, fail_fast: bool) -> Result<
    CollectState,
    CollectError,
>
    decreases events.len(),
{
    if events.len() == 0 {
        Ok(st)
    } else {
        match step_state(st, events[0]) {
            Result::Err(e) => Err(e),
            Result::Ok(s2) => if fail_fast && stops_after(events[0]) {
                Ok(s2)
            } else {
                fold_state(s2, events.drop_first(), fail_fast)
            },
        }
    }
}

/// The empty collecting state.
pub open spec fn empty_state() -> CollectState {
    CollectState { acc: Seq::empty(), oth: Seq::empty() }
}

/// Labels strictly ascend.
pub open spec fn acc_sorted(s: Seq<(LabelKey, Option<TargetAcc>)>) -> bool {
    forall|i: int, j: int| 0 <= i < j < s.len() ==> (#[trigger] s[i]).0.0 < (#[trigger] s[j]).0.0
}

/// Optional labels strictly ascend, none first.
pub open spec fn oth_sorted(s: Seq<(Option<LabelKey>, Seq<ClassifiedError>)>) -> bool {
    forall|i: int, j: int|
        0 <= i < j < s.len() ==> opt_label_lt((#[trigger] s[i]).0, (#[trigger] s[j]).0)
}

/// Output indices strictly ascend.
pub open spec fn outputs_sorted(s: Seq<(usize, OutputResult)>) -> bool {
    forall|i: int, j: int| 0 <= i < j < s.len() ==> (#[trigger] s[i]).0 < (#[trigger] s[j]).0
}

/// The collected exec record matches the spec-level target state.
pub open spec fn gen_matches(
    g: ConfiguredBuildTargetResultGen<(usize, OutputResult)>,
    t: TargetAcc,
) -> bool {
    &&& g.outputs@ == t.outputs
    &&& g.run_args == t.run_args
    &&& g.target_rule_type_name == t.target_rule_type_name
    &&& g.configured_graph_size == t.configured_graph_size
    &&& g.errors@ == t.errors
}

/// The exec accumulator matches the spec-level state, entry by entry.
pub open spec fn acc_matches(
    v: Seq<(LabelKey, Option<ConfiguredBuildTargetResultGen<(usize, OutputResult)>>)>,
    a: Seq<(LabelKey, Option<TargetAcc>)>,
) -> bool {
    &&& v.len() == a.len()
    &&& forall|i: int|
        0 <= i < v.len() ==> (#[trigger] v[i]).0 == a[i].0 && match (v[i].1, a[i].1) {
            (Option::Some(g), Option::Some(t)) => gen_matches(g, t),
            (Option::None, Option::None) => true,
            _ => false,
        }
}

/// The grouped other errors match the spec-level state.
pub open spec fn oth_matches(
    v: Seq<(Option<LabelKey>, Vec<ClassifiedError>)>,
    o: Seq<(Option<LabelKey>, Seq<ClassifiedError>)>,
) -> bool {
    &&& v.len() == o.len()
    &&& forall|i: int|
        0 <= i < v.len() ==> (#[trigger] v[i]).0 == o[i].0 && v[i].1@ == o[i].1
}

/// A finalized per-target record matches the spec-level target state:
/// outputs keep index order with the indices stripped.
pub open spec fn result_entry_matches(
    e: (LabelKey, Option<ConfiguredBuildTargetResult>),
    a: (LabelKey, Option<TargetAcc>),
) -> bool {
    &&& e.0 == a.0
    &&& match (e.1, a.1) {
        (Option::Some(g), Option::Some(t)) => {
            &&& g.outputs@ == t.outputs.map_values(|p: (usize, OutputResult)| p.1)
            &&& g.run_args == t.run_args
            &&& g.target_rule_type_name == t.target_rule_type_name
            &&& g.configured_graph_size == t.configured_graph_size
            &&& g.errors@ == t.errors
        },
        (Option::None, Option::None) => true,
        _ => false,
    }
}

/// Whether `a` sorts strictly before `b`.
fn opt_label_before(a: &Option<LabelKey>, b: &Option<LabelKey>) -> (r: bool)
    ensures
        r == opt_label_lt(*a, *b),
{
    match (a, b) {
        (None, Some(_)) => true,
        (Some(x), Some(y)) => x.0 < y.0,
        _ => false,
    }
}

/// Whether two optional labels are the same.
fn opt_label_same(a: &Option<LabelKey>, b: &Option<LabelKey>) -> (r: bool)
    ensures
        r == (*a == *b),
{
    match (a, b) {
        (None, None) => true,
        (Some(x), Some(y)) => x.0 == y.0,
        _ => false,
    }
}

impl BuildTargetResult {
    /// Fold a build's events into its result: one record per configured
    /// label in ascending label order, with outputs in index order (the
    /// first report of an index wins), plus the errors attached to no
    /// configured target, grouped by optional label. With `fail_fast` the
    /// fold stops right after the first failed output or target error; an
    /// event that arrives out of order is the fold's error.
    #[verifier::rlimit(100)]
    #[verifier::spinoff_prover]
    #[verifier::loop_isolation(false)]
    pub fn collect_events(events: &mut Vec<BuildEvent>, fail_fast: bool) -> (r: Result<
        BuildTargetResult,
        CollectError,
    >)
        ensures
            match fold_state(empty_state(), old(events)@, fail_fast) {
                Result::Ok(st) => r matches Ok(b) && ({
                    &&& acc_sorted(st.acc)
                    &&& oth_sorted(st.oth)
                    &&& b.configured@.len() == st.acc.len()
                    &&& forall|j: int|
                        0 <= j < st.acc.len() ==> result_entry_matches(
                            #[trigger] b.configured@[j],
                            st.acc[j],
                        )
                    &&& oth_matches(b.other_errors@, st.oth)
                }),
                Result::Err(e) => r == Err::<BuildTargetResult, CollectError>(e),
            },
    {
        let ghost all = old(events)@;
        let n = events.len();
        let mut accv: Vec<(LabelKey, Option<ConfiguredBuildTargetResultGen<(usize, OutputResult)>>)> =
            Vec::new();
        let mut othv: Vec<(Option<LabelKey>, Vec<ClassifiedError>)> = Vec::new();
        let ghost mut st = empty_state();
        proof {
            assert(all.skip(0) =~= all);
        }
        let mut i: usize = 0;
        let mut stopped = false;
        while i < n && !stopped
            invariant
                n == all.len(),
                events@ == all.skip(i as int),
                0 <= i <= n,
                acc_matches(accv@, st.acc),
                oth_matches(othv@, st.oth),
                acc_sorted(st.acc),
                oth_sorted(st.oth),
                forall|p: int, q: int|
                    #![trigger st.acc[p].1->Some_0.outputs[q]]
                    0 <= p < st.acc.len() && st.acc[p].1 is Some ==> outputs_sorted(
                        st.acc[p].1->Some_0.outputs,
                    ),
                !stopped ==> fold_state(empty_state(), all, fail_fast) == fold_state(
                    st,
                    all.skip(i as int),
                    fail_fast,
                ),
                stopped ==> fold_state(empty_state(), all, fail_fast) == Ok::<
                    CollectState,
                    CollectError,
                >(st),
            decreases n - i,
        {
            let ev = events.remove(0);
            proof {
                assert(all.skip(i as int)[0] == all[i as int]);
                assert(all.skip(i as int).drop_first() =~= all.skip(i + 1));
                assert(events@ =~= all.skip(i + 1));
            }
            let ghost ost = st;
            match ev {
                BuildEvent::OtherError { label, err } => {
                    let m = othv.len();
                    let mut p: usize = 0;
                    while p < m && opt_label_before(&othv[p].0, &label)
                        invariant
                            m == othv@.len(),
                            oth_matches(othv@, st.oth),
                            0 <= p <= m,
                            forall|j: int|
                                0 <= j < p ==> opt_label_lt((#[trigger] othv@[j]).0, label),
                        decreases m - p,
                    {
                        p = p + 1;
                    }
                    proof {
                        lemma_oth_pos(st.oth, label);
                        assert(p == oth_pos(st.oth, label)) by {
                            let sp = oth_pos(st.oth, label);
                            if sp < p {
                                assert(opt_label_lt(othv@[sp].0, label));
                            }
                            if p < sp {
                                assert(opt_label_lt(st.oth[p as int].0, label));
                                assert(othv@[p as int].0 == st.oth[p as int].0);
                            }
                        }
                    }
                    if p < m && opt_label_same(&othv[p].0, &label) {
                        let ghost oothv = othv@;
                        let ghost oerr = err;
                        othv[p].1.push(err);
                        proof {
                            st = CollectState {
                                acc: st.acc,
                                oth: st.oth.update(
                                    p as int,
                                    (label, ost.oth[p as int].1.push(oerr)),
                                ),
                            };
                            assert forall|ii: int| 0 <= ii < othv@.len() implies (
                                #[trigger] othv@[ii]).0 == st.oth[ii].0 && othv@[ii].1@
                                == st.oth[ii].1 by {
                                if ii != p {
                                    assert(othv@[ii] == oothv[ii]);
                                    assert(st.oth[ii] == ost.oth[ii]);
                                }
                            }
                            assert(oth_sorted(st.oth)) by {
                                assert(forall|j: int|
                                    0 <= j < st.oth.len() ==> (#[trigger] st.oth[j]).0
                                        == ost.oth[j].0);
                            }
                        }
                    } else {
                        let ghost oothv = othv@;
                        let ghost oerr = err;
                        let mut group: Vec<ClassifiedError> = Vec::new();
                        group.push(err);
                        othv.insert(p, (label, group));
                        proof {
                            st = CollectState {
                                acc: st.acc,
                                oth: st.oth.insert(p as int, (label, seq![oerr])),
                            };
                            assert(group@ =~= seq![oerr]);
                            assert forall|ii: int| 0 <= ii < othv@.len() implies (
                                #[trigger] othv@[ii]).0 == st.oth[ii].0 && othv@[ii].1@
                                == st.oth[ii].1 by {
                                if ii < p {
                                    assert(othv@[ii] == oothv[ii]);
                                    assert(st.oth[ii] == ost.oth[ii]);
                                } else if ii > p {
                                    assert(othv@[ii] == oothv[ii - 1]);
                                    assert(st.oth[ii] == ost.oth[ii - 1]);
                                }
                            }
                            assert(oth_sorted(st.oth)) by {
                                assert(forall|j: int|
                                    0 <= j < p ==> opt_label_lt((#[trigger] ost.oth[j]).0, label));
                                assert(forall|j: int|
                                    p <= j < ost.oth.len() ==> !opt_label_lt(
                                        (#[trigger] ost.oth[j]).0,
                                        label,
                                    ) && ost.oth[j].0 != label);
                                assert(forall|j: int|
                                    p < j < st.oth.len() ==> st.oth[j] == ost.oth[j - 1]);
                                assert(forall|a: Option<LabelKey>, b: Option<LabelKey>|
                                    !opt_label_lt(a, b) && a != b ==> opt_label_lt(b, a));
                            }
                        }
                    }
                    proof {
                        assert(step_state(ost, all[i as int]) == Ok::<CollectState, CollectError>(
                            st,
                        ));
                    }
                },
                BuildEvent::Configured(c) => {
                    let label = c.label;
                    let m = accv.len();
                    let mut p: usize = 0;
                    while p < m && accv[p].0.0 < label.0
                        invariant
                            m == accv@.len(),
                            acc_matches(accv@, st.acc),
                            0 <= p <= m,
                            forall|j: int| 0 <= j < p ==> (#[trigger] accv@[j]).0.0 < label.0,
                        decreases m - p,
                    {
                        p = p + 1;
                    }
                    proof {
                        lemma_label_pos(st.acc, label);
                        assert(p == label_pos(st.acc, label)) by {
                            let sp = label_pos(st.acc, label);
                            if sp < p {
                                assert(accv@[sp].0.0 < label.0);
                            }
                            if p < sp {
                                assert(st.acc[p as int].0.0 < label.0);
                                assert(accv@[p as int].0 == st.acc[p as int].0);
                            }
                        }
                    }
                    let present = p < m && accv[p].0.0 == label.0;
                    proof {
                        if present {
                            assert(accv@[p as int].0 == st.acc[p as int].0);
                            assert(st.acc[p as int].0 == label);
                        } else {
                            if p < m {
                                assert(accv@[p as int].0 == st.acc[p as int].0);
                            }
                        }
                    }
                    match c.variant {
                        ConfiguredBuildEventVariant::SkippedIncompatible => {
                            if !present {
                                let ghost oaccv = accv@;
                                accv.insert(p, (label, None));
                                proof {
                                    st = CollectState {
                                        acc: st.acc.insert(p as int, (label, None)),
                                        oth: st.oth,
                                    };
                                    lemma_acc_shift(oaccv, accv@, ost.acc, st.acc, p as int);
                                }
                            }
                            proof {
                                lemma_acc_insert_sorted(ost.acc, st.acc, p as int, label, present);
                                assert(step_state(ost, all[i as int]) == Ok::<
                                    CollectState,
                                    CollectError,
                                >(st));
                            }
                        },
                        ConfiguredBuildEventVariant::Prepared {
                            run_args,
                            target_rule_type_name,
                        } => {
                            if !present {
                                let ghost ra = run_args;
                                let ghost tn = target_rule_type_name;
                                let ghost oaccv = accv@;
                                accv.insert(
                                    p,
                                    (
                                        label,
                                        Some(
                                            ConfiguredBuildTargetResultGen {
                                                outputs: Vec::new(),
                                                run_args,
                                                target_rule_type_name: Some(target_rule_type_name),
                                                configured_graph_size: None,
                                                errors: Vec::new(),
                                            },
                                        ),
                                    ),
                                );
                                proof {
                                    st = CollectState {
                                        acc: st.acc.insert(
                                            p as int,
                                            (
                                                label,
                                                Some(
                                                    TargetAcc {
                                                        outputs: Seq::empty(),
                                                        run_args: ra,
                                                        target_rule_type_name: Some(tn),
                                                        configured_graph_size: None,
                                                        errors: Seq::empty(),
                                                    },
                                                ),
                                            ),
                                        ),
                                        oth: st.oth,
                                    };
                                    lemma_acc_shift(oaccv, accv@, ost.acc, st.acc, p as int);
                                }
                            }
                            proof {
                                lemma_acc_insert_sorted(ost.acc, st.acc, p as int, label, present);
                                assert(step_state(ost, all[i as int]) == Ok::<
                                    CollectState,
                                    CollectError,
                                >(st));
                            }
                        },
                        ConfiguredBuildEventVariant::Output { output, index } => {
                            if !present {
                                proof {
                                    assert(step_state(st, all[i as int]) == Err::<
                                        CollectState,
                                        CollectError,
                                    >(CollectError::OutputBeforePrepared(label)));
                                    assert(fold_state(st, all.skip(i as int), fail_fast) == Err::<
                                        CollectState,
                                        CollectError,
                                    >(CollectError::OutputBeforePrepared(label)));
                                    assert(fold_state(empty_state(), all, fail_fast) == Err::<
                                        CollectState,
                                        CollectError,
                                    >(CollectError::OutputBeforePrepared(label)));
                                }
                                return Err(CollectError::OutputBeforePrepared(label));
                            }
                            let is_err = output.is_err();
                            let ghost outv = output;
                            let ghost oaccv = accv@;
                            match &mut accv[p].1 {
                                None => {
                                    proof {
                                        assert(st.acc[p as int].1 is None);
                                        assert(step_state(st, all[i as int]) == Err::<
                                            CollectState,
                                            CollectError,
                                        >(CollectError::OutputForSkippedTarget(label)));
                                        assert(fold_state(st, all.skip(i as int), fail_fast)
                                            == Err::<CollectState, CollectError>(
                                            CollectError::OutputForSkippedTarget(label),
                                        ));
                                        assert(fold_state(empty_state(), all, fail_fast) == Err::<
                                            CollectState,
                                            CollectError,
                                        >(CollectError::OutputForSkippedTarget(label)));
                                    }
                                    return Err(CollectError::OutputForSkippedTarget(label));
                                },
                                Some(g) => {
                                    let ghost t = st.acc[p as int].1->Some_0;
                                    let mo = g.outputs.len();
                                    let mut q: usize = 0;
                                    while q < mo && g.outputs[q].0 < index
                                        invariant
                                            mo == g.outputs@.len(),
                                            g.outputs@ == t.outputs,
                                            0 <= q <= mo,
                                            forall|j: int|
                                                0 <= j < q ==> (#[trigger] g.outputs@[j]).0 < index,
                                        decreases mo - q,
                                    {
                                        q = q + 1;
                                    }
                                    proof {
                                        lemma_out_pos(t.outputs, index);
                                        assert(q == out_pos(t.outputs, index)) by {
                                            let sq = out_pos(t.outputs, index);
                                            if sq < q {
                                                assert(t.outputs[sq].0 < index);
                                            }
                                            if q < sq {
                                                assert(t.outputs[q as int].0 < index);
                                            }
                                        }
                                    }
                                    if q < mo && g.outputs[q].0 == index {
                                        // This index was already reported; the first
                                        // report stays.
                                    } else {
                                        g.outputs.insert(q, (index, output));
                                        proof {
                                            st = CollectState {
                                                acc: st.acc.update(
                                                    p as int,
                                                    (
                                                        label,
                                                        Some(
                                                            TargetAcc {
                                                                outputs: t.outputs.insert(
                                                                    q as int,
                                                                    (index, outv),
                                                                ),
                                                                ..t
                                                            },
                                                        ),
                                                    ),
                                                ),
                                                oth: st.oth,
                                            };
                                            assert(outputs_sorted(
                                                st.acc[p as int].1->Some_0.outputs,
                                            )) by {
                                                let no = st.acc[p as int].1->Some_0.outputs;
                                                assert(forall|j: int|
                                                    q < j < no.len() ==> no[j] == t.outputs[j - 1]);
                                            }
                                        }
                                    }
                                },
                            }
                            proof {
                                assert forall|ii: int| 0 <= ii < accv@.len() implies (
                                    #[trigger] accv@[ii]).0 == st.acc[ii].0 && match (
                                    accv@[ii].1,
                                    st.acc[ii].1,
                                ) {
                                    (Option::Some(g2), Option::Some(t2)) => gen_matches(g2, t2),
                                    (Option::None, Option::None) => true,
                                    _ => false,
                                } by {
                                    if ii != p {
                                        assert(accv@[ii] == oaccv[ii]);
                                        assert(st.acc[ii] == ost.acc[ii]);
                                    }
                                }
                                assert(acc_sorted(st.acc)) by {
                                    assert(forall|j: int|
                                        0 <= j < st.acc.len() ==> (#[trigger] st.acc[j]).0
                                            == ost.acc[j].0);
                                }
                                assert(step_state(ost, all[i as int]) == Ok::<
                                    CollectState,
                                    CollectError,
                                >(st));
                            }
                            if is_err && fail_fast {
                                stopped = true;
                            }
                        },
                        ConfiguredBuildEventVariant::GraphSize { configured_graph_size } => {
                            if !present {
                                proof {
                                    assert(step_state(st, all[i as int]) == Err::<
                                        CollectState,
                                        CollectError,
                                    >(CollectError::GraphSizeBeforePrepared(label)));
                                    assert(fold_state(st, all.skip(i as int), fail_fast) == Err::<
                                        CollectState,
                                        CollectError,
                                    >(CollectError::GraphSizeBeforePrepared(label)));
                                    assert(fold_state(empty_state(), all, fail_fast) == Err::<
                                        CollectState,
                                        CollectError,
                                    >(CollectError::GraphSizeBeforePrepared(label)));
                                }
                                return Err(CollectError::GraphSizeBeforePrepared(label));
                            }
                            let ghost gsv = configured_graph_size;
                            let ghost oaccv = accv@;
                            match &mut accv[p].1 {
                                None => {
                                    proof {
                                        assert(st.acc[p as int].1 is None);
                                        assert(step_state(st, all[i as int]) == Err::<
                                            CollectState,
                                            CollectError,
                                        >(CollectError::GraphSizeForSkippedTarget(label)));
                                        assert(fold_state(st, all.skip(i as int), fail_fast)
                                            == Err::<CollectState, CollectError>(
                                            CollectError::GraphSizeForSkippedTarget(label),
                                        ));
                                        assert(fold_state(empty_state(), all, fail_fast) == Err::<
                                            CollectState,
                                            CollectError,
                                        >(CollectError::GraphSizeForSkippedTarget(label)));
                                    }
                                    return Err(CollectError::GraphSizeForSkippedTarget(label));
                                },
                                Some(g) => {
                                    let ghost t = st.acc[p as int].1->Some_0;
                                    g.configured_graph_size = Some(configured_graph_size);
                                    proof {
                                        st = CollectState {
                                            acc: st.acc.update(
                                                p as int,
                                                (
                                                    label,
                                                    Some(
                                                        TargetAcc {
                                                            configured_graph_size: Some(gsv),
                                                            ..t
                                                        },
                                                    ),
                                                ),
                                            ),
                                            oth: st.oth,
                                        };
                                    }
                                },
                            }
                            proof {
                                assert forall|ii: int| 0 <= ii < accv@.len() implies (
                                    #[trigger] accv@[ii]).0 == st.acc[ii].0 && match (
                                    accv@[ii].1,
                                    st.acc[ii].1,
                                ) {
                                    (Option::Some(g2), Option::Some(t2)) => gen_matches(g2, t2),
                                    (Option::None, Option::None) => true,
                                    _ => false,
                                } by {
                                    if ii != p {
                                        assert(accv@[ii] == oaccv[ii]);
                                        assert(st.acc[ii] == ost.acc[ii]);
                                    }
                                }
                                assert(acc_sorted(st.acc)) by {
                                    assert(forall|j: int|
                                        0 <= j < st.acc.len() ==> (#[trigger] st.acc[j]).0
                                            == ost.acc[j].0);
                                }
                                assert(step_state(ost, all[i as int]) == Ok::<
                                    CollectState,
                                    CollectError,
                                >(st));
                            }
                        },
                        ConfiguredBuildEventVariant::Error { err } => {
                            let ghost ev2 = err;
                            if !present {
                                let ghost oaccv = accv@;
                                let mut errs: Vec<ClassifiedError> = Vec::new();
                                errs.push(err);
                                proof {
                                    assert(errs@ =~= seq![ev2]);
                                }
                                accv.insert(
                                    p,
                                    (
                                        label,
                                        Some(
                                            ConfiguredBuildTargetResultGen {
                                                outputs: Vec::new(),
                                                run_args: None,
                                                target_rule_type_name: None,
                                                configured_graph_size: None,
                                                errors: errs,
                                            },
                                        ),
                                    ),
                                );
                                proof {
                                    st = CollectState {
                                        acc: st.acc.insert(
                                            p as int,
                                            (
                                                label,
                                                Some(
                                                    TargetAcc {
                                                        outputs: Seq::empty(),
                                                        run_args: None,
                                                        target_rule_type_name: None,
                                                        configured_graph_size: None,
                                                        errors: seq![ev2],
                                                    },
                                                ),
                                            ),
                                        ),
                                        oth: st.oth,
                                    };
                                    lemma_acc_shift(oaccv, accv@, ost.acc, st.acc, p as int);
                                    lemma_acc_insert_sorted(
                                        ost.acc,
                                        st.acc,
                                        p as int,
                                        label,
                                        false,
                                    );
                                    assert(step_state(ost, all[i as int]) == Ok::<
                                        CollectState,
                                        CollectError,
                                    >(st));
                                }
                            } else {
                                let ghost oaccv = accv@;
                                match &mut accv[p].1 {
                                    None => {
                                        proof {
                                            assert(st.acc[p as int].1 is None);
                                            assert(step_state(st, all[i as int]) == Err::<
                                                CollectState,
                                                CollectError,
                                            >(CollectError::ErrorForSkippedTarget(label)));
                                            assert(fold_state(st, all.skip(i as int), fail_fast)
                                                == Err::<CollectState, CollectError>(
                                                CollectError::ErrorForSkippedTarget(label),
                                            ));
                                            assert(fold_state(empty_state(), all, fail_fast)
                                                == Err::<CollectState, CollectError>(
                                                CollectError::ErrorForSkippedTarget(label),
                                            ));
                                        }
                                        return Err(CollectError::ErrorForSkippedTarget(label));
                                    },
                                    Some(g) => {
                                        let ghost t = st.acc[p as int].1->Some_0;
                                        g.errors.push(err);
                                        proof {
                                            st = CollectState {
                                                acc: st.acc.update(
                                                    p as int,
                                                    (
                                                        label,
                                                        Some(
                                                            TargetAcc {
                                                                errors: t.errors.push(ev2),
                                                                ..t
                                                            },
                                                        ),
                                                    ),
                                                ),
                                                oth: st.oth,
                                            };
                                        }
                                    },
                                }
                                proof {
                                    assert forall|ii: int| 0 <= ii < accv@.len() implies (
                                        #[trigger] accv@[ii]).0 == st.acc[ii].0 && match (
                                        accv@[ii].1,
                                        st.acc[ii].1,
                                    ) {
                                        (Option::Some(g2), Option::Some(t2)) => gen_matches(
                                            g2,
                                            t2,
                                        ),
                                        (Option::None, Option::None) => true,
                                        _ => false,
                                    } by {
                                        if ii != p {
                                            assert(accv@[ii] == oaccv[ii]);
                                            assert(st.acc[ii] == ost.acc[ii]);
                                        }
                                    }
                                    assert(acc_sorted(st.acc)) by {
                                        assert(forall|j: int|
                                            0 <= j < st.acc.len() ==> (#[trigger] st.acc[j]).0
                                                == ost.acc[j].0);
                                    }
                                    assert(step_state(ost, all[i as int]) == Ok::<
                                        CollectState,
                                        CollectError,
                                    >(st));
                                }
                            }
                            if fail_fast {
                                stopped = true;
                            }
                        },
                    }
                },
            }
            i = i + 1;
        }
        proof {
            if !stopped {
                assert(all.skip(n as int) =~= Seq::<BuildEvent>::empty());
            }
            assert(fold_state(empty_state(), all, fail_fast) == Ok::<CollectState, CollectError>(
                st,
            ));
        }

        // Finalize: strip output indices, keeping index order.
        let ghost facc = st.acc;
        let mut configured: Vec<(LabelKey, Option<ConfiguredBuildTargetResult>)> = Vec::new();
        let mut rest = accv;
        let mut done: usize = 0;
        let total: usize = rest.len();
        proof {
            assert(facc.skip(0) =~= facc);
        }
        while rest.len() > 0
            invariant
                done + rest@.len() == total,
                total == facc.len(),
                acc_matches(rest@, facc.skip(done as int)),
                configured@.len() == done,
                forall|j: int|
                    0 <= j < done ==> result_entry_matches(#[trigger] configured@[j], facc[j]),
            decreases rest@.len(),
        {
            let (k, og) = rest.remove(0);
            proof {
                assert(facc.skip(done as int)[0] == facc[done as int]);
                assert(facc.skip(done as int).drop_first() =~= facc.skip(done + 1));
            }
            match og {
                None => {
                    configured.push((k, None));
                },
                Some(g) => {
                    let ghost t = facc[done as int].1->Some_0;
                    let ConfiguredBuildTargetResultGen {
                        outputs,
                        run_args,
                        target_rule_type_name,
                        configured_graph_size,
                        errors,
                    } = g;
                    let mut outs: Vec<OutputResult> = Vec::new();
                    let mut orest = outputs;
                    let ghost ototal = t.outputs.len();
                    while orest.len() > 0
                        invariant
                            outs@.len() + orest@.len() == ototal,
                            ototal == t.outputs.len(),
                            orest@ == t.outputs.skip(outs@.len() as int),
                            forall|j: int|
                                0 <= j < outs@.len() ==> #[trigger] outs@[j] == t.outputs[j].1,
                        decreases orest@.len(),
                    {
                        let ghost odone = outs@.len();
                        let (_idx, res) = orest.remove(0);
                        proof {
                            assert(t.outputs.skip(odone as int)[0] == t.outputs[odone as int]);
                            assert(t.outputs.skip(odone as int).drop_first() =~= t.outputs.skip(
                                odone as int + 1,
                            ));
                        }
                        outs.push(res);
                    }
                    proof {
                        assert(outs@ =~= t.outputs.map_values(|p: (usize, OutputResult)| p.1));
                    }
                    configured.push(
                        (
                            k,
                            Some(
                                ConfiguredBuildTargetResultGen {
                                    outputs: outs,
                                    run_args,
                                    target_rule_type_name,
                                    configured_graph_size,
                                    errors,
                                },
                            ),
                        ),
                    );
                },
            }
            done = done + 1;
            proof {
                assert(acc_matches(rest@, facc.skip(done as int)));
            }
        }
        proof {
            assert(facc.skip(total as int) =~= Seq::<(LabelKey, Option<TargetAcc>)>::empty());
        }
        Ok(BuildTargetResult { configured, other_errors: othv })
    }
}

/// After inserting matching entries at the same position, the exec
/// accumulator still matches the spec state entry by entry.
proof fn lemma_acc_shift(
    ov: Seq<(LabelKey, Option<ConfiguredBuildTargetResultGen<(usize, OutputResult)>>)>,
    nv: Seq<(LabelKey, Option<ConfiguredBuildTargetResultGen<(usize, OutputResult)>>)>,
    oa: Seq<(LabelKey, Option<TargetAcc>)>,
    na: Seq<(LabelKey, Option<TargetAcc>)>,
    p: int,
)
    requires
        acc_matches(ov, oa),
        0 <= p <= ov.len(),
        nv.len() == ov.len() + 1,
        na.len() == oa.len() + 1,
        forall|j: int| 0 <= j < p ==> #[trigger] nv[j] == ov[j],
        forall|j: int| p < j < nv.len() ==> #[trigger] nv[j] == ov[j - 1],
        forall|j: int| 0 <= j < p ==> #[trigger] na[j] == oa[j],
        forall|j: int| p < j < na.len() ==> #[trigger] na[j] == oa[j - 1],
        nv[p].0 == na[p].0,
        match (nv[p].1, na[p].1) {
            (Option::Some(g), Option::Some(t)) => gen_matches(g, t),
            (Option::None, Option::None) => true,
            _ => false,
        },
    ensures
        acc_matches(nv, na),
{
    assert forall|ii: int| 0 <= ii < nv.len() implies (#[trigger] nv[ii]).0 == na[ii].0 && match (
        nv[ii].1,
        na[ii].1,
    ) {
        (Option::Some(g), Option::Some(t)) => gen_matches(g, t),
        (Option::None, Option::None) => true,
        _ => false,
    } by {
        if ii < p {
            assert(nv[ii] == ov[ii]);
            assert(na[ii] == oa[ii]);
        } else if ii > p {
            assert(nv[ii] == ov[ii - 1]);
            assert(na[ii] == oa[ii - 1]);
        }
    }
}

/// Inserting a fresh label at its position keeps labels sorted.
proof fn lemma_acc_insert_sorted(
    before: Seq<(LabelKey, Option<TargetAcc>)>,
    after: Seq<(LabelKey, Option<TargetAcc>)>,
    p: int,
    label: LabelKey,
    unchanged: bool,
)
    requires
        acc_sorted(before),
        unchanged ==> after == before,
        !unchanged ==> p == label_pos(before, label) && after.len() == before.len() + 1
            && after[p].0 == label && (forall|j: int| 0 <= j < p ==> after[j] == before[j]) && (
        forall|j: int| p < j < after.len() ==> after[j] == before[j - 1]) && !(p < before.len()
            && before[p].0 == label),
    ensures
        acc_sorted(after),
{
    if !unchanged {
        lemma_label_pos(before, label);
        assert forall|i: int, j: int| 0 <= i < j < after.len() implies (#[trigger] after[i]).0.0
            < (#[trigger] after[j]).0.0 by {
            if i < p && j == p {
                assert(after[i] == before[i]);
            } else if i == p && j > p {
                assert(after[j] == before[j - 1]);
                assert(before[j - 1].0.0 >= label.0);
                assert(before[j - 1].0 != label || j - 1 != p);
                if before[j - 1].0.0 == label.0 {
                    if j - 1 > p {
                        assert(before[p].0.0 < before[j - 1].0.0 || p >= before.len());
                        if p < before.len() {
                            assert(before[p].0.0 >= label.0);
                        }
                    }
                }
            } else if i < p && j > p {
                assert(after[i] == before[i]);
                assert(after[j] == before[j - 1]);
            } else if i > p && j > p {
                assert(after[i] == before[i - 1]);
                assert(after[j] == before[j - 1]);
            } else if i < p && j < p {
                assert(after[i] == before[i]);
                assert(after[j] == before[j]);
            }
        }
    }
}

} // verus!
