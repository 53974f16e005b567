//! Per-location time-series extraction.
//!
//! For one spatial grid point the extractor walks the time axis once,
//! applies the active missing-value policy, and produces one aligned output
//! series per tracked variable. Each policy brings its own retention rule:
//! the joint-NaN policy keeps a location iff any timestep survived joint
//! filtering, the quality-gated policy only if every variable kept at least
//! one real sample.

use vstd::prelude::*;
use crate::mask::{
    gate_counted, gate_plain, is_nan_bits, spec_gate_counted, spec_gate_plain, spec_is_nan,
    QualityGate,
};

verus! {

/// One variable's raw series for one location: sample bit patterns and,
/// where the variable has one, the companion observation-count series,
/// aligned index for index.
pub struct VarSeries {
    pub values: Vec<u64>,
    pub counts: Option<Vec<i64>>,
}

impl VarSeries {
    /// A companion count series, where present, runs in step with the
    /// values.
    pub open spec fn wf(&self) -> bool {
        self.counts matches Some(c) ==> c@.len() == self.values@.len()
    }
}

/// The sample the quality gate records at timestep `t`: gated through the
/// companion count where the variable has one, by the sentinel alone where
/// not.
pub open spec fn spec_masked_at(g: QualityGate, vs: VarSeries, t: int) -> u64 {
    match vs.counts {
        Some(c) => spec_gate_counted(g, vs.values@[t], c@[t]),
        None => spec_gate_plain(g, vs.values@[t]),
    }
}

/// Whether the gated series of a variable keeps at least one real sample.
pub open spec fn spec_var_retained(g: QualityGate, vs: VarSeries) -> bool {
    exists|t: int| 0 <= t < vs.values@.len() && !spec_is_nan(spec_masked_at(g, vs, t))
}

/// The all-or-nothing retention gate of the quality-gated policy: every
/// tracked variable must keep at least one real sample.
pub open spec fn spec_all_retained(g: QualityGate, vars: Seq<VarSeries>) -> bool {
    forall|j: int| 0 <= j < vars.len() ==> spec_var_retained(g, #[trigger] vars[j])
}

/// Applies the quality gate across one variable's series, independently per
/// timestep.
pub fn mask_series(g: &QualityGate, vs: &VarSeries) -> (out: Vec<u64>)
    requires
        vs.wf(),
    ensures
        out@.len() == vs.values@.len(),
        forall|t: int| 0 <= t < out@.len() ==> out@[t] == spec_masked_at(*g, *vs, t),
{
    let n = vs.values.len();
    let mut out: Vec<u64> = Vec::new();
    let mut t: usize = 0;
    while t < n
        invariant
            t <= n,
            n == vs.values@.len(),
            vs.wf(),
            out@.len() == t,
            forall|u: int| 0 <= u < t ==> out@[u] == spec_masked_at(*g, *vs, u),
        decreases n - t,
    {
        let v = vs.values[t];
        let m = match &vs.counts {
            Some(c) => gate_counted(g, v, c[t]),
            None => gate_plain(g, v),
        };
        out.push(m);
        t += 1;
    }
    out
}

/// Whether a series holds at least one real (non-NaN) sample.
pub fn has_real_sample(s: &Vec<u64>) -> (r: bool)
    ensures
        r == exists|t: int| 0 <= t < s@.len() && !spec_is_nan(#[trigger] s@[t]),
{
    let n = s.len();
    let mut t: usize = 0;
    while t < n
        invariant
            t <= n,
            n == s@.len(),
            forall|u: int| 0 <= u < t ==> spec_is_nan(#[trigger] s@[u]),
        decreases n - t,
    {
        if !is_nan_bits(s[t]) {
            return true;
        }
        t += 1;
    }
    false
}

/// Quality-gated extraction for one location: gates every variable's series
/// independently, then applies the all-or-nothing retention rule — if any
/// single variable's gated series is wholly NaN, the location is dropped and
/// no partial record is produced.
pub fn extract_gated(g: &QualityGate, vars: &Vec<VarSeries>) -> (r: Option<Vec<Vec<u64>>>)
    requires
        forall|j: int| 0 <= j < vars@.len() ==> (#[trigger] vars@[j]).wf(),
    ensures
        r is Some <==> spec_all_retained(*g, vars@),
        r matches Some(out) ==> {
            &&& out@.len() == vars@.len()
            &&& forall|j: int| 0 <= j < vars@.len()
                ==> (#[trigger] out@[j])@.len() == vars@[j].values@.len()
            &&& forall|j: int, t: int|
                0 <= j < vars@.len() && 0 <= t < vars@[j].values@.len()
                    ==> (#[trigger] out@[j]@[t]) == spec_masked_at(*g, vars@[j], t)
        },
{
    let n = vars.len();
    let mut out: Vec<Vec<u64>> = Vec::new();
    let mut j: usize = 0;
    while j < n
        invariant
            j <= n,
            n == vars@.len(),
            forall|k: int| 0 <= k < vars@.len() ==> (#[trigger] vars@[k]).wf(),
            out@.len() == j,
            forall|k: int| 0 <= k < j ==> spec_var_retained(*g, #[trigger] vars@[k]),
            forall|k: int| 0 <= k < j
                ==> (#[trigger] out@[k])@.len() == vars@[k].values@.len(),
            forall|k: int, t: int|
                0 <= k < j && 0 <= t < vars@[k].values@.len()
                    ==> (#[trigger] out@[k]@[t]) == spec_masked_at(*g, vars@[k], t),
        decreases n - j,
    {
        let m = mask_series(g, &vars[j]);
        if !has_real_sample(&m) {
            proof {
                assert(!spec_var_retained(*g, vars@[j as int])) by {
                    if spec_var_retained(*g, vars@[j as int]) {
                        let t = choose|t: int|
                            0 <= t < vars@[j as int].values@.len()
                                && !spec_is_nan(spec_masked_at(*g, vars@[j as int], t));
                        assert(!spec_is_nan(m@[t]));
                    }
                }
            }
            return None;
        }
        proof {
            let t = choose|t: int| 0 <= t < m@.len() && !spec_is_nan(#[trigger] m@[t]);
            assert(!spec_is_nan(spec_masked_at(*g, vars@[j as int], t)));
        }
        out.push(m);
        j += 1;
    }
    Some(out)
}

/// Whether, at timestep `t`, at least one variable holds a real value — the
/// joint-NaN policy keeps exactly these timesteps.
pub open spec fn spec_joint_keep(vars: Seq<Seq<u64>>, t: int) -> bool {
    exists|j: int| 0 <= j < vars.len() && !spec_is_nan(#[trigger] vars[j][t])
}

/// The timesteps among the first `n` that the joint-NaN policy keeps, in
/// time order.
pub open spec fn spec_kept_times(vars: Seq<Seq<u64>>, n: int) -> Seq<int>
    decreases n,
{
    if n <= 0 {
        Seq::empty()
    } else if spec_joint_keep(vars, n - 1) {
        spec_kept_times(vars, n - 1).push(n - 1)
    } else {
        spec_kept_times(vars, n - 1)
    }
}

/// The kept timesteps are exactly those where some variable holds a real
/// value, each listed once, in strictly increasing time order: a timestep
/// where every variable is NaN is absent, one with any real value is
/// present.
pub proof fn lemma_kept_times_characterization(vars: Seq<Seq<u64>>, n: int)
    requires
        n >= 0,
    ensures
        forall|k: int| 0 <= k < spec_kept_times(vars, n).len()
            ==> 0 <= #[trigger] spec_kept_times(vars, n)[k] < n
                && spec_joint_keep(vars, spec_kept_times(vars, n)[k]),
        forall|t: int| 0 <= t < n && spec_joint_keep(vars, t)
            ==> spec_kept_times(vars, n).contains(t),
        forall|k1: int, k2: int|
            0 <= k1 < k2 < spec_kept_times(vars, n).len()
                ==> spec_kept_times(vars, n)[k1] < spec_kept_times(vars, n)[k2],
    decreases n,
{
    if n > 0 {
        lemma_kept_times_characterization(vars, n - 1);
        let prev = spec_kept_times(vars, n - 1);
        let cur = spec_kept_times(vars, n);
        assert forall|t: int| 0 <= t < n && spec_joint_keep(vars, t) implies cur.contains(t) by {
            if t < n - 1 {
                let k = choose|k: int| 0 <= k < prev.len() && prev[k] == t;
                assert(cur[k] == t);
            } else {
                assert(cur[cur.len() - 1] == t);
            }
        }
    }
}

/// Marks each timestep the joint-NaN policy keeps: true where at least one
/// variable holds a real value.
fn joint_keep_flags(vars: &Vec<Vec<u64>>, n_time: usize) -> (flags: Vec<bool>)
    requires
        forall|j: int| 0 <= j < vars@.len() ==> (#[trigger] vars@[j])@.len() == n_time,
    ensures
        flags@.len() == n_time,
        forall|t: int| 0 <= t < n_time
            ==> #[trigger] flags@[t] == spec_joint_keep(vars.deep_view(), t),
{
    let mut flags: Vec<bool> = Vec::new();
    let mut t: usize = 0;
    while t < n_time
        invariant
            t <= n_time,
            forall|j: int| 0 <= j < vars@.len() ==> (#[trigger] vars@[j])@.len() == n_time,
            flags@.len() == t,
            forall|u: int| 0 <= u < t
                ==> #[trigger] flags@[u] == spec_joint_keep(vars.deep_view(), u),
        decreases n_time - t,
    {
        let mut keep = false;
        let mut j: usize = 0;
        while j < vars.len()
            invariant
                j <= vars@.len(),
                t < n_time,
                forall|i: int| 0 <= i < vars@.len() ==> (#[trigger] vars@[i])@.len() == n_time,
                keep <==> exists|i: int|
                    0 <= i < j && !spec_is_nan(#[trigger] vars.deep_view()[i][t as int]),
            decreases vars@.len() - j,
        {
            if !is_nan_bits(vars[j][t]) {
                proof {
                    assert(vars.deep_view()[j as int][t as int] == vars@[j as int]@[t as int]);
                }
                keep = true;
            }
            j += 1;
        }
        flags.push(keep);
        t += 1;
    }
    flags
}

/// Keeps the entries of `xs` whose flag is set; order preserved. The kept
/// index list of the flags is `spec_kept_times` of whatever the flags were
/// computed from.
pub open spec fn spec_kept_of_flags(flags: Seq<bool>, n: int) -> Seq<int>
    decreases n,
{
    if n <= 0 {
        Seq::empty()
    } else if flags[n - 1] {
        spec_kept_of_flags(flags, n - 1).push(n - 1)
    } else {
        spec_kept_of_flags(flags, n - 1)
    }
}

/// Flags computed pointwise from the joint rule pick out the same
/// timesteps.
proof fn lemma_flags_match_kept(vars: Seq<Seq<u64>>, flags: Seq<bool>, n: int)
    requires
        0 <= n <= flags.len(),
        forall|t: int| 0 <= t < n ==> #[trigger] flags[t] == spec_joint_keep(vars, t),
    ensures
        spec_kept_of_flags(flags, n) == spec_kept_times(vars, n),
    decreases n,
{
    if n > 0 {
        lemma_flags_match_kept(vars, flags, n - 1);
    }
}

/// Filters one series by the keep flags.
fn filter_by_flags_u64(xs: &Vec<u64>, flags: &Vec<bool>) -> (out: Vec<u64>)
    requires
        xs@.len() == flags@.len(),
    ensures
        out@.len() == spec_kept_of_flags(flags@, flags@.len() as int).len(),
        forall|k: int| 0 <= k < out@.len()
            ==> #[trigger] out@[k] == xs@[spec_kept_of_flags(flags@, flags@.len() as int)[k]],
{
    let n = xs.len();
    let mut out: Vec<u64> = Vec::new();
    let mut t: usize = 0;
    while t < n
        invariant
            t <= n,
            n == xs@.len() && n == flags@.len(),
            out@.len() == spec_kept_of_flags(flags@, t as int).len(),
            forall|k: int| 0 <= k < out@.len()
                ==> #[trigger] out@[k] == xs@[spec_kept_of_flags(flags@, t as int)[k]],
        decreases n - t,
    {
        proof {
            lemma_kept_of_flags_bounds(flags@, t as int);
        }
        if flags[t] {
            out.push(xs[t]);
        }
        t += 1;
        proof {
            lemma_kept_of_flags_bounds(flags@, t as int);
        }
    }
    out
}

/// Filters one timestamp series by the keep flags.
fn filter_by_flags_i64(xs: &Vec<i64>, flags: &Vec<bool>) -> (out: Vec<i64>)
    requires
        xs@.len() == flags@.len(),
    ensures
        out@.len() == spec_kept_of_flags(flags@, flags@.len() as int).len(),
        forall|k: int| 0 <= k < out@.len()
            ==> #[trigger] out@[k] == xs@[spec_kept_of_flags(flags@, flags@.len() as int)[k]],
{
    let n = xs.len();
    let mut out: Vec<i64> = Vec::new();
    let mut t: usize = 0;
    while t < n
        invariant
            t <= n,
            n == xs@.len() && n == flags@.len(),
            out@.len() == spec_kept_of_flags(flags@, t as int).len(),
            forall|k: int| 0 <= k < out@.len()
                ==> #[trigger] out@[k] == xs@[spec_kept_of_flags(flags@, t as int)[k]],
        decreases n - t,
    {
        proof {
            lemma_kept_of_flags_bounds(flags@, t as int);
        }
        if flags[t] {
            out.push(xs[t]);
        }
        t += 1;
        proof {
            lemma_kept_of_flags_bounds(flags@, t as int);
        }
    }
    out
}

/// Every kept index lies below the scanned prefix.
proof fn lemma_kept_of_flags_bounds(flags: Seq<bool>, n: int)
    ensures
        forall|k: int| 0 <= k < spec_kept_of_flags(flags, n).len()
            ==> 0 <= #[trigger] spec_kept_of_flags(flags, n)[k] < n,
    decreases n,
{
    if n > 0 {
        lemma_kept_of_flags_bounds(flags, n - 1);
        let prev = spec_kept_of_flags(flags, n - 1);
        let cur = spec_kept_of_flags(flags, n);
        assert forall|k: int| 0 <= k < cur.len() implies 0 <= #[trigger] cur[k] < n by {
            if flags[n - 1] && k == cur.len() - 1 {
                assert(cur[k] == n - 1);
            } else {
                assert(cur[k] == prev[k]);
            }
        }
    }
}

/// Joint-NaN extraction for one location: a timestep is dropped — from
/// every variable's series and from the timestamp series alike — only when
/// every tracked variable is NaN there; any timestep with at least one real
/// value is kept for all variables, the NaN ones recorded as NaN. The
/// location itself is retained iff at least one timestep survives.
pub fn extract_joint(vars: &Vec<Vec<u64>>, times: &Vec<i64>) -> (r: Option<(Vec<Vec<u64>>, Vec<i64>)>)
    requires
        forall|j: int| 0 <= j < vars@.len() ==> (#[trigger] vars@[j])@.len() == times@.len(),
    ensures
        r is Some <==> spec_kept_times(vars.deep_view(), times@.len() as int).len() > 0,
        r matches Some((out, ts)) ==> {
            let kept = spec_kept_times(vars.deep_view(), times@.len() as int);
            &&& out@.len() == vars@.len()
            &&& ts@.len() == kept.len()
            &&& forall|k: int| 0 <= k < kept.len() ==> #[trigger] ts@[k] == times@[kept[k]]
            &&& forall|j: int| 0 <= j < vars@.len() ==> (#[trigger] out@[j])@.len() == kept.len()
            &&& forall|j: int, k: int|
                0 <= j < vars@.len() && 0 <= k < kept.len()
                    ==> #[trigger] out@[j]@[k] == vars@[j]@[kept[k]]
        },
{
    let n_time = times.len();
    let flags = joint_keep_flags(vars, n_time);
    let ghost kept = spec_kept_times(vars.deep_view(), times@.len() as int);
    proof {
        lemma_flags_match_kept(vars.deep_view(), flags@, n_time as int);
        lemma_kept_of_flags_bounds(flags@, n_time as int);
    }
    let ts = filter_by_flags_i64(times, &flags);
    if ts.len() == 0 {
        return None;
    }
    let mut out: Vec<Vec<u64>> = Vec::new();
    let mut j: usize = 0;
    while j < vars.len()
        invariant
            j <= vars@.len(),
            flags@.len() == n_time,
            forall|i: int| 0 <= i < vars@.len() ==> (#[trigger] vars@[i])@.len() == n_time,
            spec_kept_of_flags(flags@, n_time as int) == kept,
            forall|k: int| 0 <= k < kept.len() ==> 0 <= #[trigger] kept[k] < n_time,
            out@.len() == j,
            forall|i: int| 0 <= i < j ==> (#[trigger] out@[i])@.len() == kept.len(),
            forall|i: int, k: int|
                0 <= i < j && 0 <= k < kept.len()
                    ==> #[trigger] out@[i]@[k] == vars@[i]@[kept[k]],
        decreases vars@.len() - j,
    {
        let filtered = filter_by_flags_u64(&vars[j], &flags);
        out.push(filtered);
        j += 1;
    }
    Some((out, ts))
}

} // verus!
