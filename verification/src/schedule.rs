//! Dependency resolution and pass scheduling.
//!
//! Given a set of pass declarations, this module decides which passes read
//! attachments written by others (dependencies), which passes write the
//! same attachment (siblings), and a total execution order that places
//! every pass after all of its dependencies while greedily keeping
//! independent passes free to overlap.  A declaration set whose
//! dependencies form a cycle cannot be ordered and is rejected.

use vstd::prelude::*;
use vstd::multiset::Multiset;
use crate::attachment::Attachment;
use crate::pass::PassBuilder;

verus! {

/// Pass `p` writes attachment `a` (as a color or depth/stencil output).
pub open spec fn spec_writes(p: PassBuilder, a: Attachment) -> bool {
    match a {
        Attachment::Color(id) => p.colors@.contains(id),
        Attachment::DepthStencil(id) => p.depth_stencil == Some(id),
    }
}

/// Pass `p` reads attachment `a` as an input.
pub open spec fn spec_reads(p: PassBuilder, a: Attachment) -> bool {
    p.inputs@.contains(a)
}

/// Pass `p` directly depends on pass `q`: some input of `p` is an output
/// of `q`.
pub open spec fn depends_on(p: PassBuilder, q: PassBuilder) -> bool {
    exists|a: Attachment| spec_reads(p, a) && spec_writes(q, a)
}

/// Passes `p` and `q` are siblings: they write a common attachment and so
/// must still be ordered relative to each other, because only the first
/// writer clears it.
pub open spec fn shares_output(p: PassBuilder, q: PassBuilder) -> bool {
    exists|a: Attachment| spec_writes(p, a) && spec_writes(q, a)
}

/// `q` constrains where `p` may be placed: either `p` depends on `q`, or
/// the two write a common attachment.
pub open spec fn is_order_dep(p: PassBuilder, q: PassBuilder) -> bool {
    depends_on(p, q) || shares_output(p, q)
}

/// The sequence is a topological order: every pass comes after each pass
/// it directly depends on.
pub open spec fn topo_sorted(sched: Seq<PassBuilder>) -> bool {
    forall|i: int, j: int|
        0 <= i < sched.len() && 0 <= j < sched.len() && depends_on(sched[i], sched[j]) ==> j < i
}

/// `s` witnesses a dependency cycle among the passes of `ps`: a non-empty
/// set of indices each of which depends on another member of the set.
pub open spec fn cycle_set(ps: Seq<PassBuilder>, s: Set<int>) -> bool {
    &&& s.finite()
    &&& s.len() > 0
    &&& forall|i: int| s.contains(i) ==> 0 <= i < ps.len()
    &&& forall|i: int|
        s.contains(i) ==> exists|j: int| s.contains(j) && depends_on(ps[i], #[trigger] ps[j])
}

/// The declaration set contains a dependency cycle.
pub open spec fn cycle_exists(ps: Seq<PassBuilder>) -> bool {
    exists|s: Set<int>| #[trigger] cycle_set(ps, s)
}

/// `d` is the index, within the already scheduled prefix `sched`, of the
/// last pass that constrains `p` — or `None` if no scheduled pass does.
pub open spec fn last_dep_char(sched: Seq<PassBuilder>, p: PassBuilder, d: Option<usize>) -> bool {
    match d {
        Some(j) => {
            &&& j < sched.len()
            &&& is_order_dep(p, sched[j as int])
            &&& forall|j2: int| j < j2 < sched.len() ==> !is_order_dep(p, sched[j2])
        },
        None => forall|j: int| 0 <= j < sched.len() ==> !is_order_dep(p, sched[j]),
    }
}

/// Every recorded "last dependency" is correct for its pass: `deps[k]`
/// points at the latest pass before `k` that constrains pass `k`.
pub open spec fn deps_ok(sched: Seq<PassBuilder>, deps: Seq<Option<usize>>) -> bool {
    &&& deps.len() == sched.len()
    &&& forall|k: int|
        0 <= k < sched.len() ==> last_dep_char(sched.take(k), sched[k], #[trigger] deps[k])
}

/// Does pass `p` write color attachment `id`?
pub fn writes_color(p: &PassBuilder, id: usize) -> (b: bool)
    ensures
        b == p.colors@.contains(id),
{
    let mut i: usize = 0;
    while i < p.colors.len()
        invariant
            i <= p.colors@.len(),
            forall|j: int| 0 <= j < i ==> p.colors@[j] != id,
        decreases p.colors@.len() - i,
    {
        if p.colors[i] == id {
            return true;
        }
        i = i + 1;
    }
    false
}

/// Does pass `p` write attachment `a`?
pub fn writes(p: &PassBuilder, a: Attachment) -> (b: bool)
    ensures
        b == spec_writes(*p, a),
{
    match a {
        Attachment::Color(id) => writes_color(p, id),
        Attachment::DepthStencil(id) => match p.depth_stencil {
            Some(d) => d == id,
            None => false,
        },
    }
}

/// Does pass `p` directly depend on pass `q`?
pub fn pass_depends_on(p: &PassBuilder, q: &PassBuilder) -> (b: bool)
    ensures
        b == depends_on(*p, *q),
{
    let mut i: usize = 0;
    while i < p.inputs.len()
        invariant
            i <= p.inputs@.len(),
            forall|j: int| 0 <= j < i ==> !spec_writes(*q, #[trigger] p.inputs@[j]),
        decreases p.inputs@.len() - i,
    {
        let a = p.inputs[i];
        if writes(q, a) {
            assert(spec_reads(*p, a));
            return true;
        }
        i = i + 1;
    }
    assert(!depends_on(*p, *q)) by {
        if depends_on(*p, *q) {
            let a = choose|a: Attachment| spec_reads(*p, a) && spec_writes(*q, a);
            let j = choose|j: int| 0 <= j < p.inputs@.len() && p.inputs@[j] == a;
            assert(!spec_writes(*q, p.inputs@[j]));
        }
    }
    false
}

/// Do passes `p` and `q` write a common attachment?
pub fn pass_shares_output(p: &PassBuilder, q: &PassBuilder) -> (b: bool)
    ensures
        b == shares_output(*p, *q),
{
    let mut i: usize = 0;
    while i < p.colors.len()
        invariant
            i <= p.colors@.len(),
            forall|j: int|
                0 <= j < i ==> !spec_writes(*q, Attachment::Color(#[trigger] p.colors@[j])),
        decreases p.colors@.len() - i,
    {
        let id = p.colors[i];
        if writes_color(q, id) {
            assert(spec_writes(*p, Attachment::Color(id)));
            return true;
        }
        i = i + 1;
    }
    match p.depth_stencil {
        Some(d) => {
            let shared_ds = match q.depth_stencil {
                Some(qd) => qd == d,
                None => false,
            };
            if shared_ds {
                assert(spec_writes(*p, Attachment::DepthStencil(d)));
                assert(spec_writes(*q, Attachment::DepthStencil(d)));
                return true;
            }
        },
        None => {},
    }
    assert(!shares_output(*p, *q)) by {
        if shares_output(*p, *q) {
            let a = choose|a: Attachment| spec_writes(*p, a) && spec_writes(*q, a);
            match a {
                Attachment::Color(id) => {
                    let j = choose|j: int| 0 <= j < p.colors@.len() && p.colors@[j] == id;
                    assert(!spec_writes(*q, Attachment::Color(p.colors@[j])));
                },
                Attachment::DepthStencil(id) => {},
            }
        }
    }
    false
}

/// Does any pass of `passes` stand between `p` and its eligibility — that
/// is, does `p` directly depend on a pass that is still unscheduled?
pub fn has_dep_in(passes: &Vec<PassBuilder>, p: &PassBuilder) -> (b: bool)
    ensures
        b == exists|j: int| 0 <= j < passes@.len() && depends_on(*p, #[trigger] passes@[j]),
{
    let mut i: usize = 0;
    while i < passes.len()
        invariant
            i <= passes@.len(),
            forall|j: int| 0 <= j < i ==> !depends_on(*p, #[trigger] passes@[j]),
        decreases passes@.len() - i,
    {
        if pass_depends_on(p, &passes[i]) {
            return true;
        }
        i = i + 1;
    }
    false
}

/// Find the latest already-scheduled pass that constrains `p`: the maximum
/// index within `sched` of a direct dependency or sibling of `p`.
pub fn last_dep_in(sched: &Vec<PassBuilder>, p: &PassBuilder) -> (d: Option<usize>)
    ensures
        last_dep_char(sched@, *p, d),
{
    let mut i: usize = sched.len();
    while i > 0
        invariant
            i <= sched@.len(),
            forall|j: int| i <= j < sched@.len() ==> !is_order_dep(*p, #[trigger] sched@[j]),
        decreases i,
    {
        i = i - 1;
        let dep = pass_depends_on(p, &sched[i]);
        let sib = pass_shares_output(p, &sched[i]);
        if dep || sib {
            return Some(i);
        }
    }
    None
}

/// Every finite, non-empty set of integers has a least element.
proof fn lemma_min_of_finite_int_set(s: Set<int>)
    requires
        s.finite(),
        s.len() > 0,
    ensures
        exists|m: int| s.contains(m) && forall|x: int| #[trigger] s.contains(x) ==> m <= x,
    decreases s.len(),
{
    let x = s.choose();
    assert(s.contains(x));
    let rest = s.remove(x);
    if rest.len() == 0 {
        rest.lemma_len0_is_empty();
        assert forall|y: int| s.contains(y) implies x <= y by {
            if y != x {
                assert(rest.contains(y));
            }
        }
        assert(s.contains(x) && forall|y: int| #[trigger] s.contains(y) ==> x <= y);
    } else {
        lemma_min_of_finite_int_set(rest);
        let m0 = choose|m0: int|
            rest.contains(m0) && forall|y: int| #[trigger] rest.contains(y) ==> m0 <= y;
        let m = if m0 <= x {
            m0
        } else {
            x
        };
        assert forall|y: int| s.contains(y) implies m <= y by {
            if y != x {
                assert(rest.contains(y));
            }
        }
        assert(s.contains(m) && forall|y: int| #[trigger] s.contains(y) ==> m <= y);
    }
}

/// A set of passes that can be topologically ordered has no dependency
/// cycle: any claimed cycle witness would need a first scheduled member,
/// whose in-cycle dependency would then have to be scheduled both before
/// and after it.
pub proof fn lemma_topo_no_cycle(ps: Seq<PassBuilder>, sched: Seq<PassBuilder>)
    requires
        sched.to_multiset() == ps.to_multiset(),
        topo_sorted(sched),
    ensures
        !cycle_exists(ps),
{
    broadcast use vstd::seq_lib::group_to_multiset_ensures;

    if cycle_exists(ps) {
        let s = choose|s: Set<int>| cycle_set(ps, s);
        let positions = Set::new(
            |i: int| 0 <= i < sched.len() && exists|k: int| s.contains(k) && sched[i] == ps[k],
        );
        vstd::set_lib::lemma_int_range(0, sched.len() as int);
        vstd::set_lib::lemma_len_subset(positions, vstd::set_lib::set_int_range(0, sched.len() as int));
        // `positions` is non-empty: any member of the cycle occurs in `sched`.
        let k0 = s.choose();
        assert(s.contains(k0));
        assert(ps.contains(ps[k0]));
        assert(sched.to_multiset().count(ps[k0]) > 0);
        assert(sched.contains(ps[k0]));
        let i0 = choose|i: int| 0 <= i < sched.len() && sched[i] == ps[k0];
        assert(positions.contains(i0));
        assert(positions.len() > 0) by {
            if positions.len() == 0 {
                positions.lemma_len0_is_empty();
            }
        }
        lemma_min_of_finite_int_set(positions);
        let m = choose|m: int|
            positions.contains(m) && forall|x: int| #[trigger] positions.contains(x) ==> m <= x;
        let k = choose|k: int| s.contains(k) && sched[m] == ps[k];
        let k2 = choose|k2: int| s.contains(k2) && depends_on(ps[k], #[trigger] ps[k2]);
        assert(ps.contains(ps[k2]));
        assert(sched.to_multiset().count(ps[k2]) > 0);
        assert(sched.contains(ps[k2]));
        let i2 = choose|i2: int| 0 <= i2 < sched.len() && sched[i2] == ps[k2];
        assert(positions.contains(i2));
        assert(m <= i2);
        assert(depends_on(sched[m], sched[i2]));
        assert(i2 < m);
    }
}

/// Every pass among the first `upto` unscheduled ones directly depends on
/// some pass that is still unscheduled.
pub open spec fn all_blocked(uns: Seq<PassBuilder>, upto: int) -> bool {
    forall|t: int|
        0 <= t < upto ==> exists|j: int|
            0 <= j < uns.len() && depends_on(#[trigger] uns[t], uns[j])
}

/// If every pass of a non-empty remainder depends on a pass of the same
/// remainder, the whole declaration set contains a cycle: the declared
/// indices of the remaining passes witness it.
proof fn lemma_stuck_implies_cycle(
    passes: Seq<PassBuilder>,
    sched_ms: Multiset<PassBuilder>,
    uns: Seq<PassBuilder>,
)
    requires
        sched_ms.add(uns.to_multiset()) == passes.to_multiset(),
        uns.len() > 0,
        all_blocked(uns, uns.len() as int),
    ensures
        cycle_exists(passes),
{
    broadcast use vstd::seq_lib::group_to_multiset_ensures;
    broadcast use vstd::multiset::group_multiset_axioms;

    let s = Set::new(|i: int| 0 <= i < passes.len() && uns.contains(passes[i]));
    vstd::set_lib::lemma_int_range(0, passes.len() as int);
    vstd::set_lib::lemma_len_subset(s, vstd::set_lib::set_int_range(0, passes.len() as int));
    assert(uns.contains(uns[0]));
    assert(uns.to_multiset().count(uns[0]) > 0);
    assert(passes.to_multiset().count(uns[0]) == sched_ms.count(uns[0]) + uns.to_multiset().count(
        uns[0],
    ));
    assert(passes.contains(uns[0]));
    let i0 = choose|i: int| 0 <= i < passes.len() && passes[i] == uns[0];
    assert(s.contains(i0));
    assert(s.len() > 0) by {
        if s.len() == 0 {
            s.lemma_len0_is_empty();
        }
    }
    assert forall|i: int| s.contains(i) implies exists|j: int|
        s.contains(j) && depends_on(passes[i], #[trigger] passes[j]) by {
        let t = choose|t: int| 0 <= t < uns.len() && uns[t] == passes[i];
        let j_u = choose|j_u: int| 0 <= j_u < uns.len() && depends_on(uns[t], #[trigger] uns[j_u]);
        assert(uns.contains(uns[j_u]));
        assert(uns.to_multiset().count(uns[j_u]) > 0);
        assert(passes.to_multiset().count(uns[j_u]) == sched_ms.count(uns[j_u])
            + uns.to_multiset().count(uns[j_u]));
        assert(passes.contains(uns[j_u]));
        let j = choose|j: int| 0 <= j < passes.len() && passes[j] == uns[j_u];
        assert(s.contains(j));
        assert(depends_on(passes[i], passes[j]));
    }
    assert(cycle_set(passes, s));
}

/// Appending an eligible pass — one that depends on nothing still
/// unscheduled, itself included — preserves every invariant of the
/// scheduling loop.
proof fn lemma_schedule_step(
    passes: Seq<PassBuilder>,
    old_sched: Seq<PassBuilder>,
    old_deps: Seq<Option<usize>>,
    uns: Seq<PassBuilder>,
    bi: int,
    ld: Option<usize>,
)
    requires
        0 <= bi < uns.len(),
        old_sched.to_multiset().add(uns.to_multiset()) == passes.to_multiset(),
        topo_sorted(old_sched),
        forall|i: int, j: int| #![trigger old_sched[i], uns[j]]
            0 <= i < old_sched.len() && 0 <= j < uns.len() ==> !depends_on(old_sched[i], uns[j]),
        deps_ok(old_sched, old_deps),
        forall|j: int| 0 <= j < uns.len() ==> !depends_on(uns[bi], #[trigger] uns[j]),
        last_dep_char(old_sched, uns[bi], ld),
    ensures
        old_sched.push(uns[bi]).to_multiset().add(uns.remove(bi).to_multiset())
            == passes.to_multiset(),
        topo_sorted(old_sched.push(uns[bi])),
        forall|i: int, j: int| #![trigger old_sched.push(uns[bi])[i], uns.remove(bi)[j]]
            0 <= i < old_sched.push(uns[bi]).len() && 0 <= j < uns.remove(bi).len() ==> !depends_on(
                old_sched.push(uns[bi])[i],
                uns.remove(bi)[j],
            ),
        deps_ok(old_sched.push(uns[bi]), old_deps.push(ld)),
{
    broadcast use vstd::seq_lib::group_to_multiset_ensures;
    broadcast use vstd::multiset::group_multiset_axioms;

    let p = uns[bi];
    let sched = old_sched.push(p);
    let rest = uns.remove(bi);
    let n = old_sched.len() as int;
    assert(uns.contains(uns[bi]));
    assert(uns.to_multiset().count(p) > 0);
    assert(sched.to_multiset().add(rest.to_multiset()) =~= passes.to_multiset()) by {
        assert(sched.to_multiset() =~= old_sched.to_multiset().insert(p));
        assert(rest.to_multiset() =~= uns.to_multiset().remove(p));
    }
    assert forall|i: int, j: int|
        0 <= i < sched.len() && 0 <= j < sched.len() && depends_on(sched[i], sched[j]) implies j
        < i by {
        if i < n && j < n {
            assert(depends_on(old_sched[i], old_sched[j]));
        } else if i == n && j == n {
            assert(!depends_on(uns[bi], uns[bi]));
        } else if i < n && j == n {
            assert(!depends_on(old_sched[i], uns[bi]));
        }
    }
    assert forall|k: int| 0 <= k < sched.len() implies last_dep_char(
        sched.take(k),
        sched[k],
        #[trigger] old_deps.push(ld)[k],
    ) by {
        if k < n {
            assert(sched.take(k) =~= old_sched.take(k));
            assert(last_dep_char(old_sched.take(k), old_sched[k], old_deps[k]));
        } else {
            assert(sched.take(k) =~= old_sched);
            assert(last_dep_char(old_sched, p, ld));
        }
    }
    assert forall|i: int, j: int| #![trigger sched[i], rest[j]]
        0 <= i < sched.len() && 0 <= j < rest.len() implies !depends_on(sched[i], rest[j]) by {
        let jj = if j < bi {
            j
        } else {
            j + 1
        };
        assert(rest[j] == uns[jj]);
        if i < n {
            assert(!depends_on(old_sched[i], uns[jj]));
        } else {
            assert(!depends_on(uns[bi], uns[jj]));
        }
    }
}

/// Reorder passes so that all dependencies of a pass come before it,
/// greedily favoring placements that leave independent work interleaved.
///
/// On success the result is the scheduled sequence — a permutation of the
/// input — together with, for each scheduled pass, the index of the last
/// earlier pass it depends on or shares an output with (its recorded "last
/// dependency").  A declaration set with a dependency cycle has no such
/// order and yields `None`.
#[verifier::rlimit(60)]
pub fn reorder_passes(passes: Vec<PassBuilder>) -> (r: Option<
    (Vec<PassBuilder>, Vec<Option<usize>>),
>)
    ensures
        match r {
            Some(out) => {
                &&& out.0@.to_multiset() == passes@.to_multiset()
                &&& out.0@.len() == passes@.len()
                &&& out.1@.len() == passes@.len()
                &&& topo_sorted(out.0@)
                &&& deps_ok(out.0@, out.1@)
                &&& !cycle_exists(passes@)
            },
            None => cycle_exists(passes@),
        },
{
    broadcast use vstd::seq_lib::group_to_multiset_ensures;
    broadcast use vstd::multiset::group_multiset_axioms;

    let mut unscheduled = passes;
    let mut scheduled: Vec<PassBuilder> = Vec::new();
    let mut deps: Vec<Option<usize>> = Vec::new();
    proof {
        assert(scheduled@.to_multiset().add(unscheduled@.to_multiset()) =~= passes@.to_multiset());
    }
    while unscheduled.len() > 0
        invariant
            deps@.len() == scheduled@.len(),
            scheduled@.len() + unscheduled@.len() == passes@.len(),
            scheduled@.to_multiset().add(unscheduled@.to_multiset()) == passes@.to_multiset(),
            topo_sorted(scheduled@),
            forall|i: int, j: int| #![trigger scheduled@[i], unscheduled@[j]]
                0 <= i < scheduled@.len() && 0 <= j < unscheduled@.len() ==> !depends_on(
                    scheduled@[i],
                    unscheduled@[j],
                ),
            deps_ok(scheduled@, deps@),
        decreases unscheduled@.len(),
    {
        let ghost uns = unscheduled@;
        let mut best: Option<usize> = None;
        let mut best_ld: Option<usize> = None;
        let mut idx: usize = 0;
        while idx < unscheduled.len()
            invariant
                unscheduled@ == uns,
                idx <= uns.len(),
                match best {
                    Some(bi) => {
                        &&& (bi as int) < uns.len()
                        &&& forall|j: int|
                            0 <= j < uns.len() ==> !depends_on(uns[bi as int], #[trigger] uns[j])
                        &&& last_dep_char(scheduled@, uns[bi as int], best_ld)
                    },
                    None => all_blocked(uns, idx as int),
                },
            decreases uns.len() - idx,
        {
            // Eligible: no transitive dependency among the unscheduled
            // passes, which holds exactly when no direct one does (see
            // `lemma_transitive_empty_iff_direct_empty`).
            if !has_dep_in(&unscheduled, &unscheduled[idx]) {
                let ld = last_dep_in(&scheduled, &unscheduled[idx]);
                let take_it = match best {
                    None => true,
                    Some(_) => match (ld, best_ld) {
                        (None, Some(_)) => true,
                        (None, None) => false,
                        (Some(_), None) => false,
                        (Some(a), Some(b)) => a < b,
                    },
                };
                if take_it {
                    best = Some(idx);
                    best_ld = ld;
                }
            }
            idx = idx + 1;
        }
        match best {
            None => {
                proof {
                    assert(all_blocked(uns, uns.len() as int));
                    lemma_stuck_implies_cycle(passes@, scheduled@.to_multiset(), uns);
                }
                return None;
            },
            Some(bi) => {
                let ghost old_sched = scheduled@;
                let ghost old_deps = deps@;
                let p = unscheduled.remove(bi);
                scheduled.push(p);
                deps.push(best_ld);
                proof {
                    lemma_schedule_step(passes@, old_sched, old_deps, uns, bi as int, best_ld);
                    assert(scheduled@ == old_sched.push(uns[bi as int]));
                    assert(unscheduled@ == uns.remove(bi as int));
                    assert(deps@ == old_deps.push(best_ld));
                }
            },
        }
    }
    proof {
        assert(unscheduled@.to_multiset().len() == 0);
        assert(scheduled@.to_multiset() =~= passes@.to_multiset()) by {
            assert forall|x: PassBuilder|
                scheduled@.to_multiset().count(x) == passes@.to_multiset().count(x) by {
                assert(!unscheduled@.contains(x));
                assert(unscheduled@.to_multiset().count(x) == 0);
                assert(passes@.to_multiset().count(x) == scheduled@.to_multiset().count(x)
                    + unscheduled@.to_multiset().count(x));
            }
        }
        lemma_topo_no_cycle(passes@, scheduled@);
    }
    Some((scheduled, deps))
}

/// Pass `from` reaches pass `ps[j]` through a chain of at most `fuel + 1`
/// direct dependencies within `ps`.
pub open spec fn reaches(ps: Seq<PassBuilder>, from: PassBuilder, j: int, fuel: nat) -> bool
    decreases fuel,
{
    ||| (0 <= j < ps.len() && depends_on(from, ps[j]))
    ||| (fuel > 0 && exists|m: int|
        0 <= m < ps.len() && depends_on(from, #[trigger] ps[m]) && reaches(
            ps,
            ps[m],
            j,
            (fuel - 1) as nat,
        ))
}

/// Pass `from` transitively depends on pass `ps[j]`: a dependency's
/// dependencies are included.
pub open spec fn transitively_depends(ps: Seq<PassBuilder>, from: PassBuilder, j: int) -> bool {
    exists|fuel: nat| reaches(ps, from, j, fuel)
}

proof fn lemma_reaches_mono(ps: Seq<PassBuilder>, from: PassBuilder, j: int, f1: nat, f2: nat)
    requires
        reaches(ps, from, j, f1),
        f1 <= f2,
    ensures
        reaches(ps, from, j, f2),
    decreases f1,
{
    if !(0 <= j < ps.len() && depends_on(from, ps[j])) {
        let m = choose|m: int|
            0 <= m < ps.len() && depends_on(from, #[trigger] ps[m]) && reaches(
                ps,
                ps[m],
                j,
                (f1 - 1) as nat,
            );
        lemma_reaches_mono(ps, ps[m], j, (f1 - 1) as nat, (f2 - 1) as nat);
    }
}

proof fn lemma_reaches_extend(ps: Seq<PassBuilder>, from: PassBuilder, m: int, j: int, fuel: nat)
    requires
        0 <= m < ps.len(),
        0 <= j < ps.len(),
        reaches(ps, from, m, fuel),
        depends_on(ps[m], ps[j]),
    ensures
        reaches(ps, from, j, fuel + 1),
    decreases fuel,
{
    if 0 <= m < ps.len() && depends_on(from, ps[m]) {
        assert(reaches(ps, ps[m], j, 0));
        lemma_reaches_mono(ps, ps[m], j, 0, fuel);
        assert(reaches(ps, from, j, fuel + 1));
    } else {
        let m2 = choose|m2: int|
            0 <= m2 < ps.len() && depends_on(from, #[trigger] ps[m2]) && reaches(
                ps,
                ps[m2],
                m,
                (fuel - 1) as nat,
            );
        lemma_reaches_extend(ps, ps[m2], m, j, (fuel - 1) as nat);
        assert(reaches(ps, from, j, fuel + 1));
    }
}

/// A pass has a transitive dependency within a set exactly when it has a
/// direct one there: every dependency chain starts with a direct
/// dependency.  The scheduler's eligibility test therefore checks direct
/// dependencies against the unscheduled set.
pub proof fn lemma_transitive_empty_iff_direct_empty(ps: Seq<PassBuilder>, p: PassBuilder)
    ensures
        (exists|j: int| 0 <= j < ps.len() && #[trigger] transitively_depends(ps, p, j)) <==> (
        exists|j: int| 0 <= j < ps.len() && depends_on(p, #[trigger] ps[j])),
{
    if exists|j: int| 0 <= j < ps.len() && #[trigger] transitively_depends(ps, p, j) {
        let j = choose|j: int| 0 <= j < ps.len() && #[trigger] transitively_depends(ps, p, j);
        let f = choose|f: nat| reaches(ps, p, j, f);
        if 0 <= j < ps.len() && depends_on(p, ps[j]) {
        } else {
            let m = choose|m: int|
                0 <= m < ps.len() && depends_on(p, #[trigger] ps[m]) && reaches(
                    ps,
                    ps[m],
                    j,
                    (f - 1) as nat,
                );
        }
    }
    if exists|j: int| 0 <= j < ps.len() && depends_on(p, #[trigger] ps[j]) {
        let j = choose|j: int| 0 <= j < ps.len() && depends_on(p, #[trigger] ps[j]);
        assert(reaches(ps, p, j, 0));
        assert(transitively_depends(ps, p, j));
    }
}

/// The marked set is closed under direct dependencies.
spec fn dep_closed(ps: Seq<PassBuilder>, reached: Seq<bool>) -> bool {
    forall|m: int, j: int| #![trigger reached[m], reached[j]]
        0 <= m < ps.len() && 0 <= j < ps.len() && reached[m] && depends_on(ps[m], ps[j])
            ==> reached[j]
}

proof fn lemma_closed_contains_reachable(
    ps: Seq<PassBuilder>,
    reached: Seq<bool>,
    m: int,
    j: int,
    fuel: nat,
)
    requires
        reached.len() == ps.len(),
        dep_closed(ps, reached),
        0 <= m < ps.len(),
        reached[m],
        reaches(ps, ps[m], j, fuel),
    ensures
        0 <= j < ps.len() && reached[j],
    decreases fuel,
{
    if 0 <= j < ps.len() && depends_on(ps[m], ps[j]) {
    } else {
        let m2 = choose|m2: int|
            0 <= m2 < ps.len() && depends_on(ps[m], #[trigger] ps[m2]) && reaches(
                ps,
                ps[m2],
                j,
                (fuel - 1) as nat,
            );
        assert(reached[m2]);
        lemma_closed_contains_reachable(ps, reached, m2, j, (fuel - 1) as nat);
    }
}

/// Number of unmarked entries, the termination measure of the closure
/// walk.
spec fn count_unmarked(s: Seq<bool>) -> nat
    decreases s.len(),
{
    if s.len() == 0 {
        0
    } else {
        count_unmarked(s.drop_last()) + (if s.last() {
            0nat
        } else {
            1nat
        })
    }
}

proof fn lemma_count_unmarked_update(s: Seq<bool>, i: int)
    requires
        0 <= i < s.len(),
        !s[i],
    ensures
        count_unmarked(s.update(i, true)) < count_unmarked(s),
    decreases s.len(),
{
    if i == s.len() - 1 {
        assert(s.update(i, true).drop_last() =~= s.drop_last());
    } else {
        assert(s.update(i, true).drop_last() =~= s.drop_last().update(i, true));
        lemma_count_unmarked_update(s.drop_last(), i);
    }
}

/// Compute the transitive dependencies of `pass` within `passes`: the
/// ascending indices of every pass that `pass` reaches through a chain of
/// direct dependencies.
#[verifier::rlimit(60)]
pub fn transitive_dependencies(passes: &Vec<PassBuilder>, pass: &PassBuilder) -> (r: Vec<usize>)
    ensures
        forall|j: int|
            0 <= j < passes@.len() ==> (r@.contains(j as usize) <==> transitively_depends(
                passes@,
                *pass,
                j,
            )),
        forall|i: int| 0 <= i < r@.len() ==> (#[trigger] r@[i] as int) < passes@.len(),
        forall|i1: int, i2: int| 0 <= i1 < i2 < r@.len() ==> r@[i1] < r@[i2],
{
    let n = passes.len();
    let mut reached: Vec<bool> = Vec::new();
    while reached.len() < n
        invariant
            reached@.len() <= n,
            forall|i: int| 0 <= i < reached@.len() ==> !(#[trigger] reached@[i]),
        decreases n - reached@.len(),
    {
        reached.push(false);
    }
    // Seed with the direct dependencies of `pass`.
    let mut j: usize = 0;
    while j < n
        invariant
            n == passes@.len(),
            reached@.len() == n,
            j <= n,
            forall|i: int|
                0 <= i < n && reached@[i] ==> transitively_depends(passes@, *pass, i),
            forall|i: int| 0 <= i < j ==> (depends_on(*pass, #[trigger] passes@[i]) ==> reached@[i]),
        decreases n - j,
    {
        if pass_depends_on(pass, &passes[j]) {
            proof {
                assert(reaches(passes@, *pass, j as int, 0));
            }
            reached[j] = true;
        }
        j = j + 1;
    }
    // Saturate: keep adding the dependencies of reached passes until the
    // reached set is closed.
    let mut changed = true;
    while changed
        invariant
            n == passes@.len(),
            reached@.len() == n,
            forall|i: int|
                0 <= i < n && reached@[i] ==> transitively_depends(passes@, *pass, i),
            forall|i: int| 0 <= i < n ==> (depends_on(*pass, #[trigger] passes@[i]) ==> reached@[i]),
            !changed ==> dep_closed(passes@, reached@),
        decreases count_unmarked(reached@), (if changed {
            1int
        } else {
            0int
        }),
    {
        changed = false;
        let ghost pass_start = reached@;
        let mut m: usize = 0;
        while m < n
            invariant
                n == passes@.len(),
                reached@.len() == n,
                m <= n,
                forall|i: int|
                    0 <= i < n && reached@[i] ==> transitively_depends(passes@, *pass, i),
                forall|i: int|
                    0 <= i < n ==> (depends_on(*pass, #[trigger] passes@[i]) ==> reached@[i]),
                forall|i: int| 0 <= i < n && pass_start[i] ==> reached@[i],
                count_unmarked(reached@) <= count_unmarked(pass_start),
                changed ==> count_unmarked(reached@) < count_unmarked(pass_start),
                !changed ==> forall|mm: int, ii: int| #![trigger reached@[mm], reached@[ii]]
                    0 <= mm < m && 0 <= ii < n && reached@[mm] && depends_on(
                        passes@[mm],
                        passes@[ii],
                    ) ==> reached@[ii],
            decreases n - m,
        {
            let marked = reached[m];
            if marked {
                let mut j2: usize = 0;
                while j2 < n
                    invariant
                        n == passes@.len(),
                        reached@.len() == n,
                        m < n,
                        j2 <= n,
                        reached@[m as int],
                        forall|i: int|
                            0 <= i < n && reached@[i] ==> transitively_depends(
                                passes@,
                                *pass,
                                i,
                            ),
                        forall|i: int|
                            0 <= i < n ==> (depends_on(*pass, #[trigger] passes@[i])
                                ==> reached@[i]),
                        forall|i: int| 0 <= i < n && pass_start[i] ==> reached@[i],
                        count_unmarked(reached@) <= count_unmarked(pass_start),
                        changed ==> count_unmarked(reached@) < count_unmarked(pass_start),
                        !changed ==> forall|mm: int, ii: int| #![trigger reached@[mm], reached@[ii]]
                            0 <= mm < m && 0 <= ii < n && reached@[mm] && depends_on(
                                passes@[mm],
                                passes@[ii],
                            ) ==> reached@[ii],
                        !changed ==> forall|ii: int|
                            0 <= ii < j2 && depends_on(passes@[m as int], #[trigger] passes@[ii])
                                ==> reached@[ii],
                    decreases n - j2,
                {
                    if pass_depends_on(&passes[m], &passes[j2]) {
                        let already = reached[j2];
                        if !already {
                            proof {
                                let f = choose|f: nat|
                                    reaches(passes@, *pass, m as int, f);
                                lemma_reaches_extend(passes@, *pass, m as int, j2 as int, f);
                                lemma_count_unmarked_update(reached@, j2 as int);
                            }
                            reached[j2] = true;
                            changed = true;
                        }
                    }
                    j2 = j2 + 1;
                }
            }
            m = m + 1;
        }
    }
    // The reached set is now closed under dependencies, so it contains
    // exactly the transitive dependencies; collect it in ascending order.
    proof {
        assert forall|i: int|
            0 <= i < n && transitively_depends(passes@, *pass, i) implies reached@[i] by {
            let f = choose|f: nat| reaches(passes@, *pass, i, f);
            if 0 <= i < n && depends_on(*pass, passes@[i]) {
            } else {
                let m = choose|m: int|
                    0 <= m < passes@.len() && depends_on(*pass, #[trigger] passes@[m]) && reaches(
                        passes@,
                        passes@[m],
                        i,
                        (f - 1) as nat,
                    );
                lemma_closed_contains_reachable(passes@, reached@, m, i, (f - 1) as nat);
            }
        }
    }
    let mut out: Vec<usize> = Vec::new();
    let mut i: usize = 0;
    while i < n
        invariant
            n == passes@.len(),
            reached@.len() == n,
            i <= n,
            forall|t: int| 0 <= t < out@.len() ==> (#[trigger] out@[t] as int) < i,
            forall|t1: int, t2: int| 0 <= t1 < t2 < out@.len() ==> out@[t1] < out@[t2],
            forall|jj: int| 0 <= jj < i ==> (out@.contains(jj as usize) <==> reached@[jj]),
            forall|jj: int|
                0 <= jj < n ==> (reached@[jj] <==> transitively_depends(passes@, *pass, jj)),
        decreases n - i,
    {
        let marked = reached[i];
        let ghost out_before = out@;
        if marked {
            out.push(i);
        }
        proof {
            assert forall|jj: int| 0 <= jj < i + 1 implies (out@.contains(jj as usize)
                <==> reached@[jj]) by {
                if jj < i {
                    if out_before.contains(jj as usize) {
                        let t = choose|t: int|
                            0 <= t < out_before.len() && out_before[t] == jj as usize;
                        assert(out@[t] == jj as usize);
                    }
                    if out@.contains(jj as usize) {
                        let t = choose|t: int| 0 <= t < out@.len() && out@[t] == jj as usize;
                        if t < out_before.len() {
                            assert(out_before[t] == jj as usize);
                        }
                    }
                } else {
                    if marked {
                        assert(out@[out@.len() - 1] == jj as usize);
                    } else {
                        if out@.contains(jj as usize) {
                            let t = choose|t: int| 0 <= t < out@.len() && out@[t] == jj as usize;
                        }
                    }
                }
            }
        }
        i = i + 1;
    }
    proof {
        assert(i == n);
        assert(forall|jj: int|
            0 <= jj < i ==> ((#[trigger] out@.contains(jj as usize)) <==> reached@[jj]));
        assert(forall|jj: int|
            0 <= jj < n ==> (reached@[jj] <==> transitively_depends(passes@, *pass, jj)));
        assert(forall|jj: int|
            0 <= jj < n ==> ((#[trigger] out@.contains(jj as usize)) <==> transitively_depends(
                passes@,
                *pass,
                jj,
            )));
    }
    out
}

} // verus!
