//! The seam-allowance walk over a contour, as plain-value logic.
//!
//! The margin builder offsets every segment of a closed contour and then
//! walks the offset list, resolving each adjacent pair: coincident endpoints
//! need nothing, two lines are welded at their intersection, and a pair
//! involving a curve gets one or two skip-flagged bridge segments inserted
//! immediately after the current entry, shifting the positions that follow.
//! The offsets and welds themselves are real-valued geometry and live with
//! the drafting layer; the decisions of the walk — which action each pair
//! gets, where bridges go, how positions shift, how the list wraps — are
//! plain values and are verified here.  The drafting layer runs the loop,
//! performs each action on its geometry, and hands back the one geometric
//! fact a decision needs: whether the pair's endpoints already coincide.

use vstd::prelude::*;

verus! {

/// What kind of segment an entry of the offset list holds.
#[derive(Clone, Copy, Debug, PartialEq, Eq, Structural)]
pub enum SegTag {
    Line,
    Curve,
}

/// One entry of the offset list: its segment kind, and whether the walk
/// must not join it to its successor (an exempted source segment, or an
/// inserted bridge).
#[derive(Clone, Copy, Debug, PartialEq, Eq, Structural)]
pub struct PlanEntry {
    pub tag: SegTag,
    pub skips_join: bool,
}

/// How one adjacent pair of the offset list is resolved.
#[derive(Clone, Copy, Debug, PartialEq, Eq, Structural)]
pub enum JoinAction {
    /// The endpoints already coincide: nothing to do.
    AlreadyMet,
    /// Line meets line: both are extended to their intersection.
    WeldLineLine,
    /// A line meets a curve (either order): one bridge segment is inserted
    /// after the current entry.
    BridgeAfter,
    /// Curve meets curve: two mutually joined bridge segments are inserted
    /// after the current entry.
    DoubleBridgeAfter,
}

/// How many bridge entries an action inserts.
pub open spec fn bridges_of(a: JoinAction) -> int {
    match a {
        JoinAction::AlreadyMet => 0,
        JoinAction::WeldLineLine => 0,
        JoinAction::BridgeAfter => 1,
        JoinAction::DoubleBridgeAfter => 2,
    }
}

/// An inserted bridge entry: always a line, always exempt from joining.
pub open spec fn bridge_entry() -> PlanEntry {
    PlanEntry { tag: SegTag::Line, skips_join: true }
}

/// The action the walk takes for a pair, as a function of the two segment
/// kinds and whether their endpoints already coincide.
pub open spec fn spec_join_decision(cur: SegTag, next: SegTag, coincident: bool) -> JoinAction {
    if coincident {
        JoinAction::AlreadyMet
    } else if cur is Line && next is Line {
        JoinAction::WeldLineLine
    } else if cur is Curve && next is Curve {
        JoinAction::DoubleBridgeAfter
    } else {
        JoinAction::BridgeAfter
    }
}

/// The decision between entry i and its cyclic successor, given both tags
/// and whether their endpoints already coincide (the one geometric fact,
/// handed in by the caller).
pub fn join_decision(cur: SegTag, next: SegTag, coincident: bool) -> (r: JoinAction)
    ensures
        r == spec_join_decision(cur, next, coincident),
        coincident <==> r is AlreadyMet,
        (!coincident && cur is Line && next is Line) <==> r is WeldLineLine,
        (!coincident && ((cur is Line && next is Curve) || (cur is Curve && next is Line)))
            <==> r is BridgeAfter,
        (!coincident && cur is Curve && next is Curve) <==> r is DoubleBridgeAfter,
{
    if coincident {
        JoinAction::AlreadyMet
    } else {
        match (cur, next) {
            (SegTag::Line, SegTag::Line) => JoinAction::WeldLineLine,
            (SegTag::Curve, SegTag::Curve) => JoinAction::DoubleBridgeAfter,
            _ => JoinAction::BridgeAfter,
        }
    }
}

/// Apply one decision to the offset list: insert 0, 1 or 2 bridge entries
/// immediately after position i, and return the position of the next entry
/// to consider (the inserted bridges are exempt from joining, so the walk
/// passes over them).
pub fn apply_decision(plan: &mut Vec<PlanEntry>, i: usize, a: JoinAction) -> (next: usize)
    requires
        i < old(plan).len(),
    ensures
        final(plan)@.len() == old(plan)@.len() + bridges_of(a),
        forall|j: int| 0 <= j <= i ==> final(plan)@[j] == old(plan)@[j],
        forall|j: int| 0 <= j < bridges_of(a) ==> #[trigger] final(plan)@[i + 1 + j] == bridge_entry(),
        forall|j: int| i < j < old(plan)@.len() ==> final(plan)@[j + bridges_of(a)] == old(
            plan,
        )@[j],
        next == i + 1 + bridges_of(a),
{
    match a {
        JoinAction::AlreadyMet => i + 1,
        JoinAction::WeldLineLine => i + 1,
        JoinAction::BridgeAfter => {
            plan.insert(i + 1, PlanEntry { tag: SegTag::Line, skips_join: true });
            let n = plan.len();
            proof {
                assert(i + 2 <= n);
            }
            i + 2
        },
        JoinAction::DoubleBridgeAfter => {
            plan.insert(i + 1, PlanEntry { tag: SegTag::Line, skips_join: true });
            let n = plan.len();
            proof {
                assert(i + 2 <= n);
            }
            plan.insert(i + 2, PlanEntry { tag: SegTag::Line, skips_join: true });
            let n2 = plan.len();
            proof {
                assert(i + 3 <= n2);
            }
            i + 3
        },
    }
}

/// The cyclic successor of position k in a list of length n.
pub open spec fn succ_of(k: int, n: int) -> int {
    if k == n - 1 {
        0
    } else {
        k + 1
    }
}

/// Source entry k as it first stands in the offset list.
pub open spec fn source_entry(tags: Seq<SegTag>, skips: Seq<bool>, k: int) -> PlanEntry {
    PlanEntry { tag: tags[k], skips_join: skips[k] }
}

/// How many bridges the walk inserts after source entry k: none when the
/// entry is exempt, else as many as its decision inserts.
pub open spec fn bridge_count(
    tags: Seq<SegTag>,
    skips: Seq<bool>,
    events: Seq<bool>,
    k: int,
) -> int {
    if skips[k] {
        0
    } else {
        bridges_of(
            spec_join_decision(tags[k], tags[succ_of(k, tags.len() as int)], events[k]),
        )
    }
}

/// The block that source entry k contributes to the finished list: the
/// entry itself, followed by its inserted bridges.
pub open spec fn block_of(
    tags: Seq<SegTag>,
    skips: Seq<bool>,
    events: Seq<bool>,
    k: int,
) -> Seq<PlanEntry> {
    seq![source_entry(tags, skips, k)] + Seq::new(
        bridge_count(tags, skips, events, k) as nat,
        |x: int| bridge_entry(),
    )
}

/// The finished list restricted to the first k source entries.
pub open spec fn plan_prefix(
    tags: Seq<SegTag>,
    skips: Seq<bool>,
    events: Seq<bool>,
    k: int,
) -> Seq<PlanEntry>
    decreases k,
{
    if k <= 0 {
        Seq::empty()
    } else {
        plan_prefix(tags, skips, events, k - 1) + block_of(tags, skips, events, k - 1)
    }
}

/// The position at which source entry k stands in the finished list, after
/// the insertions for entries before it have shifted it.
pub open spec fn block_start(tags: Seq<SegTag>, skips: Seq<bool>, events: Seq<bool>, k: int) -> int {
    plan_prefix(tags, skips, events, k).len() as int
}

/// The finished offset list after the walk: every source entry in order,
/// each followed by the bridges its decision inserted.
pub open spec fn plan_of(tags: Seq<SegTag>, skips: Seq<bool>, events: Seq<bool>) -> Seq<
    PlanEntry,
> {
    plan_prefix(tags, skips, events, tags.len() as int)
}

/// The source entries k, k+1, ... as they stand before the walk reaches them.
pub open spec fn tail_entries(tags: Seq<SegTag>, skips: Seq<bool>, k: int) -> Seq<PlanEntry> {
    Seq::new((tags.len() - k) as nat, |x: int| source_entry(tags, skips, k + x))
}

/// Run the whole walk over plain values: one entry per source segment with
/// its exempt flag, and for each non-exempt entry the reported coincidence
/// of its pair.  Returns the finished list, pinned entry by entry.
pub fn generate_margin_plan(tags: &Vec<SegTag>, skips: &Vec<bool>, coincident: &Vec<bool>) -> (plan:
    Vec<PlanEntry>)
    requires
        skips@.len() == tags@.len(),
        coincident@.len() == tags@.len(),
    ensures
        plan@ == plan_of(tags@, skips@, coincident@),
{
    let n = tags.len();
    let mut plan: Vec<PlanEntry> = Vec::new();
    let mut j: usize = 0;
    while j < n
        invariant
            tags@.len() == n,
            skips@.len() == n,
            j <= n,
            plan@.len() == j,
            forall|m: int| 0 <= m < j ==> plan@[m] == source_entry(tags@, skips@, m),
        decreases n - j,
    {
        plan.push(PlanEntry { tag: tags[j], skips_join: skips[j] });
        j = j + 1;
    }
    proof {
        assert(plan@ =~= tail_entries(tags@, skips@, 0));
        assert(plan_prefix(tags@, skips@, coincident@, 0) =~= Seq::<PlanEntry>::empty());
        assert(plan@ =~= plan_prefix(tags@, skips@, coincident@, 0) + tail_entries(
            tags@,
            skips@,
            0,
        ));
    }
    let mut i: usize = 0;
    let mut k: usize = 0;
    while k < n
        invariant
            tags@.len() == n,
            skips@.len() == n,
            coincident@.len() == n,
            k <= n,
            i == block_start(tags@, skips@, coincident@, k as int),
            plan@.len() == i + (n - k),
            plan@ == plan_prefix(tags@, skips@, coincident@, k as int) + tail_entries(
                tags@,
                skips@,
                k as int,
            ),
        decreases n - k,
    {
        let ghost t = tags@;
        let ghost s = skips@;
        let ghost e = coincident@;
        let ghost k0 = k as int;
        proof {
            assert(tail_entries(t, s, k0) =~= seq![source_entry(t, s, k0)] + tail_entries(
                t,
                s,
                k0 + 1,
            ));
        }
        if skips[k] {
            // exempt: the walk moves on without a decision and inserts nothing
            let pl = plan.len();
            proof {
                assert(i < pl);
                assert(bridge_count(t, s, e, k0) == 0);
                assert(block_of(t, s, e, k0) =~= seq![source_entry(t, s, k0)]);
                assert(plan@ =~= plan_prefix(t, s, e, k0 + 1) + tail_entries(t, s, k0 + 1));
            }
            i = i + 1;
        } else {
            let nk = if k == n - 1 {
                0
            } else {
                k + 1
            };
            let a = join_decision(tags[k], tags[nk], coincident[k]);
            proof {
                assert(bridges_of(a) == bridge_count(t, s, e, k0));
            }
            let ghost i0 = i as int;
            i = apply_decision(&mut plan, i, a);
            proof {
                let prefix = plan_prefix(t, s, e, k0);
                let target = plan_prefix(t, s, e, k0 + 1) + tail_entries(t, s, k0 + 1);
                let b = bridges_of(a);
                assert forall|idx: int| 0 <= idx < plan@.len() implies plan@[idx] == target[idx] by {
                    if idx <= i0 {
                        assert(plan@[idx] == (prefix + tail_entries(t, s, k0))[idx]);
                    } else if idx < i0 + 1 + b {
                        let jj = idx - i0 - 1;
                        assert(plan@[i0 + 1 + jj] == bridge_entry());
                        assert(block_of(t, s, e, k0)[idx - i0] == bridge_entry());
                    } else {
                        let jj = idx - b;
                        assert(plan@[jj + b] == (prefix + tail_entries(t, s, k0))[jj]);
                    }
                }
                assert(plan@ =~= target);
            }
        }
        k = k + 1;
    }
    proof {
        assert(tail_entries(tags@, skips@, n as int) =~= Seq::<PlanEntry>::empty());
        assert(plan@ =~= plan_of(tags@, skips@, coincident@));
    }
    plan
}

/// Entries already placed keep their positions as later blocks are appended.
proof fn lemma_prefix_grows(
    tags: Seq<SegTag>,
    skips: Seq<bool>,
    events: Seq<bool>,
    k1: int,
    k2: int,
)
    requires
        0 <= k1 <= k2,
    ensures
        plan_prefix(tags, skips, events, k1).len() <= plan_prefix(tags, skips, events, k2).len(),
        forall|idx: int|
            0 <= idx < plan_prefix(tags, skips, events, k1).len() ==> #[trigger] plan_prefix(
                tags,
                skips,
                events,
                k2,
            )[idx] == plan_prefix(tags, skips, events, k1)[idx],
    decreases k2 - k1,
{
    if k2 > k1 {
        lemma_prefix_grows(tags, skips, events, k1, k2 - 1);
        assert(plan_prefix(tags, skips, events, k2) == plan_prefix(tags, skips, events, k2 - 1)
            + block_of(tags, skips, events, k2 - 1));
    }
}

/// Every position of the finished list lies in the block of some source
/// entry: at the entry itself, or among the bridges inserted after it.
proof fn lemma_block_cover(
    tags: Seq<SegTag>,
    skips: Seq<bool>,
    events: Seq<bool>,
    kk: int,
    idx: int,
)
    requires
        0 <= kk,
        0 <= idx < plan_prefix(tags, skips, events, kk).len(),
    ensures
        exists|k: int|
            0 <= k < kk && #[trigger] block_start(tags, skips, events, k) <= idx && idx
                < block_start(tags, skips, events, k) + 1 + bridge_count(tags, skips, events, k),
    decreases kk,
{
    if kk > 0 {
        if idx < plan_prefix(tags, skips, events, kk - 1).len() {
            lemma_block_cover(tags, skips, events, kk - 1, idx);
            let k = choose|k: int|
                0 <= k < kk - 1 && #[trigger] block_start(tags, skips, events, k) <= idx && idx
                    < block_start(tags, skips, events, k) + 1 + bridge_count(
                    tags,
                    skips,
                    events,
                    k,
                );
            assert(0 <= k < kk && block_start(tags, skips, events, k) <= idx && idx < block_start(
                tags,
                skips,
                events,
                k,
            ) + 1 + bridge_count(tags, skips, events, k));
        } else {
            assert(plan_prefix(tags, skips, events, kk) == plan_prefix(tags, skips, events, kk - 1)
                + block_of(tags, skips, events, kk - 1));
            assert(block_of(tags, skips, events, kk - 1).len() == 1 + bridge_count(
                tags,
                skips,
                events,
                kk - 1,
            ));
            assert(block_start(tags, skips, events, kk - 1) <= idx && idx < block_start(
                tags,
                skips,
                events,
                kk - 1,
            ) + 1 + bridge_count(tags, skips, events, kk - 1));
        }
    }
}

/// The finished list, structurally: every source entry stands in order at
/// its shifted position, with its own tag and exempt flag; what the walk
/// inserts after it are lines flagged to skip joining; and an entry skips
/// joining only where its source segment was exempted or it is an inserted
/// bridge.
#[verifier::rlimit(60)]
pub proof fn lemma_plan_structure(tags: Seq<SegTag>, skips: Seq<bool>, events: Seq<bool>)
    requires
        skips.len() == tags.len(),
        events.len() == tags.len(),
    ensures
        plan_of(tags, skips, events).len() == block_start(
            tags,
            skips,
            events,
            tags.len() as int,
        ),
        forall|k: int|
            0 <= k < tags.len() ==> plan_of(tags, skips, events)[#[trigger] block_start(
                tags,
                skips,
                events,
                k,
            )] == source_entry(tags, skips, k),
        forall|k: int, j: int|
            0 <= k < tags.len() && 0 <= j < bridge_count(tags, skips, events, k)
                ==> #[trigger] plan_of(tags, skips, events)[block_start(tags, skips, events, k) + 1
                + j] == bridge_entry(),
        forall|idx: int|
            0 <= idx < plan_of(tags, skips, events).len() && #[trigger] plan_of(
                tags,
                skips,
                events,
            )[idx].skips_join ==> plan_of(tags, skips, events)[idx] == bridge_entry()
                || exists|k: int|
                0 <= k < tags.len() && idx == #[trigger] block_start(tags, skips, events, k)
                    && skips[k],
{
    let n = tags.len() as int;
    assert forall|k: int| 0 <= k < n implies plan_of(tags, skips, events)[block_start(
        tags,
        skips,
        events,
        k,
    )] == source_entry(tags, skips, k) by {
        assert(plan_prefix(tags, skips, events, k + 1) == plan_prefix(tags, skips, events, k)
            + block_of(tags, skips, events, k));
        assert(block_of(tags, skips, events, k)[0] == source_entry(tags, skips, k));
        lemma_prefix_grows(tags, skips, events, k + 1, n);
    }
    assert forall|k: int, j: int|
        #![trigger plan_of(tags, skips, events)[block_start(tags, skips, events, k) + 1 + j]]
        0 <= k < n && 0 <= j < bridge_count(tags, skips, events, k) implies plan_of(
        tags,
        skips,
        events,
    )[block_start(tags, skips, events, k) + 1 + j] == bridge_entry() by {
        assert(plan_prefix(tags, skips, events, k + 1) == plan_prefix(tags, skips, events, k)
            + block_of(tags, skips, events, k));
        assert(block_of(tags, skips, events, k)[1 + j] == bridge_entry());
        lemma_prefix_grows(tags, skips, events, k + 1, n);
    }
    assert forall|idx: int|
        0 <= idx < plan_of(tags, skips, events).len() && plan_of(tags, skips, events)[idx].skips_join
        implies plan_of(tags, skips, events)[idx] == bridge_entry() || exists|k: int|
        0 <= k < tags.len() && idx == #[trigger] block_start(tags, skips, events, k)
            && skips[k] by {
        lemma_block_cover(tags, skips, events, n, idx);
        let k = choose|k: int|
            0 <= k < n && #[trigger] block_start(tags, skips, events, k) <= idx && idx
                < block_start(tags, skips, events, k) + 1 + bridge_count(tags, skips, events, k);
        if idx == block_start(tags, skips, events, k) {
            assert(plan_of(tags, skips, events)[idx] == source_entry(tags, skips, k));
            assert(skips[k]);
        } else {
            let j = idx - block_start(tags, skips, events, k) - 1;
            assert(plan_of(tags, skips, events)[block_start(tags, skips, events, k) + 1 + j]
                == bridge_entry());
        }
    }
}

} // verus!
