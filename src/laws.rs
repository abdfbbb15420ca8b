//! Properties of the engine that hold across its steps.
use vstd::prelude::*;
use crate::coins::CoinView;
use crate::engine::{
    backend_of, fetch_spec, has_backend, observe_spec, refreshed, fetch_outcome, finalized, in_filter, latest, monitored, notified, paid_by, paid_ids,
    position_of, report_pays, settles, without, ReportView, RouteView,
};
use crate::ledger::{
    addresses_distinct, amount_of_text, ledger_wf, tracks, CoinKind, RecordView, SnapshotView,
    TradeStatus,
};
use crate::policy::{is_paid, report_depth, ChainReport};

verus! {

/// In a well-formed ledger no two live trades share a deposit address; every
/// step of the engine keeps the ledger well-formed (see the `wf` clauses of
/// its methods), so this holds after any sequence of cycles. Notification,
/// a monitor pass and a release keep the ledger well-formed too.
pub proof fn live_addresses_unique(
    l: Seq<RecordView>,
    ps: Seq<ReportView>,
    id: Seq<char>,
    delivered: bool,
    released: bool,
)
    requires
        ledger_wf(l),
    ensures
        addresses_distinct(l),
        ledger_wf(notified(l, id, delivered)),
        ledger_wf(monitored(l, ps)),
        ledger_wf(finalized(l, id, released)),
{
    let n = notified(l, id, delivered);
    assert forall|a: int, b: int| 0 <= a < n.len() && 0 <= b < n.len() && a != b implies n[a].id
        != n[b].id && n[a].address != n[b].address && (n[a].coin == n[b].coin ==> n[a].index
        != n[b].index) by {}
    let m = monitored(l, ps);
    assert forall|a: int, b: int| 0 <= a < m.len() && 0 <= b < m.len() && a != b implies m[a].id
        != m[b].id && m[a].address != m[b].address && (m[a].coin == m[b].coin ==> m[a].index
        != m[b].index) by {}
    lemma_without_wf(l, id);
}

proof fn lemma_without_wf(l: Seq<RecordView>, id: Seq<char>)
    requires
        ledger_wf(l),
    ensures
        ledger_wf(without(l, id)),
        !tracks(without(l, id), id),
        forall|x: Seq<char>| tracks(without(l, id), x) ==> tracks(l, x),
{
    if tracks(l, id) {
        let i = position_of(l, id);
        let m = l.remove(i);
        assert forall|a: int, b: int| 0 <= a < m.len() && 0 <= b < m.len() && a != b implies m[a].id
            != m[b].id && m[a].address != m[b].address && (m[a].coin == m[b].coin ==> m[a].index
            != m[b].index) by {
            let a1 = if a < i { a } else { a + 1 };
            let b1 = if b < i { b } else { b + 1 };
            assert(m[a] == l[a1] && m[b] == l[b1]);
        }
        assert forall|k: int| 0 <= k < m.len() implies crate::ledger::record_wf(#[trigger] m[k]) by {
            let k1 = if k < i { k } else { k + 1 };
            assert(m[k] == l[k1]);
        }
        assert forall|x: Seq<char>| tracks(m, x) implies tracks(l, x) by {
            let k = choose|k: int| 0 <= k < m.len() && m[k].id == x;
            let k1 = if k < i { k } else { k + 1 };
            assert(m[k] == l[k1]);
        }
        if tracks(m, id) {
            let k = choose|k: int| 0 <= k < m.len() && m[k].id == id;
            let k1 = if k < i { k } else { k + 1 };
            assert(m[k] == l[k1]);
            assert(l[k1].id != l[i].id);
        }
    }
}

/// Once a trade's escrow release has settled it, the trade is gone from the
/// ledger, and no monitor pass, notification or further release can settle
/// it again: only a later listing that shows the trade anew could bring it
/// back.
pub proof fn finalize_at_most_once(
    l: Seq<RecordView>,
    id: Seq<char>,
    ps: Seq<ReportView>,
    other: Seq<char>,
    delivered: bool,
    released: bool,
)
    requires
        ledger_wf(l),
        settles(l, id, true),
    ensures
        !tracks(finalized(l, id, true), id),
        !settles(finalized(l, id, true), id, released),
        !settles(monitored(finalized(l, id, true), ps), id, released),
        !settles(notified(finalized(l, id, true), other, delivered), id, released),
{
    lemma_without_wf(l, id);
    let l1 = finalized(l, id, true);
    let m = monitored(l1, ps);
    if tracks(m, id) {
        let k = choose|k: int| 0 <= k < m.len() && m[k].id == id;
        assert(l1[k].id == id);
    }
    let n = notified(l1, other, delivered);
    if tracks(n, id) {
        let k = choose|k: int| 0 <= k < n.len() && n[k].id == id;
        assert(l1[k].id == id);
    }
}

/// A trade whose reports all show less than the expected amount confirmed
/// is not verified by a monitor pass, whatever their confirmation depth, and
/// so no release that follows it settles the trade.
pub proof fn underpaid_never_finalized(
    l: Seq<RecordView>,
    ps: Seq<ReportView>,
    i: int,
    expected: u64,
    released: bool,
)
    requires
        ledger_wf(l),
        0 <= i < l.len(),
        l[i].status != TradeStatus::Verified,
        amount_of_text(l[i].data.amount) == Some(expected),
        forall|k: int|
            0 <= k < ps.len() && ps[k].id == l[i].id && #[trigger] ps[k].report is Some
                ==> ps[k].report.unwrap().confirmed < expected,
    ensures
        !paid_by(l[i], ps),
        !paid_ids(l, ps).contains(l[i].id),
        monitored(l, ps)[i].status != TradeStatus::Verified,
        !settles(monitored(l, ps), l[i].id, released),
{
    assert forall|k: int| 0 <= k < ps.len() implies !report_pays(#[trigger] ps[k], l[i]) by {
        if ps[k].id == l[i].id && ps[k].report is Some {
            assert(ps[k].report.unwrap().confirmed < expected);
        }
    }
    lemma_unpaid_unsettled(l, ps, i, released);
}

/// A trade whose reports all put the funding transaction at three
/// confirmations or fewer, or at more than six, is not verified by a monitor
/// pass even where the amount is there, and so no release that follows it
/// settles the trade.
pub proof fn outside_window_never_finalized(
    l: Seq<RecordView>,
    ps: Seq<ReportView>,
    i: int,
    released: bool,
)
    requires
        ledger_wf(l),
        0 <= i < l.len(),
        l[i].status != TradeStatus::Verified,
        forall|k: int|
            0 <= k < ps.len() && ps[k].id == l[i].id && #[trigger] ps[k].report is Some
                ==> match report_depth(ps[k].report.unwrap()) {
                Some(d) => d <= 3 || d > 6,
                None => true,
            },
    ensures
        !paid_by(l[i], ps),
        !paid_ids(l, ps).contains(l[i].id),
        monitored(l, ps)[i].status != TradeStatus::Verified,
        !settles(monitored(l, ps), l[i].id, released),
{
    assert forall|k: int| 0 <= k < ps.len() implies !report_pays(#[trigger] ps[k], l[i]) by {
        if ps[k].id == l[i].id && ps[k].report is Some {
            assert(match report_depth(ps[k].report.unwrap()) {
                Some(d) => d <= 3 || d > 6,
                None => true,
            });
        }
    }
    lemma_unpaid_unsettled(l, ps, i, released);
}

/// With the amount there, a report counts as payment exactly at four, five
/// or six confirmations.
pub proof fn paid_exactly_in_window(c: ChainReport, expected: u64)
    requires
        c.confirmed >= expected,
    ensures
        is_paid(c, expected) <==> (report_depth(c) matches Some(d) && 4 <= d <= 6),
{
}

proof fn lemma_unpaid_unsettled(l: Seq<RecordView>, ps: Seq<ReportView>, i: int, released: bool)
    requires
        ledger_wf(l),
        0 <= i < l.len(),
        l[i].status != TradeStatus::Verified,
        forall|k: int| 0 <= k < ps.len() ==> !report_pays(#[trigger] ps[k], l[i]),
    ensures
        !paid_by(l[i], ps),
        !paid_ids(l, ps).contains(l[i].id),
        monitored(l, ps)[i].status != TradeStatus::Verified,
        !settles(monitored(l, ps), l[i].id, released),
{
    let m = monitored(l, ps);
    assert(m[i] == l[i]);
    if settles(m, l[i].id, released) {
        let j = choose|j: int| 0 <= j < m.len() && m[j].id == l[i].id && m[j].status == TradeStatus::Verified;
        if j != i {
            assert(l[j].id != l[i].id);
        }
    }
    lemma_paid_ids_member(l, ps, l[i].id);
    if paid_ids(l, ps).contains(l[i].id) {
        let j = choose|j: int| 0 <= j < l.len() && l[j].id == l[i].id && paid_by(l[j], ps);
        if j != i {
            assert(l[j].id != l[i].id);
        }
    }
}

/// An id is among those a monitor pass finds paid exactly where a record
/// with that id is paid by the reports.
pub proof fn lemma_paid_ids_member(l: Seq<RecordView>, ps: Seq<ReportView>, id: Seq<char>)
    ensures
        paid_ids(l, ps).contains(id) <==> exists|j: int|
            0 <= j < l.len() && l[j].id == id && paid_by(l[j], ps),
    decreases l.len(),
{
    if l.len() > 0 {
        let t = l.drop_last();
        lemma_paid_ids_member(t, ps, id);
        let last_paid = paid_by(l.last(), ps);
        if last_paid {
            assert(paid_ids(l, ps) == paid_ids(t, ps) + seq![l.last().id]);
        } else {
            assert(paid_ids(l, ps) == paid_ids(t, ps));
        }
        if paid_ids(l, ps).contains(id) {
            let k = choose|k: int| 0 <= k < paid_ids(l, ps).len() && paid_ids(l, ps)[k] == id;
            if k < paid_ids(t, ps).len() {
                assert(paid_ids(t, ps)[k] == id);
                let j = choose|j: int| 0 <= j < t.len() && t[j].id == id && paid_by(t[j], ps);
                assert(l[j] == t[j]);
            } else {
                assert(l[l.len() - 1].id == id);
            }
        }
        if exists|j: int| 0 <= j < l.len() && l[j].id == id && paid_by(l[j], ps) {
            let j = choose|j: int| 0 <= j < l.len() && l[j].id == id && paid_by(l[j], ps);
            if j < l.len() - 1 {
                assert(t[j] == l[j]);
                let k = choose|k: int| 0 <= k < paid_ids(t, ps).len() && paid_ids(t, ps)[k] == id;
                assert(paid_ids(l, ps)[k] == id);
            } else {
                assert(paid_ids(l, ps)[paid_ids(t, ps).len() as int] == id);
            }
        }
    }
}

/// A trade that the ledger already tracked is never taken on again by a
/// pass over the listing: it is not among the new trades, and its deposit
/// address, derivation index and status stay as they were.
pub proof fn reobserved_not_new(
    l0: Seq<RecordView>,
    routes: Seq<RouteView>,
    snaps: Seq<SnapshotView>,
    l1: Seq<RecordView>,
    new_ids: Seq<Seq<char>>,
    i: int,
)
    requires
        fetch_outcome(l0, routes, snaps, l1, new_ids),
        0 <= i < l0.len(),
    ensures
        !new_ids.contains(l0[i].id),
        l1[i].address == l0[i].address,
        l1[i].index == l0[i].index,
        l1[i].status == l0[i].status,
        l1[i].notified == l0[i].notified,
{
    assert(l1[i] == crate::engine::latest_or(routes, snaps, l0[i]));
    if new_ids.contains(l0[i].id) {
        let j = choose|j: int| 0 <= j < new_ids.len() && new_ids[j] == l0[i].id;
        assert(l1[l0.len() + j].id == new_ids[j]);
        assert(!tracks(l0, l1[l0.len() + j].id));
    }
}

/// A trade that the listing only ever shows under advertisements outside the
/// filter gets no record from a pass over it.
pub proof fn filtered_out_never_recorded(
    l0: Seq<RecordView>,
    routes: Seq<RouteView>,
    snaps: Seq<SnapshotView>,
    l1: Seq<RecordView>,
    new_ids: Seq<Seq<char>>,
    id: Seq<char>,
)
    requires
        fetch_outcome(l0, routes, snaps, l1, new_ids),
        !tracks(l0, id),
        forall|k: int| 0 <= k < snaps.len() && (#[trigger] snaps[k]).id == id ==> !in_filter(
            routes,
            snaps[k].ad,
        ),
    ensures
        !tracks(l1, id),
        !new_ids.contains(id),
{
    lemma_latest_none(routes, snaps, id);
    if tracks(l1, id) {
        let k = choose|k: int| 0 <= k < l1.len() && l1[k].id == id;
        if k < l0.len() {
            assert(l1[k] == crate::engine::latest_or(routes, snaps, l0[k]));
            assert(l0[k].id == id);
        } else {
            let j = k - l0.len();
            assert(l1[l0.len() + j].id == id);
        }
    }
    if new_ids.contains(id) {
        let j = choose|j: int| 0 <= j < new_ids.len() && new_ids[j] == id;
        assert(l1[l0.len() + j].id == id);
    }
}

proof fn lemma_latest_none(routes: Seq<RouteView>, snaps: Seq<SnapshotView>, id: Seq<char>)
    requires
        forall|k: int| 0 <= k < snaps.len() && (#[trigger] snaps[k]).id == id ==> !in_filter(
            routes,
            snaps[k].ad,
        ),
    ensures
        latest(routes, snaps, id) is None,
    decreases snaps.len(),
{
    if snaps.len() > 0 {
        let t = snaps.drop_last();
        assert forall|k: int| 0 <= k < t.len() && (#[trigger] t[k]).id == id implies !in_filter(
            routes,
            t[k].ad,
        ) by {
            assert(t[k] == snaps[k]);
        }
        lemma_latest_none(routes, t, id);
        assert(snaps.last() == snaps[snaps.len() - 1]);
    }
}

/// Position of a status in the lifecycle.
pub open spec fn status_rank(s: TradeStatus) -> int {
    match s {
        TradeStatus::Discovered => 0,
        TradeStatus::AddressAssigned => 1,
        TradeStatus::Notified => 2,
        TradeStatus::Verified => 3,
        TradeStatus::Finalized => 4,
        TradeStatus::Failed => 5,
    }
}

/// A notification and a monitor pass move each record forward in its
/// lifecycle or leave it where it was, and keep its trade id and deposit
/// address; a pass over the listing changes no tracked record's status.
pub proof fn statuses_only_move_forward(
    l: Seq<RecordView>,
    ps: Seq<ReportView>,
    id: Seq<char>,
    delivered: bool,
    routes: Seq<RouteView>,
    snaps: Seq<SnapshotView>,
    l1: Seq<RecordView>,
    new_ids: Seq<Seq<char>>,
)
    requires
        fetch_outcome(l, routes, snaps, l1, new_ids),
    ensures
        forall|i: int|
            0 <= i < l.len() ==> {
                let n = #[trigger] notified(l, id, delivered)[i];
                status_rank(n.status) >= status_rank(l[i].status) && n.id == l[i].id && n.address
                    == l[i].address
            },
        forall|i: int|
            0 <= i < l.len() ==> {
                let m = #[trigger] monitored(l, ps)[i];
                status_rank(m.status) >= status_rank(l[i].status) && m.id == l[i].id && m.address
                    == l[i].address
            },
        forall|i: int| 0 <= i < l.len() ==> (#[trigger] l1[i]).status == l[i].status,
{
    assert forall|i: int| 0 <= i < l.len() implies (#[trigger] l1[i]).status == l[i].status by {
        assert(l1[i] == crate::engine::latest_or(routes, snaps, l[i]));
    }
    assert forall|i: int| 0 <= i < l.len() implies {
        let m = #[trigger] monitored(l, ps)[i];
        status_rank(m.status) >= status_rank(l[i].status) && m.id == l[i].id && m.address
            == l[i].address
    } by {
        if paid_by(l[i], ps) {
            assert(crate::ledger::is_monitored_status(l[i].status));
        }
    }
}

/// Number of the records of asset `k` at positions `start` and on.
pub open spec fn count_from(l: Seq<RecordView>, start: int, k: CoinKind) -> nat
    decreases l.len(),
{
    if l.len() == 0 || l.len() <= start {
        0
    } else {
        count_from(l.drop_last(), start, k) + if l.last().coin == k {
            1nat
        } else {
            0nat
        }
    }
}

proof fn lemma_count_refreshed(
    l: Seq<RecordView>,
    routes: Seq<RouteView>,
    s: SnapshotView,
    start: int,
    k: CoinKind,
)
    ensures
        refreshed(l, routes, s).len() == l.len(),
        count_from(refreshed(l, routes, s), start, k) == count_from(l, start, k),
    decreases l.len(),
{
    if l.len() > 0 && crate::engine::in_filter(routes, s.ad) {
        let t = l.drop_last();
        lemma_count_refreshed(t, routes, s, start, k);
        assert(refreshed(l, routes, s).drop_last() =~= refreshed(t, routes, s));
    }
}

/// One pass over a listing moves each backend's high-water mark by exactly
/// the number of trades of its asset that the pass took on: one allocation
/// per new trade, none for a trade already tracked or outside the filter.
/// The backend's key and network stay as they were.
pub proof fn marks_move_once_per_new_trade(
    l: Seq<RecordView>,
    cs: Seq<CoinView>,
    routes: Seq<RouteView>,
    snaps: Seq<SnapshotView>,
)
    requires
        forall|a: int, b: int|
            0 <= a < cs.len() && 0 <= b < cs.len() && a != b ==> cs[a].kind != cs[b].kind,
    ensures
        fetch_spec(l, cs, routes, snaps).0.len() == l.len() + fetch_spec(l, cs, routes, snaps).2.len(),
        fetch_spec(l, cs, routes, snaps).1.len() == cs.len(),
        forall|c: int|
            0 <= c < cs.len() ==> {
                let d = #[trigger] fetch_spec(l, cs, routes, snaps).1[c];
                &&& d.kind == cs[c].kind
                &&& d.key == cs[c].key
                &&& d.testnet == cs[c].testnet
                &&& d.mark == cs[c].mark + count_from(
                    fetch_spec(l, cs, routes, snaps).0,
                    l.len() as int,
                    cs[c].kind,
                )
            },
    decreases snaps.len(),
{
    if snaps.len() == 0 {
        assert forall|c: int| 0 <= c < cs.len() implies count_from(l, l.len() as int, cs[c].kind)
            == 0 by {}
    } else {
        let t = snaps.drop_last();
        marks_move_once_per_new_trade(l, cs, routes, t);
        let prev = fetch_spec(l, cs, routes, t);
        let s = snaps.last();
        let step = observe_spec(prev.0, prev.1, routes, s);
        assert(fetch_spec(l, cs, routes, snaps).0 == step.0);
        assert(fetch_spec(l, cs, routes, snaps).1 == step.1);
        match crate::engine::route_of(routes, s.ad) {
            None => {},
            Some(k) => {
                if crate::ledger::tracks(prev.0, s.id) {
                    assert forall|c: int| 0 <= c < cs.len() implies count_from(
                        step.0,
                        l.len() as int,
                        cs[c].kind,
                    ) == count_from(prev.0, l.len() as int, cs[c].kind) by {
                        lemma_count_refreshed(prev.0, routes, s, l.len() as int, cs[c].kind);
                    }
                } else if has_backend(prev.1, k) {
                    let b = backend_of(prev.1, k);
                    if step.2 {
                        assert(step.0.drop_last() == prev.0);
                        assert(step.0.last().coin == k);
                        assert forall|c: int| 0 <= c < cs.len() implies {
                            let d = #[trigger] step.1[c];
                            &&& d.kind == cs[c].kind
                            &&& d.key == cs[c].key
                            &&& d.testnet == cs[c].testnet
                            &&& d.mark == cs[c].mark + count_from(step.0, l.len() as int, cs[c].kind)
                        } by {
                            if c != b {
                                assert(prev.1[c].kind != prev.1[b].kind);
                            }
                        }
                    }
                }
            },
        }
    }
}

} // verus!
