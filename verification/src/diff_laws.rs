//! What holds of the difference between every two inventories.

use crate::diff::{
    ascending, has_ip, ip_set, is_diff, is_only_in, is_port_changes, is_port_difference,
    last_index_of, lemma_has_ip_at, lemma_last_index, ports_changed, reports,
};
use crate::models::{DiffResultView, DiffSummary, HostView, PortChangeView};
use crate::text::{lex_lt, lex_lt_asymmetric, lex_lt_irreflexive};
use vstd::prelude::*;

verus! {

/// The difference between a snapshot and itself is empty: no new host, no
/// missing host, no port change, and a summary of zeros. This holds of every
/// list of hosts, also of one in which an address occurs twice.
pub proof fn diff_of_same_snapshot(snapshot: Seq<HostView>, r: DiffResultView)
    requires
        is_diff(r, snapshot, snapshot),
    ensures
        r.new_hosts.len() == 0,
        r.missing_hosts.len() == 0,
        r.port_changes.len() == 0,
        r.banner_changes.len() == 0,
        r.tls_changes.len() == 0,
        r.summary_stats == (DiffSummary {
            total_new: 0,
            total_missing: 0,
            total_port_changes: 0,
            total_banner_changes: 0,
            total_tls_changes: 0,
        }),
{
    if r.new_hosts.len() > 0 {
        assert(has_ip(snapshot, r.new_hosts[0].ip));
    }
    if r.missing_hosts.len() > 0 {
        assert(has_ip(snapshot, r.missing_hosts[0].ip));
    }
    if r.port_changes.len() > 0 {
        assert(ports_changed(snapshot, snapshot, r.port_changes[0].ip));
    }
}

/// The keys are in strictly ascending order.
pub open spec fn keys_ascend(keys: Seq<Seq<char>>) -> bool {
    forall|i: int, j: int| 0 <= i < j < keys.len() ==> lex_lt(#[trigger] keys[i], #[trigger] keys[j])
}

proof fn lemma_first_keys_agree(x: Seq<Seq<char>>, y: Seq<Seq<char>>)
    requires
        keys_ascend(x),
        keys_ascend(y),
        forall|k: Seq<char>| x.contains(k) <==> y.contains(k),
        x.len() > 0,
    ensures
        y.len() > 0,
        x[0] == y[0],
{
    assert(x.contains(x[0]));
    assert(y.contains(x[0]));
    let j = choose|j: int| 0 <= j < y.len() && y[j] == x[0];
    assert(y.contains(y[0]));
    assert(x.contains(y[0]));
    let i = choose|i: int| 0 <= i < x.len() && x[i] == y[0];
    if x[0] != y[0] {
        assert(i > 0 && j > 0);
        assert(lex_lt(x[0], x[i]));
        assert(lex_lt(y[0], y[j]));
        lex_lt_asymmetric(x[0], y[0]);
    }
}

/// Two lists of keys in strictly ascending order that hold the same keys are
/// the same list.
pub proof fn lemma_ascending_keys_agree(x: Seq<Seq<char>>, y: Seq<Seq<char>>)
    requires
        keys_ascend(x),
        keys_ascend(y),
        forall|k: Seq<char>| x.contains(k) <==> y.contains(k),
    ensures
        x == y,
    decreases x.len(),
{
    if x.len() == 0 {
        if y.len() > 0 {
            assert(y.contains(y[0]));
        }
        assert(x =~= y);
    } else {
        lemma_first_keys_agree(x, y);
        let xs = x.drop_first();
        let ys = y.drop_first();
        assert forall|k: Seq<char>| xs.contains(k) <==> ys.contains(k) by {
            if xs.contains(k) {
                let i = choose|i: int| 0 <= i < xs.len() && xs[i] == k;
                assert(x[i + 1] == k);
                assert(x.contains(k));
                assert(lex_lt(x[0], x[i + 1]));
                lex_lt_irreflexive(k);
                let j = choose|j: int| 0 <= j < y.len() && y[j] == k;
                assert(j > 0);
                assert(ys[j - 1] == k);
            }
            if ys.contains(k) {
                let j = choose|j: int| 0 <= j < ys.len() && ys[j] == k;
                assert(y[j + 1] == k);
                assert(y.contains(k));
                assert(lex_lt(y[0], y[j + 1]));
                lex_lt_irreflexive(k);
                let i = choose|i: int| 0 <= i < x.len() && x[i] == k;
                assert(i > 0);
                assert(xs[i - 1] == k);
            }
        }
        assert forall|i: int, j: int| 0 <= i < j < xs.len() implies lex_lt(
            #[trigger] xs[i],
            #[trigger] xs[j],
        ) by {
            assert(lex_lt(x[i + 1], x[j + 1]));
        }
        assert forall|i: int, j: int| 0 <= i < j < ys.len() implies lex_lt(
            #[trigger] ys[i],
            #[trigger] ys[j],
        ) by {
            assert(lex_lt(y[i + 1], y[j + 1]));
        }
        lemma_ascending_keys_agree(xs, ys);
        assert(x =~= seq![x[0]] + xs);
        assert(y =~= seq![y[0]] + ys);
    }
}

/// Two lists of ports in strictly ascending order that hold the same ports
/// are the same list.
pub proof fn lemma_ascending_ports_agree(x: Seq<u16>, y: Seq<u16>)
    requires
        ascending(x),
        ascending(y),
        forall|p: u16| x.contains(p) <==> y.contains(p),
    ensures
        x == y,
    decreases x.len(),
{
    if x.len() == 0 {
        if y.len() > 0 {
            assert(y.contains(y[0]));
        }
        assert(x =~= y);
    } else {
        assert(x.contains(x[0]));
        let j0 = choose|j: int| 0 <= j < y.len() && y[j] == x[0];
        assert(y.contains(y[0]));
        let i0 = choose|i: int| 0 <= i < x.len() && x[i] == y[0];
        assert(x[0] == y[0]) by {
            if i0 > 0 && j0 > 0 {
                assert(x[0] < x[i0] && y[0] < y[j0]);
            }
        }
        let xs = x.drop_first();
        let ys = y.drop_first();
        assert forall|p: u16| xs.contains(p) <==> ys.contains(p) by {
            if xs.contains(p) {
                let i = choose|i: int| 0 <= i < xs.len() && xs[i] == p;
                assert(x[i + 1] == p && x[0] < x[i + 1]);
                assert(x.contains(p));
                let j = choose|j: int| 0 <= j < y.len() && y[j] == p;
                assert(ys[j - 1] == p);
            }
            if ys.contains(p) {
                let j = choose|j: int| 0 <= j < ys.len() && ys[j] == p;
                assert(y[j + 1] == p && y[0] < y[j + 1]);
                assert(y.contains(p));
                let i = choose|i: int| 0 <= i < x.len() && x[i] == p;
                assert(xs[i - 1] == p);
            }
        }
        assert forall|i: int, j: int| 0 <= i < j < xs.len() implies xs[i] < xs[j] by {
            assert(x[i + 1] < x[j + 1]);
        }
        assert forall|i: int, j: int| 0 <= i < j < ys.len() implies ys[i] < ys[j] by {
            assert(y[i + 1] < y[j + 1]);
        }
        lemma_ascending_ports_agree(xs, ys);
        assert(x =~= seq![x[0]] + xs);
        assert(y =~= seq![y[0]] + ys);
    }
}

/// The addresses of a list of hosts, in order.
pub open spec fn host_keys(hosts: Seq<HostView>) -> Seq<Seq<char>> {
    Seq::new(hosts.len(), |i: int| hosts[i].ip)
}

/// The addresses of a list of port changes, in order.
pub open spec fn change_keys(changes: Seq<PortChangeView>) -> Seq<Seq<char>> {
    Seq::new(changes.len(), |i: int| changes[i].ip)
}

proof fn lemma_host_keys(hosts: Seq<HostView>, ip: Seq<char>)
    ensures
        host_keys(hosts).contains(ip) <==> has_ip(hosts, ip),
{
    lemma_last_index(hosts, ip);
    if has_ip(hosts, ip) {
        assert(host_keys(hosts)[last_index_of(hosts, ip)] == ip);
    }
    if host_keys(hosts).contains(ip) {
        let i = choose|i: int| 0 <= i < host_keys(hosts).len() && host_keys(hosts)[i] == ip;
        assert(hosts[i].ip == ip);
        lemma_has_ip_at(hosts, i);
    }
}

proof fn lemma_change_keys(changes: Seq<PortChangeView>, ip: Seq<char>)
    ensures
        change_keys(changes).contains(ip) <==> reports(changes, ip),
{
    if reports(changes, ip) {
        let i = choose|i: int| 0 <= i < changes.len() && (#[trigger] changes[i]).ip == ip;
        assert(change_keys(changes)[i] == ip);
    }
    if change_keys(changes).contains(ip) {
        let i = choose|i: int| 0 <= i < change_keys(changes).len() && change_keys(changes)[i] == ip;
        assert(changes[i].ip == ip);
    }
}

/// Only one list is the list of the hosts that `of` has and `other` lacks.
pub proof fn lemma_only_in_is_unique(
    x: Seq<HostView>,
    y: Seq<HostView>,
    of: Seq<HostView>,
    other: Seq<HostView>,
)
    requires
        is_only_in(x, of, other),
        is_only_in(y, of, other),
    ensures
        x == y,
{
    let kx = host_keys(x);
    let ky = host_keys(y);
    assert forall|k: Seq<char>| kx.contains(k) <==> ky.contains(k) by {
        lemma_host_keys(x, k);
        lemma_host_keys(y, k);
        lemma_last_index(x, k);
        lemma_last_index(y, k);
        if has_ip(x, k) {
            assert(x[last_index_of(x, k)].ip == k);
        }
        if has_ip(y, k) {
            assert(y[last_index_of(y, k)].ip == k);
        }
    }
    assert forall|i: int, j: int| 0 <= i < j < kx.len() implies lex_lt(
        #[trigger] kx[i],
        #[trigger] kx[j],
    ) by {
        assert(lex_lt(x[i].ip, x[j].ip));
    }
    assert forall|i: int, j: int| 0 <= i < j < ky.len() implies lex_lt(
        #[trigger] ky[i],
        #[trigger] ky[j],
    ) by {
        assert(lex_lt(y[i].ip, y[j].ip));
    }
    lemma_ascending_keys_agree(kx, ky);
    assert(x.len() == y.len());
    assert forall|i: int| 0 <= i < x.len() implies x[i] == y[i] by {
        assert(kx[i] == ky[i]);
        assert(x[i].ip == y[i].ip);
    }
    assert(x =~= y);
}

/// Only one list is the list of the port changes between two inventories.
pub proof fn lemma_port_changes_are_unique(
    x: Seq<PortChangeView>,
    y: Seq<PortChangeView>,
    baseline: Seq<HostView>,
    current: Seq<HostView>,
)
    requires
        is_port_changes(x, baseline, current),
        is_port_changes(y, baseline, current),
    ensures
        x == y,
{
    let kx = change_keys(x);
    let ky = change_keys(y);
    assert forall|k: Seq<char>| kx.contains(k) <==> ky.contains(k) by {
        lemma_change_keys(x, k);
        lemma_change_keys(y, k);
        if reports(x, k) {
            let i = choose|i: int| 0 <= i < x.len() && (#[trigger] x[i]).ip == k;
            assert(ports_changed(baseline, current, k));
        }
        if reports(y, k) {
            let i = choose|i: int| 0 <= i < y.len() && (#[trigger] y[i]).ip == k;
            assert(ports_changed(baseline, current, k));
        }
    }
    assert forall|i: int, j: int| 0 <= i < j < kx.len() implies lex_lt(
        #[trigger] kx[i],
        #[trigger] kx[j],
    ) by {
        assert(lex_lt(x[i].ip, x[j].ip));
    }
    assert forall|i: int, j: int| 0 <= i < j < ky.len() implies lex_lt(
        #[trigger] ky[i],
        #[trigger] ky[j],
    ) by {
        assert(lex_lt(y[i].ip, y[j].ip));
    }
    lemma_ascending_keys_agree(kx, ky);
    assert(x.len() == y.len());
    assert forall|i: int| 0 <= i < x.len() implies x[i] == y[i] by {
        assert(kx[i] == ky[i]);
        assert(x[i].ip == y[i].ip);
        lemma_ascending_ports_agree(x[i].added_ports, y[i].added_ports);
        lemma_ascending_ports_agree(x[i].removed_ports, y[i].removed_ports);
    }
    assert(x =~= y);
}

/// Two inventories have one difference: whatever meets [`is_diff`] for them
/// is the same record.
pub proof fn diff_is_unique(
    baseline: Seq<HostView>,
    current: Seq<HostView>,
    first: DiffResultView,
    second: DiffResultView,
)
    requires
        is_diff(first, baseline, current),
        is_diff(second, baseline, current),
    ensures
        first == second,
{
    lemma_only_in_is_unique(first.new_hosts, second.new_hosts, current, baseline);
    lemma_only_in_is_unique(first.missing_hosts, second.missing_hosts, baseline, current);
    lemma_port_changes_are_unique(first.port_changes, second.port_changes, baseline, current);
    assert(first.banner_changes =~= second.banner_changes);
    assert(first.tls_changes =~= second.tls_changes);
}

/// The hosts that are new from `baseline` to `current` are the hosts that
/// are missing from `current` to `baseline`, and the other way round: the
/// same records in the same order, and so the same addresses.
pub proof fn diff_inversion(
    baseline: Seq<HostView>,
    current: Seq<HostView>,
    forward: DiffResultView,
    backward: DiffResultView,
)
    requires
        is_diff(forward, baseline, current),
        is_diff(backward, current, baseline),
    ensures
        forward.new_hosts == backward.missing_hosts,
        forward.missing_hosts == backward.new_hosts,
        ip_set(forward.new_hosts) == ip_set(backward.missing_hosts),
        ip_set(forward.missing_hosts) == ip_set(backward.new_hosts),
{
    lemma_only_in_is_unique(forward.new_hosts, backward.missing_hosts, current, baseline);
    lemma_only_in_is_unique(forward.missing_hosts, backward.new_hosts, baseline, current);
}

} // verus!
