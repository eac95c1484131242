//! Differences between two host inventories.
//!
//! An inventory is keyed by address. Where an address occurs more than once in
//! a list, the last record with that address is the one that counts. Every
//! output list is in ascending order of address, and every port list in
//! ascending order of port, so that equal inputs give equal outputs.

use crate::models::{
    host_views, port_change_views, BannerChange, Baseline, DiffResult, DiffResultView, DiffSummary,
    Host, HostView, PortChange, PortChangeView, TlsChange,
};
use crate::text::{lex_lt, lex_lt_transitive, rank, str_eq, Rank};
use vstd::prelude::*;

verus! {

/// The index of the last host of `hosts` with address `ip`, or -1.
pub open spec fn last_index_of(hosts: Seq<HostView>, ip: Seq<char>) -> int
    decreases hosts.len(),
{
    if hosts.len() == 0 {
        -1
    } else if hosts.last().ip == ip {
        hosts.len() - 1
    } else {
        last_index_of(hosts.drop_last(), ip)
    }
}

/// Some host of `hosts` has address `ip`.
pub open spec fn has_ip(hosts: Seq<HostView>, ip: Seq<char>) -> bool {
    last_index_of(hosts, ip) >= 0
}

/// The record that `hosts` holds for `ip`: the last one with that address.
pub open spec fn record_of(hosts: Seq<HostView>, ip: Seq<char>) -> HostView {
    hosts[last_index_of(hosts, ip)]
}

/// What [`last_index_of`] returns is an index of a host with that address,
/// after which no host has it; -1 means that no host has it.
pub proof fn lemma_last_index(hosts: Seq<HostView>, ip: Seq<char>)
    ensures
        -1 <= last_index_of(hosts, ip) < hosts.len(),
        last_index_of(hosts, ip) >= 0 ==> hosts[last_index_of(hosts, ip)].ip == ip,
        forall|j: int| last_index_of(hosts, ip) < j < hosts.len() ==> (#[trigger] hosts[j]).ip != ip,
    decreases hosts.len(),
{
    if hosts.len() > 0 && hosts.last().ip != ip {
        let front = hosts.drop_last();
        lemma_last_index(front, ip);
        assert forall|j: int| last_index_of(hosts, ip) < j < hosts.len() implies (
        #[trigger] hosts[j]).ip != ip by {
            if j < front.len() {
                assert(front[j] == hosts[j]);
            }
        }
    }
}

/// Every address that occurs in a list is one that the list has.
pub proof fn lemma_has_ip_at(hosts: Seq<HostView>, k: int)
    requires
        0 <= k < hosts.len(),
    ensures
        has_ip(hosts, hosts[k].ip),
{
    lemma_last_index(hosts, hosts[k].ip);
}

/// The hosts are in strictly ascending order of address.
pub open spec fn sorted_by_ip(hosts: Seq<HostView>) -> bool {
    forall|i: int, j: int|
        0 <= i < j < hosts.len() ==> lex_lt((#[trigger] hosts[i]).ip, (#[trigger] hosts[j]).ip)
}

/// `out` lists, in ascending order of address and once each, the record of
/// every address of `hosts`.
pub open spec fn is_snapshot(out: Seq<HostView>, hosts: Seq<HostView>) -> bool {
    &&& sorted_by_ip(out)
    &&& forall|i: int|
        0 <= i < out.len() ==> has_ip(hosts, (#[trigger] out[i]).ip) && out[i] == record_of(
            hosts,
            out[i].ip,
        )
    &&& forall|ip: Seq<char>| has_ip(hosts, ip) ==> has_ip(out, ip)
}

/// `out` lists, in ascending order of address and once each, the record in
/// `of` of every address that `of` has and `other` lacks.
pub open spec fn is_only_in(out: Seq<HostView>, of: Seq<HostView>, other: Seq<HostView>) -> bool {
    &&& sorted_by_ip(out)
    &&& forall|i: int|
        0 <= i < out.len() ==> {
            let ip = (#[trigger] out[i]).ip;
            &&& has_ip(of, ip)
            &&& !has_ip(other, ip)
            &&& out[i] == record_of(of, ip)
        }
    &&& forall|ip: Seq<char>| has_ip(of, ip) && !has_ip(other, ip) ==> has_ip(out, ip)
}

/// The ports are in strictly ascending order.
pub open spec fn ascending(ports: Seq<u16>) -> bool {
    forall|i: int, j: int| 0 <= i < j < ports.len() ==> ports[i] < ports[j]
}

/// `out` lists, in ascending order and once each, the ports that `a` has and
/// `b` lacks.
pub open spec fn is_port_difference(out: Seq<u16>, a: Seq<u16>, b: Seq<u16>) -> bool {
    &&& ascending(out)
    &&& forall|p: u16| out.contains(p) <==> (a.contains(p) && !b.contains(p))
}

/// The two port lists differ as sets.
pub open spec fn ports_differ(a: Seq<u16>, b: Seq<u16>) -> bool {
    exists|p: u16| a.contains(p) != b.contains(p)
}

/// Both inventories have `ip`, with different port sets.
pub open spec fn ports_changed(
    baseline: Seq<HostView>,
    current: Seq<HostView>,
    ip: Seq<char>,
) -> bool {
    &&& has_ip(baseline, ip)
    &&& has_ip(current, ip)
    &&& ports_differ(record_of(baseline, ip).ports, record_of(current, ip).ports)
}

/// `c` says what `ip` gained and lost from `old` to `new`.
pub open spec fn is_port_change(c: PortChangeView, old: HostView, new: HostView) -> bool {
    &&& c.ip == old.ip
    &&& is_port_difference(c.added_ports, new.ports, old.ports)
    &&& is_port_difference(c.removed_ports, old.ports, new.ports)
}

/// Some entry of `changes` is about `ip`.
pub open spec fn reports(changes: Seq<PortChangeView>, ip: Seq<char>) -> bool {
    exists|i: int| 0 <= i < changes.len() && (#[trigger] changes[i]).ip == ip
}

/// `out` lists, in ascending order of address and once each, the port change
/// of every address that both inventories have with different port sets.
pub open spec fn is_port_changes(
    out: Seq<PortChangeView>,
    baseline: Seq<HostView>,
    current: Seq<HostView>,
) -> bool {
    &&& forall|i: int, j: int|
        0 <= i < j < out.len() ==> lex_lt((#[trigger] out[i]).ip, (#[trigger] out[j]).ip)
    &&& forall|i: int|
        0 <= i < out.len() ==> {
            let ip = (#[trigger] out[i]).ip;
            &&& ports_changed(baseline, current, ip)
            &&& is_port_change(out[i], record_of(baseline, ip), record_of(current, ip))
        }
    &&& forall|ip: Seq<char>| ports_changed(baseline, current, ip) ==> reports(out, ip)
}

/// `r` is the difference between `baseline` and `current`.
pub open spec fn is_diff(r: DiffResultView, baseline: Seq<HostView>, current: Seq<HostView>) -> bool {
    &&& is_only_in(r.new_hosts, current, baseline)
    &&& is_only_in(r.missing_hosts, baseline, current)
    &&& is_port_changes(r.port_changes, baseline, current)
    &&& r.banner_changes.len() == 0
    &&& r.tls_changes.len() == 0
    &&& r.summary_stats.total_new == r.new_hosts.len()
    &&& r.summary_stats.total_missing == r.missing_hosts.len()
    &&& r.summary_stats.total_port_changes == r.port_changes.len()
    &&& r.summary_stats.total_banner_changes == 0
    &&& r.summary_stats.total_tls_changes == 0
}

/// The index of the record that `hosts` holds for `ip`.
fn find_record(hosts: &[Host], ip: &str) -> (r: Option<usize>)
    ensures
        match r {
            Some(k) => k < hosts@.len() && k as int == last_index_of(host_views(hosts@), ip@),
            None => last_index_of(host_views(hosts@), ip@) == -1,
        },
{
    let ghost views = host_views(hosts@);
    let mut k: usize = hosts.len();
    assert(views.take(k as int) =~= views);
    while k > 0
        invariant
            k <= hosts.len(),
            views == host_views(hosts@),
            last_index_of(views, ip@) == last_index_of(views.take(k as int), ip@),
        decreases k,
    {
        assert(views.take(k as int).last() == hosts@[k - 1]@);
        if str_eq(hosts[k - 1].ip.as_str(), ip) {
            return Some(k - 1);
        }
        assert(views.take(k as int).drop_last() =~= views.take(k - 1));
        k -= 1;
    }
    None
}

/// Inserting a host into a list inserts its view into the views.
proof fn lemma_views_insert(s: Seq<Host>, p: int, h: Host)
    requires
        0 <= p <= s.len(),
    ensures
        host_views(s.insert(p, h)) == host_views(s).insert(p, h@),
{
    assert(host_views(s.insert(p, h)) =~= host_views(s).insert(p, h@));
}

/// Appending a host to a list appends its view to the views.
proof fn lemma_views_push(s: Seq<Host>, h: Host)
    ensures
        host_views(s.push(h)) == host_views(s).push(h@),
{
    assert(host_views(s.push(h)) =~= host_views(s).push(h@));
}

/// An insertion keeps every address and adds that of the new host.
proof fn lemma_has_ip_insert(s: Seq<HostView>, p: int, h: HostView, ip: Seq<char>)
    requires
        0 <= p <= s.len(),
        has_ip(s, ip) || h.ip == ip,
    ensures
        has_ip(s.insert(p, h), ip),
{
    let t = s.insert(p, h);
    if h.ip == ip {
        assert(t[p] == h);
        lemma_has_ip_at(t, p);
    } else {
        lemma_last_index(s, ip);
        let k = last_index_of(s, ip);
        if k < p {
            assert(t[k] == s[k]);
            lemma_has_ip_at(t, k);
        } else {
            assert(t[k + 1] == s[k]);
            lemma_has_ip_at(t, k + 1);
        }
    }
}

/// An append keeps every address and adds that of the new host.
proof fn lemma_has_ip_push(s: Seq<HostView>, h: HostView, ip: Seq<char>)
    requires
        has_ip(s, ip) || h.ip == ip,
    ensures
        has_ip(s.push(h), ip),
{
    let t = s.push(h);
    assert(t.drop_last() =~= s);
}

/// Puts `h` into `out` at the place that its address has in the order.
fn insert_sorted(out: &mut Vec<Host>, h: Host) -> (p: usize)
    requires
        sorted_by_ip(host_views(old(out)@)),
        forall|m: int|
            0 <= m < old(out)@.len() ==> (#[trigger] host_views(old(out)@)[m]).ip != h@.ip,
    ensures
        p <= old(out)@.len(),
        host_views(final(out)@) == host_views(old(out)@).insert(p as int, h@),
        sorted_by_ip(host_views(final(out)@)),
{
    let ghost before = host_views(out@);
    let n: usize = out.len();
    let mut p: usize = 0;
    while p < n && rank(out[p].ip.as_str(), h.ip.as_str()) == Rank::Before
        invariant
            p <= n,
            n == out@.len(),
            before == host_views(out@),
            forall|m: int| 0 <= m < p ==> lex_lt((#[trigger] before[m]).ip, h@.ip),
        decreases n - p,
    {
        assert(before[p as int] == out@[p as int]@);
        p += 1;
    }
    proof {
        if p < n {
            assert(before[p as int] == out@[p as int]@);
            assert(lex_lt(h@.ip, before[p as int].ip));
        }
        lemma_views_insert(out@, p as int, h);
        let after = before.insert(p as int, h@);
        assert forall|i: int, j: int| 0 <= i < j < after.len() implies lex_lt(
            (#[trigger] after[i]).ip,
            (#[trigger] after[j]).ip,
        ) by {
            if j < p {
                assert(after[i] == before[i] && after[j] == before[j]);
            } else if j == p {
                assert(after[i] == before[i]);
            } else if i < p {
                assert(after[i] == before[i] && after[j] == before[j - 1]);
            } else if i == p {
                assert(after[j] == before[j - 1]);
                if j - 1 > p {
                    lex_lt_transitive(h@.ip, before[p as int].ip, before[j - 1].ip);
                }
            } else {
                assert(after[i] == before[i - 1] && after[j] == before[j - 1]);
            }
        }
    }
    out.insert(p, h);
    p
}

/// The records of `hosts`, one per address, in ascending order of address.
fn sorted_records(hosts: &[Host]) -> (out: Vec<Host>)
    ensures
        is_snapshot(host_views(out@), host_views(hosts@)),
{
    let ghost views = host_views(hosts@);
    let mut out: Vec<Host> = Vec::new();
    let n: usize = hosts.len();
    let mut i: usize = 0;
    while i < n
        invariant
            i <= n,
            n == hosts@.len(),
            views == host_views(hosts@),
            sorted_by_ip(host_views(out@)),
            forall|m: int|
                0 <= m < out@.len() ==> {
                    let e = #[trigger] host_views(out@)[m];
                    0 <= last_index_of(views, e.ip) < i && e == views[last_index_of(views, e.ip)]
                },
            forall|k: int|
                0 <= k < i && last_index_of(views, (#[trigger] views[k]).ip) == k ==> has_ip(
                    host_views(out@),
                    views[k].ip,
                ),
        decreases n - i,
    {
        let found = find_record(hosts, hosts[i].ip.as_str());
        let ghost before = host_views(out@);
        assert(views[i as int] == hosts@[i as int]@);
        proof {
            lemma_last_index(views, views[i as int].ip);
        }
        if found == Some(i) {
            let h = hosts[i].clone();
            let p = insert_sorted(&mut out, h);
            proof {
                let after = host_views(out@);
                assert forall|m: int| 0 <= m < after.len() implies {
                    let e = #[trigger] after[m];
                    0 <= last_index_of(views, e.ip) < i + 1 && e == views[last_index_of(
                        views,
                        e.ip,
                    )]
                } by {
                    if m < p {
                        assert(after[m] == before[m]);
                    } else if m > p {
                        assert(after[m] == before[m - 1]);
                    }
                }
                assert forall|k: int|
                    0 <= k < i + 1 && last_index_of(views, (#[trigger] views[k]).ip)
                        == k implies has_ip(after, views[k].ip) by {
                    lemma_has_ip_insert(before, p as int, views[i as int], views[k].ip);
                }
            }
        }
        i += 1;
    }
    proof {
        let result = host_views(out@);
        assert forall|ip: Seq<char>| has_ip(views, ip) implies has_ip(result, ip) by {
            lemma_last_index(views, ip);
            let k = last_index_of(views, ip);
            assert(views[k].ip == ip);
        }
    }
    out
}

/// The hosts of `records` whose address `other` lacks, in the same order.
fn without_known(records: &Vec<Host>, other: &[Host], Ghost(of): Ghost<Seq<HostView>>) -> (out:
    Vec<Host>)
    requires
        is_snapshot(host_views(records@), of),
    ensures
        is_only_in(host_views(out@), of, host_views(other@)),
{
    let ghost rv = host_views(records@);
    let ghost ov = host_views(other@);
    let mut out: Vec<Host> = Vec::new();
    let n: usize = records.len();
    let mut i: usize = 0;
    while i < n
        invariant
            i <= n,
            n == records@.len(),
            rv == host_views(records@),
            ov == host_views(other@),
            is_snapshot(rv, of),
            sorted_by_ip(host_views(out@)),
            forall|m: int|
                0 <= m < out@.len() ==> {
                    let ip = (#[trigger] host_views(out@)[m]).ip;
                    &&& has_ip(of, ip)
                    &&& !has_ip(ov, ip)
                    &&& host_views(out@)[m] == record_of(of, ip)
                },
            forall|m: int, k: int|
                0 <= m < out@.len() && i <= k < n ==> lex_lt(
                    (#[trigger] host_views(out@)[m]).ip,
                    (#[trigger] rv[k]).ip,
                ),
            forall|k: int|
                0 <= k < i && !has_ip(ov, (#[trigger] rv[k]).ip) ==> has_ip(
                    host_views(out@),
                    rv[k].ip,
                ),
        decreases n - i,
    {
        let found = find_record(other, records[i].ip.as_str());
        let ghost before = host_views(out@);
        assert(rv[i as int] == records@[i as int]@);
        if found.is_none() {
            let h = records[i].clone();
            proof {
                lemma_views_push(out@, h);
            }
            out.push(h);
            proof {
                let after = host_views(out@);
                assert(after == before.push(rv[i as int]));
                assert forall|k: int|
                    0 <= k < i + 1 && !has_ip(ov, (#[trigger] rv[k]).ip) implies has_ip(
                    after,
                    rv[k].ip,
                ) by {
                    lemma_has_ip_push(before, rv[i as int], rv[k].ip);
                }
            }
        }
        i += 1;
    }
    proof {
        let result = host_views(out@);
        assert forall|ip: Seq<char>| has_ip(of, ip) && !has_ip(ov, ip) implies has_ip(
            result,
            ip,
        ) by {
            lemma_last_index(rv, ip);
            let k = last_index_of(rv, ip);
            assert(rv[k].ip == ip);
        }
    }
    out
}

/// Whether `ports` holds `p`.
fn has_port(ports: &Vec<u16>, p: u16) -> (r: bool)
    ensures
        r == ports@.contains(p),
{
    let n: usize = ports.len();
    let mut i: usize = 0;
    while i < n
        invariant
            i <= n,
            n == ports@.len(),
            forall|k: int| 0 <= k < i ==> ports@[k] != p,
        decreases n - i,
    {
        if ports[i] == p {
            return true;
        }
        i += 1;
    }
    false
}

/// Puts `p` into the ascending list `out`, unless it is there.
fn insert_port(out: &mut Vec<u16>, p: u16)
    requires
        ascending(old(out)@),
    ensures
        ascending(final(out)@),
        forall|q: u16| final(out)@.contains(q) <==> (old(out)@.contains(q) || q == p),
{
    let ghost before = out@;
    let n: usize = out.len();
    let mut at: usize = 0;
    while at < n && out[at] < p
        invariant
            at <= n,
            n == out@.len(),
            before == out@,
            forall|m: int| 0 <= m < at ==> before[m] < p,
        decreases n - at,
    {
        at += 1;
    }
    if at < n && out[at] == p {
        return ;
    }
    out.insert(at, p);
    proof {
        let after = out@;
        before.insert_ensures(at as int, p);
        assert forall|i: int, j: int| 0 <= i < j < after.len() implies after[i] < after[j] by {
            if j < at {
            } else if j == at {
            } else if i < at {
                assert(after[j] == before[j - 1]);
            } else if i == at {
                assert(after[j] == before[j - 1]);
            } else {
                assert(after[i] == before[i - 1] && after[j] == before[j - 1]);
            }
        }
        assert forall|q: u16| after.contains(q) <==> (before.contains(q) || q == p) by {
            if after.contains(q) {
                let i = choose|i: int| 0 <= i < after.len() && after[i] == q;
                if i < at {
                    assert(before[i] == q);
                } else if i > at {
                    assert(before[i - 1] == q);
                }
            }
            if before.contains(q) {
                let i = choose|i: int| 0 <= i < before.len() && before[i] == q;
                if i < at {
                    assert(after[i] == q);
                } else {
                    assert(after[i + 1] == q);
                }
            }
            if q == p {
                assert(after[at as int] == q);
            }
        }
    }
}

/// The ports that `a` has and `b` lacks, in ascending order.
fn port_difference(a: &Vec<u16>, b: &Vec<u16>) -> (out: Vec<u16>)
    ensures
        is_port_difference(out@, a@, b@),
{
    let mut out: Vec<u16> = Vec::new();
    let n: usize = a.len();
    let mut i: usize = 0;
    while i < n
        invariant
            i <= n,
            n == a@.len(),
            ascending(out@),
            forall|p: u16| out@.contains(p) <==> (a@.take(i as int).contains(p) && !b@.contains(p)),
        decreases n - i,
    {
        let p: u16 = a[i];
        let ghost before = out@;
        if !has_port(b, p) {
            insert_port(&mut out, p);
        }
        proof {
            let done = a@.take(i as int);
            let next = a@.take(i + 1);
            assert(next =~= done.push(p));
            assert forall|q: u16| next.contains(q) <==> (done.contains(q) || q == p) by {
                if next.contains(q) {
                    let k = choose|k: int| 0 <= k < next.len() && next[k] == q;
                    if k < i {
                        assert(done[k] == q);
                    }
                }
                if done.contains(q) {
                    let k = choose|k: int| 0 <= k < done.len() && done[k] == q;
                    assert(next[k] == q);
                }
                if q == p {
                    assert(next[i as int] == q);
                }
            }
        }
        i += 1;
    }
    assert(a@.take(n as int) =~= a@);
    out
}

/// A list with an element differs from a list without it; two ascending
/// differences are both empty exactly when the port sets agree.
proof fn lemma_ports_differ(added: Seq<u16>, removed: Seq<u16>, old: Seq<u16>, new: Seq<u16>)
    requires
        is_port_difference(added, new, old),
        is_port_difference(removed, old, new),
    ensures
        ports_differ(old, new) <==> (added.len() > 0 || removed.len() > 0),
{
    if added.len() > 0 {
        assert(added.contains(added[0]));
        assert(old.contains(added[0]) != new.contains(added[0]));
    }
    if removed.len() > 0 {
        assert(removed.contains(removed[0]));
        assert(old.contains(removed[0]) != new.contains(removed[0]));
    }
    if ports_differ(old, new) {
        let p = choose|p: u16| old.contains(p) != new.contains(p);
        if old.contains(p) {
            assert(removed.contains(p));
        } else {
            assert(added.contains(p));
        }
    }
}

/// The port changes between the records of `baseline` and those of `current`.
fn port_changes_of(records: &Vec<Host>, current: &[Host], Ghost(baseline): Ghost<Seq<HostView>>) -> (out:
    Vec<PortChange>)
    requires
        is_snapshot(host_views(records@), baseline),
    ensures
        is_port_changes(port_change_views(out@), baseline, host_views(current@)),
{
    let ghost rv = host_views(records@);
    let ghost cv = host_views(current@);
    let mut out: Vec<PortChange> = Vec::new();
    let n: usize = records.len();
    let mut i: usize = 0;
    while i < n
        invariant
            i <= n,
            n == records@.len(),
            rv == host_views(records@),
            cv == host_views(current@),
            is_snapshot(rv, baseline),
            forall|a: int, b: int|
                0 <= a < b < out@.len() ==> lex_lt(
                    (#[trigger] port_change_views(out@)[a]).ip,
                    (#[trigger] port_change_views(out@)[b]).ip,
                ),
            forall|m: int|
                0 <= m < out@.len() ==> {
                    let ip = (#[trigger] port_change_views(out@)[m]).ip;
                    &&& ports_changed(baseline, cv, ip)
                    &&& is_port_change(
                        port_change_views(out@)[m],
                        record_of(baseline, ip),
                        record_of(cv, ip),
                    )
                },
            forall|m: int, k: int|
                0 <= m < out@.len() && i <= k < n ==> lex_lt(
                    (#[trigger] port_change_views(out@)[m]).ip,
                    (#[trigger] rv[k]).ip,
                ),
            forall|k: int|
                0 <= k < i && ports_changed(baseline, cv, (#[trigger] rv[k]).ip) ==> reports(
                    port_change_views(out@),
                    rv[k].ip,
                ),
        decreases n - i,
    {
        let old_host = &records[i];
        let found = find_record(current, old_host.ip.as_str());
        let ghost before = port_change_views(out@);
        let ghost ip = rv[i as int].ip;
        assert(rv[i as int] == records@[i as int]@);
        let mut pushed = false;
        if let Some(j) = found {
            let new_host = &current[j];
            assert(cv[j as int] == current@[j as int]@);
            let added = port_difference(&new_host.ports, &old_host.ports);
            let removed = port_difference(&old_host.ports, &new_host.ports);
            proof {
                lemma_ports_differ(added@, removed@, old_host@.ports, new_host@.ports);
            }
            if added.len() > 0 || removed.len() > 0 {
                let change = PortChange {
                    ip: old_host.ip.clone(),
                    added_ports: added,
                    removed_ports: removed,
                };
                let ghost cview = change@;
                out.push(change);
                pushed = true;
                proof {
                    let after = port_change_views(out@);
                    assert(after =~= before.push(cview));
                }
            }
        }
        proof {
            let after = port_change_views(out@);
            assert forall|k: int|
                0 <= k < i + 1 && ports_changed(baseline, cv, (#[trigger] rv[k]).ip) implies reports(
                after,
                rv[k].ip,
            ) by {
                if k < i {
                    let w = choose|w: int| 0 <= w < before.len() && (#[trigger] before[w]).ip
                        == rv[k].ip;
                    assert(after[w] == before[w]);
                } else {
                    assert(pushed);
                    assert(after[before.len() as int].ip == ip);
                }
            }
        }
        i += 1;
    }
    proof {
        let result = port_change_views(out@);
        assert forall|ip: Seq<char>| ports_changed(baseline, cv, ip) implies reports(
            result,
            ip,
        ) by {
            lemma_last_index(rv, ip);
            let k = last_index_of(rv, ip);
            assert(rv[k].ip == ip);
        }
    }
    out
}

/// The difference between a baseline and a current inventory: the hosts that
/// only the current one has, those that only the baseline has, and for each
/// address that both have with different port sets, the ports that it gained
/// and lost. Lists are in ascending order of address, port lists in ascending
/// order of port. Banner and certificate changes are never reported.
pub fn compute_diff(baseline: &Baseline, current_hosts: &[Host]) -> (r: DiffResult)
    ensures
        is_diff(r@, host_views(baseline.hosts@), host_views(current_hosts@)),
{
    let base = baseline.hosts.as_slice();
    let base_records = sorted_records(base);
    let current_records = sorted_records(current_hosts);
    let new_hosts = without_known(&current_records, base, Ghost(host_views(current_hosts@)));
    let missing_hosts = without_known(&base_records, current_hosts, Ghost(host_views(base@)));
    let port_changes = port_changes_of(&base_records, current_hosts, Ghost(host_views(base@)));
    let banner_changes: Vec<BannerChange> = Vec::new();
    let tls_changes: Vec<TlsChange> = Vec::new();
    let summary_stats = DiffSummary {
        total_new: new_hosts.len(),
        total_missing: missing_hosts.len(),
        total_port_changes: port_changes.len(),
        total_banner_changes: banner_changes.len(),
        total_tls_changes: tls_changes.len(),
    };
    DiffResult {
        new_hosts,
        missing_hosts,
        port_changes,
        banner_changes,
        tls_changes,
        summary_stats,
    }
}

/// The addresses of a list of hosts.
pub open spec fn ip_set(hosts: Seq<HostView>) -> Set<Seq<char>> {
    Set::new(|ip: Seq<char>| has_ip(hosts, ip))
}

} // verus!
