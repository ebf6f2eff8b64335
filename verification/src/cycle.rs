//! The poll cycle: merge a round of completed probe outcomes into the status
//! store, render the report, and decide on the cycle's single alert.

use vstd::prelude::*;
use crate::notify::{alert_header, alert_text, down_marker, should_notify};
use crate::report::{
    indexed_report, render_indexed_report, render_site_report, site_report,
};
use crate::store::{
    distinct_sites, lemma_upsert_lookup, lookup, upsert_seq, OutcomeView, ProbeOutcome,
    StatusStore,
};
use crate::text::seq_contains;

verus! {

/// The store's rows after a round of upserts, one per completed probe, in
/// completion order.
pub open spec fn record_all(s: Seq<OutcomeView>, rs: Seq<OutcomeView>) -> Seq<OutcomeView>
    decreases rs.len(),
{
    if rs.len() == 0 {
        s
    } else {
        record_all(upsert_seq(s, rs[0].site, rs[0].entry), rs.drop_first())
    }
}

/// Recording one more outcome is one more upsert.
pub proof fn lemma_record_all_push(s: Seq<OutcomeView>, rs: Seq<OutcomeView>, x: OutcomeView)
    ensures
        record_all(s, rs.push(x)) == upsert_seq(record_all(s, rs), x.site, x.entry),
    decreases rs.len(),
{
    let p = rs.push(x);
    if rs.len() == 0 {
        assert(p.len() == 1);
        assert(p[0] == x);
        assert(p.drop_first() =~= Seq::<OutcomeView>::empty());
        assert(record_all(s, p) == record_all(upsert_seq(s, x.site, x.entry), p.drop_first()));
        assert(record_all(upsert_seq(s, x.site, x.entry), p.drop_first()) == upsert_seq(
            s,
            x.site,
            x.entry,
        ));
        assert(record_all(s, rs) == s);
    } else {
        assert(p[0] == rs[0]);
        assert(p.drop_first() =~= rs.drop_first().push(x));
        lemma_record_all_push(upsert_seq(s, rs[0].site, rs[0].entry), rs.drop_first(), x);
        assert(record_all(s, p) == record_all(
            upsert_seq(s, rs[0].site, rs[0].entry),
            p.drop_first(),
        ));
        assert(record_all(s, rs) == record_all(
            upsert_seq(s, rs[0].site, rs[0].entry),
            rs.drop_first(),
        ));
    }
}

/// A site no outcome speaks of keeps its entry through a whole round.
pub proof fn lemma_record_all_absent(s: Seq<OutcomeView>, rs: Seq<OutcomeView>, site: Seq<char>)
    requires
        forall|i: int| 0 <= i < rs.len() ==> rs[i].site != site,
    ensures
        lookup(record_all(s, rs), site) == lookup(s, site),
    decreases rs.len(),
{
    if rs.len() > 0 {
        let s1 = upsert_seq(s, rs[0].site, rs[0].entry);
        lemma_upsert_lookup(s, rs[0].site, rs[0].entry);
        assert(lookup(s1, site) == lookup(s, site));
        assert(forall|i: int| 0 <= i < rs.drop_first().len() ==> rs.drop_first()[i].site != site);
        lemma_record_all_absent(s1, rs.drop_first(), site);
    }
}

/// After a round over distinct sites, every probed site holds exactly the
/// entry its own probe produced, no matter in which order the probes
/// completed.
pub proof fn lemma_record_all_verdicts(s: Seq<OutcomeView>, rs: Seq<OutcomeView>)
    requires
        distinct_sites(rs),
    ensures
        forall|i: int|
            0 <= i < rs.len() ==> #[trigger] lookup(record_all(s, rs), rs[i].site) == Some(
                rs[i].entry,
            ),
    decreases rs.len(),
{
    if rs.len() > 0 {
        let s1 = upsert_seq(s, rs[0].site, rs[0].entry);
        let rest = rs.drop_first();
        lemma_upsert_lookup(s, rs[0].site, rs[0].entry);
        assert(forall|i: int| 0 <= i < rest.len() ==> rest[i].site != rs[0].site);
        lemma_record_all_absent(s1, rest, rs[0].site);
        assert(lookup(record_all(s, rs), rs[0].site) == Some(rs[0].entry));
        assert(distinct_sites(rest));
        lemma_record_all_verdicts(s1, rest);
        assert forall|i: int|
            0 <= i < rs.len() implies #[trigger] lookup(record_all(s, rs), rs[i].site) == Some(
            rs[i].entry,
        ) by {
            if i > 0 {
                assert(rest[i - 1] == rs[i]);
                assert(lookup(record_all(s1, rest), rest[i - 1].site) == Some(rest[i - 1].entry));
            }
        }
    }
}

/// Two completion orders of one round of probes leave a store that reads
/// identically for every site: within a cycle, probe completion order is
/// unspecified, and the merge does not depend on it.
pub proof fn lemma_record_all_order_irrelevant(
    s: Seq<OutcomeView>,
    r1: Seq<OutcomeView>,
    r2: Seq<OutcomeView>,
)
    requires
        distinct_sites(r1),
        distinct_sites(r2),
        r1.to_multiset() == r2.to_multiset(),
    ensures
        forall|site: Seq<char>|
            #[trigger] lookup(record_all(s, r1), site) == lookup(record_all(s, r2), site),
{
    broadcast use vstd::seq_lib::group_to_multiset_ensures;

    assert forall|site: Seq<char>|
        #[trigger] lookup(record_all(s, r1), site) == lookup(record_all(s, r2), site) by {
        if exists|i: int| 0 <= i < r1.len() && r1[i].site == site {
            let i = choose|i: int| 0 <= i < r1.len() && r1[i].site == site;
            assert(r1.contains(r1[i]));
            assert(r2.to_multiset().count(r1[i]) > 0);
            assert(r2.contains(r1[i]));
            let j = choose|j: int| 0 <= j < r2.len() && r2[j] == r1[i];
            lemma_record_all_verdicts(s, r1);
            lemma_record_all_verdicts(s, r2);
            assert(lookup(record_all(s, r1), r1[i].site) == Some(r1[i].entry));
            assert(lookup(record_all(s, r2), r2[j].site) == Some(r2[j].entry));
        } else {
            if exists|j: int| 0 <= j < r2.len() && r2[j].site == site {
                let j = choose|j: int| 0 <= j < r2.len() && r2[j].site == site;
                assert(r2.contains(r2[j]));
                assert(r1.to_multiset().count(r2[j]) > 0);
                assert(r1.contains(r2[j]));
                let i = choose|i: int| 0 <= i < r1.len() && r1[i] == r2[j];
                assert(r1[i].site == site);
                assert(false);
            }
            lemma_record_all_absent(s, r1, site);
            lemma_record_all_absent(s, r2, site);
        }
    }
}

/// A round never shrinks the store: sites only accumulate, so the health
/// view's line count never decreases across cycles.
pub proof fn lemma_record_all_grows(s: Seq<OutcomeView>, rs: Seq<OutcomeView>)
    ensures
        record_all(s, rs).len() >= s.len(),
    decreases rs.len(),
{
    if rs.len() > 0 {
        let s1 = upsert_seq(s, rs[0].site, rs[0].entry);
        crate::store::lemma_site_index(s, rs[0].site);
        assert(s1.len() >= s.len());
        lemma_record_all_grows(s1, rs.drop_first());
    }
}

/// Merges a round of completed probe outcomes into the store, each one a
/// whole-entry upsert, in the given completion order.
pub fn record_results(store: &mut StatusStore, results: &Vec<ProbeOutcome>)
    ensures
        final(store)@ == record_all(old(store)@, results@.map_values(|p: ProbeOutcome| p@)),
{
    let ghost rv = results@.map_values(|p: ProbeOutcome| p@);
    let n = results.len();
    let mut i: usize = 0;
    while i < n
        invariant
            n == results@.len(),
            rv == results@.map_values(|p: ProbeOutcome| p@),
            0 <= i <= n,
            store@ == record_all(old(store)@, rv.take(i as int)),
        decreases n - i,
    {
        let row = &results[i];
        store.upsert(row.site.clone(), row.entry.clone());
        proof {
            lemma_record_all_push(old(store)@, rv.take(i as int), rv[i as int]);
            assert(rv.take(i + 1) =~= rv.take(i as int).push(rv[i as int]));
        }
        i += 1;
    }
    proof {
        assert(rv.take(n as int) =~= rv);
    }
}

/// What one poll cycle hands back: the rendered report and, when any probed
/// site was down, the body of the cycle's single alert.
pub struct CycleOutput {
    pub report: String,
    pub alert: Option<String>,
}

fn decide_alert(report: &String) -> (r: Option<String>)
    ensures
        (r is Some) <==> seq_contains(report@, down_marker()),
        r is Some ==> r.unwrap()@ == alert_header() + report@,
{
    if should_notify(report.as_str()) {
        Some(alert_text(report.as_str()))
    } else {
        None
    }
}

/// The on-demand poll cycle: every outcome is upserted into the store, the
/// report numbers the outcomes in input order, and the cycle carries at most
/// one alert, exactly when the report holds the down marker.
pub fn check_now_cycle(store: &mut StatusStore, results: &Vec<ProbeOutcome>) -> (r: CycleOutput)
    ensures
        final(store)@ == record_all(old(store)@, results@.map_values(|p: ProbeOutcome| p@)),
        r.report@ == indexed_report(results@.map_values(|p: ProbeOutcome| p@)),
        (r.alert is Some) <==> seq_contains(r.report@, down_marker()),
        r.alert is Some ==> r.alert.unwrap()@ == alert_header() + r.report@,
{
    record_results(store, results);
    let report = render_indexed_report(results);
    let alert = decide_alert(&report);
    CycleOutput { report, alert }
}

/// The scheduled poll cycle: outcomes are merged first, then the report is
/// read back from the whole store, numbered in store order; the cycle carries
/// at most one alert, exactly when the report holds the down marker.
pub fn scheduled_cycle(store: &mut StatusStore, results: &Vec<ProbeOutcome>) -> (r: CycleOutput)
    ensures
        final(store)@ == record_all(old(store)@, results@.map_values(|p: ProbeOutcome| p@)),
        r.report@ == indexed_report(final(store)@),
        (r.alert is Some) <==> seq_contains(r.report@, down_marker()),
        r.alert is Some ==> r.alert.unwrap()@ == alert_header() + r.report@,
{
    record_results(store, results);
    let snap = store.snapshot();
    let report = render_indexed_report(&snap);
    let alert = decide_alert(&report);
    CycleOutput { report, alert }
}

/// The health view of the store: one site-keyed line per row, in store
/// order — and the rows are one per distinct site ever probed.
pub fn health_report(store: &StatusStore) -> (r: String)
    ensures
        r@ == site_report(store@),
        distinct_sites(store@),
{
    let snap = store.snapshot();
    render_site_report(&snap)
}

} // verus!
