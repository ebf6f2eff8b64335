//! The status store: the monitor's only shared mutable state. It maps each
//! probed site to the latest probe outcome, keeps insertion order, and never
//! holds two rows for one site.

use vstd::prelude::*;

verus! {

/// Ghost form of a status entry: the verdict and the timestamp text.
pub struct EntryView {
    pub up: bool,
    pub checked_at: Seq<char>,
}

/// Ghost form of one store row: a site and its latest entry.
pub struct OutcomeView {
    pub site: Seq<char>,
    pub entry: EntryView,
}

/// The latest probe outcome for one site: the verdict and when it was taken.
pub struct StatusEntry {
    pub up: bool,
    pub checked_at: String,
}

impl View for StatusEntry {
    type V = EntryView;

    open spec fn view(&self) -> EntryView {
        EntryView { up: self.up, checked_at: self.checked_at@ }
    }
}

impl Clone for StatusEntry {
    fn clone(&self) -> (r: Self)
        ensures
            r == *self,
    {
        StatusEntry { up: self.up, checked_at: self.checked_at.clone() }
    }
}

/// One completed probe: the site that was probed and the entry it produced.
pub struct ProbeOutcome {
    pub site: String,
    pub entry: StatusEntry,
}

impl View for ProbeOutcome {
    type V = OutcomeView;

    open spec fn view(&self) -> OutcomeView {
        OutcomeView { site: self.site@, entry: self.entry@ }
    }
}

impl Clone for ProbeOutcome {
    fn clone(&self) -> (r: Self)
        ensures
            r == *self,
    {
        ProbeOutcome { site: self.site.clone(), entry: self.entry.clone() }
    }
}

/// No two rows speak of the same site.
pub open spec fn distinct_sites(s: Seq<OutcomeView>) -> bool {
    forall|i: int, j: int| 0 <= i < j < s.len() ==> s[i].site != s[j].site
}

/// Some row speaks of the given site.
pub open spec fn has_site(s: Seq<OutcomeView>, site: Seq<char>) -> bool {
    exists|i: int| 0 <= i < s.len() && s[i].site == site
}

/// The first row that speaks of the given site, or -1 when none does.
pub open spec fn site_index(s: Seq<OutcomeView>, site: Seq<char>) -> int
    decreases s.len(),
{
    if s.len() == 0 {
        -1
    } else if s[0].site == site {
        0
    } else {
        let r = site_index(s.drop_first(), site);
        if r < 0 {
            -1
        } else {
            r + 1
        }
    }
}

/// `site_index` finds the first matching row exactly when one exists.
pub proof fn lemma_site_index(s: Seq<OutcomeView>, site: Seq<char>)
    ensures
        has_site(s, site) ==> {
            let k = site_index(s, site);
            &&& 0 <= k < s.len()
            &&& s[k].site == site
            &&& forall|j: int| 0 <= j < k ==> s[j].site != site
        },
        !has_site(s, site) ==> site_index(s, site) == -1,
    decreases s.len(),
{
    if s.len() == 0 {
    } else if s[0].site == site {
    } else {
        lemma_site_index(s.drop_first(), site);
        assert forall|i: int| 0 <= i < s.len() && s[i].site == site implies has_site(
            s.drop_first(),
            site,
        ) by {
            assert(s.drop_first()[i - 1].site == site);
        }
        if has_site(s, site) {
            let k = site_index(s, site);
            assert(s.drop_first()[k - 1].site == site);
            assert forall|j: int| 0 <= j < k implies s[j].site != site by {
                if 0 < j {
                    assert(s.drop_first()[j - 1].site != site);
                }
            }
        } else {
            if has_site(s.drop_first(), site) {
                let i = choose|i: int|
                    0 <= i < s.drop_first().len() && s.drop_first()[i].site == site;
                assert(s[i + 1].site == site);
            }
        }
    }
}

/// A complete replacement of the row for `site`: the existing row is
/// overwritten in place, a new site is appended at the end.
pub open spec fn upsert_seq(s: Seq<OutcomeView>, site: Seq<char>, e: EntryView) -> Seq<
    OutcomeView,
> {
    if has_site(s, site) {
        s.update(site_index(s, site), OutcomeView { site, entry: e })
    } else {
        s.push(OutcomeView { site, entry: e })
    }
}

/// The entry the rows hold for a site, if any.
pub open spec fn lookup(s: Seq<OutcomeView>, site: Seq<char>) -> Option<EntryView> {
    if has_site(s, site) {
        Some(s[site_index(s, site)].entry)
    } else {
        None
    }
}

/// Two row sequences that agree on where a site occurs have it at the same
/// first index.
proof fn lemma_site_index_same(s: Seq<OutcomeView>, t: Seq<OutcomeView>, site: Seq<char>)
    requires
        s.len() == t.len(),
        forall|j: int| 0 <= j < s.len() ==> ((s[j].site == site) <==> (t[j].site == site)),
    ensures
        site_index(s, site) == site_index(t, site),
        has_site(s, site) == has_site(t, site),
    decreases s.len(),
{
    assert(has_site(s, site) == has_site(t, site)) by {
        if has_site(s, site) {
            let k = choose|k: int| 0 <= k < s.len() && s[k].site == site;
            assert(t[k].site == site);
        }
        if has_site(t, site) {
            let k = choose|k: int| 0 <= k < t.len() && t[k].site == site;
            assert(s[k].site == site);
        }
    }
    if s.len() > 0 {
        assert(forall|j: int|
            0 <= j < s.drop_first().len() ==> ((s.drop_first()[j].site == site) <==> (
            t.drop_first()[j].site == site)));
        lemma_site_index_same(s.drop_first(), t.drop_first(), site);
    }
}

/// Appending a row for another site moves no site's first index.
proof fn lemma_site_index_push(s: Seq<OutcomeView>, x: OutcomeView, site: Seq<char>)
    requires
        x.site != site,
    ensures
        site_index(s.push(x), site) == site_index(s, site),
        has_site(s.push(x), site) == has_site(s, site),
    decreases s.len(),
{
    let p = s.push(x);
    assert(has_site(p, site) == has_site(s, site)) by {
        if has_site(p, site) {
            let k = choose|k: int| 0 <= k < p.len() && p[k].site == site;
            assert(k < s.len());
            assert(s[k].site == site);
        }
        if has_site(s, site) {
            let k = choose|k: int| 0 <= k < s.len() && s[k].site == site;
            assert(p[k].site == site);
        }
    }
    if s.len() == 0 {
        assert(p.len() == 1);
        assert(p[0] == x);
        assert(p.drop_first() =~= Seq::<OutcomeView>::empty());
        assert(site_index(p.drop_first(), site) == -1);
        assert(site_index(p, site) == -1);
    } else {
        assert(p.drop_first() =~= s.drop_first().push(x));
        assert(p[0] == s[0]);
        lemma_site_index_push(s.drop_first(), x, site);
    }
}

/// What an upsert leaves for each site: the written entry for its own site,
/// and every other site's entry untouched.
pub proof fn lemma_upsert_lookup(s: Seq<OutcomeView>, site: Seq<char>, e: EntryView)
    ensures
        lookup(upsert_seq(s, site, e), site) == Some(e),
        forall|k: Seq<char>|
            k != site ==> #[trigger] lookup(upsert_seq(s, site, e), k) == lookup(s, k),
{
    lemma_site_index(s, site);
    let s1 = upsert_seq(s, site, e);
    if has_site(s, site) {
        let i = site_index(s, site);
        assert(forall|j: int|
            0 <= j < s.len() ==> ((s[j].site == site) <==> (s1[j].site == site)));
        lemma_site_index_same(s, s1, site);
        assert(s1[i].site == site);
        assert(has_site(s1, site)) by {
            assert(s1[i].site == site);
        }
        assert(s1[i].entry == e);
        assert forall|k: Seq<char>| k != site implies #[trigger] lookup(s1, k) == lookup(
            s,
            k,
        ) by {
            assert(forall|j: int| 0 <= j < s.len() ==> ((s[j].site == k) <==> (s1[j].site == k)));
            lemma_site_index_same(s, s1, k);
            if has_site(s, k) {
                lemma_site_index(s, k);
                let ik = site_index(s, k);
                assert(s[ik].site == k);
                assert(ik != i);
                assert(s1[ik] == s[ik]);
            }
        }
    } else {
        let x = OutcomeView { site, entry: e };
        assert(s1 == s.push(x));
        assert(s1[s.len() as int].site == site);
        assert(has_site(s1, site)) by {
            assert(s1[s.len() as int].site == site);
        }
        lemma_site_index(s1, site);
        let i1 = site_index(s1, site);
        assert(s1[i1].site == site);
        assert(i1 == s.len()) by {
            if i1 < s.len() {
                assert(s[i1].site == site);
            }
        }
        assert forall|k: Seq<char>| k != site implies #[trigger] lookup(s1, k) == lookup(
            s,
            k,
        ) by {
            lemma_site_index_push(s, x, k);
            if has_site(s, k) {
                lemma_site_index(s, k);
                let ik = site_index(s, k);
                assert(s1[ik] == s[ik]);
            }
        }
    }
}

/// Upserting the same row twice leaves what one upsert leaves.
pub proof fn lemma_upsert_idempotent(s: Seq<OutcomeView>, site: Seq<char>, e: EntryView)
    ensures
        upsert_seq(upsert_seq(s, site, e), site, e) == upsert_seq(s, site, e),
{
    lemma_site_index(s, site);
    let s1 = upsert_seq(s, site, e);
    lemma_site_index(s1, site);
    if has_site(s, site) {
        let k = site_index(s, site);
        assert(s1[k].site == site);
        assert(has_site(s1, site));
        let k1 = site_index(s1, site);
        assert(forall|j: int| 0 <= j < k ==> s1[j] == s[j]);
        assert(s1[k1].site == site);
        assert(k1 == k) by {
            if k1 < k {
                assert(s[k1].site == site);
            }
        }
        assert(upsert_seq(s1, site, e) =~= s1);
    } else {
        assert(s1[s.len() as int].site == site);
        assert(has_site(s1, site));
        let k1 = site_index(s1, site);
        assert(k1 == s.len()) by {
            if k1 < s.len() {
                assert(s[k1] == s1[k1]);
            }
        }
        assert(upsert_seq(s1, site, e) =~= s1);
    }
}

fn find_row(rows: &Vec<ProbeOutcome>, site: &String) -> (r: Option<usize>)
    ensures
        match r {
            Some(i) => 0 <= i < rows@.len() && rows@[i as int].site@ == site@ && forall|j: int|
                0 <= j < i ==> rows@[j].site@ != site@,
            None => forall|j: int| 0 <= j < rows@.len() ==> rows@[j].site@ != site@,
        },
{
    let n = rows.len();
    let mut i: usize = 0;
    while i < n
        invariant
            n == rows@.len(),
            0 <= i <= n,
            forall|j: int| 0 <= j < i ==> rows@[j].site@ != site@,
        decreases n - i,
    {
        if rows[i].site == *site {
            return Some(i);
        }
        i += 1;
    }
    None
}

/// The store: site rows in first-probe order, one row per site.
pub struct StatusStore {
    entries: Vec<ProbeOutcome>,
}

impl View for StatusStore {
    type V = Seq<OutcomeView>;

    closed spec fn view(&self) -> Seq<OutcomeView> {
        self.entries@.map_values(|p: ProbeOutcome| p@)
    }
}

impl StatusStore {
    #[verifier::type_invariant]
    spec fn inv(&self) -> bool {
        distinct_sites(self@)
    }

    /// An empty store: no site has been probed yet.
    pub fn new() -> (r: Self)
        ensures
            r@ == Seq::<OutcomeView>::empty(),
    {
        let r = StatusStore { entries: Vec::new() };
        proof {
            assert(r@ =~= Seq::<OutcomeView>::empty());
        }
        r
    }

    /// The number of distinct sites probed so far: the store never holds two
    /// rows for one site.
    pub fn len(&self) -> (r: usize)
        ensures
            r == self@.len(),
            distinct_sites(self@),
    {
        proof {
            use_type_invariant(&*self);
        }
        self.entries.len()
    }

    /// Writes the whole entry for `site`, replacing any earlier one.
    pub fn upsert(&mut self, site: String, entry: StatusEntry)
        ensures
            final(self)@ == upsert_seq(old(self)@, site@, entry@),
            final(self)@.len() >= old(self)@.len(),
    {
        proof {
            use_type_invariant(&*self);
            lemma_site_index(old(self)@, site@);
        }
        let ghost s0 = self@;
        let found = find_row(&self.entries, &site);
        let row = ProbeOutcome { site, entry };
        let ghost xv = row@;
        let mut rows: Vec<ProbeOutcome> = Vec::new();
        core::mem::swap(&mut rows, &mut self.entries);
        proof {
            assert(self@ =~= Seq::<OutcomeView>::empty());
        }
        match found {
            Some(i) => {
                proof {
                    assert(s0[i as int].site == xv.site);
                    assert(has_site(s0, xv.site));
                    assert(site_index(s0, xv.site) == i) by {
                        let k = site_index(s0, xv.site);
                        if k < i {
                            assert(s0[k].site == xv.site);
                        }
                    }
                }
                rows[i] = row;
            },
            None => {
                proof {
                    assert(!has_site(s0, xv.site)) by {
                        if has_site(s0, xv.site) {
                            let k = choose|k: int| 0 <= k < s0.len() && s0[k].site == xv.site;
                            assert(s0[k].site != xv.site);
                        }
                    }
                }
                rows.push(row);
            },
        }
        proof {
            let s1 = rows@.map_values(|p: ProbeOutcome| p@);
            assert(s1 =~= upsert_seq(s0, xv.site, xv.entry));
            assert forall|a: int, b: int| 0 <= a < b < s1.len() implies s1[a].site != s1[b].site by {
                if has_site(s0, xv.site) {
                    assert(s0[a].site != s0[b].site);
                    assert(s0[site_index(s0, xv.site)].site == xv.site);
                } else {
                    if b < s0.len() {
                        assert(s0[a].site != s0[b].site);
                    } else {
                        assert(s1[b].site == xv.site);
                        assert(s0[a].site != xv.site);
                    }
                }
            }
        }
        self.entries = rows;
    }

    /// An independent copy of every row, in the store's order: the caller can
    /// read it while the store keeps changing.
    pub fn snapshot(&self) -> (r: Vec<ProbeOutcome>)
        ensures
            r@.map_values(|p: ProbeOutcome| p@) == self@,
            distinct_sites(self@),
    {
        proof {
            use_type_invariant(&*self);
        }
        let mut r: Vec<ProbeOutcome> = Vec::new();
        let n = self.entries.len();
        let mut i: usize = 0;
        while i < n
            invariant
                n == self.entries@.len(),
                0 <= i <= n,
                r@.len() == i,
                forall|j: int| 0 <= j < i ==> r@[j] == self.entries@[j],
            decreases n - i,
        {
            r.push(self.entries[i].clone());
            i += 1;
        }
        proof {
            assert(r@.map_values(|p: ProbeOutcome| p@) =~= self@);
        }
        r
    }
}

} // verus!
