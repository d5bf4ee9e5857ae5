//! Station health: URLs that keep failing are marked unplayable and left out
//! of the station lists.

use vstd::prelude::*;
use crate::station::{Station, stations_view, StationView};

verus! {

/// A URL is unplayable once it has failed this many times.
pub const UNPLAYABLE_THRESHOLD: u64 = 3;

pub struct RecordView {
    pub fail_count: u64,
    pub last_fail_ts: u64,
    pub manual_block: bool,
}

#[derive(Debug, Clone)]
pub struct UnplayableStation {
    pub url: String,
    pub fail_count: u64,
    pub last_fail_ts: u64,
    pub manual_block: bool,
}

impl UnplayableStation {
    pub open spec fn record(&self) -> RecordView {
        RecordView {
            fail_count: self.fail_count,
            last_fail_ts: self.last_fail_ts,
            manual_block: self.manual_block,
        }
    }

    pub fn duplicate(&self) -> (r: UnplayableStation)
        ensures
            r.url@ == self.url@,
            r.record() == self.record(),
    {
        UnplayableStation {
            url: self.url.clone(),
            fail_count: self.fail_count,
            last_fail_ts: self.last_fail_ts,
            manual_block: self.manual_block,
        }
    }
}

/// The record of `url` among `v`: the last one with that URL.
pub open spec fn record_for(v: Seq<UnplayableStation>, url: Seq<char>) -> Option<RecordView>
    decreases v.len(),
{
    if v.len() == 0 {
        None
    } else if v.last().url@ == url {
        Some(v.last().record())
    } else {
        record_for(v.drop_last(), url)
    }
}

pub open spec fn records_distinct(v: Seq<UnplayableStation>) -> bool {
    forall|i: int, j: int| 0 <= i < j < v.len() ==> v[i].url@ != v[j].url@
}

/// Whether a station with this record is left out: it failed `threshold`
/// times or more, or it was blocked by hand.
pub open spec fn unplayable_spec(r: Option<RecordView>, threshold: u64) -> bool {
    match r {
        Some(rec) => rec.fail_count >= threshold || rec.manual_block,
        None => false,
    }
}

/// The record after one more failure at `now`.
pub open spec fn after_failure(r: Option<RecordView>, now: u64) -> RecordView {
    match r {
        Some(rec) => RecordView {
            fail_count: (rec.fail_count + 1) as u64,
            last_fail_ts: now,
            manual_block: rec.manual_block,
        },
        None => RecordView { fail_count: 1, last_fail_ts: now, manual_block: false },
    }
}

/// The record after the station played: no failures counted any more.
pub open spec fn after_success(r: Option<RecordView>) -> Option<RecordView> {
    match r {
        Some(rec) => Some(RecordView { fail_count: 0, ..rec }),
        None => None,
    }
}

#[derive(Debug, Clone)]
pub struct UnplayableStationsStore {
    schema_version: u32,
    threshold: u64,
    stations: Vec<UnplayableStation>,
}

proof fn lemma_record_for_index(v: Seq<UnplayableStation>, k: int)
    requires
        records_distinct(v),
        0 <= k < v.len(),
    ensures
        record_for(v, v[k].url@) == Some(v[k].record()),
    decreases v.len(),
{
    if k < v.len() - 1 {
        assert(v.last().url@ != v[k].url@);
        let d = v.drop_last();
        assert(records_distinct(d)) by {
            assert forall|i: int, j: int| 0 <= i < j < d.len() implies d[i].url@ != d[j].url@ by {
                assert(d[i] == v[i] && d[j] == v[j]);
            }
        }
        assert(d[k] == v[k]);
        lemma_record_for_index(d, k);
    }
}

proof fn lemma_record_for_absent(v: Seq<UnplayableStation>, url: Seq<char>)
    requires
        forall|k: int| 0 <= k < v.len() ==> v[k].url@ != url,
    ensures
        record_for(v, url) is None,
    decreases v.len(),
{
    if v.len() > 0 {
        lemma_record_for_absent(v.drop_last(), url);
    }
}

impl UnplayableStationsStore {
    pub closed spec fn valid(&self) -> bool {
        records_distinct(self.stations@)
    }

    pub closed spec fn records(&self) -> Seq<UnplayableStation> {
        self.stations@
    }

    pub closed spec fn schema(&self) -> u32 {
        self.schema_version
    }

    pub closed spec fn limit(&self) -> u64 {
        self.threshold
    }

    pub fn schema_version(&self) -> (v: u32)
        ensures
            v == self.schema(),
    {
        self.schema_version
    }

    pub fn threshold(&self) -> (t: u64)
        ensures
            t == self.limit(),
    {
        self.threshold
    }

    /// The record of a URL.
    pub open spec fn record_of(&self, url: Seq<char>) -> Option<RecordView> {
        record_for(self.records(), url)
    }

    /// An empty store with the current schema and threshold.
    pub fn new() -> (s: UnplayableStationsStore)
        ensures
            s.valid(),
            s.schema() == 1,
            s.limit() == UNPLAYABLE_THRESHOLD,
            forall|url: Seq<char>| #[trigger] s.record_of(url) is None,
    {
        let s = UnplayableStationsStore {
            schema_version: 1,
            threshold: UNPLAYABLE_THRESHOLD,
            stations: Vec::new(),
        };
        s
    }

    /// A store made of loaded records; when a URL comes twice the later
    /// record counts.
    pub fn from_records(schema_version: u32, threshold: u64, records: Vec<UnplayableStation>) -> (s:
        UnplayableStationsStore)
        ensures
            s.valid(),
            s.schema() == schema_version,
            s.limit() == threshold,
            forall|url: Seq<char>| #[trigger] s.record_of(url) == record_for(records@, url),
    {
        let mut s = UnplayableStationsStore { schema_version, threshold, stations: Vec::new() };
        let mut i: usize = 0;
        assert forall|url: Seq<char>| #[trigger] s.record_of(url) == record_for(
            records@.take(0),
            url,
        ) by {
            assert(records@.take(0).len() == 0);
        }
        while i < records.len()
            invariant
                i <= records@.len(),
                s.valid(),
                s.schema() == schema_version,
                s.limit() == threshold,
                forall|url: Seq<char>| #[trigger] s.record_of(url) == record_for(
                    records@.take(i as int),
                    url,
                ),
            decreases records@.len() - i,
        {
            let r = &records[i];
            s.put(r.duplicate());
            proof {
                assert(records@.take(i + 1).drop_last() =~= records@.take(i as int));
                assert(records@.take(i + 1).last() == records@[i as int]);
            }
            i = i + 1;
        }
        assert(records@.take(records@.len() as int) =~= records@);
        s
    }

    /// The records, one per URL, for saving.
    pub fn to_records(&self) -> (v: Vec<UnplayableStation>)
        requires
            self.valid(),
        ensures
            records_distinct(v@),
            forall|url: Seq<char>| #[trigger] record_for(v@, url) == self.record_of(url),
    {
        let mut v: Vec<UnplayableStation> = Vec::new();
        let mut i: usize = 0;
        while i < self.stations.len()
            invariant
                i <= self.stations@.len(),
                v@.len() == i,
                forall|k: int|
                    0 <= k < i ==> #[trigger] v@[k].url@ == self.stations@[k].url@ && v@[k].record()
                        == self.stations@[k].record(),
            decreases self.stations@.len() - i,
        {
            v.push(self.stations[i].duplicate());
            i = i + 1;
        }
        proof {
            assert(records_distinct(v@));
            assert forall|k: int| 0 <= k < v@.len() implies #[trigger] same_record(v@[k], self.stations@[k]) by {
                assert(v@[k].url@ == self.stations@[k].url@);
            }
            lemma_same_records(v@, self.stations@);
        }
        v
    }

    fn position_of(&self, url: &str) -> (r: Option<usize>)
        requires
            self.valid(),
        ensures
            r matches Some(k) ==> k < self.stations@.len() && self.stations@[k as int].url@ == url@,
            r is None ==> forall|k: int| 0 <= k < self.stations@.len() ==> self.stations@[k].url@
                != url@,
    {
        let mut k: usize = 0;
        while k < self.stations.len()
            invariant
                k <= self.stations@.len(),
                forall|j: int| 0 <= j < k ==> self.stations@[j].url@ != url@,
            decreases self.stations@.len() - k,
        {
            let s = String::from_str(url);
            if self.stations[k].url == s {
                return Some(k);
            }
            k = k + 1;
        }
        None
    }

    /// Sets the record of `r.url`, replacing any earlier one.
    fn put(&mut self, r: UnplayableStation)
        requires
            old(self).valid(),
        ensures
            final(self).valid(),
            final(self).schema() == old(self).schema(),
            final(self).limit() == old(self).limit(),
            forall|url: Seq<char>| #[trigger] final(self).record_of(url) == if url == r.url@ {
                Some(r.record())
            } else {
                old(self).record_of(url)
            },
    {
        let ghost old_v = self.stations@;
        let ghost ru = r.url@;
        let ghost rr = r.record();
        match self.position_of(r.url.as_str()) {
            Some(k) => {
                self.stations.set(k, r);
                proof {
                    let nv = self.stations@;
                    assert(records_distinct(nv)) by {
                        assert forall|i: int, j: int| 0 <= i < j < nv.len() implies nv[i].url@
                            != nv[j].url@ by {
                            assert(nv[i].url@ == old_v[i].url@);
                            assert(nv[j].url@ == old_v[j].url@);
                        }
                    }
                    assert forall|url: Seq<char>| #[trigger] record_for(nv, url) == if url == ru {
                        Some(rr)
                    } else {
                        record_for(old_v, url)
                    } by {
                        if url == ru {
                            lemma_record_for_index(nv, k as int);
                        } else {
                            lemma_record_for_other(old_v, nv, url);
                        }
                    }
                }
            },
            None => {
                self.stations.push(r);
                proof {
                    let nv = self.stations@;
                    assert(nv.drop_last() =~= old_v);
                    assert(records_distinct(nv)) by {
                        assert forall|i: int, j: int| 0 <= i < j < nv.len() implies nv[i].url@
                            != nv[j].url@ by {
                            assert(nv[i] == old_v[i]);
                            if j < old_v.len() {
                                assert(nv[j] == old_v[j]);
                            }
                        }
                    }
                }
            },
        }
    }

    /// `fail_count >= threshold || manual_block` for the record of `url`;
    /// `false` without one.
    pub fn is_url_unplayable(&self, url: &str) -> (b: bool)
        requires
            self.valid(),
        ensures
            b == unplayable_spec(self.record_of(url@), self.limit()),
    {
        match self.position_of(url) {
            Some(k) => {
                proof {
                    lemma_record_for_index(self.stations@, k as int);
                }
                let r = &self.stations[k];
                r.fail_count >= self.threshold || r.manual_block
            },
            None => {
                proof {
                    lemma_record_for_absent(self.stations@, url@);
                }
                false
            },
        }
    }

    /// Is there a record of `url`?
    pub fn has_record(&self, url: &str) -> (b: bool)
        requires
            self.valid(),
        ensures
            b == (self.record_of(url@) is Some),
    {
        match self.position_of(url) {
            Some(k) => {
                proof {
                    lemma_record_for_index(self.stations@, k as int);
                }
                true
            },
            None => {
                proof {
                    lemma_record_for_absent(self.stations@, url@);
                }
                false
            },
        }
    }

    /// The failure count of `url`, `0` without a record.
    pub fn fail_count_of(&self, url: &str) -> (c: u64)
        requires
            self.valid(),
        ensures
            c == match self.record_of(url@) {
                Some(r) => r.fail_count,
                None => 0,
            },
    {
        match self.position_of(url) {
            Some(k) => {
                proof {
                    lemma_record_for_index(self.stations@, k as int);
                }
                self.stations[k].fail_count
            },
            None => {
                proof {
                    lemma_record_for_absent(self.stations@, url@);
                }
                0
            },
        }
    }

    /// Counts one more failure of `url` at `now`.
    pub fn record_station_failure(&mut self, url: &str, now: u64)
        requires
            old(self).valid(),
            old(self).record_of(url@) matches Some(r) ==> r.fail_count < u64::MAX,
        ensures
            final(self).valid(),
            final(self).schema() == old(self).schema(),
            final(self).limit() == old(self).limit(),
            final(self).record_of(url@) == Some(after_failure(old(self).record_of(url@), now)),
            forall|other: Seq<char>|
                other != url@ ==> #[trigger] final(self).record_of(other) == old(self).record_of(
                    other,
                ),
    {
        let r = match self.position_of(url) {
            Some(k) => {
                proof {
                    lemma_record_for_index(self.stations@, k as int);
                }
                let e = &self.stations[k];
                UnplayableStation {
                    url: String::from_str(url),
                    fail_count: e.fail_count + 1,
                    last_fail_ts: now,
                    manual_block: e.manual_block,
                }
            },
            None => {
                proof {
                    lemma_record_for_absent(self.stations@, url@);
                }
                UnplayableStation {
                    url: String::from_str(url),
                    fail_count: 1,
                    last_fail_ts: now,
                    manual_block: false,
                }
            },
        };
        self.put(r);
    }

    /// A station played again: its failures stop counting (a manual block
    /// stays). Nothing changes for a URL without a record.
    pub fn clear_station_failures(&mut self, url: &str)
        requires
            old(self).valid(),
        ensures
            final(self).valid(),
            final(self).schema() == old(self).schema(),
            final(self).limit() == old(self).limit(),
            final(self).record_of(url@) == after_success(old(self).record_of(url@)),
            forall|other: Seq<char>|
                other != url@ ==> #[trigger] final(self).record_of(other) == old(self).record_of(
                    other,
                ),
    {
        match self.position_of(url) {
            Some(k) => {
                proof {
                    lemma_record_for_index(self.stations@, k as int);
                }
                let e = &self.stations[k];
                let r = UnplayableStation {
                    url: String::from_str(url),
                    fail_count: 0,
                    last_fail_ts: e.last_fail_ts,
                    manual_block: e.manual_block,
                };
                self.put(r);
            },
            None => {
                proof {
                    lemma_record_for_absent(self.stations@, url@);
                }
            },
        }
    }

    /// The same records with the current schema version and threshold, as
    /// they are saved.
    pub fn for_saving(&self) -> (s: UnplayableStationsStore)
        requires
            self.valid(),
        ensures
            s.valid(),
            s.schema() == 1,
            s.limit() == UNPLAYABLE_THRESHOLD,
            forall|url: Seq<char>| #[trigger] s.record_of(url) == self.record_of(url),
    {
        UnplayableStationsStore {
            schema_version: 1,
            threshold: UNPLAYABLE_THRESHOLD,
            stations: self.to_records(),
        }
    }
}

proof fn lemma_record_for_other(a: Seq<UnplayableStation>, b: Seq<UnplayableStation>, url: Seq<char>)
    requires
        a.len() == b.len(),
        forall|i: int| 0 <= i < a.len() ==> (a[i].url@ == url || b[i].url@ == url) ==> a[i] == b[i],
        forall|i: int| 0 <= i < a.len() ==> (a[i].url@ == url <==> b[i].url@ == url),
    ensures
        record_for(a, url) == record_for(b, url),
    decreases a.len(),
{
    if a.len() > 0 {
        lemma_record_for_other(a.drop_last(), b.drop_last(), url);
        assert(a.last() == a[a.len() - 1] && b.last() == b[b.len() - 1]);
    }
}

/// Two record lists that agree position by position on URL and record.
spec fn same_records(a: Seq<UnplayableStation>, b: Seq<UnplayableStation>) -> bool {
    &&& a.len() == b.len()
    &&& forall|k: int| 0 <= k < a.len() ==> #[trigger] same_record(a[k], b[k])
}

spec fn same_record(x: UnplayableStation, y: UnplayableStation) -> bool {
    x.url@ == y.url@ && x.record() == y.record()
}

proof fn lemma_same_records(a: Seq<UnplayableStation>, b: Seq<UnplayableStation>)
    requires
        same_records(a, b),
    ensures
        forall|url: Seq<char>| #[trigger] record_for(a, url) == record_for(b, url),
{
    assert forall|url: Seq<char>| #[trigger] record_for(a, url) == record_for(b, url) by {
        lemma_same_records_at(a, b, url);
    }
}

proof fn lemma_same_records_at(a: Seq<UnplayableStation>, b: Seq<UnplayableStation>, url: Seq<char>)
    requires
        same_records(a, b),
    ensures
        record_for(a, url) == record_for(b, url),
    decreases a.len(),
{
    if a.len() > 0 {
        let (da, db) = (a.drop_last(), b.drop_last());
        assert forall|k: int| 0 <= k < da.len() implies #[trigger] same_record(da[k], db[k]) by {
            assert(da[k] == a[k] && db[k] == b[k]);
            assert(same_record(a[k], b[k]));
        }
        lemma_same_records_at(da, db, url);
        assert(same_record(a[a.len() - 1], b[b.len() - 1]));
    }
}

// ---------------------------------------------------------------------------
// Filtering station lists
// ---------------------------------------------------------------------------

/// The stations whose URL is not unplayable, in order.
pub open spec fn playable_spec(
    stations: Seq<StationView>,
    store: UnplayableStationsStore,
) -> Seq<StationView>
    decreases stations.len(),
{
    if stations.len() == 0 {
        Seq::empty()
    } else {
        let r = playable_spec(stations.drop_last(), store);
        if unplayable_spec(store.record_of(stations.last().url), store.limit()) {
            r
        } else {
            r.push(stations.last())
        }
    }
}

/// The stations without the unplayable ones.
pub fn filter_playable(stations: &Vec<Station>, store: &UnplayableStationsStore) -> (out: Vec<Station>)
    requires
        store.valid(),
    ensures
        stations_view(out@) == playable_spec(stations_view(stations@), *store),
{
    let ghost sv = stations_view(stations@);
    let mut out: Vec<Station> = Vec::new();
    let mut i: usize = 0;
    assert(playable_spec(sv.take(0), *store) =~= Seq::<StationView>::empty());
    assert(stations_view(out@) =~= Seq::<StationView>::empty());
    while i < stations.len()
        invariant
            i <= stations@.len(),
            store.valid(),
            sv == stations_view(stations@),
            stations_view(out@) == playable_spec(sv.take(i as int), *store),
        decreases stations@.len() - i,
    {
        proof {
            assert(sv.take(i + 1).drop_last() =~= sv.take(i as int));
            assert(sv.take(i + 1).last() == sv[i as int]);
        }
        if !store.is_url_unplayable(stations[i].url.as_str()) {
            let ghost before = out@;
            out.push(stations[i].duplicate());
            assert(stations_view(out@) =~= stations_view(before).push(sv[i as int]));
        }
        i = i + 1;
    }
    assert(sv.take(sv.len() as int) =~= sv);
    out
}

// ---------------------------------------------------------------------------
// Laws
// ---------------------------------------------------------------------------

/// The record of a URL after `n` failures starting from no record.
pub open spec fn failures_from_scratch(n: nat, now: u64) -> Option<RecordView>
    decreases n,
{
    if n == 0 {
        None
    } else {
        Some(after_failure(failures_from_scratch((n - 1) as nat, now), now))
    }
}

/// A URL that had no record and then failed `n` times has a failure count of
/// `n`, and is unplayable exactly when `n` reaches the threshold.
pub proof fn lemma_unplayable_after_threshold(n: nat, now: u64, threshold: u64)
    requires
        n <= u64::MAX,
    ensures
        failures_from_scratch(n, now) matches Some(r) ==> r.fail_count == n && !r.manual_block,
        n == 0 ==> failures_from_scratch(n, now) is None,
        unplayable_spec(failures_from_scratch(n, now), threshold) == (n > 0 && n >= threshold),
    decreases n,
{
    if n > 0 {
        lemma_unplayable_after_threshold((n - 1) as nat, now, threshold);
    }
}

/// Stations left in a list are never unplayable, and a station whose URL is
/// playable is never left out.
pub proof fn lemma_filter_playable(stations: Seq<StationView>, store: UnplayableStationsStore, s: StationView)
    ensures
        playable_spec(stations, store).contains(s) ==> !unplayable_spec(
            store.record_of(s.url),
            store.limit(),
        ) && stations.contains(s),
        stations.contains(s) && !unplayable_spec(store.record_of(s.url), store.limit())
            ==> playable_spec(stations, store).contains(s),
    decreases stations.len(),
{
    if stations.len() > 0 {
        let d = stations.drop_last();
        lemma_filter_playable(d, store, s);
        let r = playable_spec(d, store);
        let p = playable_spec(stations, store);
        if p.contains(s) {
            let j = choose|j: int| 0 <= j < p.len() && p[j] == s;
            if j < r.len() {
                assert(r[j] == s);
                assert(r.contains(s));
                let k = choose|k: int| 0 <= k < d.len() && d[k] == s;
                assert(stations[k] == s);
            } else {
                assert(stations[stations.len() - 1] == s);
            }
        }
        if stations.contains(s) && !unplayable_spec(store.record_of(s.url), store.limit()) {
            let k = choose|k: int| 0 <= k < stations.len() && stations[k] == s;
            if k < d.len() {
                assert(d[k] == s);
                assert(r.contains(s));
                let j = choose|j: int| 0 <= j < r.len() && r[j] == s;
                assert(p[j] == s);
            } else {
                assert(p[p.len() - 1] == s);
            }
        }
    }
}

} // verus!
