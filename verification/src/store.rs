//! The weekly store: work records keyed by id and sharded by the ISO week
//! of their start. Shards are kept in memory here; writing a shard out and
//! reading it back is the embedding application's concern.

use vstd::prelude::*;
use vstd::pervasive::VecAdditionalExecFns;

use crate::model::RecordModel;
use crate::model::WorkRecord;
use crate::strutil::str_eq;
use crate::week::week_key_of_secs;
use crate::week::week_key_u64;
use crate::week::MAX_TIMESTAMP;

verus! {

/// All records of one ISO week.
struct WeekShard {
    key: u64,
    records: Vec<WorkRecord>,
}

/// The weekly-sharded store of work records.
pub struct WorkRecordRepository {
    shards: Vec<WeekShard>,
}

/// The models of a sequence of records.
pub open spec fn models(records: Seq<WorkRecord>) -> Seq<RecordModel> {
    records.map_values(|r: WorkRecord| r@)
}

/// No two records share an id.
pub open spec fn ids_unique(records: Seq<RecordModel>) -> bool {
    forall|i: int, j: int|
        0 <= i < j < records.len() ==> (#[trigger] records[i]).id != (#[trigger] records[j]).id
}

/// `records` with `r` inserted by id: it replaces the record carrying the
/// same id, or comes last if the id is new.
pub open spec fn upsert(records: Seq<RecordModel>, r: RecordModel) -> Seq<RecordModel> {
    if exists|i: int| 0 <= i < records.len() && (#[trigger] records[i]).id == r.id {
        records.update(
            choose|i: int| 0 <= i < records.len() && (#[trigger] records[i]).id == r.id,
            r,
        )
    } else {
        records.push(r)
    }
}

/// The record of a non-empty sequence with the greatest start; of several
/// such, the one standing latest.
pub open spec fn latest_of(records: Seq<RecordModel>) -> RecordModel
    decreases records.len(),
{
    if records.len() <= 1 {
        records[0]
    } else {
        let prev = latest_of(records.drop_last());
        if records.last().start >= prev.start {
            records.last()
        } else {
            prev
        }
    }
}

/// The chosen record is an element with the greatest start.
pub proof fn lemma_latest_of_is_max(records: Seq<RecordModel>)
    requires
        records.len() > 0,
    ensures
        records.contains(latest_of(records)),
        forall|i: int| 0 <= i < records.len() ==> (#[trigger] records[i]).start <= latest_of(records).start,
    decreases records.len(),
{
    if records.len() > 1 {
        lemma_latest_of_is_max(records.drop_last());
        let prev = latest_of(records.drop_last());
        assert(records.drop_last().contains(prev));
        let i = choose|i: int| 0 <= i < records.drop_last().len() && records.drop_last()[i] == prev;
        assert(records[i] == prev);
        assert forall|i: int| 0 <= i < records.len() implies (#[trigger] records[i]).start
            <= latest_of(records).start by {
            if i < records.len() - 1 {
                assert(records.drop_last()[i] == records[i]);
            }
        }
    } else {
        assert(records[0] == latest_of(records));
    }
}

/// The records a store holds under `week`, none for an unknown week.
pub open spec fn stored_week(store: Map<u64, Seq<RecordModel>>, week: u64) -> Seq<RecordModel> {
    if store.dom().contains(week) {
        store[week]
    } else {
        Seq::empty()
    }
}

/// The store after persisting `r` into the shard of its start's week.
pub open spec fn store_upsert(store: Map<u64, Seq<RecordModel>>, r: RecordModel) -> Map<
    u64,
    Seq<RecordModel>,
> {
    store.insert(week_key_u64(r.start), upsert(stored_week(store, week_key_u64(r.start)), r))
}

/// Inserting a record under a fresh id appends it.
pub proof fn lemma_upsert_fresh_appends(week: Seq<RecordModel>, r: RecordModel)
    requires
        forall|i: int| 0 <= i < week.len() ==> (#[trigger] week[i]).id != r.id,
    ensures
        upsert(week, r) == week.push(r),
{
}

/// A record starting no earlier than every record of the week becomes the
/// week's latest when appended.
pub proof fn lemma_appended_record_is_latest(week: Seq<RecordModel>, r: RecordModel)
    requires
        forall|i: int| 0 <= i < week.len() ==> (#[trigger] week[i]).start <= r.start,
    ensures
        latest_of(week.push(r)) == r,
{
    let pushed = week.push(r);
    if week.len() > 0 {
        assert(pushed.drop_last() =~= week);
        lemma_latest_of_is_max(week);
        assert(week.contains(latest_of(week)));
        let i = choose|i: int| 0 <= i < week.len() && week[i] == latest_of(week);
        assert(week[i].start <= r.start);
    }
}

/// The round trip of persisting and reading back: a record whose week key
/// is no smaller than every stored week's key, and whose id is fresh in
/// that week and start no earlier than that week's records, is what the
/// store then returns as its most recent record — identical in every
/// field, in particular in id, name and timestamps.
pub proof fn lemma_persist_makes_latest(store: Map<u64, Seq<RecordModel>>, r: RecordModel)
    ensures
        ({
            let k = crate::week::week_key_u64(r.start);
            let week = stored_week(store, k);
            let after = store_upsert(store, r);
            ((forall|k2: u64| #[trigger] store.dom().contains(k2) ==> k2 <= k) && (forall|i: int|
                0 <= i < week.len() ==> (#[trigger] week[i]).start <= r.start && week[i].id
                    != r.id)) ==> {
                &&& after.dom().contains(k)
                &&& forall|k2: u64| #[trigger] after.dom().contains(k2) ==> k2 <= k
                &&& latest_of(after[k]) == r
            }
        }),
{
    let k = crate::week::week_key_u64(r.start);
    let week = stored_week(store, k);
    let after = store_upsert(store, r);
    if (forall|k2: u64| #[trigger] store.dom().contains(k2) ==> k2 <= k) && (forall|i: int|
        0 <= i < week.len() ==> (#[trigger] week[i]).start <= r.start && week[i].id != r.id) {
        lemma_upsert_fresh_appends(week, r);
        lemma_appended_record_is_latest(week, r);
        assert(after == store.insert(k, week.push(r)));
        assert(after[k] == week.push(r));
        assert forall|k2: u64| #[trigger] after.dom().contains(k2) implies k2 <= k by {
            if k2 != k {
                assert(store.dom().contains(k2));
            }
        }
    }
}

spec fn has_key(shards: Seq<WeekShard>, k: u64) -> bool {
    exists|i: int| 0 <= i < shards.len() && (#[trigger] shards[i]).key == k
}

spec fn records_at(shards: Seq<WeekShard>, k: u64) -> Seq<RecordModel> {
    models(shards[choose|i: int| 0 <= i < shards.len() && (#[trigger] shards[i]).key == k].records@)
}

spec fn keys_unique(shards: Seq<WeekShard>) -> bool {
    forall|i: int, j: int|
        0 <= i < j < shards.len() ==> (#[trigger] shards[i]).key != (#[trigger] shards[j]).key
}

/// With unique keys, the records seen at `shards[i].key` are those of
/// `shards[i]`.
proof fn lemma_records_at(shards: Seq<WeekShard>, i: int)
    requires
        keys_unique(shards),
        0 <= i < shards.len(),
    ensures
        has_key(shards, shards[i].key),
        records_at(shards, shards[i].key) == models(shards[i].records@),
{
    let k = shards[i].key;
    assert(has_key(shards, k));
    let j = choose|j: int| 0 <= j < shards.len() && (#[trigger] shards[j]).key == k;
    if j != i {
        if j < i {
            assert(shards[j].key != shards[i].key);
        } else {
            assert(shards[i].key != shards[j].key);
        }
    }
}

/// The position of the shard keyed `k`, if one exists.
fn find_shard(shards: &Vec<WeekShard>, k: u64) -> (r: Option<usize>)
    ensures
        match r {
            Some(i) => i < shards@.len() && shards@[i as int].key == k,
            None => !has_key(shards@, k),
        },
{
    let n: usize = shards.len();
    let mut i: usize = 0;
    while i < n
        invariant
            0 <= i <= n,
            n == shards@.len(),
            forall|j: int| 0 <= j < i ==> (#[trigger] shards@[j]).key != k,
        decreases n - i,
    {
        if shards[i].key == k {
            return Some(i);
        }
        i = i + 1;
    }
    None
}

/// The position of the first record carrying `id`, if one exists.
fn find_record(records: &Vec<WorkRecord>, id: &str) -> (r: Option<usize>)
    ensures
        match r {
            Some(j) => j < records@.len() && records@[j as int]@.id == id@ && (forall|l: int|
                0 <= l < j ==> (#[trigger] records@[l])@.id != id@),
            None => forall|l: int| 0 <= l < records@.len() ==> (#[trigger] records@[l])@.id != id@,
        },
{
    let m: usize = records.len();
    let mut j: usize = 0;
    while j < m
        invariant
            0 <= j <= m,
            m == records@.len(),
            forall|l: int| 0 <= l < j ==> (#[trigger] records@[l])@.id != id@,
        decreases m - j,
    {
        if str_eq(records[j].id.as_str(), id) {
            return Some(j);
        }
        j = j + 1;
    }
    None
}

/// The position of the record with the greatest start, later positions
/// winning ties; `records` must not be empty.
fn find_latest(records: &Vec<WorkRecord>) -> (r: usize)
    requires
        records@.len() > 0,
    ensures
        r < records@.len(),
        records@[r as int]@ == latest_of(models(records@)),
{
    let m: usize = records.len();
    let mut best: usize = 0;
    let mut j: usize = 1;
    proof {
        assert(models(records@).take(1) =~= seq![records@[0]@]);
    }
    while j < m
        invariant
            0 <= best < j <= m,
            m == records@.len(),
            records@[best as int]@ == latest_of(models(records@).take(j as int)),
        decreases m - j,
    {
        proof {
            let ms = models(records@);
            assert(ms.take(j + 1).drop_last() =~= ms.take(j as int));
            assert(ms.take(j + 1).last() == records@[j as int]@);
        }
        if records[j].start >= records[best].start {
            best = j;
        }
        j = j + 1;
    }
    proof {
        assert(models(records@).take(m as int) =~= models(records@));
    }
    best
}

impl View for WorkRecordRepository {
    type V = Map<u64, Seq<RecordModel>>;

    /// The store as a map from week key to the models of that week's
    /// records.
    closed spec fn view(&self) -> Map<u64, Seq<RecordModel>> {
        Map::new(|k: u64| has_key(self.shards@, k), |k: u64| records_at(self.shards@, k))
    }
}

impl WorkRecordRepository {
    /// Well-formedness: week keys are unique, no shard is empty, and
    /// within a shard ids are unique and every record satisfies its
    /// invariant.
    pub closed spec fn inv(&self) -> bool {
        &&& keys_unique(self.shards@)
        &&& forall|i: int|
            0 <= i < self.shards@.len() ==> (#[trigger] self.shards@[i]).records@.len() > 0
        &&& forall|i: int|
            0 <= i < self.shards@.len() ==> ids_unique(
                models((#[trigger] self.shards@[i]).records@),
            )
        &&& forall|i: int, j: int|
            0 <= i < self.shards@.len() && 0 <= j < self.shards@[i].records@.len() ==> {
                let r = (#[trigger] self.shards@[i].records@[j])@;
                r.inv() && r.start <= MAX_TIMESTAMP && r.last_instant() <= MAX_TIMESTAMP
            }
    }

    /// An empty store.
    pub fn new() -> (r: WorkRecordRepository)
        ensures
            r.inv(),
            r@ == Map::<u64, Seq<RecordModel>>::empty(),
    {
        let r = WorkRecordRepository { shards: Vec::new() };
        proof {
            assert(r@ =~= Map::<u64, Seq<RecordModel>>::empty());
        }
        r
    }

    /// The records the store holds under week key `week`, empty if the
    /// week has none.
    pub open spec fn week_records(self, week: u64) -> Seq<RecordModel> {
        if self@.dom().contains(week) {
            self@[week]
        } else {
            Seq::empty()
        }
    }

    /// Inserts the record, replacing by id, into the shard of the ISO week
    /// of `record.start`; other weeks are untouched.
    pub fn persist(&mut self, record: WorkRecord)
        requires
            old(self).inv(),
            record@.inv(),
            record.start <= MAX_TIMESTAMP,
            record@.last_instant() <= MAX_TIMESTAMP,
        ensures
            final(self).inv(),
            final(self)@ == old(self)@.insert(
                week_key_u64(record.start),
                upsert(old(self).week_records(week_key_u64(record.start)), record@),
            ),
    {
        let k: u64 = week_key_of_secs(record.start);
        let ghost old_shards = self.shards@;
        let ghost old_view = self@;
        match find_shard(&self.shards, k) {
            Some(i) => {
                proof {
                    lemma_records_at(old_shards, i as int);
                }
                let mut shard = self.shards.remove(i);
                let ghost old_records = shard.records@;
                match find_record(&shard.records, record.id.as_str()) {
                    Some(j) => {
                        proof {
                            let ms = models(old_records);
                            assert(ms[j as int].id == record@.id);
                            let c = choose|l: int|
                                0 <= l < ms.len() && (#[trigger] ms[l]).id == record@.id;
                            if c != j {
                                assert(ms[c].id == ms[j as int].id);
                            }
                            assert(c == j);
                        }
                        shard.records.set(j, record);
                        proof {
                            assert(models(shard.records@) =~= upsert(
                                models(old_records),
                                record@,
                            ));
                        }
                    },
                    None => {
                        shard.records.push(record);
                        proof {
                            assert(!exists|l: int|
                                0 <= l < models(old_records).len() && (#[trigger] models(
                                    old_records,
                                )[l]).id == record@.id);
                            assert(models(shard.records@) =~= upsert(
                                models(old_records),
                                record@,
                            ));
                        }
                    },
                }
                self.shards.insert(i, shard);
                proof {
                    assert(self.shards@ =~= old_shards.update(i as int, self.shards@[i as int]));
                    lemma_view_after_update(old_shards, self.shards@, i as int, old_view, record@);
                    assert(self@ =~= old_view.insert(
                        week_key_u64(record.start),
                        upsert(records_at(old_shards, k), record@),
                    ));
                }
            },
            None => {
                let mut records: Vec<WorkRecord> = Vec::new();
                records.push(record);
                self.shards.push(WeekShard { key: k, records });
                proof {
                    let new_shards = self.shards@;
                    assert(new_shards.drop_last() =~= old_shards);
                    assert(keys_unique(new_shards));
                    assert forall|i: int, j: int|
                        0 <= i < new_shards.len() && 0 <= j
                            < new_shards[i].records@.len() implies (
                    #[trigger] new_shards[i].records@[j])@.inv() by {
                        if i < new_shards.len() - 1 {
                            assert(old_shards[i].records@[j]@.inv());
                        } else {
                            assert(new_shards[i].records@[j] == record);
                        }
                    }
                    lemma_records_at(new_shards, new_shards.len() - 1);
                    assert(models(seq![record]) =~= seq![record@]);
                    assert(upsert(Seq::empty(), record@) =~= seq![record@]);
                    assert forall|k2: u64| k2 != k implies (has_key(new_shards, k2) == has_key(
                        old_shards,
                        k2,
                    )) by {
                        if has_key(new_shards, k2) {
                            let i2 = choose|i2: int|
                                0 <= i2 < new_shards.len() && (#[trigger] new_shards[i2]).key
                                    == k2;
                            assert(i2 < old_shards.len() && old_shards[i2].key == k2);
                        }
                        if has_key(old_shards, k2) {
                            let i2 = choose|i2: int|
                                0 <= i2 < old_shards.len() && (#[trigger] old_shards[i2]).key
                                    == k2;
                            assert(new_shards[i2].key == k2);
                        }
                    }
                    assert forall|k2: u64| k2 != k && has_key(old_shards, k2) implies records_at(
                        new_shards,
                        k2,
                    ) == records_at(old_shards, k2) by {
                        let i2 = choose|i2: int|
                            0 <= i2 < old_shards.len() && (#[trigger] old_shards[i2]).key == k2;
                        lemma_records_at(old_shards, i2);
                        assert(new_shards[i2].key == k2);
                        lemma_records_at(new_shards, i2);
                        assert(new_shards[i2].records@ == old_shards[i2].records@);
                    }
                    assert(self@ =~= old_view.insert(
                        week_key_u64(record.start),
                        upsert(Seq::empty(), record@),
                    ));
                }
            },
        }
    }

    /// The most recent record: among the weeks the store holds, the one
    /// with the greatest key is chosen, and from it the record with the
    /// greatest start, later insertions winning ties.
    pub fn get_latest(&self) -> (r: Option<WorkRecord>)
        requires
            self.inv(),
        ensures
            match r {
                None => self@ == Map::<u64, Seq<RecordModel>>::empty(),
                Some(rec) => exists|k: u64|
                    {
                        &&& #[trigger] self@.dom().contains(k)
                        &&& forall|k2: u64| self@.dom().contains(k2) ==> k2 <= k
                        &&& self@[k].len() > 0
                        &&& rec@ == latest_of(self@[k])
                        &&& rec@.inv()
                        &&& rec@.start <= MAX_TIMESTAMP
                        &&& rec@.last_instant() <= MAX_TIMESTAMP
                    },
            },
    {
        let n: usize = self.shards.len();
        if n == 0 {
            proof {
                assert(self@ =~= Map::<u64, Seq<RecordModel>>::empty());
            }
            return None;
        }
        let mut best: usize = 0;
        let mut i: usize = 1;
        while i < n
            invariant
                0 <= best < i <= n,
                n == self.shards@.len(),
                forall|j: int|
                    0 <= j < i ==> (#[trigger] self.shards@[j]).key
                        <= self.shards@[best as int].key,
            decreases n - i,
        {
            if self.shards[i].key > self.shards[best].key {
                best = i;
            }
            i = i + 1;
        }
        proof {
            lemma_records_at(self.shards@, best as int);
        }
        let shard = &self.shards;
        let idx: usize = find_latest(&shard[best].records);
        let rec = shard[best].records[idx].duplicate();
        proof {
            let k = self.shards@[best as int].key;
            assert(self@.dom().contains(k));
            assert forall|k2: u64| self@.dom().contains(k2) implies k2 <= k by {
                let i2 = choose|i2: int|
                    0 <= i2 < self.shards@.len() && (#[trigger] self.shards@[i2]).key == k2;
            }
            assert(models(self.shards@[best as int].records@)[idx as int] == rec@);
        }
        Some(rec)
    }

    /// Copies of all records of the week keyed `week`; an unknown week has
    /// none.
    pub fn find_week(&self, week: u64) -> (r: Vec<WorkRecord>)
        requires
            self.inv(),
        ensures
            models(r@) == self.week_records(week),
            forall|i: int|
                0 <= i < r@.len() ==> {
                    let m = (#[trigger] r@[i])@;
                    m.inv() && m.start <= MAX_TIMESTAMP && m.last_instant() <= MAX_TIMESTAMP
                },
            ids_unique(models(r@)),
    {
        match find_shard(&self.shards, week) {
            Some(i) => {
                proof {
                    lemma_records_at(self.shards@, i as int);
                }
                let shard = &self.shards;
                let m: usize = shard[i].records.len();
                let mut out: Vec<WorkRecord> = Vec::new();
                let mut j: usize = 0;
                while j < m
                    invariant
                        0 <= j <= m,
                        i < shard@.len(),
                        m == shard@[i as int].records@.len(),
                        models(out@) =~= models(shard@[i as int].records@).take(j as int),
                        forall|l: int, r2: int|
                            0 <= l < shard@.len() && 0 <= r2 < shard@[l].records@.len() ==> (
                            #[trigger] shard@[l].records@[r2])@.inv(),
                    decreases m - j,
                {
                    let ghost out0 = out@;
                    let ghost recs = shard@[i as int].records@;
                    out.push(shard[i].records[j].duplicate());
                    proof {
                        assert(models(out0).len() == out0.len());
                        assert(models(out0).len() == models(recs).take(j as int).len());
                        assert(models(recs).len() == recs.len());
                        assert(models(recs).take(j as int).len() == j);
                        assert(out@.len() == j + 1);
                        assert forall|l: int| 0 <= l < j + 1 implies models(out@)[l] == models(
                            recs,
                        ).take(j + 1)[l] by {
                            assert(models(out@)[l] == out@[l]@);
                            assert(models(recs).take(j + 1)[l] == recs[l]@);
                            if l < j {
                                assert(out@[l] == out0[l]);
                                assert(models(out0)[l] == out0[l]@);
                                assert(models(recs).take(j as int)[l] == recs[l]@);
                            } else {
                                assert(out@[l]@ == recs[j as int]@);
                            }
                        }
                        assert(models(out@) =~= models(recs).take(j + 1));
                    }
                    j = j + 1;
                }
                proof {
                    assert(models(shard@[i as int].records@).take(m as int) =~= models(
                        shard@[i as int].records@,
                    ));
                    assert(forall|l: int|
                        0 <= l < out@.len() ==> (#[trigger] out@[l])@ == models(out@)[l]);
                }
                out
            },
            None => {
                let out: Vec<WorkRecord> = Vec::new();
                proof {
                    assert(models(out@) =~= Seq::<RecordModel>::empty());
                }
                out
            },
        }
    }

    /// The record carrying `id` within the week keyed `week`, if any.
    pub fn get_by_id(&self, id: &str, week: u64) -> (r: Option<WorkRecord>)
        requires
            self.inv(),
        ensures
            match r {
                Some(rec) => self.week_records(week).contains(rec@) && rec@.id == id@
                    && rec@.inv(),
                None => forall|l: int|
                    0 <= l < self.week_records(week).len() ==> (#[trigger] self.week_records(
                        week,
                    )[l]).id != id@,
            },
    {
        match find_shard(&self.shards, week) {
            Some(i) => {
                proof {
                    lemma_records_at(self.shards@, i as int);
                }
                let shard = &self.shards;
                match find_record(&shard[i].records, id) {
                    Some(j) => {
                        let rec = shard[i].records[j].duplicate();
                        proof {
                            assert(self.week_records(week)[j as int] == rec@);
                        }
                        Some(rec)
                    },
                    None => None,
                }
            },
            None => None,
        }
    }
}

/// After replacing the shard at `i` by one with the same key, the view is
/// the old view with that key remapped to the new shard's records.
proof fn lemma_view_after_update(
    old_shards: Seq<WeekShard>,
    new_shards: Seq<WeekShard>,
    i: int,
    old_view: Map<u64, Seq<RecordModel>>,
    rm: RecordModel,
)
    requires
        keys_unique(old_shards),
        0 <= i < old_shards.len(),
        new_shards == old_shards.update(i, new_shards[i]),
        new_shards.len() == old_shards.len(),
        new_shards[i].key == old_shards[i].key,
        old_view == Map::new(
            |k: u64| has_key(old_shards, k),
            |k: u64| records_at(old_shards, k),
        ),
    ensures
        keys_unique(new_shards),
        Map::new(|k: u64| has_key(new_shards, k), |k: u64| records_at(new_shards, k))
            =~= old_view.insert(old_shards[i].key, models(new_shards[i].records@)),
{
    let k = old_shards[i].key;
    assert forall|i2: int, j2: int|
        0 <= i2 < j2 < new_shards.len() implies (#[trigger] new_shards[i2]).key != (
    #[trigger] new_shards[j2]).key by {
        assert(old_shards[i2].key != old_shards[j2].key);
        assert(new_shards[i2].key == old_shards[i2].key || i2 == i);
        assert(new_shards[j2].key == old_shards[j2].key || j2 == i);
    }
    lemma_records_at(new_shards, i);
    assert forall|k2: u64| #[trigger] has_key(new_shards, k2) == has_key(old_shards, k2) by {
        if has_key(new_shards, k2) {
            let i2 = choose|i2: int|
                0 <= i2 < new_shards.len() && (#[trigger] new_shards[i2]).key == k2;
            if i2 == i {
                assert(old_shards[i].key == k2);
            } else {
                assert(old_shards[i2].key == k2);
            }
        }
        if has_key(old_shards, k2) {
            let i2 = choose|i2: int|
                0 <= i2 < old_shards.len() && (#[trigger] old_shards[i2]).key == k2;
            if i2 == i {
                assert(new_shards[i].key == k2);
            } else {
                assert(new_shards[i2].key == k2);
            }
        }
    }
    assert forall|k2: u64| k2 != k && has_key(old_shards, k2) implies records_at(new_shards, k2)
        == records_at(old_shards, k2) by {
        let i2 = choose|i2: int|
            0 <= i2 < old_shards.len() && (#[trigger] old_shards[i2]).key == k2;
        lemma_records_at(old_shards, i2);
        assert(i2 != i);
        assert(new_shards[i2].key == k2);
        lemma_records_at(new_shards, i2);
        assert(new_shards[i2].records@ == old_shards[i2].records@);
    }
}

} // verus!
