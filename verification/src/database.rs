use vstd::prelude::*;

use crate::keyspace::Table;
use crate::value::{model_well_formed, Value, ValueModel};

verus! {

/// The settings a keyspace is created with.
pub struct Config {
    /// How many numbered databases the keyspace holds.
    pub databases: usize,
}

/// An event delivered to a subscriber.
#[derive(PartialEq, Debug)]
pub enum PubsubEvent {
    Subscription(Vec<u8>, usize),
    Unsubscription(Vec<u8>, usize),
    PatternSubscription(Vec<u8>, usize),
    PatternUnSubscription(Vec<u8>, usize),
    Message(Vec<u8>, Option<Vec<u8>>, Vec<u8>),
}

/// `std::time::SystemTime`, a reading of the system clock.
#[verifier::external_type_specification]
#[verifier::external_body]
pub struct ExSystemTime(std::time::SystemTime);

/// `std::time::SystemTime::now`: a reading of the system clock. Nothing is promised of it.
#[verifier::external_body]
fn clock_now() -> std::time::SystemTime {
    std::time::SystemTime::now()
}

/// `SystemTime::duration_since(UNIX_EPOCH)`: the time from the epoch to the reading, `None`
/// when the reading lies before the epoch. Nothing is promised of the duration.
#[verifier::external_body]
fn since_epoch(t: &std::time::SystemTime) -> Option<core::time::Duration> {
    t.duration_since(std::time::UNIX_EPOCH).ok()
}

/// `Duration::as_millis`: the whole milliseconds in a duration. The duration is opaque
/// here, so nothing is promised of the number.
#[verifier::external_body]
fn whole_millis(d: &core::time::Duration) -> u128 {
    d.as_millis()
}

/// A number of milliseconds as an `i64`, held at `i64::MAX` past what an `i64` holds.
pub open spec fn millis_i64(ms: u128) -> i64 {
    if ms > i64::MAX as u128 {
        i64::MAX
    } else {
        ms as i64
    }
}

/// A number of milliseconds as an `i64` (see `millis_i64`).
pub fn clamp_millis(ms: u128) -> (r: i64)
    ensures
        r == millis_i64(ms),
{
    if ms > 9223372036854775807u128 {
        i64::MAX
    } else {
        ms as i64
    }
}

/// The time elapsed since the Unix epoch, in milliseconds (see `millis_i64`), or 0 for a
/// clock that stands before the epoch.
pub open spec fn epoch_millis(ms: Option<u128>) -> i64 {
    match ms {
        Some(m) => millis_i64(m),
        None => 0,
    }
}

/// The milliseconds read from the clock as `mstime` gives them (see `epoch_millis`).
pub fn millis_since_epoch(ms: Option<u128>) -> (r: i64)
    ensures
        r == epoch_millis(ms),
{
    match ms {
        Some(m) => clamp_millis(m),
        None => 0,
    }
}

/// The current time, in milliseconds since the Unix epoch: 0 when the clock stands before
/// the epoch, and `i64::MAX` past what an `i64` holds (see `millis_since_epoch`, which does
/// the arithmetic on what the clock gives).
pub fn mstime() -> (r: i64)
    ensures
        r >= 0,
{
    let ms = match since_epoch(&clock_now()) {
        Some(d) => Some(whole_millis(&d)),
        None => None,
    };
    millis_since_epoch(ms)
}

#[verifier::ext_equal]
/// What a keyspace holds: for each database, the value under each key, and the moment (in
/// milliseconds since the epoch) at which each key with an expiration expires.
pub struct DbModel {
    pub data: Seq<Map<Seq<u8>, ValueModel>>,
    pub expirations: Seq<Map<Seq<u8>, i64>>,
}

/// Whether `key` holds a value in database `index` at time `now`: it has one, and no
/// expiration at or before `now`.
pub open spec fn is_live(m: DbModel, index: int, key: Seq<u8>, now: int) -> bool {
    &&& m.data[index].contains_key(key)
    &&& !(m.expirations[index].contains_key(key) && m.expirations[index][key] <= now)
}

/// The value of `key` in database `index` at time `now`, unless it has none or has expired.
pub open spec fn db_lookup(m: DbModel, index: int, key: Seq<u8>, now: int) -> Option<ValueModel> {
    if is_live(m, index, key, now) {
        Some(m.data[index][key])
    } else {
        None
    }
}

/// The value that a change to `key` starts from: its value while it is live, nil otherwise.
pub open spec fn db_current(m: DbModel, index: int, key: Seq<u8>, now: int) -> ValueModel {
    if is_live(m, index, key, now) {
        m.data[index][key]
    } else {
        ValueModel::Nil
    }
}

/// The keyspace with `key` taken out of database `index` to be changed: a key that is not
/// live loses its expiration too.
pub open spec fn db_take(m: DbModel, index: int, key: Seq<u8>, now: int) -> DbModel {
    DbModel {
        data: m.data.update(index, m.data[index].remove(key)),
        expirations: if is_live(m, index, key, now) {
            m.expirations
        } else {
            m.expirations.update(index, m.expirations[index].remove(key))
        },
    }
}

/// The keyspace with `v` stored under `key` in database `index`.
pub open spec fn db_put(m: DbModel, index: int, key: Seq<u8>, v: ValueModel) -> DbModel {
    DbModel { data: m.data.update(index, m.data[index].insert(key, v)), expirations: m.expirations }
}

/// The keyspace after `key` of database `index` is changed to `v` at time `now`: a live
/// key keeps its expiration, any other key is created without one.
pub open spec fn db_store(m: DbModel, index: int, key: Seq<u8>, now: int, v: ValueModel) -> DbModel {
    db_put(db_take(m, index, key, now), index, key, v)
}

/// The keyspace without `key` (and its expiration) in database `index`.
pub open spec fn db_remove(m: DbModel, index: int, key: Seq<u8>) -> DbModel {
    DbModel {
        data: m.data.update(index, m.data[index].remove(key)),
        expirations: m.expirations.update(index, m.expirations[index].remove(key)),
    }
}

/// The keyspace with `key` of database `index` expiring at `e`.
pub open spec fn db_set_expiration(m: DbModel, index: int, key: Seq<u8>, e: i64) -> DbModel {
    DbModel { data: m.data, expirations: m.expirations.update(index, m.expirations[index].insert(key, e)) }
}

/// The keyspace with no expiration for `key` in database `index`.
pub open spec fn db_remove_expiration(m: DbModel, index: int, key: Seq<u8>) -> DbModel {
    DbModel { data: m.data, expirations: m.expirations.update(index, m.expirations[index].remove(key)) }
}

/// Whether `key` has an expiration at or before `now` in database `index`.
pub open spec fn has_expired(m: DbModel, index: int, key: Seq<u8>, now: int) -> bool {
    m.expirations[index].contains_key(key) && m.expirations[index][key] <= now
}

/// The keyspace: numbered databases of values, each key with an optional expiration.
pub struct Database {
    pub config: Config,
    data: Vec<Table<Value>>,
    data_expiration_ms: Vec<Table<i64>>,
    pub start_mstime: i64,
}

impl View for Database {
    type V = DbModel;

    closed spec fn view(&self) -> DbModel {
        DbModel {
            data: self.data@.map_values(|t: Table<Value>| t@),
            expirations: self.data_expiration_ms@.map_values(|t: Table<i64>| t@),
        }
    }
}

/// `x`, clamped to the range of an `i64`.
pub open spec fn clamp_i64(x: int) -> int {
    if x > i64::MAX {
        i64::MAX as int
    } else if x < i64::MIN {
        i64::MIN as int
    } else {
        x
    }
}

/// The tables agree in number, keys differ within each table, and sets hold each member
/// once.
pub closed spec fn tables_well_formed(data: Seq<Table<Value>>, exps: Seq<Table<i64>>) -> bool {
    &&& data.len() == exps.len()
    &&& forall|i: int| 0 <= i < data.len() ==> (#[trigger] data[i]).well_formed()
    &&& forall|i: int| 0 <= i < exps.len() ==> (#[trigger] exps[i]).well_formed()
    &&& forall|i: int, k: Seq<u8>|
        0 <= i < data.len() && #[trigger] data[i]@.contains_key(k) ==> model_well_formed(data[i]@[k])
}

/// Milliseconds from `start` to `now`, clamped to the range of an `i64`.
pub open spec fn uptime_from(start: i64, now: int) -> int {
    clamp_i64(now - start)
}

impl Database {
    /// The tables agree in number, keys differ within each table, and sets hold each member
    /// once.
    pub closed spec fn well_formed(&self) -> bool {
        tables_well_formed(self.data@, self.data_expiration_ms@)
    }

    /// The settings the keyspace was created with.
    pub closed spec fn cfg(&self) -> Config {
        self.config
    }

    /// When the keyspace was created, in milliseconds since the epoch.
    pub closed spec fn started(&self) -> i64 {
        self.start_mstime
    }

    /// The number of databases.
    pub open spec fn num_dbs(&self) -> nat {
        self@.data.len()
    }

    /// Whether `index` names a database.
    pub open spec fn valid_index(&self, index: int) -> bool {
        0 <= index < self@.data.len()
    }

    /// As many expiration tables as databases.
    pub proof fn lemma_lengths(&self)
        requires
            self.well_formed(),
        ensures
            self@.data.len() == self@.expirations.len(),
    {
        self.lemma_views();
    }

    /// Each database, and each table of expirations, has finitely many keys.
    pub proof fn lemma_finite(&self)
        requires
            self.well_formed(),
        ensures
            forall|i: int| 0 <= i < self@.data.len() ==> (#[trigger] self@.data[i]).dom().finite(),
            forall|i: int| 0 <= i < self@.expirations.len() ==> (#[trigger] self@.expirations[i]).dom().finite(),
    {
        self.lemma_views();
        assert forall|i: int| 0 <= i < self@.data.len() implies (#[trigger] self@.data[i]).dom().finite() by {
            self.data@[i].lemma_finite();
        }
        assert forall|i: int| 0 <= i < self@.expirations.len() implies (#[trigger] self@.expirations[i]).dom().finite() by {
            self.data_expiration_ms@[i].lemma_finite();
        }
    }

    proof fn lemma_views(&self)
        requires
            self.well_formed(),
        ensures
            self@.data.len() == self@.expirations.len(),
            self@.data.len() == self.data@.len(),
            forall|i: int| 0 <= i < self.data@.len() ==> #[trigger] self@.data[i] == self.data@[i]@,
            forall|i: int| 0 <= i < self.data@.len() ==> #[trigger] self@.expirations[i]
                == self.data_expiration_ms@[i]@,
    {
    }

    /// A keyspace with `config.databases` empty databases.
    pub fn new(config: Config) -> (r: Database)
        ensures
            r.well_formed(),
            r.cfg() == config,
            r@.data.len() == config.databases,
            r@.expirations.len() == config.databases,
            forall|i: int| 0 <= i < config.databases ==> (#[trigger] r@.data[i]) == Map::<Seq<u8>, ValueModel>::empty(),
            forall|i: int| 0 <= i < config.databases ==> (#[trigger] r@.expirations[i]) == Map::<Seq<u8>, i64>::empty(),
            r.started() >= 0,
    {
        let mut data: Vec<Table<Value>> = Vec::new();
        let mut expirations: Vec<Table<i64>> = Vec::new();
        let mut i: usize = 0;
        while i < config.databases
            invariant
                i <= config.databases,
                data@.len() == i,
                expirations@.len() == i,
                forall|j: int| 0 <= j < i ==> (#[trigger] data@[j]).well_formed() && data@[j]@ == Map::<Seq<u8>, ValueModel>::empty(),
                forall|j: int| 0 <= j < i ==> (#[trigger] expirations@[j]).well_formed() && expirations@[j]@ == Map::<Seq<u8>, i64>::empty(),
            decreases config.databases - i,
        {
            data.push(Table::new());
            expirations.push(Table::new());
            i = i + 1;
        }
        let start_mstime = mstime();
        Database { config, data, data_expiration_ms: expirations, start_mstime }
    }

    /// How many databases the keyspace holds.
    pub fn database_count(&self) -> (r: usize)
        requires
            self.well_formed(),
        ensures
            r == self@.data.len(),
    {
        proof {
            self.lemma_views();
        }
        self.data.len()
    }

    /// Milliseconds between `start_mstime` and `now`.
    pub fn uptime_at(&self, now: i64) -> (r: i64)
        ensures
            r == uptime_from(self.started(), now as int),
    {
        let d: i128 = now as i128 - self.start_mstime as i128;
        if d > i64::MAX as i128 {
            i64::MAX
        } else if d < i64::MIN as i128 {
            i64::MIN
        } else {
            d as i64
        }
    }

    /// Milliseconds since the keyspace was created, by the clock.
    pub fn uptime(&self) -> (r: i64)
        ensures
            exists|now: int| now >= 0 && r == #[trigger] uptime_from(self.started(), now),
    {
        let now = mstime();
        self.uptime_at(now)
    }

    /// Whether `key` has an expiration at or before `now` in database `index`.
    pub fn is_expired_at(&self, index: usize, key: &[u8], now: i64) -> (r: bool)
        requires
            self.well_formed(),
            self.valid_index(index as int),
        ensures
            r == has_expired(self@, index as int, key@, now as int),
    {
        proof {
            self.lemma_views();
        }
        match self.data_expiration_ms[index].get(key) {
            Some(t) => *t <= now,
            None => false,
        }
    }

    /// The number of keys of database `index`, expired ones included.
    pub fn dbsize(&self, index: usize) -> (r: usize)
        requires
            self.well_formed(),
            self.valid_index(index as int),
        ensures
            r == self@.data[index as int].dom().len(),
    {
        proof {
            self.lemma_views();
        }
        self.data[index].len()
    }

    /// The number of keys of database `index` that have an expiration.
    pub fn db_expire_size(&self, index: usize) -> (r: usize)
        requires
            self.well_formed(),
            self.valid_index(index as int),
        ensures
            r == self@.expirations[index as int].dom().len(),
    {
        proof {
            self.lemma_views();
        }
        self.data_expiration_ms[index].len()
    }

    /// The value of `key` in database `index` at time `now`; `None` when it has none or has
    /// expired.
    pub fn get_at(&self, index: usize, key: &[u8], now: i64) -> (r: Option<&Value>)
        requires
            self.well_formed(),
            self.valid_index(index as int),
        ensures
            match r {
                Some(v) => is_live(self@, index as int, key@, now as int) && v@ == self@.data[index as int][key@]
                    && model_well_formed(v@),
                None => !is_live(self@, index as int, key@, now as int),
            },
    {
        proof {
            self.lemma_views();
        }
        if self.is_expired_at(index, key, now) {
            None
        } else {
            self.data[index].get(key)
        }
    }

    /// The value of `key` in database `index`, by the clock; `None` when it has none or has
    /// expired.
    pub fn get(&self, index: usize, key: &[u8]) -> (r: Option<&Value>)
        requires
            self.well_formed(),
            self.valid_index(index as int),
        ensures
            match r {
                Some(v) => self@.data[index as int].contains_key(key@) && v@ == self@.data[index as int][key@],
                None => !self@.data[index as int].contains_key(key@) || self@.expirations[index as int].contains_key(key@),
            },
            self@.data[index as int].contains_key(key@) && !self@.expirations[index as int].contains_key(key@) ==> r is Some,
            exists|now: int| #![trigger is_live(self@, index as int, key@, now)]
                now >= 0 && match r {
                    Some(v) => is_live(self@, index as int, key@, now) && v@ == self@.data[index as int][key@],
                    None => !is_live(self@, index as int, key@, now),
                },
    {
        let now = mstime();
        self.get_at(index, key, now)
    }

    /// The value of `key` in database `index` at time `now`, to change in place; an expired
    /// key is removed (expiration included) and gives `None`. The keyspace stays well formed
    /// as long as what is stored through the reference is.
    pub fn get_mut_at(&mut self, index: usize, key: &[u8], now: i64) -> (r: Option<&mut Value>)
        requires
            old(self).well_formed(),
            old(self).valid_index(index as int),
        ensures
            final(self).cfg() == old(self).cfg(),
            final(self).started() == old(self).started(),
            match r {
                Some(v) => {
                    &&& is_live(old(self)@, index as int, key@, now as int)
                    &&& (*v)@ == old(self)@.data[index as int][key@]
                    &&& model_well_formed((*v)@)
                    &&& final(self)@.data == old(self)@.data.update(
                        index as int,
                        old(self)@.data[index as int].insert(key@, (*final(v))@),
                    )
                    &&& final(self)@.expirations == old(self)@.expirations
                    &&& model_well_formed((*final(v))@) ==> final(self).well_formed()
                },
                None => {
                    &&& !is_live(old(self)@, index as int, key@, now as int)
                    &&& final(self).well_formed()
                    &&& final(self)@.data == old(self)@.data.update(
                        index as int,
                        old(self)@.data[index as int].remove(key@),
                    )
                    &&& final(self)@.expirations == old(self)@.expirations.update(
                        index as int,
                        old(self)@.expirations[index as int].remove(key@),
                    )
                },
            },
    {
        proof {
            self.lemma_views();
        }
        if self.is_expired_at(index, key, now) || !self.data[index].contains_key(key) {
            self.remove_at(index, key, now);
            return None;
        }
        proof {
            let d = self.data@;
            let old_db = *self;
            assert forall|t: Table<Value>| (#[trigger] d.update(index as int, t)).map_values(|t: Table<Value>| t@)
                == self@.data.update(index as int, t@) by {
                assert(d.update(index as int, t).map_values(|t: Table<Value>| t@) =~= self@.data.update(index as int, t@));
            }
            assert forall|t: Table<Value>|
                t.well_formed() && (forall|k: Seq<u8>| #[trigger] t@.contains_key(k) ==> model_well_formed(t@[k]))
                    implies tables_well_formed(#[trigger] d.update(index as int, t), old_db.data_expiration_ms@) by {
                let nd = d.update(index as int, t);
                assert forall|i: int, k: Seq<u8>| 0 <= i < nd.len() && #[trigger] nd[i]@.contains_key(k) implies model_well_formed(nd[i]@[k]) by {
                    if i != index {
                        assert(nd[i] == d[i]);
                    }
                }
            }
        }
        let table = &mut self.data[index];
        let r = table.get_mut(key);
        r
    }

    /// The value of `key` in database `index`, by the clock, to change in place; an expired
    /// key is removed (expiration included) and gives `None`.
    pub fn get_mut(&mut self, index: usize, key: &[u8]) -> (r: Option<&mut Value>)
        requires
            old(self).well_formed(),
            old(self).valid_index(index as int),
        ensures
            final(self).cfg() == old(self).cfg(),
            final(self).started() == old(self).started(),
            match r {
                Some(v) => {
                    &&& old(self)@.data[index as int].contains_key(key@)
                    &&& (*v)@ == old(self)@.data[index as int][key@]
                    &&& final(self)@.data == old(self)@.data.update(
                        index as int,
                        old(self)@.data[index as int].insert(key@, (*final(v))@),
                    )
                    &&& final(self)@.expirations == old(self)@.expirations
                    &&& model_well_formed((*final(v))@) ==> final(self).well_formed()
                },
                None => {
                    &&& !old(self)@.data[index as int].contains_key(key@)
                        || old(self)@.expirations[index as int].contains_key(key@)
                    &&& final(self).well_formed()
                    &&& final(self)@.data == old(self)@.data.update(
                        index as int,
                        old(self)@.data[index as int].remove(key@),
                    )
                    &&& final(self)@.expirations == old(self)@.expirations.update(
                        index as int,
                        old(self)@.expirations[index as int].remove(key@),
                    )
                },
            },
            exists|now: int| #![trigger is_live(old(self)@, index as int, key@, now)]
                now >= 0 && (r is Some <==> is_live(old(self)@, index as int, key@, now)),
    {
        let now = mstime();
        self.get_mut_at(index, key, now)
    }

    /// Removes `key` (and its expiration) from database `index`, and gives its value unless it
    /// had expired by `now`.
    pub fn remove_at(&mut self, index: usize, key: &[u8], now: i64) -> (r: Option<Value>)
        requires
            old(self).well_formed(),
            old(self).valid_index(index as int),
        ensures
            final(self).well_formed(),
            final(self).cfg() == old(self).cfg(),
            final(self).started() == old(self).started(),
            final(self)@.data == old(self)@.data.update(index as int, old(self)@.data[index as int].remove(key@)),
            final(self)@.expirations == old(self)@.expirations.update(
                index as int,
                old(self)@.expirations[index as int].remove(key@),
            ),
            final(self)@.data[index as int].dom().len() == old(self)@.data[index as int].dom().len()
                - (if old(self)@.data[index as int].contains_key(key@) { 1int } else { 0int }),
            match r {
                Some(v) => is_live(old(self)@, index as int, key@, now as int) && v@ == old(self)@.data[index as int][key@],
                None => !is_live(old(self)@, index as int, key@, now as int),
            },
    {
        proof {
            self.lemma_views();
            self.lemma_finite();
        }
        let expired = self.is_expired_at(index, key, now);
        let mut table = Table::new();
        std::mem::swap(&mut table, &mut self.data[index]);
        let r = table.remove(key);
        self.data.set(index, table);
        let mut etable = Table::new();
        std::mem::swap(&mut etable, &mut self.data_expiration_ms[index]);
        etable.remove(key);
        self.data_expiration_ms.set(index, etable);
        proof {
            assert(self@.data =~= old(self)@.data.update(index as int, old(self)@.data[index as int].remove(key@)));
            assert(self@.expirations =~= old(self)@.expirations.update(
                index as int,
                old(self)@.expirations[index as int].remove(key@),
            ));
            assert forall|i: int, k: Seq<u8>|
                0 <= i < self.data@.len() && #[trigger] self.data@[i]@.contains_key(k) implies model_well_formed(
                    self.data@[i]@[k],
                ) by {
                assert(old(self).data@[i]@.contains_key(k));
            }
        }
        if expired {
            None
        } else {
            r
        }
    }

    /// Removes `key` (and its expiration) from database `index`, and gives its value unless it
    /// had expired by the clock.
    pub fn remove(&mut self, index: usize, key: &[u8]) -> (r: Option<Value>)
        requires
            old(self).well_formed(),
            old(self).valid_index(index as int),
        ensures
            final(self).cfg() == old(self).cfg(),
            final(self).started() == old(self).started(),
            final(self).well_formed(),
            final(self)@.data == old(self)@.data.update(index as int, old(self)@.data[index as int].remove(key@)),
            final(self)@.expirations == old(self)@.expirations.update(
                index as int,
                old(self)@.expirations[index as int].remove(key@),
            ),
            final(self)@.data[index as int].dom().len() == old(self)@.data[index as int].dom().len()
                - (if old(self)@.data[index as int].contains_key(key@) { 1int } else { 0int }),
            exists|now: int| #![trigger is_live(old(self)@, index as int, key@, now)]
                now >= 0 && match r {
                    Some(v) => is_live(old(self)@, index as int, key@, now) && v@ == old(self)@.data[index as int][key@],
                    None => !is_live(old(self)@, index as int, key@, now),
                },
    {
        let now = mstime();
        self.remove_at(index, key, now)
    }

    /// Sets the moment at which `key` expires in database `index`.
    pub fn set_msexpiration(&mut self, index: usize, key: Vec<u8>, msexpiration: i64)
        requires
            old(self).well_formed(),
            old(self).valid_index(index as int),
        ensures
            final(self).well_formed(),
            final(self).cfg() == old(self).cfg(),
            final(self).started() == old(self).started(),
            final(self)@.data == old(self)@.data,
            final(self)@.expirations == old(self)@.expirations.update(
                index as int,
                old(self)@.expirations[index as int].insert(key@, msexpiration),
            ),
    {
        proof {
            self.lemma_views();
        }
        let mut etable = Table::new();
        std::mem::swap(&mut etable, &mut self.data_expiration_ms[index]);
        etable.insert(key, msexpiration);
        self.data_expiration_ms.set(index, etable);
        proof {
            assert(self@.data =~= old(self)@.data);
            assert(self@.expirations =~= old(self)@.expirations.update(
                index as int,
                old(self)@.expirations[index as int].insert(key@, msexpiration),
            ));
        }
    }

    /// The moment at which `key` expires in database `index`, if it has one.
    pub fn get_msexpiration(&self, index: usize, key: &[u8]) -> (r: Option<&i64>)
        requires
            self.well_formed(),
            self.valid_index(index as int),
        ensures
            match r {
                Some(e) => self@.expirations[index as int].contains_key(key@) && *e == self@.expirations[index as int][key@],
                None => !self@.expirations[index as int].contains_key(key@),
            },
    {
        proof {
            self.lemma_views();
        }
        self.data_expiration_ms[index].get(key)
    }

    /// Removes the expiration of `key` in database `index`, and gives it.
    pub fn remove_msexpiration(&mut self, index: usize, key: &[u8]) -> (r: Option<i64>)
        requires
            old(self).well_formed(),
            old(self).valid_index(index as int),
        ensures
            final(self).well_formed(),
            final(self).cfg() == old(self).cfg(),
            final(self).started() == old(self).started(),
            final(self)@.data == old(self)@.data,
            final(self)@.expirations == old(self)@.expirations.update(
                index as int,
                old(self)@.expirations[index as int].remove(key@),
            ),
            match r {
                Some(e) => old(self)@.expirations[index as int].contains_key(key@) && e == old(self)@.expirations[index as int][key@],
                None => !old(self)@.expirations[index as int].contains_key(key@),
            },
    {
        proof {
            self.lemma_views();
        }
        let mut etable = Table::new();
        std::mem::swap(&mut etable, &mut self.data_expiration_ms[index]);
        let r = etable.remove(key);
        self.data_expiration_ms.set(index, etable);
        proof {
            assert(self@.data =~= old(self)@.data);
            assert(self@.expirations =~= old(self)@.expirations.update(
                index as int,
                old(self)@.expirations[index as int].remove(key@),
            ));
        }
        r
    }

    /// Stores `value` under `key` in database `index`; the key's expiration stays as it is.
    pub fn put(&mut self, index: usize, key: Vec<u8>, value: Value)
        requires
            old(self).well_formed(),
            old(self).valid_index(index as int),
            model_well_formed(value@),
        ensures
            final(self).well_formed(),
            final(self).cfg() == old(self).cfg(),
            final(self).started() == old(self).started(),
            final(self)@.data == old(self)@.data.update(index as int, old(self)@.data[index as int].insert(key@, value@)),
            final(self)@.expirations == old(self)@.expirations,
    {
        proof {
            self.lemma_views();
        }
        let ghost k = key@;
        let ghost vm = value@;
        let mut table = Table::new();
        std::mem::swap(&mut table, &mut self.data[index]);
        table.insert(key, value);
        self.data.set(index, table);
        proof {
            assert(self@.data =~= old(self)@.data.update(index as int, old(self)@.data[index as int].insert(k, vm)));
            assert(self@.expirations =~= old(self)@.expirations);
            assert forall|i: int, kk: Seq<u8>|
                0 <= i < self.data@.len() && #[trigger] self.data@[i]@.contains_key(kk) implies model_well_formed(
                    self.data@[i]@[kk],
                ) by {
                if !(i == index && kk == k) {
                    assert(old(self).data@[i]@.contains_key(kk));
                }
            }
        }
    }

    /// Takes the value of `key` out of database `index` to change it: a live value comes out
    /// (its expiration stays); otherwise the key is cleared, expiration included, and nil
    /// comes out. Storing the result back with `put` completes the change.
    pub fn take_or_create_at(&mut self, index: usize, key: &[u8], now: i64) -> (r: Value)
        requires
            old(self).well_formed(),
            old(self).valid_index(index as int),
        ensures
            final(self).well_formed(),
            final(self).cfg() == old(self).cfg(),
            final(self).started() == old(self).started(),
            model_well_formed(r@),
            final(self)@.data == old(self)@.data.update(index as int, old(self)@.data[index as int].remove(key@)),
            if is_live(old(self)@, index as int, key@, now as int) {
                &&& r@ == old(self)@.data[index as int][key@]
                &&& final(self)@.expirations == old(self)@.expirations
            } else {
                &&& r@ == ValueModel::Nil
                &&& final(self)@.expirations == old(self)@.expirations.update(
                    index as int,
                    old(self)@.expirations[index as int].remove(key@),
                )
            },
    {
        proof {
            self.lemma_views();
        }
        let live = !self.is_expired_at(index, key, now) && self.data[index].contains_key(key);
        if live {
            let mut table = Table::new();
        std::mem::swap(&mut table, &mut self.data[index]);
            let r = table.remove(key);
            self.data.set(index, table);
            proof {
                assert(self@.data =~= old(self)@.data.update(index as int, old(self)@.data[index as int].remove(key@)));
                assert(self@.expirations =~= old(self)@.expirations);
                assert forall|i: int, kk: Seq<u8>|
                    0 <= i < self.data@.len() && #[trigger] self.data@[i]@.contains_key(kk) implies model_well_formed(
                        self.data@[i]@[kk],
                    ) by {
                    assert(old(self).data@[i]@.contains_key(kk));
                }
            }
            match r {
                Some(v) => v,
                None => Value::Nil,
            }
        } else {
            self.remove_at(index, key, now);
            Value::Nil
        }
    }

    /// Takes the value of `key` out of database `index` when it is live at `now` (its
    /// expiration stays); an expired key is removed, expiration included.
    pub fn take_at(&mut self, index: usize, key: &[u8], now: i64) -> (r: Option<Value>)
        requires
            old(self).well_formed(),
            old(self).valid_index(index as int),
        ensures
            final(self).well_formed(),
            final(self).cfg() == old(self).cfg(),
            final(self).started() == old(self).started(),
            final(self)@.data == old(self)@.data.update(index as int, old(self)@.data[index as int].remove(key@)),
            match r {
                Some(v) => is_live(old(self)@, index as int, key@, now as int)
                    && v@ == old(self)@.data[index as int][key@] && model_well_formed(v@)
                    && final(self)@.expirations == old(self)@.expirations,
                None => !is_live(old(self)@, index as int, key@, now as int)
                    && final(self)@.expirations == old(self)@.expirations.update(
                    index as int,
                    old(self)@.expirations[index as int].remove(key@),
                ),
            },
    {
        proof {
            self.lemma_views();
        }
        let live = !self.is_expired_at(index, key, now) && self.data[index].contains_key(key);
        if live {
            let v = self.take_or_create_at(index, key, now);
            Some(v)
        } else {
            self.remove_at(index, key, now);
            None
        }
    }

    /// Removes every key of database `index`.
    pub fn clear(&mut self, index: usize)
        requires
            old(self).well_formed(),
            old(self).valid_index(index as int),
        ensures
            final(self).well_formed(),
            final(self).cfg() == old(self).cfg(),
            final(self).started() == old(self).started(),
            final(self)@.data == old(self)@.data.update(index as int, Map::empty()),
            final(self)@.expirations == old(self)@.expirations.update(index as int, Map::empty()),
    {
        proof {
            self.lemma_views();
        }
        self.data.set(index, Table::new());
        self.data_expiration_ms.set(index, Table::new());
        proof {
            assert(self@.data =~= old(self)@.data.update(index as int, Map::empty()));
            assert(self@.expirations =~= old(self)@.expirations.update(index as int, Map::empty()));
            assert forall|i: int, kk: Seq<u8>|
                0 <= i < self.data@.len() && #[trigger] self.data@[i]@.contains_key(kk) implies model_well_formed(
                    self.data@[i]@[kk],
                ) by {
                assert(old(self).data@[i]@.contains_key(kk));
            }
        }
    }

    /// Removes every key of every database.
    pub fn clearall(&mut self)
        requires
            old(self).well_formed(),
        ensures
            final(self).well_formed(),
            final(self).cfg() == old(self).cfg(),
            final(self).started() == old(self).started(),
            final(self)@.data.len() == old(self)@.data.len(),
            final(self)@.expirations.len() == old(self)@.expirations.len(),
            forall|i: int| 0 <= i < old(self)@.data.len() ==> (#[trigger] final(self)@.data[i]) == Map::<Seq<u8>, ValueModel>::empty(),
            forall|i: int| 0 <= i < old(self)@.expirations.len() ==> (#[trigger] final(self)@.expirations[i]) == Map::<Seq<u8>, i64>::empty(),
    {
        proof {
            self.lemma_views();
        }
        let n = self.data.len();
        let mut i: usize = 0;
        while i < n
            invariant
                self.well_formed(),
                self.cfg() == old(self).cfg(),
                self.started() == old(self).started(),
                n == self@.data.len(),
                n == old(self)@.data.len(),
                i <= n,
                forall|j: int| 0 <= j < i ==> (#[trigger] self@.data[j]) == Map::<Seq<u8>, ValueModel>::empty(),
                forall|j: int| 0 <= j < i ==> (#[trigger] self@.expirations[j]) == Map::<Seq<u8>, i64>::empty(),
            decreases n - i,
        {
            self.clear(i);
            i = i + 1;
        }
    }
}

} // verus!
