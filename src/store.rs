//! The record store: credential records by key, and the decisions of loading and saving.
use vstd::prelude::*;
use vstd::utf8::encode_utf8;
use crate::container::{container_bytes, encode_container, EncryptedFileContent, lemma_container_round_trip, parse_container, parse_spec, ContentView};
use crate::crypto::{decrypt, decrypted, encrypt, opens_to, P_MAX};
use crate::error::StoreError;
use crate::location::DbLocation;
use crate::strmap::StrMap;
use crate::time::{dto_time_text, lemma_time_round_trip, parse_record_time, parse_time_spec, record_time_text, Timestamp};

verus! {

/// A credential record: its key, when it last changed, and its attributes by name.
pub struct DbRecord {
    pub key: String,
    pub timestamp: Timestamp,
    pub value: StrMap<String>,
}

/// A record as the serialized record list holds it, with its time stamp as text.
pub struct DbRecordDto {
    pub key: String,
    pub timestamp: String,
    pub value: Vec<(String, String)>,
}

/// The attributes that a list of name/value pairs gives, a later pair replacing an earlier one.
pub open spec fn attrs_of(pairs: Seq<(String, String)>) -> Map<Seq<char>, String>
    decreases pairs.len(),
{
    if pairs.len() == 0 {
        Map::empty()
    } else {
        attrs_of(pairs.drop_last()).insert(pairs.last().0@, pairs.last().1)
    }
}

/// The time stamp that a record list's entry gives.
pub open spec fn dto_time(d: DbRecordDto) -> Timestamp {
    parse_time_spec(d.timestamp@)->0
}

/// The time stamp and attributes of each record that a record list gives, a later
/// record replacing an earlier one of the same key.
pub open spec fn records_of(dtos: Seq<DbRecordDto>) -> Map<Seq<char>, (Timestamp, Map<Seq<char>, String>)>
    decreases dtos.len(),
{
    if dtos.len() == 0 {
        Map::empty()
    } else {
        records_of(dtos.drop_last()).insert(dtos.last().key@, (dto_time(dtos.last()), attrs_of(dtos.last().value@)))
    }
}

/// `pairs` lists the entries of `m` in its key order.
pub open spec fn lists_entries(pairs: Seq<(String, String)>, m: StrMap<String>) -> bool {
    &&& pairs.len() == m.key_list().len()
    &&& forall|j: int| 0 <= j < pairs.len() ==> (#[trigger] pairs[j]).0@ == m.key_list()[j] && pairs[j].1 == m@[m.key_list()[j]]
}

/// `dtos` lists the records of `db` in key order, each with its attributes in name order.
pub open spec fn lists_records(dtos: Seq<DbRecordDto>, db: Db) -> bool {
    &&& dtos.len() == db.key_order().len()
    &&& forall|i: int| 0 <= i < dtos.len() ==> (#[trigger] dtos[i]).key@ == db.key_order()[i]
        && dtos[i].timestamp@ == dto_time_text(db@[db.key_order()[i]].timestamp)
        && lists_entries(dtos[i].value@, db@[db.key_order()[i]].value)
}

/// The part of `m` whose keys are among the first `k` of `ks`.
spec fn prefix_map<V>(ks: Seq<Seq<char>>, k: int, m: Map<Seq<char>, V>) -> Map<Seq<char>, V> {
    Map::new(|q: Seq<char>| exists|j: int| 0 <= j < k && ks[j] == q, |q: Seq<char>| m[q])
}

proof fn lemma_prefix_map_step<V>(ks: Seq<Seq<char>>, k: int, m: Map<Seq<char>, V>)
    requires
        0 <= k < ks.len(),
    ensures
        prefix_map(ks, k + 1, m) == prefix_map(ks, k, m).insert(ks[k], m[ks[k]]),
{
    let prev = prefix_map(ks, k, m);
    let next = prefix_map(ks, k + 1, m);
    assert forall|q: Seq<char>| #[trigger] next.contains_key(q) == prev.insert(ks[k], m[ks[k]]).contains_key(q) by {
        if next.contains_key(q) {
            let j = choose|j: int| 0 <= j < k + 1 && ks[j] == q;
            if j < k {
                assert(prev.contains_key(q));
            }
        }
    }
    assert(next =~= prev.insert(ks[k], m[ks[k]]));
}

proof fn lemma_prefix_map_full<V>(ks: Seq<Seq<char>>, m: Map<Seq<char>, V>)
    requires
        forall|q: Seq<char>| m.contains_key(q) <==> ks.contains(q),
    ensures
        prefix_map(ks, ks.len() as int, m) == m,
{
    assert forall|q: Seq<char>| #[trigger] m.contains_key(q) == prefix_map(ks, ks.len() as int, m).contains_key(q) by {
        if m.contains_key(q) {
            assert(ks.contains(q));
            let j = choose|j: int| 0 <= j < ks.len() && ks[j] == q;
            assert(prefix_map(ks, ks.len() as int, m).contains_key(q));
        }
        if prefix_map(ks, ks.len() as int, m).contains_key(q) {
            let j = choose|j: int| 0 <= j < ks.len() && ks[j] == q;
            assert(ks.contains(q));
        }
    }
    assert(prefix_map(ks, ks.len() as int, m) =~= m);
}

proof fn lemma_attrs_prefix(pairs: Seq<(String, String)>, m: StrMap<String>, k: int)
    requires
        lists_entries(pairs, m),
        0 <= k <= pairs.len(),
    ensures
        attrs_of(pairs.subrange(0, k)) == prefix_map(m.key_list(), k, m@),
    decreases k,
{
    if k == 0 {
        assert(attrs_of(pairs.subrange(0, 0)) =~= prefix_map(m.key_list(), 0, m@));
    } else {
        lemma_attrs_prefix(pairs, m, k - 1);
        assert(pairs.subrange(0, k).drop_last() =~= pairs.subrange(0, k - 1));
        lemma_prefix_map_step(m.key_list(), k - 1, m@);
    }
}

proof fn lemma_attrs_of_listing(pairs: Seq<(String, String)>, m: StrMap<String>)
    requires
        m.wf(),
        lists_entries(pairs, m),
    ensures
        attrs_of(pairs) == m@,
{
    lemma_attrs_prefix(pairs, m, pairs.len() as int);
    assert(pairs.subrange(0, pairs.len() as int) =~= pairs);
    m.lemma_key_list();
    lemma_prefix_map_full(m.key_list(), m@);
}

proof fn lemma_records_prefix(dtos: Seq<DbRecordDto>, db: Db, k: int)
    requires
        db.wf(),
        lists_records(dtos, db),
        0 <= k <= dtos.len(),
    ensures
        records_of(dtos.subrange(0, k)) == prefix_map(db.key_order(), k, db.records_view()),
    decreases k,
{
    if k == 0 {
        assert(records_of(dtos.subrange(0, 0)) =~= prefix_map(db.key_order(), 0, db.records_view()));
    } else {
        lemma_records_prefix(dtos, db, k - 1);
        assert(dtos.subrange(0, k).drop_last() =~= dtos.subrange(0, k - 1));
        let key = db.key_order()[k - 1];
        db.data.lemma_key_list();
        assert(db.data.key_list().contains(key));
        lemma_attrs_of_listing(dtos[k - 1].value@, db@[key].value);
        lemma_time_round_trip(db@[key].timestamp);
        lemma_prefix_map_step(db.key_order(), k - 1, db.records_view());
    }
}

/// Saving and loading keep the records: a record list that lists a store's records in
/// key order, as `Db::to_dtos` writes it, has time stamps that all read back, and gives
/// back exactly the store's keys and the time stamp and attributes of each record,
/// which is what `Db::from_dtos` builds from it.
pub proof fn lemma_save_load(db: Db, dtos: Seq<DbRecordDto>)
    requires
        db.wf(),
        lists_records(dtos, db),
    ensures
        forall|i: int| 0 <= i < dtos.len() ==> (#[trigger] parse_time_spec(dtos[i].timestamp@)) is Some,
        records_of(dtos) == db.records_view(),
{
    db.data.lemma_key_list();
    assert forall|i: int| 0 <= i < dtos.len() implies (#[trigger] parse_time_spec(dtos[i].timestamp@)) is Some by {
        let key = db.key_order()[i];
        assert(db.data.key_list().contains(key));
        lemma_time_round_trip(db@[key].timestamp);
    }
    lemma_records_prefix(dtos, db, dtos.len() as int);
    assert(dtos.subrange(0, dtos.len() as int) =~= dtos);
    lemma_prefix_map_full(db.key_order(), db.records_view());
}

/// The outcome of opening a store.
pub enum DbLoadResult {
    Loaded(Db),
    WrongPassword,
}

/// The outcome of renaming a record.
#[derive(Debug, Clone, Copy, PartialEq, Eq, Structural)]
pub enum RenameOutcome {
    Renamed,
    /// No record has the old key.
    NotFound,
    /// A record already has the new key; nothing changed.
    TargetExists,
}

/// A change to one attribute of a record.
pub enum EditOp {
    /// Remove the attribute.
    Del(String),
    /// Add an attribute that the record does not have yet.
    Add(String, String),
    /// Change the value of an attribute that the record has.
    Update(String, String),
    /// Give an attribute another name, keeping its value.
    Rename(String, String),
}

/// The outcome of an attribute edit.
#[derive(Debug, Clone, Copy, PartialEq, Eq, Structural)]
pub enum EditOutcome {
    Done,
    /// No record has the key; nothing changed.
    NoEntry,
    /// The record has no such attribute; nothing changed.
    NoSubkey,
    /// The record has the attribute already; nothing changed.
    SubkeyExists,
}

/// The attributes of a record after `op`, when the outcome is `Done`.
pub open spec fn edited(attrs: Map<Seq<char>, String>, op: EditOp) -> Map<Seq<char>, String> {
    match op {
        EditOp::Del(s) => attrs.remove(s@),
        EditOp::Add(s, v) => attrs.insert(s@, v),
        EditOp::Update(s, v) => attrs.insert(s@, v),
        EditOp::Rename(s, n) => attrs.remove(s@).insert(n@, attrs[s@]),
    }
}

/// The outcome of `op` on a record with the attributes `attrs`.
pub open spec fn edit_outcome(attrs: Map<Seq<char>, String>, op: EditOp) -> EditOutcome {
    match op {
        EditOp::Add(s, _) => if attrs.contains_key(s@) { EditOutcome::SubkeyExists } else { EditOutcome::Done },
        EditOp::Del(s) => if attrs.contains_key(s@) { EditOutcome::Done } else { EditOutcome::NoSubkey },
        EditOp::Update(s, _) => if attrs.contains_key(s@) { EditOutcome::Done } else { EditOutcome::NoSubkey },
        EditOp::Rename(s, _) => if attrs.contains_key(s@) { EditOutcome::Done } else { EditOutcome::NoSubkey },
    }
}

/// An open store: the records, the password they are encrypted under, and where they are kept.
pub struct Db {
    data: StrMap<DbRecord>,
    password: String,
    location: DbLocation,
}

impl Db {
    /// Each record is well formed and filed under its own key.
    pub closed spec fn wf(&self) -> bool {
        &&& self.data.wf()
        &&& forall|k: Seq<char>| #[trigger] self.data@.contains_key(k) ==> self.data@[k].value.wf() && self.data@[k].key@ == k
            && self.data@[k].timestamp.wf()
    }

    /// The records by key.
    pub closed spec fn view(&self) -> Map<Seq<char>, DbRecord> {
        self.data@
    }

    /// The attributes of each record, by key.
    pub open spec fn attributes(&self) -> Map<Seq<char>, Map<Seq<char>, String>> {
        Map::new(|k: Seq<char>| self@.contains_key(k), |k: Seq<char>| self@[k].value@)
    }

    /// The time stamp and the attributes of each record, by key.
    pub open spec fn records_view(&self) -> Map<Seq<char>, (Timestamp, Map<Seq<char>, String>)> {
        Map::new(|k: Seq<char>| self@.contains_key(k), |k: Seq<char>| (self@[k].timestamp, self@[k].value@))
    }

    /// In a well-formed store each record is filed under its own key, and its time
    /// stamp and attribute map are well formed.
    pub proof fn lemma_records(&self)
        requires
            self.wf(),
        ensures
            forall|k: Seq<char>| #[trigger] self@.contains_key(k) ==> self@[k].key@ == k && self@[k].timestamp.wf()
                && self@[k].value.wf(),
    {
    }

    pub closed spec fn password_spec(&self) -> Seq<char> {
        self.password@
    }

    pub closed spec fn location_spec(&self) -> DbLocation {
        self.location
    }

    /// An empty store.
    pub fn new(password: String, location: DbLocation) -> (r: Db)
        ensures
            r.wf(),
            r@ == Map::<Seq<char>, DbRecord>::empty(),
            r.password_spec() == password@,
            r.location_spec() == location,
    {
        Db { data: StrMap::new(), password, location }
    }

    /// The records, for reading them in key order.
    pub fn records(&self) -> (r: &StrMap<DbRecord>)
        requires
            self.wf(),
        ensures
            r@ == self@,
            r.wf(),
    {
        &self.data
    }

    pub fn location(&self) -> (r: &DbLocation)
        ensures
            *r == self.location_spec(),
    {
        &self.location
    }

    /// The record with key `key`.
    pub fn get(&self, key: &str) -> (r: Option<&DbRecord>)
        requires
            self.wf(),
        ensures
            r is Some == self@.contains_key(key@),
            r matches Some(rec) ==> *rec == self@[key@],
    {
        self.data.get(key)
    }

    /// Files `rec` under its key, replacing any record of that key, which is returned.
    pub fn insert(&mut self, rec: DbRecord) -> (r: Option<DbRecord>)
        requires
            old(self).wf(),
            rec.value.wf(),
            rec.timestamp.wf(),
        ensures
            final(self).wf(),
            final(self)@ == old(self)@.insert(rec.key@, rec),
            r == (if old(self)@.contains_key(rec.key@) { Some(old(self)@[rec.key@]) } else { None::<DbRecord> }),
            final(self).password_spec() == old(self).password_spec(),
            final(self).location_spec() == old(self).location_spec(),
    {
        let k = rec.key.clone();
        self.data.insert(k, rec)
    }

    /// Takes the record with key `key` out of the store.
    pub fn remove(&mut self, key: &str) -> (r: Option<DbRecord>)
        requires
            old(self).wf(),
        ensures
            final(self).wf(),
            final(self)@ == old(self)@.remove(key@),
            r == (if old(self)@.contains_key(key@) { Some(old(self)@[key@]) } else { None::<DbRecord> }),
            final(self).password_spec() == old(self).password_spec(),
            final(self).location_spec() == old(self).location_spec(),
    {
        self.data.remove(key)
    }

    /// The keys in the order that `records` lists them.
    pub closed spec fn key_order(&self) -> Seq<Seq<char>> {
        self.data.key_list()
    }

    /// Builds a store from a decrypted record list. Fails with `InvalidRecordDataError`
    /// exactly when some record's time stamp does not read as `YYYY-MM-DDTHH:MM:SS` of a
    /// real date. A later entry replaces an earlier one of the same key.
    pub fn from_dtos(password: String, location: DbLocation, dtos: &Vec<DbRecordDto>) -> (r: Result<Db, StoreError>)
        ensures
            r is Ok <==> forall|i: int| 0 <= i < dtos@.len() ==> (#[trigger] parse_time_spec(dtos@[i].timestamp@)) is Some,
            r matches Err(e) ==> e == StoreError::InvalidRecordDataError,
            r matches Ok(db) ==> db.wf() && db.records_view() == records_of(dtos@),
            r matches Ok(db) ==> forall|k: Seq<char>| #[trigger] db@.contains_key(k) ==> db@[k].key@ == k,
            r matches Ok(db) ==> db.password_spec() == password@ && db.location_spec() == location,
    {
        let mut db = Db::new(password, location);
        let mut i: usize = 0;
        proof {
            assert(db.records_view() =~= records_of(dtos@.subrange(0, 0)));
        }
        while i < dtos.len()
            invariant
                db.wf(),
                i <= dtos@.len(),
                db.records_view() == records_of(dtos@.subrange(0, i as int)),
                forall|j: int| 0 <= j < i ==> (#[trigger] parse_time_spec(dtos@[j].timestamp@)) is Some,
                db.password_spec() == password@,
                db.location_spec() == location,
            decreases dtos@.len() - i,
        {
            let d = &dtos[i];
            let timestamp = match parse_record_time(d.timestamp.as_str()) {
                Some(t) => t,
                None => {
                    return Err(StoreError::InvalidRecordDataError);
                },
            };
            let value = attrs_from_pairs(&d.value);
            let rec = DbRecord { key: d.key.clone(), timestamp, value };
            let ghost before = db.records_view();
            db.insert(rec);
            proof {
                assert(dtos@.subrange(0, i + 1).drop_last() =~= dtos@.subrange(0, i as int));
                assert(db.records_view() =~= before.insert(d.key@, (dto_time(*d), attrs_of(d.value@))));
            }
            i = i + 1;
        }
        proof {
            assert(dtos@.subrange(0, i as int) =~= dtos@);
        }
        Ok(db)
    }

    /// The records as a record list, in key order, with their time stamps as text.
    pub fn to_dtos(&self) -> (r: Vec<DbRecordDto>)
        requires
            self.wf(),
        ensures
            lists_records(r@, *self),
    {
        proof {
            self.data.lemma_key_list();
        }
        let mut r: Vec<DbRecordDto> = Vec::new();
        let n = self.data.len();
        let mut i: usize = 0;
        while i < n
            invariant
                self.wf(),
                n == self.key_order().len(),
                i <= n,
                r@.len() == i,
                forall|j: int| 0 <= j < i ==> (#[trigger] r@[j]).key@ == self.key_order()[j]
                    && r@[j].timestamp@ == dto_time_text(self@[self.key_order()[j]].timestamp)
                    && lists_entries(r@[j].value@, self@[self.key_order()[j]].value),
            decreases n - i,
        {
            let rec = self.data.value_at(i);
            let value = rec.value.pairs();
            let dto = DbRecordDto { key: rec.key.clone(), timestamp: record_time_text(&rec.timestamp), value };
            r.push(dto);
            i = i + 1;
        }
        assert(lists_records(r@, *self));
        r
    }

    /// Gives the record `from` the key `to` and the time stamp `now`, unless `to` is taken.
    pub fn rename(&mut self, from: &str, to: String, now: Timestamp) -> (r: RenameOutcome)
        requires
            old(self).wf(),
            now.wf(),
        ensures
            final(self).wf(),
            r == (if old(self)@.contains_key(to@) {
                RenameOutcome::TargetExists
            } else if !old(self)@.contains_key(from@) {
                RenameOutcome::NotFound
            } else {
                RenameOutcome::Renamed
            }),
            r != RenameOutcome::Renamed ==> final(self)@ == old(self)@,
            r == RenameOutcome::Renamed ==> final(self).attributes() == old(self).attributes().remove(from@).insert(
                to@,
                old(self).attributes()[from@],
            ),
            r == RenameOutcome::Renamed ==> final(self)@[to@].timestamp == now,
            final(self).password_spec() == old(self).password_spec(),
            final(self).location_spec() == old(self).location_spec(),
    {
        if self.data.contains_key(to.as_str()) {
            return RenameOutcome::TargetExists;
        }
        let ghost pre = *self;
        match self.data.remove(from) {
            None => {
                proof {
                    assert(self@ =~= pre@);
                }
                RenameOutcome::NotFound
            },
            Some(rec) => {
                let moved = DbRecord { key: to.clone(), timestamp: now, value: rec.value };
                self.data.insert(to, moved);
                proof {
                    assert(self.attributes() =~= pre.attributes().remove(from@).insert(to@, pre.attributes()[from@]));
                }
                RenameOutcome::Renamed
            },
        }
    }

    /// Applies `op` to the attributes of the record `key`. The record's time stamp is kept.
    pub fn edit(&mut self, key: &str, op: EditOp) -> (r: EditOutcome)
        requires
            old(self).wf(),
        ensures
            final(self).wf(),
            !old(self)@.contains_key(key@) ==> r == EditOutcome::NoEntry,
            old(self)@.contains_key(key@) ==> r == edit_outcome(old(self).attributes()[key@], op),
            r != EditOutcome::Done ==> final(self)@ == old(self)@,
            r == EditOutcome::Done ==> final(self).attributes() == old(self).attributes().insert(
                key@,
                edited(old(self).attributes()[key@], op),
            ),
            r == EditOutcome::Done ==> final(self)@[key@].timestamp == old(self)@[key@].timestamp,
            final(self).password_spec() == old(self).password_spec(),
            final(self).location_spec() == old(self).location_spec(),
    {
        let ghost pre = *self;
        match self.data.remove(key) {
            None => {
                proof {
                    assert(self@ =~= pre@);
                }
                EditOutcome::NoEntry
            },
            Some(mut rec) => {
                let ghost attrs = rec.value@;
                let outcome = match op {
                    EditOp::Del(s) => {
                        if rec.value.contains_key(s.as_str()) {
                            rec.value.remove(s.as_str());
                            EditOutcome::Done
                        } else {
                            EditOutcome::NoSubkey
                        }
                    },
                    EditOp::Add(s, v) => {
                        if rec.value.contains_key(s.as_str()) {
                            EditOutcome::SubkeyExists
                        } else {
                            rec.value.insert(s, v);
                            EditOutcome::Done
                        }
                    },
                    EditOp::Update(s, v) => {
                        if rec.value.contains_key(s.as_str()) {
                            rec.value.insert(s, v);
                            EditOutcome::Done
                        } else {
                            EditOutcome::NoSubkey
                        }
                    },
                    EditOp::Rename(s, n) => {
                        if rec.value.contains_key(s.as_str()) {
                            let cur = rec.value.remove(s.as_str());
                            rec.value.insert(n, cur.unwrap());
                            EditOutcome::Done
                        } else {
                            EditOutcome::NoSubkey
                        }
                    },
                };
                let k = rec.key.clone();
                self.data.insert(k, rec);
                proof {
                    if outcome == EditOutcome::Done {
                        assert(self.attributes() =~= pre.attributes().insert(key@, edited(attrs, op)));
                    } else {
                        assert(self@ =~= pre@);
                    }
                }
                outcome
            },
        }
    }

    /// The file system steps that save the store with the serialized record list `json`:
    /// a backup copy of the main file when there is one, the new container written to
    /// the temporary file under a fresh salt and nonce, and the temporary file renamed
    /// onto the main file. A backup is never overwritten: when the main file must be
    /// backed up and the backup path is taken, nothing is planned.
    pub fn save_plan(
        &self,
        main_exists: bool,
        backup_exists: bool,
        main: String,
        temp: String,
        backup: String,
        json: &str,
    ) -> (r: Result<Vec<FsAction>, StoreError>)
        ensures
            main_exists && backup_exists ==> r == Err::<Vec<FsAction>, StoreError>(StoreError::BackupExists),
            r matches Ok(acts) ==> save_steps(acts@, main_exists, main@, temp@, backup@, self.password_spec(), json@),
            r matches Err(e) ==> e == StoreError::EntropyError || (e == StoreError::PlaintextTooLong
                && encode_utf8(json@).len() > P_MAX) || (e == StoreError::BackupExists && main_exists && backup_exists),
            encode_utf8(json@).len() > P_MAX ==> r is Err,
    {
        if main_exists && backup_exists {
            return Err(StoreError::BackupExists);
        }
        let data = match encrypt(json, self.password.as_str()) {
            Ok(d) => d,
            Err(e) => {
                return Err(e);
            },
        };
        let acts = plan_steps(&data, main_exists, main, temp, backup);
        proof {
            lemma_container_round_trip(data@);
        }
        Ok(acts)
    }
}

/// The attributes that a list of name/value pairs gives.
pub fn attrs_from_pairs(pairs: &Vec<(String, String)>) -> (r: StrMap<String>)
    ensures
        r.wf(),
        r@ == attrs_of(pairs@),
{
    let mut r: StrMap<String> = StrMap::new();
    let mut i: usize = 0;
    proof {
        assert(pairs@.subrange(0, 0) =~= Seq::<(String, String)>::empty());
    }
    while i < pairs.len()
        invariant
            r.wf(),
            i <= pairs@.len(),
            r@ == attrs_of(pairs@.subrange(0, i as int)),
        decreases pairs@.len() - i,
    {
        r.insert(pairs[i].0.clone(), pairs[i].1.clone());
        proof {
            assert(pairs@.subrange(0, i + 1).drop_last() =~= pairs@.subrange(0, i as int));
        }
        i = i + 1;
    }
    proof {
        assert(pairs@.subrange(0, i as int) =~= pairs@);
    }
    r
}

/// Opens the bytes of a store's main file with `password`. `Ok(Some(text))` holds the
/// serialized record list; `Ok(None)` means the password is wrong (or the ciphertext
/// was damaged); an error means the bytes are no container this reader accepts.
pub fn unseal(file: &[u8], password: &str) -> (r: Result<Option<String>, StoreError>)
    ensures
        match r {
            Ok(t) => (parse_spec(file@) matches Ok(c) && decrypted(c, password@, t)),
            Err(e) => parse_spec(file@) == Err::<ContentView, StoreError>(e),
        },
{
    match parse_container(file) {
        Ok(data) => Ok(decrypt(&data, password)),
        Err(e) => Err(e),
    }
}

/// What opening a store finds, before its record list is read.
pub enum OpenStep {
    /// There is no main file: a new, empty store bound to the password.
    Fresh(Db),
    /// The password does not open the main file.
    WrongPassword,
    /// The main file's serialized record list.
    Records(String),
}

/// The first step of opening the store at `location` with `password`, given the bytes
/// of its main file, or `None` when there is no main file.
pub fn open_store(location: DbLocation, password: &str, main_file: Option<&[u8]>) -> (r: Result<OpenStep, StoreError>)
    ensures
        main_file is None ==> (r matches Ok(OpenStep::Fresh(db)) && db.wf() && db@ == Map::<Seq<char>, DbRecord>::empty()
            && db.password_spec() == password@ && db.location_spec() == location),
        main_file matches Some(b) ==> match r {
            Ok(OpenStep::WrongPassword) => (parse_spec(b@) matches Ok(c) && decrypted(c, password@, None)),
            Ok(OpenStep::Records(t)) => (parse_spec(b@) matches Ok(c) && decrypted(c, password@, Some(t))),
            Ok(OpenStep::Fresh(_)) => false,
            Err(e) => parse_spec(b@) == Err::<ContentView, StoreError>(e),
        },
{
    match main_file {
        None => Ok(OpenStep::Fresh(Db::new(password.to_string(), location))),
        Some(b) => match unseal(b, password) {
            Ok(None) => Ok(OpenStep::WrongPassword),
            Ok(Some(t)) => Ok(OpenStep::Records(t)),
            Err(e) => Err(e),
        },
    }
}

/// A step of saving, for the caller to carry out on the file system, in order.
pub enum FsAction {
    /// Copy the file `from` to `to`, byte for byte.
    Copy { from: String, to: String },
    /// Write `bytes` to the file `path`, replacing what it held.
    Write { path: String, bytes: Vec<u8> },
    /// Rename `from` onto `to` in one step.
    Rename { from: String, to: String },
}

/// `acts` writes `contents` to `main` by way of `temp`, first copying an existing `main`
/// to `backup`.
pub open spec fn steps_for(
    acts: Seq<FsAction>,
    main_exists: bool,
    main: Seq<char>,
    temp: Seq<char>,
    backup: Seq<char>,
    contents: Seq<u8>,
) -> bool {
    let n: int = if main_exists { 1 } else { 0 };
    &&& acts.len() == n + 2
    &&& main_exists ==> (acts[0] matches FsAction::Copy { from, to } && from@ == main && to@ == backup)
    &&& (acts[n] matches FsAction::Write { path, bytes } && path@ == temp && bytes@ == contents)
    &&& (acts[n + 1] matches FsAction::Rename { from, to } && from@ == temp && to@ == main)
}

/// The steps that put the container `data` in place of the main file `main`.
pub fn plan_steps(data: &EncryptedFileContent, main_exists: bool, main: String, temp: String, backup: String) -> (r: Vec<FsAction>)
    ensures
        steps_for(r@, main_exists, main@, temp@, backup@, container_bytes(data@)),
{
    let bytes = encode_container(data);
    let mut acts: Vec<FsAction> = Vec::new();
    if main_exists {
        acts.push(FsAction::Copy { from: main.clone(), to: backup });
    }
    acts.push(FsAction::Write { path: temp.clone(), bytes });
    acts.push(FsAction::Rename { from: temp, to: main });
    acts
}

/// `bytes` are a container that holds `text` under `password`.
pub open spec fn holds_text(bytes: Seq<u8>, password: Seq<char>, text: Seq<char>) -> bool {
    parse_spec(bytes) matches Ok(c) && opens_to(c, password, text)
}

/// `acts` saves `text` under `password` to `main` by way of `temp`, first copying an
/// existing `main` to `backup`; the main file is touched only by the final rename.
pub open spec fn save_steps(
    acts: Seq<FsAction>,
    main_exists: bool,
    main: Seq<char>,
    temp: Seq<char>,
    backup: Seq<char>,
    password: Seq<char>,
    text: Seq<char>,
) -> bool {
    let n: int = if main_exists { 1 } else { 0 };
    &&& acts.len() == n + 2
    &&& main_exists ==> (acts[0] matches FsAction::Copy { from, to } && from@ == main && to@ == backup)
    &&& (acts[n] matches FsAction::Write { path, bytes } && path@ == temp && holds_text(bytes@, password, text))
    &&& (acts[n + 1] matches FsAction::Rename { from, to } && from@ == temp && to@ == main)
}

/// How many of the steps copy a file.
pub open spec fn copy_count(acts: Seq<FsAction>) -> nat
    decreases acts.len(),
{
    if acts.len() == 0 {
        0
    } else {
        copy_count(acts.drop_last()) + if acts.last() is Copy { 1nat } else { 0nat }
    }
}

/// Saving makes no backup when there was no main file, and exactly one, to the backup
/// path, when there was.
pub proof fn lemma_backup_creation(
    acts: Seq<FsAction>,
    main_exists: bool,
    main: Seq<char>,
    temp: Seq<char>,
    backup: Seq<char>,
    password: Seq<char>,
    text: Seq<char>,
)
    requires
        save_steps(acts, main_exists, main, temp, backup, password, text),
    ensures
        copy_count(acts) == if main_exists { 1nat } else { 0nat },
        forall|i: int| 0 <= i < acts.len() && (#[trigger] acts[i]) is Copy ==> (acts[i] matches FsAction::Copy { from, to } && from@ == main && to@ == backup),
{
    let n: int = if main_exists { 1 } else { 0 };
    let first = acts.subrange(0, n);
    assert(acts.drop_last().drop_last() =~= first);
    if main_exists {
        assert(first.drop_last() =~= Seq::<FsAction>::empty());
        assert(copy_count(first.drop_last()) == 0);
        assert(copy_count(first) == 1);
    } else {
        assert(copy_count(first) == 0);
    }
    assert(acts.drop_last().last() == acts[n]);
    assert(copy_count(acts.drop_last()) == copy_count(first));
}

} // verus!
