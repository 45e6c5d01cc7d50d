//! The `VotesRepository` re-encoding: the decision on each stored entry, the
//! walk over the stored entries as a state machine whose storage accesses the
//! caller performs, and the checks made before and after it.

use crate::keys::{
    has_prefix, item_prefix, starts_with, storage_version_key, storage_version_name,
    storage_version_value, stored_version, votes_repository_name, votes_repository_prefix,
};
use crate::record::{
    decodes_exactly, fits_old_layout, is_current_layout, lemma_encoding_decodes_exactly,
    lemma_old_decoded_fits, lemma_old_encoding_is_not_current, lemma_old_voting_session_roundtrip,
    lemma_upgraded_keeps_fields, old_voting_session_at, old_voting_session_bytes, same_fields,
    upgraded, voting_session_at, voting_session_bytes, Layout, OldVotingSessionData,
    OldVotingSessionView, VotingSessionData, VotingSessionView,
};
use crate::scale::{
    decode_u64, encode_u64, le_u16_bytes, le_u64_bytes, le_u64_value, lemma_le_u16_value_of_bytes,
    lemma_le_u64_roundtrip,
};
use crate::weight::{db_reads_writes, reads_writes_weight, DbWeight, Weight};
use vstd::prelude::*;

verus! {

/// The storage version that the pallet has once the entries are re-encoded.
pub const TARGET_STORAGE_VERSION: u16 = 2;

/// What becomes of one stored entry.
#[derive(Debug, PartialEq, Eq)]
pub enum EntryOutcome {
    /// The value already is a current-layout record; it stays as it is.
    AlreadyValid,
    /// The value is a previous-layout record; these bytes replace it.
    Migrated(Vec<u8>),
    /// The value decodes in neither layout; the entry is removed.
    Undecodable,
}

/// Decides what becomes of a stored value. A value that, as a whole, is a
/// current-layout record is kept; otherwise a value that starts with a
/// previous-layout record is replaced by the current-layout encoding of that
/// record without its confirmations; any other value is removed. The bytes
/// that replace a value are, as a whole, exactly the upgraded record.
pub fn classify_entry(layout: &Layout, raw: &[u8]) -> (r: EntryOutcome)
    ensures
        r is AlreadyValid <==> is_current_layout(raw@, *layout),
        r is Undecodable <==> !is_current_layout(raw@, *layout) && old_voting_session_at(
            raw@,
            0,
            *layout,
        ) is None,
        r matches EntryOutcome::Migrated(bytes) ==> {
            &&& !is_current_layout(raw@, *layout)
            &&& old_voting_session_at(raw@, 0, *layout) matches Some((o, _)) && {
                &&& bytes@ == voting_session_bytes(upgraded(o))
                &&& decodes_exactly(bytes@, *layout, upgraded(o))
                &&& voting_session_at(bytes@, 0, *layout) matches Some((v, e)) && e
                    == bytes@.len() && same_fields(v, o)
            }
        },
{
    if VotingSessionData::decode_exact(layout, raw).is_some() {
        return EntryOutcome::AlreadyValid;
    }
    match OldVotingSessionData::decode(layout, raw) {
        Some(old) => {
            proof {
                lemma_old_decoded_fits(raw@, 0, *layout);
            }
            let new = old.into_current();
            let bytes = new.encode();
            proof {
                lemma_encoding_decodes_exactly(new@, *layout);
                assert(new.ayes@ == old.ayes@);
                assert(new.nays@ == old.nays@);
            }
            EntryOutcome::Migrated(bytes)
        },
        None => EntryOutcome::Undecodable,
    }
}

/// Whether a stored value starts with a current-layout record: the value's
/// half of what a typed walk over the map yields as an entry (the key's half
/// is [`map_key_decodes`]).
pub fn value_decodes(layout: &Layout, raw: &[u8]) -> (r: bool)
    ensures
        r == voting_session_at(raw@, 0, *layout) is Some,
{
    VotingSessionData::decode_prefix(layout, raw).is_some()
}

/// How many entries the walk found in each state.
#[derive(Clone, Copy, Debug, PartialEq, Eq)]
pub struct MigrationCounts {
    pub already_valid: u64,
    pub migrated: u64,
    pub removed: u64,
}

impl MigrationCounts {
    /// All entries counted so far.
    pub open spec fn total(self) -> int {
        self.already_valid + self.migrated + self.removed
    }
}

/// Weight of a completed re-encoding walk: one read per entry found and one
/// for the version, one write per entry changed and one for the version.
pub open spec fn upgrade_weight(db: DbWeight, c: MigrationCounts) -> Weight {
    reads_writes_weight(db, (c.total() + 1) as u64, (c.migrated + c.removed + 1) as u64)
}

/// Where the walk stands.
#[derive(Debug, PartialEq, Eq)]
pub enum Phase {
    /// The on-chain storage version has not been given yet.
    NotStarted,
    /// Waiting for the key that follows the last one visited.
    AwaitingNextKey,
    /// Waiting for the value stored under this key.
    AwaitingValue(Vec<u8>),
    /// Nothing is left to do.
    Finished,
}

/// A change to storage that the caller makes.
#[derive(Debug, PartialEq, Eq)]
pub enum StorageWrite {
    Store(Vec<u8>, Vec<u8>),
    Clear(Vec<u8>),
}

/// What the walk asks of the caller next.
#[derive(Debug, PartialEq, Eq)]
pub enum Request {
    /// The first storage key after this one, in key order.
    NextKeyAfter(Vec<u8>),
    /// The value stored under this key.
    ValueAt(Vec<u8>),
    /// The walk is over; this is its weight.
    Done(Weight),
}

/// One step of the walk: a change to make first, if any, then a request.
#[derive(Debug, PartialEq, Eq)]
pub struct Step {
    pub write: Option<StorageWrite>,
    pub request: Request,
}

/// The step asks for the key that follows `key`.
pub open spec fn asks_next_key_after(r: Step, key: Seq<u8>) -> bool {
    r.request matches Request::NextKeyAfter(k) && k@ == key
}

/// The step asks for the value stored under `key`.
pub open spec fn asks_value_at(r: Step, key: Seq<u8>) -> bool {
    r.request matches Request::ValueAt(k) && k@ == key
}

/// The step stores the target storage version under `version_key`.
pub open spec fn stores_target_version(r: Step, version_key: Seq<u8>) -> bool {
    r.write matches Some(StorageWrite::Store(k, v)) && k@ == version_key && v@ == le_u16_bytes(
        TARGET_STORAGE_VERSION as int,
    )
}

/// The walk is waiting for the value under `key`.
pub open spec fn awaits_value_at(p: Phase, key: Seq<u8>) -> bool {
    p matches Phase::AwaitingValue(k) && k@ == key
}

/// The write that the walk makes for the value `raw` found under `key`:
/// none where it is a current-layout record; the current-layout encoding of
/// the upgraded record where it is a previous-layout record (bytes that, as a
/// whole, decode to that record); its removal otherwise.
pub open spec fn value_write(l: Layout, key: Seq<u8>, raw: Seq<u8>, w: Option<StorageWrite>) -> bool {
    if is_current_layout(raw, l) {
        w is None
    } else {
        match old_voting_session_at(raw, 0, l) {
            Some((o, _)) => w matches Some(StorageWrite::Store(k, bytes)) && {
                &&& k@ == key
                &&& bytes@ == voting_session_bytes(upgraded(o))
                &&& decodes_exactly(bytes@, l, upgraded(o))
            },
            None => w matches Some(StorageWrite::Clear(k)) && k@ == key,
        }
    }
}

/// The counts once the value `raw` has been dealt with.
pub open spec fn counts_after_value(c: MigrationCounts, l: Layout, raw: Seq<u8>) -> MigrationCounts {
    if is_current_layout(raw, l) {
        MigrationCounts { already_valid: (c.already_valid + 1) as u64, ..c }
    } else if old_voting_session_at(raw, 0, l) is Some {
        MigrationCounts { migrated: (c.migrated + 1) as u64, ..c }
    } else {
        MigrationCounts { removed: (c.removed + 1) as u64, ..c }
    }
}

/// What a stored value becomes in the upgrade: itself where it is a
/// current-layout record, the encoding of the upgraded record where it is a
/// previous-layout record, and nothing (the entry is removed) otherwise.
pub open spec fn value_after_upgrade(l: Layout, raw: Seq<u8>) -> Option<Seq<u8>> {
    if is_current_layout(raw, l) {
        Some(raw)
    } else {
        match old_voting_session_at(raw, 0, l) {
            Some((o, _)) => Some(voting_session_bytes(upgraded(o))),
            None => None,
        }
    }
}

/// Storage, as a map from keys to values, once a write is made.
pub open spec fn apply_write(s: Map<Seq<u8>, Seq<u8>>, w: Option<StorageWrite>) -> Map<
    Seq<u8>,
    Seq<u8>,
> {
    match w {
        None => s,
        Some(StorageWrite::Store(k, v)) => s.insert(k@, v@),
        Some(StorageWrite::Clear(k)) => s.remove(k@),
    }
}

/// Storage with `key` holding `v`, or without `key` where `v` is none.
pub open spec fn with_entry(s: Map<Seq<u8>, Seq<u8>>, key: Seq<u8>, v: Option<Seq<u8>>) -> Map<
    Seq<u8>,
    Seq<u8>,
> {
    match v {
        Some(x) => s.insert(key, x),
        None => s.remove(key),
    }
}

/// The storage version held in storage `s` under `version_key`.
pub open spec fn version_in(s: Map<Seq<u8>, Seq<u8>>, version_key: Seq<u8>) -> u16 {
    stored_version(
        if s.dom().contains(version_key) {
            Some(s[version_key])
        } else {
            None
        },
    )
}

/// Re-encoding of the `VotesRepository` entries after `confirmations` left
/// the voting-session record. The caller gives the on-chain storage version
/// to [`MigrateVotesRepository::on_runtime_upgrade`], then answers each request with
/// [`MigrateVotesRepository::on_next_key`] or
/// [`MigrateVotesRepository::on_value`], making each write first.
#[derive(Debug)]
pub struct MigrateVotesRepository {
    pub layout: Layout,
    pub db_weight: DbWeight,
    pub prefix: Vec<u8>,
    pub version_key: Vec<u8>,
    pub counts: MigrationCounts,
    pub phase: Phase,
}

impl MigrateVotesRepository {
    /// The counts leave room for the final weight's read and write counts.
    pub open spec fn wf(&self) -> bool {
        self.counts.total() < u64::MAX
    }

    /// A walk for the pallet named `pallet_name`, not started yet.
    pub fn new(pallet_name: &[u8], layout: Layout, db_weight: DbWeight) -> (r: Self)
        ensures
            r.wf(),
            r.layout == layout,
            r.db_weight == db_weight,
            r.prefix@ == item_prefix(pallet_name@, votes_repository_name()),
            r.version_key@ == item_prefix(pallet_name@, storage_version_name()),
            r.counts == (MigrationCounts { already_valid: 0, migrated: 0, removed: 0 }),
            r.phase == Phase::NotStarted,
    {
        MigrateVotesRepository {
            layout,
            db_weight,
            prefix: votes_repository_prefix(pallet_name),
            version_key: storage_version_key(pallet_name),
            counts: MigrationCounts { already_valid: 0, migrated: 0, removed: 0 },
            phase: Phase::NotStarted,
        }
    }

    /// Starts the walk at the first key of the map where the on-chain version
    /// is below the target; otherwise finishes at once, writing nothing and
    /// weighing nothing.
    pub fn on_runtime_upgrade(&mut self, onchain: u16) -> (r: Step)
        requires
            old(self).phase == Phase::NotStarted,
        ensures
            final(self).layout == old(self).layout,
            final(self).db_weight == old(self).db_weight,
            final(self).prefix == old(self).prefix,
            final(self).version_key == old(self).version_key,
            final(self).counts == old(self).counts,
            onchain < TARGET_STORAGE_VERSION ==> {
                &&& final(self).phase == Phase::AwaitingNextKey
                &&& r.write is None
                &&& asks_next_key_after(r, old(self).prefix@)
            },
            onchain >= TARGET_STORAGE_VERSION ==> {
                &&& final(self).phase == Phase::Finished
                &&& r.write is None
                &&& r.request == Request::Done(Weight { ref_time: 0, proof_size: 0 })
            },
    {
        if onchain < TARGET_STORAGE_VERSION {
            self.phase = Phase::AwaitingNextKey;
            Step { write: None, request: Request::NextKeyAfter(self.prefix.clone()) }
        } else {
            self.phase = Phase::Finished;
            Step { write: None, request: Request::Done(Weight { ref_time: 0, proof_size: 0 }) }
        }
    }

    /// The walk's last step: the target version is stored and the weight of
    /// the walk is reported.
    fn finish(&mut self) -> (r: Step)
        requires
            old(self).wf(),
        ensures
            final(self).layout == old(self).layout,
            final(self).db_weight == old(self).db_weight,
            final(self).prefix == old(self).prefix,
            final(self).version_key == old(self).version_key,
            final(self).counts == old(self).counts,
            final(self).phase == Phase::Finished,
            stores_target_version(r, old(self).version_key@),
            r.request == Request::Done(upgrade_weight(old(self).db_weight, old(self).counts)),
            r.request == Request::Done(
                reads_writes_weight(
                    old(self).db_weight,
                    (old(self).counts.total() + 1) as u64,
                    (old(self).counts.migrated + old(self).counts.removed + 1) as u64,
                ),
            ),
    {
        self.phase = Phase::Finished;
        let c = self.counts;
        let total = c.already_valid + c.migrated + c.removed;
        let weight = db_reads_writes(self.db_weight, total + 1, c.migrated + c.removed + 1);
        Step {
            write: Some(StorageWrite::Store(self.version_key.clone(), storage_version_value(TARGET_STORAGE_VERSION))),
            request: Request::Done(weight),
        }
    }

    /// Takes the key that follows the last one visited. Where there is none,
    /// or it lies outside the map, the walk finishes; otherwise its value is
    /// asked for.
    pub fn on_next_key(&mut self, next: Option<Vec<u8>>) -> (r: Step)
        requires
            old(self).wf(),
            old(self).phase == Phase::AwaitingNextKey,
        ensures
            final(self).wf(),
            final(self).layout == old(self).layout,
            final(self).db_weight == old(self).db_weight,
            final(self).prefix == old(self).prefix,
            final(self).version_key == old(self).version_key,
            final(self).counts == old(self).counts,
            match next {
                Some(k) if has_prefix(k@, old(self).prefix@) => {
                    &&& awaits_value_at(final(self).phase, k@)
                    &&& r.write is None
                    &&& asks_value_at(r, k@)
                },
                _ => {
                    &&& final(self).phase == Phase::Finished
                    &&& stores_target_version(r, old(self).version_key@)
                    &&& r.request == Request::Done(
                        upgrade_weight(old(self).db_weight, old(self).counts),
                    )
                    &&& r.request == Request::Done(
                        reads_writes_weight(
                            old(self).db_weight,
                            (old(self).counts.total() + 1) as u64,
                            (old(self).counts.migrated + old(self).counts.removed + 1) as u64,
                        ),
                    )
                },
            },
    {
        match next {
            Some(k) => {
                if starts_with(k.as_slice(), self.prefix.as_slice()) {
                    self.phase = Phase::AwaitingValue(k.clone());
                    Step { write: None, request: Request::ValueAt(k) }
                } else {
                    self.finish()
                }
            },
            None => self.finish(),
        }
    }

    /// Takes the value stored under the key just visited, decides what becomes
    /// of it (see [`classify_entry`]), counts it, and asks for the next key.
    /// A key with no value is passed over without being counted.
    pub fn on_value(&mut self, value: Option<Vec<u8>>) -> (r: Step)
        requires
            old(self).wf(),
            old(self).phase is AwaitingValue,
            old(self).counts.total() + 1 < u64::MAX,
        ensures
            final(self).wf(),
            final(self).layout == old(self).layout,
            final(self).db_weight == old(self).db_weight,
            final(self).prefix == old(self).prefix,
            final(self).version_key == old(self).version_key,
            final(self).phase == Phase::AwaitingNextKey,
            old(self).phase matches Phase::AwaitingValue(key) && {
                &&& asks_next_key_after(r, key@)
                &&& match value {
                    None => r.write is None && final(self).counts == old(self).counts,
                    Some(raw) => {
                        &&& value_write(old(self).layout, key@, raw@, r.write)
                        &&& final(self).counts == counts_after_value(
                            old(self).counts,
                            old(self).layout,
                            raw@,
                        )
                    },
                }
            },
            value matches Some(raw) && is_current_layout(raw@, old(self).layout) ==> {
                &&& r.write is None
                &&& final(self).counts.already_valid == old(self).counts.already_valid + 1
                &&& final(self).counts.migrated == old(self).counts.migrated
                &&& final(self).counts.removed == old(self).counts.removed
            },
            old(self).phase matches Phase::AwaitingValue(key) ==> (value matches Some(raw) ==> {
                let l = old(self).layout;
                &&& !is_current_layout(raw@, l) ==> (old_voting_session_at(raw@, 0, l) matches Some(
                    (o, _),
                ) ==> {
                    &&& r.write matches Some(StorageWrite::Store(k, bytes)) && {
                        &&& k@ == key@
                        &&& voting_session_at(bytes@, 0, l) matches Some((v, e)) && e
                            == bytes@.len() && same_fields(v, o)
                    }
                    &&& final(self).counts.already_valid == old(self).counts.already_valid
                    &&& final(self).counts.migrated == old(self).counts.migrated + 1
                    &&& final(self).counts.removed == old(self).counts.removed
                })
                &&& !is_current_layout(raw@, l) && old_voting_session_at(raw@, 0, l) is None ==> {
                    &&& r.write matches Some(StorageWrite::Clear(k)) && k@ == key@
                    &&& final(self).counts.already_valid == old(self).counts.already_valid
                    &&& final(self).counts.migrated == old(self).counts.migrated
                    &&& final(self).counts.removed == old(self).counts.removed + 1
                }
            }),
    {
        let key = match &self.phase {
            Phase::AwaitingValue(k) => k.clone(),
            _ => {
                return Step { write: None, request: Request::Done(Weight { ref_time: 0, proof_size: 0 }) };
            },
        };
        self.phase = Phase::AwaitingNextKey;
        let write = match value {
            None => None,
            Some(raw) => match classify_entry(&self.layout, raw.as_slice()) {
                EntryOutcome::AlreadyValid => {
                    self.counts.already_valid = self.counts.already_valid + 1;
                    None
                },
                EntryOutcome::Migrated(bytes) => {
                    self.counts.migrated = self.counts.migrated + 1;
                    Some(StorageWrite::Store(key.clone(), bytes))
                },
                EntryOutcome::Undecodable => {
                    self.counts.removed = self.counts.removed + 1;
                    Some(StorageWrite::Clear(key.clone()))
                },
            },
        };
        Step { write, request: Request::NextKeyAfter(key) }
    }
}

/// Why the check after the upgrade failed.
#[derive(Clone, Copy, Debug, PartialEq, Eq)]
pub enum PostUpgradeError {
    /// The storage version is not the target version.
    VersionNotUpdated,
    /// The state recorded before the upgrade does not decode as a count.
    UndecodableState,
    /// More entries are there after the upgrade than there were before.
    EntryCountIncreased,
}

/// Outcome of the check after the upgrade, given the on-chain version, the
/// state recorded before it, and the number of entries that now decode.
pub open spec fn post_upgrade_result(onchain: u16, state: Seq<u8>, count_after: u64) -> Result<
    (),
    PostUpgradeError,
> {
    if onchain != TARGET_STORAGE_VERSION {
        Err(PostUpgradeError::VersionNotUpdated)
    } else if state.len() < 8 {
        Err(PostUpgradeError::UndecodableState)
    } else if count_after > le_u64_value(state) {
        Err(PostUpgradeError::EntryCountIncreased)
    } else {
        Ok(())
    }
}

impl MigrateVotesRepository {
    /// The check after the upgrade: the version must be the target one, the
    /// recorded state must decode as the count of keys before the upgrade, and
    /// the entries that decode now may not outnumber it.
    pub fn post_upgrade(onchain: u16, state: &[u8], count_after: u64) -> (r: Result<
        (),
        PostUpgradeError,
    >)
        ensures
            r == post_upgrade_result(onchain, state@, count_after),
    {
        if onchain != TARGET_STORAGE_VERSION {
            return Err(PostUpgradeError::VersionNotUpdated);
        }
        let count_before = match decode_u64(state) {
            Some(c) => c,
            None => return Err(PostUpgradeError::UndecodableState),
        };
        if count_after <= count_before {
            Ok(())
        } else {
            Err(PostUpgradeError::EntryCountIncreased)
        }
    }

    /// The state recorded before the upgrade: the number of keys found, as
    /// eight little-endian bytes.
    pub fn pre_upgrade_state(count: u64) -> (r: Vec<u8>)
        ensures
            r@ == le_u64_bytes(count as int),
    {
        encode_u64(count)
    }
}

/// Counter of the keys under the map's prefix, taken before the upgrade. The
/// caller asks for the key after [`RawKeyCount::prefix`], then answers each
/// request with [`RawKeyCount::on_next_key`].
#[derive(Debug)]
pub struct RawKeyCount {
    pub prefix: Vec<u8>,
    pub count: u64,
    pub finished: bool,
}

/// What the key count asks of the caller next.
#[derive(Debug, PartialEq, Eq)]
pub enum CountStep {
    /// The first storage key after this one, in key order.
    NextKeyAfter(Vec<u8>),
    /// The count is over; this is the state to keep for the check after the
    /// upgrade.
    Done(Vec<u8>),
}

impl RawKeyCount {
    /// A count of the keys of the pallet's `VotesRepository` map.
    pub fn new(pallet_name: &[u8]) -> (r: Self)
        ensures
            r.prefix@ == item_prefix(pallet_name@, votes_repository_name()),
            r.count == 0,
            !r.finished,
    {
        RawKeyCount { prefix: votes_repository_prefix(pallet_name), count: 0, finished: false }
    }

    /// Takes the key that follows the last one counted: one under the prefix
    /// is counted and the next is asked for; otherwise the count is over.
    pub fn on_next_key(&mut self, next: Option<Vec<u8>>) -> (r: CountStep)
        requires
            !old(self).finished,
            old(self).count < u64::MAX,
        ensures
            final(self).prefix == old(self).prefix,
            match next {
                Some(k) if has_prefix(k@, old(self).prefix@) => {
                    &&& !final(self).finished
                    &&& final(self).count == old(self).count + 1
                    &&& r matches CountStep::NextKeyAfter(k2) && k2@ == k@
                },
                _ => {
                    &&& final(self).finished
                    &&& final(self).count == old(self).count
                    &&& r matches CountStep::Done(state) && state@ == le_u64_bytes(
                        old(self).count as int,
                    )
                },
            },
    {
        match next {
            Some(k) => {
                if starts_with(k.as_slice(), self.prefix.as_slice()) {
                    self.count = self.count + 1;
                    CountStep::NextKeyAfter(k)
                } else {
                    self.finished = true;
                    CountStep::Done(MigrateVotesRepository::pre_upgrade_state(self.count))
                }
            },
            None => {
                self.finished = true;
                CountStep::Done(MigrateVotesRepository::pre_upgrade_state(self.count))
            },
        }
    }
}

/// The state recorded before the upgrade holds the count it was made from:
/// the check after the upgrade passes on it exactly when the entries that
/// decode afterwards are no more than that count and the version is the
/// target one.
pub proof fn lemma_pre_post_upgrade(onchain: u16, count_before: u64, count_after: u64)
    ensures
        post_upgrade_result(onchain, le_u64_bytes(count_before as int), count_after) == if onchain
            != TARGET_STORAGE_VERSION {
            Err(PostUpgradeError::VersionNotUpdated)
        } else if count_after <= count_before {
            Ok(())
        } else {
            Err(PostUpgradeError::EntryCountIncreased)
        },
{
    lemma_le_u64_roundtrip(count_before as int, Seq::empty());
    assert(le_u64_bytes(count_before as int) + Seq::<u8>::empty() =~= le_u64_bytes(
        count_before as int,
    ));
}

/// The version value written at the end of the walk reads back as the target
/// version, so a later walk starts by finishing at once.
pub proof fn lemma_written_version_reads_back()
    ensures
        stored_version(Some(le_u16_bytes(TARGET_STORAGE_VERSION as int))) == TARGET_STORAGE_VERSION,
{
    lemma_le_u16_value_of_bytes(TARGET_STORAGE_VERSION as int);
}

/// A value that the walk replaces is replaced by one that a later walk keeps:
/// the new bytes are, as a whole, a current-layout record.
pub proof fn lemma_migrated_value_is_kept(l: Layout, raw: Seq<u8>)
    requires
        !is_current_layout(raw, l),
        old_voting_session_at(raw, 0, l) is Some,
    ensures
        old_voting_session_at(raw, 0, l) matches Some((o, _)) && is_current_layout(
            voting_session_bytes(upgraded(o)),
            l,
        ),
{
    lemma_old_decoded_fits(raw, 0, l);
    if let Some((o, _)) = old_voting_session_at(raw, 0, l) {
        lemma_encoding_decodes_exactly(upgraded(o), l);
    }
}

/// The walk's write for a value, made on any storage that holds that value
/// under the key, leaves the key holding what the value becomes in the
/// upgrade, and every other key as it was.
pub proof fn lemma_value_write_on_storage(
    s: Map<Seq<u8>, Seq<u8>>,
    l: Layout,
    key: Seq<u8>,
    raw: Seq<u8>,
    w: Option<StorageWrite>,
)
    requires
        value_write(l, key, raw, w),
        s.dom().contains(key),
        s[key] == raw,
    ensures
        apply_write(s, w) == with_entry(s, key, value_after_upgrade(l, raw)),
{
    if is_current_layout(raw, l) {
        assert(s.insert(key, raw) =~= s);
    }
}

/// A value that, as a whole, is a current-layout record comes out of the
/// upgrade as it went in, whatever its length.
pub proof fn lemma_current_value_is_kept(l: Layout, raw: Seq<u8>)
    requires
        is_current_layout(raw, l),
    ensures
        value_after_upgrade(l, raw) == Some(raw),
{
}

/// The encoding of a previous-layout record that fits the layout, whatever the
/// number of its signatures up to the validator bound, decodes in the previous
/// layout and not as a whole in the current one, so the upgrade replaces it
/// (it is neither kept nor removed) by the encoding of the record with every
/// field kept and the signatures dropped.
pub proof fn lemma_old_record_is_migrated(o: OldVotingSessionView, l: Layout)
    requires
        fits_old_layout(o, l),
    ensures
        !is_current_layout(old_voting_session_bytes(o), l),
        old_voting_session_at(old_voting_session_bytes(o), 0, l) == Some(
            (o, old_voting_session_bytes(o).len() as int),
        ),
        value_after_upgrade(l, old_voting_session_bytes(o)) == Some(
            voting_session_bytes(
                VotingSessionView {
                    voting_session_id: o.voting_session_id,
                    threshold: o.threshold,
                    ayes: o.ayes,
                    nays: o.nays,
                    end_of_voting_period: o.end_of_voting_period,
                    created_at_block: o.created_at_block,
                },
            ),
        ),
{
    let b = old_voting_session_bytes(o);
    lemma_old_voting_session_roundtrip(o, l, Seq::empty());
    assert(b + Seq::<u8>::empty() =~= b);
    lemma_old_encoding_is_not_current(o, l);
    lemma_upgraded_keeps_fields(o);
}

/// Every value that survives the upgrade starts with a current-layout record
/// (and, as a whole, is one).
pub proof fn lemma_survivors_are_current(l: Layout, raw: Seq<u8>)
    ensures
        value_after_upgrade(l, raw) matches Some(v) ==> is_current_layout(v, l)
            && voting_session_at(v, 0, l) is Some,
{
    if !is_current_layout(raw, l) && old_voting_session_at(raw, 0, l) is Some {
        lemma_migrated_value_is_kept(l, raw);
    }
}

/// A walk on the storage the upgrade leaves starts with no write and no
/// weight: where the upgrade ran, its last write stores the target version;
/// where it did not, the version already was at least the target and nothing
/// was written. Either way the version then held is at least the target, and
/// a walk started there finishes at once (see
/// [`MigrateVotesRepository::on_runtime_upgrade`]), leaving storage as it is.
pub proof fn lemma_upgrade_is_idempotent(
    s: Map<Seq<u8>, Seq<u8>>,
    version_key: Seq<u8>,
    onchain: u16,
    last: Step,
)
    requires
        onchain == version_in(s, version_key),
        onchain < TARGET_STORAGE_VERSION ==> stores_target_version(last, version_key),
        onchain >= TARGET_STORAGE_VERSION ==> last.write is None,
    ensures
        version_in(apply_write(s, last.write), version_key) >= TARGET_STORAGE_VERSION,
{
    if onchain < TARGET_STORAGE_VERSION {
        lemma_written_version_reads_back();
        let s2 = apply_write(s, last.write);
        assert(s2.dom().contains(version_key));
    }
}

/// Where the map's key is decodable, as the map's hasher (`Blake2_128Concat`)
/// leaves it: the bytes after the prefix and a 16-byte hash (none where fewer
/// than 16 bytes follow the prefix) hold at least the key's encoded width.
pub open spec fn map_key_decodes(key: Seq<u8>, prefix_len: nat, key_len: nat) -> bool {
    if key.len() < prefix_len + 16 {
        key_len == 0
    } else {
        key.len() - prefix_len - 16 >= key_len
    }
}

/// A key of the map's own with a key of nonzero encoded width decodes exactly
/// when, after the prefix and the 16-byte hash, it holds at least that width.
pub proof fn lemma_map_key_decodes_when_long_enough(key: Seq<u8>, prefix_len: nat, key_len: nat)
    requires
        key_len > 0,
    ensures
        map_key_decodes(key, prefix_len, key_len) <==> key.len() >= prefix_len + 16 + key_len,
{
}

/// An entry that a typed walk over the map yields: its key and its value both
/// decode (the value's front being a current-layout record).
pub open spec fn counted_entry(l: Layout, prefix_len: nat, key: Seq<u8>, raw: Seq<u8>) -> bool {
    &&& map_key_decodes(key, prefix_len, l.map_key_len as nat)
    &&& voting_session_at(raw, 0, l) is Some
}

/// Counter of the entries of the map that decode, taken after the upgrade for
/// its check. The caller asks for the key after [`DecodableCount::prefix`],
/// then answers each request with [`DecodableCount::on_next_key`] or
/// [`DecodableCount::on_value`].
#[derive(Debug)]
pub struct DecodableCount {
    pub layout: Layout,
    pub prefix: Vec<u8>,
    pub count: u64,
    pub phase: Phase,
}

/// What the count of decodable entries asks of the caller next.
#[derive(Debug, PartialEq, Eq)]
pub enum DecodableCountRequest {
    /// The first storage key after this one, in key order.
    NextKeyAfter(Vec<u8>),
    /// The value stored under this key.
    ValueAt(Vec<u8>),
    /// The count is over; this is the number of decodable entries.
    Done(u64),
}

impl DecodableCount {
    /// A count of the decodable entries of the pallet's `VotesRepository` map.
    pub fn new(pallet_name: &[u8], layout: Layout) -> (r: Self)
        ensures
            r.layout == layout,
            r.prefix@ == item_prefix(pallet_name@, votes_repository_name()),
            r.prefix@.len() == 32,
            r.count == 0,
            r.phase == Phase::AwaitingNextKey,
    {
        DecodableCount {
            layout,
            prefix: votes_repository_prefix(pallet_name),
            count: 0,
            phase: Phase::AwaitingNextKey,
        }
    }

    /// Takes the key that follows the last one visited: one under the prefix
    /// has its value asked for; otherwise the count is over.
    pub fn on_next_key(&mut self, next: Option<Vec<u8>>) -> (r: DecodableCountRequest)
        requires
            old(self).phase == Phase::AwaitingNextKey,
        ensures
            final(self).layout == old(self).layout,
            final(self).prefix == old(self).prefix,
            final(self).count == old(self).count,
            match next {
                Some(k) if has_prefix(k@, old(self).prefix@) => {
                    &&& awaits_value_at(final(self).phase, k@)
                    &&& r matches DecodableCountRequest::ValueAt(k2) && k2@ == k@
                },
                _ => {
                    &&& final(self).phase == Phase::Finished
                    &&& r == DecodableCountRequest::Done(old(self).count)
                },
            },
    {
        match next {
            Some(k) => {
                if starts_with(k.as_slice(), self.prefix.as_slice()) {
                    self.phase = Phase::AwaitingValue(k.clone());
                    DecodableCountRequest::ValueAt(k)
                } else {
                    self.phase = Phase::Finished;
                    DecodableCountRequest::Done(self.count)
                }
            },
            None => {
                self.phase = Phase::Finished;
                DecodableCountRequest::Done(self.count)
            },
        }
    }

    /// Takes the value under the key just visited, counts the entry where it
    /// decodes (see [`counted_entry`]), and asks for the next key.
    pub fn on_value(&mut self, value: Option<Vec<u8>>) -> (r: DecodableCountRequest)
        requires
            old(self).phase is AwaitingValue,
            old(self).count < u64::MAX,
        ensures
            final(self).layout == old(self).layout,
            final(self).prefix == old(self).prefix,
            final(self).phase == Phase::AwaitingNextKey,
            old(self).phase matches Phase::AwaitingValue(key) && {
                &&& r matches DecodableCountRequest::NextKeyAfter(k) && k@ == key@
                &&& final(self).count == if value matches Some(raw) && counted_entry(
                    old(self).layout,
                    old(self).prefix@.len(),
                    key@,
                    raw@,
                ) {
                    old(self).count + 1
                } else {
                    old(self).count as int
                }
            },
    {
        let key = match &self.phase {
            Phase::AwaitingValue(k) => k.clone(),
            _ => {
                return DecodableCountRequest::Done(self.count);
            },
        };
        self.phase = Phase::AwaitingNextKey;
        if let Some(raw) = value {
            let plen = self.prefix.len();
            let klen = self.layout.map_key_len;
            let key_ok = if key.len() < plen || key.len() - plen < 16 {
                klen == 0
            } else {
                key.len() - plen - 16 >= klen
            };
            if key_ok && value_decodes(&self.layout, raw.as_slice()) {
                self.count = self.count + 1;
            }
        }
        DecodableCountRequest::NextKeyAfter(key)
    }
}

/// The entries of the map, in key order, as they stand after the walk: where
/// the upgrade ran (version below the target), each value becomes what
/// [`value_after_upgrade`] says, a removed entry keeping its key with no value;
/// otherwise they are unchanged.
pub open spec fn entries_after_walk(
    onchain: u16,
    l: Layout,
    entries: Seq<(Seq<u8>, Seq<u8>)>,
) -> Seq<(Seq<u8>, Option<Seq<u8>>)> {
    entries.map_values(
        |e: (Seq<u8>, Seq<u8>)|
            (e.0, if onchain < TARGET_STORAGE_VERSION {
                value_after_upgrade(l, e.1)
            } else {
                Some(e.1)
            }),
    )
}

/// How many of the entries the count of decodable entries counts.
pub open spec fn decodable_entries(
    l: Layout,
    prefix_len: nat,
    entries: Seq<(Seq<u8>, Option<Seq<u8>>)>,
) -> nat
    decreases entries.len(),
{
    if entries.len() == 0 {
        0
    } else {
        decodable_entries(l, prefix_len, entries.drop_last()) + if entries.last().1 matches Some(
            v,
        ) && counted_entry(l, prefix_len, entries.last().0, v) {
            1nat
        } else {
            0nat
        }
    }
}

pub proof fn lemma_decodable_entries_bounded(
    l: Layout,
    prefix_len: nat,
    entries: Seq<(Seq<u8>, Option<Seq<u8>>)>,
)
    ensures
        decodable_entries(l, prefix_len, entries) <= entries.len(),
    decreases entries.len(),
{
    if entries.len() > 0 {
        lemma_decodable_entries_bounded(l, prefix_len, entries.drop_last());
    }
}

/// The upgrade passes its own check: for the map's entries under the prefix,
/// in key order, at a version not above the target, the state recorded before
/// the upgrade (the count of those keys) and the count of decodable entries
/// after the walk make the check after the upgrade succeed, the walk having
/// left the target version stored (see [`lemma_upgrade_is_idempotent`]).
pub proof fn lemma_upgrade_passes_its_check(
    onchain: u16,
    l: Layout,
    prefix_len: nat,
    entries: Seq<(Seq<u8>, Seq<u8>)>,
)
    requires
        onchain <= TARGET_STORAGE_VERSION,
        entries.len() <= u64::MAX,
    ensures
        decodable_entries(l, prefix_len, entries_after_walk(onchain, l, entries)) <= entries.len(),
        post_upgrade_result(
            TARGET_STORAGE_VERSION,
            le_u64_bytes(entries.len() as int),
            decodable_entries(l, prefix_len, entries_after_walk(onchain, l, entries)) as u64,
        ) == Ok::<(), PostUpgradeError>(()),
{
    let after = entries_after_walk(onchain, l, entries);
    lemma_decodable_entries_bounded(l, prefix_len, after);
    lemma_pre_post_upgrade(TARGET_STORAGE_VERSION, entries.len() as u64, decodable_entries(l, prefix_len, after) as u64);
}

} // verus!
