use parity_scale_codec::Encode;
use std::collections::BTreeMap;
use std::ops::Bound::{Excluded, Unbounded};
use summary_migration::keys::{
    on_chain_storage_version, starts_with, storage_prefix, storage_version_key,
    storage_version_value, votes_repository_prefix,
};
use summary_migration::migration::{
    classify_entry, value_decodes, CountStep, DecodableCount, DecodableCountRequest,
    EntryOutcome, MigrateVotesRepository,
    MigrationCounts, Phase, PostUpgradeError, RawKeyCount, Request, StorageWrite,
    TARGET_STORAGE_VERSION,
};
use summary_migration::record::{Layout, OldVotingSessionData, VotingSessionData};
use summary_migration::walk::{
    run_decodable_count, run_key_count, run_upgrade, upgrade_passes_its_check,
};
use summary_migration::weight::{DbWeight, Weight};

/// Accounts and block numbers as in the test runtime: `u64` and `u32`.
fn layout() -> Layout {
    Layout {
        account_len: 8,
        block_number_len: 4,
        session_id_bound: 64,
        max_validators: 10,
        map_key_len: 1,
    }
}

fn db() -> DbWeight {
    DbWeight { read: 25_000_000, write: 100_000_000 }
}

fn current_bytes(id: &[u8], threshold: u32, ayes: &[u64], nays: &[u64], end: u32, created: u32) -> Vec<u8> {
    (id.to_vec(), threshold, ayes.to_vec(), nays.to_vec(), end, created).encode()
}

fn old_bytes(
    id: &[u8],
    threshold: u32,
    ayes: &[u64],
    nays: &[u64],
    end: u32,
    confirmations: usize,
    created: u32,
) -> Vec<u8> {
    let sigs: Vec<[u8; 65]> = (0..confirmations).map(|i| [i as u8 + 1; 65]).collect();
    (id.to_vec(), threshold, ayes.to_vec(), nays.to_vec(), end, sigs, created).encode()
}

fn hex(s: &str) -> Vec<u8> {
    (0..s.len()).step_by(2).map(|i| u8::from_str_radix(&s[i..i + 2], 16).unwrap()).collect()
}

type Store = BTreeMap<Vec<u8>, Vec<u8>>;

fn next_key(store: &Store, after: &[u8]) -> Option<Vec<u8>> {
    store.range::<[u8], _>((Excluded(after), Unbounded)).next().map(|(k, _)| k.clone())
}

fn upgrade_store(store: &mut Store, pallet: &[u8], onchain: u16) -> (Weight, MigrationCounts) {
    let mut m = MigrateVotesRepository::new(pallet, layout(), db());
    let mut step = m.on_runtime_upgrade(onchain);
    loop {
        match step.write.take() {
            Some(StorageWrite::Store(k, v)) => {
                store.insert(k, v);
            },
            Some(StorageWrite::Clear(k)) => {
                store.remove(&k);
            },
            None => {},
        }
        step = match step.request {
            Request::NextKeyAfter(k) => m.on_next_key(next_key(store, &k)),
            Request::ValueAt(k) => m.on_value(store.get(&k).cloned()),
            Request::Done(w) => return (w, m.counts),
        };
    }
}

fn count_keys(store: &Store, pallet: &[u8]) -> Vec<u8> {
    let mut c = RawKeyCount::new(pallet);
    let mut after = c.prefix.clone();
    loop {
        match c.on_next_key(next_key(store, &after)) {
            CountStep::NextKeyAfter(k) => after = k,
            CountStep::Done(state) => return state,
        }
    }
}

fn count_decodable(store: &Store, pallet: &[u8]) -> u64 {
    let mut c = DecodableCount::new(pallet, layout());
    let mut req = DecodableCountRequest::NextKeyAfter(c.prefix.clone());
    loop {
        req = match req {
            DecodableCountRequest::NextKeyAfter(k) => c.on_next_key(next_key(store, &k)),
            DecodableCountRequest::ValueAt(k) => c.on_value(store.get(&k).cloned()),
            DecodableCountRequest::Done(n) => return n,
        };
    }
}

fn entry_key(prefix: &[u8], tag: u8) -> Vec<u8> {
    let mut k = prefix.to_vec();
    k.extend_from_slice(&[tag; 17]);
    k
}

#[test]
fn storage_prefix_is_the_two_name_hashes() {
    assert_eq!(
        storage_prefix(b"System", b"Number"),
        hex("26aa394eea5630e07c48ae0c9558cef702a5c1b19ab7a04f536c519aca4983ac")
    );
    let key = storage_version_key(b"System");
    assert_eq!(key[16..].to_vec(), hex("4e7b9012096b41c4eb3aaf947f6ea429"));
    assert_eq!(key[..16].to_vec(), hex("26aa394eea5630e07c48ae0c9558cef7"));
    let p = votes_repository_prefix(b"Summary");
    assert_eq!(p.len(), 32);
    assert_eq!(p[..16].to_vec(), sp_crypto_hashing::twox_128(b"Summary").to_vec());
    assert_eq!(p[16..].to_vec(), sp_crypto_hashing::twox_128(b"VotesRepository").to_vec());
}

#[test]
fn starts_with_compares_the_front() {
    assert!(starts_with(&[1, 2, 3], &[1, 2]));
    assert!(starts_with(&[1, 2, 3], &[]));
    assert!(!starts_with(&[1, 2], &[1, 2, 3]));
    assert!(!starts_with(&[1, 3, 3], &[1, 2]));
}

#[test]
fn storage_version_reads_and_writes() {
    assert_eq!(on_chain_storage_version(None), 0);
    assert_eq!(on_chain_storage_version(Some(&[1, 0])), 1);
    assert_eq!(on_chain_storage_version(Some(&[2, 1, 9])), 258);
    assert_eq!(on_chain_storage_version(Some(&[7])), 0);
    assert_eq!(storage_version_value(2), vec![2, 0]);
    assert_eq!(on_chain_storage_version(Some(&storage_version_value(TARGET_STORAGE_VERSION))), 2);
}

#[test]
fn current_record_decodes_and_encodes_back() {
    let raw = current_bytes(b"session-1", 2, &[1, 2], &[3], 40, 10);
    let d = VotingSessionData::decode_exact(&layout(), &raw).unwrap();
    assert_eq!(d.voting_session_id, b"session-1".to_vec());
    assert_eq!(d.threshold, 2);
    assert_eq!(d.ayes, vec![1u64.to_le_bytes().to_vec(), 2u64.to_le_bytes().to_vec()]);
    assert_eq!(d.nays, vec![3u64.to_le_bytes().to_vec()]);
    assert_eq!(d.end_of_voting_period, 40u32.to_le_bytes().to_vec());
    assert_eq!(d.created_at_block, 10u32.to_le_bytes().to_vec());
    assert_eq!(d.encode(), raw);

    let mut longer = raw.clone();
    longer.push(0);
    assert!(VotingSessionData::decode_exact(&layout(), &longer).is_none());
    let (_, used) = VotingSessionData::decode_prefix(&layout(), &longer).unwrap();
    assert_eq!(used, raw.len());
    assert!(VotingSessionData::decode_exact(&layout(), &raw[..raw.len() - 1]).is_none());
}

#[test]
fn long_compact_lengths_round_trip() {
    let id = vec![7u8; 300];
    let l = Layout { session_id_bound: 100_000, ..layout() };
    let raw = current_bytes(&id, 70_000, &[], &[], 1, 2);
    let d = VotingSessionData::decode_exact(&l, &raw).unwrap();
    assert_eq!(d.voting_session_id, id);
    assert_eq!(d.threshold, 70_000);
    assert_eq!(d.encode(), raw);

    let id = vec![1u8; 70_000];
    let raw = current_bytes(&id, 1, &[], &[], 1, 2);
    assert_eq!(raw[..4].to_vec(), parity_scale_codec::Compact(70_000u32).encode());
    assert_eq!(VotingSessionData::decode_exact(&l, &raw).unwrap().voting_session_id.len(), 70_000);
}

#[test]
fn non_canonical_length_prefix_is_refused() {
    // Length 1 written in the two-byte mode.
    let raw = [vec![0x05, 0x00, 0xAA], 1u32.encode(), vec![0, 0], 1u32.encode(), 2u32.encode()].concat();
    assert!(VotingSessionData::decode_prefix(&layout(), &raw).is_none());
    let ok = [vec![0x04, 0xAA], 1u32.encode(), vec![0, 0], 1u32.encode(), 2u32.encode()].concat();
    assert!(VotingSessionData::decode_exact(&layout(), &ok).is_some());
}

#[test]
fn bounds_are_enforced() {
    let raw = current_bytes(&[9u8; 65], 1, &[], &[], 1, 2);
    assert!(VotingSessionData::decode_exact(&layout(), &raw).is_none());
    let raw = current_bytes(&[9u8; 64], 1, &[], &[], 1, 2);
    assert!(VotingSessionData::decode_exact(&layout(), &raw).is_some());
    let many: Vec<u64> = (0..11).collect();
    let raw = current_bytes(b"s", 1, &many, &[], 1, 2);
    assert!(VotingSessionData::decode_exact(&layout(), &raw).is_none());
    assert_eq!(classify_entry(&layout(), &raw), EntryOutcome::Undecodable);
}

#[test]
fn old_record_decodes_and_upgrades() {
    let raw = old_bytes(b"abc", 3, &[1, 2, 3], &[], 99, 2, 50);
    let old = OldVotingSessionData::decode(&layout(), &raw).unwrap();
    assert_eq!(old.confirmations.len(), 2);
    assert_eq!(old.confirmations[1], vec![2u8; 65]);
    let new = old.into_current();
    assert_eq!(new.encode(), current_bytes(b"abc", 3, &[1, 2, 3], &[], 99, 50));
}

#[test]
fn classification_of_entries() {
    let l = layout();
    let current = current_bytes(b"id", 1, &[1], &[2], 5, 6);
    assert_eq!(classify_entry(&l, &current), EntryOutcome::AlreadyValid);

    let old = old_bytes(b"id", 1, &[1], &[2], 5, 3, 6);
    let expected = current_bytes(b"id", 1, &[1], &[2], 5, 6);
    assert_eq!(classify_entry(&l, &old), EntryOutcome::Migrated(expected.clone()));
    assert_eq!(classify_entry(&l, &expected), EntryOutcome::AlreadyValid);

    // An old record with no confirmations differs from a current one only by one zero byte.
    let old_empty = old_bytes(b"id", 1, &[1], &[2], 5, 0, 6);
    assert_eq!(classify_entry(&l, &old_empty), EntryOutcome::Migrated(expected));

    assert_eq!(classify_entry(&l, &[0xff, 0xff]), EntryOutcome::Undecodable);
    assert_eq!(classify_entry(&l, &[]), EntryOutcome::Undecodable);
    assert!(value_decodes(&l, &current));
    assert!(!value_decodes(&l, &[0x08]));
}

#[test]
fn upgrade_walks_the_map_and_stores_the_version() {
    let pallet = b"Summary";
    let prefix = votes_repository_prefix(pallet);
    let mut store = Store::new();
    let valid = current_bytes(b"a", 1, &[1], &[], 5, 6);
    let old1 = old_bytes(b"b", 2, &[2], &[3], 7, 1, 8);
    let old2 = old_bytes(b"c", 3, &[], &[], 9, 2, 10);
    store.insert(entry_key(&prefix, 1), valid.clone());
    store.insert(entry_key(&prefix, 2), old1);
    store.insert(entry_key(&prefix, 3), vec![1, 2, 3]);
    store.insert(entry_key(&prefix, 4), old2);
    let mut before = prefix.clone();
    *before.last_mut().unwrap() -= 1;
    let mut after = prefix.clone();
    *after.last_mut().unwrap() += 1;
    store.insert(before.clone(), vec![0xee]);
    store.insert(after.clone(), vec![0xdd]);

    let (weight, counts) = upgrade_store(&mut store, pallet, 1);
    assert_eq!(counts, MigrationCounts { already_valid: 1, migrated: 2, removed: 1 });
    // reads: 4 entries + 1, writes: 3 changed entries + 1
    assert_eq!(weight, Weight { ref_time: 5 * 25_000_000 + 4 * 100_000_000, proof_size: 0 });
    assert_eq!(store.get(&entry_key(&prefix, 1)), Some(&valid));
    assert_eq!(store.get(&entry_key(&prefix, 2)), Some(&current_bytes(b"b", 2, &[2], &[3], 7, 8)));
    assert_eq!(store.get(&entry_key(&prefix, 3)), None);
    assert_eq!(store.get(&entry_key(&prefix, 4)), Some(&current_bytes(b"c", 3, &[], &[], 9, 10)));
    assert_eq!(store.get(&before), Some(&vec![0xee]));
    assert_eq!(store.get(&after), Some(&vec![0xdd]));
    assert_eq!(store.get(&storage_version_key(pallet)), Some(&vec![2, 0]));

    // A second run finds the version up to date and does nothing.
    let snapshot = store.clone();
    let version = on_chain_storage_version(store.get(&storage_version_key(pallet)).map(|v| v.as_slice()));
    let (weight, counts) = upgrade_store(&mut store, pallet, version);
    assert_eq!(weight, Weight { ref_time: 0, proof_size: 0 });
    assert_eq!(counts, MigrationCounts { already_valid: 0, migrated: 0, removed: 0 });
    assert_eq!(store, snapshot);
}

#[test]
fn upgrade_over_an_empty_map_only_stores_the_version() {
    let mut store = Store::new();
    let (weight, counts) = upgrade_store(&mut store, b"Summary", 0);
    assert_eq!(counts, MigrationCounts { already_valid: 0, migrated: 0, removed: 0 });
    assert_eq!(weight, Weight { ref_time: 125_000_000, proof_size: 0 });
    assert_eq!(store.len(), 1);
    assert_eq!(store.get(&storage_version_key(b"Summary")), Some(&vec![2, 0]));
}

#[test]
fn a_key_without_a_value_is_passed_over() {
    let mut m = MigrateVotesRepository::new(b"Summary", layout(), db());
    let k = entry_key(&m.prefix, 5);
    m.on_runtime_upgrade(0);
    let step = m.on_next_key(Some(k.clone()));
    assert_eq!(step.request, Request::ValueAt(k.clone()));
    assert_eq!(m.phase, Phase::AwaitingValue(k.clone()));
    let step = m.on_value(None);
    assert!(step.write.is_none());
    assert_eq!(step.request, Request::NextKeyAfter(k));
    assert_eq!(m.counts, MigrationCounts { already_valid: 0, migrated: 0, removed: 0 });
    let step = m.on_next_key(None);
    assert_eq!(step.write, Some(StorageWrite::Store(m.version_key.clone(), vec![2, 0])));
    assert_eq!(step.request, Request::Done(Weight { ref_time: 125_000_000, proof_size: 0 }));
    assert_eq!(m.phase, Phase::Finished);
}

#[test]
fn weight_saturates() {
    let mut m = MigrateVotesRepository::new(b"Summary", layout(), DbWeight { read: u64::MAX, write: 3 });
    m.on_runtime_upgrade(1);
    let step = m.on_next_key(None);
    assert_eq!(step.request, Request::Done(Weight { ref_time: u64::MAX, proof_size: 0 }));
}

#[test]
fn pre_and_post_upgrade_checks() {
    let pallet = b"Summary";
    let prefix = votes_repository_prefix(pallet);
    let mut store = Store::new();
    store.insert(entry_key(&prefix, 1), current_bytes(b"a", 1, &[], &[], 1, 1));
    store.insert(entry_key(&prefix, 2), vec![9, 9, 9]);
    store.insert(entry_key(&prefix, 3), old_bytes(b"x", 1, &[], &[], 1, 1, 1));
    let mut after = prefix.clone();
    *after.last_mut().unwrap() += 1;
    store.insert(after, vec![1]);

    let state = count_keys(&store, pallet);
    assert_eq!(state, 3u64.encode());
    assert_eq!(MigrateVotesRepository::pre_upgrade_state(3), vec![3, 0, 0, 0, 0, 0, 0, 0]);

    upgrade_store(&mut store, pallet, 0);
    let count_after = count_decodable(&store, pallet);
    assert_eq!(count_after, 2);
    assert_eq!(MigrateVotesRepository::post_upgrade(2, &state, count_after), Ok(()));
    assert_eq!(
        MigrateVotesRepository::post_upgrade(1, &state, count_after),
        Err(PostUpgradeError::VersionNotUpdated)
    );
    assert_eq!(
        MigrateVotesRepository::post_upgrade(2, &state[..7], count_after),
        Err(PostUpgradeError::UndecodableState)
    );
    assert_eq!(
        MigrateVotesRepository::post_upgrade(2, &state, 4),
        Err(PostUpgradeError::EntryCountIncreased)
    );
    assert_eq!(MigrateVotesRepository::post_upgrade(2, &[3, 0, 0, 0, 0, 0, 0, 0, 5], 3), Ok(()));
}

#[test]
fn decodable_count_needs_key_and_value_to_decode() {
    let pallet = b"Summary";
    let prefix = votes_repository_prefix(pallet);
    let good = current_bytes(b"a", 1, &[], &[], 1, 1);
    let mut store = Store::new();
    store.insert(entry_key(&prefix, 1), good.clone());
    // Hash present but no key byte: the map key does not decode.
    let mut short = prefix.clone();
    short.extend_from_slice(&[7u8; 16]);
    store.insert(short.clone(), good.clone());
    // Key fine, value does not decode.
    store.insert(entry_key(&prefix, 2), vec![0xff]);
    // Value with trailing bytes: its front decodes, so it counts.
    let mut trailing = good.clone();
    trailing.push(1);
    store.insert(entry_key(&prefix, 3), trailing);
    assert_eq!(count_decodable(&store, pallet), 2);

    let mut c = DecodableCount::new(pallet, layout());
    assert_eq!(c.on_next_key(Some(short.clone())), DecodableCountRequest::ValueAt(short.clone()));
    assert_eq!(c.on_value(Some(good.clone())), DecodableCountRequest::NextKeyAfter(short));
    assert_eq!(c.count, 0);
    assert_eq!(c.on_next_key(Some(entry_key(&prefix, 4))), DecodableCountRequest::ValueAt(entry_key(&prefix, 4)));
    c.on_value(Some(good));
    assert_eq!(c.count, 1);
    assert_eq!(c.on_next_key(None), DecodableCountRequest::Done(1));

    // With a zero-width key, even a short hash leaves a decodable key.
    let l0 = Layout { map_key_len: 0, ..layout() };
    let mut c = DecodableCount::new(pallet, l0);
    let mut shorter = prefix.clone();
    shorter.push(1);
    c.on_next_key(Some(shorter));
    c.on_value(Some(current_bytes(b"a", 1, &[], &[], 1, 1)));
    assert_eq!(c.count, 1);
    assert!(value_decodes(&layout(), &current_bytes(b"a", 1, &[], &[], 1, 1)));
}

#[test]
fn upgrade_then_check_passes_with_removals() {
    let pallet = b"Summary";
    let prefix = votes_repository_prefix(pallet);
    let mut store = Store::new();
    for i in 0..5u8 {
        let v = if i % 2 == 0 { old_bytes(b"s", i as u32, &[1], &[], 1, 2, 3) } else { vec![i; 3] };
        store.insert(entry_key(&prefix, i), v);
    }
    let state = count_keys(&store, pallet);
    upgrade_store(&mut store, pallet, 1);
    let version = on_chain_storage_version(store.get(&storage_version_key(pallet)).map(|v| v.as_slice()));
    assert_eq!(version, TARGET_STORAGE_VERSION);
    let count_after = count_decodable(&store, pallet);
    assert_eq!(count_after, 3);
    assert_eq!(MigrateVotesRepository::post_upgrade(version, &state, count_after), Ok(()));
}

#[test]
fn walks_over_key_ordered_entries() {
    let pallet = b"Summary";
    let prefix = votes_repository_prefix(pallet);
    let entries: Vec<(Vec<u8>, Vec<u8>)> = vec![
        (entry_key(&prefix, 1), current_bytes(b"a", 1, &[1], &[], 5, 6)),
        (entry_key(&prefix, 2), old_bytes(b"b", 2, &[2], &[3], 7, 1, 8)),
        (entry_key(&prefix, 3), vec![0xff]),
    ];
    assert_eq!(run_key_count(pallet, &entries), 3u64.encode());

    let (after, last) = run_upgrade(pallet, layout(), db(), 1, &entries);
    assert_eq!(after[0], (entry_key(&prefix, 1), Some(entries[0].1.clone())));
    assert_eq!(after[1], (entry_key(&prefix, 2), Some(current_bytes(b"b", 2, &[2], &[3], 7, 8))));
    assert_eq!(after[2], (entry_key(&prefix, 3), None));
    assert_eq!(last.write, Some(StorageWrite::Store(storage_version_key(pallet), vec![2, 0])));
    assert_eq!(last.request, Request::Done(Weight { ref_time: 4 * 25_000_000 + 3 * 100_000_000, proof_size: 0 }));
    assert_eq!(run_decodable_count(pallet, layout(), &after), 2);

    let (unchanged, last) = run_upgrade(pallet, layout(), db(), 2, &entries);
    assert_eq!(unchanged[2], (entry_key(&prefix, 3), Some(vec![0xff])));
    assert!(last.write.is_none());
    assert_eq!(last.request, Request::Done(Weight { ref_time: 0, proof_size: 0 }));

    assert_eq!(upgrade_passes_its_check(pallet, layout(), db(), 0, &entries), Ok(()));
    assert_eq!(upgrade_passes_its_check(pallet, layout(), db(), 2, &entries), Ok(()));
}
