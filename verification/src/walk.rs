//! The three walks of the upgrade run, one after the other, over the map's
//! entries under its prefix, in key order: the key count taken before the
//! upgrade, the re-encoding walk, and the count of decodable entries taken
//! after it. Each walk is driven through its state machine's steps exactly
//! as the runtime drives it over storage, each answer being the next entry.

use crate::keys::{
    has_prefix, item_prefix, on_chain_storage_version, storage_version_name,
    votes_repository_name,
};
use crate::migration::{
    counted_entry, counts_after_value, decodable_entries, entries_after_walk,
    lemma_current_value_is_kept, lemma_decodable_entries_bounded, lemma_survivors_are_current, lemma_upgrade_passes_its_check, lemma_written_version_reads_back,
    stores_target_version, value_after_upgrade, value_write, CountStep, DecodableCount, DecodableCountRequest, MigrateVotesRepository, MigrationCounts,
    Phase, PostUpgradeError, RawKeyCount, Request, Step, StorageWrite, TARGET_STORAGE_VERSION,
};
use crate::record::{is_current_layout, Layout};
use crate::scale::le_u64_bytes;
use crate::weight::{reads_writes_weight, DbWeight};
use vstd::prelude::*;

verus! {

/// The contents of a sequence of entries.
pub open spec fn entry_views(e: Seq<(Vec<u8>, Vec<u8>)>) -> Seq<(Seq<u8>, Seq<u8>)> {
    e.map_values(|x: (Vec<u8>, Vec<u8>)| (x.0@, x.1@))
}

/// The contents of a sequence of entries whose values may be gone.
pub open spec fn entry_views_after(e: Seq<(Vec<u8>, Option<Vec<u8>>)>) -> Seq<
    (Seq<u8>, Option<Seq<u8>>),
> {
    e.map_values(
        |x: (Vec<u8>, Option<Vec<u8>>)|
            (
                x.0@,
                match x.1 {
                    Some(v) => Some(v@),
                    None => None,
                },
            ),
    )
}

/// Every key lies under the `VotesRepository` prefix of the pallet.
pub open spec fn keys_under_map(pallet_name: Seq<u8>, keys: Seq<Seq<u8>>) -> bool {
    forall|i: int|
        0 <= i < keys.len() ==> has_prefix(
            #[trigger] keys[i],
            item_prefix(pallet_name, votes_repository_name()),
        )
}

/// The keys of a sequence of entries.
pub open spec fn keys_of<V>(e: Seq<(Vec<u8>, V)>) -> Seq<Seq<u8>> {
    e.map_values(|x: (Vec<u8>, V)| x.0@)
}

/// How many of the entries the upgrade writes or removes: those whose value is
/// not, as a whole, a current-layout record.
pub open spec fn changed_entries(l: Layout, entries: Seq<(Seq<u8>, Seq<u8>)>) -> nat
    decreases entries.len(),
{
    if entries.len() == 0 {
        0
    } else {
        changed_entries(l, entries.drop_last()) + if is_current_layout(entries.last().1, l) {
            0nat
        } else {
            1nat
        }
    }
}

/// Where every value already is a current-layout record, the upgrade writes
/// or removes none of them.
pub proof fn lemma_all_current_changes_nothing(l: Layout, entries: Seq<(Seq<u8>, Seq<u8>)>)
    requires
        forall|i: int| 0 <= i < entries.len() ==> is_current_layout(#[trigger] entries[i].1, l),
    ensures
        changed_entries(l, entries) == 0,
    decreases entries.len(),
{
    if entries.len() > 0 {
        let d = entries.drop_last();
        assert forall|i: int| 0 <= i < d.len() implies is_current_layout(#[trigger] d[i].1, l) by {
            assert(d[i] == entries[i]);
        }
        lemma_all_current_changes_nothing(l, d);
        assert(is_current_layout(entries[entries.len() - 1].1, l));
    }
}

/// The key count taken before the upgrade, over the map's entries in key
/// order: the state it records is the number of entries, encoded.
pub fn run_key_count(pallet_name: &[u8], entries: &Vec<(Vec<u8>, Vec<u8>)>) -> (r: Vec<u8>)
    requires
        keys_under_map(pallet_name@, keys_of(entries@)),
        entries@.len() < u64::MAX,
    ensures
        r@ == le_u64_bytes(entries@.len() as int),
{
    let mut c = RawKeyCount::new(pallet_name);
    let n = entries.len();
    let mut i: usize = 0;
    while i < n
        invariant
            n == entries@.len(),
            n < u64::MAX,
            i <= n,
            keys_under_map(pallet_name@, keys_of(entries@)),
            c.prefix@ == item_prefix(pallet_name@, votes_repository_name()),
            c.count == i,
            !c.finished,
        decreases n - i,
    {
        let k = entries[i].0.clone();
        assert(keys_of(entries@)[i as int] == entries@[i as int].0@);
        let _ = c.on_next_key(Some(k));
        i = i + 1;
    }
    match c.on_next_key(None) {
        CountStep::Done(state) => state,
        CountStep::NextKeyAfter(_) => Vec::new(),
    }
}

/// The re-encoding walk over the map's entries in key order, each write made
/// on the entry it concerns. Where the version is below the target, every
/// value becomes what [`value_after_upgrade`] says (a removed entry keeping
/// its key with no value), every value left is, as a whole, a current-layout
/// record, and the last step stores the target version; otherwise the walk
/// ends at once and nothing changes. Returns the entries as left, and the
/// walk's last step.
pub fn run_upgrade(
    pallet_name: &[u8],
    layout: Layout,
    db_weight: DbWeight,
    onchain: u16,
    entries: &Vec<(Vec<u8>, Vec<u8>)>,
) -> (r: (Vec<(Vec<u8>, Option<Vec<u8>>)>, Step))
    requires
        keys_under_map(pallet_name@, keys_of(entries@)),
        entries@.len() + 1 < u64::MAX,
    ensures
        entry_views_after(r.0@) == entries_after_walk(onchain, layout, entry_views(entries@)),
        keys_of(r.0@) == keys_of(entries@),
        r.0@.len() == entries@.len(),
        onchain < TARGET_STORAGE_VERSION ==> forall|i: int|
            0 <= i < r.0@.len() ==> ((#[trigger] entry_views_after(r.0@)[i]).1 matches Some(v)
                ==> is_current_layout(v, layout)),
        onchain < TARGET_STORAGE_VERSION ==> stores_target_version(
            r.1,
            item_prefix(pallet_name@, storage_version_name()),
        ),
        onchain >= TARGET_STORAGE_VERSION ==> r.1.write is None,
        r.1.request is Done,
        onchain < TARGET_STORAGE_VERSION ==> forall|i: int|
            0 <= i < entries@.len() && is_current_layout(#[trigger] entries@[i].1@, layout)
                ==> entry_views_after(r.0@)[i].1 == Some(entries@[i].1@),
        onchain < TARGET_STORAGE_VERSION ==> r.1.request == Request::Done(
            reads_writes_weight(
                db_weight,
                (entries@.len() + 1) as u64,
                (changed_entries(layout, entry_views(entries@)) + 1) as u64,
            ),
        ),
{
    let ghost target = entries_after_walk(onchain, layout, entry_views(entries@));
    let mut m = MigrateVotesRepository::new(pallet_name, layout, db_weight);
    let first = m.on_runtime_upgrade(onchain);
    let n = entries.len();
    let mut after: Vec<(Vec<u8>, Option<Vec<u8>>)> = Vec::new();
    let mut i: usize = 0;
    if onchain >= TARGET_STORAGE_VERSION {
        while i < n
            invariant
                n == entries@.len(),
                i <= n,
                onchain >= TARGET_STORAGE_VERSION,
                target == entries_after_walk(onchain, layout, entry_views(entries@)),
                entry_views_after(after@) =~= target.take(i as int),
                keys_of(after@) =~= keys_of(entries@).take(i as int),
            decreases n - i,
        {
            let ghost before = after@;
            after.push((entries[i].0.clone(), Some(entries[i].1.clone())));
            assert(entry_views_after(after@) =~= entry_views_after(before).push(target[i as int]));
            assert(target.take(i + 1) =~= target.take(i as int).push(target[i as int]));
            assert(keys_of(entries@).take(i + 1) =~= keys_of(entries@).take(i as int).push(
                entries@[i as int].0@,
            ));
            assert(keys_of(after@) =~= keys_of(before).push(entries@[i as int].0@));
            i = i + 1;
        }
        assert(target.take(n as int) =~= target);
        assert(keys_of(entries@).take(n as int) =~= keys_of(entries@));
        return (after, first);
    }
    while i < n
        invariant
            n == entries@.len(),
            n + 1 < u64::MAX,
            i <= n,
            onchain < TARGET_STORAGE_VERSION,
            keys_under_map(pallet_name@, keys_of(entries@)),
            target == entries_after_walk(onchain, layout, entry_views(entries@)),
            entry_views_after(after@) =~= target.take(i as int),
            keys_of(after@) =~= keys_of(entries@).take(i as int),
            m.wf(),
            m.layout == layout,
            m.prefix@ == item_prefix(pallet_name@, votes_repository_name()),
            m.version_key@ == item_prefix(pallet_name@, storage_version_name()),
            m.phase == Phase::AwaitingNextKey,
            m.counts.total() == i,
            m.db_weight == db_weight,
            m.counts.migrated + m.counts.removed == changed_entries(
                layout,
                entry_views(entries@).take(i as int),
            ),
        decreases n - i,
    {
        let k = entries[i].0.clone();
        assert(keys_of(entries@)[i as int] == entries@[i as int].0@);
        let _ = m.on_next_key(Some(k));
        let v = entries[i].1.clone();
        let ghost c = m.counts;
        let step = m.on_value(Some(v));
        proof {
            let ca = counts_after_value(c, layout, entries@[i as int].1@);
            assert(ca.total() == c.total() + 1);
            let ev = entry_views(entries@);
            assert(ev.take(i + 1).drop_last() =~= ev.take(i as int));
            assert(ev.take(i + 1).last() == ev[i as int]);
        }
        let new_value = match step.write {
            None => Some(entries[i].1.clone()),
            Some(StorageWrite::Store(_, bytes)) => Some(bytes),
            Some(StorageWrite::Clear(_)) => None,
        };
        let ghost before = after@;
        after.push((entries[i].0.clone(), new_value));
        assert(target[i as int] == (entries@[i as int].0@, value_after_upgrade(
            layout,
            entries@[i as int].1@,
        )));
        assert(entry_views_after(after@) =~= entry_views_after(before).push(target[i as int]));
        assert(target.take(i + 1) =~= target.take(i as int).push(target[i as int]));
        assert(keys_of(entries@).take(i + 1) =~= keys_of(entries@).take(i as int).push(
            entries@[i as int].0@,
        ));
        assert(keys_of(after@) =~= keys_of(before).push(entries@[i as int].0@));
        i = i + 1;
    }
    assert(target.take(n as int) =~= target);
    assert(keys_of(entries@).take(n as int) =~= keys_of(entries@));
    let last = m.on_next_key(None);
    assert(entry_views(entries@).take(n as int) =~= entry_views(entries@));
    assert forall|j: int|
        0 <= j < entries@.len() && is_current_layout(
            #[trigger] entries@[j].1@,
            layout,
        ) implies entry_views_after(after@)[j].1 == Some(entries@[j].1@) by {
        lemma_current_value_is_kept(layout, entries@[j].1@);
        assert(target[j] == (entries@[j].0@, value_after_upgrade(layout, entries@[j].1@)));
    }
    assert forall|j: int| 0 <= j < after@.len() implies ((#[trigger] entry_views_after(
        after@,
    )[j]).1 matches Some(v) ==> is_current_layout(v, layout)) by {
        lemma_survivors_are_current(layout, entries@[j].1@);
    }
    (after, last)
}

/// The count of decodable entries taken after the upgrade, over the map's
/// entries in key order (an entry with no value being passed over).
pub fn run_decodable_count(
    pallet_name: &[u8],
    layout: Layout,
    entries: &Vec<(Vec<u8>, Option<Vec<u8>>)>,
) -> (r: u64)
    requires
        keys_under_map(pallet_name@, keys_of(entries@)),
        entries@.len() < u64::MAX,
    ensures
        r == decodable_entries(layout, 32, entry_views_after(entries@)),
{
    let ghost es = entry_views_after(entries@);
    let mut c = DecodableCount::new(pallet_name, layout);
    let n = entries.len();
    let mut i: usize = 0;
    while i < n
        invariant
            n == entries@.len(),
            n < u64::MAX,
            i <= n,
            es == entry_views_after(entries@),
            keys_under_map(pallet_name@, keys_of(entries@)),
            c.layout == layout,
            c.prefix@ == item_prefix(pallet_name@, votes_repository_name()),
            c.prefix@.len() == 32,
            c.phase == Phase::AwaitingNextKey,
            c.count == decodable_entries(layout, 32, es.take(i as int)),
        decreases n - i,
    {
        proof {
            lemma_decodable_entries_bounded(layout, 32, es.take(i as int));
        }
        let k = entries[i].0.clone();
        assert(keys_of(entries@)[i as int] == entries@[i as int].0@);
        let _ = c.on_next_key(Some(k));
        let v = entries[i].1.clone();
        let _ = c.on_value(v);
        assert(es.take(i + 1).drop_last() =~= es.take(i as int));
        assert(es.take(i + 1).last() == es[i as int]);
        i = i + 1;
    }
    assert(es.take(n as int) =~= es);
    match c.on_next_key(None) {
        DecodableCountRequest::Done(count) => count,
        _ => 0,
    }
}

/// The upgrade passes its own check. On the map's entries under its prefix,
/// in key order, at a version not above the target: the state the key count
/// records before the upgrade, the version the upgrade leaves, and the count
/// of decodable entries after it, handed to the check after the upgrade, make
/// it succeed.
pub fn upgrade_passes_its_check(
    pallet_name: &[u8],
    layout: Layout,
    db_weight: DbWeight,
    onchain: u16,
    entries: &Vec<(Vec<u8>, Vec<u8>)>,
) -> (r: Result<(), PostUpgradeError>)
    requires
        onchain <= TARGET_STORAGE_VERSION,
        keys_under_map(pallet_name@, keys_of(entries@)),
        entries@.len() + 1 < u64::MAX,
    ensures
        r == Ok::<(), PostUpgradeError>(()),
{
    let state = run_key_count(pallet_name, entries);
    let (after, last) = run_upgrade(pallet_name, layout, db_weight, onchain, entries);
    proof {
        lemma_written_version_reads_back();
    }
    let version = match &last.write {
        Some(StorageWrite::Store(_, v)) => on_chain_storage_version(Some(v.as_slice())),
        _ => onchain,
    };
    let count_after = run_decodable_count(pallet_name, layout, &after);
    proof {
        lemma_upgrade_passes_its_check(onchain, layout, 32, entry_views(entries@));
    }
    MigrateVotesRepository::post_upgrade(version, &state, count_after)
}

} // verus!
