//! In-memory upgrades of frozen stations.

use vstd::prelude::*;
use vstd::std_specs::convert::FromSpecImpl;

use crate::barrier::{
    first_missing, BarrierController, BarrierMetrics, BarrierRuntimeError, SnapshotMeta,
    SnapshotVersion, StationSnapshot,
};
use crate::ids::StationId;
use crate::num::clamp_usize;
use crate::packets::{asked, linked};
use crate::station::{Station, StationConfig};
use crate::station_registry::{law_lookups_find_the_first_entry, position_of};
use crate::station_set::StationSet;

verus! {

/// Embedder hook around an upgrade.
pub trait RuntimeUpgradeHook {
    /// Called before a snapshot is migrated.
    fn pre_upgrade(&mut self, meta: &SnapshotMeta);

    /// Migrates a snapshot to the new version.
    fn migrate_state(&mut self, snapshot: StationSnapshot) -> StationSnapshot;

    /// Called after a migrated snapshot was restored.
    fn post_upgrade(&mut self, meta: &SnapshotMeta);
}

/// Restoring of stations from snapshots.
pub trait StationRestore {
    /// Why a snapshot cannot be restored.
    type Error;

    /// Restores a station from a snapshot.
    fn restore(config: StationConfig, snapshot: StationSnapshot) -> Result<Station, Self::Error>;
}

/// Report produced after applying an external upgrade hook to frozen snapshots.
#[derive(Clone, Copy, Debug, PartialEq, Eq, Structural)]
pub struct BarrierUpgradeReport {
    /// Snapshot version requested for export.
    pub version: SnapshotVersion,
    /// Snapshots passed through the upgrade hook.
    pub snapshots_migrated: usize,
    /// Stations restored from migrated snapshots.
    pub stations_restored: usize,
    /// Entity records restored across all stations.
    pub entities_restored: usize,
}

/// Error produced while applying an upgrade hook around a frozen barrier.
#[derive(Clone, Debug, PartialEq, Eq)]
pub enum BarrierUpgradeError<E> {
    /// Barrier was missing or not frozen.
    Barrier(BarrierRuntimeError),
    /// Station disappeared between snapshot export and restore.
    MissingStation(StationId),
    /// Restoring a migrated snapshot failed.
    Restore {
        /// Station being restored.
        station_id: StationId,
        /// Restore error.
        error: E,
    },
}

impl<E> From<BarrierRuntimeError> for BarrierUpgradeError<E> {
    fn from(error: BarrierRuntimeError) -> (converted: Self) {
        Self::Barrier(error)
    }
}

impl<E> FromSpecImpl<BarrierRuntimeError> for BarrierUpgradeError<E> {
    open spec fn obeys_from_spec() -> bool {
        true
    }

    open spec fn from_spec(error: BarrierRuntimeError) -> Self {
        BarrierUpgradeError::Barrier(error)
    }
}

/// A station may be what comes of another's snapshot after migration and restoring under this
/// identity and placement.
pub open spec fn restored_from<H: RuntimeUpgradeHook, R: StationRestore>(
    before: Station,
    config: StationConfig,
    version: SnapshotVersion,
    after: Station,
) -> bool {
    exists|
        hook: &mut H,
        snapshot: StationSnapshot,
        migrated: StationSnapshot,
        outcome: Result<Station, R::Error>,
    |
        #![trigger
            call_ensures(H::migrate_state, (hook, snapshot), migrated),
            call_ensures(R::restore, (config, migrated), outcome)
        ]
        {
            &&& snapshot.holds(before, version)
            &&& call_ensures(H::migrate_state, (hook, snapshot), migrated)
            &&& call_ensures(R::restore, (config, migrated), outcome)
            &&& outcome matches Ok(station) && after == station.with_config(config)
        }
}

/// Number of entity records over several stations.
pub open spec fn record_total(restored: Seq<(StationId, Station)>) -> nat
    decreases restored.len(),
{
    if restored.len() == 0 {
        0
    } else {
        record_total(restored.drop_last()) + restored.last().1.records@.len()
    }
}

/// Registered stations once several were replaced, each where its id stands first.
pub open spec fn replaced(
    entries: Seq<(StationId, Station)>,
    ids: Seq<u32>,
    restored: Seq<(StationId, Station)>,
) -> Seq<(StationId, Station)>
    decreases restored.len(),
{
    if restored.len() == 0 {
        entries
    } else {
        let rest = replaced(entries, ids, restored.drop_last());
        let (id, station) = restored.last();
        match position_of(ids, id.0) {
            Some(at) => rest.update(at, (rest[at].0, station)),
            None => rest,
        }
    }
}

/// The covered station at a position, as it was before the upgrade.
pub open spec fn covered_station(
    controller: BarrierController,
    stations: StationSet,
    index: int,
) -> Station {
    stations.station(controller.phases.entries@[index].1.station_id)->0
}

/// Applies an external in-memory upgrade hook while a runtime barrier is frozen.
#[derive(Clone, Copy, Debug, Default)]
pub struct BarrierUpgradeExecutor;

impl BarrierUpgradeExecutor {
    /// What the first `count` covered stations were restored to.
    pub open spec fn restores<H: RuntimeUpgradeHook, R: StationRestore>(
        controller: BarrierController,
        stations: StationSet,
        version: SnapshotVersion,
        restored: Seq<(StationId, Station)>,
        count: nat,
    ) -> bool {
        &&& restored.len() == count
        &&& count <= controller.phases.entries@.len()
        &&& forall|i: int|
            0 <= i < count ==> {
                let before = covered_station(controller, stations, i);
                &&& (#[trigger] restored[i]).0 == before.config.station_id
                &&& stations.station(restored[i].0) is Some
                &&& restored_from::<H, R>(
                    before,
                    stations.station(restored[i].0)->0.config,
                    version,
                    restored[i].1,
                )
            }
    }

    /// Exports frozen station snapshots, lets `hook` migrate them, and restores every station only
    /// after all migrated snapshots are valid.
    pub fn migrate_frozen<H: RuntimeUpgradeHook, R: StationRestore>(
        controller: &mut BarrierController,
        stations: &mut StationSet,
        version: SnapshotVersion,
        hook: &mut H,
    ) -> (result: Result<BarrierUpgradeReport, BarrierUpgradeError<R::Error>>)
        requires
            old(controller).wf(),
            old(stations).wf(),
        ensures
            final(controller).wf(),
            final(stations).wf(),
            final(controller).active == old(controller).active,
            final(controller).phases == old(controller).phases,
            final(stations).registry.ids() == old(stations).registry.ids(),
            result is Err ==> *final(stations) == *old(stations),
            ({
                let entries = old(controller).phases.entries@;
                let missing = first_missing(entries, *old(stations), 0);
                if let Some(error) = old(controller).not_frozen() {
                    &&& result == Err::<BarrierUpgradeReport, BarrierUpgradeError<R::Error>>(
                        BarrierUpgradeError::Barrier(error),
                    )
                    &&& *final(controller) == *old(controller)
                    &&& *final(hook) == *old(hook)
                } else if missing < entries.len() {
                    &&& result == Err::<BarrierUpgradeReport, BarrierUpgradeError<R::Error>>(
                        BarrierUpgradeError::Barrier(
                            BarrierRuntimeError::MissingStation(
                                entries[missing as int].1.station_id,
                            ),
                        ),
                    )
                    &&& *final(controller) == *old(controller)
                    &&& *final(hook) == *old(hook)
                } else {
                    &&& final(controller).metrics == (BarrierMetrics {
                        snapshots_exported: old(
                            controller,
                        ).metrics.snapshots_exported.saturating_add(entries.len() as usize),
                        ..old(controller).metrics
                    })
                    &&& exists|restored: Seq<(StationId, Station)>, hooks: Seq<H>|
                        {
                            &&& #[trigger] Self::restores::<H, R>(
                                *old(controller),
                                *old(stations),
                                version,
                                restored,
                                restored.len(),
                            )
                            &&& #[trigger] linked(hooks, restored, *old(hook), hooks.last())
                            &&& forall|i: int| #[trigger]
                                asked(restored, i) ==> exists|
                                    first: &mut H,
                                    second: &mut H,
                                    third: &mut H,
                                    snapshot: StationSnapshot,
                                    migrated: StationSnapshot,
                                    outcome: Result<Station, R::Error>,
                                |
                                    #![trigger
                                        call_ensures(H::pre_upgrade, (first, &snapshot.meta), ()),
                                        call_ensures(H::migrate_state, (second, snapshot), migrated),
                                        call_ensures(H::post_upgrade, (third, &migrated.meta), ()),
                                        call_ensures(
                                            R::restore,
                                            (old(stations).station(restored[i].0)->0.config, migrated),
                                            outcome,
                                        )
                                    ]
                                    {
                                        &&& call_ensures(H::pre_upgrade, (first, &snapshot.meta), ())
                                        &&& call_ensures(H::migrate_state, (second, snapshot), migrated)
                                        &&& call_ensures(
                                            R::restore,
                                            (old(stations).station(restored[i].0)->0.config, migrated),
                                            outcome,
                                        )
                                        &&& call_ensures(H::post_upgrade, (third, &migrated.meta), ())
                                        &&& snapshot.holds(covered_station(*old(controller), *old(stations), i), version)
                                        &&& outcome matches Ok(station) && restored[i].1
                                            == station.with_config(
                                            old(stations).station(restored[i].0)->0.config,
                                        )
                                        &&& *first == hooks[i]
                                        &&& *second == *final(first)
                                        &&& *third == *final(second)
                                        &&& *final(third) == hooks[i + 1]
                                    }
                            &&& match result {
                                Ok(report) => {
                                    &&& restored.len() == entries.len()
                                    &&& *final(hook) == hooks.last()
                                    &&& final(stations).registry.entries@ == replaced(
                                        old(stations).registry.entries@,
                                        old(stations).registry.ids(),
                                        restored,
                                    )
                                    &&& report == (BarrierUpgradeReport {
                                        version,
                                        snapshots_migrated: entries.len() as usize,
                                        stations_restored: entries.len() as usize,
                                        entities_restored: clamp_usize(record_total(restored)),
                                    })
                                },
                                Err(BarrierUpgradeError::Barrier(_)) => false,
                                Err(BarrierUpgradeError::MissingStation(_)) => false,
                                Err(BarrierUpgradeError::Restore { station_id, error }) => {
                                    let before = covered_station(
                                        *old(controller),
                                        *old(stations),
                                        restored.len() as int,
                                    );
                                    &&& restored.len() < entries.len()
                                    &&& station_id == before.config.station_id
                                    &&& old(stations).station(station_id) is Some
                                    &&& exists|
                                        first: &mut H,
                                        second: &mut H,
                                        snapshot: StationSnapshot,
                                        migrated: StationSnapshot,
                                        outcome: Result<Station, R::Error>,
                                    |
                                        #![trigger
                                            call_ensures(H::pre_upgrade, (first, &snapshot.meta), ()),
                                            call_ensures(H::migrate_state, (second, snapshot), migrated),
                                            call_ensures(
                                                R::restore,
                                                (old(stations).station(station_id)->0.config, migrated),
                                                outcome,
                                            )
                                        ]
                                        {
                                            &&& call_ensures(H::pre_upgrade, (first, &snapshot.meta), ())
                                            &&& call_ensures(H::migrate_state, (second, snapshot), migrated)
                                            &&& call_ensures(
                                                R::restore,
                                                (old(stations).station(station_id)->0.config, migrated),
                                                outcome,
                                            )
                                            &&& snapshot.holds(before, version)
                                            &&& outcome == Err::<Station, R::Error>(error)
                                            &&& *first == hooks.last()
                                            &&& *second == *final(first)
                                            &&& *final(second) == *final(hook)
                                        }
                                },
                            }
                        }
                }
            }),
    {
        let ghost entries = controller.phases.entries@;
        let ghost count = entries.len();
        let mut snapshots = match controller.export_snapshots(stations, version) {
            Ok(snapshots) => snapshots,
            Err(error) => {
                return Err(BarrierUpgradeError::Barrier(error));
            },
        };
        let ghost exported = snapshots@;
        let mut restored: Vec<(StationId, Station)> = Vec::new();
        let mut entities_restored: usize = 0;
        let ghost mut hooks: Seq<H> = seq![*hook];
        assert(exported.skip(0) =~= exported);
        while snapshots.len() > 0
            invariant
                old(controller).not_frozen() is None,
                first_missing(old(controller).phases.entries@, *old(stations), 0) >= old(
                    controller,
                ).phases.entries@.len(),
                controller.wf(),
                controller.active == old(controller).active,
                controller.phases == old(controller).phases,
                controller.metrics == (BarrierMetrics {
                    snapshots_exported: old(controller).metrics.snapshots_exported.saturating_add(
                        count as usize,
                    ),
                    ..old(controller).metrics
                }),
                *stations == *old(stations),
                stations.wf(),
                count == old(controller).phases.entries@.len(),
                exported.len() == count,
                crate::barrier::snapshots_hold(
                    exported,
                    old(controller).phases.entries@,
                    *old(stations),
                    version,
                    count,
                ),
                restored@.len() <= count,
                snapshots@ == exported.skip(restored@.len() as int),
                Self::restores::<H, R>(
                    *old(controller),
                    *old(stations),
                    version,
                    restored@,
                    restored@.len(),
                ),
                entities_restored == clamp_usize(record_total(restored@)),
                linked(hooks, restored@, *old(hook), *hook),
                forall|i: int| #[trigger]
                    asked(restored@, i) ==> exists|
                        first: &mut H,
                        second: &mut H,
                        third: &mut H,
                        snapshot: StationSnapshot,
                        migrated: StationSnapshot,
                        outcome: Result<Station, R::Error>,
                    |
                        #![trigger
                            call_ensures(H::pre_upgrade, (first, &snapshot.meta), ()),
                            call_ensures(H::migrate_state, (second, snapshot), migrated),
                            call_ensures(H::post_upgrade, (third, &migrated.meta), ()),
                            call_ensures(
                                R::restore,
                                (old(stations).station(restored@[i].0)->0.config, migrated),
                                outcome,
                            )
                        ]
                        {
                            &&& call_ensures(H::pre_upgrade, (first, &snapshot.meta), ())
                            &&& call_ensures(H::migrate_state, (second, snapshot), migrated)
                            &&& call_ensures(
                                R::restore,
                                (old(stations).station(restored@[i].0)->0.config, migrated),
                                outcome,
                            )
                            &&& call_ensures(H::post_upgrade, (third, &migrated.meta), ())
                            &&& snapshot.holds(covered_station(*old(controller), *old(stations), i), version)
                            &&& outcome matches Ok(station) && restored@[i].1
                                == station.with_config(
                                old(stations).station(restored@[i].0)->0.config,
                            )
                            &&& *first == hooks[i]
                            &&& *second == *final(first)
                            &&& *third == *final(second)
                            &&& *final(third) == hooks[i + 1]
                        },
            decreases snapshots@.len(),
        {
            let ghost index = restored@.len() as int;
            let ghost before = covered_station(*old(controller), *old(stations), index);
            let ghost earlier = restored@;
            let snapshot = snapshots.remove(0);
            proof {
                assert(exported.skip(index).remove(0) =~= exported.skip(index + 1));
                assert(snapshot == exported[index]);
                assert(exported[index].holds_found(
                    old(stations).station(old(controller).phases.entries@[index].1.station_id),
                    version,
                ));
                assert(snapshot.holds(before, version));
                law_lookups_find_the_first_entry(
                    stations.registry.ids(),
                    old(controller).phases.entries@[index].1.station_id.0,
                );
                assert(before.config.station_id
                    == old(controller).phases.entries@[index].1.station_id);
            }
            let station_id = snapshot.meta.station_id;
            let config = match stations.get(station_id) {
                Some(station) => station.config,
                None => {
                    return Err(BarrierUpgradeError::MissingStation(station_id));
                },
            };
            assert(config == old(stations).station(station_id)->0.config);
            hook.pre_upgrade(&snapshot.meta);
            let migrated = hook.migrate_state(snapshot);
            let migrated_meta = migrated.meta;
            let mut station = match R::restore(config, migrated) {
                Ok(station) => station,
                Err(error) => {
                    assert(linked(hooks, earlier, *old(hook), hooks.last()));
                    return Err(BarrierUpgradeError::Restore { station_id, error });
                },
            };
            station.config = config;
            assert(restored_from::<H, R>(before, config, version, station));
            entities_restored = entities_restored.saturating_add(station.len());
            hook.post_upgrade(&migrated_meta);
            restored.push((station_id, station));
            let ghost known = hooks;
            proof {
                hooks = hooks.push(*hook);
            }
            assert forall|i: int| #[trigger]
                asked(restored@, i) implies exists|
                    first: &mut H,
                    second: &mut H,
                    third: &mut H,
                    snapshot: StationSnapshot,
                    migrated: StationSnapshot,
                    outcome: Result<Station, R::Error>,
                |
                    #![trigger
                        call_ensures(H::pre_upgrade, (first, &snapshot.meta), ()),
                        call_ensures(H::migrate_state, (second, snapshot), migrated),
                        call_ensures(H::post_upgrade, (third, &migrated.meta), ()),
                        call_ensures(
                            R::restore,
                            (old(stations).station(restored@[i].0)->0.config, migrated),
                            outcome,
                        )
                    ]
                    {
                        &&& call_ensures(H::pre_upgrade, (first, &snapshot.meta), ())
                        &&& call_ensures(H::migrate_state, (second, snapshot), migrated)
                        &&& call_ensures(
                            R::restore,
                            (old(stations).station(restored@[i].0)->0.config, migrated),
                            outcome,
                        )
                        &&& call_ensures(H::post_upgrade, (third, &migrated.meta), ())
                        &&& snapshot.holds(covered_station(*old(controller), *old(stations), i), version)
                        &&& outcome matches Ok(station) && restored@[i].1 == station.with_config(
                            old(stations).station(restored@[i].0)->0.config,
                        )
                        &&& *first == hooks[i]
                        &&& *second == *final(first)
                        &&& *third == *final(second)
                        &&& *final(third) == hooks[i + 1]
                    } by {
                assert(hooks[i] == known[i]);
                if i < index {
                    assert(asked(earlier, i));
                    assert(restored@[i] == earlier[i]);
                    assert(hooks[i + 1] == known[i + 1]);
                } else {
                    assert(old(stations).station(restored@[i].0)->0.config == config);
                }
            }
            proof {
                assert(restored@.drop_last() =~= earlier);
                assert forall|i: int| 0 <= i < restored@.len() implies {
                    let before = covered_station(*old(controller), *old(stations), i);
                    &&& (#[trigger] restored@[i]).0 == before.config.station_id
                    &&& old(stations).station(restored@[i].0) is Some
                    &&& restored_from::<H, R>(
                        before,
                        old(stations).station(restored@[i].0)->0.config,
                        version,
                        restored@[i].1,
                    )
                } by {
                    if i < index {
                        assert(restored@[i] == earlier[i]);
                    }
                }
            }
        }
        let stations_restored: usize = restored.len();
        let ghost all = restored@;
        let ghost ids = stations.registry.ids();
        assert(all.take(0) =~= Seq::empty());
        assert(all.skip(0) =~= all);
        assert forall|i: int| 0 <= i < all.len() implies (#[trigger] all[i]).1.config.station_id
            == all[i].0 by {
            law_lookups_find_the_first_entry(ids, all[i].0.0);
        }
        while restored.len() > 0
            invariant
                ids == old(stations).registry.ids(),
                stations.wf(),
                stations.registry.ids() == ids,
                forall|i: int|
                    0 <= i < all.len() ==> (#[trigger] all[i]).1.config.station_id == all[i].0,
                restored@.len() <= all.len(),
                restored@ == all.skip(all.len() - restored@.len()),
                forall|i: int|
                    0 <= i < all.len() ==> position_of(ids, (#[trigger] all[i]).0.0) is Some,
                stations.registry.entries@ == replaced(
                    old(stations).registry.entries@,
                    ids,
                    all.take(all.len() - restored@.len()),
                ),
            decreases restored@.len(),
        {
            let ghost done = all.len() - restored@.len();
            let (station_id, station) = restored.remove(0);
            proof {
                assert(all.skip(done).remove(0) =~= all.skip(done + 1));
                assert(all[done] == (station_id, station));
                assert(all.take(done + 1).drop_last() =~= all.take(done));
                assert(all.take(done + 1).last() == all[done]);
            }
            if let Some(slot) = stations.get_mut(station_id) {
                *slot = station;
            }
        }
        assert(all.take(all.len() as int) =~= all);
        Ok(
            BarrierUpgradeReport {
                version,
                snapshots_migrated: stations_restored,
                stations_restored,
                entities_restored,
            },
        )
    }
}

} // verus!
