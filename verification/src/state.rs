//! Alert and heartbeat state: the per-process records the event loop
//! mutates, and the periodic sweep that turns elapsed time into alerts.
//!
//! Times are seconds of a monotonic logical clock; they never run
//! backwards across calls, which the contracts here assume of `now`.

use vstd::prelude::*;

use crate::namedmap::NamedMap;
use crate::ALERTING_INTERVAL_SECS;

verus! {

/// The escalation record of a critical process that exited unexpectedly
/// while auto-restart was disabled: when it was last alerted on, and how
/// many minutes of downtime have been charged so far.
#[derive(Clone, Copy, PartialEq, Eq, Structural, Debug)]
pub struct AlertEntry {
    pub last_alert_time: u64,
    pub dead_minutes: u64,
}

/// Accumulated minutes never outrun the clock: sixty times the charged
/// minutes stays within the time of the last alert.  Fresh entries start
/// at zero and each sweep preserves it, which keeps the accumulation free
/// of overflow.
pub open spec fn alert_entry_inv(e: AlertEntry) -> bool {
    60 * (e.dead_minutes as int) <= e.last_alert_time as int
}

/// All entries were stamped at or before `now`, and each satisfies its
/// record invariant.
pub open spec fn alerts_inv(ev: Seq<(Seq<char>, AlertEntry)>, now: u64) -> bool {
    forall|i: int|
        0 <= i < ev.len() ==> (#[trigger] ev[i].1).last_alert_time <= now && alert_entry_inv(
            ev[i].1,
        )
}

/// The same invariant over the store's mapping: every record was stamped
/// at or before `now` and keeps its charge within the clock.  The
/// dispatcher maintains it: entries are created stamped with the current
/// time and zero minutes, and the clock never runs backwards.
pub open spec fn alerts_inv_map(m: Map<Seq<char>, AlertEntry>, now: u64) -> bool {
    forall|k: Seq<char>|
        m.contains_key(k) ==> (#[trigger] m[k]).last_alert_time <= now && alert_entry_inv(m[k])
}

/// An entry is due once a full alert interval has elapsed.
pub open spec fn alert_due(e: AlertEntry, now: u64) -> bool {
    now as int - e.last_alert_time as int >= ALERTING_INTERVAL_SECS as int
}

/// What the sweep leaves of an entry: a due entry is restamped to `now`
/// and charged one minute per sixty elapsed seconds; the rest are kept.
pub open spec fn swept_entry(e: AlertEntry, now: u64) -> AlertEntry {
    if alert_due(e, now) {
        AlertEntry {
            last_alert_time: now,
            dead_minutes: (e.dead_minutes + (now - e.last_alert_time) / 60) as u64,
        }
    } else {
        e
    }
}

/// A "not running" alert, to be logged at error severity.
pub struct Alert {
    pub process_name: String,
    pub dead_minutes: u64,
}

/// The alerts one sweep emits: one per due entry, in store order, each
/// carrying the minutes charged after its update.
pub open spec fn due_alerts(ev: Seq<(Seq<char>, AlertEntry)>, now: u64) -> Seq<(Seq<char>, u64)>
    decreases ev.len(),
{
    if ev.len() == 0 {
        Seq::<(Seq<char>, u64)>::empty()
    } else {
        due_alerts(ev.drop_last(), now) + (if alert_due(ev.last().1, now) {
            seq![(ev.last().0, swept_entry(ev.last().1, now).dead_minutes)]
        } else {
            Seq::<(Seq<char>, u64)>::empty()
        })
    }
}

/// One minute is charged per sixty elapsed seconds, so the charge keeps
/// the record invariant.
proof fn lemma_swept_entry_fits(e: AlertEntry, now: u64)
    requires
        alert_entry_inv(e),
        e.last_alert_time <= now,
    ensures
        e.dead_minutes as int + (now as int - e.last_alert_time as int) / 60 <= u64::MAX,
        alert_entry_inv(swept_entry(e, now)),
        swept_entry(e, now).dead_minutes >= e.dead_minutes,
        swept_entry(e, now).last_alert_time <= now,
{
    let elapsed = now as int - e.last_alert_time as int;
    vstd::arithmetic::div_mod::lemma_fundamental_div_mod(elapsed, 60);
    vstd::arithmetic::div_mod::lemma_mod_bound(elapsed, 60);
    assert(60 * (elapsed / 60) <= elapsed);
    assert(elapsed / 60 >= 0) by {
        vstd::arithmetic::div_mod::lemma_div_pos_is_pos(elapsed, 60);
    }
    let nd = e.dead_minutes as int + elapsed / 60;
    assert(60 * nd == 60 * (e.dead_minutes as int) + 60 * (elapsed / 60));
    assert(60 * nd <= now as int);
    assert(nd <= 60 * nd);
}

/// The periodic alert sweep.  Every entry due for an alert is restamped
/// to `now` with its downtime charge grown by the elapsed minutes; all
/// other entries are untouched; one alert is returned per due entry, in
/// store order.  Downtime charges never shrink.
pub fn sweep_alerts(store: &mut NamedMap<AlertEntry>, now: u64) -> (alerts: Vec<Alert>)
    requires
        old(store).wf(),
        alerts_inv_map(old(store)@, now),
    ensures
        final(store).wf(),
        final(store).entries_view().len() == old(store).entries_view().len(),
        forall|i: int|
            0 <= i < old(store).entries_view().len() ==> #[trigger] final(store).entries_view()[i]
                == (old(store).entries_view()[i].0, swept_entry(
                old(store).entries_view()[i].1,
                now,
            )),
        forall|i: int|
            0 <= i < old(store).entries_view().len()
                ==> (#[trigger] final(store).entries_view()[i]).1.dead_minutes >= old(
                store,
            ).entries_view()[i].1.dead_minutes,
        alerts@.map_values(|a: Alert| (a.process_name@, a.dead_minutes)) == due_alerts(
            old(store).entries_view(),
            now,
        ),
        alerts_inv(final(store).entries_view(), now),
{
    let ghost oev = old(store).entries_view();
    proof {
        old(store).lemma_contents();
        assert forall|k: int| 0 <= k < oev.len() implies (#[trigger] oev[k].1).last_alert_time
            <= now && alert_entry_inv(oev[k].1) by {
            assert(old(store)@.contains_key(oev[k].0));
            assert(old(store)@[oev[k].0] == oev[k].1);
        }
    }
    let mut alerts: Vec<Alert> = Vec::new();
    let n: usize = store.len();
    let mut i: usize = 0;
    while i < n
        invariant
            store.wf(),
            n == oev.len(),
            0 <= i <= n,
            store.entries_view().len() == n,
            oev == old(store).entries_view(),
            alerts_inv(oev, now),
            forall|k: int|
                0 <= k < i ==> #[trigger] store.entries_view()[k] == (oev[k].0, swept_entry(
                    oev[k].1,
                    now,
                )),
            forall|k: int| i <= k < n ==> #[trigger] store.entries_view()[k] == oev[k],
            alerts@.map_values(|a: Alert| (a.process_name@, a.dead_minutes)) == due_alerts(
                oev.take(i as int),
                now,
            ),
        decreases n - i,
    {
        let e: AlertEntry = store.val_at(i);
        proof {
            assert(store.entries_view()[i as int] == oev[i as int]);
            assert(oev.take(i as int + 1).drop_last() =~= oev.take(i as int));
            assert(oev.take(i as int + 1).last() == oev[i as int]);
            lemma_swept_entry_fits(e, now);
        }
        if now - e.last_alert_time >= ALERTING_INTERVAL_SECS {
            let elapsed_mins: u64 = (now - e.last_alert_time) / 60;
            let new_dead: u64 = e.dead_minutes + elapsed_mins;
            let updated = AlertEntry { last_alert_time: now, dead_minutes: new_dead };
            let name: String = store.key_at(i).clone();
            store.set_val_at(i, updated);
            alerts.push(Alert { process_name: name, dead_minutes: new_dead });
            proof {
                assert(updated == swept_entry(oev[i as int].1, now));
                assert(alerts@.map_values(|a: Alert| (a.process_name@, a.dead_minutes))
                    =~= due_alerts(oev.take(i as int + 1), now));
            }
        } else {
            proof {
                assert(swept_entry(oev[i as int].1, now) == oev[i as int].1);
                assert(due_alerts(oev.take(i as int + 1), now) =~= due_alerts(
                    oev.take(i as int),
                    now,
                ));
            }
        }
        i = i + 1;
    }
    proof {
        assert(oev.take(n as int) =~= oev);
    }
    alerts
}

/// The staleness threshold of a watched process, in milliseconds: its row
/// of the interval table, or sixty seconds where the table has none.
pub open spec fn heartbeat_threshold_ms(intervals: Map<Seq<char>, i64>, k: Seq<char>) -> int {
    if intervals.contains_key(k) {
        intervals[k] as int
    } else {
        1000 * ALERTING_INTERVAL_SECS as int
    }
}

/// A heartbeat is stale once its positive threshold has elapsed.
pub open spec fn heartbeat_stale(last_seen: u64, threshold_ms: int, now: u64) -> bool {
    threshold_ms > 0 && 1000 * (now as int - last_seen as int) >= threshold_ms
}

/// A "stuck" alert, to be logged at warning severity.
pub struct StuckAlert {
    pub process_name: String,
    pub stuck_minutes: u64,
}

/// The stuck alerts one sweep emits: one per stale heartbeat, in store
/// order, carrying the elapsed whole minutes.
pub open spec fn stale_heartbeats(
    ev: Seq<(Seq<char>, u64)>,
    intervals: Map<Seq<char>, i64>,
    now: u64,
) -> Seq<(Seq<char>, u64)>
    decreases ev.len(),
{
    if ev.len() == 0 {
        Seq::<(Seq<char>, u64)>::empty()
    } else {
        stale_heartbeats(ev.drop_last(), intervals, now) + (if heartbeat_stale(
            ev.last().1,
            heartbeat_threshold_ms(intervals, ev.last().0),
            now,
        ) {
            seq![(ev.last().0, ((now - ev.last().1) / 60) as u64)]
        } else {
            Seq::<(Seq<char>, u64)>::empty()
        })
    }
}

/// All heartbeats were recorded at or before `now`.
pub open spec fn heartbeats_inv(ev: Seq<(Seq<char>, u64)>, now: u64) -> bool {
    forall|i: int| 0 <= i < ev.len() ==> (#[trigger] ev[i]).1 <= now
}

/// The same invariant over the store's mapping; the dispatcher maintains
/// it by stamping heartbeats with the current time of a forward-running
/// clock.
pub open spec fn heartbeats_inv_map(m: Map<Seq<char>, u64>, now: u64) -> bool {
    forall|k: Seq<char>| m.contains_key(k) ==> #[trigger] m[k] <= now
}

/// The staleness threshold of one process, in milliseconds: its row of
/// the loaded interval table, or the sixty-second default.
pub fn get_heartbeat_alert_interval(process: &str, intervals: &NamedMap<i64>) -> (r: i64)
    requires
        intervals.wf(),
    ensures
        r == heartbeat_threshold_ms(intervals@, process@),
{
    match intervals.get(process) {
        Some(v) => v,
        None => 60000,
    }
}

/// The periodic heartbeat sweep.  It mutates nothing: it returns one
/// stuck alert per watched process whose last heartbeat is at least its
/// threshold old, in store order, as long as that threshold is positive.
/// A process stays alerted on every sweep until it beats again.
pub fn sweep_heartbeats(
    store: &NamedMap<u64>,
    intervals: &NamedMap<i64>,
    now: u64,
) -> (alerts: Vec<StuckAlert>)
    requires
        store.wf(),
        intervals.wf(),
        heartbeats_inv_map(store@, now),
    ensures
        alerts@.map_values(|a: StuckAlert| (a.process_name@, a.stuck_minutes)) == stale_heartbeats(
            store.entries_view(),
            intervals@,
            now,
        ),
{
    let ghost ev = store.entries_view();
    proof {
        store.lemma_contents();
        assert forall|k: int| 0 <= k < ev.len() implies (#[trigger] ev[k]).1 <= now by {
            assert(store@.contains_key(ev[k].0));
            assert(store@[ev[k].0] == ev[k].1);
        }
    }
    let mut alerts: Vec<StuckAlert> = Vec::new();
    let n: usize = store.len();
    let mut i: usize = 0;
    while i < n
        invariant
            store.wf(),
            intervals.wf(),
            n == ev.len(),
            0 <= i <= n,
            ev == store.entries_view(),
            heartbeats_inv(ev, now),
            alerts@.map_values(|a: StuckAlert| (a.process_name@, a.stuck_minutes))
                == stale_heartbeats(ev.take(i as int), intervals@, now),
        decreases n - i,
    {
        let last_seen: u64 = store.val_at(i);
        let name: &String = store.key_at(i);
        let threshold: i64 = get_heartbeat_alert_interval(name.as_str(), intervals);
        proof {
            assert(ev.take(i as int + 1).drop_last() =~= ev.take(i as int));
            assert(ev.take(i as int + 1).last() == ev[i as int]);
        }
        if threshold > 0 && 1000u128 * ((now - last_seen) as u128) >= (threshold as u128) {
            let stuck_mins: u64 = (now - last_seen) / 60;
            alerts.push(StuckAlert { process_name: name.clone(), stuck_minutes: stuck_mins });
            proof {
                assert(heartbeat_stale(ev[i as int].1, heartbeat_threshold_ms(
                    intervals@,
                    ev[i as int].0,
                ), now));
                assert(alerts@.map_values(|a: StuckAlert| (a.process_name@, a.stuck_minutes))
                    =~= stale_heartbeats(ev.take(i as int + 1), intervals@, now));
            }
        } else {
            proof {
                assert(!heartbeat_stale(ev[i as int].1, heartbeat_threshold_ms(
                    intervals@,
                    ev[i as int].0,
                ), now));
                assert(stale_heartbeats(ev.take(i as int + 1), intervals@, now)
                    =~= stale_heartbeats(ev.take(i as int), intervals@, now));
            }
        }
        i = i + 1;
    }
    proof {
        assert(ev.take(n as int) =~= ev);
    }
    alerts
}

} // verus!
