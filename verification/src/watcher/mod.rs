//! Watchers that trigger syncs: the process watcher (an emulator opened or
//! closed) and the filesystem watcher (saves written during a long session).
//! The polling and the native events stay outside; what each event leads to
//! is decided here.
use vstd::prelude::*;
use crate::constants::{TRIGGER_EMULATOR_START, TRIGGER_EMULATOR_STOP};
use crate::emulator::{process_names, profiles::spec_process_names, EmulatorProfile};
use crate::sync::SyncDirection;
use crate::text::views;

pub mod fs_watcher;

verus! {

/// Event published by the process watcher.
#[derive(Debug, Clone, PartialEq, Eq)]
pub enum WatcherEvent {
    /// The emulator (canonical profile name) started running.
    EmulatorStarted(String),
    /// The emulator stopped running.
    EmulatorStopped(String),
}

/// What a process-watcher event leads to: the emulator, whether it now runs,
/// the direction of the sync to run and its trigger. Opening an emulator
/// brings the Drive's saves down before the game loads; closing it sends the
/// session's saves up.
pub fn event_plan(event: WatcherEvent) -> (r: (String, bool, SyncDirection, &'static str))
    ensures
        match event {
            WatcherEvent::EmulatorStarted(name) => r.0 == name && r.1 && r.2
                == SyncDirection::DriveToLocal && r.3@ == TRIGGER_EMULATOR_START@,
            WatcherEvent::EmulatorStopped(name) => r.0 == name && !r.1 && r.2
                == SyncDirection::LocalToDrive && r.3@ == TRIGGER_EMULATOR_STOP@,
        },
{
    match event {
        WatcherEvent::EmulatorStarted(name) => (
            name,
            true,
            SyncDirection::DriveToLocal,
            TRIGGER_EMULATOR_START,
        ),
        WatcherEvent::EmulatorStopped(name) => (
            name,
            false,
            SyncDirection::LocalToDrive,
            TRIGGER_EMULATOR_STOP,
        ),
    }
}


/// An emulator the process watcher looks for, with its process names.
#[derive(Debug, Clone)]
pub struct MonitoredEmulator {
    pub name: String,
    pub process_names: Vec<String>,
}

/// The configured emulators that have known process names, in order; the
/// others cannot be watched.
pub open spec fn spec_monitored(names: Seq<Seq<char>>) -> Seq<Seq<char>> {
    names.filter(|n: Seq<char>| spec_process_names(n).len() > 0)
}

/// The emulators to watch among the configured profiles.
pub fn monitored_emulators(profiles: &Vec<EmulatorProfile>) -> (r: Vec<MonitoredEmulator>)
    ensures
        r@.map_values(|m: MonitoredEmulator| m.name@) == spec_monitored(profiles@.map_values(|p: EmulatorProfile| p.name@)),
        forall|i: int| 0 <= i < r@.len() ==> views((#[trigger] r@[i]).process_names@) == spec_process_names(r@[i].name@),
{
    let ghost names = profiles@.map_values(|p: EmulatorProfile| p.name@);
    let ghost pred = |n: Seq<char>| spec_process_names(n).len() > 0;
    let mut r: Vec<MonitoredEmulator> = Vec::new();
    let mut i: usize = 0;
    assert(names.subrange(0, 0).filter(pred) =~= Seq::<Seq<char>>::empty());
    while i < profiles.len()
        invariant
            i <= profiles.len(),
            names == profiles@.map_values(|p: EmulatorProfile| p.name@),
            pred == (|n: Seq<char>| spec_process_names(n).len() > 0),
            r@.map_values(|m: MonitoredEmulator| m.name@) == names.subrange(0, i as int).filter(pred),
            forall|k: int| 0 <= k < r@.len() ==> views((#[trigger] r@[k]).process_names@) == spec_process_names(r@[k].name@),
        decreases profiles.len() - i,
    {
        proof {
            assert(names.subrange(0, i + 1) =~= names.subrange(0, i as int).push(names[i as int]));
            names.subrange(0, i as int).lemma_filter_push(names[i as int], pred);
        }
        let names_of = process_names(profiles[i].name.as_str());
        if names_of.len() > 0 {
            let ghost before = r@;
            r.push(MonitoredEmulator { name: profiles[i].name.clone(), process_names: names_of });
            assert(r@.map_values(|m: MonitoredEmulator| m.name@) =~= before.map_values(|m: MonitoredEmulator| m.name@).push(names[i as int]));
        } else {
            assert(spec_process_names(names[i as int]).len() == 0) by {
                assert(views(names_of@).len() == names_of@.len());
            }
        }
        i = i + 1;
    }
    assert(names.subrange(0, profiles.len() as int) =~= names);
    r
}


/// Kind and emulator of a watcher event (`true` for a start).
pub open spec fn event_view(e: WatcherEvent) -> (bool, Seq<char>) {
    match e {
        WatcherEvent::EmulatorStarted(n) => (true, n@),
        WatcherEvent::EmulatorStopped(n) => (false, n@),
    }
}

/// The emulators counted as running after a poll in which `seen` were running: one that
/// is seen again has its absence count reset; one that is missing has it
/// increased, and is dropped once it has been missing `stop_after` polls in a
/// row.
pub open spec fn spec_still_running(running: Seq<(Seq<char>, u32)>, seen: Seq<Seq<char>>, stop_after: u32) -> Seq<(Seq<char>, u32)>
    decreases running.len(),
{
    if running.len() == 0 {
        Seq::empty()
    } else {
        let prev = spec_still_running(running.drop_last(), seen, stop_after);
        let r = running.last();
        if seen.contains(r.0) {
            prev.push((r.0, 0u32))
        } else if r.1 + 1 >= stop_after {
            prev
        } else {
            prev.push((r.0, (r.1 + 1) as u32))
        }
    }
}

/// The emulators counted as running that stop in this poll, in their order.
pub open spec fn spec_stops(running: Seq<(Seq<char>, u32)>, seen: Seq<Seq<char>>, stop_after: u32) -> Seq<Seq<char>>
    decreases running.len(),
{
    if running.len() == 0 {
        Seq::empty()
    } else {
        let prev = spec_stops(running.drop_last(), seen, stop_after);
        let r = running.last();
        if !seen.contains(r.0) && r.1 + 1 >= stop_after {
            prev.push(r.0)
        } else {
            prev
        }
    }
}

/// The emulators of `seen` that start in this poll (not counted as running yet), in
/// order, each once.
pub open spec fn spec_starts(seen: Seq<Seq<char>>, known: Seq<Seq<char>>) -> Seq<Seq<char>>
    decreases seen.len(),
{
    if seen.len() == 0 {
        Seq::empty()
    } else {
        let prev = spec_starts(seen.drop_last(), known);
        let s = seen.last();
        if known.contains(s) || prev.contains(s) {
            prev
        } else {
            prev.push(s)
        }
    }
}

/// Names of the emulators counted as running.
pub open spec fn watched_names(running: Seq<(Seq<char>, u32)>) -> Seq<Seq<char>> {
    running.map_values(|r: (Seq<char>, u32)| r.0)
}

/// Which monitored emulators run, with a debounce against flapping: an
/// emulator starts as soon as its process is seen and stops only after it has
/// been missing for `stop_after` consecutive polls.
pub struct RunStateTracker {
    stop_after: u32,
    running: Vec<(String, u32)>,
}

impl RunStateTracker {
    /// Polls without the process before an emulator counts as stopped.
    pub closed spec fn stop_after(&self) -> u32 {
        self.stop_after
    }

    /// The emulators counted as running, with their consecutive absences.
    pub closed spec fn watching(&self) -> Seq<(Seq<char>, u32)> {
        self.running@.map_values(|r: (String, u32)| (r.0@, r.1))
    }

    pub fn new(stop_after: u32) -> (r: Self)
        ensures
            r.stop_after() == stop_after,
            r.watching() == Seq::<(Seq<char>, u32)>::empty(),
    {
        let r = RunStateTracker { stop_after, running: Vec::new() };
        assert(r.watching() =~= Seq::<(Seq<char>, u32)>::empty());
        r
    }

    /// Whether `name` is counted as running.
    fn is_watching(&self, name: &str) -> (r: bool)
        ensures
            r == watched_names(self.watching()).contains(name@),
    {
        let mut i: usize = 0;
        while i < self.running.len()
            invariant
                i <= self.running.len(),
                forall|k: int| 0 <= k < i ==> (#[trigger] self.running@[k]).0@ != name@,
            decreases self.running.len() - i,
        {
            if crate::text::str_eq(self.running[i].0.as_str(), name) {
                assert(watched_names(self.watching())[i as int] == name@);
                return true;
            }
            i = i + 1;
        }
        proof {
            if watched_names(self.watching()).contains(name@) {
                let k = choose|k: int| 0 <= k < watched_names(self.watching()).len() && watched_names(self.watching())[k] == name@;
                assert(self.running@[k].0@ == name@);
            }
        }
        false
    }

    /// One poll in which the processes of `seen` were found running: the
    /// emulators that start (newly seen) and then those that stop (missing
    /// for `stop_after` polls in a row).
    pub fn observe(&mut self, seen: &Vec<String>) -> (events: Vec<WatcherEvent>)
        ensures
            final(self).stop_after() == old(self).stop_after(),
            final(self).watching() == spec_still_running(old(self).watching(), views(seen@), old(self).stop_after())
                + spec_starts(views(seen@), watched_names(old(self).watching())).map_values(|n: Seq<char>| (n, 0u32)),
            events@.map_values(|e: WatcherEvent| event_view(e))
                == spec_starts(views(seen@), watched_names(old(self).watching())).map_values(|n: Seq<char>| (true, n))
                + spec_stops(old(self).watching(), views(seen@), old(self).stop_after()).map_values(|n: Seq<char>| (false, n)),
    {
        let ghost old_watching = self.watching();
        let ghost sv = views(seen@);
        let ghost names0 = watched_names(old_watching);
        // Newly seen emulators.
        let mut starts: Vec<String> = Vec::new();
        let mut i: usize = 0;
        assert(sv.subrange(0, 0) =~= Seq::<Seq<char>>::empty());
        while i < seen.len()
            invariant
                i <= seen.len(),
                sv == views(seen@),
                old_watching == self.watching(),
                names0 == watched_names(old_watching),
                views(starts@) == spec_starts(sv.subrange(0, i as int), names0),
            decreases seen.len() - i,
        {
            proof {
                assert(sv.subrange(0, i + 1).drop_last() =~= sv.subrange(0, i as int));
                assert(sv.subrange(0, i + 1).last() == sv[i as int]);
            }
            let name = seen[i].as_str();
            let already = self.is_watching(name) || crate::text::contains_str(&starts, name);
            proof {
                assert(crate::text::contains_view(starts@, name@) == views(starts@).contains(name@)) by {
                    if crate::text::contains_view(starts@, name@) {
                        let k = choose|k: int| 0 <= k < starts@.len() && #[trigger] starts@[k]@ == name@;
                        assert(views(starts@)[k] == name@);
                    }
                    if views(starts@).contains(name@) {
                        let k = choose|k: int| 0 <= k < views(starts@).len() && views(starts@)[k] == name@;
                        assert(starts@[k]@ == name@);
                    }
                }
            }
            if !already {
                let ghost b = starts@;
                starts.push(name.to_owned());
                assert(views(starts@) =~= views(b).push(name@));
            }
            i = i + 1;
        }
        assert(sv.subrange(0, seen.len() as int) =~= sv);
        let ghost st = views(starts@);
        // Tracked emulators: reset, count a miss, or stop.
        let mut kept: Vec<(String, u32)> = Vec::new();
        let mut stops: Vec<String> = Vec::new();
        let n = self.running.len();
        let mut j: usize = 0;
        assert(old_watching.subrange(0, 0) =~= Seq::<(Seq<char>, u32)>::empty());
        assert(kept@.map_values(|r: (String, u32)| (r.0@, r.1)) =~= Seq::<(Seq<char>, u32)>::empty());
        while j < n
            invariant
                j <= n,
                n == self.running.len(),
                old_watching == self.watching(),
                sv == views(seen@),
                kept@.map_values(|r: (String, u32)| (r.0@, r.1)) == spec_still_running(old_watching.subrange(0, j as int), sv, self.stop_after),
                views(stops@) == spec_stops(old_watching.subrange(0, j as int), sv, self.stop_after),
            decreases n - j,
        {
            proof {
                assert(old_watching.subrange(0, j + 1).drop_last() =~= old_watching.subrange(0, j as int));
                assert(old_watching.subrange(0, j + 1).last() == old_watching[j as int]);
                assert(old_watching[j as int] == (self.running@[j as int].0@, self.running@[j as int].1));
            }
            let name = self.running[j].0.as_str();
            let misses = self.running[j].1;
            let present = crate::text::contains_str(seen, name);
            proof {
                assert(present == sv.contains(name@)) by {
                    if present {
                        let k = choose|k: int| 0 <= k < seen@.len() && #[trigger] seen@[k]@ == name@;
                        assert(sv[k] == name@);
                    }
                    if sv.contains(name@) {
                        let k = choose|k: int| 0 <= k < sv.len() && sv[k] == name@;
                        assert(seen@[k]@ == name@);
                    }
                }
            }
            let ghost kb = kept@;
            let ghost sb = stops@;
            if present {
                kept.push((name.to_owned(), 0));
                assert(kept@.map_values(|r: (String, u32)| (r.0@, r.1)) =~= kb.map_values(|r: (String, u32)| (r.0@, r.1)).push((name@, 0u32)));
            } else if misses >= self.stop_after || self.stop_after - misses <= 1 {
                stops.push(name.to_owned());
                assert(views(stops@) =~= views(sb).push(name@));
            } else {
                kept.push((name.to_owned(), misses + 1));
                assert(kept@.map_values(|r: (String, u32)| (r.0@, r.1)) =~= kb.map_values(|r: (String, u32)| (r.0@, r.1)).push((name@, (misses + 1) as u32)));
            }
            j = j + 1;
        }
        assert(old_watching.subrange(0, n as int) =~= old_watching);
        // Events: starts, then stops.
        let mut events: Vec<WatcherEvent> = Vec::new();
        let mut k: usize = 0;
        assert(events@.map_values(|e: WatcherEvent| event_view(e)) =~= st.subrange(0, 0).map_values(|m: Seq<char>| (true, m)));
        while k < starts.len()
            invariant
                k <= starts.len(),
                st == views(starts@),
                events@.map_values(|e: WatcherEvent| event_view(e)) == st.subrange(0, k as int).map_values(|m: Seq<char>| (true, m)),
            decreases starts.len() - k,
        {
            let ghost eb = events@;
            let name = starts[k].clone();
            proof {
                assert(st[k as int] == starts@[k as int]@);
                assert(st.subrange(0, k + 1) =~= st.subrange(0, k as int).push(st[k as int]));
                assert(st.subrange(0, k + 1).map_values(|m: Seq<char>| (true, m))
                    =~= st.subrange(0, k as int).map_values(|m: Seq<char>| (true, m)).push((true, st[k as int])));
            }
            events.push(WatcherEvent::EmulatorStarted(name));
            assert(events@.map_values(|e: WatcherEvent| event_view(e)) =~= eb.map_values(|e: WatcherEvent| event_view(e)).push((true, st[k as int])));
            k = k + 1;
        }
        let ghost sp = views(stops@);
        let ghost e0 = events@.map_values(|e: WatcherEvent| event_view(e));
        assert(st.subrange(0, starts.len() as int) =~= st);
        let mut m: usize = 0;
        assert(events@.map_values(|e: WatcherEvent| event_view(e)) =~= e0 + sp.subrange(0, 0).map_values(|x: Seq<char>| (false, x)));
        while m < stops.len()
            invariant
                m <= stops.len(),
                sp == views(stops@),
                events@.map_values(|e: WatcherEvent| event_view(e)) == e0 + sp.subrange(0, m as int).map_values(|x: Seq<char>| (false, x)),
            decreases stops.len() - m,
        {
            let ghost eb = events@;
            let name = stops[m].clone();
            proof {
                assert(sp[m as int] == stops@[m as int]@);
                assert(sp.subrange(0, m + 1) =~= sp.subrange(0, m as int).push(sp[m as int]));
                assert(sp.subrange(0, m + 1).map_values(|x: Seq<char>| (false, x))
                    =~= sp.subrange(0, m as int).map_values(|x: Seq<char>| (false, x)).push((false, sp[m as int])));
            }
            events.push(WatcherEvent::EmulatorStopped(name));
            assert(events@.map_values(|e: WatcherEvent| event_view(e)) =~= eb.map_values(|e: WatcherEvent| event_view(e)).push((false, sp[m as int])));
            assert(events@.map_values(|e: WatcherEvent| event_view(e)) =~= e0 + sp.subrange(0, m + 1).map_values(|x: Seq<char>| (false, x)));
            m = m + 1;
        }
        assert(sp.subrange(0, stops.len() as int) =~= sp);
        // New list: kept ones, then the newly started.
        let ghost kv0 = kept@.map_values(|r: (String, u32)| (r.0@, r.1));
        let mut t: usize = 0;
        assert(kept@.map_values(|r: (String, u32)| (r.0@, r.1)) =~= kv0 + st.subrange(0, 0).map_values(|x: Seq<char>| (x, 0u32)));
        while t < starts.len()
            invariant
                t <= starts.len(),
                st == views(starts@),
                kept@.map_values(|r: (String, u32)| (r.0@, r.1)) == kv0 + st.subrange(0, t as int).map_values(|x: Seq<char>| (x, 0u32)),
            decreases starts.len() - t,
        {
            let ghost kb = kept@;
            let name = starts[t].clone();
            proof {
                assert(st[t as int] == starts@[t as int]@);
                assert(st.subrange(0, t + 1) =~= st.subrange(0, t as int).push(st[t as int]));
                assert(st.subrange(0, t + 1).map_values(|x: Seq<char>| (x, 0u32))
                    =~= st.subrange(0, t as int).map_values(|x: Seq<char>| (x, 0u32)).push((st[t as int], 0u32)));
            }
            kept.push((name, 0));
            assert(kept@.map_values(|r: (String, u32)| (r.0@, r.1)) =~= kb.map_values(|r: (String, u32)| (r.0@, r.1)).push((st[t as int], 0u32)));
            assert(kept@.map_values(|r: (String, u32)| (r.0@, r.1)) =~= kv0 + st.subrange(0, t + 1).map_values(|x: Seq<char>| (x, 0u32)));
            t = t + 1;
        }
        self.running = kept;
        assert(self.watching() =~= kv0 + st.map_values(|x: Seq<char>| (x, 0u32)));
        events
    }
}

/// An emulator whose process is seen in a poll is never reported stopped in
/// that poll, and an emulator counted as running is reported stopped exactly when it has
/// now been missing `stop_after` consecutive polls.
pub proof fn lemma_stop_needs_consecutive_misses(
    running: Seq<(Seq<char>, u32)>,
    seen: Seq<Seq<char>>,
    stop_after: u32,
    i: int,
)
    requires
        0 <= i < running.len(),
        forall|a: int, b: int| 0 <= a < b < running.len() ==> (#[trigger] running[a]).0 != (#[trigger] running[b]).0,
    ensures
        spec_stops(running, seen, stop_after).contains(running[i].0)
            <==> (!seen.contains(running[i].0) && running[i].1 + 1 >= stop_after),
    decreases running.len(),
{
    let prev = running.drop_last();
    let r = running.last();
    let ps = spec_stops(prev, seen, stop_after);
    if i == running.len() - 1 {
        lemma_stops_within(prev, seen, stop_after);
        if ps.contains(r.0) {
            let k = choose|k: int| 0 <= k < ps.len() && ps[k] == r.0;
            let w = choose|w: int| 0 <= w < prev.len() && prev[w].0 == ps[k];
            assert(running[w] == prev[w]);
        }
        if !seen.contains(r.0) && r.1 + 1 >= stop_after {
            assert(spec_stops(running, seen, stop_after) == ps.push(r.0));
            assert(ps.push(r.0)[ps.len() as int] == r.0);
        }
    } else {
        assert(prev[i] == running[i]);
        assert forall|a: int, b: int| 0 <= a < b < prev.len() implies (#[trigger] prev[a]).0 != (#[trigger] prev[b]).0 by {
            assert(prev[a] == running[a] && prev[b] == running[b]);
        }
        lemma_stop_needs_consecutive_misses(prev, seen, stop_after, i);
        if !seen.contains(r.0) && r.1 + 1 >= stop_after {
            assert(r.0 != running[i].0) by {
                assert(running[running.len() - 1] == r);
            }
            let s = spec_stops(running, seen, stop_after);
            assert(s == ps.push(r.0));
            if s.contains(running[i].0) {
                let k = choose|k: int| 0 <= k < s.len() && s[k] == running[i].0;
                if k < ps.len() {
                    assert(ps[k] == s[k]);
                }
            }
            if ps.contains(running[i].0) {
                let k = choose|k: int| 0 <= k < ps.len() && ps[k] == running[i].0;
                assert(s[k] == ps[k]);
            }
        }
    }
}

proof fn lemma_stops_within(running: Seq<(Seq<char>, u32)>, seen: Seq<Seq<char>>, stop_after: u32)
    ensures
        forall|k: int| 0 <= k < spec_stops(running, seen, stop_after).len() ==>
            exists|w: int| 0 <= w < running.len() && running[w].0 == #[trigger] spec_stops(running, seen, stop_after)[k],
    decreases running.len(),
{
    if running.len() > 0 {
        let prev = running.drop_last();
        lemma_stops_within(prev, seen, stop_after);
        let ps = spec_stops(prev, seen, stop_after);
        let s = spec_stops(running, seen, stop_after);
        assert forall|k: int| 0 <= k < s.len() implies
            exists|w: int| 0 <= w < running.len() && running[w].0 == #[trigger] s[k] by {
            if k < ps.len() {
                assert(s[k] == ps[k]);
                let w = choose|w: int| 0 <= w < prev.len() && prev[w].0 == ps[k];
                assert(running[w] == prev[w]);
            } else {
                assert(running[running.len() - 1].0 == s[k]);
            }
        }
    }
}

} // verus!
