//! The change debouncer: raw file-system notifications go in, one sync
//! action per settled path comes out.
//!
//! The debouncer keeps no clock. Its owner passes the current time, in
//! milliseconds on any monotonic scale, with every call. It judges each
//! path as it is given: an owner that wants the ignore policy applied to
//! paths under a root passes the paths relative to that root.

use vstd::prelude::*;
use crate::assoc::{
    distinct_keys, key_at, lemma_map_of, lemma_map_of_len, lemma_map_of_push, lemma_map_of_update,
    map_of,
};
use crate::policy::{
    default_ignore, excluded, excluded_normalized, lemma_excluded_normalized,
    lemma_normalized_idempotent, normalize, normalized,
};
use crate::text::string_of;

verus! {

/// What happened to a path.
#[derive(Debug, Clone, Copy, PartialEq, Eq, Structural)]
pub enum ChangeKind {
    Created,
    Modified,
    Removed,
}

/// One raw notification of the file-system watcher.
#[derive(Debug, Clone)]
pub enum ChangeEvent {
    Created(String),
    Modified(String),
    Removed(String),
    Renamed { from: String, to: String },
}

/// What a rename stands for, given the old and the new path where each
/// lies inside what is watched: a rename where both do, a removal where
/// only the old one does, a creation where only the new one does.
pub open spec fn rename_of(from: Option<Seq<char>>, to: Option<Seq<char>>) -> Option<EventView> {
    match (from, to) {
        (Some(from), Some(to)) => Some(EventView::Renamed { from, to }),
        (Some(from), None) => Some(EventView::Removed(from)),
        (None, Some(to)) => Some(EventView::Created(to)),
        (None, None) => None,
    }
}

/// The view of an optional path.
pub open spec fn path_view(path: Option<String>) -> Option<Seq<char>> {
    match path {
        Some(p) => Some(p@),
        None => None,
    }
}

/// The view of an optional notification.
pub open spec fn event_view(event: Option<ChangeEvent>) -> Option<EventView> {
    match event {
        Some(e) => Some(e@),
        None => None,
    }
}

/// The notification that a rename stands for.
pub fn rename_event(from: Option<String>, to: Option<String>) -> (r: Option<ChangeEvent>)
    ensures
        event_view(r) == rename_of(path_view(from), path_view(to)),
{
    match from {
        Some(from) => match to {
            Some(to) => Some(ChangeEvent::Renamed { from, to }),
            None => Some(ChangeEvent::Removed(from)),
        },
        None => match to {
            Some(to) => Some(ChangeEvent::Created(to)),
            None => None,
        },
    }
}

/// `ChangeEvent` as contracts see it.
pub enum EventView {
    Created(Seq<char>),
    Modified(Seq<char>),
    Removed(Seq<char>),
    Renamed { from: Seq<char>, to: Seq<char> },
}

impl View for ChangeEvent {
    type V = EventView;

    open spec fn view(&self) -> EventView {
        match self {
            ChangeEvent::Created(p) => EventView::Created(p@),
            ChangeEvent::Modified(p) => EventView::Modified(p@),
            ChangeEvent::Removed(p) => EventView::Removed(p@),
            ChangeEvent::Renamed { from, to } => EventView::Renamed { from: from@, to: to@ },
        }
    }
}

/// The unit of work the debouncer hands out: one settled path and the last
/// thing that happened to it.
#[derive(Debug, Clone)]
pub struct SyncAction {
    pub path: String,
    pub kind: ChangeKind,
}

impl SyncAction {
    /// The paths this action is about: always exactly one.
    pub fn target_paths(&self) -> (r: Vec<String>)
        ensures
            r@.len() == 1,
            r@[0]@ == self.path@,
    {
        let mut paths: Vec<String> = Vec::new();
        paths.push(self.path.clone());
        paths
    }
}

/// What the buffer holds for one path: the latest kind, and the time from
/// which the path counts as settled.
#[derive(Debug, Clone, Copy, PartialEq, Eq, Structural)]
pub struct Slot {
    pub kind: ChangeKind,
    pub due: u64,
}

/// The end of the quiescence window that opens at `now`; it stops at the
/// largest time there is.
pub open spec fn due_at(now: u64, window: u64) -> u64 {
    if now + window > u64::MAX {
        u64::MAX
    } else {
        (now + window) as u64
    }
}

/// The buffer after one change to one path: an excluded path changes
/// nothing, any other path gets a fresh slot under its normalized form,
/// whatever was there before.
pub open spec fn upsert(
    buffer: Map<Seq<char>, Slot>,
    ignore: Seq<String>,
    window: u64,
    path: Seq<char>,
    kind: ChangeKind,
    now: u64,
) -> Map<Seq<char>, Slot> {
    if excluded(path, ignore) {
        buffer
    } else {
        buffer.insert(normalized(path), Slot { kind, due: due_at(now, window) })
    }
}

/// The buffer after one notification. A rename is a removal at the old path
/// and a creation at the new one.
pub open spec fn pushed(
    buffer: Map<Seq<char>, Slot>,
    ignore: Seq<String>,
    window: u64,
    event: EventView,
    now: u64,
) -> Map<Seq<char>, Slot> {
    match event {
        EventView::Created(p) => upsert(buffer, ignore, window, p, ChangeKind::Created, now),
        EventView::Modified(p) => upsert(buffer, ignore, window, p, ChangeKind::Modified, now),
        EventView::Removed(p) => upsert(buffer, ignore, window, p, ChangeKind::Removed, now),
        EventView::Renamed { from, to } => upsert(
            upsert(buffer, ignore, window, from, ChangeKind::Removed, now),
            ignore,
            window,
            to,
            ChangeKind::Created,
            now,
        ),
    }
}

/// The time from `now` until `due`; none where `due` has passed.
pub open spec fn time_left(due: u64, now: u64) -> u64 {
    if due > now {
        (due - now) as u64
    } else {
        0
    }
}

/// The paths that have settled by `now`.
pub open spec fn ready(buffer: Map<Seq<char>, Slot>, now: u64) -> Set<Seq<char>> {
    Set::new(|p: Seq<char>| buffer.contains_key(p) && buffer[p].due <= now)
}

/// The buffer once the settled paths have been handed out.
pub open spec fn flushed(buffer: Map<Seq<char>, Slot>, now: u64) -> Map<Seq<char>, Slot> {
    buffer.remove_keys(ready(buffer, now))
}

/// No path in the buffer is excluded.
pub open spec fn clean(buffer: Map<Seq<char>, Slot>, ignore: Seq<String>) -> bool {
    forall|p: Seq<char>| buffer.contains_key(p) ==> !excluded(p, ignore)
}

/// The slot that one change leaves behind.
pub open spec fn fresh_slot(kind: ChangeKind, now: u64, window: u64) -> Slot {
    Slot { kind, due: due_at(now, window) }
}

/// The buffer after a burst on one path: change `i` arrives at `times[i]`
/// and is followed by a flush at `polls[i]`.
pub open spec fn burst(
    buffer: Map<Seq<char>, Slot>,
    ignore: Seq<String>,
    window: u64,
    path: Seq<char>,
    kinds: Seq<ChangeKind>,
    times: Seq<u64>,
    polls: Seq<u64>,
) -> Map<Seq<char>, Slot>
    decreases kinds.len(),
{
    if kinds.len() == 0 {
        buffer
    } else {
        flushed(
            upsert(
                burst(
                    buffer,
                    ignore,
                    window,
                    path,
                    kinds.drop_last(),
                    times.drop_last(),
                    polls.drop_last(),
                ),
                ignore,
                window,
                path,
                kinds.last(),
                times.last(),
            ),
            polls.last(),
        )
    }
}

/// Some flush of the burst hands the path out.
pub open spec fn burst_emits(
    buffer: Map<Seq<char>, Slot>,
    ignore: Seq<String>,
    window: u64,
    path: Seq<char>,
    kinds: Seq<ChangeKind>,
    times: Seq<u64>,
    polls: Seq<u64>,
) -> bool
    decreases kinds.len(),
{
    if kinds.len() == 0 {
        false
    } else {
        burst_emits(
            buffer,
            ignore,
            window,
            path,
            kinds.drop_last(),
            times.drop_last(),
            polls.drop_last(),
        ) || ready(
            upsert(
                burst(
                    buffer,
                    ignore,
                    window,
                    path,
                    kinds.drop_last(),
                    times.drop_last(),
                    polls.drop_last(),
                ),
                ignore,
                window,
                path,
                kinds.last(),
                times.last(),
            ),
            polls.last(),
        ).contains(normalized(path))
    }
}

/// A notification never brings an excluded path into the buffer, and one
/// that is only about excluded paths changes nothing.
pub proof fn lemma_push_keeps_excluded_out(
    buffer: Map<Seq<char>, Slot>,
    ignore: Seq<String>,
    window: u64,
    path: Seq<char>,
    kind: ChangeKind,
    now: u64,
)
    requires
        clean(buffer, ignore),
    ensures
        clean(upsert(buffer, ignore, window, path, kind, now), ignore),
        excluded(path, ignore) ==> upsert(buffer, ignore, window, path, kind, now) == buffer,
{
    lemma_excluded_normalized(path, ignore);
}

/// Whatever the notification, the buffer stays free of excluded paths.
pub proof fn lemma_pushed_is_clean(
    buffer: Map<Seq<char>, Slot>,
    ignore: Seq<String>,
    window: u64,
    event: EventView,
    now: u64,
)
    requires
        clean(buffer, ignore),
    ensures
        clean(pushed(buffer, ignore, window, event, now), ignore),
{
    match event {
        EventView::Created(p) => {
            lemma_push_keeps_excluded_out(buffer, ignore, window, p, ChangeKind::Created, now);
        },
        EventView::Modified(p) => {
            lemma_push_keeps_excluded_out(buffer, ignore, window, p, ChangeKind::Modified, now);
        },
        EventView::Removed(p) => {
            lemma_push_keeps_excluded_out(buffer, ignore, window, p, ChangeKind::Removed, now);
        },
        EventView::Renamed { from, to } => {
            lemma_push_keeps_excluded_out(buffer, ignore, window, from, ChangeKind::Removed, now);
            lemma_push_keeps_excluded_out(
                upsert(buffer, ignore, window, from, ChangeKind::Removed, now),
                ignore,
                window,
                to,
                ChangeKind::Created,
                now,
            );
        },
    }
}

/// A flush hands out no excluded path and leaves none behind.
pub proof fn lemma_flush_keeps_excluded_out(
    buffer: Map<Seq<char>, Slot>,
    ignore: Seq<String>,
    now: u64,
)
    requires
        clean(buffer, ignore),
    ensures
        forall|p: Seq<char>| ready(buffer, now).contains(p) ==> !excluded(p, ignore),
        clean(flushed(buffer, now), ignore),
{
}

/// During a burst of changes to one path, where each flush falls inside the
/// window that the latest change opened, no flush hands the path out. The
/// burst leaves one slot for the path, with the kind of the last change;
/// the first flush after that window hands the path out, and then it is
/// gone.
pub proof fn lemma_burst_gives_one_action(
    buffer: Map<Seq<char>, Slot>,
    ignore: Seq<String>,
    window: u64,
    path: Seq<char>,
    kinds: Seq<ChangeKind>,
    times: Seq<u64>,
    polls: Seq<u64>,
)
    requires
        kinds.len() > 0,
        times.len() == kinds.len(),
        polls.len() == kinds.len(),
        !excluded(path, ignore),
        forall|i: int| 0 <= i < polls.len() ==> polls[i] < due_at(times[i], window),
    ensures
        !burst_emits(buffer, ignore, window, path, kinds, times, polls),
        burst(buffer, ignore, window, path, kinds, times, polls).contains_key(normalized(path)),
        burst(buffer, ignore, window, path, kinds, times, polls)[normalized(path)] == fresh_slot(
            kinds.last(),
            times.last(),
            window,
        ),
        forall|t: u64|
            t >= due_at(times.last(), window) ==> (#[trigger] ready(
                burst(buffer, ignore, window, path, kinds, times, polls),
                t,
            )).contains(normalized(path)),
        forall|t: u64|
            t >= due_at(times.last(), window) ==> !(#[trigger] flushed(
                burst(buffer, ignore, window, path, kinds, times, polls),
                t,
            )).contains_key(normalized(path)),
    decreases kinds.len(),
{
    if kinds.len() > 1 {
        let k = kinds.drop_last();
        let t = times.drop_last();
        let q = polls.drop_last();
        assert forall|i: int| 0 <= i < q.len() implies q[i] < due_at(t[i], window) by {
            assert(q[i] == polls[i]);
            assert(t[i] == times[i]);
        }
        lemma_burst_gives_one_action(buffer, ignore, window, path, k, t, q);
    } else {
        assert(kinds.drop_last().len() == 0);
        assert(!burst_emits(
            buffer,
            ignore,
            window,
            path,
            kinds.drop_last(),
            times.drop_last(),
            polls.drop_last(),
        ));
    }
    let prev = burst(
        buffer,
        ignore,
        window,
        path,
        kinds.drop_last(),
        times.drop_last(),
        polls.drop_last(),
    );
    let step = upsert(prev, ignore, window, path, kinds.last(), times.last());
    assert(polls.last() == polls[polls.len() - 1]);
    assert(times.last() == times[times.len() - 1]);
    assert(step[normalized(path)].due == due_at(times.last(), window));
    assert(!ready(step, polls.last()).contains(normalized(path)));
}

/// A change to one path leaves every other path's slot, and the time at
/// which that path is handed out, as they were.
pub proof fn lemma_paths_do_not_delay_each_other(
    buffer: Map<Seq<char>, Slot>,
    ignore: Seq<String>,
    window: u64,
    path: Seq<char>,
    kind: ChangeKind,
    now: u64,
    other: Seq<char>,
    t: u64,
)
    requires
        normalized(path) != normalized(other),
    ensures
        upsert(buffer, ignore, window, path, kind, now).contains_key(normalized(other))
            == buffer.contains_key(normalized(other)),
        buffer.contains_key(normalized(other)) ==> upsert(
            buffer,
            ignore,
            window,
            path,
            kind,
            now,
        )[normalized(other)] == buffer[normalized(other)],
        ready(upsert(buffer, ignore, window, path, kind, now), t).contains(normalized(other))
            == ready(buffer, t).contains(normalized(other)),
{
}

/// Two different paths that change at the same time get a slot each, with
/// the same deadline: no flush before it hands out either, every flush from
/// it on hands out both.
pub proof fn lemma_two_paths_give_two_actions(
    buffer: Map<Seq<char>, Slot>,
    ignore: Seq<String>,
    window: u64,
    first: Seq<char>,
    first_kind: ChangeKind,
    second: Seq<char>,
    second_kind: ChangeKind,
    now: u64,
    t: u64,
)
    requires
        normalized(first) != normalized(second),
        !excluded(first, ignore),
        !excluded(second, ignore),
    ensures
        ({
            let both = upsert(
                upsert(buffer, ignore, window, first, first_kind, now),
                ignore,
                window,
                second,
                second_kind,
                now,
            );
            &&& both[normalized(first)] == fresh_slot(first_kind, now, window)
            &&& both[normalized(second)] == fresh_slot(second_kind, now, window)
            &&& ready(both, t).contains(normalized(first)) == (t >= due_at(now, window))
            &&& ready(both, t).contains(normalized(second)) == (t >= due_at(now, window))
        }),
{
}

struct Pending {
    path: String,
    slot: Slot,
}

spec fn keys(entries: Seq<Pending>) -> Seq<Seq<char>> {
    entries.map_values(|e: Pending| e.path@)
}

spec fn slots(entries: Seq<Pending>) -> Seq<Slot> {
    entries.map_values(|e: Pending| e.slot)
}

spec fn distinct(entries: Seq<Pending>) -> bool {
    forall|i: int, j: int|
        0 <= i < j < entries.len() ==> (#[trigger] entries[i]).path@ != (#[trigger] entries[j]).path@
}

spec fn buffer_of(entries: Seq<Pending>) -> Map<Seq<char>, Slot> {
    map_of(keys(entries), slots(entries))
}

spec fn holds(entries: Seq<Pending>, p: Seq<char>, i: int) -> bool {
    0 <= i < entries.len() && entries[i].path@ == p
}

proof fn lemma_distinct_keys(entries: Seq<Pending>)
    requires
        distinct(entries),
    ensures
        distinct_keys(keys(entries)),
{
    assert forall|i: int, j: int| 0 <= i < j < keys(entries).len() implies keys(entries)[i] != keys(
        entries,
    )[j] by {
        assert(entries[i].path@ != entries[j].path@);
    }
}

proof fn lemma_buffer_of(entries: Seq<Pending>)
    requires
        distinct(entries),
    ensures
        forall|p: Seq<char>|
            #![trigger buffer_of(entries).contains_key(p)]
            buffer_of(entries).contains_key(p) <==> exists|i: int| holds(entries, p, i),
        forall|p: Seq<char>, i: int|
            holds(entries, p, i) ==> buffer_of(entries).contains_key(p) && buffer_of(entries)[p]
                == entries[i].slot,
{
    lemma_distinct_keys(entries);
    lemma_map_of(keys(entries), slots(entries));
    assert forall|p: Seq<char>|
        #![trigger buffer_of(entries).contains_key(p)]
        buffer_of(entries).contains_key(p) <==> exists|i: int| holds(entries, p, i) by {
        if buffer_of(entries).contains_key(p) {
            let i = choose|i: int| key_at(keys(entries), p, i);
            assert(holds(entries, p, i));
        }
        if exists|i: int| holds(entries, p, i) {
            let i = choose|i: int| holds(entries, p, i);
            assert(key_at(keys(entries), p, i));
        }
    }
    assert forall|p: Seq<char>, i: int| holds(entries, p, i) implies buffer_of(
        entries,
    ).contains_key(p) && buffer_of(entries)[p] == entries[i].slot by {
        assert(key_at(keys(entries), p, i));
    }
}

/// Coalesces bursts of notifications into one action per path.
pub struct Debouncer {
    window: u64,
    ignore: Vec<String>,
    pending: Vec<Pending>,
}

impl Debouncer {
    /// The length of the quiescence window, in milliseconds.
    pub closed spec fn window_ms(&self) -> u64 {
        self.window
    }

    /// The ignore list in use.
    pub closed spec fn ignore_list(&self) -> Seq<String> {
        self.ignore@
    }

    /// The buffer: each waiting path with its slot.
    pub closed spec fn buffer(&self) -> Map<Seq<char>, Slot> {
        buffer_of(self.pending@)
    }

    /// The invariant: each path waits once, and no waiting path is excluded.
    pub closed spec fn wf(&self) -> bool {
        &&& distinct(self.pending@)
        &&& forall|i: int|
            0 <= i < self.pending@.len() ==> !excluded(
                (#[trigger] self.pending@[i]).path@,
                self.ignore@,
            )
    }

    /// A well-formed debouncer holds no excluded path.
    pub proof fn lemma_wf_is_clean(&self)
        requires
            self.wf(),
        ensures
            clean(self.buffer(), self.ignore_list()),
            self.buffer().dom().finite(),
    {
        lemma_buffer_of(self.pending@);
        lemma_distinct_keys(self.pending@);
        lemma_map_of(keys(self.pending@), slots(self.pending@));
    }

    /// An empty debouncer with the given window and ignore list.
    pub fn new(window: u64, ignore: Vec<String>) -> (r: Debouncer)
        ensures
            r.wf(),
            r.window_ms() == window,
            r.ignore_list() == ignore@,
            r.buffer() == Map::<Seq<char>, Slot>::empty(),
    {
        let r = Debouncer { window, ignore, pending: Vec::new() };
        assert(keys(r.pending@) =~= Seq::empty());
        r
    }

    /// An empty debouncer with a window of half a second and the default
    /// ignore list.
    pub fn with_defaults() -> (r: Debouncer)
        ensures
            r.wf(),
            r.window_ms() == 500,
            r.ignore_list().len() == 1,
            r.ignore_list()[0]@ == "node_modules"@,
            r.buffer() == Map::<Seq<char>, Slot>::empty(),
    {
        let ignore = default_ignore();
        Debouncer::new(500, ignore)
    }

    /// The number of paths that wait.
    pub fn len(&self) -> (r: usize)
        requires
            self.wf(),
        ensures
            r == self.buffer().dom().len(),
    {
        proof {
            lemma_distinct_keys(self.pending@);
            lemma_map_of_len(keys(self.pending@), slots(self.pending@));
        }
        self.pending.len()
    }

    fn position(&self, key: &String) -> (r: usize)
        requires
            self.wf(),
        ensures
            r <= self.pending@.len(),
            r < self.pending@.len() ==> self.pending@[r as int].path@ == key@,
            r == self.pending@.len() ==> !self.buffer().contains_key(key@),
    {
        let mut i: usize = 0;
        while i < self.pending.len()
            invariant
                i <= self.pending@.len(),
                forall|j: int| 0 <= j < i ==> !holds(self.pending@, key@, j),
            decreases self.pending@.len() - i,
        {
            if self.pending[i].path == *key {
                return i;
            }
            i += 1;
        }
        proof {
            lemma_buffer_of(self.pending@);
            if self.buffer().contains_key(key@) {
                let j = choose|j: int| holds(self.pending@, key@, j);
                assert(!holds(self.pending@, key@, j));
            }
        }
        i
    }

    fn put(&mut self, path: &str, kind: ChangeKind, now: u64)
        requires
            old(self).wf(),
        ensures
            final(self).wf(),
            final(self).window_ms() == old(self).window_ms(),
            final(self).ignore_list() == old(self).ignore_list(),
            final(self).buffer() == upsert(
                old(self).buffer(),
                old(self).ignore_list(),
                old(self).window_ms(),
                path@,
                kind,
                now,
            ),
    {
        let p = normalize(path);
        if excluded_normalized(&p, &self.ignore) {
            return;
        }
        let key = string_of(&p);
        proof {
            lemma_normalized_idempotent(path@);
            assert(!excluded(key@, self.ignore@));
        }
        let due: u64 = if now > u64::MAX - self.window {
            u64::MAX
        } else {
            now + self.window
        };
        let slot = Slot { kind, due };
        let at = self.position(&key);
        let ghost before = self.pending@;
        proof {
            lemma_buffer_of(before);
        }
        if at < self.pending.len() {
            self.pending.set(at, Pending { path: key, slot });
            proof {
                let after = self.pending@;
                lemma_put_replace(before, after, at as int, self.ignore@);
            }
        } else {
            self.pending.push(Pending { path: key, slot });
            proof {
                let after = self.pending@;
                assert(after.drop_last() =~= before);
                lemma_put_append(before, after, self.ignore@);
            }
        }
    }

    /// Takes one notification in at time `now`.
    pub fn push(&mut self, event: ChangeEvent, now: u64)
        requires
            old(self).wf(),
        ensures
            final(self).wf(),
            final(self).window_ms() == old(self).window_ms(),
            final(self).ignore_list() == old(self).ignore_list(),
            final(self).buffer() == pushed(
                old(self).buffer(),
                old(self).ignore_list(),
                old(self).window_ms(),
                event@,
                now,
            ),
    {
        match event {
            ChangeEvent::Created(p) => self.put(p.as_str(), ChangeKind::Created, now),
            ChangeEvent::Modified(p) => self.put(p.as_str(), ChangeKind::Modified, now),
            ChangeEvent::Removed(p) => self.put(p.as_str(), ChangeKind::Removed, now),
            ChangeEvent::Renamed { from, to } => {
                self.put(from.as_str(), ChangeKind::Removed, now);
                self.put(to.as_str(), ChangeKind::Created, now);
            },
        }
    }

    /// Hands out every path that has settled by `now`, each exactly once and
    /// with its latest kind, and forgets it. The paths that have not settled
    /// stay as they are.
    pub fn flush(&mut self, now: u64) -> (actions: Vec<SyncAction>)
        requires
            old(self).wf(),
        ensures
            final(self).wf(),
            final(self).window_ms() == old(self).window_ms(),
            final(self).ignore_list() == old(self).ignore_list(),
            final(self).buffer() == flushed(old(self).buffer(), now),
            forall|i: int|
                0 <= i < actions@.len() ==> ready(old(self).buffer(), now).contains(
                    (#[trigger] actions@[i]).path@,
                ) && actions@[i].kind == old(self).buffer()[actions@[i].path@].kind,
            forall|p: Seq<char>|
                ready(old(self).buffer(), now).contains(p) ==> exists|i: int|
                    0 <= i < actions@.len() && (#[trigger] actions@[i]).path@ == p,
            forall|i: int, j: int|
                0 <= i < j < actions@.len() ==> (#[trigger] actions@[i]).path@ != (
                #[trigger] actions@[j]).path@,
            forall|i: int|
                0 <= i < actions@.len() ==> !excluded(
                    (#[trigger] actions@[i]).path@,
                    old(self).ignore_list(),
                ),
    {
        let ghost before = self.pending@;
        let mut keep: Vec<Pending> = Vec::new();
        let mut actions: Vec<SyncAction> = Vec::new();
        let mut i: usize = 0;
        while i < self.pending.len()
            invariant
                self.pending@ == before,
                i <= before.len(),
                keep@.len() == picked(before.take(i as int), now, false).len(),
                forall|k: int|
                    0 <= k < keep@.len() ==> entry_pair(#[trigger] keep@[k]) == picked(
                        before.take(i as int),
                        now,
                        false,
                    )[k],
                actions@.len() == picked(before.take(i as int), now, true).len(),
                forall|k: int|
                    0 <= k < actions@.len() ==> action_pair(#[trigger] actions@[k]) == sent_pair(
                        picked(before.take(i as int), now, true)[k],
                    ),
            decreases before.len() - i,
        {
            let entry = &self.pending[i];
            proof {
                assert(before.take(i + 1).drop_last() =~= before.take(i as int));
                assert(before.take(i + 1).last() == before[i as int]);
            }
            if entry.slot.due <= now {
                actions.push(SyncAction { path: entry.path.clone(), kind: entry.slot.kind });
            } else {
                keep.push(Pending { path: entry.path.clone(), slot: entry.slot });
            }
            i += 1;
        }
        self.pending = keep;
        proof {
            assert(before.take(before.len() as int) =~= before);
            lemma_flush_keep(before, self.pending@, now);
            lemma_flush_sent(before, actions@, now);
            lemma_buffer_of(before);
            lemma_buffer_of(self.pending@);
            lemma_picked(before, now, false);
            assert forall|k: int| 0 <= k < self.pending@.len() implies !excluded(
                (#[trigger] self.pending@[k]).path@,
                self.ignore@,
            ) by {
                let pair = picked(before, now, false)[k];
                assert(entry_pair(self.pending@[k]) == pair);
                let j = choose|j: int| source(before, now, false, pair, j);
                assert(!excluded(before[j].path@, self.ignore@));
            }
            assert forall|k: int| 0 <= k < actions@.len() implies !excluded(
                (#[trigger] actions@[k]).path@,
                self.ignore@,
            ) by {
                assert(ready(buffer_of(before), now).contains(actions@[k].path@));
                assert(buffer_of(before).contains_key(actions@[k].path@));
                let j = choose|j: int| holds(before, actions@[k].path@, j);
                assert(!excluded(before[j].path@, self.ignore@));
            }
        }
        actions
    }

    /// The earliest time at which a waiting path settles, if any path waits.
    pub fn next_due(&self) -> (r: Option<u64>)
        requires
            self.wf(),
        ensures
            r is None <==> self.buffer() == Map::<Seq<char>, Slot>::empty(),
            r matches Some(d) ==> (exists|p: Seq<char>|
                self.buffer().contains_key(p) && self.buffer()[p].due == d) && forall|
                p: Seq<char>,
            | self.buffer().contains_key(p) ==> d <= self.buffer()[p].due,
    {
        proof {
            lemma_buffer_of(self.pending@);
        }
        if self.pending.len() == 0 {
            assert(self.buffer() =~= Map::<Seq<char>, Slot>::empty());
            return None;
        }
        let mut best: u64 = self.pending[0].slot.due;
        let mut at: usize = 0;
        let mut i: usize = 1;
        while i < self.pending.len()
            invariant
                1 <= i <= self.pending@.len(),
                at < i,
                self.pending@[at as int].slot.due == best,
                forall|j: int| 0 <= j < i ==> best <= (#[trigger] self.pending@[j]).slot.due,
            decreases self.pending@.len() - i,
        {
            if self.pending[i].slot.due < best {
                best = self.pending[i].slot.due;
                at = i;
            }
            i += 1;
        }
        proof {
            let entries = self.pending@;
            let p = entries[at as int].path@;
            assert(holds(entries, p, at as int));
            assert(self.buffer().contains_key(p) && self.buffer()[p].due == best);
            assert forall|q: Seq<char>| self.buffer().contains_key(q) implies best
                <= self.buffer()[q].due by {
                let k = choose|k: int| holds(entries, q, k);
                assert(self.buffer()[q] == entries[k].slot);
            }
        }
        Some(best)
    }

    /// How long the owner may wait for the next notification before it has
    /// to flush: until the earliest deadline, and never longer than `cap`.
    pub fn wait(&self, now: u64, cap: u64) -> (r: u64)
        requires
            self.wf(),
        ensures
            r <= cap,
            forall|p: Seq<char>|
                self.buffer().contains_key(p) ==> r <= time_left(self.buffer()[p].due, now),
            r == cap || exists|p: Seq<char>|
                self.buffer().contains_key(p) && r == time_left(self.buffer()[p].due, now),
    {
        match self.next_due() {
            None => {
                assert(self.buffer() == Map::<Seq<char>, Slot>::empty());
                cap
            },
            Some(due) => {
                let left = if due > now {
                    due - now
                } else {
                    0
                };
                if left < cap {
                    left
                } else {
                    cap
                }
            },
        }
    }
}

spec fn entry_pair(e: Pending) -> (Seq<char>, Slot) {
    (e.path@, e.slot)
}

spec fn action_pair(a: SyncAction) -> (Seq<char>, ChangeKind) {
    (a.path@, a.kind)
}

spec fn sent_pair(pair: (Seq<char>, Slot)) -> (Seq<char>, ChangeKind) {
    (pair.0, pair.1.kind)
}

/// The entries that have settled by `now` (`late`) or have not (`!late`),
/// in buffer order.
spec fn picked(entries: Seq<Pending>, now: u64, late: bool) -> Seq<(Seq<char>, Slot)>
    decreases entries.len(),
{
    if entries.len() == 0 {
        Seq::empty()
    } else {
        let rest = picked(entries.drop_last(), now, late);
        let e = entries.last();
        if (e.slot.due <= now) == late {
            rest.push(entry_pair(e))
        } else {
            rest
        }
    }
}

spec fn source(entries: Seq<Pending>, now: u64, late: bool, pair: (Seq<char>, Slot), j: int) -> bool {
    0 <= j < entries.len() && entry_pair(entries[j]) == pair && ((entries[j].slot.due <= now)
        == late)
}

spec fn target(picks: Seq<(Seq<char>, Slot)>, e: Pending, k: int) -> bool {
    0 <= k < picks.len() && picks[k] == entry_pair(e)
}

spec fn has_source(entries: Seq<Pending>, now: u64, late: bool, pair: (Seq<char>, Slot)) -> bool {
    exists|j: int| source(entries, now, late, pair, j)
}

spec fn has_target(picks: Seq<(Seq<char>, Slot)>, e: Pending) -> bool {
    exists|k: int| target(picks, e, k)
}

proof fn lemma_distinct_init(entries: Seq<Pending>)
    requires
        distinct(entries),
        entries.len() > 0,
    ensures
        distinct(entries.drop_last()),
{
    let init = entries.drop_last();
    assert forall|i: int, j: int| 0 <= i < j < init.len() implies (#[trigger] init[i]).path@ != (
    #[trigger] init[j]).path@ by {
        assert(init[i] == entries[i]);
        assert(init[j] == entries[j]);
    }
}

proof fn lemma_picked(entries: Seq<Pending>, now: u64, late: bool)
    requires
        distinct(entries),
    ensures
        forall|k: int|
            0 <= k < picked(entries, now, late).len() ==> has_source(
                entries,
                now,
                late,
                #[trigger] picked(entries, now, late)[k],
            ),
        forall|j: int|
            0 <= j < entries.len() && (((#[trigger] entries[j]).slot.due <= now) == late)
                ==> has_target(picked(entries, now, late), entries[j]),
        forall|a: int, b: int|
            0 <= a < b < picked(entries, now, late).len() ==> (#[trigger] picked(
                entries,
                now,
                late,
            )[a]).0 != (#[trigger] picked(entries, now, late)[b]).0,
    decreases entries.len(),
{
    if entries.len() > 0 {
        let init = entries.drop_last();
        let e = entries.last();
        let rest = picked(init, now, late);
        let all = picked(entries, now, late);
        lemma_distinct_init(entries);
        lemma_picked(init, now, late);
        assert(all.len() == rest.len() || all == rest.push(entry_pair(e)));
        assert forall|k: int| 0 <= k < all.len() implies has_source(
            entries,
            now,
            late,
            #[trigger] all[k],
        ) by {
            if k < rest.len() {
                assert(all[k] == rest[k]);
                let j = choose|j: int| source(init, now, late, rest[k], j);
                assert(init[j] == entries[j]);
                assert(source(entries, now, late, all[k], j));
            } else {
                assert(source(entries, now, late, all[k], entries.len() - 1));
            }
        }
        assert forall|j: int|
            0 <= j < entries.len() && (((#[trigger] entries[j]).slot.due <= now)
                == late) implies has_target(all, entries[j]) by {
            if j < init.len() {
                assert(init[j] == entries[j]);
                let k = choose|k: int| target(rest, init[j], k);
                assert(target(all, entries[j], k));
            } else {
                assert(target(all, entries[j], all.len() - 1));
            }
        }
        assert forall|a: int, b: int| 0 <= a < b < all.len() implies (#[trigger] all[a]).0 != (
        #[trigger] all[b]).0 by {
            if b < rest.len() {
                assert(all[a] == rest[a] && all[b] == rest[b]);
            } else {
                assert(all[a] == rest[a]);
                let j = choose|j: int| source(init, now, late, rest[a], j);
                assert(init[j] == entries[j]);
                assert(entries[j].path@ != entries[entries.len() - 1].path@);
            }
        }
    } else {
        assert(picked(entries, now, late).len() == 0);
    }
}

proof fn lemma_flush_keep(before: Seq<Pending>, after: Seq<Pending>, now: u64)
    requires
        distinct(before),
        after.len() == picked(before, now, false).len(),
        forall|k: int|
            0 <= k < after.len() ==> entry_pair(#[trigger] after[k]) == picked(before, now, false)[k],
    ensures
        distinct(after),
        buffer_of(after) == flushed(buffer_of(before), now),
{
    let picks = picked(before, now, false);
    let m = buffer_of(before);
    lemma_picked(before, now, false);
    assert forall|a: int, b: int| 0 <= a < b < after.len() implies (#[trigger] after[a]).path@ != (
    #[trigger] after[b]).path@ by {
        assert(entry_pair(after[a]) == picks[a]);
        assert(entry_pair(after[b]) == picks[b]);
    }
    lemma_buffer_of(before);
    lemma_buffer_of(after);
    assert forall|q: Seq<char>| #[trigger]
        buffer_of(after).contains_key(q) implies flushed(m, now).contains_key(q) && buffer_of(
        after,
    )[q] == flushed(m, now)[q] by {
        let k = choose|k: int| holds(after, q, k);
        assert(entry_pair(after[k]) == picks[k]);
        let j = choose|j: int| source(before, now, false, picks[k], j);
        assert(holds(before, q, j));
    }
    assert forall|q: Seq<char>| #[trigger]
        flushed(m, now).contains_key(q) implies buffer_of(after).contains_key(q) by {
        assert(m.contains_key(q));
        let j = choose|j: int| holds(before, q, j);
        assert(m[q] == before[j].slot);
        let k = choose|k: int| target(picks, before[j], k);
        assert(entry_pair(after[k]) == picks[k]);
        assert(holds(after, q, k));
    }
    assert(buffer_of(after) =~= flushed(m, now));
}

proof fn lemma_flush_sent(before: Seq<Pending>, actions: Seq<SyncAction>, now: u64)
    requires
        distinct(before),
        actions.len() == picked(before, now, true).len(),
        forall|k: int|
            0 <= k < actions.len() ==> action_pair(#[trigger] actions[k]) == sent_pair(
                picked(before, now, true)[k],
            ),
    ensures
        forall|i: int|
            0 <= i < actions.len() ==> ready(buffer_of(before), now).contains(
                (#[trigger] actions[i]).path@,
            ) && actions[i].kind == buffer_of(before)[actions[i].path@].kind,
        forall|p: Seq<char>|
            ready(buffer_of(before), now).contains(p) ==> exists|i: int|
                0 <= i < actions.len() && (#[trigger] actions[i]).path@ == p,
        forall|i: int, j: int|
            0 <= i < j < actions.len() ==> (#[trigger] actions[i]).path@ != (
            #[trigger] actions[j]).path@,
{
    let picks = picked(before, now, true);
    let m = buffer_of(before);
    lemma_picked(before, now, true);
    lemma_buffer_of(before);
    assert forall|i: int| 0 <= i < actions.len() implies ready(m, now).contains(
        (#[trigger] actions[i]).path@,
    ) && actions[i].kind == m[actions[i].path@].kind by {
        assert(action_pair(actions[i]) == sent_pair(picks[i]));
        let j = choose|j: int| source(before, now, true, picks[i], j);
        assert(holds(before, actions[i].path@, j));
    }
    assert forall|p: Seq<char>| ready(m, now).contains(p) implies exists|i: int|
        0 <= i < actions.len() && (#[trigger] actions[i]).path@ == p by {
        assert(m.contains_key(p));
        let j = choose|j: int| holds(before, p, j);
        assert(m[p] == before[j].slot);
        let k = choose|k: int| target(picks, before[j], k);
        assert(action_pair(actions[k]) == sent_pair(picks[k]));
        assert(actions[k].path@ == p);
    }
    assert forall|i: int, j: int| 0 <= i < j < actions.len() implies (#[trigger] actions[i]).path@
        != (#[trigger] actions[j]).path@ by {
        assert(action_pair(actions[i]) == sent_pair(picks[i]));
        assert(action_pair(actions[j]) == sent_pair(picks[j]));
    }
}

proof fn lemma_put_replace(before: Seq<Pending>, after: Seq<Pending>, at: int, ignore: Seq<String>)
    requires
        distinct(before),
        0 <= at < before.len(),
        after.len() == before.len(),
        after[at].path@ == before[at].path@,
        forall|i: int| 0 <= i < before.len() && i != at ==> #[trigger] after[i] == before[i],
        forall|i: int| 0 <= i < before.len() ==> !excluded((#[trigger] before[i]).path@, ignore),
    ensures
        distinct(after),
        buffer_of(after) == buffer_of(before).insert(after[at].path@, after[at].slot),
        forall|i: int| 0 <= i < after.len() ==> !excluded((#[trigger] after[i]).path@, ignore),
{
    assert forall|i: int| 0 <= i < after.len() implies (#[trigger] after[i]).path@
        == before[i].path@ by {
        if i != at {
            assert(after[i] == before[i]);
        }
    }
    assert forall|i: int, j: int| 0 <= i < j < after.len() implies (#[trigger] after[i]).path@ != (
    #[trigger] after[j]).path@ by {
        assert(before[i].path@ != before[j].path@);
    }
    assert forall|i: int| 0 <= i < after.len() implies !excluded(
        (#[trigger] after[i]).path@,
        ignore,
    ) by {
        assert(!excluded(before[i].path@, ignore));
    }
    lemma_distinct_keys(before);
    assert(keys(after) =~= keys(before));
    assert forall|i: int| 0 <= i < after.len() implies slots(after)[i] == slots(before).update(
        at,
        after[at].slot,
    )[i] by {
        if i != at {
            assert(after[i] == before[i]);
        }
    }
    assert(slots(after) =~= slots(before).update(at, after[at].slot));
    lemma_map_of_update(keys(before), slots(before), at, after[at].slot);
}

proof fn lemma_put_append(before: Seq<Pending>, after: Seq<Pending>, ignore: Seq<String>)
    requires
        distinct(before),
        after.len() == before.len() + 1,
        after.drop_last() == before,
        !buffer_of(before).contains_key(after.last().path@),
        !excluded(after.last().path@, ignore),
        forall|i: int| 0 <= i < before.len() ==> !excluded((#[trigger] before[i]).path@, ignore),
    ensures
        distinct(after),
        buffer_of(after) == buffer_of(before).insert(after.last().path@, after.last().slot),
        forall|i: int| 0 <= i < after.len() ==> !excluded((#[trigger] after[i]).path@, ignore),
{
    lemma_buffer_of(before);
    lemma_distinct_keys(before);
    assert forall|i: int, j: int| 0 <= i < j < after.len() implies (#[trigger] after[i]).path@ != (
    #[trigger] after[j]).path@ by {
        assert(after[i] == before[i]);
        if j < before.len() {
            assert(after[j] == before[j]);
        } else {
            assert(holds(before, before[i].path@, i));
        }
    }
    assert forall|i: int| 0 <= i < after.len() implies !excluded(
        (#[trigger] after[i]).path@,
        ignore,
    ) by {
        if i < before.len() {
            assert(after[i] == before[i]);
        }
    }
    assert(keys(after) =~= keys(before).push(after.last().path@));
    assert(slots(after) =~= slots(before).push(after.last().slot));
    lemma_map_of_push(keys(before), slots(before), after.last().path@, after.last().slot);
}

} // verus!
