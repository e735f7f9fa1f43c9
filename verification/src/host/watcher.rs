//! Watching the configuration directory and the effect properties for changes.
//!
//! A caller lists the directory, reads the clock and asks what changed since the
//! last time. Times are in milliseconds on a clock that does not go back.

use vstd::prelude::*;
use crate::text;
use crate::text::{eq, holds_text, insert_text, last_position_of, sub_string, to_chars, to_lowercase};

verus! {

/// Something that changed.
#[derive(Clone, Debug, PartialEq, Eq)]
pub enum WatchEvent {
    /// A configuration file is new or was written.
    ConfigFileChanged(String),
    /// A configuration file is gone.
    ConfigFileDeleted(String),
    /// The effect properties changed.
    RegistryChanged,
}

/// The contents of an event.
pub enum EventView {
    ConfigFileChanged(Seq<char>),
    ConfigFileDeleted(Seq<char>),
    RegistryChanged,
}

impl View for WatchEvent {
    type V = EventView;

    open spec fn view(&self) -> EventView {
        match self {
            WatchEvent::ConfigFileChanged(p) => EventView::ConfigFileChanged(p@),
            WatchEvent::ConfigFileDeleted(p) => EventView::ConfigFileDeleted(p@),
            WatchEvent::RegistryChanged => EventView::RegistryChanged,
        }
    }
}

/// The contents of a list of events.
pub open spec fn events(v: Seq<WatchEvent>) -> Seq<EventView> {
    v.map_values(|e: WatchEvent| e@)
}

fn same_event(a: &WatchEvent, b: &WatchEvent) -> (r: bool)
    ensures
        r == (a@ == b@),
{
    match (a, b) {
        (WatchEvent::ConfigFileChanged(p), WatchEvent::ConfigFileChanged(q)) => eq(
            p.as_str(),
            q.as_str(),
        ),
        (WatchEvent::ConfigFileDeleted(p), WatchEvent::ConfigFileDeleted(q)) => eq(
            p.as_str(),
            q.as_str(),
        ),
        (WatchEvent::RegistryChanged, WatchEvent::RegistryChanged) => true,
        _ => false,
    }
}

fn copy_event(e: &WatchEvent) -> (r: WatchEvent)
    ensures
        r@ == e@,
{
    match e {
        WatchEvent::ConfigFileChanged(p) => WatchEvent::ConfigFileChanged(p.clone()),
        WatchEvent::ConfigFileDeleted(p) => WatchEvent::ConfigFileDeleted(p.clone()),
        WatchEvent::RegistryChanged => WatchEvent::RegistryChanged,
    }
}

// ---------------------------------------------------------------------------
// Repeated events
// ---------------------------------------------------------------------------
/// Drops an event that repeats one from a short time before.
#[derive(Clone, Debug, PartialEq, Eq)]
pub struct Deduplicator {
    /// The events that were let through, each with its time, as far as they can
    /// still be repeated.
    pub recent: Vec<(u64, WatchEvent)>,
    /// The time within which a repetition is dropped.
    pub window_ms: u64,
}

/// The contents of a deduplicator.
pub struct DedupView {
    pub recent: Seq<(u64, EventView)>,
    pub window_ms: u64,
}

/// The contents of some events with their times.
pub open spec fn timed(list: Seq<(u64, WatchEvent)>) -> Seq<(u64, EventView)> {
    list.map_values(|x: (u64, WatchEvent)| (x.0, x.1@))
}

impl View for Deduplicator {
    type V = DedupView;

    open spec fn view(&self) -> DedupView {
        DedupView { recent: timed(self.recent@), window_ms: self.window_ms }
    }
}

/// The time from one moment to another; none if the other is not later.
pub open spec fn elapsed(now: u64, since: u64) -> int {
    if now >= since {
        now - since
    } else {
        0
    }
}

/// Whether an event is let through: not if it was let through within the window.
pub open spec fn passes(d: DedupView, event: EventView, now: u64) -> bool {
    !exists|i: int|
        0 <= i < d.recent.len() && (#[trigger] d.recent[i]).1 == event && elapsed(
            now,
            d.recent[i].0,
        ) < d.window_ms
}

/// Those of some events that can still be repeated.
pub open spec fn still_recent(
    list: Seq<(u64, EventView)>,
    window_ms: u64,
    now: u64,
) -> Seq<(u64, EventView)>
    decreases list.len(),
{
    if list.len() == 0 {
        Seq::empty()
    } else {
        let rest = still_recent(list.drop_last(), window_ms, now);
        if elapsed(now, list.last().0) < window_ms {
            rest.push(list.last())
        } else {
            rest
        }
    }
}

/// A deduplicator after it has seen an event.
pub open spec fn seen(d: DedupView, event: EventView, now: u64) -> DedupView {
    if passes(d, event, now) {
        DedupView { recent: still_recent(d.recent, d.window_ms, now).push((now, event)), ..d }
    } else {
        d
    }
}

/// A deduplicator after it has seen some events.
pub open spec fn seen_all(d: DedupView, list: Seq<EventView>, now: u64) -> DedupView
    decreases list.len(),
{
    if list.len() == 0 {
        d
    } else {
        seen(seen_all(d, list.drop_last(), now), list.last(), now)
    }
}

/// Those of some events that are let through.
pub open spec fn passing(d: DedupView, list: Seq<EventView>, now: u64) -> Seq<EventView>
    decreases list.len(),
{
    if list.len() == 0 {
        Seq::empty()
    } else {
        let rest = passing(d, list.drop_last(), now);
        if passes(seen_all(d, list.drop_last(), now), list.last(), now) {
            rest.push(list.last())
        } else {
            rest
        }
    }
}

fn time_between(now: u64, since: u64) -> (r: u64)
    ensures
        r == elapsed(now, since),
{
    if now >= since {
        now - since
    } else {
        0
    }
}

impl Deduplicator {
    /// A deduplicator that has seen nothing.
    pub fn new(window_ms: u64) -> (d: Deduplicator)
        ensures
            d@ == (DedupView { recent: Seq::empty(), window_ms }),
    {
        let d = Deduplicator { recent: Vec::new(), window_ms };
        assert(d@.recent =~= Seq::empty());
        d
    }

    /// Whether an event is let through: not if it was let through already, within
    /// the time for that.
    pub fn should_emit(&mut self, event: &WatchEvent, now: u64) -> (r: bool)
        ensures
            r == passes(old(self)@, event@, now),
            final(self)@ == seen(old(self)@, event@, now),
    {
        if self.was_let_through(event, now) {
            return false;
        }
        let mut kept = self.kept(now);
        let ghost before = kept@;
        kept.push((now, copy_event(event)));
        assert(timed(kept@) =~= timed(before).push((now, event@)));
        self.recent = kept;
        true
    }

    /// Whether an event was let through within the window.
    fn was_let_through(&self, event: &WatchEvent, now: u64) -> (r: bool)
        ensures
            r == !passes(self@, event@, now),
    {
        let mut i: usize = 0;
        while i < self.recent.len()
            invariant
                i <= self.recent@.len(),
                forall|k: int|
                    0 <= k < i ==> !((#[trigger] self@.recent[k]).1 == event@ && elapsed(
                        now,
                        self@.recent[k].0,
                    ) < self.window_ms),
            decreases self.recent@.len() - i,
        {
            assert(self@.recent[i as int] == (self.recent@[i as int].0, self.recent@[i as int].1@));
            if same_event(&self.recent[i].1, event) && time_between(now, self.recent[i].0)
                < self.window_ms {
                return true;
            }
            i += 1;
        }
        false
    }

    /// The events that can still be repeated.
    fn kept(&self, now: u64) -> (out: Vec<(u64, WatchEvent)>)
        ensures
            timed(out@) == still_recent(self@.recent, self@.window_ms, now),
    {
        let ghost all = self@.recent;
        let mut out: Vec<(u64, WatchEvent)> = Vec::new();
        let mut i: usize = 0;
        assert(all.take(0) =~= Seq::empty());
        assert(timed(out@) =~= Seq::empty());
        while i < self.recent.len()
            invariant
                i <= self.recent@.len(),
                all == timed(self.recent@),
                timed(out@) == still_recent(all.take(i as int), self.window_ms, now),
            decreases self.recent@.len() - i,
        {
            let ghost t = all.take(i + 1);
            let ghost before = out@;
            assert(t.drop_last() =~= all.take(i as int));
            assert(t.last() == (self.recent@[i as int].0, self.recent@[i as int].1@));
            if time_between(now, self.recent[i].0) < self.window_ms {
                out.push((self.recent[i].0, copy_event(&self.recent[i].1)));
                assert(timed(out@) =~= timed(before).push(t.last()));
            }
            i += 1;
        }
        assert(all.take(i as int) =~= all);
        out
    }

    /// Those of some events that are let through.
    fn let_through(&mut self, list: Vec<WatchEvent>, now: u64) -> (r: Vec<WatchEvent>)
        ensures
            events(r@) == passing(old(self)@, events(list@), now),
            final(self)@ == seen_all(old(self)@, events(list@), now),
    {
        let ghost d0 = self@;
        let ghost all = events(list@);
        let mut out: Vec<WatchEvent> = Vec::new();
        let mut i: usize = 0;
        assert(all.take(0) =~= Seq::empty());
        assert(events(out@) =~= Seq::empty());
        while i < list.len()
            invariant
                i <= list@.len(),
                all == events(list@),
                self@ == seen_all(d0, all.take(i as int), now),
                events(out@) == passing(d0, all.take(i as int), now),
            decreases list@.len() - i,
        {
            let ghost t = all.take(i + 1);
            let ghost before = out@;
            assert(t.drop_last() =~= all.take(i as int));
            assert(t.last() == list@[i as int]@);
            if self.should_emit(&list[i], now) {
                out.push(copy_event(&list[i]));
                assert(events(out@) =~= events(before).push(t.last()));
            }
            i += 1;
        }
        assert(all.take(i as int) =~= all);
        out
    }
}

// ---------------------------------------------------------------------------
// The directory
// ---------------------------------------------------------------------------
/// An entry of the directory.
#[derive(Clone, Debug, PartialEq, Eq)]
pub struct DirEntry {
    pub path: String,
    pub is_file: bool,
    /// When the file was last written, where that is known.
    pub modified: Option<u64>,
}

/// The contents of a directory entry.
pub struct DirEntryView {
    pub path: Seq<char>,
    pub is_file: bool,
    pub modified: Option<u64>,
}

impl View for DirEntry {
    type V = DirEntryView;

    open spec fn view(&self) -> DirEntryView {
        DirEntryView { path: self.path@, is_file: self.is_file, modified: self.modified }
    }
}

/// The contents of a directory.
pub open spec fn dir(v: Seq<DirEntry>) -> Seq<DirEntryView> {
    v.map_values(|e: DirEntry| e@)
}

/// What is remembered of a file.
#[derive(Clone, Debug, PartialEq, Eq)]
pub struct FileSnapshot {
    pub path: String,
    pub modified: Option<u64>,
    pub exists: bool,
}

/// The contents of what is remembered of a file.
pub struct SnapshotView {
    pub path: Seq<char>,
    pub modified: Option<u64>,
    pub exists: bool,
}

impl View for FileSnapshot {
    type V = SnapshotView;

    open spec fn view(&self) -> SnapshotView {
        SnapshotView { path: self.path@, modified: self.modified, exists: self.exists }
    }
}

/// The contents of what is remembered of files.
pub open spec fn snaps(v: Seq<FileSnapshot>) -> Seq<SnapshotView> {
    v.map_values(|s: FileSnapshot| s@)
}

/// The file name at the end of a path.
pub open spec fn file_name(path: Seq<char>) -> Seq<char> {
    let a = text::last_index(path, '\\');
    let b = text::last_index(path, '/');
    path.skip(if a >= b {
        a
    } else {
        b
    })
}

/// The extension of a file name: what follows its last full stop, unless the
/// name starts with that one.
pub open spec fn extension(name: Seq<char>) -> Option<Seq<char>> {
    let dot = text::last_index(name, '.');
    if dot <= 1 || name == ".."@ {
        None
    } else {
        Some(name.skip(dot))
    }
}

/// Whether a directory entry is a configuration file.
pub open spec fn is_config(e: DirEntryView, extensions: Seq<Seq<char>>) -> bool {
    e.is_file && (extension(file_name(e.path)) matches Some(x) && extensions.contains(
        text::unicode_lower(x),
    ))
}

/// The paths of the configuration files in a directory, in order.
pub open spec fn scan(d: Seq<DirEntryView>, extensions: Seq<Seq<char>>) -> Seq<Seq<char>>
    decreases d.len(),
{
    if d.len() == 0 {
        Seq::empty()
    } else {
        let rest = scan(d.drop_last(), extensions);
        if is_config(d.last(), extensions) {
            text::insert_sorted(rest, d.last().path)
        } else {
            rest
        }
    }
}

/// When the file at a path was last written.
pub open spec fn modified_in(d: Seq<DirEntryView>, path: Seq<char>) -> Option<u64>
    decreases d.len(),
{
    if d.len() == 0 {
        None
    } else if d[0].path == path {
        d[0].modified
    } else {
        modified_in(d.drop_first(), path)
    }
}

/// What is remembered of the configuration files in a directory.
pub open spec fn snapshot(d: Seq<DirEntryView>, extensions: Seq<Seq<char>>) -> Seq<SnapshotView> {
    scan(d, extensions).map_values(
        |p: Seq<char>| SnapshotView { path: p, modified: modified_in(d, p), exists: true },
    )
}

/// What is remembered of the file at a path.
pub open spec fn remembered(known: Seq<SnapshotView>, path: Seq<char>) -> Option<SnapshotView>
    decreases known.len(),
{
    if known.len() == 0 {
        None
    } else if known[0].path == path {
        Some(known[0])
    } else {
        remembered(known.drop_first(), path)
    }
}

/// Whether a file is new or was written since it was remembered.
pub open spec fn is_changed(known: Seq<SnapshotView>, path: Seq<char>, modified: Option<u64>) -> bool {
    match remembered(known, path) {
        Some(s) => s.modified != modified,
        None => true,
    }
}

/// The events for files that are new or were written.
pub open spec fn changed(
    known: Seq<SnapshotView>,
    d: Seq<DirEntryView>,
    paths: Seq<Seq<char>>,
) -> Seq<EventView>
    decreases paths.len(),
{
    if paths.len() == 0 {
        Seq::empty()
    } else {
        let rest = changed(known, d, paths.drop_last());
        if is_changed(known, paths.last(), modified_in(d, paths.last())) {
            rest.push(EventView::ConfigFileChanged(paths.last()))
        } else {
            rest
        }
    }
}

/// The events for files that are gone.
pub open spec fn deleted(known: Seq<SnapshotView>, paths: Seq<Seq<char>>) -> Seq<EventView>
    decreases known.len(),
{
    if known.len() == 0 {
        Seq::empty()
    } else {
        let rest = deleted(known.drop_last(), paths);
        if known.last().exists && !paths.contains(known.last().path) {
            rest.push(EventView::ConfigFileDeleted(known.last().path))
        } else {
            rest
        }
    }
}

/// What changed between what is remembered and what a directory holds.
pub open spec fn changes(
    known: Seq<SnapshotView>,
    d: Seq<DirEntryView>,
    extensions: Seq<Seq<char>>,
) -> Seq<EventView> {
    let paths = scan(d, extensions);
    changed(known, d, paths) + deleted(known, paths)
}

fn file_name_of(path: &str) -> (r: String)
    ensures
        r@ == file_name(path@),
{
    let v = to_chars(path);
    let a = last_position_of(v.as_slice(), '\\');
    let b = last_position_of(v.as_slice(), '/');
    let from: usize = if a >= b {
        a
    } else {
        b
    };
    let r = sub_string(v.as_slice(), from, v.len());
    assert(r@ =~= file_name(path@));
    r
}

fn extension_of(name: &str) -> (r: Option<String>)
    ensures
        extension(name@) == (match r {
            Some(s) => Some(s@),
            None => None,
        }),
{
    let v = to_chars(name);
    let dot = last_position_of(v.as_slice(), '.');
    if dot <= 1 || eq(name, "..") {
        return None;
    }
    let r = sub_string(v.as_slice(), dot, v.len());
    assert(r@ =~= name@.skip(dot as int));
    Some(r)
}

/// When the file at a path was last written.
fn get_modified_time(entries: &[DirEntry], path: &str) -> (r: Option<u64>)
    ensures
        r == modified_in(dir(entries@), path@),
{
    let ghost all = dir(entries@);
    let mut i: usize = 0;
    assert(all.skip(0) =~= all);
    while i < entries.len()
        invariant
            i <= entries@.len(),
            all == dir(entries@),
            modified_in(all, path@) == modified_in(all.skip(i as int), path@),
        decreases entries@.len() - i,
    {
        assert(all.skip(i as int)[0] == entries@[i as int]@);
        if eq(entries[i].path.as_str(), path) {
            return entries[i].modified;
        }
        assert(all.skip(i as int).drop_first() =~= all.skip(i + 1));
        i += 1;
    }
    None
}

/// Whether a file is new or was written since it was remembered.
fn file_changed(known: &[FileSnapshot], path: &str, modified: Option<u64>) -> (r: bool)
    ensures
        r == is_changed(snaps(known@), path@, modified),
{
    let ghost all = snaps(known@);
    let mut i: usize = 0;
    assert(all.skip(0) =~= all);
    while i < known.len()
        invariant
            i <= known@.len(),
            all == snaps(known@),
            remembered(all, path@) == remembered(all.skip(i as int), path@),
        decreases known@.len() - i,
    {
        assert(all.skip(i as int)[0] == known@[i as int]@);
        if eq(known[i].path.as_str(), path) {
            return known[i].modified != modified;
        }
        assert(all.skip(i as int).drop_first() =~= all.skip(i + 1));
        i += 1;
    }
    true
}

/// A watcher of the configuration directory.
#[derive(Clone, Debug, PartialEq, Eq)]
pub struct ConfigWatcher {
    pub watch_dir: String,
    /// The extensions of configuration files.
    pub extensions: Vec<String>,
    /// What is remembered of the configuration files.
    pub snapshots: Vec<FileSnapshot>,
    pub dedup: Deduplicator,
    /// The least time between two looks at the directory.
    pub poll_interval_ms: u64,
    /// When the directory was last looked at.
    pub last_poll: Option<u64>,
    /// The hash of the effect properties as last seen.
    pub registry_hash: u64,
}

/// The contents of a watcher.
pub struct WatcherView {
    pub watch_dir: Seq<char>,
    pub extensions: Seq<Seq<char>>,
    pub snapshots: Seq<SnapshotView>,
    pub dedup: DedupView,
    pub poll_interval_ms: u64,
    pub last_poll: Option<u64>,
    pub registry_hash: u64,
}

impl View for ConfigWatcher {
    type V = WatcherView;

    open spec fn view(&self) -> WatcherView {
        WatcherView {
            watch_dir: self.watch_dir@,
            extensions: text::texts(self.extensions@),
            snapshots: snaps(self.snapshots@),
            dedup: self.dedup@,
            poll_interval_ms: self.poll_interval_ms,
            last_poll: self.last_poll,
            registry_hash: self.registry_hash,
        }
    }
}

/// The extensions of configuration files.
pub open spec fn config_extensions() -> Seq<Seq<char>> {
    seq!["txt"@, "conf"@]
}

/// Whether it is time to look at the directory.
pub open spec fn is_due(w: WatcherView, now: u64) -> bool {
    match w.last_poll {
        Some(t) => elapsed(now, t) >= w.poll_interval_ms,
        None => true,
    }
}

/// A watcher after it has looked at the directory.
pub open spec fn polled(w: WatcherView, d: Seq<DirEntryView>, now: u64) -> WatcherView {
    WatcherView {
        snapshots: snapshot(d, w.extensions),
        dedup: seen_all(w.dedup, changes(w.snapshots, d, w.extensions), now),
        last_poll: Some(now),
        ..w
    }
}

impl ConfigWatcher {
    /// A watcher that remembers a directory as it is.
    pub fn new(
        watch_dir: String,
        poll_interval_ms: u64,
        dedup_window_ms: u64,
        entries: &[DirEntry],
    ) -> (w: ConfigWatcher)
        ensures
            w@ == (WatcherView {
                watch_dir: watch_dir@,
                extensions: config_extensions(),
                snapshots: snapshot(dir(entries@), config_extensions()),
                dedup: DedupView { recent: Seq::empty(), window_ms: dedup_window_ms },
                poll_interval_ms,
                last_poll: None,
                registry_hash: 0,
            }),
    {
        let mut extensions: Vec<String> = Vec::new();
        extensions.push("txt".to_owned());
        extensions.push("conf".to_owned());
        assert(text::texts(extensions@) =~= config_extensions());
        let mut watcher = ConfigWatcher {
            watch_dir,
            extensions,
            snapshots: Vec::new(),
            dedup: Deduplicator::new(dedup_window_ms),
            poll_interval_ms,
            last_poll: None,
            registry_hash: 0,
        };
        watcher.refresh_snapshots(entries);
        watcher
    }

    /// Whether it is time to look at the directory.
    pub fn should_poll(&self, now: u64) -> (r: bool)
        ensures
            r == is_due(self@, now),
    {
        match self.last_poll {
            Some(t) => time_between(now, t) >= self.poll_interval_ms,
            None => true,
        }
    }

    /// Looks at the directory, if it is time, and says what changed.
    pub fn poll(&mut self, entries: &[DirEntry], now: u64) -> (r: Vec<WatchEvent>)
        ensures
            if is_due(old(self)@, now) {
                &&& events(r@) == passing(
                    old(self)@.dedup,
                    changes(old(self)@.snapshots, dir(entries@), old(self)@.extensions),
                    now,
                )
                &&& final(self)@ == polled(old(self)@, dir(entries@), now)
            } else {
                r@.len() == 0 && final(self)@ == old(self)@
            },
    {
        if !self.should_poll(now) {
            return Vec::new();
        }
        self.last_poll = Some(now);
        let found = self.changes_since(entries);
        let r = self.dedup.let_through(found, now);
        self.refresh_snapshots(entries);
        r
    }

    /// What changed between what is remembered and what the directory holds.
    fn changes_since(&self, entries: &[DirEntry]) -> (out: Vec<WatchEvent>)
        ensures
            events(out@) == changes(self@.snapshots, dir(entries@), self@.extensions),
    {
        let files = self.scan_directory(entries);
        let ghost known = self@.snapshots;
        let ghost d = dir(entries@);
        let ghost paths = text::texts(files@);
        let mut out: Vec<WatchEvent> = Vec::new();
        let mut i: usize = 0;
        assert(paths.take(0) =~= Seq::empty());
        assert(events(out@) =~= Seq::empty());
        while i < files.len()
            invariant
                i <= files@.len(),
                known == snaps(self.snapshots@),
                d == dir(entries@),
                paths == text::texts(files@),
                events(out@) == changed(known, d, paths.take(i as int)),
            decreases files@.len() - i,
        {
            let ghost t = paths.take(i + 1);
            let ghost before = out@;
            assert(t.drop_last() =~= paths.take(i as int));
            assert(t.last() == files@[i as int]@);
            let modified = get_modified_time(entries, files[i].as_str());
            if file_changed(self.snapshots.as_slice(), files[i].as_str(), modified) {
                out.push(WatchEvent::ConfigFileChanged(files[i].clone()));
                assert(events(out@) =~= events(before).push(
                    EventView::ConfigFileChanged(t.last()),
                ));
            }
            i += 1;
        }
        assert(paths.take(i as int) =~= paths);
        let ghost first = events(out@);
        let mut k: usize = 0;
        assert(known.take(0) =~= Seq::empty());
        assert(events(out@) =~= first + deleted(known.take(0), paths));
        while k < self.snapshots.len()
            invariant
                k <= self.snapshots@.len(),
                known == snaps(self.snapshots@),
                paths == text::texts(files@),
                events(out@) == first + deleted(known.take(k as int), paths),
            decreases self.snapshots@.len() - k,
        {
            let ghost t = known.take(k + 1);
            let ghost before = out@;
            assert(t.drop_last() =~= known.take(k as int));
            assert(t.last() == self.snapshots@[k as int]@);
            let known_file = &self.snapshots[k];
            if known_file.exists && !holds_text(files.as_slice(), known_file.path.as_str()) {
                out.push(WatchEvent::ConfigFileDeleted(known_file.path.clone()));
                assert(events(out@) =~= events(before).push(
                    EventView::ConfigFileDeleted(t.last().path),
                ));
                assert(first + deleted(t.drop_last(), paths).push(
                    EventView::ConfigFileDeleted(t.last().path),
                ) =~= (first + deleted(t.drop_last(), paths)).push(
                    EventView::ConfigFileDeleted(t.last().path),
                ));
            }
            k += 1;
        }
        assert(known.take(k as int) =~= known);
        out
    }

    /// Says whether the effect properties changed, by a hash of them.
    pub fn poll_registry(&mut self, current_hash: u64, now: u64) -> (r: Option<WatchEvent>)
        ensures
            ({
                let different = current_hash != old(self)@.registry_hash;
                let event = EventView::RegistryChanged;
                &&& r is Some <==> different && passes(old(self)@.dedup, event, now)
                &&& r matches Some(e) ==> e@ == event
                &&& final(self)@ == (if different {
                    WatcherView {
                        registry_hash: current_hash,
                        dedup: seen(old(self)@.dedup, event, now),
                        ..old(self)@
                    }
                } else {
                    old(self)@
                })
            }),
    {
        if current_hash != self.registry_hash {
            self.registry_hash = current_hash;
            let event = WatchEvent::RegistryChanged;
            if self.dedup.should_emit(&event, now) {
                return Some(event);
            }
        }
        None
    }

    /// The paths of the configuration files in a directory, in order.
    fn scan_directory(&self, entries: &[DirEntry]) -> (files: Vec<String>)
        ensures
            text::texts(files@) == scan(dir(entries@), self@.extensions),
    {
        let ghost all = dir(entries@);
        let ghost exts = self@.extensions;
        let mut files: Vec<String> = Vec::new();
        let mut i: usize = 0;
        assert(all.take(0) =~= Seq::empty());
        assert(text::texts(files@) =~= Seq::empty());
        while i < entries.len()
            invariant
                i <= entries@.len(),
                all == dir(entries@),
                exts == text::texts(self.extensions@),
                text::texts(files@) == scan(all.take(i as int), exts),
            decreases entries@.len() - i,
        {
            let ghost t = all.take(i + 1);
            assert(t.drop_last() =~= all.take(i as int));
            assert(t.last() == entries@[i as int]@);
            let entry = &entries[i];
            if entry.is_file {
                let name = file_name_of(entry.path.as_str());
                match extension_of(name.as_str()) {
                    Some(ext) => {
                        let lower = to_lowercase(ext.as_str());
                        if holds_text(self.extensions.as_slice(), lower.as_str()) {
                            insert_text(&mut files, entry.path.clone());
                        }
                    },
                    None => {},
                }
            }
            i += 1;
        }
        assert(all.take(i as int) =~= all);
        files
    }

    /// Remembers a directory as it is.
    fn refresh_snapshots(&mut self, entries: &[DirEntry])
        ensures
            final(self)@ == (WatcherView {
                snapshots: snapshot(dir(entries@), old(self)@.extensions),
                ..old(self)@
            }),
    {
        let files = self.scan_directory(entries);
        let ghost d = dir(entries@);
        let ghost all = snapshot(d, self@.extensions);
        let mut out: Vec<FileSnapshot> = Vec::new();
        let mut i: usize = 0;
        while i < files.len()
            invariant
                i <= files@.len(),
                d == dir(entries@),
                text::texts(files@) == scan(d, self@.extensions),
                all == snapshot(d, self@.extensions),
                snaps(out@) == all.take(i as int),
                self@ == old(self)@,
            decreases files@.len() - i,
        {
            let ghost before = out@;
            assert(text::texts(files@)[i as int] == files@[i as int]@);
            let modified = get_modified_time(entries, files[i].as_str());
            out.push(FileSnapshot { path: files[i].clone(), modified, exists: true });
            assert(snaps(out@) =~= snaps(before).push(all[i as int]));
            assert(all.take(i + 1) =~= all.take(i as int).push(all[i as int]));
            i += 1;
        }
        assert(all.take(i as int) =~= all) by {
            assert(text::texts(files@).len() == files@.len());
        }
        self.snapshots = out;
    }
}

// ---------------------------------------------------------------------------
// Laws
// ---------------------------------------------------------------------------
/// A deduplicator after it has seen some events, each at its own time.
pub open spec fn seen_over_time(d: DedupView, calls: Seq<(u64, EventView)>) -> DedupView
    decreases calls.len(),
{
    if calls.len() == 0 {
        d
    } else {
        let before = seen_over_time(d, calls.drop_last());
        seen(before, calls.last().1, calls.last().0)
    }
}

proof fn lemma_still_recent(list: Seq<(u64, EventView)>, window_ms: u64, now: u64)
    ensures
        forall|x: (u64, EventView)| #[trigger]
            still_recent(list, window_ms, now).contains(x) <==> list.contains(x) && elapsed(
                now,
                x.0,
            ) < window_ms,
    decreases list.len(),
{
    let r = still_recent(list, window_ms, now);
    if list.len() > 0 {
        let front = list.drop_last();
        lemma_still_recent(front, window_ms, now);
        let rest = still_recent(front, window_ms, now);
        assert forall|x: (u64, EventView)| #[trigger]
            r.contains(x) <==> list.contains(x) && elapsed(now, x.0) < window_ms by {
            assert(rest.contains(x) <==> front.contains(x) && elapsed(now, x.0) < window_ms);
            assert(list =~= front.push(list.last()));
            if front.contains(x) {
                let k = choose|k: int| 0 <= k < front.len() && front[k] == x;
                assert(list[k] == x);
            }
            if list.contains(x) && x != list.last() {
                let k = choose|k: int| 0 <= k < list.len() && list[k] == x;
                assert(front[k] == x);
            }
            if list.last() == x {
                assert(list[list.len() - 1] == x);
            }
            if elapsed(now, list.last().0) < window_ms {
                assert(r =~= rest.push(list.last()));
                if rest.contains(x) {
                    let k = choose|k: int| 0 <= k < rest.len() && rest[k] == x;
                    assert(r[k] == x);
                }
                assert(r[rest.len() as int] == list.last());
                if r.contains(x) && x != list.last() {
                    let k = choose|k: int| 0 <= k < r.len() && r[k] == x;
                    assert(rest[k] == x);
                }
            }
        }
    }
}

proof fn lemma_stays_recent(
    d: DedupView,
    x: (u64, EventView),
    calls: Seq<(u64, EventView)>,
    now: u64,
)
    requires
        d.recent.contains(x),
        now - x.0 < d.window_ms,
        forall|i: int| 0 <= i < calls.len() ==> x.0 <= (#[trigger] calls[i]).0 <= now,
    ensures
        seen_over_time(d, calls).recent.contains(x),
        seen_over_time(d, calls).window_ms == d.window_ms,
    decreases calls.len(),
{
    if calls.len() > 0 {
        lemma_stays_recent(d, x, calls.drop_last(), now);
        let before = seen_over_time(d, calls.drop_last());
        let (t, event) = calls[calls.len() - 1];
        if passes(before, event, t) {
            lemma_still_recent(before.recent, before.window_ms, t);
            let kept = still_recent(before.recent, before.window_ms, t);
            assert(kept.contains(x));
            let k = choose|k: int| 0 <= k < kept.len() && kept[k] == x;
            assert(kept.push((t, event))[k] == x);
        }
    }
}

/// An event that was let through is dropped until the window has passed, whatever
/// other events come in between.
pub proof fn law_once_within_window(
    d: DedupView,
    event: EventView,
    t: u64,
    calls: Seq<(u64, EventView)>,
    now: u64,
)
    requires
        passes(d, event, t),
        t <= now,
        now - t < d.window_ms,
        forall|i: int| 0 <= i < calls.len() ==> t <= (#[trigger] calls[i]).0 <= now,
    ensures
        !passes(seen_over_time(seen(d, event, t), calls), event, now),
{
    let first = seen(d, event, t);
    assert(first.recent.last() == (t, event));
    assert(first.recent.contains((t, event)));
    lemma_stays_recent(first, (t, event), calls, now);
    let last = seen_over_time(first, calls);
    let k = choose|k: int| 0 <= k < last.recent.len() && last.recent[k] == (t, event);
    assert(last.recent[k].1 == event && elapsed(now, last.recent[k].0) < last.window_ms);
}

proof fn lemma_recent_were_seen(window_ms: u64, calls: Seq<(u64, EventView)>)
    ensures
        ({
            let d = seen_over_time(DedupView { recent: Seq::empty(), window_ms }, calls);
            &&& d.window_ms == window_ms
            &&& forall|x: (u64, EventView)| #[trigger]
                d.recent.contains(x) ==> exists|i: int|
                    0 <= i < calls.len() && #[trigger] calls[i] == x && passes(
                        seen_over_time(DedupView { recent: Seq::empty(), window_ms }, calls.take(i)),
                        x.1,
                        x.0,
                    )
        }),
    decreases calls.len(),
{
    let d0 = DedupView { recent: Seq::empty(), window_ms };
    if calls.len() > 0 {
        let front = calls.drop_last();
        lemma_recent_were_seen(window_ms, front);
        let before = seen_over_time(d0, front);
        let d = seen_over_time(d0, calls);
        let (t, event) = calls.last();
        lemma_still_recent(before.recent, window_ms, t);
        assert forall|x: (u64, EventView)| #[trigger] d.recent.contains(x) implies exists|i: int|
            0 <= i < calls.len() && #[trigger] calls[i] == x && passes(
                seen_over_time(d0, calls.take(i)),
                x.1,
                x.0,
            ) by {
            assert(calls.take(calls.len() - 1) =~= front);
            let k = choose|k: int| 0 <= k < d.recent.len() && d.recent[k] == x;
            let kept = still_recent(before.recent, window_ms, t);
            if passes(before, event, t) && k == kept.len() {
                assert(calls[calls.len() - 1] == x);
            } else {
                if passes(before, event, t) {
                    assert(kept[k] == x);
                    assert(kept.contains(x));
                }
                assert(before.recent.contains(x));
                let i = choose|i: int|
                    0 <= i < front.len() && #[trigger] front[i] == x && passes(
                        seen_over_time(d0, front.take(i)),
                        x.1,
                        x.0,
                    );
                assert(calls[i] == x);
                assert(calls.take(i) =~= front.take(i));
            }
        }
    }
}

/// An event is dropped only because it was let through within the window.
pub proof fn law_only_repetitions_are_dropped(
    window_ms: u64,
    calls: Seq<(u64, EventView)>,
    event: EventView,
    now: u64,
)
    requires
        !passes(
            seen_over_time(DedupView { recent: Seq::empty(), window_ms }, calls),
            event,
            now,
        ),
    ensures
        exists|i: int|
            0 <= i < calls.len() && (#[trigger] calls[i]).1 == event && elapsed(now, calls[i].0)
                < window_ms && passes(
                seen_over_time(DedupView { recent: Seq::empty(), window_ms }, calls.take(i)),
                event,
                calls[i].0,
            ),
{
    lemma_recent_were_seen(window_ms, calls);
    let d0 = DedupView { recent: Seq::empty(), window_ms };
    let d = seen_over_time(d0, calls);
    let k = choose|k: int|
        0 <= k < d.recent.len() && (#[trigger] d.recent[k]).1 == event && elapsed(
            now,
            d.recent[k].0,
        ) < d.window_ms;
    let x = d.recent[k];
    assert(d.recent.contains(x));
    let i = choose|i: int|
        0 <= i < calls.len() && #[trigger] calls[i] == x && passes(
            seen_over_time(d0, calls.take(i)),
            x.1,
            x.0,
        );
    assert(calls[i].1 == event);
}

/// Without a window nothing is dropped.
pub proof fn law_no_window_drops_nothing(d: DedupView, list: Seq<EventView>, now: u64)
    requires
        d.window_ms == 0,
    ensures
        passing(d, list, now) == list,
        seen_all(d, list, now).window_ms == 0,
    decreases list.len(),
{
    if list.len() > 0 {
        law_no_window_drops_nothing(d, list.drop_last(), now);
        assert(list.drop_last().push(list.last()) =~= list);
    } else {
        assert(passing(d, list, now) =~= list);
    }
}

/// A directory is scanned in strictly increasing order, and the scan holds
/// exactly the paths of its configuration files.
pub proof fn law_scan(d: Seq<DirEntryView>, extensions: Seq<Seq<char>>)
    ensures
        text::strictly_sorted(scan(d, extensions)),
        forall|p: Seq<char>| #[trigger]
            scan(d, extensions).contains(p) <==> exists|i: int|
                0 <= i < d.len() && (#[trigger] d[i]).path == p && is_config(d[i], extensions),
    decreases d.len(),
{
    let s = scan(d, extensions);
    if d.len() == 0 {
        assert forall|p: Seq<char>| !#[trigger] s.contains(p) by {}
    } else {
        let front = d.drop_last();
        law_scan(front, extensions);
        let rest = scan(front, extensions);
        text::lemma_insert_sorted(rest, d.last().path);
        assert forall|p: Seq<char>| #[trigger]
            s.contains(p) <==> exists|i: int|
                0 <= i < d.len() && (#[trigger] d[i]).path == p && is_config(d[i], extensions) by {
            assert(rest.contains(p) <==> exists|i: int|
                0 <= i < front.len() && (#[trigger] front[i]).path == p && is_config(
                    front[i],
                    extensions,
                ));
            if rest.contains(p) {
                let i = choose|i: int|
                    0 <= i < front.len() && (#[trigger] front[i]).path == p && is_config(
                        front[i],
                        extensions,
                    );
                assert(d[i] == front[i]);
            }
            if exists|i: int|
                0 <= i < d.len() && (#[trigger] d[i]).path == p && is_config(d[i], extensions) {
                let i = choose|i: int|
                    0 <= i < d.len() && (#[trigger] d[i]).path == p && is_config(d[i], extensions);
                if i < front.len() {
                    assert(front[i] == d[i]);
                }
            }
            if is_config(d.last(), extensions) && d.last().path == p {
                assert(d[d.len() - 1].path == p);
            }
        }
    }
}

/// What is remembered of a file that was just remembered.
proof fn lemma_remembered(
    paths: Seq<Seq<char>>,
    d: Seq<DirEntryView>,
    known: Seq<SnapshotView>,
    p: Seq<char>,
)
    requires
        known == paths.map_values(
            |q: Seq<char>| SnapshotView { path: q, modified: modified_in(d, q), exists: true },
        ),
        paths.contains(p),
    ensures
        remembered(known, p) matches Some(s) && s.modified == modified_in(d, p),
    decreases paths.len(),
{
    let k = choose|k: int| 0 <= k < paths.len() && paths[k] == p;
    if paths[0] != p {
        assert(paths.drop_first()[k - 1] == p);
        assert(known.drop_first() =~= paths.drop_first().map_values(
            |q: Seq<char>| SnapshotView { path: q, modified: modified_in(d, q), exists: true },
        ));
        lemma_remembered(paths.drop_first(), d, known.drop_first(), p);
    }
}

proof fn lemma_nothing_changed(
    known: Seq<SnapshotView>,
    d: Seq<DirEntryView>,
    paths: Seq<Seq<char>>,
)
    requires
        forall|i: int|
            0 <= i < paths.len() ==> !is_changed(
                known,
                #[trigger] paths[i],
                modified_in(d, paths[i]),
            ),
    ensures
        changed(known, d, paths) == Seq::<EventView>::empty(),
    decreases paths.len(),
{
    if paths.len() > 0 {
        assert(!is_changed(
            known,
            paths[paths.len() - 1],
            modified_in(d, paths[paths.len() - 1]),
        ));
        lemma_nothing_changed(known, d, paths.drop_last());
    }
}

proof fn lemma_nothing_deleted(known: Seq<SnapshotView>, paths: Seq<Seq<char>>)
    requires
        forall|i: int| 0 <= i < known.len() ==> paths.contains((#[trigger] known[i]).path),
    ensures
        deleted(known, paths) == Seq::<EventView>::empty(),
    decreases known.len(),
{
    if known.len() > 0 {
        assert(paths.contains(known[known.len() - 1].path));
        lemma_nothing_deleted(known.drop_last(), paths);
    }
}

/// A directory that is as it was remembered gives no event.
pub proof fn law_no_change_no_event(d: Seq<DirEntryView>, extensions: Seq<Seq<char>>)
    ensures
        changes(snapshot(d, extensions), d, extensions) == Seq::<EventView>::empty(),
{
    let paths = scan(d, extensions);
    let known = snapshot(d, extensions);
    assert forall|i: int| 0 <= i < paths.len() implies !is_changed(
        known,
        #[trigger] paths[i],
        modified_in(d, paths[i]),
    ) by {
        lemma_remembered(paths, d, known, paths[i]);
    }
    lemma_nothing_changed(known, d, paths);
    assert forall|i: int| 0 <= i < known.len() implies paths.contains(
        (#[trigger] known[i]).path,
    ) by {
        assert(known[i].path == paths[i]);
    }
    lemma_nothing_deleted(known, paths);
    assert(changes(known, d, extensions) =~= Seq::<EventView>::empty());
}

proof fn lemma_changed_events(
    known: Seq<SnapshotView>,
    d: Seq<DirEntryView>,
    paths: Seq<Seq<char>>,
    p: Seq<char>,
)
    ensures
        changed(known, d, paths).contains(EventView::ConfigFileChanged(p)) <==> paths.contains(p)
            && is_changed(known, p, modified_in(d, p)),
        !changed(known, d, paths).contains(EventView::ConfigFileDeleted(p)),
    decreases paths.len(),
{
    if paths.len() > 0 {
        let front = paths.drop_last();
        lemma_changed_events(known, d, front, p);
        let rest = changed(known, d, front);
        let all = changed(known, d, paths);
        let e = EventView::ConfigFileChanged(paths.last());
        let ev = EventView::ConfigFileChanged(p);
        let gone = EventView::ConfigFileDeleted(p);
        assert(paths.contains(p) <==> front.contains(p) || p == paths.last()) by {
            if front.contains(p) {
                let k = choose|k: int| 0 <= k < front.len() && front[k] == p;
                assert(paths[k] == p);
            }
            if paths.contains(p) {
                let k = choose|k: int| 0 <= k < paths.len() && paths[k] == p;
                if k < front.len() {
                    assert(front[k] == p);
                }
            }
            assert(paths[paths.len() - 1] == paths.last());
        }
        if all != rest {
            lemma_push_contains(rest, e, ev);
            lemma_push_contains(rest, e, gone);
        }
    }
}

proof fn lemma_push_contains(s: Seq<EventView>, x: EventView, y: EventView)
    ensures
        s.push(x).contains(y) <==> s.contains(y) || y == x,
{
    let t = s.push(x);
    if s.contains(y) {
        let k = choose|k: int| 0 <= k < s.len() && s[k] == y;
        assert(t[k] == y);
    }
    if y == x {
        assert(t[s.len() as int] == y);
    }
    if t.contains(y) {
        let k = choose|k: int| 0 <= k < t.len() && t[k] == y;
        if k < s.len() {
            assert(s[k] == y);
        }
    }
}

proof fn lemma_deleted_events(known: Seq<SnapshotView>, paths: Seq<Seq<char>>, p: Seq<char>)
    ensures
        deleted(known, paths).contains(EventView::ConfigFileDeleted(p)) <==> !paths.contains(p)
            && exists|i: int|
            0 <= i < known.len() && (#[trigger] known[i]).path == p && known[i].exists,
        !deleted(known, paths).contains(EventView::ConfigFileChanged(p)),
    decreases known.len(),
{
    if known.len() > 0 {
        let front = known.drop_last();
        lemma_deleted_events(front, paths, p);
        let rest = deleted(front, paths);
        let e = EventView::ConfigFileDeleted(known.last().path);
        let has = |k: Seq<SnapshotView>|
            exists|i: int| 0 <= i < k.len() && (#[trigger] k[i]).path == p && k[i].exists;
        assert(has(known) <==> has(front) || (known.last().path == p && known.last().exists)) by {
            if has(front) {
                let i = choose|i: int|
                    0 <= i < front.len() && (#[trigger] front[i]).path == p && front[i].exists;
                assert(known[i] == front[i]);
            }
            if has(known) {
                let i = choose|i: int|
                    0 <= i < known.len() && (#[trigger] known[i]).path == p && known[i].exists;
                if i < front.len() {
                    assert(front[i] == known[i]);
                }
            }
            assert(known[known.len() - 1] == known.last());
        }
        lemma_push_contains(rest, e, EventView::ConfigFileDeleted(p));
        lemma_push_contains(rest, e, EventView::ConfigFileChanged(p));
    }
}

/// Exactly the configuration files that are new or were written are reported as
/// changed, and exactly those that are gone as deleted.
pub proof fn law_changes_are_exact(
    known: Seq<SnapshotView>,
    d: Seq<DirEntryView>,
    extensions: Seq<Seq<char>>,
    p: Seq<char>,
)
    ensures
        changes(known, d, extensions).contains(EventView::ConfigFileChanged(p)) <==> scan(
            d,
            extensions,
        ).contains(p) && is_changed(known, p, modified_in(d, p)),
        changes(known, d, extensions).contains(EventView::ConfigFileDeleted(p)) <==> !scan(
            d,
            extensions,
        ).contains(p) && exists|i: int|
            0 <= i < known.len() && (#[trigger] known[i]).path == p && known[i].exists,
{
    let paths = scan(d, extensions);
    let a = changed(known, d, paths);
    let b = deleted(known, paths);
    lemma_changed_events(known, d, paths, p);
    lemma_deleted_events(known, paths, p);
    assert forall|y: EventView| #[trigger] (a + b).contains(y) <==> a.contains(y) || b.contains(
        y,
    ) by {
        if a.contains(y) {
            let k = choose|k: int| 0 <= k < a.len() && a[k] == y;
            assert((a + b)[k] == y);
        }
        if b.contains(y) {
            let k = choose|k: int| 0 <= k < b.len() && b[k] == y;
            assert((a + b)[a.len() + k] == y);
        }
        if (a + b).contains(y) {
            let k = choose|k: int| 0 <= k < (a + b).len() && (a + b)[k] == y;
            if k < a.len() {
                assert(a[k] == y);
            } else {
                assert(b[k - a.len()] == y);
            }
        }
    }
    assert((a + b).contains(EventView::ConfigFileChanged(p)) <==> a.contains(
        EventView::ConfigFileChanged(p),
    ));
    assert((a + b).contains(EventView::ConfigFileDeleted(p)) <==> b.contains(
        EventView::ConfigFileDeleted(p),
    ));
}

/// The extension of a file is what follows the last full stop of its name, whatever
/// directory it stands in.
pub proof fn law_file_extension(dir: Seq<char>, stem: Seq<char>, ext: Seq<char>)
    requires
        dir.len() > 0 ==> dir.last() == '\\' || dir.last() == '/',
        stem.len() > 0,
        forall|i: int| 0 <= i < stem.len() ==> (#[trigger] stem[i]) != '\\' && stem[i] != '/',
        forall|i: int|
            0 <= i < ext.len() ==> (#[trigger] ext[i]) != '\\' && ext[i] != '/' && ext[i] != '.',
        ext.len() > 0,
    ensures
        file_name(dir + (stem + seq!['.'] + ext)) == stem + seq!['.'] + ext,
        extension(stem + seq!['.'] + ext) == Some(ext),
{
    let name = stem + seq!['.'] + ext;
    let path = dir + name;
    let n = dir.len() as int;
    assert forall|j: int| n <= j < path.len() implies path[j] != '\\' && path[j] != '/' by {
        assert(path[j] == name[j - n]);
        let k = j - n;
        if k < stem.len() {
            assert(name[k] == stem[k]);
        } else if k > stem.len() {
            assert(name[k] == ext[k - stem.len() - 1]);
        }
    }
    if n > 0 {
        assert(path[n - 1] == dir.last());
    }
    lemma_last_at_most(path, '\\', n);
    lemma_last_at_most(path, '/', n);
    assert(path.skip(n) =~= name);
    let d = stem.len() as int + 1;
    assert(name[d - 1] == '.');
    assert forall|j: int| d <= j < name.len() implies name[j] != '.' by {
        assert(name[j] == ext[j - d]);
    }
    text::lemma_last_index(name, '.', d);
    reveal_strlit("..");
    assert(name.last() == ext.last());
    assert(ext.last() == ext[ext.len() - 1]);
    assert(name != ".."@) by {
        assert(name[name.len() - 1] != '.');
        if name == ".."@ {
            assert(name[1] == '.');
        }
    }
    assert(name.skip(d) =~= ext);
}

proof fn lemma_last_at_most(s: Seq<char>, c: char, n: int)
    requires
        0 <= n <= s.len(),
        forall|j: int| n <= j < s.len() ==> s[j] != c,
    ensures
        0 <= text::last_index(s, c) <= n,
        n > 0 && s[n - 1] == c ==> text::last_index(s, c) == n,
    decreases s.len(),
{
    if s.len() > n {
        let t = s.drop_last();
        assert(s[s.len() - 1] != c);
        assert forall|j: int| n <= j < t.len() implies t[j] != c by {
            assert(t[j] == s[j]);
        }
        lemma_last_at_most(t, c, n);
    } else if s.len() > 0 && s.last() != c {
        lemma_last_at_most(s.drop_last(), c, n - 1);
    }
}

} // verus!
