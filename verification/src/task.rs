//! The sweep of the cache directory: which entries have outlived their time
//! to live, and which of the others must go to bring the directory back
//! under its size limit.

use vstd::prelude::*;
use crate::config::Cache;
use crate::sorting::{
    lemma_oldest_first_sorts, lemma_oldest_first_total, oldest_first, sort_oldest_first,
};
use crate::util::{extension_of, is_typepath, type_suffix};

verus! {

/// Nanoseconds in a second.
pub const NANOS_PER_SECOND: i128 = 1_000_000_000;

/// Seconds between the end of one sweep and the start of the next.
pub const SWEEP_INTERVAL_SECONDS: u64 = 10;

/// What the file system tells of one directory entry. Times are in
/// nanoseconds since the Unix epoch; a time the file system does not keep is
/// `None`.
#[derive(Clone, Copy, Debug, PartialEq, Eq, Structural)]
pub struct Metadata {
    pub is_file: bool,
    pub created: Option<i128>,
    pub modified: Option<i128>,
    pub len: u64,
}

/// One entry of a listing of the cache directory. `metadata` is `None` where
/// the metadata could not be read.
#[derive(Clone, Debug)]
pub struct DirEntry {
    pub name: String,
    pub metadata: Option<Metadata>,
}

/// A directory entry with its name as a sequence of characters.
pub struct DirEntryView {
    pub name: Seq<char>,
    pub metadata: Option<Metadata>,
}

impl View for DirEntry {
    type V = DirEntryView;

    open spec fn view(&self) -> DirEntryView {
        DirEntryView { name: self.name@, metadata: self.metadata }
    }
}

impl DeepView for DirEntry {
    type V = DirEntryView;

    open spec fn deep_view(&self) -> DirEntryView {
        self@
    }
}

/// A cached object as the sweep accounts for it.
#[derive(Clone, Debug)]
pub struct CacheFile {
    pub name: String,
    pub created: i128,
    pub size: u64,
}

/// A cached object with its name as a sequence of characters.
pub struct CacheFileView {
    pub name: Seq<char>,
    pub created: i128,
    pub size: u64,
}

impl View for CacheFile {
    type V = CacheFileView;

    open spec fn view(&self) -> CacheFileView {
        CacheFileView { name: self.name@, created: self.created, size: self.size }
    }
}

impl DeepView for CacheFile {
    type V = CacheFileView;

    open spec fn deep_view(&self) -> CacheFileView {
        self@
    }
}

/// The time an entry counts as created: its creation time, or its
/// modification time where the file system keeps no creation time.
pub open spec fn create_date_of(metadata: Metadata) -> Option<i128> {
    if metadata.created is Some {
        metadata.created
    } else {
        metadata.modified
    }
}

/// The time an entry counts as created.
pub fn create_date(metadata: &Metadata) -> (date: Option<i128>)
    ensures
        date == create_date_of(*metadata),
{
    match metadata.created {
        Some(t) => Some(t),
        None => metadata.modified,
    }
}

/// Whether an object created at `created` has outlived `ttl` seconds at
/// `now`.
pub open spec fn is_expired(created: i128, now: i128, ttl: u32) -> bool {
    now - created > ttl * NANOS_PER_SECOND
}

/// Whether an object created at `created` has outlived `ttl` seconds at
/// `now`.
pub fn expired(created: i128, now: i128, ttl: u32) -> (r: bool)
    ensures
        r == is_expired(created, now, ttl),
{
    let life: i128 = ttl as i128 * NANOS_PER_SECOND;
    match created.checked_add(life) {
        Some(deadline) => now > deadline,
        None => false,
    }
}

/// The cached object that a directory entry stands for, if it stands for
/// one: a regular file whose metadata and creation date could be read and
/// which is no record of a content type.
pub open spec fn cache_file_of(entry: DirEntryView) -> Option<CacheFileView> {
    match entry.metadata {
        Some(metadata) => if metadata.is_file && extension_of(entry.name) != Some(type_suffix()) {
            match create_date_of(metadata) {
                Some(created) => Some(
                    CacheFileView { name: entry.name, created, size: metadata.len },
                ),
                None => None,
            }
        } else {
            None
        },
        None => None,
    }
}

/// The cached object that a directory entry stands for, if any.
pub fn cache_file(entry: &DirEntry) -> (file: Option<CacheFile>)
    ensures
        file.deep_view() == cache_file_of(entry@),
{
    match &entry.metadata {
        Some(metadata) => {
            if !metadata.is_file {
                return None;
            }
            if is_typepath(entry.name.as_str()) {
                return None;
            }
            match create_date(metadata) {
                Some(created) => Some(
                    CacheFile { name: entry.name.clone(), created, size: metadata.len },
                ),
                None => None,
            }
        },
        None => None,
    }
}

/// Names of the objects among `entries` that have outlived `ttl` seconds at
/// `now`, in the order of the listing.
pub open spec fn expired_names(entries: Seq<DirEntryView>, now: i128, ttl: u32) -> Seq<Seq<char>> {
    entries.filter_map(
        |entry: DirEntryView|
            match cache_file_of(entry) {
                Some(file) => if is_expired(file.created, now, ttl) {
                    Some(file.name)
                } else {
                    None
                },
                None => None,
            },
    )
}

/// The objects among `entries` that have not outlived `ttl` seconds at
/// `now`, in the order of the listing.
pub open spec fn survivors(entries: Seq<DirEntryView>, now: i128, ttl: u32) -> Seq<CacheFileView> {
    entries.filter_map(
        |entry: DirEntryView|
            match cache_file_of(entry) {
                Some(file) => if is_expired(file.created, now, ttl) {
                    None
                } else {
                    Some(file)
                },
                None => None,
            },
    )
}

/// Sum of the sizes of `files`.
pub open spec fn total_size(files: Seq<CacheFileView>) -> int
    decreases files.len(),
{
    if files.len() == 0 {
        0
    } else {
        total_size(files.drop_last()) + files.last().size
    }
}

/// How many files must go from the front of `files` until the rest weighs
/// at most `max`: the least such number.
pub open spec fn eviction_count(files: Seq<CacheFileView>, max: u64) -> nat
    decreases files.len(),
{
    if files.len() == 0 || total_size(files) <= max {
        0
    } else {
        1 + eviction_count(files.drop_first(), max)
    }
}

/// The files that a sweep evicts from `files` for their size: the oldest
/// ones, as few as bring the total down to `max`.
pub open spec fn evicted_files(files: Seq<CacheFileView>, max: u64) -> Seq<CacheFileView> {
    let sorted = oldest_first(files);
    sorted.take(eviction_count(sorted, max) as int)
}

/// The files that stay after a sweep has evicted from `files`.
pub open spec fn kept_files(files: Seq<CacheFileView>, max: u64) -> Seq<CacheFileView> {
    let sorted = oldest_first(files);
    sorted.skip(eviction_count(sorted, max) as int)
}

/// The total of a sequence is the size of its first file plus the total of
/// the rest.
pub proof fn lemma_total_size_first(files: Seq<CacheFileView>)
    requires
        files.len() > 0,
    ensures
        total_size(files) == files.first().size + total_size(files.drop_first()),
    decreases files.len(),
{
    if files.len() == 1 {
        assert(files.drop_last() =~= files.drop_first());
        assert(total_size(files.drop_first()) == 0);
    } else {
        lemma_total_size_first(files.drop_last());
        assert(files.drop_last().drop_first() =~= files.drop_first().drop_last());
        assert(files.drop_first().last() == files.last());
        assert(files.drop_last().first() == files.first());
    }
}

/// A total is never negative, and no more than its files can weigh at
/// most.
pub proof fn lemma_total_size_bounds(files: Seq<CacheFileView>)
    ensures
        0 <= total_size(files) <= files.len() * u64::MAX,
    decreases files.len(),
{
    if files.len() > 0 {
        lemma_total_size_bounds(files.drop_last());
        assert((files.len() - 1) * u64::MAX + u64::MAX == files.len() * u64::MAX)
            by (nonlinear_arith);
    }
}

/// What the eviction leaves weighs at most `max`; evicting one file less
/// would leave more than `max`.
pub proof fn lemma_eviction_count(files: Seq<CacheFileView>, max: u64)
    ensures
        eviction_count(files, max) <= files.len(),
        total_size(files.skip(eviction_count(files, max) as int)) <= max,
        forall|k: int|
            0 <= k < eviction_count(files, max) ==> total_size(#[trigger] files.skip(k)) > max,
    decreases files.len(),
{
    assert(files.skip(0) =~= files);
    if files.len() == 0 || total_size(files) <= max {
    } else {
        let rest = files.drop_first();
        lemma_eviction_count(rest, max);
        let n = eviction_count(rest, max) as int;
        assert(rest.skip(n) =~= files.skip(n + 1));
        assert forall|k: int| 0 <= k < n + 1 implies total_size(#[trigger] files.skip(k))
            > max by {
            if k > 0 {
                assert(rest.skip(k - 1) =~= files.skip(k));
            }
        }
    }
}

/// After a sweep the objects that stay weigh at most the limit, whatever
/// the directory held: the sweep evicts the oldest objects, every evicted one
/// at least as old as every one that stays, and not one more than it
/// takes. Evicted and kept objects together are the objects that had not
/// outlived their time to live.
pub proof fn lemma_sweep_evicts_oldest_needed(
    entries: Seq<DirEntryView>,
    now: i128,
    ttl: u32,
    max: u64,
)
    ensures
        ({
            let alive = survivors(entries, now, ttl);
            let evicted = sweep_plan(entries, now, ttl, max).evicted;
            let kept = kept_files(alive, max);
            &&& total_size(kept) <= max
            &&& total_size(alive) <= max ==> evicted.len() == 0
            &&& (evicted + kept).to_multiset() == alive.to_multiset()
            &&& forall|i: int, j: int|
                0 <= i < evicted.len() && 0 <= j < kept.len() ==> evicted[i].created
                    <= kept[j].created
            &&& forall|k: int|
                0 <= k < evicted.len() ==> total_size(alive) - total_size(
                    #[trigger] evicted.take(k),
                ) > max
        }),
{
    let alive = survivors(entries, now, ttl);
    let sorted = oldest_first(alive);
    let count = eviction_count(sorted, max) as int;
    let evicted = sorted.take(count);
    let kept = sorted.skip(count);
    lemma_oldest_first_sorts(alive);
    lemma_oldest_first_total(alive);
    lemma_eviction_count(sorted, max);
    assert(evicted + kept =~= sorted);
    assert forall|k: int| 0 <= k < evicted.len() implies total_size(alive) - total_size(
        #[trigger] evicted.take(k),
    ) > max by {
        lemma_total_size_split(sorted, k);
        assert(evicted.take(k) =~= sorted.take(k));
    }
}

/// The total of a sequence is the total of a front part plus the total of
/// the rest.
pub proof fn lemma_total_size_split(files: Seq<CacheFileView>, at: int)
    requires
        0 <= at <= files.len(),
    ensures
        total_size(files) == total_size(files.take(at)) + total_size(files.skip(at)),
    decreases files.len() - at,
{
    if at == files.len() {
        assert(files.take(at) =~= files);
        assert(files.skip(at).len() == 0);
    } else {
        lemma_total_size_split(files, at + 1);
        lemma_total_size_first(files.skip(at));
        assert(files.skip(at).drop_first() =~= files.skip(at + 1));
        assert(files.take(at + 1).drop_last() =~= files.take(at));
    }
}

/// What a selection maps an element of a sequence to is among what it
/// selects from the sequence.
pub proof fn lemma_filter_map_keeps<A, B>(items: Seq<A>, select: spec_fn(A) -> Option<B>, i: int)
    requires
        0 <= i < items.len(),
        select(items[i]) is Some,
    ensures
        items.filter_map(select).contains(select(items[i])->0),
    decreases items.len(),
{
    let rest = items.drop_last();
    let found = select(items[i])->0;
    if i == items.len() - 1 {
        let out = rest.filter_map(select) + seq![found];
        assert(out[out.len() - 1] == found);
    } else {
        lemma_filter_map_keeps(rest, select, i);
        let at = choose|at: int|
            0 <= at < rest.filter_map(select).len() && rest.filter_map(select)[at] == found;
        assert(items.filter_map(select)[at] == found);
    }
}

/// A sweep removes every object that has outlived its time to live, and
/// counts none of them toward the size of the directory.
pub proof fn lemma_sweep_removes_expired(
    entries: Seq<DirEntryView>,
    now: i128,
    ttl: u32,
    max: u64,
    i: int,
)
    requires
        0 <= i < entries.len(),
        cache_file_of(entries[i]) is Some,
        is_expired(cache_file_of(entries[i])->0.created, now, ttl),
    ensures
        sweep_plan(entries, now, ttl, max).expired.contains(entries[i].name),
        forall|j: int|
            0 <= j < survivors(entries, now, ttl).len() ==> !is_expired(
                (#[trigger] survivors(entries, now, ttl)[j]).created,
                now,
                ttl,
            ),
{
    let select = |entry: DirEntryView|
        match cache_file_of(entry) {
            Some(file) => if is_expired(file.created, now, ttl) {
                Some(file.name)
            } else {
                None
            },
            None => None,
        };
    lemma_filter_map_keeps(entries, select, i);
    let alive = survivors(entries, now, ttl);
    assert forall|j: int| 0 <= j < alive.len() implies !is_expired(
        (#[trigger] alive[j]).created,
        now,
        ttl,
    ) by {
        let keep = |entry: DirEntryView|
            match cache_file_of(entry) {
                Some(file) => if is_expired(file.created, now, ttl) {
                    None
                } else {
                    Some(file)
                },
                None => None,
            };
        assert(alive.contains(alive[j]));
        entries.lemma_filter_map_contains(keep, alive[j]);
    }
}

/// What one sweep removes from the cache directory.
#[derive(Debug)]
pub struct SweepPlan {
    /// Names of the objects that have outlived their time to live.
    pub expired: Vec<String>,
    /// The objects that go for the size of the directory, oldest first.
    pub evicted: Vec<CacheFile>,
}

/// A sweep plan over sequences.
pub struct SweepPlanView {
    pub expired: Seq<Seq<char>>,
    pub evicted: Seq<CacheFileView>,
}

impl View for SweepPlan {
    type V = SweepPlanView;

    open spec fn view(&self) -> SweepPlanView {
        SweepPlanView { expired: self.expired.deep_view(), evicted: self.evicted.deep_view() }
    }
}

/// What a sweep at `now` removes from a directory that lists `entries`, under
/// a time to live of `ttl` seconds and a size limit of `max` bytes: every
/// object that has outlived `ttl`, and of the others the oldest, as few as
/// bring their total size down to `max`.
pub open spec fn sweep_plan(entries: Seq<DirEntryView>, now: i128, ttl: u32, max: u64)
    -> SweepPlanView {
    SweepPlanView {
        expired: expired_names(entries, now, ttl),
        evicted: evicted_files(survivors(entries, now, ttl), max),
    }
}

/// Evicting `count` files from the front leaves the count that the rest
/// still needs.
proof fn lemma_eviction_count_skip(files: Seq<CacheFileView>, max: u64, done: int)
    requires
        0 <= done <= files.len(),
        forall|j: int| 0 <= j < done ==> total_size(#[trigger] files.skip(j)) > max,
    ensures
        eviction_count(files, max) == done + eviction_count(files.skip(done), max),
    decreases done,
{
    if done == 0 {
        assert(files.skip(0) =~= files);
    } else {
        assert(files.skip(0) =~= files);
        let rest = files.drop_first();
        assert forall|j: int| 0 <= j < done - 1 implies total_size(#[trigger] rest.skip(j))
            > max by {
            assert(rest.skip(j) =~= files.skip(j + 1));
        }
        lemma_eviction_count_skip(rest, max, done - 1);
        assert(rest.skip(done - 1) =~= files.skip(done));
    }
}

/// Sorts the entries of a listing: the names of the objects that have
/// outlived `ttl` seconds at `now`, and the objects that have not.
pub fn scan(entries: &Vec<DirEntry>, now: i128, ttl: u32) -> (found: (Vec<String>, Vec<CacheFile>))
    ensures
        found.0.deep_view() == expired_names(entries.deep_view(), now, ttl),
        found.1.deep_view() == survivors(entries.deep_view(), now, ttl),
{
    let ghost listing = entries.deep_view();
    let mut expired_list: Vec<String> = Vec::new();
    let mut files: Vec<CacheFile> = Vec::new();
    let mut i: usize = 0;
    proof {
        assert(listing.take(0) =~= Seq::<DirEntryView>::empty());
        assert(expired_list.deep_view() =~= Seq::<Seq<char>>::empty());
        assert(files.deep_view() =~= Seq::<CacheFileView>::empty());
    }
    while i < entries.len()
        invariant
            i <= entries.len(),
            listing == entries.deep_view(),
            expired_list.deep_view() == expired_names(listing.take(i as int), now, ttl),
            files.deep_view() == survivors(listing.take(i as int), now, ttl),
        decreases entries.len() - i,
    {
        let ghost old_expired = expired_list.deep_view();
        let ghost old_files = files.deep_view();
        proof {
            listing.lemma_filter_map_take_succ(
                |entry: DirEntryView|
                    match cache_file_of(entry) {
                        Some(file) => if is_expired(file.created, now, ttl) {
                            Some(file.name)
                        } else {
                            None
                        },
                        None => None,
                    },
                i as int,
            );
            listing.lemma_filter_map_take_succ(
                |entry: DirEntryView|
                    match cache_file_of(entry) {
                        Some(file) => if is_expired(file.created, now, ttl) {
                            None
                        } else {
                            Some(file)
                        },
                        None => None,
                    },
                i as int,
            );
            assert(listing[i as int] == entries[i as int]@);
        }
        match cache_file(&entries[i]) {
            Some(file) => {
                if expired(file.created, now, ttl) {
                    let ghost name = file.name@;
                    expired_list.push(file.name);
                    assert(expired_list.deep_view() =~= old_expired + seq![name]);
                } else {
                    let ghost view = file@;
                    files.push(file);
                    assert(files.deep_view() =~= old_files + seq![view]);
                }
            },
            None => {},
        }
        i += 1;
    }
    assert(listing.take(i as int) =~= listing);
    (expired_list, files)
}

/// Adds up the sizes of `files`.
pub fn size_of(files: &Vec<CacheFile>) -> (total: u128)
    ensures
        total == total_size(files.deep_view()),
{
    let ghost all = files.deep_view();
    let mut total: u128 = 0;
    let mut i: usize = 0;
    assert(all.take(0) =~= Seq::<CacheFileView>::empty());
    while i < files.len()
        invariant
            i <= files.len(),
            all == files.deep_view(),
            total == total_size(all.take(i as int)),
            total <= i * u64::MAX,
        decreases files.len() - i,
    {
        proof {
            assert(all.take(i + 1).drop_last() =~= all.take(i as int));
            assert(all.take(i + 1).last() == files[i as int]@);
            assert(total + files[i as int].size <= (i + 1) * u64::MAX) by (nonlinear_arith)
                requires
                    total <= i * u64::MAX,
                    files[i as int].size <= u64::MAX,
            ;
        }
        total = total + files[i].size as u128;
        i += 1;
    }
    assert(all.take(i as int) =~= all);
    total
}

/// Picks from `files` what a sweep evicts for their size: the oldest
/// files, as few as bring the total size down to `max`.
pub fn evict(files: Vec<CacheFile>, max: u64) -> (evicted: Vec<CacheFile>)
    ensures
        evicted.deep_view() == evicted_files(files.deep_view(), max),
{
    let ghost alive = files.deep_view();
    let mut total: u128 = size_of(&files);
    proof {
        lemma_oldest_first_total(alive);
    }
    if total <= max as u128 {
        let evicted: Vec<CacheFile> = Vec::new();
        assert(evicted.deep_view() =~= evicted_files(alive, max));
        return evicted;
    }
    let mut sorted = sort_oldest_first(files);
    let ghost order = sorted.deep_view();
    let mut count: usize = 0;
    assert(order.skip(0) =~= order);
    while total > max as u128
        invariant
            order == sorted.deep_view(),
            count <= sorted.len(),
            total == total_size(order.skip(count as int)),
            forall|j: int| 0 <= j < count ==> total_size(#[trigger] order.skip(j)) > max,
        decreases sorted.len() - count,
    {
        proof {
            let rest = order.skip(count as int);
            if rest.len() > 0 {
                lemma_total_size_first(rest);
                assert(rest.first() == sorted[count as int]@);
                assert(rest.drop_first() =~= order.skip(count + 1));
                lemma_total_size_bounds(order.skip(count + 1));
            }
        }
        total = total - sorted[count].size as u128;
        count += 1;
    }
    proof {
        lemma_eviction_count_skip(order, max, count as int);
    }
    sorted.truncate(count);
    assert(sorted.deep_view() =~= order.take(count as int));
    sorted
}

/// Decides what a sweep at `now` removes from a directory that lists
/// `entries`.
pub fn plan_sweep(entries: &Vec<DirEntry>, now: i128, ttl: u32, max: u64) -> (plan: SweepPlan)
    ensures
        plan@ == sweep_plan(entries.deep_view(), now, ttl, max),
{
    let (expired, alive) = scan(entries, now, ttl);
    SweepPlan { expired, evicted: evict(alive, max) }
}

/// What a listing of the cache directory came to.
#[derive(Debug)]
pub enum Listing {
    /// The entries of the directory.
    Entries(Vec<DirEntry>),
    /// There is no such directory.
    NotFound,
    /// The directory could not be read for another reason.
    Failed,
}

/// A listing over sequences.
pub enum ListingView {
    Entries(Seq<DirEntryView>),
    NotFound,
    Failed,
}

impl View for Listing {
    type V = ListingView;

    open spec fn view(&self) -> ListingView {
        match self {
            Listing::Entries(entries) => ListingView::Entries(entries.deep_view()),
            Listing::NotFound => ListingView::NotFound,
            Listing::Failed => ListingView::Failed,
        }
    }
}

/// Where the background task stands between two steps.
#[derive(Debug, Clone, Copy, PartialEq, Eq, Structural)]
pub enum TaskState {
    /// A listing of the cache directory has been asked for.
    Listing,
    /// The task waits for the next tick or for its cancellation.
    Waiting,
    /// The task has ended.
    Stopped,
}

/// What happened since the last step of the background task.
#[derive(Debug)]
pub enum TaskEvent {
    /// The directory was listed at the time `now`, in nanoseconds since the
    /// Unix epoch.
    Listed { listing: Listing, now: i128 },
    /// The interval between two sweeps has passed.
    Tick,
    /// The task was asked to end.
    Cancelled,
}

/// An event over sequences.
pub enum TaskEventView {
    Listed { listing: ListingView, now: i128 },
    Tick,
    Cancelled,
}

impl View for TaskEvent {
    type V = TaskEventView;

    open spec fn view(&self) -> TaskEventView {
        match self {
            TaskEvent::Listed { listing, now } => TaskEventView::Listed {
                listing: listing@,
                now: *now,
            },
            TaskEvent::Tick => TaskEventView::Tick,
            TaskEvent::Cancelled => TaskEventView::Cancelled,
        }
    }
}

/// What the program that runs the background task does next.
#[derive(Debug)]
pub enum TaskAction {
    /// List the cache directory, read the clock, and report `Listed`.
    List,
    /// Create the cache directory where `create_dir` is set, and remove the
    /// object and the content-type record of every name in `plan`, going on
    /// where one of these fails. Then wait `wait_seconds` or until the task
    /// is cancelled, whichever comes first, and report `Tick` or `Cancelled`.
    Clean { create_dir: bool, plan: SweepPlan, wait_seconds: u64 },
    /// End the task.
    Stop,
}

/// An action over sequences.
pub enum TaskActionView {
    List,
    Clean { create_dir: bool, plan: SweepPlanView, wait_seconds: u64 },
    Stop,
}

impl View for TaskAction {
    type V = TaskActionView;

    open spec fn view(&self) -> TaskActionView {
        match self {
            TaskAction::List => TaskActionView::List,
            TaskAction::Clean { create_dir, plan, wait_seconds } => TaskActionView::Clean {
                create_dir: *create_dir,
                plan: plan@,
                wait_seconds: *wait_seconds,
            },
            TaskAction::Stop => TaskActionView::Stop,
        }
    }
}

/// A plan that removes nothing.
pub open spec fn empty_plan() -> SweepPlanView {
    SweepPlanView { expired: Seq::empty(), evicted: Seq::empty() }
}

/// What follows a listing: a sweep of the entries; the creation of a
/// directory that was not found; nothing after another failure. A missing
/// directory is not swept as if it were empty.
pub open spec fn after_listing(listing: ListingView, now: i128, ttl: u32, max: u64)
    -> TaskActionView {
    match listing {
        ListingView::Entries(entries) => TaskActionView::Clean {
            create_dir: false,
            plan: sweep_plan(entries, now, ttl, max),
            wait_seconds: SWEEP_INTERVAL_SECONDS,
        },
        ListingView::NotFound => TaskActionView::Clean {
            create_dir: true,
            plan: empty_plan(),
            wait_seconds: SWEEP_INTERVAL_SECONDS,
        },
        ListingView::Failed => TaskActionView::Clean {
            create_dir: false,
            plan: empty_plan(),
            wait_seconds: SWEEP_INTERVAL_SECONDS,
        },
    }
}

/// One step of the background task: the state and the action that follow
/// `event` in `state`. `None` where `event` cannot happen in `state`.
pub open spec fn task_step(state: TaskState, event: TaskEventView, ttl: u32, max: u64) -> Option<
    (TaskState, TaskActionView),
> {
    match (state, event) {
        (TaskState::Listing, TaskEventView::Listed { listing, now }) => Some(
            (TaskState::Waiting, after_listing(listing, now, ttl, max)),
        ),
        (TaskState::Waiting, TaskEventView::Tick) => Some(
            (TaskState::Listing, TaskActionView::List),
        ),
        (TaskState::Waiting, TaskEventView::Cancelled) => Some(
            (TaskState::Stopped, TaskActionView::Stop),
        ),
        _ => None,
    }
}

/// The background task takes turns: a listing is followed by a wait, a
/// tick by the next listing. Once it is cancelled while it waits it ends,
/// and nothing follows.
pub proof fn lemma_task_ends_when_cancelled(event: TaskEventView, ttl: u32, max: u64)
    ensures
        task_step(TaskState::Waiting, TaskEventView::Cancelled, ttl, max) == Some(
            (TaskState::Stopped, TaskActionView::Stop),
        ),
        task_step(TaskState::Stopped, event, ttl, max) is None,
        task_step(TaskState::Listing, event, ttl, max) matches Some((next, action)) ==> next
            == TaskState::Waiting && action is Clean,
        task_step(TaskState::Waiting, event, ttl, max) matches Some((next, action)) ==> (next
            == TaskState::Listing && action is List) || (next == TaskState::Stopped && action
            is Stop),
{
}

/// How the background task begins: by listing the cache directory.
pub fn init_background_task() -> (start: (TaskState, TaskAction))
    ensures
        start.0 == TaskState::Listing,
        start.1@ == TaskActionView::List,
{
    (TaskState::Listing, TaskAction::List)
}

/// A plan that removes nothing.
fn no_removals() -> (plan: SweepPlan)
    ensures
        plan@ == empty_plan(),
{
    let plan = SweepPlan { expired: Vec::new(), evicted: Vec::new() };
    assert(plan.expired.deep_view() =~= Seq::<Seq<char>>::empty());
    assert(plan.evicted.deep_view() =~= Seq::<CacheFileView>::empty());
    plan
}

/// One step of the background task under the settings `cache`: takes what
/// happened and says what to do next. A sweep follows every listing; after
/// each sweep the task waits for the next tick, and ends when it is
/// cancelled while it waits.
pub fn background_task(cache: &Cache, state: TaskState, event: TaskEvent) -> (next: Option<
    (TaskState, TaskAction),
>)
    ensures
        match next {
            Some((s, a)) => task_step(state, event@, cache.expiry, cache.max) == Some((s, a@)),
            None => task_step(state, event@, cache.expiry, cache.max) is None,
        },
{
    match state {
        TaskState::Listing => match event {
            TaskEvent::Listed { listing, now } => {
                let action = match listing {
                    Listing::Entries(entries) => TaskAction::Clean {
                        create_dir: false,
                        plan: plan_sweep(&entries, now, cache.expiry, cache.max),
                        wait_seconds: SWEEP_INTERVAL_SECONDS,
                    },
                    Listing::NotFound => TaskAction::Clean {
                        create_dir: true,
                        plan: no_removals(),
                        wait_seconds: SWEEP_INTERVAL_SECONDS,
                    },
                    Listing::Failed => TaskAction::Clean {
                        create_dir: false,
                        plan: no_removals(),
                        wait_seconds: SWEEP_INTERVAL_SECONDS,
                    },
                };
                Some((TaskState::Waiting, action))
            },
            _ => None,
        },
        TaskState::Waiting => match event {
            TaskEvent::Tick => Some((TaskState::Listing, TaskAction::List)),
            TaskEvent::Cancelled => Some((TaskState::Stopped, TaskAction::Stop)),
            _ => None,
        },
        TaskState::Stopped => None,
    }
}

} // verus!
