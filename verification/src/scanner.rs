//! Directory entries, the total of a scan, and the cache of directory sizes.
use vstd::prelude::*;
use vstd::hash_map::StringHashMap;
use std::path::PathBuf;
use crate::app::SortMode;
use crate::sort::{sort_entries, stably_sorted};

verus! {

/// One entry of a scanned directory.
#[derive(Debug)]
pub struct FileEntry {
    pub name: String,
    pub path: PathBuf,
    pub size: u64,
    pub is_dir: bool,
}

/// What one entry of a directory adds to the directory's size.
#[derive(PartialEq, Eq, Clone, Copy, Debug, Structural)]
pub enum ChildSize {
    /// A regular file, with its length.
    File(u64),
    /// A subdirectory, with its measured size.
    Dir(u64),
    /// Anything else (a symbolic link, a device), or an entry whose metadata could
    /// not be read: it adds nothing.
    Skipped,
}

/// The bytes an entry adds: files and subdirectories their size, others nothing.
pub open spec fn child_bytes(c: ChildSize) -> nat {
    match c {
        ChildSize::File(n) => n as nat,
        ChildSize::Dir(n) => n as nat,
        ChildSize::Skipped => 0,
    }
}

/// The sum of what a sequence of entries adds.
pub open spec fn sum_sizes(s: Seq<ChildSize>) -> nat
    decreases s.len(),
{
    if s.len() == 0 {
        0
    } else {
        sum_sizes(s.drop_last()) + child_bytes(s.last())
    }
}

/// The size of a directory from its entries: the sum of its files' lengths and its
/// subdirectories' sizes, or `None` where that does not fit in a `u64`.
pub fn dir_total(children: &Vec<ChildSize>) -> (total: Option<u64>)
    ensures
        total == (if sum_sizes(children@) <= u64::MAX {
            Some(sum_sizes(children@) as u64)
        } else {
            None::<u64>
        }),
{
    let mut acc: u64 = 0;
    let mut i: usize = 0;
    while i < children.len()
        invariant
            i <= children.len(),
            acc == sum_sizes(children@.take(i as int)),
        decreases children.len() - i,
    {
        assert(children@.take(i + 1).drop_last() == children@.take(i as int));
        let add: u64 = match children[i] {
            ChildSize::File(n) => n,
            ChildSize::Dir(n) => n,
            ChildSize::Skipped => 0,
        };
        if add > u64::MAX - acc {
            proof {
                lemma_sum_prefix_le(children@, i + 1);
            }
            return None;
        }
        acc = acc + add;
        i = i + 1;
    }
    assert(children@.take(i as int) == children@);
    Some(acc)
}

/// The sum of the sizes of a sequence of entries.
pub open spec fn entries_total(s: Seq<FileEntry>) -> nat
    decreases s.len(),
{
    if s.len() == 0 {
        0
    } else {
        entries_total(s.drop_last()) + s.last().size as nat
    }
}

proof fn lemma_sum_prefix_le(s: Seq<ChildSize>, k: int)
    requires
        0 <= k <= s.len(),
    ensures
        sum_sizes(s.take(k)) <= sum_sizes(s),
    decreases s.len(),
{
    if k < s.len() {
        assert(s.drop_last().take(k) == s.take(k));
        lemma_sum_prefix_le(s.drop_last(), k);
    } else {
        assert(s.take(k) == s);
    }
}

proof fn lemma_entries_total_prefix_le(s: Seq<FileEntry>, k: int)
    requires
        0 <= k <= s.len(),
    ensures
        entries_total(s.take(k)) <= entries_total(s),
    decreases s.len(),
{
    if k < s.len() {
        assert(s.drop_last().take(k) == s.take(k));
        lemma_entries_total_prefix_le(s.drop_last(), k);
    } else {
        assert(s.take(k) == s);
    }
}

/// Finishes a directory scan: the entries ordered by size, largest first (ties keep
/// the order in which they were read), and the sum of their sizes; `None` where the
/// sum does not fit in a `u64`.
pub fn finish_scan(entries: Vec<FileEntry>) -> (result: Option<(Vec<FileEntry>, u64)>)
    ensures
        match result {
            Some((sorted, total)) => {
                &&& entries_total(entries@) <= u64::MAX
                &&& total == entries_total(entries@)
                &&& stably_sorted(SortMode::Size, entries@, sorted@)
            },
            None => entries_total(entries@) > u64::MAX,
        },
{
    let mut total: u64 = 0;
    let mut i: usize = 0;
    while i < entries.len()
        invariant
            i <= entries.len(),
            total == entries_total(entries@.take(i as int)),
        decreases entries.len() - i,
    {
        assert(entries@.take(i + 1).drop_last() == entries@.take(i as int));
        if entries[i].size > u64::MAX - total {
            proof {
                lemma_entries_total_prefix_le(entries@, i + 1);
            }
            return None;
        }
        total = total + entries[i].size;
        i = i + 1;
    }
    assert(entries@.take(i as int) == entries@);
    let mut sorted = entries;
    sort_entries(&mut sorted, SortMode::Size);
    Some((sorted, total))
}

/// What a cache with these contents answers for a path.
pub open spec fn lookup(sizes: Map<Seq<char>, u64>, path: Seq<char>) -> Option<u64> {
    if sizes.contains_key(path) {
        Some(sizes[path])
    } else {
        None
    }
}

/// Sizes of directories already measured, keyed by path.
pub struct SizeCache {
    sizes: StringHashMap<u64>,
}

impl View for SizeCache {
    type V = Map<Seq<char>, u64>;

    closed spec fn view(&self) -> Map<Seq<char>, u64> {
        self.sizes@
    }
}

impl SizeCache {
    /// An empty cache.
    pub fn new() -> (cache: Self)
        ensures
            cache@ == Map::<Seq<char>, u64>::empty(),
    {
        SizeCache { sizes: StringHashMap::new() }
    }

    /// The size recorded for a path, if any.
    pub fn cached(&self, path: &str) -> (size: Option<u64>)
        ensures
            size == lookup(self@, path@),
    {
        match self.sizes.get(path) {
            Some(v) => Some(*v),
            None => None,
        }
    }

    /// Records the size measured for a path.
    pub fn record(&mut self, path: String, size: u64)
        ensures
            final(self)@ == old(self)@.insert(path@, size),
    {
        self.sizes.insert(path, size);
    }

    /// Settles the size of a directory measured afresh from its entries: the sum of
    /// what they add, recorded for its path; `None`, with nothing recorded, where
    /// the sum does not fit in a `u64`.
    pub fn settle(&mut self, path: String, children: &Vec<ChildSize>) -> (total: Option<u64>)
        ensures
            total == (if sum_sizes(children@) <= u64::MAX {
                Some(sum_sizes(children@) as u64)
            } else {
                None::<u64>
            }),
            final(self)@ == match total {
                Some(t) => old(self)@.insert(path@, t),
                None => old(self)@,
            },
    {
        let total = dir_total(children);
        if let Some(t) = total {
            self.record(path, t);
        }
        total
    }

    /// Forgets the size recorded for a path, once its contents changed.
    pub fn invalidate(&mut self, path: &str)
        ensures
            final(self)@ == old(self)@.remove(path@),
    {
        self.sizes.remove(path);
    }
}

/// Forgets every recorded size.
pub fn clear_cache(cache: &mut SizeCache)
    ensures
        final(cache)@ == Map::<Seq<char>, u64>::empty(),
{
    cache.sizes.clear();
}

}
