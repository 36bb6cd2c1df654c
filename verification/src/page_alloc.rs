use vstd::prelude::*;

verus! {

/// Size in bytes of one page of the default pool.
pub const DEFAULT_PAGE_SIZE: usize = 4096;

/// Number of pages of the default pool.
pub const DEFAULT_NUM_PAGES: usize = 1000000 * DEFAULT_PAGE_SIZE / 4;

/// A zeroed page buffer.
pub fn default_page_buffer<const PAGE_SIZE: usize>() -> (r: [u8; PAGE_SIZE])
    ensures
        forall|i: int| 0 <= i < PAGE_SIZE ==> r[i] == 0u8,
{
    [0u8; PAGE_SIZE]
}

/// Book-keeping entry of one page: whether it is handed out, and the index
/// of the buffer that backs it.
#[derive(Clone, Copy)]
pub struct Page {
    pub in_use: bool,
    pub buff: usize,
}

impl Default for Page {
    fn default() -> (r: Self)
        ensures
            !r.in_use,
            r.buff == usize::MAX,
    {
        Page { in_use: false, buff: usize::MAX }
    }
}

/// A free region as the manager records it: its first page and its size.
#[derive(Clone, Copy)]
pub struct NextFree {
    pub idx: usize,
    pub size: usize,
}

impl NextFree {
    pub fn new(idx: usize, size: usize) -> (r: Self)
        ensures
            r == (NextFree { idx, size }),
    {
        Self { idx, size }
    }
}

/// The first index `i >= start` with `!used[i]`, if there is one.
pub open spec fn first_unused(used: Seq<bool>, start: int) -> Option<int>
    decreases used.len() - start,
{
    if start < 0 || start >= used.len() {
        None
    } else if !used[start] {
        Some(start)
    } else {
        first_unused(used, start + 1)
    }
}

/// The number of consecutive used entries starting at `start`.
pub open spec fn used_run(used: Seq<bool>, start: int) -> nat
    decreases used.len() - start,
{
    if 0 <= start < used.len() && used[start] {
        1 + used_run(used, start + 1)
    } else {
        0
    }
}

/// The region `get_next_free` reports from `start`: it begins at the first
/// free page and its recorded size is the run of used pages there, which is
/// zero because that page is free.
pub open spec fn next_free_model(used: Seq<bool>, start: int) -> Option<NextFree> {
    match first_unused(used, start) {
        Some(i) => Some(NextFree { idx: i as usize, size: used_run(used, i) as usize }),
        None => None,
    }
}

/// The cached region that `find_memory` works from: the cache itself, or,
/// when it is empty, the region found by a search from page 0.
pub open spec fn refilled(used: Seq<bool>, cache: Option<NextFree>) -> Option<NextFree> {
    match cache {
        Some(f) => Some(f),
        None => next_free_model(used, 0),
    }
}

/// The inputs on which `find_memory` returns: it does not overflow
/// (`size -= num_pages`, `idx + num_pages`) and its search loop ends.
pub open spec fn find_memory_defined(used: Seq<bool>, cache: Option<NextFree>, num_pages: int) -> bool {
    match refilled(used, cache) {
        None => true,
        Some(f) => {
            &&& f.size >= num_pages
            &&& f.idx + num_pages <= usize::MAX
            &&& (f.size > num_pages && num_pages > 0) ==> first_unused(
                used,
                f.idx + num_pages,
            ) is None
        },
    }
}

/// What `find_memory` returns.
pub open spec fn find_memory_result(used: Seq<bool>, cache: Option<NextFree>, num_pages: int) -> Option<usize> {
    match refilled(used, cache) {
        None => None,
        Some(f) => if f.size == num_pages {
            Some(f.idx)
        } else {
            match first_unused(used, f.idx + num_pages) {
                Some(i) => Some(i as usize),
                None => None,
            }
        },
    }
}

/// The inputs on which `allocate` returns: those of `find_memory`, and a
/// found page no later than `num_pages`, itself no more than the pool, so
/// that the range `[found, num_pages)` that it marks is a range of pages.
pub open spec fn allocate_defined(used: Seq<bool>, cache: Option<NextFree>, num_pages: int) -> bool {
    &&& find_memory_defined(used, cache, num_pages)
    &&& find_memory_result(used, cache, num_pages) matches Some(m) ==> m <= num_pages <= used.len()
}

/// The pages in use after `allocate`.
pub open spec fn allocate_used(used: Seq<bool>, cache: Option<NextFree>, num_pages: int) -> Seq<bool> {
    match find_memory_result(used, cache, num_pages) {
        Some(m) => mark_range(used, m as int, num_pages),
        None => used,
    }
}

/// The cached region after `find_memory`.
pub open spec fn find_memory_cache(used: Seq<bool>, cache: Option<NextFree>, num_pages: int) -> Option<NextFree> {
    match refilled(used, cache) {
        None => cache,
        Some(f) => if f.size == num_pages {
            next_free_model(used, f.idx + num_pages)
        } else {
            Some(f)
        },
    }
}

/// `used` with the entries in `[begin, end)` set.
pub open spec fn mark_range(used: Seq<bool>, begin: int, end: int) -> Seq<bool> {
    Seq::new(used.len(), |i: int| if begin <= i < end { true } else { used[i] })
}

/// A page found by `first_unused` lies in range, at or after `start`, is
/// free, and is the first such page.
pub proof fn lemma_first_unused(used: Seq<bool>, start: int)
    requires
        0 <= start,
    ensures
        first_unused(used, start) matches Some(i) ==> {
            &&& start <= i < used.len()
            &&& !used[i]
            &&& first_unused(used, i) == Some(i)
            &&& forall|j: int| start <= j < i ==> used[j]
        },
        first_unused(used, start) is None ==> forall|j: int| start <= j < used.len() ==> used[j],
    decreases used.len() - start,
{
    if 0 <= start < used.len() && used[start] {
        lemma_first_unused(used, start + 1);
    }
}

proof fn lemma_used_run_zero_at_free(used: Seq<bool>, i: int)
    requires
        0 <= i < used.len(),
        !used[i],
    ensures
        used_run(used, i) == 0,
{
}

/// The kernel's global allocator. It allocates nothing yet.
pub struct MemoryAllocator {}

/// A page manager over `NUM_PAGES` buffers of `PAGE_SIZE` bytes.
pub struct PageManager<const PAGE_SIZE: usize, const NUM_PAGES: usize> {
    pages: [Page; NUM_PAGES],
    buff: [[u8; PAGE_SIZE]; NUM_PAGES],
    first_free: Option<NextFree>,
}

impl<const PAGE_SIZE: usize, const NUM_PAGES: usize> PageManager<PAGE_SIZE, NUM_PAGES> {
    /// Which pages are in use.
    pub closed spec fn used(&self) -> Seq<bool> {
        self.pages@.map_values(|p: Page| p.in_use)
    }

    /// The buffer index recorded for each page.
    pub closed spec fn slots(&self) -> Seq<usize> {
        self.pages@.map_values(|p: Page| p.buff)
    }

    /// The cached free region.
    pub closed spec fn cache(&self) -> Option<NextFree> {
        self.first_free
    }

    /// The bytes of each page buffer.
    pub closed spec fn buffers(&self) -> Seq<Seq<u8>> {
        self.buff@.map_values(|b: [u8; PAGE_SIZE]| b@)
    }

    pub proof fn lemma_lengths(&self)
        ensures
            self.used().len() == NUM_PAGES,
            self.slots().len() == NUM_PAGES,
            self.buffers().len() == NUM_PAGES,
    {
    }

    pub fn new() -> (r: Self)
        ensures
            r.used() == Seq::new(NUM_PAGES as nat, |i: int| false),
            r.slots() == Seq::new(NUM_PAGES as nat, |i: int| i as usize),
            r.cache() == Some(NextFree { idx: 0, size: NUM_PAGES }),
            r.buffers() == Seq::new(
                NUM_PAGES as nat,
                |i: int| Seq::new(PAGE_SIZE as nat, |j: int| 0u8),
            ),
    {
        let mut pages = [Page::default();NUM_PAGES];
        let mut i: usize = 0;
        while i < NUM_PAGES
            invariant
                i <= NUM_PAGES,
                forall|j: int| 0 <= j < i ==> pages[j] == (Page { in_use: false, buff: j as usize }),
                forall|j: int| i <= j < NUM_PAGES ==> !pages[j].in_use,
            decreases NUM_PAGES - i,
        {
            pages[i] = Page { in_use: false, buff: i };
            i = i + 1;
        }
        let zero_page = default_page_buffer::<PAGE_SIZE>();
        let buff = [zero_page;NUM_PAGES];
        let r = Self { pages, buff, first_free: Some(NextFree::new(0, NUM_PAGES)) };
        assert(r.used() =~= Seq::new(NUM_PAGES as nat, |i: int| false));
        assert(r.slots() =~= Seq::new(NUM_PAGES as nat, |i: int| i as usize));
        assert forall|k: int| 0 <= k < NUM_PAGES implies r.buffers()[k] =~= Seq::new(
            PAGE_SIZE as nat,
            |j: int| 0u8,
        ) by {
            assert(buff[k] == zero_page);
        }
        assert(r.buffers() =~= Seq::new(
            NUM_PAGES as nat,
            |i: int| Seq::new(PAGE_SIZE as nat, |j: int| 0u8),
        ));
        r
    }

    /// The first page at or after `search_start` that is not in use.
    pub fn get_next_free_idx(&self, search_start: usize) -> (r: Option<usize>)
        ensures
            r == (match first_unused(self.used(), search_start as int) {
                Some(i) => Some(i as usize),
                None => None::<usize>,
            }),
    {
        let mut i = search_start;
        while i < NUM_PAGES
            invariant
                search_start <= i,
                first_unused(self.used(), search_start as int) == first_unused(self.used(), i as int),
            decreases NUM_PAGES - i,
        {
            if !self.pages[i].in_use {
                return Some(i);
            }
            i = i + 1;
        }
        None
    }

    /// Counts the pages in use from `free` on, up to the first page that
    /// is not; the count ends there, so a page at or after `free` must be
    /// free (else the scan reads past the last page).
    pub fn get_size_of_free_region(&self, free: usize) -> (r: usize)
        requires
            first_unused(self.used(), free as int) is Some,
        ensures
            r == used_run(self.used(), free as int),
            free + r == first_unused(self.used(), free as int)->0,
    {
        let ghost used = self.used();
        let mut counter: usize = 0;
        let mut i = free;
        while self.pages[i].in_use && i < NUM_PAGES
            invariant
                free <= i,
                counter == i - free,
                first_unused(used, free as int) == first_unused(used, i as int),
                first_unused(used, i as int) is Some,
                used_run(used, free as int) == counter + used_run(used, i as int),
                used == self.used(),
            decreases NUM_PAGES - i,
        {
            i += 1;
            counter += 1;
        }
        return counter;
    }

    /// The free region that starts at the first free page at or after
    /// `search_start`.
    pub fn get_next_free(&self, search_start: usize) -> (r: Option<NextFree>)
        ensures
            r == next_free_model(self.used(), search_start as int),
    {
        let idx = self.get_next_free_idx(search_start)?;
        proof {
            lemma_first_unused(self.used(), search_start as int);
        }
        let size = self.get_size_of_free_region(idx);
        Some(NextFree::new(idx, size))
    }

    /// Marks the pages with index in `[begin, size)` as in use.
    pub fn mark_as_used(&mut self, begin: usize, size: usize)
        requires
            begin <= size <= NUM_PAGES,
        ensures
            final(self).used() == mark_range(old(self).used(), begin as int, size as int),
            final(self).slots() == old(self).slots(),
            final(self).cache() == old(self).cache(),
            final(self).buffers() == old(self).buffers(),
    {
        let mut i = begin;
        while i < size
            invariant
                begin <= i <= size <= NUM_PAGES,
                self.used() =~= mark_range(old(self).used(), begin as int, i as int),
                self.slots() =~= old(self).slots(),
                self.cache() == old(self).cache(),
                self.buffers() == old(self).buffers(),
            decreases size - i,
        {
            let mut p = self.pages[i];
            p.in_use = true;
            let ghost before = self.pages@;
            let ghost prev = self.used();
            self.pages[i] = p;
            assert(self.pages@ == before.update(i as int, p));
            assert forall|k: int| 0 <= k < NUM_PAGES implies #[trigger] self.used()[k] == (if k
                == i as int {
                true
            } else {
                prev[k]
            }) && self.slots()[k] == old(self).slots()[k] by {
                assert(self.used()[k] == self.pages@[k].in_use);
                assert(prev[k] == before[k].in_use);
                assert(self.slots()[k] == self.pages@[k].buff);
            }
            i = i + 1;
            assert(self.used() =~= mark_range(old(self).used(), begin as int, i as int));
        }
        assert(self.used() =~= mark_range(old(self).used(), begin as int, size as int));
    }

    /// Finds the first page of an allocation of `num_pages` pages, working
    /// from the cached free region (refilled by a search from page 0 when
    /// it is empty), and updates the cache.
    pub fn find_memory(&mut self, num_pages: usize) -> (r: Option<usize>)
        requires
            find_memory_defined(old(self).used(), old(self).cache(), num_pages as int),
        ensures
            r == find_memory_result(old(self).used(), old(self).cache(), num_pages as int),
            final(self).cache() == find_memory_cache(
                old(self).used(),
                old(self).cache(),
                num_pages as int,
            ),
            final(self).used() == old(self).used(),
            final(self).slots() == old(self).slots(),
            final(self).buffers() == old(self).buffers(),
    {
        let ghost used = self.used();
        proof {
            lemma_first_unused(used, 0);
        }
        if self.first_free.is_none() {
            match self.get_next_free(0) {
                None => return None,
                Some(next) => self.first_free = Some(next),
            }
        }
        if let Some(first_free) = self.first_free {
            if first_free.size < num_pages {
                let result = first_free.idx;
                self.first_free = Some(
                    NextFree { idx: first_free.idx + num_pages, size: first_free.size - num_pages },
                );
                return Some(result);
            } else if first_free.size == num_pages {
                let result = first_free.idx;
                let end_of_free = first_free.idx + num_pages;
                self.first_free = self.get_next_free(end_of_free);
                return Some(result);
            } else {
                let end_of_free = first_free.idx + num_pages;
                let mut region = self.get_next_free(end_of_free)?;
                proof {
                    lemma_first_unused(used, end_of_free as int);
                    lemma_used_run_zero_at_free(used, region.idx as int);
                }
                while region.size < num_pages
                    invariant
                        region.size == 0,
                        num_pages == 0,
                        next_free_model(used, end_of_free as int) == Some(region),
                    decreases num_pages,
                {
                    region = self.get_next_free(region.idx + region.size)?;
                }
                return Some(region.idx);
            }
        }
        return None;
    }

    /// Allocates `num_pages` pages: finds where they start, then marks the
    /// pages with index in `[start, num_pages)` as in use.
    ///
    /// The inputs it admits are few, since the steps it is made of behave
    /// as follows. The size recorded for a region found by a search is the
    /// number of pages in use from its first page, which is free, so it is
    /// always 0. When the cached region is smaller than `num_pages`, the
    /// size `size - num_pages` underflows. When it is larger and a free page
    /// follows the requested pages, the search for a large enough region
    /// never ends unless `num_pages` is 0. The pages marked are
    /// `[start, num_pages)`, which must be a range of pages. So a fresh pool
    /// of `NUM_PAGES` pages admits an allocation of all its pages, or of none,
    /// and, on a fresh pool of 4 pages, `allocate(2)` is not admitted; once
    /// the cache has been refilled by a search, no allocation of one page or
    /// more is admitted while a free page remains, and with no free page
    /// left every allocation returns `None`.
    pub fn allocate(&mut self, num_pages: usize) -> (r: Option<usize>)
        requires
            allocate_defined(old(self).used(), old(self).cache(), num_pages as int),
        ensures
            r == find_memory_result(old(self).used(), old(self).cache(), num_pages as int),
            final(self).used() == allocate_used(old(self).used(), old(self).cache(), num_pages as int),
            final(self).cache() == find_memory_cache(
                old(self).used(),
                old(self).cache(),
                num_pages as int,
            ),
            final(self).slots() == old(self).slots(),
            final(self).buffers() == old(self).buffers(),
            forall|k: int| 0 <= k < NUM_PAGES && old(self).used()[k] ==> final(self).used()[k],
            r matches Some(m) ==> forall|k: int| m <= k < num_pages ==> final(self).used()[k],
    {
        let mem = self.find_memory(num_pages)?;
        self.mark_as_used(mem, num_pages);
        return Some(mem);
    }

    /// Gives page `idx` back: it is no longer in use. It releases that one
    /// page and nothing else, and leaves the cached free region as it was.
    pub fn deallocate(&mut self, idx: usize)
        requires
            idx < NUM_PAGES,
        ensures
            final(self).used() == old(self).used().update(idx as int, false),
            final(self).slots() == old(self).slots(),
            final(self).cache() == old(self).cache(),
            final(self).buffers() == old(self).buffers(),
    {
        let mut p = self.pages[idx];
        p.in_use = false;
        let ghost before = self.pages@;
        self.pages[idx] = p;
        assert(self.pages@ == before.update(idx as int, p));
        assert(self.used() =~= old(self).used().update(idx as int, false));
        assert(self.slots() =~= old(self).slots());
    }
}

/// The pages of a fresh pool of `n` pages: none in use.
pub open spec fn fresh_used(n: nat) -> Seq<bool> {
    Seq::new(n, |i: int| false)
}

/// A fresh pool hands out all of its pages in one allocation: the
/// allocation starts at page 0, every page is in use after it, and the
/// cache is empty.
pub proof fn law_fresh_pool_allocates_whole_pool(n: usize)
    ensures
        allocate_defined(fresh_used(n as nat), Some(NextFree { idx: 0, size: n }), n as int),
        find_memory_result(fresh_used(n as nat), Some(NextFree { idx: 0, size: n }), n as int)
            == Some(0usize),
        allocate_used(fresh_used(n as nat), Some(NextFree { idx: 0, size: n }), n as int)
            == Seq::new(n as nat, |i: int| true),
        find_memory_cache(fresh_used(n as nat), Some(NextFree { idx: 0, size: n }), n as int)
            is None,
{
    let used = fresh_used(n as nat);
    lemma_first_unused(used, n as int);
    assert(allocate_used(used, Some(NextFree { idx: 0, size: n }), n as int) =~= Seq::new(
        n as nat,
        |i: int| true,
    ));
}

/// A pool whose pages are all in use and whose cache is empty refuses
/// every allocation and is left as it was.
pub proof fn law_full_pool_refuses(used: Seq<bool>, num_pages: usize)
    requires
        forall|i: int| 0 <= i < used.len() ==> used[i],
    ensures
        allocate_defined(used, None, num_pages as int),
        find_memory_result(used, None, num_pages as int) is None,
        allocate_used(used, None, num_pages as int) == used,
        find_memory_cache(used, None, num_pages as int) is None,
{
    lemma_first_unused(used, 0);
    if first_unused(used, 0) is Some {
        assert(!used[first_unused(used, 0)->0]);
    }
}

/// Allocating no pages, with an empty cache, from a pool whose first page
/// is free returns page 0, takes nothing, and caches page 0.
pub proof fn law_empty_allocation(used: Seq<bool>)
    requires
        used.len() > 0,
        !used[0],
    ensures
        allocate_defined(used, None, 0),
        find_memory_result(used, None, 0) == Some(0usize),
        allocate_used(used, None, 0) == used,
        find_memory_cache(used, None, 0) == Some(NextFree { idx: 0, size: 0 }),
{
    lemma_used_run_zero_at_free(used, 0);
    assert(mark_range(used, 0, 0) =~= used);
}

/// No page is handed out twice: after an allocation of one page or more
/// that succeeded, an allocation of one page or more from the state it left
/// either is not admitted or returns no pages, so in particular no range it
/// returns overlaps the first one.
pub proof fn law_no_page_handed_out_twice(
    used: Seq<bool>,
    cache: Option<NextFree>,
    n1: usize,
    n2: usize,
)
    requires
        allocate_defined(used, cache, n1 as int),
        n1 > 0,
        find_memory_result(used, cache, n1 as int) is Some,
        n2 > 0,
        allocate_defined(
            allocate_used(used, cache, n1 as int),
            find_memory_cache(used, cache, n1 as int),
            n2 as int,
        ),
    ensures
        find_memory_result(
            allocate_used(used, cache, n1 as int),
            find_memory_cache(used, cache, n1 as int),
            n2 as int,
        ) is None,
        ({
            let i1 = find_memory_result(used, cache, n1 as int)->0;
            find_memory_result(
                allocate_used(used, cache, n1 as int),
                find_memory_cache(used, cache, n1 as int),
                n2 as int,
            ) matches Some(i2) ==> i2 + n2 <= i1 || i1 + n1 <= i2
        }),
{
    let used2 = allocate_used(used, cache, n1 as int);
    let f = refilled(used, cache)->0;
    lemma_first_unused(used, 0);
    if cache is None {
        if first_unused(used, 0) is Some {
            lemma_used_run_zero_at_free(used, first_unused(used, 0)->0);
        }
    }
    assert(f.size == n1);
    let start = f.idx + n1;
    lemma_first_unused(used, start);
    if first_unused(used, start) is Some {
        lemma_used_run_zero_at_free(used, first_unused(used, start)->0);
    }
    lemma_first_unused(used2, 0);
    if first_unused(used2, 0) is Some {
        lemma_used_run_zero_at_free(used2, first_unused(used2, 0)->0);
    }
}

/// A spent cache: empty, or a region of recorded size 0, as every search
/// records.
pub open spec fn cache_spent(cache: Option<NextFree>) -> bool {
    match cache {
        Some(f) => f.size == 0,
        None => true,
    }
}

/// A search from any page records a region of size 0.
proof fn lemma_next_free_model_spent(used: Seq<bool>, start: int)
    requires
        0 <= start,
    ensures
        cache_spent(next_free_model(used, start)),
{
    lemma_first_unused(used, start);
    if first_unused(used, start) is Some {
        lemma_used_run_zero_at_free(used, first_unused(used, start)->0);
    }
}

/// An allocation of one page or more that succeeds leaves the cache spent.
pub proof fn law_allocation_spends_cache(used: Seq<bool>, cache: Option<NextFree>, n: usize)
    requires
        allocate_defined(used, cache, n as int),
        n > 0,
        find_memory_result(used, cache, n as int) is Some,
    ensures
        cache_spent(find_memory_cache(used, cache, n as int)),
{
    lemma_next_free_model_spent(used, 0);
    let f = refilled(used, cache)->0;
    lemma_next_free_model_spent(used, f.idx + n);
    lemma_first_unused(used, f.idx + n);
}

/// A spent cache stays spent through every admitted allocation (and so
/// through `find_memory`); `mark_as_used` and `deallocate` leave the cache
/// as it is.
pub proof fn law_spent_cache_stays_spent(used: Seq<bool>, cache: Option<NextFree>, n: usize)
    requires
        cache_spent(cache),
        allocate_defined(used, cache, n as int),
    ensures
        cache_spent(find_memory_cache(used, cache, n as int)),
{
    lemma_next_free_model_spent(used, 0);
    if refilled(used, cache) is Some {
        let f = refilled(used, cache)->0;
        lemma_next_free_model_spent(used, f.idx + n);
    }
}

/// With a spent cache, no admitted allocation of one page or more returns
/// pages.
pub proof fn law_spent_cache_refuses(used: Seq<bool>, cache: Option<NextFree>, n: usize)
    requires
        cache_spent(cache),
        allocate_defined(used, cache, n as int),
        n > 0,
    ensures
        find_memory_result(used, cache, n as int) is None,
{
    lemma_next_free_model_spent(used, 0);
}

/// Marking `[begin, end)` puts exactly the pages with index in that range in
/// use and leaves every other page as it was.
pub proof fn law_mark_range(used: Seq<bool>, begin: int, end: int)
    ensures
        mark_range(used, begin, end).len() == used.len(),
        forall|i: int| 0 <= i < used.len() && begin <= i < end ==> #[trigger] mark_range(used, begin, end)[i],
        forall|i: int|
            0 <= i < used.len() && !(begin <= i < end) ==> #[trigger] mark_range(used, begin, end)[i]
                == used[i],
{
}

/// The region a search reports starts at the first free page at or after
/// where it starts, and records size 0; with no free page there, there is
/// no region.
pub proof fn law_search_reports_first_free_page(used: Seq<bool>, start: int)
    requires
        0 <= start,
        used.len() <= usize::MAX,
    ensures
        next_free_model(used, start) matches Some(r) ==> {
            &&& start <= r.idx < used.len()
            &&& !used[r.idx as int]
            &&& r.size == 0
            &&& forall|j: int| start <= j < r.idx ==> used[j]
        },
        next_free_model(used, start) is None ==> forall|j: int| start <= j < used.len() ==> used[j],
{
    lemma_first_unused(used, start);
    if first_unused(used, start) is Some {
        lemma_used_run_zero_at_free(used, first_unused(used, start)->0);
    }
}

} // verus!
