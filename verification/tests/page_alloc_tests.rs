use ef_os::page_alloc::{default_page_buffer, NextFree, Page, PageManager, MemoryAllocator, DEFAULT_NUM_PAGES, DEFAULT_PAGE_SIZE};
use ef_os::tty::Tty;

#[test]
fn default_sizes() {
    assert_eq!(DEFAULT_PAGE_SIZE, 4096);
    assert_eq!(DEFAULT_NUM_PAGES, 1_024_000_000);
}

#[test]
fn default_page_buffer_is_zeroed() {
    let b = default_page_buffer::<16>();
    assert_eq!(b, [0u8; 16]);
}

#[test]
fn default_page_is_free_without_buffer() {
    let p = Page::default();
    assert!(!p.in_use);
    assert_eq!(p.buff, usize::MAX);
}

#[test]
fn next_free_new_keeps_fields() {
    let n = NextFree::new(3, 9);
    assert_eq!(n.idx, 3);
    assert_eq!(n.size, 9);
}

#[test]
fn memory_allocator_exists() {
    let _a = MemoryAllocator {};
}

#[test]
fn fresh_manager_has_every_page_free() {
    let pm = PageManager::<16, 4>::new();
    assert_eq!(pm.get_next_free_idx(0), Some(0));
    assert_eq!(pm.get_next_free_idx(3), Some(3));
    assert_eq!(pm.get_next_free_idx(4), None);
    assert_eq!(pm.get_next_free_idx(100), None);
    let r = pm.get_next_free(2).unwrap();
    assert_eq!((r.idx, r.size), (2, 0));
}

#[test]
fn allocating_the_whole_pool_starts_at_page_zero() {
    let mut pm = PageManager::<16, 4>::new();
    assert_eq!(pm.allocate(4), Some(0));
    assert_eq!(pm.get_next_free_idx(0), None);
    assert!(pm.get_next_free(0).is_none());
}

#[test]
fn full_pool_refuses_allocation() {
    let mut pm = PageManager::<16, 4>::new();
    assert_eq!(pm.allocate(4), Some(0));
    assert_eq!(pm.allocate(0), None);
    assert_eq!(pm.allocate(3), None);
    assert_eq!(pm.get_next_free_idx(0), None);
}

#[test]
fn empty_allocation_from_fresh_pool_returns_page_zero() {
    let mut pm = PageManager::<16, 4>::new();
    assert_eq!(pm.allocate(0), Some(0));
    assert_eq!(pm.get_next_free_idx(0), Some(0));
}

#[test]
fn empty_allocation_with_empty_cache_caches_page_zero() {
    let mut pm = PageManager::<16, 4>::new();
    assert_eq!(pm.allocate(4), Some(0));
    pm.deallocate(0);
    pm.deallocate(2);
    assert_eq!(pm.allocate(0), Some(0));
    assert_eq!(pm.allocate(0), Some(0));
    assert_eq!(pm.get_next_free_idx(1), Some(2));
}

#[test]
fn deallocate_frees_one_page() {
    let mut pm = PageManager::<16, 4>::new();
    assert_eq!(pm.allocate(4), Some(0));
    pm.deallocate(2);
    assert_eq!(pm.get_next_free_idx(0), Some(2));
    assert_eq!(pm.get_next_free_idx(3), None);
}

#[test]
fn size_of_free_region_counts_pages_in_use_up_to_a_free_one() {
    let mut pm = PageManager::<16, 4>::new();
    assert_eq!(pm.allocate(4), Some(0));
    pm.deallocate(3);
    assert_eq!(pm.get_size_of_free_region(0), 3);
    assert_eq!(pm.get_size_of_free_region(1), 2);
    assert_eq!(pm.get_size_of_free_region(3), 0);
}

#[test]
fn mark_as_used_marks_begin_to_end() {
    let mut pm = PageManager::<16, 6>::new();
    pm.mark_as_used(1, 4);
    assert_eq!(pm.get_next_free_idx(0), Some(0));
    assert_eq!(pm.get_next_free_idx(1), Some(4));
    assert_eq!(pm.get_size_of_free_region(1), 3);
    pm.mark_as_used(2, 2);
    assert_eq!(pm.get_next_free_idx(1), Some(4));
}

#[test]
fn find_memory_on_fresh_pool_takes_whole_cached_region() {
    let mut pm = PageManager::<16, 3>::new();
    assert_eq!(pm.find_memory(3), Some(0));
    // find_memory only searches; the pages stay free
    assert_eq!(pm.get_next_free_idx(0), Some(0));
    // the cache now holds the region found from page 3: none
    assert_eq!(pm.find_memory(0), Some(0));
}

#[test]
fn find_memory_with_larger_cache_and_no_later_free_page() {
    let mut pm = PageManager::<16, 4>::new();
    pm.mark_as_used(2, 4);
    assert_eq!(pm.find_memory(2), None);
}

#[test]
fn tty_buffer_holds_background() {
    let t = Tty::<6>::new((3, 2), b'.');
    assert_eq!(t.get_screen_size(), (3, 2));
    assert_eq!(t.get_background_char(), b'.');
    assert_eq!(t.get_buffer(), &[b'.'; 6][..]);
}

#[test]
fn no_page_handed_out_twice_after_whole_pool() {
    let mut pm = PageManager::<16, 3>::new();
    assert_eq!(pm.allocate(3), Some(0));
    assert_eq!(pm.allocate(1), None);
    assert_eq!(pm.allocate(2), None);
}

#[test]
fn spent_cache_refuses_with_deallocations_between() {
    let mut pm = PageManager::<16, 4>::new();
    assert_eq!(pm.allocate(4), Some(0));
    pm.deallocate(1);
    pm.deallocate(3);
    assert_eq!(pm.find_memory(0), Some(1));
    pm.deallocate(2);
    assert_eq!(pm.get_next_free_idx(0), Some(1));
}
