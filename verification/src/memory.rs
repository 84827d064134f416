use vstd::prelude::*;

verus! {

/// Size of a huge page (2 MiB).
pub const HUGE_PAGE_SIZE: u64 = 0x20_0000;

/// The start of the 2 MiB page that holds an address.
pub open spec fn huge_page_of(addr: int) -> int {
    addr - addr % 0x20_0000
}

/// The 2 MiB pages that a region of memory touches, lowest first: from the page holding
/// `start_addr` to the page holding its last byte `start_addr + size_in_bytes - 1` (none when
/// that page lies below the first). These are the pages whose mappings are opened to user mode.
pub fn user_accessible_pages(start_addr: u64, size_in_bytes: u64) -> (pages: Vec<u64>)
    requires
        1 <= start_addr + size_in_bytes <= u64::MAX + 1,
    ensures
        ({
            let first = huge_page_of(start_addr as int);
            let last = huge_page_of(start_addr + size_in_bytes - 1);
            &&& pages@.len() == if last >= first {
                (last - first) / 0x20_0000 + 1
            } else {
                0
            }
            &&& forall|i: int| 0 <= i < pages@.len() ==> #[trigger] pages@[i] == first + i * 0x20_0000
        }),
{
    let end_addr: u64 = ((start_addr as u128 + size_in_bytes as u128) - 1) as u64;
    let first = start_addr - start_addr % HUGE_PAGE_SIZE;
    let last = end_addr - end_addr % HUGE_PAGE_SIZE;
    let mut pages: Vec<u64> = Vec::new();
    if first > last {
        return pages;
    }
    let ghost count: int = (last - first) / 0x20_0000 + 1;
    assert((last - first) % 0x20_0000 == 0);
    let mut p = first;
    while p < last
        invariant
            first <= p <= last,
            (p - first) % 0x20_0000 == 0,
            (last - first) % 0x20_0000 == 0,
            pages@.len() == (p - first) / 0x20_0000,
            forall|i: int| 0 <= i < pages@.len() ==> #[trigger] pages@[i] == first + i * 0x20_0000,
        decreases last - p,
    {
        pages.push(p);
        p = p + HUGE_PAGE_SIZE;
    }
    pages.push(p);
    pages
}

} // verus!
