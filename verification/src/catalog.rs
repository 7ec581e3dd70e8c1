use vstd::prelude::*;

verus! {

/// The page size `get_running` walks the catalog with.
pub const RUNNING_PAGE_SIZE: i32 = 100;

/// The page size a list request is clamped to: out-of-range values
/// fall back to the largest page.
pub open spec fn spec_clamp_page_size(page_size: int) -> int {
    if page_size <= 0 || page_size >= 100 {
        100
    } else {
        page_size
    }
}

/// Clamps a requested page size into (0, 100].
pub fn clamp_page_size(page_size: i32) -> (r: i32)
    ensures
        r == spec_clamp_page_size(page_size as int),
        0 < r <= 100,
{
    if page_size <= 0 || page_size >= 100 {
        100
    } else {
        page_size
    }
}

/// Clamps a requested page number to zero or more.
pub fn clamp_page(page: i32) -> (r: i32)
    ensures
        r == (if page as int <= 0 {
            0int
        } else {
            page as int
        }),
        r >= 0,
{
    if page <= 0 {
        0
    } else {
        page
    }
}

/// The row offset of a page: page times page size, wide enough that
/// it cannot wrap.
pub fn page_offset(page: i32, page_size: i32) -> (r: i64)
    ensures
        r as int == page as int * page_size as int,
{
    let p: i64 = page as i64;
    let q: i64 = page_size as i64;
    proof {
        assert(-0x4000_0000_0000_0000 <= p * q <= 0x4000_0000_0000_0000) by (nonlinear_arith)
            requires
                -0x8000_0000 <= p <= 0x7fff_ffff,
                -0x8000_0000 <= q <= 0x7fff_ffff,
        ;
    }
    p * q
}

/// What the replay walk does after one page: a short page ends the
/// walk, a full one asks for the next page.
pub fn next_page(page: i32, fetched: usize, page_size: i32) -> (r: Option<i32>)
    requires
        0 <= page_size,
    ensures
        r is Some <==> fetched >= page_size as usize && page < i32::MAX,
        r is Some ==> r->0 == page + 1,
{
    if fetched < page_size as usize {
        None
    } else if page == i32::MAX {
        None
    } else {
        Some(page + 1)
    }
}

} // verus!
