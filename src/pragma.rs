//! The pager and connection settings that the page size, cache size and auto
//! vacuum pragmas change, and the rules by which they change them.

use vstd::prelude::*;

verus! {

/// Page size assumed when the database header gives none.
pub const DEFAULT_PAGE_SIZE: u32 = 4096;

/// The page cache never holds fewer pages than this.
pub const MIN_PAGE_CACHE_SIZE: usize = 10;

/// Largest cache size, in pages, that is taken as asked; larger ones fall
/// back to the minimum.
pub const MAX_SAFE_CACHE_SIZE: i64 = 2147450880;

/// How free pages are reclaimed.
#[derive(Clone, Copy, Debug, PartialEq, Eq, Structural)]
pub enum AutoVacuumMode {
    /// Free pages stay in the file.
    Off,
    Full,
    Incremental,
}

/// Why a pragma could not be applied.
#[derive(Clone, Copy, Debug, PartialEq, Eq, Structural)]
pub enum PragmaError {
    /// A cache size given in kibibytes cannot be turned into pages when the
    /// header records a page size of zero.
    ZeroPageSize,
}

/// The settings of a pager and its connection that pragmas change.
#[derive(Clone, Copy, Debug, PartialEq, Eq, Structural)]
pub struct PagerSettings {
    /// Page size recorded in the database header, if the header can be read.
    pub header_page_size: Option<u32>,
    /// Page size that the connection uses for a database it creates.
    pub page_size: u32,
    /// Cache size as the connection reports it: pages when positive,
    /// kibibytes when negative.
    pub cache_size: i64,
    /// Capacity of the page cache, in pages.
    pub page_cache_capacity: usize,
    /// How free pages are reclaimed.
    pub auto_vacuum_mode: AutoVacuumMode,
    /// Largest root page number kept in the header for auto vacuum.
    pub largest_root_page: u32,
}

/// The page size used to turn kibibytes into pages.
pub open spec fn effective_page_size(header_page_size: Option<u32>) -> int {
    match header_page_size {
        Some(p) => p as int,
        None => DEFAULT_PAGE_SIZE as int,
    }
}

/// The cache size in pages that `value` asks for: itself when not negative;
/// otherwise `|value|` kibibytes (the byte count saturating at `i64::MAX`)
/// divided into pages.
pub open spec fn requested_pages(value: int, page_size: int) -> int {
    if value < 0 {
        let bytes = if -value * 1024 > i64::MAX { i64::MAX as int } else { -value * 1024 };
        bytes / page_size
    } else {
        value
    }
}

/// Whether a request for `pages` pages is taken as asked: it lies between
/// `MIN_PAGE_CACHE_SIZE` and `MAX_SAFE_CACHE_SIZE`.
pub open spec fn within_cache_bounds(pages: int) -> bool {
    MIN_PAGE_CACHE_SIZE <= pages <= MAX_SAFE_CACHE_SIZE
}

/// What the cache size pragma sets, as (reported size, capacity in pages): a
/// request within bounds is kept, the connection reporting `value` as given;
/// any other request gives the minimum for both.
pub open spec fn cache_setting(value: int, page_size: int) -> (int, int) {
    let pages = requested_pages(value, page_size);
    if within_cache_bounds(pages) {
        (value, pages)
    } else {
        (MIN_PAGE_CACHE_SIZE as int, MIN_PAGE_CACHE_SIZE as int)
    }
}

/// Sets the auto vacuum mode and the largest root page number kept for it.
pub fn update_auto_vacuum_mode(
    settings: &mut PagerSettings,
    auto_vacuum_mode: AutoVacuumMode,
    largest_root_page_number: u32,
)
    ensures
        *final(settings) == (PagerSettings {
            auto_vacuum_mode,
            largest_root_page: largest_root_page_number,
            ..*old(settings)
        }),
{
    settings.largest_root_page = largest_root_page_number;
    settings.auto_vacuum_mode = auto_vacuum_mode;
}

/// Sets the cache size: `value` pages when not negative, `-value` kibibytes
/// when negative, kept within the safe bounds (see `cache_setting`). Fails,
/// changing nothing, on a negative value when the header's page size is zero.
pub fn update_cache_size(settings: &mut PagerSettings, value: i64) -> (r: Result<(), PragmaError>)
    ensures
        r is Err <==> (value < 0 && old(settings).header_page_size == Some(0u32)),
        r is Err ==> r == Err::<(), PragmaError>(PragmaError::ZeroPageSize)
            && *final(settings) == *old(settings),
        r is Ok ==> {
            let (reported, pages) = cache_setting(
                value as int,
                effective_page_size(old(settings).header_page_size),
            );
            *final(settings) == (PagerSettings {
                cache_size: reported as i64,
                page_cache_capacity: pages as usize,
                ..*old(settings)
            })
            && final(settings).cache_size == reported
            && final(settings).page_cache_capacity == pages
        },
{
    let mut cache_size_unformatted: i64 = value;
    let mut cache_size: i64 = if value < 0 {
        let magnitude: i64 = if value == i64::MIN { i64::MAX } else { -value };
        let kb: i64 = if magnitude > i64::MAX / 1024 {
            i64::MAX
        } else {
            magnitude * 1024
        };
        let page_size: i64 = match settings.header_page_size {
            Some(p) => p as i64,
            None => DEFAULT_PAGE_SIZE as i64,
        };
        if page_size == 0 {
            return Err(PragmaError::ZeroPageSize);
        }
        assert(kb == (if -value * 1024 > i64::MAX { i64::MAX as int } else { -value * 1024 }))
            by (nonlinear_arith)
            requires
                value == i64::MIN ==> magnitude == i64::MAX,
                value > i64::MIN ==> magnitude == -value,
                value < 0,
                kb == (if magnitude > i64::MAX / 1024 { i64::MAX as int } else { magnitude * 1024 }),
        ;
        kb / page_size
    } else {
        value
    };
    if cache_size > MAX_SAFE_CACHE_SIZE {
        cache_size = 0;
        cache_size_unformatted = 0;
    }
    if cache_size < 0 {
        cache_size = 0;
        cache_size_unformatted = 0;
    }
    let cache_size_pages = cache_size as usize;
    let final_cache_size = if cache_size_pages < MIN_PAGE_CACHE_SIZE {
        cache_size_unformatted = MIN_PAGE_CACHE_SIZE as i64;
        MIN_PAGE_CACHE_SIZE
    } else {
        cache_size_pages
    };
    settings.cache_size = cache_size_unformatted;
    settings.page_cache_capacity = final_cache_size;
    Ok(())
}

/// Sets the page size that the connection uses for a database it creates.
pub fn update_page_size(settings: &mut PagerSettings, page_size: u32)
    ensures
        *final(settings) == (PagerSettings { page_size, ..*old(settings) }),
{
    settings.page_size = page_size;
}

} // verus!
