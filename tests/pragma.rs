use sim_generation::{
    update_auto_vacuum_mode, update_cache_size, update_page_size, AutoVacuumMode, PagerSettings,
    PragmaError,
};

fn settings(header_page_size: Option<u32>) -> PagerSettings {
    PagerSettings {
        header_page_size,
        page_size: 4096,
        cache_size: 2000,
        page_cache_capacity: 2000,
        auto_vacuum_mode: AutoVacuumMode::Off,
        largest_root_page: 0,
    }
}

fn cache_after(header_page_size: Option<u32>, value: i64) -> (i64, usize) {
    let mut s = settings(header_page_size);
    update_cache_size(&mut s, value).unwrap();
    (s.cache_size, s.page_cache_capacity)
}

#[test]
fn cache_size_in_pages() {
    assert_eq!(cache_after(None, 500), (500, 500));
    assert_eq!(cache_after(Some(1024), 10), (10, 10));
}

#[test]
fn cache_size_below_minimum_is_raised() {
    assert_eq!(cache_after(None, 5), (10, 10));
    assert_eq!(cache_after(None, 0), (10, 10));
}

#[test]
fn cache_size_in_kibibytes() {
    assert_eq!(cache_after(None, -2000), (-2000, 500));
    assert_eq!(cache_after(Some(1024), -2000), (-2000, 2000));
    assert_eq!(cache_after(None, -1), (10, 10));
}

#[test]
fn cache_size_beyond_safe_bound_falls_back() {
    assert_eq!(cache_after(None, 2147450880), (2147450880, 2147450880));
    assert_eq!(cache_after(None, 2147450881), (10, 10));
    assert_eq!(cache_after(Some(512), -i64::MAX), (10, 10));
    assert_eq!(cache_after(None, i64::MIN), (10, 10));
    assert_eq!(cache_after(Some(65536), i64::MIN), (10, 10));
}

#[test]
fn cache_size_with_zero_page_size_fails() {
    let mut s = settings(Some(0));
    assert_eq!(update_cache_size(&mut s, -100), Err(PragmaError::ZeroPageSize));
    assert_eq!(s, settings(Some(0)));
    assert_eq!(update_cache_size(&mut s, i64::MIN), Err(PragmaError::ZeroPageSize));
    assert_eq!(s, settings(Some(0)));
    assert_eq!(update_cache_size(&mut s, 100), Ok(()));
    assert_eq!((s.cache_size, s.page_cache_capacity), (100, 100));
}

#[test]
fn page_size_and_auto_vacuum() {
    let mut s = settings(None);
    update_page_size(&mut s, 8192);
    assert_eq!(s.page_size, 8192);
    update_auto_vacuum_mode(&mut s, AutoVacuumMode::Incremental, 1);
    assert_eq!(s.auto_vacuum_mode, AutoVacuumMode::Incremental);
    assert_eq!(s.largest_root_page, 1);
    assert_eq!(s.cache_size, 2000);
}
