use gd_server::files::ProjectFiles;
use gd_server::memory::{
    react_to_memory_pressure, warn_if_cold_index_exceeds_budget, ColdIndexWarning, MemoryBudget,
    MemoryPressure, PressureChange, MEGABYTE,
};
use gd_server::native::{ApiProvenance, Dialect, DialectOrigin, LoadedNative, NativeSurface};
use gd_server::text_map::TextMap;
use gd_server::uri::{CanonicalKey, Uri};
use gd_server::workspace::{AnalyzerLimits, Workspace};

fn workspace_with(name: &str, entries: u64) -> Workspace {
    let surface = NativeSurface {
        version_major: 4,
        version_minor: 7,
        provenance: ApiProvenance::Exact,
        content_hash: 1,
        class_count: 1,
        empty: false,
    };
    let mut ws = Workspace::load(
        ProjectFiles::new(),
        TextMap::new(),
        LoadedNative { surface, release_notice: None, extension_notices: vec![] },
        Dialect { major: 4, minor: 7 },
        DialectOrigin::Declared,
        32,
        AnalyzerLimits { iter_limit: None, checkpoint_delay_us: None },
    );
    for i in 0..entries {
        let uri = Uri::parse(&format!("file:///{name}_{i}.gd")).unwrap();
        ws.debug_insert_parse_entry(CanonicalKey::for_uri(&uri, None, false), i, 0);
    }
    ws
}

#[test]
fn react_to_memory_pressure_climbs_to_hard_then_holds() {
    let budget = MemoryBudget::from_caps_mb(1, 2);
    let mut level = MemoryPressure::Normal;
    let mut ws = workspace_with("hard", 6);
    let rss = 5 * MEGABYTE;
    react_to_memory_pressure(&mut level, &mut ws, rss, &budget);
    assert_eq!(level, MemoryPressure::Hard);
    assert_eq!(
        ws.cache_lens().0,
        3,
        "a direct Normal to Hard transition must still shed half the cache"
    );
    assert_eq!(react_to_memory_pressure(&mut level, &mut ws, rss, &budget), None);
    assert_eq!(level, MemoryPressure::Hard, "held level: no transition");
    assert_eq!(ws.cache_lens().0, 3);
}

#[test]
fn react_to_memory_pressure_at_soft_calls_evict_half() {
    let budget = MemoryBudget::from_caps_mb(1, u64::MAX / (1024 * 1024 * 2));
    let mut level = MemoryPressure::Normal;
    let mut ws = workspace_with("synthetic", 8);
    assert_eq!(ws.cache_lens().0, 8);
    let change = react_to_memory_pressure(&mut level, &mut ws, 5 * MEGABYTE, &budget);
    assert_eq!(level, MemoryPressure::Soft);
    assert_eq!(ws.cache_lens().0, 4, "floor(len / 2) = 4 of the 8 entries are dropped");
    assert_eq!(
        change,
        Some(PressureChange {
            from: MemoryPressure::Normal,
            to: MemoryPressure::Soft,
            evicted: 4
        })
    );
}

#[test]
fn react_to_memory_pressure_records_recovery_without_eviction() {
    let budget = MemoryBudget::from_caps_mb(u64::MAX / 2, u64::MAX / 2);
    let mut level = MemoryPressure::Soft;
    let mut ws = workspace_with("r", 6);
    let change = react_to_memory_pressure(&mut level, &mut ws, 5 * MEGABYTE, &budget).unwrap();
    assert_eq!(level, MemoryPressure::Normal);
    assert_eq!((change.from, change.to), (MemoryPressure::Soft, MemoryPressure::Normal));
    assert_eq!(ws.cache_lens().0, 6, "the caches must not be touched");
}

#[test]
fn pressure_grows_with_memory() {
    let budget = MemoryBudget::from_caps_mb(10, 20);
    assert_eq!(budget.soft_cap_bytes, 10 * MEGABYTE);
    assert_eq!((budget.soft_cap_mb(), budget.hard_cap_mb()), (10, 20));
    assert_eq!(budget.pressure(10 * MEGABYTE), MemoryPressure::Normal);
    assert_eq!(budget.pressure(10 * MEGABYTE + 1), MemoryPressure::Soft);
    assert_eq!(budget.pressure(20 * MEGABYTE), MemoryPressure::Soft);
    assert_eq!(budget.pressure(20 * MEGABYTE + 1), MemoryPressure::Hard);
}

#[test]
fn a_large_project_is_warned_about_once_indexed() {
    let budget = MemoryBudget::from_caps_mb(10, 20);
    assert_eq!(warn_if_cold_index_exceeds_budget(MEGABYTE, &budget), None);
    assert_eq!(
        warn_if_cold_index_exceeds_budget(11 * MEGABYTE, &budget),
        Some(ColdIndexWarning::OverSoftCap { rss_mb: 11, soft_cap_mb: 10 })
    );
    assert_eq!(
        warn_if_cold_index_exceeds_budget(30 * MEGABYTE, &budget),
        Some(ColdIndexWarning::OverHardCap { rss_mb: 30, hard_cap_mb: 20 })
    );
}

#[test]
fn an_index_at_a_cap_is_warned_about_though_the_ladder_holds() {
    let budget = MemoryBudget::from_caps_mb(10, 20);
    assert_eq!(
        warn_if_cold_index_exceeds_budget(20 * MEGABYTE, &budget),
        Some(ColdIndexWarning::OverHardCap { rss_mb: 20, hard_cap_mb: 20 })
    );
    assert_eq!(budget.pressure(20 * MEGABYTE), MemoryPressure::Soft);
    assert_eq!(
        warn_if_cold_index_exceeds_budget(10 * MEGABYTE, &budget),
        Some(ColdIndexWarning::OverSoftCap { rss_mb: 10, soft_cap_mb: 10 })
    );
    assert_eq!(budget.pressure(10 * MEGABYTE), MemoryPressure::Normal);
    assert_eq!(warn_if_cold_index_exceeds_budget(10 * MEGABYTE - 1, &budget), None);
}
