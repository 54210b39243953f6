use sponsorblock_mirror::cors::{HttpMethod, CORS};
use sponsorblock_mirror::mirror::{after_phase, phase_sql, start_import, ImportAction, ImportPhase, MirrorSync};

#[test]
fn cors_headers_and_name() {
    let c = CORS;
    assert_eq!(c.name(), "Add CORS headers to responses");
    let h: Vec<(String, String)> = c.headers();
    let expected = vec![
        ("Access-Control-Allow-Origin", "*"),
        ("Access-Control-Allow-Methods", "POST, GET, PATCH, OPTIONS"),
        ("Access-Control-Allow-Headers", "*"),
        ("Access-Control-Allow-Credentials", "true"),
    ];
    assert_eq!(h.len(), expected.len());
    for (got, want) in h.iter().zip(expected.iter()) {
        assert_eq!(got.0, want.0);
        assert_eq!(got.1, want.1);
    }
}

#[test]
fn cors_preflight_only_for_options() {
    let c = CORS;
    assert!(c.answers_preflight(HttpMethod::Options));
    assert!(!c.answers_preflight(HttpMethod::Get));
    assert!(!c.answers_preflight(HttpMethod::Post));
    assert!(!c.answers_preflight(HttpMethod::Patch));
}

const SEC: i128 = 1_000_000_000;

#[test]
fn first_tick_imports_when_the_dump_exists() {
    let s = MirrorSync::new();
    assert!(!s.due(false, 100 * SEC));
    assert!(s.due(true, 100 * SEC));
    assert!(s.is_newer(-5 * SEC));
}

#[test]
fn dump_is_looked_at_after_more_than_sixty_seconds() {
    let mut s = MirrorSync::new();
    s.record_import(1000 * SEC, true);
    assert_eq!(s.last_update, Some(1000 * SEC));
    assert!(!s.due(true, 1060 * SEC));
    assert!(!s.due(true, 1060 * SEC + SEC - 1));
    assert!(s.due(true, 1061 * SEC));
    assert!(!s.due(true, 900 * SEC));
    assert!(!s.due(false, 2000 * SEC));
}

#[test]
fn the_same_dump_is_not_imported_twice() {
    let mut s = MirrorSync::new();
    s.record_import(1000 * SEC, true);
    assert!(!s.is_newer(1000 * SEC));
    assert!(!s.is_newer(999 * SEC));
    assert!(s.is_newer(1000 * SEC + 1));
}

#[test]
fn failed_import_changes_nothing() {
    let mut s = MirrorSync::new();
    s.record_import(1000 * SEC, false);
    assert_eq!(s.last_update, None);
    s.record_import(1000 * SEC, true);
    s.record_import(2000 * SEC, false);
    assert_eq!(s.last_update, Some(1000 * SEC));
}

#[test]
fn import_phases() {
    assert!(matches!(start_import(), ImportAction::Run(ImportPhase::Load)));
    assert!(matches!(after_phase(ImportPhase::Load, true), ImportAction::Run(ImportPhase::Vacuum)));
    assert!(matches!(after_phase(ImportPhase::Load, false), ImportAction::Run(ImportPhase::Rollback)));
    assert!(matches!(after_phase(ImportPhase::Rollback, true), ImportAction::Finish(false)));
    assert!(matches!(after_phase(ImportPhase::Vacuum, true), ImportAction::Finish(true)));
    assert!(matches!(after_phase(ImportPhase::Vacuum, false), ImportAction::Finish(false)));
    assert_eq!(phase_sql(ImportPhase::Rollback), "ROLLBACK;");
    assert_eq!(phase_sql(ImportPhase::Vacuum), "VACUUM \"sponsorTimes\";");
    assert!(phase_sql(ImportPhase::Load).starts_with("BEGIN; DROP TABLE IF EXISTS \"sponsorTimesTemp\";"));
    assert!(phase_sql(ImportPhase::Load).ends_with("COMMIT;"));
}

#[test]
fn last_import_time_moves_forward() {
    let mut s = MirrorSync::new();
    let mut seen: Vec<i128> = Vec::new();
    for (m, ok) in [(10 * SEC, false), (20 * SEC, true), (30 * SEC, false), (40 * SEC, true)] {
        if s.is_newer(m) {
            s.record_import(m, ok);
        }
        if let Some(t) = s.last_update {
            seen.push(t);
        }
    }
    assert_eq!(seen, vec![20 * SEC, 20 * SEC, 40 * SEC]);
    assert!(!s.is_newer(30 * SEC));
}
