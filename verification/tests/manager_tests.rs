use pikpak::api::Ident;
use pikpak::manager::{
    driver_plan, resume_accepted, resume_range_value, DownloadManager, DownloadStatusKind,
    DriverOutcome, DriverPlan, StartAction,
};

fn ident(name: &str) -> Ident {
    Ident {
        username: name.to_string(),
        password: "SECRET-REDACTED".to_string(),
    }
}

fn start(m: &mut DownloadManager, id: &Ident, fid: &str) -> StartAction {
    m.start_download(
        fid.to_string(),
        format!("cache/{}", fid),
        id,
        format!("{}.bin", fid),
        1000,
        false,
    )
    .unwrap()
}

#[test]
fn test_start_twice_is_noop() {
    // Starting the same (owner, file id) twice while the record is
    // waiting, downloading or completed changes nothing: one record,
    // one driver.
    let mut m = DownloadManager::new(4);
    let id = ident("alice");
    assert_eq!(start(&mut m, &id, "f1"), StartAction::SpawnDriver);
    assert_eq!(start(&mut m, &id, "f1"), StartAction::AlreadyTracked);
    let all = m.get_status_by_filter(&None, &id);
    assert_eq!(all.len(), 1);
    assert!(matches!(all[0].status, DownloadStatusKind::Waiting));

    // Still a no-op while downloading, and after completion.
    assert!(m.acquire_permit(&id, &"f1".to_string()));
    assert_eq!(start(&mut m, &id, "f1"), StartAction::AlreadyTracked);
    m.driver_finish(&id, &"f1".to_string(), DriverOutcome::Completed);
    assert_eq!(start(&mut m, &id, "f1"), StartAction::AlreadyTracked);
    assert_eq!(m.get_status_by_filter(&None, &id).len(), 1);
}

#[test]
fn test_start_existing_path_is_noop() {
    // A destination already on disk makes the start a successful
    // no-op: nothing tracked, nothing spawned, the file untouched.
    let mut m = DownloadManager::new(4);
    let id = ident("alice");
    let r = m.start_download(
        "f1".to_string(),
        "cache/f1".to_string(),
        &id,
        "f1.bin".to_string(),
        1000,
        true,
    );
    assert_eq!(r.unwrap(), StartAction::AlreadyTracked);
    assert!(m.get_status_by_id(&"f1".to_string(), &id).is_none());
    // Once the path is clear, the same id starts normally.
    assert_eq!(start(&mut m, &id, "f1"), StartAction::SpawnDriver);
}

#[test]
fn test_permit_capacity_bounds_active_downloads() {
    // With capacity two, a third driver stays queued until an earlier
    // one finishes.
    let mut m = DownloadManager::new(2);
    let id = ident("alice");
    for fid in ["f1", "f2", "f3"] {
        assert_eq!(start(&mut m, &id, fid), StartAction::SpawnDriver);
    }
    assert!(m.acquire_permit(&id, &"f1".to_string()));
    assert!(m.acquire_permit(&id, &"f2".to_string()));
    assert!(!m.acquire_permit(&id, &"f3".to_string()));
    let f3 = m.get_status_by_id(&"f3".to_string(), &id).unwrap();
    assert!(matches!(f3.status, DownloadStatusKind::Waiting));

    // Another owner has a budget of its own.
    let bob = ident("bob");
    assert_eq!(start(&mut m, &bob, "g1"), StartAction::SpawnDriver);
    assert!(m.acquire_permit(&bob, &"g1".to_string()));

    m.driver_finish(&id, &"f1".to_string(), DriverOutcome::Completed);
    assert!(m.acquire_permit(&id, &"f3".to_string()));
    let f3 = m.get_status_by_id(&"f3".to_string(), &id).unwrap();
    assert!(matches!(f3.status, DownloadStatusKind::Downloading));
}

#[test]
fn test_pause_resume_cycle() {
    let mut m = DownloadManager::new(4);
    let id = ident("alice");
    let fid = "f1".to_string();
    start(&mut m, &id, "f1");
    assert!(m.acquire_permit(&id, &fid));

    // Pause triggers the handle; the driver then reports cancellation.
    m.pause_download(&fid, &id);
    m.driver_finish(&id, &fid, DriverOutcome::Cancelled);
    let rec = m.get_status_by_id(&fid, &id).unwrap();
    assert!(matches!(rec.status, DownloadStatusKind::Paused));

    // Resume re-spawns; a second resume while active is a no-op.
    assert!(m.resume_download(&fid, &id));
    assert!(!m.resume_download(&fid, &id));
    assert!(m.acquire_permit(&id, &fid));
    let rec = m.get_status_by_id(&fid, &id).unwrap();
    assert!(matches!(rec.status, DownloadStatusKind::Downloading));
}

#[test]
fn test_resume_needs_waiting_or_paused() {
    let mut m = DownloadManager::new(4);
    let id = ident("alice");
    let fid = "f1".to_string();
    assert!(!m.resume_download(&fid, &id));
    start(&mut m, &id, "f1");
    assert!(m.acquire_permit(&id, &fid));
    m.pause_download(&fid, &id);
    m.driver_finish(&id, &fid, DriverOutcome::Completed);
    // Completed records are not resumable.
    assert!(!m.resume_download(&fid, &id));
}

#[test]
fn test_remove_deletes_record() {
    let mut m = DownloadManager::new(4);
    let id = ident("alice");
    let fid = "f1".to_string();
    start(&mut m, &id, "f1");
    m.remove_download(&fid, &id);
    assert!(m.get_status_by_id(&fid, &id).is_none());
    // Removing again is harmless, and the id can start fresh.
    m.remove_download(&fid, &id);
    assert_eq!(start(&mut m, &id, "f1"), StartAction::SpawnDriver);
}

#[test]
fn test_driver_error_outcomes() {
    let mut m = DownloadManager::new(4);
    let id = ident("alice");
    let fid = "f1".to_string();
    start(&mut m, &id, "f1");
    assert!(m.acquire_permit(&id, &fid));
    m.driver_finish(&id, &fid, DriverOutcome::ResumeFailed);
    let rec = m.get_status_by_id(&fid, &id).unwrap();
    assert!(matches!(rec.status, DownloadStatusKind::HasError(_)));

    let fid2 = "f2".to_string();
    start(&mut m, &id, "f2");
    assert!(m.acquire_permit(&id, &fid2));
    m.driver_finish(&id, &fid2, DriverOutcome::Failed("open failed".to_string()));
    let rec = m.get_status_by_id(&fid2, &id).unwrap();
    assert!(matches!(rec.status, DownloadStatusKind::HasError(_)));
}

#[test]
fn test_filter_matches_variants_only() {
    let mut m = DownloadManager::new(4);
    let id = ident("alice");
    for fid in ["f1", "f2", "f3"] {
        start(&mut m, &id, fid);
    }
    assert!(m.acquire_permit(&id, &"f1".to_string()));
    m.driver_finish(&id, &"f1".to_string(), DriverOutcome::Completed);
    assert!(m.acquire_permit(&id, &"f2".to_string()));
    m.driver_finish(
        &id,
        &"f2".to_string(),
        DriverOutcome::Failed("boom".to_string()),
    );

    let done = m.get_status_by_filter(&Some(vec![DownloadStatusKind::Completed]), &id);
    assert_eq!(done.len(), 1);
    assert_eq!(done[0].file_id, "f1");

    // The error text is an opaque diagnostic: any HasError matches.
    let failed = m.get_status_by_filter(
        &Some(vec![DownloadStatusKind::HasError(String::new())]),
        &id,
    );
    assert_eq!(failed.len(), 1);
    assert_eq!(failed[0].file_id, "f2");

    let waiting = m.get_status_by_filter(&Some(vec![DownloadStatusKind::Waiting]), &id);
    assert_eq!(waiting.len(), 1);
    assert_eq!(waiting[0].file_id, "f3");

    let all = m.get_status_by_filter(&None, &id);
    assert_eq!(all.len(), 3);

    // Another owner sees none of them.
    let other = m.get_status_by_filter(&None, &ident("bob"));
    assert_eq!(other.len(), 0);
}

#[test]
fn test_progress_counters() {
    let mut m = DownloadManager::new(4);
    let id = ident("alice");
    let fid = "f1".to_string();
    start(&mut m, &id, "f1");
    m.reset_progress(&id, &fid, 100);
    m.record_progress(&id, &fid, 500, 250);
    let rec = m.get_status_by_id(&fid, &id).unwrap();
    assert_eq!(rec.downloaded, 600);
    assert_eq!(rec.downloaded_time_ms, 250);
    assert_eq!(rec.current_speed_bps, 2000);

    // A zero-length interval keeps the previous estimate.
    m.record_progress(&id, &fid, 10, 0);
    let rec = m.get_status_by_id(&fid, &id).unwrap();
    assert_eq!(rec.downloaded, 610);
    assert_eq!(rec.current_speed_bps, 2000);
}

#[test]
fn test_recover_readopts_interrupted_transfers() {
    let mut m = DownloadManager::new(4);
    let id = ident("alice");
    for fid in ["f1", "f2", "f3"] {
        start(&mut m, &id, fid);
    }
    assert!(m.acquire_permit(&id, &"f1".to_string()));
    assert!(m.acquire_permit(&id, &"f2".to_string()));
    m.driver_finish(&id, &"f2".to_string(), DriverOutcome::Cancelled);

    // f1 Downloading, f2 Paused, f3 Waiting at the "crash".
    let persisted = m.get_status_by_filter(&None, &id);
    let m2 = DownloadManager::recover(&persisted, 4);

    // Interrupted transfers wait again until their driver re-acquires.
    let f1 = m2.get_status_by_id(&"f1".to_string(), &id).unwrap();
    assert!(matches!(f1.status, DownloadStatusKind::Waiting));
    let f2 = m2.get_status_by_id(&"f2".to_string(), &id).unwrap();
    assert!(matches!(f2.status, DownloadStatusKind::Paused));
    let f3 = m2.get_status_by_id(&"f3".to_string(), &id).unwrap();
    assert!(matches!(f3.status, DownloadStatusKind::Waiting));

    // Recovered drivers are already active: starting them is a no-op,
    // and a paused one can be resumed.
    let mut m2 = m2;
    assert_eq!(start(&mut m2, &id, "f1"), StartAction::AlreadyTracked);
    assert!(m2.resume_download(&"f2".to_string(), &id));
}

#[test]
fn test_kind_eq_ignores_error_text() {
    let a = DownloadStatusKind::HasError("one".to_string());
    let b = DownloadStatusKind::HasError("two".to_string());
    assert!(a.kind_eq(&b));
    assert!(!a.kind_eq(&DownloadStatusKind::Paused));
    assert!(DownloadStatusKind::Waiting.kind_eq(&DownloadStatusKind::Waiting));
}

#[test]
fn test_driver_plan_rules() {
    assert_eq!(driver_plan(true, false), DriverPlan::Complete);
    assert_eq!(driver_plan(false, true), DriverPlan::FailResume);
    assert_eq!(driver_plan(false, false), DriverPlan::RetryAfterDelay);
}

#[test]
fn test_resume_protocol_rules() {
    assert!(resume_accepted(0, 200));
    assert!(resume_accepted(0, 206));
    assert!(resume_accepted(512, 206));
    assert!(!resume_accepted(512, 200));

    assert_eq!(resume_range_value(0), None);
    assert_eq!(resume_range_value(512), Some("bytes=512-".to_string()));
}
