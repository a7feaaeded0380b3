use std::time::Duration;

use pikpak::api::{
    ApiDownloadReq, ApiOption, FileIDType, FileStatus, Ident, Password, RetryDecision,
};
use pikpak::manager::DownloadStatusKind;
use pikpak::path::slash;
use pikpak::web::{bearer_token, BaseResp, Claims, DownloadStatusEnum, Filter, TokenData};

#[test]
fn test_slash() {
    assert_eq!(slash("/").unwrap(), "");
    assert_eq!(slash("/a").unwrap(), "a");
    assert_eq!(slash("a").unwrap(), "a");
    assert_eq!(slash("a/").unwrap(), "a");
    assert_eq!(slash("/a/").unwrap(), "a");
    assert_eq!(slash("/a/b").unwrap(), "a/b");
    assert_eq!(slash("a/b").unwrap(), "a/b");
    assert_eq!(slash("a/b/").unwrap(), "a/b");
    assert_eq!(slash("/a/b/").unwrap(), "a/b");
}

#[test]
fn test_slash_cleans_lexically() {
    assert_eq!(slash("a//b").unwrap(), "a/b");
    assert_eq!(slash("a/./b").unwrap(), "a/b");
    assert_eq!(slash("a/c/../b").unwrap(), "a/b");
    assert_eq!(slash("").unwrap(), ".");
}

#[test]
fn test_api_option_builders() {
    let o = ApiOption::new();
    assert!(o.retry_times.is_none());
    assert!(o.timeout.is_none());
    assert!(o.retry_sleep_duration.is_none());

    let o = ApiOption::new()
        .retry_times(3)
        .timeout(Duration::from_secs(5))
        .retry_sleep_duration(Duration::from_millis(200));
    assert_eq!(o.retry_times, Some(3));
    assert_eq!(o.timeout, Some(Duration::from_secs(5)));
    assert_eq!(o.retry_sleep_duration, Some(Duration::from_millis(200)));
}

#[test]
fn test_retry_decision_policy() {
    let none = ApiOption::new();
    assert_eq!(none.retry_decision(1, true), RetryDecision::Succeed);
    assert_eq!(none.retry_decision(1, false), RetryDecision::GiveUp);

    let forever = ApiOption::new().retry_times(0);
    assert_eq!(forever.retry_decision(1, false), RetryDecision::RetryAfterSleep);
    assert_eq!(forever.retry_decision(999, false), RetryDecision::RetryAfterSleep);

    let three = ApiOption::new().retry_times(3);
    assert_eq!(three.retry_decision(1, false), RetryDecision::RetryAfterSleep);
    assert_eq!(three.retry_decision(2, false), RetryDecision::RetryAfterSleep);
    assert_eq!(three.retry_decision(3, false), RetryDecision::GiveUp);
    assert_eq!(three.retry_decision(3, true), RetryDecision::Succeed);
}

#[test]
fn test_file_id_type_get_id() {
    let f = FileIDType::File("abc".to_string());
    assert_eq!(f.get_id(), "abc");
    let d = FileIDType::Folder("root".to_string());
    assert_eq!(d.get_id(), "root");
}

#[test]
fn test_download_to_local_path() {
    let req = ApiDownloadReq {
        file_id: "f".to_string(),
        output_dir: "out".to_string(),
        rename: "movie.mp4".to_string(),
        ident: Ident {
            username: "alice".to_string(),
            password: "SECRET-REDACTED".to_string(),
        },
    };
    assert_eq!(req.download_to_local_path(), "out/movie.mp4");

    let req = ApiDownloadReq { output_dir: "out/".to_string(), ..req };
    assert_eq!(req.download_to_local_path(), "out/movie.mp4");

    let req = ApiDownloadReq { output_dir: "".to_string(), ..req };
    assert_eq!(req.download_to_local_path(), "movie.mp4");
}

#[test]
fn test_base_resp() {
    let ok = BaseResp::default();
    assert_eq!(ok.code, 0);
    assert_eq!(ok.message, "success");
    let bad = BaseResp::with_error("login failed".to_string());
    assert_eq!(bad.code, -1);
    assert_eq!(bad.message, "login failed");
}

#[test]
fn test_filter_and_status_enum_conversions() {
    assert!(matches!(
        Filter::Downloading.to_kind(),
        DownloadStatusKind::Downloading
    ));
    assert!(matches!(
        Filter::HasError.to_kind(),
        DownloadStatusKind::HasError(_)
    ));
    let e = DownloadStatusEnum::from_kind(DownloadStatusKind::HasError("x".to_string()));
    match e {
        DownloadStatusEnum::HasError(msg) => assert_eq!(msg, "x"),
        _ => panic!("wrong variant"),
    }
    assert!(matches!(
        DownloadStatusEnum::from_kind(DownloadStatusKind::Paused),
        DownloadStatusEnum::Paused
    ));
}

#[test]
fn test_token_data_into_ident() {
    let t = TokenData {
        email: "alice@example.invalid".to_string(),
        password: "SECRET-REDACTED".to_string(),
    };
    let id = t.into_ident();
    assert_eq!(id.username, "alice@example.invalid");
}

#[test]
fn test_password_hides_nothing_from_deliberate_access() {
    let p = Password::new("SECRET-REDACTED".to_string());
    assert_eq!(p.as_str(), "SECRET-REDACTED");
    let q = p.clone();
    assert_eq!(q.as_str(), "SECRET-REDACTED");
}

#[test]
fn test_remote_list_entry_conversion() {
    let f = FileStatus {
        kind: "drive#file".to_string(),
        id: "id1".to_string(),
        parent_id: "p".to_string(),
        name: "n".to_string(),
        user_id: "u".to_string(),
        size: "22".to_string(),
        file_extension: "bin".to_string(),
        mime_type: "application/octet-stream".to_string(),
        created_time: "t0".to_string(),
        modified_time: "t1".to_string(),
        icon_link: "i".to_string(),
        thumbnail_link: "th".to_string(),
        md5_checksum: "m".to_string(),
        hash: "h".to_string(),
        phase: "ok".to_string(),
    };
    let r = pikpak::web::RemoteListFileStatus::from_status(f);
    assert_eq!(r.kind, "drive#file");
    assert_eq!(r.id, "id1");
    assert_eq!(r.size, "22");
    assert_eq!(r.phase, "ok");
}

#[test]
fn test_bearer_token() {
    assert_eq!(bearer_token("Bearer abc.def"), Some("abc.def".to_string()));
    assert_eq!(bearer_token("Bearer "), Some("".to_string()));
    assert_eq!(bearer_token("Basic abc"), None);
    assert_eq!(bearer_token("bearer abc"), None);
    assert_eq!(bearer_token(""), None);

    let c = Claims { sub: "s".to_string(), exp: 100 };
    assert!(c.expired_at(101));
    assert!(!c.expired_at(100));
    assert!(!c.expired_at(5));
}
