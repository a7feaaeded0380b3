//! The request and response shapes of the serving layer, and the
//! conversions between them and the engine's own types.

use vstd::prelude::*;

use crate::api::{FileStatus, Ident};
use crate::manager::{DownloadStatusKind, StatusKindView};

verus! {

/// The common envelope of every response: zero for success, a negative
/// code and a diagnostic otherwise.
pub struct BaseResp {
    pub code: i32,
    pub message: String,
}

impl BaseResp {
    /// A failure envelope carrying the diagnostic.
    pub fn with_error(message: String) -> (r: Self)
        ensures
            r.code == -1,
            r.message@ == message@,
    {
        BaseResp { code: -1, message }
    }
}

impl Default for BaseResp {
    /// The success envelope.
    fn default() -> (r: Self)
        ensures
            r.code == 0,
            r.message@ == "success"@,
    {
        BaseResp { code: 0, message: "success".to_owned() }
    }
}

/// A status-kind filter as a query names it (no error payload).
#[derive(Debug, Copy, Clone, PartialEq, Eq, Structural)]
pub enum Filter {
    Downloading,
    Paused,
    Completed,
    Waiting,
    HasError,
}

/// The engine status kind a filter entry stands for (an empty
/// diagnostic for the error kind; filters compare variants only).
pub open spec fn filter_kind(f: Filter) -> StatusKindView {
    match f {
        Filter::Downloading => StatusKindView::Downloading,
        Filter::Paused => StatusKindView::Paused,
        Filter::Completed => StatusKindView::Completed,
        Filter::Waiting => StatusKindView::Waiting,
        Filter::HasError => StatusKindView::HasError(Seq::empty()),
    }
}

impl Filter {
    pub fn to_kind(self) -> (r: DownloadStatusKind)
        ensures
            r@ == filter_kind(self),
    {
        let r = match self {
            Filter::Downloading => DownloadStatusKind::Downloading,
            Filter::Paused => DownloadStatusKind::Paused,
            Filter::Completed => DownloadStatusKind::Completed,
            Filter::Waiting => DownloadStatusKind::Waiting,
            Filter::HasError => DownloadStatusKind::HasError(String::new()),
        };
        proof {
            assert(r@ == filter_kind(self));
        }
        r
    }
}

/// A status kind as responses carry it.
#[derive(Debug)]
pub enum DownloadStatusEnum {
    Downloading,
    Paused,
    Completed,
    Waiting,
    HasError(String),
}

/// The engine status kind a response variant corresponds to.
pub open spec fn status_enum_view(s: DownloadStatusEnum) -> StatusKindView {
    match s {
        DownloadStatusEnum::Downloading => StatusKindView::Downloading,
        DownloadStatusEnum::Paused => StatusKindView::Paused,
        DownloadStatusEnum::Completed => StatusKindView::Completed,
        DownloadStatusEnum::Waiting => StatusKindView::Waiting,
        DownloadStatusEnum::HasError(e) => StatusKindView::HasError(e@),
    }
}

impl DownloadStatusEnum {
    /// The response variant for an engine status kind, diagnostic and
    /// all.
    pub fn from_kind(k: DownloadStatusKind) -> (r: Self)
        ensures
            status_enum_view(r) == k@,
    {
        match k {
            DownloadStatusKind::Downloading => DownloadStatusEnum::Downloading,
            DownloadStatusKind::Paused => DownloadStatusEnum::Paused,
            DownloadStatusKind::Completed => DownloadStatusEnum::Completed,
            DownloadStatusKind::Waiting => DownloadStatusEnum::Waiting,
            DownloadStatusKind::HasError(e) => DownloadStatusEnum::HasError(e),
        }
    }
}

/// The bulk status query.
pub struct MgetDownloadStatusReq {
    pub filter: Option<Vec<Filter>>,
}

/// A login request.
pub struct LoginReq {
    pub email: String,
    pub password: String,
}

/// A folder listing request.
pub struct RemoteListReq {
    pub path: String,
}

/// A folder listing response.
pub struct RemoteListResp {
    pub files_info: Vec<RemoteListFileStatus>,
    pub base_resp: BaseResp,
}

/// One entry of a folder listing response.
pub struct RemoteListFileStatus {
    pub kind: String,
    pub id: String,
    pub parent_id: String,
    pub name: String,
    pub user_id: String,
    pub size: String,
    pub file_extension: String,
    pub mime_type: String,
    pub created_time: String,
    pub modified_time: String,
    pub icon_link: String,
    pub thumbnail_link: String,
    pub md5_checksum: String,
    pub hash: String,
    pub phase: String,
}

impl RemoteListFileStatus {
    /// The response entry for one engine-side listing entry: the same
    /// fields, moved over.
    pub fn from_status(d: FileStatus) -> (r: Self)
        ensures
            r.kind@ == d.kind@,
            r.id@ == d.id@,
            r.parent_id@ == d.parent_id@,
            r.name@ == d.name@,
            r.user_id@ == d.user_id@,
            r.size@ == d.size@,
            r.file_extension@ == d.file_extension@,
            r.mime_type@ == d.mime_type@,
            r.created_time@ == d.created_time@,
            r.modified_time@ == d.modified_time@,
            r.icon_link@ == d.icon_link@,
            r.thumbnail_link@ == d.thumbnail_link@,
            r.md5_checksum@ == d.md5_checksum@,
            r.hash@ == d.hash@,
            r.phase@ == d.phase@,
    {
        RemoteListFileStatus {
            kind: d.kind,
            id: d.id,
            parent_id: d.parent_id,
            name: d.name,
            user_id: d.user_id,
            size: d.size,
            file_extension: d.file_extension,
            mime_type: d.mime_type,
            created_time: d.created_time,
            modified_time: d.modified_time,
            icon_link: d.icon_link,
            thumbnail_link: d.thumbnail_link,
            md5_checksum: d.md5_checksum,
            hash: d.hash,
            phase: d.phase,
        }
    }
}

/// A request to start a download.
pub struct DownloadBeginReq {
    pub file_id: String,
    pub output_dir: String,
    pub rename: String,
}

/// The response to starting a download.
pub struct DownloadBeginResp {
    pub base_resp: BaseResp,
}

/// A request to pause a download.
pub struct DownloadPauseReq {
    pub file_id: String,
}

/// The response to pausing a download.
pub struct DownloadPauseResp {
    pub base_resp: BaseResp,
}

/// A request to remove a download.
pub struct DownloadRemoveReq {
    pub path: String,
    pub file_id: String,
    pub is_remove_local_file: bool,
}

/// The response to removing a download.
pub struct DownloadRemoveResp {
    pub base_resp: BaseResp,
}

/// A request to resume a download.
pub struct DownloadResumeReq {
    pub file_id: String,
}

/// The response to resuming a download.
pub struct DownloadResumeResp {
    pub base_resp: BaseResp,
}

/// What an issued token certifies: the identity it was issued for.
pub struct TokenData {
    pub email: String,
    pub password: String,
}

impl TokenData {
    /// The identity the token stands for.
    pub fn into_ident(self) -> (r: Ident)
        ensures
            r@.username == self.email@,
            r@.password == self.password@,
    {
        Ident { username: self.email, password: self.password }
    }
}

/// The signed claims of an issued token.
pub struct Claims {
    pub sub: String,
    pub exp: usize,
}

impl Claims {
    /// Whether the claims have expired at the given timestamp.
    pub fn expired_at(&self, now_ts: usize) -> (r: bool)
        ensures
            r == (self.exp < now_ts),
    {
        self.exp < now_ts
    }
}

/// The token part of an authorization header: what follows the
/// `"Bearer "` scheme prefix, or nothing when the scheme is absent.
pub open spec fn bearer_of(h: Seq<char>) -> Option<Seq<char>> {
    if h.len() >= 7 && h.subrange(0, 7) == "Bearer "@ {
        Some(h.skip(7))
    } else {
        None
    }
}

/// Extracts the bearer token from an authorization header.
pub fn bearer_token(header: &str) -> (r: Option<String>)
    ensures
        r is Some <==> bearer_of(header@) is Some,
        r matches Some(t) ==> bearer_of(header@) == Some(t@),
{
    proof {
        reveal_strlit("Bearer ");
    }
    let n = header.unicode_len();
    if n < 7 {
        return None;
    }
    let scheme: [char; 7] = ['B', 'e', 'a', 'r', 'e', 'r', ' '];
    let mut i: usize = 0;
    while i < 7
        invariant
            7 <= n == header@.len(),
            i <= 7,
            scheme@ =~= "Bearer "@,
            forall|k: int| 0 <= k < i ==> header@[k] == "Bearer "@[k],
        decreases 7 - i,
    {
        if header.get_char(i) != scheme[i] {
            proof {
                assert(header@[i as int] != "Bearer "@[i as int]);
                assert(header@.subrange(0, 7) != "Bearer "@) by {
                    assert(header@.subrange(0, 7)[i as int] == header@[i as int]);
                }
            }
            return None;
        }
        i = i + 1;
    }
    proof {
        assert(header@.subrange(0, 7) =~= "Bearer "@);
    }
    let token = header.substring_char(7, n).to_owned();
    proof {
        assert(token@ =~= header@.skip(7));
    }
    Some(token)
}

} // verus!
