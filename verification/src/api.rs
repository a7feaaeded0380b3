//! The client-facing data model: identities, error shapes, request and
//! response types, and the retry options for calls to the remote API.

use vstd::prelude::*;

verus! {

/// A remote identity: the owner key for everything the engine tracks.
pub struct Ident {
    pub username: String,
    pub password: String,
}

/// The identity as contracts see it.
pub struct IdentView {
    pub username: Seq<char>,
    pub password: Seq<char>,
}

impl View for Ident {
    type V = IdentView;

    open spec fn view(&self) -> IdentView {
        IdentView { username: self.username@, password: self.password@ }
    }
}

impl Clone for Ident {
    fn clone(&self) -> (r: Self)
        ensures
            r@ == self@,
    {
        let r = Ident { username: self.username.clone(), password: self.password.clone() };
        proof {
            assert(r@ == self@);
        }
        r
    }
}

/// The error body the remote API answers with.
#[derive(Debug)]
pub struct ErrorResp {
    pub error: String,
    pub error_code: i64,
    pub error_description: String,
    pub details: Vec<Detail>,
}

/// One entry of an API error's detail list.
#[derive(Debug)]
pub struct Detail {
    pub type_field: String,
    pub reason: Option<String>,
    pub locale: Option<String>,
    pub message: Option<String>,
}

/// What a client call can fail with.  Each variant carries an opaque
/// diagnostic.
#[derive(Debug)]
pub enum Error {
    NetworkError(String),
    CloneRequestError(String),
    RespFormatError(String),
    ApiError(ErrorResp),
    Oauth2Error(String),
    RequestError(String),
}


/// A secret kept out of casual display; only deliberate access reads it.
pub struct Password(String);

impl Password {
    pub fn new(secret: String) -> (p: Self)
        ensures
            p@ == secret@,
    {
        Password(secret)
    }

    pub fn as_str(&self) -> (s: &str)
        ensures
            s@ == self@,
    {
        self.0.as_str()
    }
}

impl View for Password {
    type V = Seq<char>;

    closed spec fn view(&self) -> Seq<char> {
        self.0@
    }
}

impl Clone for Password {
    fn clone(&self) -> (r: Self)
        ensures
            r@ == self@,
    {
        Password(self.0.clone())
    }
}

/// The token bundle a login yields.
pub struct AuthTokenType {
    pub access_token: String,
    pub refresh_token: Option<String>,
    /// How long the access token lives.
    pub expires_in_ms: u64,
    pub captcha_token: String,
    pub captcha_refresh_token: String,
}

/// Per-call options for talking to the remote API.
pub struct ApiOption {
    /// `None`: no retry; `Some(0)`: retry forever; `Some(n)`: up to `n`
    /// attempts.
    pub retry_times: Option<usize>,
    pub retry_sleep_duration: Option<core::time::Duration>,
    pub timeout: Option<core::time::Duration>,
}

impl Default for ApiOption {
    fn default() -> (r: Self)
        ensures
            r.retry_times is None,
            r.retry_sleep_duration is None,
            r.timeout is None,
    {
        ApiOption { retry_times: None, retry_sleep_duration: None, timeout: None }
    }
}

/// What the sender does once an attempt has come back.
#[derive(Debug, Copy, Clone, PartialEq, Eq, Structural)]
pub enum RetryDecision {
    /// The response arrived: hand it back.
    Succeed,
    /// Give up and surface the failure.
    GiveUp,
    /// Sleep the configured pause, then try again.
    RetryAfterSleep,
}

impl ApiOption {
    pub fn new() -> (r: Self)
        ensures
            r.retry_times is None,
            r.retry_sleep_duration is None,
            r.timeout is None,
    {
        Self::default()
    }

    pub fn retry_times(self, retry_times: usize) -> (r: Self)
        ensures
            r.retry_times == Some(retry_times),
            r.retry_sleep_duration == self.retry_sleep_duration,
            r.timeout == self.timeout,
    {
        ApiOption { retry_times: Some(retry_times), ..self }
    }

    pub fn timeout(self, timeout: core::time::Duration) -> (r: Self)
        ensures
            r.timeout == Some(timeout),
            r.retry_times == self.retry_times,
            r.retry_sleep_duration == self.retry_sleep_duration,
    {
        ApiOption { timeout: Some(timeout), ..self }
    }

    pub fn retry_sleep_duration(self, retry_sleep_duration: core::time::Duration) -> (r: Self)
        ensures
            r.retry_sleep_duration == Some(retry_sleep_duration),
            r.retry_times == self.retry_times,
            r.timeout == self.timeout,
    {
        ApiOption { retry_sleep_duration: Some(retry_sleep_duration), ..self }
    }

    /// The retry policy, decided after `attempts_done` completed
    /// attempts, the last of which succeeded iff `ok`: a success is
    /// handed back; with no retry setting a failure gives up at once;
    /// a zero setting retries forever; otherwise the failure retries
    /// until the configured number of attempts has been spent.
    pub fn retry_decision(&self, attempts_done: usize, ok: bool) -> (d: RetryDecision)
        requires
            attempts_done >= 1,
        ensures
            ok ==> d is Succeed,
            !ok && self.retry_times is None ==> d is GiveUp,
            !ok && self.retry_times == Some(0usize) ==> d is RetryAfterSleep,
            !ok && (self.retry_times matches Some(n) && n > 0) ==> d == (if attempts_done
                < self.retry_times->0 {
                RetryDecision::RetryAfterSleep
            } else {
                RetryDecision::GiveUp
            }),
    {
        if ok {
            return RetryDecision::Succeed;
        }
        match self.retry_times {
            None => RetryDecision::GiveUp,
            Some(n) => {
                if n == 0 || attempts_done < n {
                    RetryDecision::RetryAfterSleep
                } else {
                    RetryDecision::GiveUp
                }
            },
        }
    }
}

/// A remote entry's id, tagged with whether it is a file or a folder.
#[derive(Debug)]
pub enum FileIDType {
    File(String),
    Folder(String),
}

/// The id either variant carries.
pub open spec fn id_of(f: FileIDType) -> Seq<char> {
    match f {
        FileIDType::File(id) => id@,
        FileIDType::Folder(id) => id@,
    }
}

impl FileIDType {
    pub fn get_id(&self) -> (r: &String)
        ensures
            r@ == id_of(*self),
    {
        match self {
            FileIDType::File(id) => id,
            FileIDType::Folder(id) => id,
        }
    }
}

impl Clone for FileIDType {
    fn clone(&self) -> (r: Self)
        ensures
            id_of(r) == id_of(*self),
            r is File <==> self is File,
    {
        match self {
            FileIDType::File(id) => FileIDType::File(id.clone()),
            FileIDType::Folder(id) => FileIDType::Folder(id.clone()),
        }
    }
}

/// One remote entry of a folder listing.
pub struct FileStatus {
    pub kind: String,
    pub id: String,
    pub parent_id: String,
    pub name: String,
    pub user_id: String,
    pub size: String,
    pub file_extension: String,
    pub mime_type: String,
    pub created_time: String,
    pub modified_time: String,
    pub icon_link: String,
    pub thumbnail_link: String,
    pub md5_checksum: String,
    pub hash: String,
    pub phase: String,
}

/// The links block of a remote file's metadata.
pub struct Links {
    pub application_octet_stream: ApplicationOctetStream,
}

/// The raw-content link of a remote file: where a ranged fetch goes.
pub struct ApplicationOctetStream {
    pub url: String,
    pub token: String,
    pub expire: String,
    pub type_field: String,
}

/// A remote file's full metadata.
pub struct FileType {
    pub kind: String,
    pub id: String,
    pub parent_id: String,
    pub name: String,
    pub user_id: String,
    pub size: String,
    pub revision: String,
    pub file_extension: String,
    pub mime_type: String,
    pub starred: bool,
    pub web_content_link: String,
    pub created_time: String,
    pub modified_time: String,
    pub icon_link: String,
    pub thumbnail_link: String,
    pub md5_checksum: String,
    pub hash: String,
    pub links: Links,
    pub phase: String,
    pub trashed: bool,
    pub delete_time: String,
    pub original_url: String,
    pub original_file_index: i64,
    pub space: String,
    pub writable: bool,
    pub folder_type: String,
    pub sort_name: String,
    pub user_modified_time: String,
    pub file_category: String,
}

/// Client-wide configuration.
pub struct PkiPakApiConfig {
    pub cache_dir: Option<String>,
}

/// A request to start downloading one remote file.
pub struct ApiDownloadReq {
    pub file_id: String,
    pub output_dir: String,
    pub rename: String,
    pub ident: Ident,
}

/// A request to pause one download.
pub struct ApiDownloadPauseReq {
    pub file_id: String,
    pub ident: Ident,
}

/// A request to remove one download.
pub struct ApiDownloadRemoveReq {
    pub file_id: String,
    pub ident: Ident,
    pub need_remove_file: bool,
}

/// A request to resume one download.
pub struct ApiDownloadResumeReq {
    pub file_id: String,
    pub ident: Ident,
}

/// A login request.
pub struct ApiLoginReq {
    pub username: String,
    pub password: Password,
}

/// A bulk status query, optionally narrowed to some status kinds.
pub struct ApiMgetDownloadStatusReq {
    pub filter: Option<Vec<crate::manager::DownloadStatusKind>>,
    pub ident: Ident,
}

/// A folder listing request, by remote path.
pub struct ApiRemoteListReq {
    pub path: String,
    pub ident: Ident,
}

/// A folder listing: the entries found.
pub struct ApiRemoteListResp {
    pub files_info: Vec<FileStatus>,
}

/// What the destination file of a download request is: the output
/// directory and the chosen name, separated unless the directory
/// already ends in one.
pub open spec fn joined_path(dir: Seq<char>, name: Seq<char>) -> Seq<char> {
    if dir.len() == 0 {
        name
    } else if dir[dir.len() - 1] == '/' {
        dir + name
    } else {
        dir + seq!['/'] + name
    }
}

impl ApiDownloadReq {
    /// The local path the downloaded bytes go to.
    pub fn download_to_local_path(&self) -> (r: String)
        ensures
            r@ == joined_path(self.output_dir@, self.rename@),
    {
        proof {
            reveal_strlit("/");
        }
        let n = self.output_dir.as_str().unicode_len();
        if n == 0 {
            return self.rename.clone();
        }
        let mut out = self.output_dir.clone();
        if self.output_dir.as_str().get_char(n - 1) != '/' {
            out.append("/");
        }
        out.append(self.rename.as_str());
        proof {
            assert(out@ =~= joined_path(self.output_dir@, self.rename@));
        }
        out
    }
}

} // verus!
