//! Tracking many transfers: one record per (owner, file id), a
//! cancellation handle per active file, a per-owner concurrency budget,
//! and the waiting / downloading / paused / completed / error life cycle.
//!
//! The manager is the registry and the rules; the surrounding process
//! spawns the driver tasks, performs their network and file work, and
//! reports the outcomes back through the `driver_*` methods.

use vstd::prelude::*;

use crate::api::{Error, Ident, IdentView};

verus! {

/// Life cycle of one tracked file.
#[derive(Debug)]
pub enum DownloadStatusKind {
    Downloading,
    Paused,
    Completed,
    Waiting,
    HasError(String),
}

/// The status as contracts see it.
pub enum StatusKindView {
    Downloading,
    Paused,
    Completed,
    Waiting,
    HasError(Seq<char>),
}

impl View for DownloadStatusKind {
    type V = StatusKindView;

    open spec fn view(&self) -> StatusKindView {
        match self {
            DownloadStatusKind::Downloading => StatusKindView::Downloading,
            DownloadStatusKind::Paused => StatusKindView::Paused,
            DownloadStatusKind::Completed => StatusKindView::Completed,
            DownloadStatusKind::Waiting => StatusKindView::Waiting,
            DownloadStatusKind::HasError(e) => StatusKindView::HasError(e@),
        }
    }
}

impl Clone for DownloadStatusKind {
    fn clone(&self) -> (r: Self)
        ensures
            r@ == self@,
    {
        match self {
            DownloadStatusKind::Downloading => DownloadStatusKind::Downloading,
            DownloadStatusKind::Paused => DownloadStatusKind::Paused,
            DownloadStatusKind::Completed => DownloadStatusKind::Completed,
            DownloadStatusKind::Waiting => DownloadStatusKind::Waiting,
            DownloadStatusKind::HasError(e) => DownloadStatusKind::HasError(e.clone()),
        }
    }
}

/// Same variant; the `HasError` text is an opaque diagnostic, never a
/// match target.
pub open spec fn same_kind(a: StatusKindView, b: StatusKindView) -> bool {
    match (a, b) {
        (StatusKindView::Downloading, StatusKindView::Downloading) => true,
        (StatusKindView::Paused, StatusKindView::Paused) => true,
        (StatusKindView::Completed, StatusKindView::Completed) => true,
        (StatusKindView::Waiting, StatusKindView::Waiting) => true,
        (StatusKindView::HasError(_), StatusKindView::HasError(_)) => true,
        _ => false,
    }
}

impl DownloadStatusKind {
    /// Variant equality, disregarding the error text.
    pub fn kind_eq(&self, other: &DownloadStatusKind) -> (r: bool)
        ensures
            r == same_kind(self@, other@),
    {
        match (self, other) {
            (DownloadStatusKind::Downloading, DownloadStatusKind::Downloading) => true,
            (DownloadStatusKind::Paused, DownloadStatusKind::Paused) => true,
            (DownloadStatusKind::Completed, DownloadStatusKind::Completed) => true,
            (DownloadStatusKind::Waiting, DownloadStatusKind::Waiting) => true,
            (DownloadStatusKind::HasError(_), DownloadStatusKind::HasError(_)) => true,
            _ => false,
        }
    }
}

/// One tracked file: progress counters, location, and life-cycle state.
pub struct DownloadStatus {
    pub total: u64,
    /// Bytes on disk; monotonic while a driver is active.
    pub downloaded: u64,
    /// Rolling estimate of the transfer speed, in bytes per second.
    pub current_speed_bps: u64,
    /// Time spent actively transferring.
    pub downloaded_time_ms: u64,
    pub file_id: String,
    pub remote_file_name: String,
    pub download_to_local_path: String,
    pub status: DownloadStatusKind,
    pub id: Ident,
}

/// The record as contracts see it.
pub struct DownloadStatusRecView {
    pub total: u64,
    pub downloaded: u64,
    pub current_speed_bps: u64,
    pub downloaded_time_ms: u64,
    pub file_id: Seq<char>,
    pub remote_file_name: Seq<char>,
    pub download_to_local_path: Seq<char>,
    pub status: StatusKindView,
    pub id: IdentView,
}

impl View for DownloadStatus {
    type V = DownloadStatusRecView;

    open spec fn view(&self) -> DownloadStatusRecView {
        DownloadStatusRecView {
            total: self.total,
            downloaded: self.downloaded,
            current_speed_bps: self.current_speed_bps,
            downloaded_time_ms: self.downloaded_time_ms,
            file_id: self.file_id@,
            remote_file_name: self.remote_file_name@,
            download_to_local_path: self.download_to_local_path@,
            status: self.status@,
            id: self.id@,
        }
    }
}

impl Clone for DownloadStatus {
    fn clone(&self) -> (r: Self)
        ensures
            r@ == self@,
    {
        let r = DownloadStatus {
            total: self.total,
            downloaded: self.downloaded,
            current_speed_bps: self.current_speed_bps,
            downloaded_time_ms: self.downloaded_time_ms,
            file_id: self.file_id.clone(),
            remote_file_name: self.remote_file_name.clone(),
            download_to_local_path: self.download_to_local_path.clone(),
            status: self.status.clone(),
            id: self.id.clone(),
        };
        proof {
            assert(r@ == self@);
        }
        r
    }
}

/// The records' views, in registry order.
pub open spec fn views_of(rs: Seq<DownloadStatus>) -> Seq<DownloadStatusRecView> {
    rs.map_values(|r: DownloadStatus| r@)
}

/// The record belongs to this owner and file id.
pub open spec fn rec_key_is(r: DownloadStatusRecView, owner: Seq<char>, fid: Seq<char>) -> bool {
    r.id.username == owner && r.file_id == fid
}

/// Some record in the registry has this owner and file id.
pub open spec fn has_record(rs: Seq<DownloadStatusRecView>, owner: Seq<char>, fid: Seq<char>) -> bool {
    exists|i: int| 0 <= i < rs.len() && rec_key_is(#[trigger] rs[i], owner, fid)
}

/// This record counts against the owner's concurrency budget.
pub open spec fn dl_contrib(r: DownloadStatusRecView, owner: Seq<char>) -> int {
    if r.id.username == owner && r.status is Downloading {
        1int
    } else {
        0int
    }
}

/// How many of the owner's records are actively downloading.
pub open spec fn count_downloading(rs: Seq<DownloadStatusRecView>, owner: Seq<char>) -> int
    decreases rs.len(),
{
    if rs.len() == 0 {
        0
    } else {
        dl_contrib(rs[0], owner) + count_downloading(rs.drop_first(), owner)
    }
}

/// The owner's permit count in the budget table (zero when absent).
pub open spec fn used_of(ps: Seq<(Seq<char>, u64)>, owner: Seq<char>) -> int
    decreases ps.len(),
{
    if ps.len() == 0 {
        0
    } else if ps[0].0 == owner {
        ps[0].1 as int
    } else {
        used_of(ps.drop_first(), owner)
    }
}

/// The budget table knows this owner.
pub open spec fn has_perm(ps: Seq<(Seq<char>, u64)>, owner: Seq<char>) -> bool {
    exists|i: int| 0 <= i < ps.len() && (#[trigger] ps[i]).0 == owner
}

proof fn lemma_count_push(rs: Seq<DownloadStatusRecView>, r: DownloadStatusRecView, o: Seq<char>)
    ensures
        count_downloading(rs.push(r), o) == count_downloading(rs, o) + dl_contrib(r, o),
    decreases rs.len(),
{
    if rs.len() == 0 {
        assert(rs.push(r).drop_first() =~= rs);
    } else {
        lemma_count_push(rs.drop_first(), r, o);
        assert(rs.push(r).drop_first() =~= rs.drop_first().push(r));
    }
}

proof fn lemma_count_update(
    rs: Seq<DownloadStatusRecView>,
    i: int,
    r: DownloadStatusRecView,
    o: Seq<char>,
)
    requires
        0 <= i < rs.len(),
    ensures
        count_downloading(rs.update(i, r), o) == count_downloading(rs, o) - dl_contrib(rs[i], o)
            + dl_contrib(r, o),
    decreases rs.len(),
{
    if i == 0 {
        assert(rs.update(0, r).drop_first() =~= rs.drop_first());
        assert(rs.update(0, r)[0] == r);
    } else {
        lemma_count_update(rs.drop_first(), i - 1, r, o);
        assert(rs.update(i, r).drop_first() =~= rs.drop_first().update(i - 1, r));
        assert(rs.update(i, r)[0] == rs[0]);
    }
}

proof fn lemma_count_remove(rs: Seq<DownloadStatusRecView>, i: int, o: Seq<char>)
    requires
        0 <= i < rs.len(),
    ensures
        count_downloading(rs.remove(i), o) == count_downloading(rs, o) - dl_contrib(rs[i], o),
    decreases rs.len(),
{
    if i == 0 {
        assert(rs.remove(0) =~= rs.drop_first());
    } else {
        lemma_count_remove(rs.drop_first(), i - 1, o);
        assert(rs.remove(i).drop_first() =~= rs.drop_first().remove(i - 1));
        assert(rs.remove(i)[0] == rs[0]);
    }
}

proof fn lemma_used_push(ps: Seq<(Seq<char>, u64)>, p: (Seq<char>, u64), o: Seq<char>)
    requires
        !has_perm(ps, p.0),
    ensures
        used_of(ps.push(p), o) == if p.0 == o {
            p.1 as int
        } else {
            used_of(ps, o)
        },
    decreases ps.len(),
{
    if ps.len() == 0 {
        assert(ps.push(p).drop_first() =~= ps);
        assert(ps.push(p)[0] == p);
    } else {
        assert(!has_perm(ps.drop_first(), p.0)) by {
            assert(forall|k: int|
                0 <= k < ps.drop_first().len() ==> (#[trigger] ps.drop_first()[k]) == ps[k + 1]);
        }
        lemma_used_push(ps.drop_first(), p, o);
        assert(ps.push(p).drop_first() =~= ps.drop_first().push(p));
        assert(ps.push(p)[0] == ps[0]);
        assert(ps[0].0 != p.0);
    }
}

proof fn lemma_used_update(ps: Seq<(Seq<char>, u64)>, j: int, v: u64, o: Seq<char>)
    requires
        0 <= j < ps.len(),
        forall|a: int, b: int| 0 <= a < b < ps.len() ==> (#[trigger] ps[a]).0 != (#[trigger] ps[b]).0,
    ensures
        used_of(ps.update(j, (ps[j].0, v)), o) == if ps[j].0 == o {
            v as int
        } else {
            used_of(ps, o)
        },
    decreases ps.len(),
{
    let ps2 = ps.update(j, (ps[j].0, v));
    if j == 0 {
        assert(ps2.drop_first() =~= ps.drop_first());
        assert(ps2[0] == (ps[0].0, v));
    } else {
        assert(forall|k: int|
            0 <= k < ps.drop_first().len() ==> (#[trigger] ps.drop_first()[k]) == ps[k + 1]);
        lemma_used_update(ps.drop_first(), j - 1, v, o);
        assert(ps2.drop_first() =~= ps.drop_first().update(j - 1, (ps[j].0, v)));
        assert(ps2[0] == ps[0]);
        assert(ps[0].0 != ps[j].0);
    }
}


/// One owner's entry in the concurrency-budget table.
struct OwnerPermits {
    owner: String,
    used: u64,
}

/// What a successful `start_download` asks of the caller.
#[derive(Debug, Copy, Clone, PartialEq, Eq, Structural)]
pub enum StartAction {
    /// A fresh record was registered: spawn its driver task.
    SpawnDriver,
    /// The transfer was already tracked; nothing to do.
    AlreadyTracked,
}

/// A status in which a transfer needs no new driver.
pub open spec fn busy_status(s: StatusKindView) -> bool {
    s is Downloading || s is Waiting || s is Completed
}

/// The record of this owner and file id (meaningful only when
/// `has_record` holds; the registry keeps keys unique).
pub open spec fn record_at(
    rs: Seq<DownloadStatusRecView>,
    owner: Seq<char>,
    fid: Seq<char>,
) -> DownloadStatusRecView {
    rs[choose|i: int| 0 <= i < rs.len() && rec_key_is(rs[i], owner, fid)]
}

/// The registry of transfers and the rules over it.
pub struct DownloadManager {
    records: Vec<DownloadStatus>,
    /// File ids with a live cancellation handle.
    active: Vec<String>,
    permits: Vec<OwnerPermits>,
    permit_capacity: u64,
}

impl DownloadManager {
    pub closed spec fn spec_records(self) -> Seq<DownloadStatusRecView> {
        views_of(self.records@)
    }

    pub closed spec fn spec_active(self) -> Seq<Seq<char>> {
        self.active@.map_values(|s: String| s@)
    }

    pub closed spec fn spec_permits(self) -> Seq<(Seq<char>, u64)> {
        self.permits@.map_values(|p: OwnerPermits| (p.owner@, p.used))
    }

    pub closed spec fn spec_capacity(self) -> u64 {
        self.permit_capacity
    }

    /// The manager's internal invariant: unique record keys, unique
    /// handles, a consistent budget table, and every owner's permit
    /// count equal to its number of actively downloading records and
    /// bounded by the capacity.
    pub closed spec fn wf(self) -> bool {
        &&& 1 <= self.permit_capacity
        &&& (forall|i: int, j: int|
            0 <= i < j < self.spec_records().len() ==> !rec_key_is(
                #[trigger] self.spec_records()[i],
                (#[trigger] self.spec_records()[j]).id.username,
                self.spec_records()[j].file_id,
            ))
        &&& (forall|i: int, j: int|
            0 <= i < j < self.spec_active().len() ==> (#[trigger] self.spec_active()[i]) != (
            #[trigger] self.spec_active()[j]))
        &&& (forall|i: int, j: int|
            0 <= i < j < self.spec_permits().len() ==> (#[trigger] self.spec_permits()[i]).0 != (
            #[trigger] self.spec_permits()[j]).0)
        &&& (forall|i: int|
            0 <= i < self.spec_permits().len() ==> (#[trigger] self.spec_permits()[i]).1
                <= self.permit_capacity)
        &&& (forall|o: Seq<char>|
            #[trigger] used_of(self.spec_permits(), o) == count_downloading(
                self.spec_records(),
                o,
            ))
    }

    /// Starting the same transfer again would change nothing: a handle
    /// is live, or the record sits in a busy status.
    pub open spec fn start_is_noop(self, owner: Seq<char>, fid: Seq<char>) -> bool {
        self.spec_active().contains(fid) || (has_record(self.spec_records(), owner, fid)
            && busy_status(record_at(self.spec_records(), owner, fid).status))
    }

    /// An empty registry with the given per-owner concurrency capacity.
    pub fn new(permit_capacity: u64) -> (m: Self)
        requires
            1 <= permit_capacity,
        ensures
            m.wf(),
            m.spec_records().len() == 0,
            m.spec_active().len() == 0,
            m.spec_permits().len() == 0,
            m.spec_capacity() == permit_capacity,
    {
        let m = DownloadManager {
            records: Vec::new(),
            active: Vec::new(),
            permits: Vec::new(),
            permit_capacity,
        };
        proof {
            assert(m.spec_records() =~= Seq::<DownloadStatusRecView>::empty());
            assert(m.spec_active() =~= Seq::<Seq<char>>::empty());
            assert(m.spec_permits() =~= Seq::<(Seq<char>, u64)>::empty());
            assert forall|o: Seq<char>|
                #[trigger] used_of(m.spec_permits(), o) == count_downloading(
                    m.spec_records(),
                    o,
                ) by {
                assert(used_of(m.spec_permits(), o) == 0);
                assert(count_downloading(m.spec_records(), o) == 0);
            }
        }
        m
    }

    fn find_record_index(&self, username: &String, file_id: &String) -> (r: Option<usize>)
        ensures
            r matches Some(i) ==> i < self.spec_records().len() && rec_key_is(
                self.spec_records()[i as int],
                username@,
                file_id@,
            ),
            r is None ==> !has_record(self.spec_records(), username@, file_id@),
    {
        let mut i: usize = 0;
        while i < self.records.len()
            invariant
                i <= self.records@.len(),
                forall|k: int|
                    0 <= k < i ==> !rec_key_is(
                        #[trigger] self.spec_records()[k],
                        username@,
                        file_id@,
                    ),
            decreases self.records@.len() - i,
        {
            if self.records[i].id.username == *username && self.records[i].file_id == *file_id {
                return Some(i);
            }
            i = i + 1;
        }
        None
    }

    fn find_active_index(&self, file_id: &String) -> (r: Option<usize>)
        ensures
            r matches Some(i) ==> i < self.spec_active().len() && self.spec_active()[i as int]
                == file_id@,
            r is None ==> !self.spec_active().contains(file_id@),
    {
        let mut i: usize = 0;
        while i < self.active.len()
            invariant
                i <= self.active@.len(),
                forall|k: int| 0 <= k < i ==> #[trigger] self.spec_active()[k] != file_id@,
            decreases self.active@.len() - i,
        {
            if self.active[i] == *file_id {
                return Some(i);
            }
            i = i + 1;
        }
        proof {
            assert forall|k: int|
                0 <= k < self.spec_active().len() implies #[trigger] self.spec_active()[k]
                != file_id@ by {}
        }
        None
    }

    fn find_permit_index(&self, username: &String) -> (r: Option<usize>)
        ensures
            r matches Some(i) ==> i < self.spec_permits().len() && self.spec_permits()[i as int].0
                == username@,
            r is None ==> !has_perm(self.spec_permits(), username@),
    {
        let mut i: usize = 0;
        while i < self.permits.len()
            invariant
                i <= self.permits@.len(),
                forall|k: int| 0 <= k < i ==> (#[trigger] self.spec_permits()[k]).0 != username@,
            decreases self.permits@.len() - i,
        {
            if self.permits[i].owner == *username {
                return Some(i);
            }
            i = i + 1;
        }
        None
    }

    /// Registers a new transfer.  If a handle is live for this file id,
    /// or the record already sits in a waiting, downloading or completed
    /// state, nothing changes and the call succeeds with nothing to do;
    /// the same holds when the destination path already exists on disk
    /// (the caller checks and passes that in).  Otherwise a fresh
    /// record enters the registry in the waiting state, with a live
    /// handle, and the caller must spawn the driver.
    pub fn start_download(
        &mut self,
        file_id: String,
        download_to_local_path: String,
        id: &Ident,
        remote_file_name: String,
        remote_file_size: u64,
        path_exists: bool,
    ) -> (r: Result<StartAction, Error>)
        requires
            old(self).wf(),
        ensures
            final(self).wf(),
            r is Ok,
            final(self).spec_capacity() == old(self).spec_capacity(),
            old(self).start_is_noop(id@.username, file_id@) ==> *final(self) == *old(self) && (
            r matches Ok(a) && a is AlreadyTracked),
            !old(self).start_is_noop(id@.username, file_id@) && path_exists ==> *final(self)
                == *old(self) && (r matches Ok(a) && a is AlreadyTracked),
            !old(self).start_is_noop(id@.username, file_id@) && !path_exists ==> {
                &&& r matches Ok(a) && a is SpawnDriver
                &&& final(self).start_is_noop(id@.username, file_id@)
                &&& has_record(final(self).spec_records(), id@.username, file_id@)
                &&& record_at(final(self).spec_records(), id@.username, file_id@) == (
                DownloadStatusRecView {
                    total: remote_file_size,
                    downloaded: 0,
                    current_speed_bps: 0,
                    downloaded_time_ms: 0,
                    file_id: file_id@,
                    remote_file_name: remote_file_name@,
                    download_to_local_path: download_to_local_path@,
                    status: StatusKindView::Waiting,
                    id: id@,
                })
                &&& final(self).spec_active().contains(file_id@)
                &&& final(self).spec_permits() == old(self).spec_permits()
                &&& (forall|f: Seq<char>|
                    f != file_id@ ==> (#[trigger] final(self).spec_active().contains(f)
                        <==> old(self).spec_active().contains(f)))
                &&& (forall|o2: Seq<char>, f2: Seq<char>|
                    !(o2 == id@.username && f2 == file_id@) ==> (#[trigger] has_record(
                        final(self).spec_records(),
                        o2,
                        f2,
                    ) <==> has_record(old(self).spec_records(), o2, f2)))
                &&& (forall|o2: Seq<char>, f2: Seq<char>|
                    !(o2 == id@.username && f2 == file_id@) && #[trigger] has_record(
                        old(self).spec_records(),
                        o2,
                        f2,
                    ) ==> record_at(final(self).spec_records(), o2, f2) == record_at(
                        old(self).spec_records(),
                        o2,
                        f2,
                    ))
            },
    {
        if self.find_active_index(&file_id).is_some() {
            proof {
                assert(self.spec_active().contains(file_id@));
            }
            return Ok(StartAction::AlreadyTracked);
        }
        let existing = self.find_record_index(&id.username, &file_id);
        if let Some(i) = existing {
            let busy = match &self.records[i].status {
                DownloadStatusKind::Downloading => true,
                DownloadStatusKind::Waiting => true,
                DownloadStatusKind::Completed => true,
                _ => false,
            };
            if busy {
                proof {
                    lemma_record_at_member(self.spec_records(), i as int, id@.username, file_id@);
                }
                return Ok(StartAction::AlreadyTracked);
            }
        }
        if path_exists {
            return Ok(StartAction::AlreadyTracked);
        }
        let fresh = DownloadStatus {
            total: remote_file_size,
            downloaded: 0,
            current_speed_bps: 0,
            downloaded_time_ms: 0,
            file_id: file_id.clone(),
            remote_file_name,
            download_to_local_path,
            status: DownloadStatusKind::Waiting,
            id: id.clone(),
        };
        let ghost pre = *self;
        match existing {
            Some(i) => {
                proof {
                    lemma_record_at_member(self.spec_records(), i as int, id@.username, file_id@);
                }
                self.records[i] = fresh;
                proof {
                    assert(self.spec_records() =~= pre.spec_records().update(i as int, fresh@));
                    lemma_start_replace_ok(pre, *self, i as int, fresh@, id@.username, file_id@);
                }
            },
            None => {
                self.records.push(fresh);
                proof {
                    assert(self.spec_records() =~= pre.spec_records().push(fresh@));
                    lemma_start_push_ok(pre, *self, fresh@, id@.username, file_id@);
                }
            },
        }
        let ghost mid = *self;
        self.active.push(file_id);
        proof {
            assert(self.spec_active() =~= mid.spec_active().push(fresh@.file_id));
            assert(self.spec_records() == mid.spec_records());
            assert(self.spec_permits() == mid.spec_permits());
            assert(self.spec_active()[self.spec_active().len() - 1] == fresh@.file_id);
            assert(self.spec_active().contains(fresh@.file_id));
            assert forall|f: Seq<char>|
                f != fresh@.file_id implies (#[trigger] self.spec_active().contains(f)
                <==> mid.spec_active().contains(f)) by {
                if self.spec_active().contains(f) {
                    let k = choose|k: int|
                        0 <= k < self.spec_active().len() && self.spec_active()[k] == f;
                    assert(mid.spec_active()[k] == f);
                }
                if mid.spec_active().contains(f) {
                    let k = choose|k: int|
                        0 <= k < mid.spec_active().len() && mid.spec_active()[k] == f;
                    assert(self.spec_active()[k] == f);
                }
            }
            assert forall|i: int, j: int|
                0 <= i < j < self.spec_active().len() implies (#[trigger] self.spec_active()[i])
                != (#[trigger] self.spec_active()[j]) by {
                if j == self.spec_active().len() - 1 {
                    assert(mid.spec_active()[i] == self.spec_active()[i]);
                    assert(!mid.spec_active().contains(fresh@.file_id));
                }
            }
        }
        Ok(StartAction::SpawnDriver)
    }

    /// The driver asks for its owner's concurrency permit.  Granted
    /// exactly when the owner is below the capacity; the record then
    /// moves to the downloading state.  Denied, nothing changes and the
    /// driver must wait for a release.
    pub fn acquire_permit(&mut self, id: &Ident, file_id: &String) -> (granted: bool)
        requires
            old(self).wf(),
            has_record(old(self).spec_records(), id@.username, file_id@),
            record_at(old(self).spec_records(), id@.username, file_id@).status is Waiting,
        ensures
            final(self).wf(),
            final(self).spec_capacity() == old(self).spec_capacity(),
            granted == (used_of(old(self).spec_permits(), id@.username) < old(
                self,
            ).spec_capacity()),
            !granted ==> *final(self) == *old(self),
            granted ==> {
                &&& final(self).spec_active() == old(self).spec_active()
                &&& record_at(final(self).spec_records(), id@.username, file_id@) == (
                DownloadStatusRecView {
                    status: StatusKindView::Downloading,
                    ..record_at(old(self).spec_records(), id@.username, file_id@)
                })
                &&& (forall|o2: Seq<char>, f2: Seq<char>|
                    #[trigger] has_record(final(self).spec_records(), o2, f2) <==> has_record(
                        old(self).spec_records(),
                        o2,
                        f2,
                    ))
                &&& (forall|o2: Seq<char>, f2: Seq<char>|
                    !(o2 == id@.username && f2 == file_id@) && #[trigger] has_record(
                        old(self).spec_records(),
                        o2,
                        f2,
                    ) ==> record_at(final(self).spec_records(), o2, f2) == record_at(
                        old(self).spec_records(),
                        o2,
                        f2,
                    ))
                &&& used_of(final(self).spec_permits(), id@.username) == used_of(
                    old(self).spec_permits(),
                    id@.username,
                ) + 1
                &&& (forall|o: Seq<char>|
                    o != id@.username ==> #[trigger] used_of(final(self).spec_permits(), o)
                        == used_of(old(self).spec_permits(), o))
            },
    {
        let ghost pre = *self;
        let ri = match self.find_record_index(&id.username, file_id) {
            Some(i) => i,
            None => {
                return unreached();
            },
        };
        proof {
            lemma_record_at_member(pre.spec_records(), ri as int, id@.username, file_id@);
        }
        let granted: bool;
        match self.find_permit_index(&id.username) {
            Some(j) => {
                proof {
                    lemma_used_of_member(pre.spec_permits(), j as int, id@.username);
                }
                if self.permits[j].used < self.permit_capacity {
                    let u = self.permits[j].used;
                    self.permits[j].used = u + 1;
                    proof {
                        assert(self.spec_permits() =~= pre.spec_permits().update(
                            j as int,
                            (pre.spec_permits()[j as int].0, (u + 1) as u64),
                        ));
                        lemma_used_update(pre.spec_permits(), j as int, (u + 1) as u64, id@.username);
                        assert forall|o: Seq<char>|
                            o != id@.username implies #[trigger] used_of(self.spec_permits(), o)
                            == used_of(pre.spec_permits(), o) by {
                            lemma_used_update(pre.spec_permits(), j as int, (u + 1) as u64, o);
                        }
                        assert forall|a: int, b: int|
                            0 <= a < b < self.spec_permits().len() implies (
                        #[trigger] self.spec_permits()[a]).0 != (
                        #[trigger] self.spec_permits()[b]).0 by {
                            assert(self.spec_permits()[a].0 == pre.spec_permits()[a].0);
                            assert(self.spec_permits()[b].0 == pre.spec_permits()[b].0);
                        }
                    }
                    granted = true;
                } else {
                    return false;
                }
            },
            None => {
                proof {
                    lemma_used_of_absent(pre.spec_permits(), id@.username);
                }
                self.permits.push(OwnerPermits { owner: id.username.clone(), used: 1 });
                proof {
                    assert(self.spec_permits() =~= pre.spec_permits().push((id@.username, 1u64)));
                    lemma_used_push(pre.spec_permits(), (id@.username, 1u64), id@.username);
                    assert forall|o: Seq<char>|
                        o != id@.username implies #[trigger] used_of(self.spec_permits(), o)
                        == used_of(pre.spec_permits(), o) by {
                        lemma_used_push(pre.spec_permits(), (id@.username, 1u64), o);
                    }
                    assert forall|a: int, b: int|
                        0 <= a < b < self.spec_permits().len() implies (
                    #[trigger] self.spec_permits()[a]).0 != (
                    #[trigger] self.spec_permits()[b]).0 by {
                        if b == self.spec_permits().len() - 1 {
                            assert(self.spec_permits()[a] == pre.spec_permits()[a]);
                            assert(!has_perm(pre.spec_permits(), id@.username));
                        } else {
                            assert(self.spec_permits()[a] == pre.spec_permits()[a]);
                            assert(self.spec_permits()[b] == pre.spec_permits()[b]);
                        }
                    }
                }
                granted = true;
            },
        }
        let ghost mid = *self;
        let old_rec = self.records[ri].clone();
        let updated = DownloadStatus { status: DownloadStatusKind::Downloading, ..old_rec };
        self.records[ri] = updated;
        proof {
            assert(self.spec_permits() =~= mid.spec_permits());
            assert(self.spec_active() =~= pre.spec_active());
            assert(mid.spec_records() =~= pre.spec_records());
            let rv2 = (DownloadStatusRecView {
                status: StatusKindView::Downloading,
                ..pre.spec_records()[ri as int]
            });
            assert(self.spec_records() =~= pre.spec_records().update(ri as int, rv2));
            lemma_update_in_place(pre.spec_records(), ri as int, rv2);
            assert forall|o: Seq<char>|
                #[trigger] used_of(self.spec_permits(), o) == count_downloading(
                    self.spec_records(),
                    o,
                ) by {
                lemma_count_update(pre.spec_records(), ri as int, rv2, o);
                assert(count_downloading(self.spec_records(), o) == count_downloading(
                    pre.spec_records(),
                    o,
                ) - dl_contrib(pre.spec_records()[ri as int], o) + dl_contrib(rv2, o));
            }
        }
        granted
    }

    /// The driver reports how its run ended: the record takes the final
    /// status — completed on a full transfer, paused on cancellation,
    /// an error on a rejected resume or an aborted run — and the
    /// owner's permit is released.
    pub fn driver_finish(&mut self, id: &Ident, file_id: &String, outcome: DriverOutcome)
        requires
            old(self).wf(),
            has_record(old(self).spec_records(), id@.username, file_id@),
            record_at(old(self).spec_records(), id@.username, file_id@).status is Downloading,
        ensures
            final(self).wf(),
            final(self).spec_capacity() == old(self).spec_capacity(),
            final(self).spec_active() == old(self).spec_active(),
            record_at(final(self).spec_records(), id@.username, file_id@) == (
            DownloadStatusRecView {
                status: outcome_status(outcome),
                ..record_at(old(self).spec_records(), id@.username, file_id@)
            }),
            forall|o2: Seq<char>, f2: Seq<char>|
                #[trigger] has_record(final(self).spec_records(), o2, f2) <==> has_record(
                    old(self).spec_records(),
                    o2,
                    f2,
                ),
            forall|o2: Seq<char>, f2: Seq<char>|
                !(o2 == id@.username && f2 == file_id@) && #[trigger] has_record(
                    old(self).spec_records(),
                    o2,
                    f2,
                ) ==> record_at(final(self).spec_records(), o2, f2) == record_at(
                    old(self).spec_records(),
                    o2,
                    f2,
                ),
            used_of(final(self).spec_permits(), id@.username) == used_of(
                old(self).spec_permits(),
                id@.username,
            ) - 1,
            forall|o: Seq<char>|
                o != id@.username ==> #[trigger] used_of(final(self).spec_permits(), o) == used_of(
                    old(self).spec_permits(),
                    o,
                ),
    {
        let ghost pre = *self;
        let ghost out0 = outcome;
        let ri = match self.find_record_index(&id.username, file_id) {
            Some(i) => i,
            None => {
                return unreached();
            },
        };
        proof {
            lemma_record_at_member(pre.spec_records(), ri as int, id@.username, file_id@);
            lemma_count_lower(pre.spec_records(), ri as int, id@.username);
        }
        let j = match self.find_permit_index(&id.username) {
            Some(j) => j,
            None => {
                proof {
                    lemma_used_of_absent(pre.spec_permits(), id@.username);
                }
                return unreached();
            },
        };
        proof {
            lemma_used_of_member(pre.spec_permits(), j as int, id@.username);
        }
        let u = self.permits[j].used;
        self.permits[j].used = u - 1;
        proof {
            assert(self.spec_permits() =~= pre.spec_permits().update(
                j as int,
                (pre.spec_permits()[j as int].0, (u - 1) as u64),
            ));
            lemma_used_update(pre.spec_permits(), j as int, (u - 1) as u64, id@.username);
            assert forall|o: Seq<char>|
                o != id@.username implies #[trigger] used_of(self.spec_permits(), o) == used_of(
                pre.spec_permits(),
                o,
            ) by {
                lemma_used_update(pre.spec_permits(), j as int, (u - 1) as u64, o);
            }
            assert forall|a: int, b: int|
                0 <= a < b < self.spec_permits().len() implies (
            #[trigger] self.spec_permits()[a]).0 != (#[trigger] self.spec_permits()[b]).0 by {
                assert(self.spec_permits()[a].0 == pre.spec_permits()[a].0);
                assert(self.spec_permits()[b].0 == pre.spec_permits()[b].0);
            }
        }
        let ghost mid = *self;
        let new_status = match outcome {
            DriverOutcome::Completed => DownloadStatusKind::Completed,
            DriverOutcome::Cancelled => DownloadStatusKind::Paused,
            DriverOutcome::ResumeFailed => DownloadStatusKind::HasError(
                "resume failed".to_owned(),
            ),
            DriverOutcome::Failed(e) => DownloadStatusKind::HasError(e),
        };
        proof {
            assert(new_status@ == outcome_status(out0));
        }
        let old_rec = self.records[ri].clone();
        let updated = DownloadStatus { status: new_status, ..old_rec };
        self.records[ri] = updated;
        proof {
            assert(self.spec_permits() =~= mid.spec_permits());
            assert(self.spec_active() =~= pre.spec_active());
            assert(mid.spec_records() =~= pre.spec_records());
            let rv2 = (DownloadStatusRecView {
                status: outcome_status(out0),
                ..pre.spec_records()[ri as int]
            });
            assert(self.spec_records() =~= pre.spec_records().update(ri as int, rv2));
            lemma_update_in_place(pre.spec_records(), ri as int, rv2);
            assert forall|o: Seq<char>|
                #[trigger] used_of(self.spec_permits(), o) == count_downloading(
                    self.spec_records(),
                    o,
                ) by {
                lemma_count_update(pre.spec_records(), ri as int, rv2, o);
                assert(count_downloading(self.spec_records(), o) == count_downloading(
                    pre.spec_records(),
                    o,
                ) - dl_contrib(pre.spec_records()[ri as int], o) + dl_contrib(rv2, o));
                if o != id@.username {
                    lemma_used_update(pre.spec_permits(), j as int, (u - 1) as u64, o);
                }
            }
        }
    }

    /// Pauses a transfer: the cancellation handle is triggered and
    /// leaves the active set.  The record keeps whatever status its
    /// driver settles into when it observes the cancellation.
    pub fn pause_download(&mut self, file_id: &String, _id: &Ident)
        requires
            old(self).wf(),
        ensures
            final(self).wf(),
            final(self).spec_records() == old(self).spec_records(),
            final(self).spec_permits() == old(self).spec_permits(),
            final(self).spec_capacity() == old(self).spec_capacity(),
            !final(self).spec_active().contains(file_id@),
            forall|f: Seq<char>|
                f != file_id@ ==> (#[trigger] final(self).spec_active().contains(f)
                    <==> old(self).spec_active().contains(f)),
    {
        let ghost pre = *self;
        match self.find_active_index(file_id) {
            Some(i) => {
                self.active.remove(i);
                proof {
                    assert(self.spec_active() =~= pre.spec_active().remove(i as int));
                    assert(self.spec_records() =~= pre.spec_records());
                    assert(self.spec_permits() =~= pre.spec_permits());
                    lemma_active_remove(pre.spec_active(), i as int);
                }
            },
            None => {},
        }
    }

    /// Resumes a waiting or paused transfer: a fresh handle enters the
    /// active set and the caller must spawn the driver again.  Anything
    /// else — unknown id, busy or failed record, handle already live —
    /// changes nothing.
    pub fn resume_download(&mut self, file_id: &String, id: &Ident) -> (spawn: bool)
        requires
            old(self).wf(),
        ensures
            final(self).wf(),
            final(self).spec_records() == old(self).spec_records(),
            final(self).spec_permits() == old(self).spec_permits(),
            final(self).spec_capacity() == old(self).spec_capacity(),
            spawn == (!old(self).spec_active().contains(file_id@) && has_record(
                old(self).spec_records(),
                id@.username,
                file_id@,
            ) && (record_at(old(self).spec_records(), id@.username, file_id@).status is Waiting
                || record_at(old(self).spec_records(), id@.username, file_id@).status is Paused)),
            !spawn ==> *final(self) == *old(self),
            spawn ==> final(self).spec_active().contains(file_id@),
            spawn ==> forall|f: Seq<char>|
                f != file_id@ ==> (#[trigger] final(self).spec_active().contains(f)
                    <==> old(self).spec_active().contains(f)),
    {
        let ghost pre = *self;
        if self.find_active_index(file_id).is_some() {
            proof {
                assert(pre.spec_active().contains(file_id@));
            }
            return false;
        }
        let ri = match self.find_record_index(&id.username, file_id) {
            Some(i) => i,
            None => {
                return false;
            },
        };
        proof {
            lemma_record_at_member(pre.spec_records(), ri as int, id@.username, file_id@);
        }
        let eligible = match &self.records[ri].status {
            DownloadStatusKind::Waiting => true,
            DownloadStatusKind::Paused => true,
            _ => false,
        };
        if !eligible {
            return false;
        }
        self.active.push(file_id.clone());
        proof {
            assert(self.spec_active() =~= pre.spec_active().push(file_id@));
            assert(self.spec_records() =~= pre.spec_records());
            assert(self.spec_permits() =~= pre.spec_permits());
            lemma_active_push(pre.spec_active(), file_id@);
        }
        true
    }

    /// Removes a transfer: cancels it if active and deletes the record.
    /// Deleting the local file, when asked for, is the caller's
    /// business.
    pub fn remove_download(&mut self, file_id: &String, id: &Ident)
        requires
            old(self).wf(),
        ensures
            final(self).wf(),
            final(self).spec_capacity() == old(self).spec_capacity(),
            !has_record(final(self).spec_records(), id@.username, file_id@),
            forall|o2: Seq<char>, f2: Seq<char>|
                !(o2 == id@.username && f2 == file_id@) ==> (#[trigger] has_record(
                    final(self).spec_records(),
                    o2,
                    f2,
                ) <==> has_record(old(self).spec_records(), o2, f2)),
            forall|o2: Seq<char>, f2: Seq<char>|
                !(o2 == id@.username && f2 == file_id@) && #[trigger] has_record(
                    old(self).spec_records(),
                    o2,
                    f2,
                ) ==> record_at(final(self).spec_records(), o2, f2) == record_at(
                    old(self).spec_records(),
                    o2,
                    f2,
                ),
            !final(self).spec_active().contains(file_id@),
            forall|f: Seq<char>|
                f != file_id@ ==> (#[trigger] final(self).spec_active().contains(f)
                    <==> old(self).spec_active().contains(f)),
    {
        let ghost pre = *self;
        match self.find_active_index(file_id) {
            Some(i) => {
                self.active.remove(i);
                proof {
                    assert(self.spec_active() =~= pre.spec_active().remove(i as int));
                    assert(self.spec_records() =~= pre.spec_records());
                    assert(self.spec_permits() =~= pre.spec_permits());
                    lemma_active_remove(pre.spec_active(), i as int);
                }
            },
            None => {},
        }
        let ghost mid = *self;
        let ri = match self.find_record_index(&id.username, file_id) {
            Some(i) => i,
            None => {
                return ;
            },
        };
        proof {
            lemma_record_at_member(pre.spec_records(), ri as int, id@.username, file_id@);
        }
        let was_downloading = match &self.records[ri].status {
            DownloadStatusKind::Downloading => true,
            _ => false,
        };
        if was_downloading {
            proof {
                lemma_count_lower(pre.spec_records(), ri as int, id@.username);
            }
            let j = match self.find_permit_index(&id.username) {
                Some(j) => j,
                None => {
                    proof {
                        lemma_used_of_absent(pre.spec_permits(), id@.username);
                    }
                    return unreached();
                },
            };
            proof {
                lemma_used_of_member(pre.spec_permits(), j as int, id@.username);
            }
            let u = self.permits[j].used;
            self.permits[j].used = u - 1;
            proof {
                assert(self.spec_permits() =~= pre.spec_permits().update(
                    j as int,
                    (pre.spec_permits()[j as int].0, (u - 1) as u64),
                ));
                assert(self.spec_records() =~= pre.spec_records());
                assert(self.spec_active() =~= mid.spec_active());
                assert forall|a: int, b: int|
                    0 <= a < b < self.spec_permits().len() implies (
                #[trigger] self.spec_permits()[a]).0 != (#[trigger] self.spec_permits()[b]).0 by {
                    assert(self.spec_permits()[a].0 == pre.spec_permits()[a].0);
                    assert(self.spec_permits()[b].0 == pre.spec_permits()[b].0);
                }
            }
        }
        let ghost mid2 = *self;
        self.records.remove(ri);
        proof {
            assert(self.spec_records() =~= pre.spec_records().remove(ri as int));
            assert(self.spec_active() =~= mid.spec_active());
            assert(self.spec_permits() =~= mid2.spec_permits());
            assert(mid.spec_records() =~= pre.spec_records());
            lemma_record_remove_ok(pre.spec_records(), ri as int);
            assert forall|o: Seq<char>|
                #[trigger] used_of(self.spec_permits(), o) == count_downloading(
                    self.spec_records(),
                    o,
                ) by {
                lemma_count_remove(pre.spec_records(), ri as int, o);
                if was_downloading {
                    let j = choose|j: int|
                        0 <= j < pre.spec_permits().len() && (#[trigger] pre.spec_permits()[j]).0
                            == id@.username;
                    let u = pre.spec_permits()[j].1;
                    lemma_used_update(pre.spec_permits(), j, (u - 1) as u64, o);
                } else {
                    assert(self.spec_permits() == pre.spec_permits());
                    assert(dl_contrib(pre.spec_records()[ri as int], o) == 0);
                }
            }
        }
    }

    /// The record's progress counters, as a point lookup by id.
    pub fn get_status_by_id(&self, file_id: &String, id: &Ident) -> (r: Option<DownloadStatus>)
        requires
            self.wf(),
        ensures
            r is Some <==> has_record(self.spec_records(), id@.username, file_id@),
            r matches Some(rec) ==> rec@ == record_at(self.spec_records(), id@.username, file_id@),
    {
        match self.find_record_index(&id.username, file_id) {
            Some(i) => {
                proof {
                    lemma_record_at_member(self.spec_records(), i as int, id@.username, file_id@);
                }
                Some(self.records[i].clone())
            },
            None => None,
        }
    }

    /// All of the owner's records whose status is among the given kinds
    /// (all of them when no filter is given), in registry order.  The
    /// filter compares variants only; the error text is an opaque
    /// diagnostic.
    pub fn get_status_by_filter(
        &self,
        filter: &Option<Vec<DownloadStatusKind>>,
        id: &Ident,
    ) -> (r: Vec<DownloadStatus>)
        ensures
            views_of(r@) == query_records(self.spec_records(), id@.username, *filter),
    {
        let mut out: Vec<DownloadStatus> = Vec::new();
        let mut i: usize = 0;
        proof {
            assert(self.spec_records().take(0) =~= Seq::<DownloadStatusRecView>::empty());
            assert(views_of(out@) =~= query_records(
                self.spec_records().take(0),
                id@.username,
                *filter,
            ));
        }
        while i < self.records.len()
            invariant
                i <= self.records@.len(),
                views_of(out@) == query_records(
                    self.spec_records().take(i as int),
                    id@.username,
                    *filter,
                ),
            decreases self.records@.len() - i,
        {
            let ghost prefix = self.spec_records().take(i as int);
            let ghost out0 = out@;
            let matches_owner = self.records[i].id.username == id.username;
            let matches_status = status_in_filter(&self.records[i].status, filter);
            let selected = matches_owner && matches_status;
            if selected {
                out.push(self.records[i].clone());
            }
            i = i + 1;
            proof {
                let next = self.spec_records().take(i as int);
                let last = self.spec_records()[i - 1];
                assert(next.drop_last() =~= prefix);
                assert(next.last() == last);
                assert(next.len() == i as int);
                assert(selected == (last.id.username == id@.username && in_filter(
                    last.status,
                    *filter,
                )));
                if selected {
                    assert(query_records(next, id@.username, *filter) =~= query_records(
                        prefix,
                        id@.username,
                        *filter,
                    ).push(last));
                    assert(views_of(out@) =~= views_of(out0).push(last));
                } else {
                    assert(query_records(next, id@.username, *filter) =~= query_records(
                        prefix,
                        id@.username,
                        *filter,
                    ));
                    assert(out@ == out0);
                }
            }
        }
        proof {
            assert(self.spec_records().take(self.records@.len() as int) =~= self.spec_records());
        }
        out
    }

    /// The driver adds what one read moved: `bytes` more on disk after
    /// `elapsed_ms` of transfer time, and a fresh speed estimate.
    pub fn record_progress(&mut self, id: &Ident, file_id: &String, bytes: u64, elapsed_ms: u64)
        requires
            old(self).wf(),
            has_record(old(self).spec_records(), id@.username, file_id@),
            record_at(old(self).spec_records(), id@.username, file_id@).downloaded + bytes
                <= u64::MAX,
            record_at(old(self).spec_records(), id@.username, file_id@).downloaded_time_ms
                + elapsed_ms <= u64::MAX,
        ensures
            final(self).wf(),
            final(self).spec_active() == old(self).spec_active(),
            final(self).spec_permits() == old(self).spec_permits(),
            final(self).spec_capacity() == old(self).spec_capacity(),
            record_at(final(self).spec_records(), id@.username, file_id@) == (
            DownloadStatusRecView {
                downloaded: (record_at(old(self).spec_records(), id@.username, file_id@).downloaded
                    + bytes) as u64,
                downloaded_time_ms: (record_at(
                    old(self).spec_records(),
                    id@.username,
                    file_id@,
                ).downloaded_time_ms + elapsed_ms) as u64,
                current_speed_bps: speed_estimate(
                    record_at(old(self).spec_records(), id@.username, file_id@).current_speed_bps,
                    bytes,
                    elapsed_ms,
                ),
                ..record_at(old(self).spec_records(), id@.username, file_id@)
            }),
            forall|o2: Seq<char>, f2: Seq<char>|
                #[trigger] has_record(final(self).spec_records(), o2, f2) <==> has_record(
                    old(self).spec_records(),
                    o2,
                    f2,
                ),
            forall|o2: Seq<char>, f2: Seq<char>|
                !(o2 == id@.username && f2 == file_id@) && #[trigger] has_record(
                    old(self).spec_records(),
                    o2,
                    f2,
                ) ==> record_at(final(self).spec_records(), o2, f2) == record_at(
                    old(self).spec_records(),
                    o2,
                    f2,
                ),
    {
        let ghost pre = *self;
        let ri = match self.find_record_index(&id.username, file_id) {
            Some(i) => i,
            None => {
                return unreached();
            },
        };
        proof {
            lemma_record_at_member(pre.spec_records(), ri as int, id@.username, file_id@);
        }
        let old_rec = self.records[ri].clone();
        let speed: u64 = if elapsed_ms == 0 {
            old_rec.current_speed_bps
        } else {
            let v: u128 = (bytes as u128) * 1000 / (elapsed_ms as u128);
            if v > u64::MAX as u128 {
                u64::MAX
            } else {
                v as u64
            }
        };
        let updated = DownloadStatus {
            downloaded: old_rec.downloaded + bytes,
            downloaded_time_ms: old_rec.downloaded_time_ms + elapsed_ms,
            current_speed_bps: speed,
            ..old_rec
        };
        self.records[ri] = updated;
        proof {
            assert(self.spec_permits() =~= pre.spec_permits());
            assert(self.spec_active() =~= pre.spec_active());
            let rv = pre.spec_records()[ri as int];
            let rv2 = (DownloadStatusRecView {
                downloaded: (rv.downloaded + bytes) as u64,
                downloaded_time_ms: (rv.downloaded_time_ms + elapsed_ms) as u64,
                current_speed_bps: speed_estimate(rv.current_speed_bps, bytes, elapsed_ms),
                ..rv
            });
            assert(self.spec_records() =~= pre.spec_records().update(ri as int, rv2));
            lemma_update_in_place(pre.spec_records(), ri as int, rv2);
            assert forall|o: Seq<char>|
                #[trigger] used_of(self.spec_permits(), o) == count_downloading(
                    self.spec_records(),
                    o,
                ) by {
                lemma_count_update(pre.spec_records(), ri as int, rv2, o);
                assert(count_downloading(self.spec_records(), o) == count_downloading(
                    pre.spec_records(),
                    o,
                ) - dl_contrib(rv, o) + dl_contrib(rv2, o));
            }
        }
    }

    /// The driver stores the byte count already on disk when a run
    /// begins (the resume offset).
    pub fn reset_progress(&mut self, id: &Ident, file_id: &String, downloaded: u64)
        requires
            old(self).wf(),
            has_record(old(self).spec_records(), id@.username, file_id@),
        ensures
            final(self).wf(),
            final(self).spec_active() == old(self).spec_active(),
            final(self).spec_permits() == old(self).spec_permits(),
            final(self).spec_capacity() == old(self).spec_capacity(),
            record_at(final(self).spec_records(), id@.username, file_id@) == (
            DownloadStatusRecView {
                downloaded,
                ..record_at(old(self).spec_records(), id@.username, file_id@)
            }),
            forall|o2: Seq<char>, f2: Seq<char>|
                #[trigger] has_record(final(self).spec_records(), o2, f2) <==> has_record(
                    old(self).spec_records(),
                    o2,
                    f2,
                ),
            forall|o2: Seq<char>, f2: Seq<char>|
                !(o2 == id@.username && f2 == file_id@) && #[trigger] has_record(
                    old(self).spec_records(),
                    o2,
                    f2,
                ) ==> record_at(final(self).spec_records(), o2, f2) == record_at(
                    old(self).spec_records(),
                    o2,
                    f2,
                ),
    {
        let ghost pre = *self;
        let ri = match self.find_record_index(&id.username, file_id) {
            Some(i) => i,
            None => {
                return unreached();
            },
        };
        proof {
            lemma_record_at_member(pre.spec_records(), ri as int, id@.username, file_id@);
        }
        let old_rec = self.records[ri].clone();
        let updated = DownloadStatus { downloaded, ..old_rec };
        self.records[ri] = updated;
        proof {
            assert(self.spec_permits() =~= pre.spec_permits());
            assert(self.spec_active() =~= pre.spec_active());
            let rv = pre.spec_records()[ri as int];
            let rv2 = (DownloadStatusRecView { downloaded, ..rv });
            assert(self.spec_records() =~= pre.spec_records().update(ri as int, rv2));
            lemma_update_in_place(pre.spec_records(), ri as int, rv2);
            assert forall|o: Seq<char>|
                #[trigger] used_of(self.spec_permits(), o) == count_downloading(
                    self.spec_records(),
                    o,
                ) by {
                lemma_count_update(pre.spec_records(), ri as int, rv2, o);
                assert(count_downloading(self.spec_records(), o) == count_downloading(
                    pre.spec_records(),
                    o,
                ) - dl_contrib(rv, o) + dl_contrib(rv2, o));
            }
        }
    }

    /// Rebuilds a registry from persisted records at startup.  Records
    /// found mid-transfer are treated as resumable: anything that was
    /// waiting or downloading gets a fresh handle (the caller re-spawns
    /// those drivers), and an interrupted transfer waits again until its
    /// driver re-acquires a permit.
    pub fn recover(persisted: &Vec<DownloadStatus>, permit_capacity: u64) -> (m: Self)
        requires
            1 <= permit_capacity,
            forall|a: int, b: int|
                0 <= a < b < persisted@.len() ==> (#[trigger] persisted@[a])@.file_id != (
                #[trigger] persisted@[b])@.file_id,
        ensures
            m.wf(),
            m.spec_capacity() == permit_capacity,
            m.spec_records().len() == persisted@.len(),
            forall|k: int|
                0 <= k < persisted@.len() ==> m.spec_records()[k] == recovered_view(
                    (#[trigger] persisted@[k])@,
                ),
            forall|k: int|
                0 <= k < persisted@.len() && ((#[trigger] persisted@[k])@.status is Waiting
                    || persisted@[k]@.status is Downloading) ==> m.spec_active().contains(
                    persisted@[k]@.file_id,
                ),
            forall|f: Seq<char>|
                #[trigger] m.spec_active().contains(f) ==> exists|k: int|
                    0 <= k < persisted@.len() && (#[trigger] persisted@[k])@.file_id == f && (
                    persisted@[k]@.status is Waiting || persisted@[k]@.status is Downloading),
    {
        let mut m = DownloadManager::new(permit_capacity);
        let mut i: usize = 0;
        while i < persisted.len()
            invariant
                i <= persisted@.len(),
                m.wf(),
                m.spec_capacity() == permit_capacity,
                m.spec_permits().len() == 0,
                m.spec_records().len() == i,
                forall|a: int, b: int|
                    0 <= a < b < persisted@.len() ==> (#[trigger] persisted@[a])@.file_id != (
                    #[trigger] persisted@[b])@.file_id,
                forall|k: int|
                    0 <= k < i ==> m.spec_records()[k] == recovered_view(
                        (#[trigger] persisted@[k])@,
                    ),
                forall|k: int|
                    0 <= k < i && ((#[trigger] persisted@[k])@.status is Waiting
                        || persisted@[k]@.status is Downloading) ==> m.spec_active().contains(
                        persisted@[k]@.file_id,
                    ),
                forall|f: Seq<char>|
                    #[trigger] m.spec_active().contains(f) ==> exists|k: int|
                        0 <= k < i && (#[trigger] persisted@[k])@.file_id == f && (
                        persisted@[k]@.status is Waiting || persisted@[k]@.status is Downloading),
            decreases persisted@.len() - i,
        {
            let ghost pre = m;
            let mut rec = persisted[i].clone();
            let respawn = match &rec.status {
                DownloadStatusKind::Downloading => true,
                DownloadStatusKind::Waiting => true,
                _ => false,
            };
            let downgrade = match &rec.status {
                DownloadStatusKind::Downloading => true,
                _ => false,
            };
            if downgrade {
                rec.status = DownloadStatusKind::Waiting;
            }
            proof {
                assert(rec@ == recovered_view(persisted@[i as int]@));
            }
            if respawn {
                proof {
                    if pre.spec_active().contains(rec@.file_id) {
                        let k = choose|k: int|
                            0 <= k < i && (#[trigger] persisted@[k])@.file_id == rec@.file_id && (
                            persisted@[k]@.status is Waiting
                                || persisted@[k]@.status is Downloading);
                        assert(persisted@[k]@.file_id != persisted@[i as int]@.file_id);
                    }
                }
                m.active.push(rec.file_id.clone());
                proof {
                    assert(m.spec_active() =~= pre.spec_active().push(rec@.file_id));
                    lemma_active_push(pre.spec_active(), rec@.file_id);
                }
            }
            let ghost mid = m;
            let ghost recv = rec@;
            m.records.push(rec);
            i = i + 1;
            proof {
                let gi = i - 1;
                assert(m.spec_records() =~= mid.spec_records().push(recv));
                assert(m.spec_active() =~= mid.spec_active());
                assert(m.spec_permits() =~= mid.spec_permits());
                assert(mid.spec_permits() =~= pre.spec_permits());
                assert forall|k: int|
                    0 <= k < i implies m.spec_records()[k] == recovered_view(
                    (#[trigger] persisted@[k])@,
                ) by {
                    if k < gi {
                        assert(m.spec_records()[k] == mid.spec_records()[k]);
                    }
                }
                assert forall|a: int, b: int|
                    0 <= a < b < m.spec_records().len() implies !rec_key_is(
                    #[trigger] m.spec_records()[a],
                    (#[trigger] m.spec_records()[b]).id.username,
                    m.spec_records()[b].file_id,
                ) by {
                    assert(m.spec_records()[a] == recovered_view(persisted@[a]@));
                    assert(m.spec_records()[b] == recovered_view(persisted@[b]@));
                    assert(persisted@[a]@.file_id != persisted@[b]@.file_id);
                }
                assert forall|o: Seq<char>|
                    #[trigger] used_of(m.spec_permits(), o) == count_downloading(
                        m.spec_records(),
                        o,
                    ) by {
                    lemma_count_push(mid.spec_records(), recv, o);
                    assert(dl_contrib(recv, o) == 0);
                    assert(used_of(m.spec_permits(), o) == 0);
                    assert(used_of(mid.spec_permits(), o) == count_downloading(
                        mid.spec_records(),
                        o,
                    ));
                }
                assert forall|k: int|
                    0 <= k < i && ((#[trigger] persisted@[k])@.status is Waiting
                        || persisted@[k]@.status is Downloading) implies m.spec_active().contains(
                    persisted@[k]@.file_id,
                ) by {
                    if k < gi {
                        assert(pre.spec_active().contains(persisted@[k]@.file_id));
                        if respawn {
                            if persisted@[k]@.file_id == recv.file_id {
                                assert(m.spec_active().contains(recv.file_id));
                            } else {
                                assert(m.spec_active().contains(persisted@[k]@.file_id));
                            }
                        }
                    } else {
                        assert(k == gi);
                        assert(respawn);
                        assert(m.spec_active().contains(recv.file_id));
                    }
                }
                assert forall|f: Seq<char>| #[trigger] m.spec_active().contains(f) implies exists|
                    k: int,
                |
                    0 <= k < i && (#[trigger] persisted@[k])@.file_id == f && (
                    persisted@[k]@.status is Waiting
                        || persisted@[k]@.status is Downloading) by {
                    if respawn && f == recv.file_id {
                        assert(0 <= gi < i && persisted@[gi]@.file_id == f && (
                        persisted@[gi]@.status is Waiting
                            || persisted@[gi]@.status is Downloading));
                    } else {
                        assert(pre.spec_active().contains(f));
                        let k = choose|k: int|
                            0 <= k < gi && (#[trigger] persisted@[k])@.file_id == f && (
                            persisted@[k]@.status is Waiting
                                || persisted@[k]@.status is Downloading);
                        assert(0 <= k < i && persisted@[k]@.file_id == f && (
                        persisted@[k]@.status is Waiting
                            || persisted@[k]@.status is Downloading));
                    }
                }
            }
        }
        m
    }
}

/// How one driver run ended.
pub enum DriverOutcome {
    /// The stream ended normally: the transfer is complete.
    Completed,
    /// The cancellation signal won the race.
    Cancelled,
    /// The server refused a ranged resume (no partial-content answer).
    ResumeFailed,
    /// An unrecoverable failure, with its diagnostic.
    Failed(String),
}

/// What the driver loop does with one transfer attempt's outcome: a
/// finished stream completes the transfer; a rejected resume is fatal
/// and not retried; any other failure sleeps a second and tries again
/// with a freshly resolved URL.
#[derive(Debug, Copy, Clone, PartialEq, Eq, Structural)]
pub enum DriverPlan {
    Complete,
    FailResume,
    RetryAfterDelay,
}

/// Decides one iteration of the driver loop.
pub fn driver_plan(attempt_ok: bool, resume_rejected: bool) -> (p: DriverPlan)
    ensures
        attempt_ok ==> p is Complete,
        !attempt_ok && resume_rejected ==> p is FailResume,
        !attempt_ok && !resume_rejected ==> p is RetryAfterDelay,
{
    if attempt_ok {
        DriverPlan::Complete
    } else if resume_rejected {
        DriverPlan::FailResume
    } else {
        DriverPlan::RetryAfterDelay
    }
}

/// Whether the server accepted the request as the driver meant it: a
/// resumed request (non-zero offset) must be answered with partial
/// content, status 206; anything else there is the fatal
/// resume-rejected case.  A fresh request is never rejected this way.
pub fn resume_accepted(resume_offset: u64, http_status: u16) -> (ok: bool)
    ensures
        ok == !(resume_offset != 0 && http_status != 206),
{
    resume_offset == 0 || http_status == 206
}

/// The `Range` value of a resuming request: all bytes from the resume
/// offset on, `"bytes={offset}-"`; none when starting from scratch.
pub fn resume_range_value(resume_offset: u64) -> (r: Option<String>)
    ensures
        resume_offset == 0 <==> r is None,
        r matches Some(s) ==> s@ == "bytes="@ + crate::text::dec_rep(resume_offset as int) + "-"@,
{
    if resume_offset == 0 {
        return None;
    }
    proof {
        reveal_strlit("bytes=");
        reveal_strlit("-");
    }
    let mut s = String::from_str("bytes=");
    s.append(crate::text::u64_to_decimal(resume_offset).as_str());
    s.append("-");
    proof {
        assert(s@ =~= "bytes="@ + crate::text::dec_rep(resume_offset as int) + "-"@);
    }
    Some(s)
}

/// The status a record takes when its driver ends this way.
pub open spec fn outcome_status(o: DriverOutcome) -> StatusKindView {
    match o {
        DriverOutcome::Completed => StatusKindView::Completed,
        DriverOutcome::Cancelled => StatusKindView::Paused,
        DriverOutcome::ResumeFailed => StatusKindView::HasError("resume failed"@),
        DriverOutcome::Failed(e) => StatusKindView::HasError(e@),
    }
}

/// What one progress report does to the speed estimate: bytes per
/// second from this read, saturated; a zero-length interval keeps the
/// previous estimate.
pub open spec fn speed_estimate(prev: u64, bytes: u64, elapsed_ms: u64) -> u64 {
    if elapsed_ms == 0 {
        prev
    } else if bytes * 1000 / (elapsed_ms as int) > u64::MAX {
        u64::MAX
    } else {
        (bytes * 1000 / (elapsed_ms as int)) as u64
    }
}

/// The status is among the given kinds; no filter admits everything.
pub open spec fn in_filter(s: StatusKindView, filter: Option<Vec<DownloadStatusKind>>) -> bool {
    match filter {
        None => true,
        Some(fs) => exists|k: int| 0 <= k < fs@.len() && same_kind((#[trigger] fs@[k])@, s),
    }
}

/// The owner's records that pass the status filter, in registry order.
pub open spec fn query_records(
    rs: Seq<DownloadStatusRecView>,
    owner: Seq<char>,
    filter: Option<Vec<DownloadStatusKind>>,
) -> Seq<DownloadStatusRecView>
    decreases rs.len(),
{
    if rs.len() == 0 {
        Seq::empty()
    } else {
        let rest = query_records(rs.drop_last(), owner, filter);
        if rs.last().id.username == owner && in_filter(rs.last().status, filter) {
            rest.push(rs.last())
        } else {
            rest
        }
    }
}

/// A persisted record as the registry readopts it: an interrupted
/// transfer goes back to waiting.
pub open spec fn recovered_view(rv: DownloadStatusRecView) -> DownloadStatusRecView {
    if rv.status is Downloading {
        DownloadStatusRecView { status: StatusKindView::Waiting, ..rv }
    } else {
        rv
    }
}

fn status_in_filter(status: &DownloadStatusKind, filter: &Option<Vec<DownloadStatusKind>>) -> (r:
    bool)
    ensures
        r == in_filter(status@, *filter),
{
    let fs = match filter.as_ref() {
        None => {
            return true;
        },
        Some(fs) => fs,
    };
    let mut k: usize = 0;
    while k < fs.len()
        invariant
            *filter is Some && (*filter)->0 == *fs,
            k <= fs@.len(),
            forall|t: int| 0 <= t < k ==> !same_kind((#[trigger] fs@[t])@, status@),
        decreases fs@.len() - k,
    {
        if fs[k].kind_eq(status) {
            proof {
                assert(same_kind((fs@[k as int])@, status@));
            }
            return true;
        }
        k = k + 1;
    }
    false
}

/// The per-owner cap law: however the registry got here, no owner has
/// more transfers actively downloading than the permit capacity.
pub proof fn lemma_owner_under_cap(m: DownloadManager, owner: Seq<char>)
    requires
        m.wf(),
    ensures
        count_downloading(m.spec_records(), owner) <= m.spec_capacity(),
{
    if has_perm(m.spec_permits(), owner) {
        let i = choose|i: int|
            0 <= i < m.spec_permits().len() && (#[trigger] m.spec_permits()[i]).0 == owner;
        lemma_used_of_member(m.spec_permits(), i, owner);
    } else {
        lemma_used_of_absent(m.spec_permits(), owner);
        lemma_count_nonneg(m.spec_records(), owner);
    }
}

proof fn lemma_count_nonneg(rs: Seq<DownloadStatusRecView>, o: Seq<char>)
    ensures
        count_downloading(rs, o) >= 0,
    decreases rs.len(),
{
    if rs.len() > 0 {
        lemma_count_nonneg(rs.drop_first(), o);
    }
}

proof fn lemma_count_lower(rs: Seq<DownloadStatusRecView>, i: int, o: Seq<char>)
    requires
        0 <= i < rs.len(),
        rs[i].id.username == o,
        rs[i].status is Downloading,
    ensures
        count_downloading(rs, o) >= 1,
    decreases rs.len(),
{
    lemma_count_nonneg(rs.drop_first(), o);
    if i > 0 {
        lemma_count_lower(rs.drop_first(), i - 1, o);
    }
}

proof fn lemma_used_of_member(ps: Seq<(Seq<char>, u64)>, i: int, o: Seq<char>)
    requires
        0 <= i < ps.len(),
        ps[i].0 == o,
        forall|a: int, b: int| 0 <= a < b < ps.len() ==> (#[trigger] ps[a]).0 != (#[trigger] ps[b]).0,
    ensures
        used_of(ps, o) == ps[i].1,
        has_perm(ps, o),
    decreases ps.len(),
{
    if i > 0 {
        assert(ps[0].0 != o);
        assert(forall|k: int|
            0 <= k < ps.drop_first().len() ==> (#[trigger] ps.drop_first()[k]) == ps[k + 1]);
        lemma_used_of_member(ps.drop_first(), i - 1, o);
    }
}

proof fn lemma_used_of_absent(ps: Seq<(Seq<char>, u64)>, o: Seq<char>)
    requires
        !has_perm(ps, o),
    ensures
        used_of(ps, o) == 0,
    decreases ps.len(),
{
    if ps.len() > 0 {
        assert(ps[0].0 != o);
        assert(!has_perm(ps.drop_first(), o)) by {
            assert(forall|k: int|
                0 <= k < ps.drop_first().len() ==> (#[trigger] ps.drop_first()[k]) == ps[k + 1]);
        }
        lemma_used_of_absent(ps.drop_first(), o);
    }
}

/// Pushing a fresh handle keeps the active set duplicate-free and adds
/// exactly that file id.
proof fn lemma_active_push(s: Seq<Seq<char>>, f: Seq<char>)
    requires
        forall|i: int, j: int| 0 <= i < j < s.len() ==> s[i] != s[j],
        !s.contains(f),
    ensures
        forall|i: int, j: int| 0 <= i < j < s.push(f).len() ==> s.push(f)[i] != s.push(f)[j],
        s.push(f).contains(f),
        forall|g: Seq<char>| g != f ==> (#[trigger] s.push(f).contains(g) <==> s.contains(g)),
{
    let s2 = s.push(f);
    assert(s2[s.len() as int] == f);
    assert forall|i: int, j: int| 0 <= i < j < s2.len() implies s2[i] != s2[j] by {
        if j == s.len() {
            assert(s2[i] == s[i]);
            if s[i] == f {
                assert(s.contains(f));
            }
        } else {
            assert(s2[i] == s[i]);
            assert(s2[j] == s[j]);
        }
    }
    assert forall|g: Seq<char>| g != f implies (#[trigger] s2.contains(g) <==> s.contains(g)) by {
        if s2.contains(g) {
            let k = choose|k: int| 0 <= k < s2.len() && s2[k] == g;
            assert(k != s.len());
            assert(s[k] == g);
        }
        if s.contains(g) {
            let k = choose|k: int| 0 <= k < s.len() && s[k] == g;
            assert(s2[k] == g);
        }
    }
}

/// Removing a handle keeps the active set duplicate-free and removes
/// exactly that file id.
proof fn lemma_active_remove(s: Seq<Seq<char>>, i: int)
    requires
        forall|a: int, b: int| 0 <= a < b < s.len() ==> s[a] != s[b],
        0 <= i < s.len(),
    ensures
        forall|a: int, b: int| 0 <= a < b < s.remove(i).len() ==> s.remove(i)[a] != s.remove(i)[b],
        !s.remove(i).contains(s[i]),
        forall|g: Seq<char>| g != s[i] ==> (#[trigger] s.remove(i).contains(g) <==> s.contains(g)),
{
    let s2 = s.remove(i);
    assert forall|a: int, b: int| 0 <= a < b < s2.len() implies s2[a] != s2[b] by {
        assert(s2[a] == if a < i {
            s[a]
        } else {
            s[a + 1]
        });
        assert(s2[b] == if b < i {
            s[b]
        } else {
            s[b + 1]
        });
    }
    if s2.contains(s[i]) {
        let k = choose|k: int| 0 <= k < s2.len() && s2[k] == s[i];
        assert(s2[k] == if k < i {
            s[k]
        } else {
            s[k + 1]
        });
    }
    assert forall|g: Seq<char>| g != s[i] implies (#[trigger] s2.contains(g) <==> s.contains(
        g,
    )) by {
        if s2.contains(g) {
            let k = choose|k: int| 0 <= k < s2.len() && s2[k] == g;
            assert(s2[k] == if k < i {
                s[k]
            } else {
                s[k + 1]
            });
        }
        if s.contains(g) {
            let k = choose|k: int| 0 <= k < s.len() && s[k] == g;
            if k < i {
                assert(s2[k] == g);
            } else {
                assert(k != i);
                assert(s2[k - 1] == g);
            }
        }
    }
}

/// Updating one record in place, key unchanged, keeps the registry's
/// keys unique and leaves every other key's record as it was.
proof fn lemma_update_in_place(rs: Seq<DownloadStatusRecView>, i: int, r2: DownloadStatusRecView)
    requires
        0 <= i < rs.len(),
        r2.id.username == rs[i].id.username,
        r2.file_id == rs[i].file_id,
        forall|a: int, b: int|
            0 <= a < b < rs.len() ==> !rec_key_is(
                #[trigger] rs[a],
                (#[trigger] rs[b]).id.username,
                rs[b].file_id,
            ),
    ensures
        forall|a: int, b: int|
            0 <= a < b < rs.update(i, r2).len() ==> !rec_key_is(
                #[trigger] rs.update(i, r2)[a],
                (#[trigger] rs.update(i, r2)[b]).id.username,
                rs.update(i, r2)[b].file_id,
            ),
        has_record(rs.update(i, r2), rs[i].id.username, rs[i].file_id),
        record_at(rs.update(i, r2), rs[i].id.username, rs[i].file_id) == r2,
        forall|o2: Seq<char>, f2: Seq<char>|
            #[trigger] has_record(rs.update(i, r2), o2, f2) <==> has_record(rs, o2, f2),
        forall|o2: Seq<char>, f2: Seq<char>|
            !(o2 == rs[i].id.username && f2 == rs[i].file_id) && #[trigger] has_record(rs, o2, f2)
                ==> record_at(rs.update(i, r2), o2, f2) == record_at(rs, o2, f2),
{
    let rs2 = rs.update(i, r2);
    assert forall|a: int, b: int|
        0 <= a < b < rs2.len() implies !rec_key_is(
        #[trigger] rs2[a],
        (#[trigger] rs2[b]).id.username,
        rs2[b].file_id,
    ) by {
        assert(rs2[a] == if a == i {
            r2
        } else {
            rs[a]
        });
        assert(rs2[b] == if b == i {
            r2
        } else {
            rs[b]
        });
    }
    lemma_record_at_member(rs2, i, rs[i].id.username, rs[i].file_id);
    assert forall|o2: Seq<char>, f2: Seq<char>|
        #[trigger] has_record(rs2, o2, f2) <==> has_record(rs, o2, f2) by {
        if has_record(rs2, o2, f2) {
            let k = choose|k: int| 0 <= k < rs2.len() && rec_key_is(rs2[k], o2, f2);
            if k == i {
                assert(rec_key_is(rs[i], o2, f2));
            } else {
                assert(rec_key_is(rs[k], o2, f2));
            }
        }
        if has_record(rs, o2, f2) {
            let k = choose|k: int| 0 <= k < rs.len() && rec_key_is(rs[k], o2, f2);
            if k == i {
                assert(rec_key_is(rs2[i], o2, f2));
            } else {
                assert(rec_key_is(rs2[k], o2, f2));
            }
        }
    }
    assert forall|o2: Seq<char>, f2: Seq<char>|
        !(o2 == rs[i].id.username && f2 == rs[i].file_id) && #[trigger] has_record(
        rs,
        o2,
        f2,
    ) implies record_at(rs2, o2, f2) == record_at(rs, o2, f2) by {
        let k = choose|k: int| 0 <= k < rs.len() && rec_key_is(rs[k], o2, f2);
        assert(k != i) by {
            if k == i {
                assert(o2 == rs[i].id.username && f2 == rs[i].file_id);
            }
        }
        lemma_record_at_member(rs, k, o2, f2);
        lemma_record_at_member(rs2, k, o2, f2);
    }
}

/// Removing a record keeps the registry's keys unique, removes exactly
/// that key, and leaves every other key's record as it was.
proof fn lemma_record_remove_ok(rs: Seq<DownloadStatusRecView>, i: int)
    requires
        0 <= i < rs.len(),
        forall|a: int, b: int|
            0 <= a < b < rs.len() ==> !rec_key_is(
                #[trigger] rs[a],
                (#[trigger] rs[b]).id.username,
                rs[b].file_id,
            ),
    ensures
        forall|a: int, b: int|
            0 <= a < b < rs.remove(i).len() ==> !rec_key_is(
                #[trigger] rs.remove(i)[a],
                (#[trigger] rs.remove(i)[b]).id.username,
                rs.remove(i)[b].file_id,
            ),
        !has_record(rs.remove(i), rs[i].id.username, rs[i].file_id),
        forall|o2: Seq<char>, f2: Seq<char>|
            !(o2 == rs[i].id.username && f2 == rs[i].file_id) ==> (#[trigger] has_record(
                rs.remove(i),
                o2,
                f2,
            ) <==> has_record(rs, o2, f2)),
        forall|o2: Seq<char>, f2: Seq<char>|
            !(o2 == rs[i].id.username && f2 == rs[i].file_id) && #[trigger] has_record(rs, o2, f2)
                ==> record_at(rs.remove(i), o2, f2) == record_at(rs, o2, f2),
{
    let rs2 = rs.remove(i);
    assert forall|a: int, b: int|
        0 <= a < b < rs2.len() implies !rec_key_is(
        #[trigger] rs2[a],
        (#[trigger] rs2[b]).id.username,
        rs2[b].file_id,
    ) by {
        assert(rs2[a] == if a < i {
            rs[a]
        } else {
            rs[a + 1]
        });
        assert(rs2[b] == if b < i {
            rs[b]
        } else {
            rs[b + 1]
        });
    }
    if has_record(rs2, rs[i].id.username, rs[i].file_id) {
        let k = choose|k: int|
            0 <= k < rs2.len() && rec_key_is(rs2[k], rs[i].id.username, rs[i].file_id);
        assert(rs2[k] == if k < i {
            rs[k]
        } else {
            rs[k + 1]
        });
    }
    assert forall|o2: Seq<char>, f2: Seq<char>|
        !(o2 == rs[i].id.username && f2 == rs[i].file_id) implies (#[trigger] has_record(
        rs2,
        o2,
        f2,
    ) <==> has_record(rs, o2, f2)) by {
        if has_record(rs2, o2, f2) {
            let k = choose|k: int| 0 <= k < rs2.len() && rec_key_is(rs2[k], o2, f2);
            assert(rs2[k] == if k < i {
                rs[k]
            } else {
                rs[k + 1]
            });
        }
        if has_record(rs, o2, f2) {
            let k = choose|k: int| 0 <= k < rs.len() && rec_key_is(rs[k], o2, f2);
            assert(k != i) by {
                if k == i {
                    assert(o2 == rs[i].id.username && f2 == rs[i].file_id);
                }
            }
            if k < i {
                assert(rec_key_is(rs2[k], o2, f2));
            } else {
                assert(rec_key_is(rs2[k - 1], o2, f2));
            }
        }
    }
    assert forall|o2: Seq<char>, f2: Seq<char>|
        !(o2 == rs[i].id.username && f2 == rs[i].file_id) && #[trigger] has_record(
        rs,
        o2,
        f2,
    ) implies record_at(rs2, o2, f2) == record_at(rs, o2, f2) by {
        let k = choose|k: int| 0 <= k < rs.len() && rec_key_is(rs[k], o2, f2);
        assert(k != i) by {
            if k == i {
                assert(o2 == rs[i].id.username && f2 == rs[i].file_id);
            }
        }
        lemma_record_at_member(rs, k, o2, f2);
        if k < i {
            assert(rs2[k] == rs[k]);
            lemma_record_at_member(rs2, k, o2, f2);
        } else {
            assert(rs2[k - 1] == rs[k]);
            lemma_record_at_member(rs2, k - 1, o2, f2);
        }
    }
}

/// The member at a matching index is the record the key names.
proof fn lemma_record_at_member(
    rs: Seq<DownloadStatusRecView>,
    i: int,
    owner: Seq<char>,
    fid: Seq<char>,
)
    requires
        0 <= i < rs.len(),
        rec_key_is(rs[i], owner, fid),
        forall|a: int, b: int|
            0 <= a < b < rs.len() ==> !rec_key_is(
                #[trigger] rs[a],
                (#[trigger] rs[b]).id.username,
                rs[b].file_id,
            ),
    ensures
        has_record(rs, owner, fid),
        record_at(rs, owner, fid) == rs[i],
{
    assert(has_record(rs, owner, fid));
    let k = choose|k: int| 0 <= k < rs.len() && rec_key_is(rs[k], owner, fid);
    if k != i {
        if k < i {
            assert(!rec_key_is(rs[k], rs[i].id.username, rs[i].file_id));
        } else {
            assert(!rec_key_is(rs[i], rs[k].id.username, rs[k].file_id));
        }
    }
}

/// Replacing the (sole) record of a key with a fresh record of the same
/// key keeps the registry invariant and leaves every other key's record
/// as it was.
proof fn lemma_start_replace_ok(
    pre: DownloadManager,
    post: DownloadManager,
    i: int,
    fresh: DownloadStatusRecView,
    owner: Seq<char>,
    fid: Seq<char>,
)
    requires
        pre.wf(),
        0 <= i < pre.spec_records().len(),
        rec_key_is(pre.spec_records()[i], owner, fid),
        !(pre.spec_records()[i].status is Downloading),
        rec_key_is(fresh, owner, fid),
        fresh.status is Waiting,
        post.spec_records() == pre.spec_records().update(i, fresh),
        post.spec_active() == pre.spec_active(),
        post.spec_permits() == pre.spec_permits(),
        post.spec_capacity() == pre.spec_capacity(),
    ensures
        post.wf(),
        has_record(post.spec_records(), owner, fid),
        record_at(post.spec_records(), owner, fid) == fresh,
        forall|o2: Seq<char>, f2: Seq<char>|
            !(o2 == owner && f2 == fid) ==> (#[trigger] has_record(post.spec_records(), o2, f2)
                <==> has_record(pre.spec_records(), o2, f2)),
        forall|o2: Seq<char>, f2: Seq<char>|
            !(o2 == owner && f2 == fid) && #[trigger] has_record(pre.spec_records(), o2, f2)
                ==> record_at(post.spec_records(), o2, f2) == record_at(
                pre.spec_records(),
                o2,
                f2,
            ),
{
    let rs = pre.spec_records();
    let rs2 = post.spec_records();
    assert forall|a: int, b: int|
        0 <= a < b < rs2.len() implies !rec_key_is(
        #[trigger] rs2[a],
        (#[trigger] rs2[b]).id.username,
        rs2[b].file_id,
    ) by {
        assert(rs2[a] == if a == i {
            fresh
        } else {
            rs[a]
        });
        assert(rs2[b] == if b == i {
            fresh
        } else {
            rs[b]
        });
    }
    assert forall|o: Seq<char>|
        #[trigger] used_of(post.spec_permits(), o) == count_downloading(rs2, o) by {
        lemma_count_update(rs, i, fresh, o);
    }
    lemma_record_at_member(rs2, i, owner, fid);
    assert forall|o2: Seq<char>, f2: Seq<char>|
        !(o2 == owner && f2 == fid) implies (#[trigger] has_record(rs2, o2, f2) <==> has_record(
        rs,
        o2,
        f2,
    )) by {
        if has_record(rs2, o2, f2) {
            let k = choose|k: int| 0 <= k < rs2.len() && rec_key_is(rs2[k], o2, f2);
            assert(k != i);
            assert(rec_key_is(rs[k], o2, f2));
        }
        if has_record(rs, o2, f2) {
            let k = choose|k: int| 0 <= k < rs.len() && rec_key_is(rs[k], o2, f2);
            assert(k != i) by {
                if k == i {
                    assert(o2 == owner && f2 == fid);
                }
            }
            assert(rec_key_is(rs2[k], o2, f2));
        }
    }
    assert forall|o2: Seq<char>, f2: Seq<char>|
        !(o2 == owner && f2 == fid) && #[trigger] has_record(rs, o2, f2) implies record_at(
        rs2,
        o2,
        f2,
    ) == record_at(rs, o2, f2) by {
        let k = choose|k: int| 0 <= k < rs.len() && rec_key_is(rs[k], o2, f2);
        assert(k != i) by {
            if k == i {
                assert(o2 == owner && f2 == fid);
            }
        }
        lemma_record_at_member(rs, k, o2, f2);
        lemma_record_at_member(rs2, k, o2, f2);
    }
}

/// Adding a record under a key the registry does not hold keeps the
/// invariant and leaves every other key's record as it was.
proof fn lemma_start_push_ok(
    pre: DownloadManager,
    post: DownloadManager,
    fresh: DownloadStatusRecView,
    owner: Seq<char>,
    fid: Seq<char>,
)
    requires
        pre.wf(),
        !has_record(pre.spec_records(), owner, fid),
        rec_key_is(fresh, owner, fid),
        fresh.status is Waiting,
        post.spec_records() == pre.spec_records().push(fresh),
        post.spec_active() == pre.spec_active(),
        post.spec_permits() == pre.spec_permits(),
        post.spec_capacity() == pre.spec_capacity(),
    ensures
        post.wf(),
        has_record(post.spec_records(), owner, fid),
        record_at(post.spec_records(), owner, fid) == fresh,
        forall|o2: Seq<char>, f2: Seq<char>|
            !(o2 == owner && f2 == fid) ==> (#[trigger] has_record(post.spec_records(), o2, f2)
                <==> has_record(pre.spec_records(), o2, f2)),
        forall|o2: Seq<char>, f2: Seq<char>|
            !(o2 == owner && f2 == fid) && #[trigger] has_record(pre.spec_records(), o2, f2)
                ==> record_at(post.spec_records(), o2, f2) == record_at(
                pre.spec_records(),
                o2,
                f2,
            ),
{
    let rs = pre.spec_records();
    let rs2 = post.spec_records();
    let n = rs.len() as int;
    assert(rs2[n] == fresh);
    assert forall|a: int, b: int|
        0 <= a < b < rs2.len() implies !rec_key_is(
        #[trigger] rs2[a],
        (#[trigger] rs2[b]).id.username,
        rs2[b].file_id,
    ) by {
        if b == n {
            assert(rs2[a] == rs[a]);
            if rec_key_is(rs[a], owner, fid) {
                assert(has_record(rs, owner, fid));
            }
        } else {
            assert(rs2[a] == rs[a]);
            assert(rs2[b] == rs[b]);
        }
    }
    assert forall|o: Seq<char>|
        #[trigger] used_of(post.spec_permits(), o) == count_downloading(rs2, o) by {
        lemma_count_push(rs, fresh, o);
    }
    lemma_record_at_member(rs2, n, owner, fid);
    assert forall|o2: Seq<char>, f2: Seq<char>|
        !(o2 == owner && f2 == fid) implies (#[trigger] has_record(rs2, o2, f2) <==> has_record(
        rs,
        o2,
        f2,
    )) by {
        if has_record(rs2, o2, f2) {
            let k = choose|k: int| 0 <= k < rs2.len() && rec_key_is(rs2[k], o2, f2);
            assert(k != n) by {
                if k == n {
                    assert(o2 == owner && f2 == fid);
                }
            }
            assert(rec_key_is(rs[k], o2, f2));
        }
        if has_record(rs, o2, f2) {
            let k = choose|k: int| 0 <= k < rs.len() && rec_key_is(rs[k], o2, f2);
            assert(rec_key_is(rs2[k], o2, f2));
        }
    }
    assert forall|o2: Seq<char>, f2: Seq<char>|
        !(o2 == owner && f2 == fid) && #[trigger] has_record(rs, o2, f2) implies record_at(
        rs2,
        o2,
        f2,
    ) == record_at(rs, o2, f2) by {
        let k = choose|k: int| 0 <= k < rs.len() && rec_key_is(rs[k], o2, f2);
        lemma_record_at_member(rs, k, o2, f2);
        lemma_record_at_member(rs2, k, o2, f2);
    }
}

} // verus!
