//! The live terminal view of the server: its rows, its overlays, and what a key does.
use crate::config::ReposConfig;
use crate::lifecycle::lemma_push_members;
use crate::handlers::{launch_message, ReindexLaunch};
use crate::stamps::Stamps;
use crate::state::{elapsed, ServeState};
use crate::status::{
    label_key, lock_mode_text, symbol_key, RepoStatusInfo, RepoStatusView,
};
use crate::text::{copy_opt, opt_text, same_text, texts};
use vstd::prelude::*;

verus! {

/// Footer flash shown when a local-index action key (doctor / reindex / remove) is pressed
/// while a mounted remote project is selected.
pub open spec fn remote_action_na() -> Seq<char> {
    "✗ doctor / reindex / remove don't apply to a remote mount"@
}

/// How long a footer flash is shown, in nanoseconds.
pub const FLASH_TTL: u64 = 4_000_000_000;

/// A row of the table.
pub struct RepoRow {
    pub alias: String,
    pub status: String,
    pub csharp_index: String,
    pub csharp_error: Option<String>,
    pub typescript_index: String,
    pub changes: u64,
    pub tool_call_count: u64,
    pub last_tool_call: Option<String>,
    pub lock_mode: String,
    pub path: String,
    pub is_remote: bool,
    pub activity_stale: bool,
}

/// A row of the table.
pub struct RowView {
    pub alias: Seq<char>,
    pub status: Seq<char>,
    pub csharp_index: Seq<char>,
    pub csharp_error: Option<Seq<char>>,
    pub typescript_index: Seq<char>,
    pub changes: u64,
    pub tool_call_count: u64,
    pub last_tool_call: Option<Seq<char>>,
    pub lock_mode: Seq<char>,
    pub path: Seq<char>,
    pub is_remote: bool,
    pub activity_stale: bool,
}

impl View for RepoRow {
    type V = RowView;

    open spec fn view(&self) -> RowView {
        RowView {
            alias: self.alias@,
            status: self.status@,
            csharp_index: self.csharp_index@,
            csharp_error: opt_text(self.csharp_error),
            typescript_index: self.typescript_index@,
            changes: self.changes,
            tool_call_count: self.tool_call_count,
            last_tool_call: opt_text(self.last_tool_call),
            lock_mode: self.lock_mode@,
            path: self.path@,
            is_remote: self.is_remote,
            activity_stale: self.activity_stale,
        }
    }
}

/// What a list of rows shows.
pub open spec fn row_views(rows: Seq<RepoRow>) -> Seq<RowView> {
    rows.map_values(|r: RepoRow| r@)
}

impl RepoRow {
    /// A copy of the row.
    pub fn copy(&self) -> (r: RepoRow)
        ensures
            r@ == self@,
    {
        RepoRow {
            alias: self.alias.clone(),
            status: self.status.clone(),
            csharp_index: self.csharp_index.clone(),
            csharp_error: copy_opt(&self.csharp_error),
            typescript_index: self.typescript_index.clone(),
            changes: self.changes,
            tool_call_count: self.tool_call_count,
            last_tool_call: copy_opt(&self.last_tool_call),
            lock_mode: self.lock_mode.clone(),
            path: self.path.clone(),
            is_remote: self.is_remote,
            activity_stale: self.activity_stale,
        }
    }
}

/// The row of a local repository. It carries live serve state: it is never stale.
pub open spec fn local_row(alias: Seq<char>, info: RepoStatusView, path: Option<Seq<char>>) -> RowView {
    RowView {
        alias,
        status: label_key(info.status),
        csharp_index: symbol_key(info.csharp_index),
        csharp_error: info.csharp_error,
        typescript_index: symbol_key(info.typescript_index),
        changes: info.changes,
        tool_call_count: info.tool_call_count,
        last_tool_call: info.last_tool_call,
        lock_mode: lock_mode_text(info.status),
        path: match path {
            Some(p) => p,
            None => Seq::empty(),
        },
        is_remote: false,
        activity_stale: false,
    }
}

/// The rows of the local repositories.
pub fn map_repo_rows(repos: &Vec<(String, RepoStatusInfo)>, config: &ReposConfig) -> (r: Vec<
    RepoRow,
>)
    ensures
        r@.len() == repos@.len(),
        forall|i: int|
            0 <= i < r@.len() ==> (#[trigger] r@[i])@ == local_row(
                repos@[i].0@,
                repos@[i].1@,
                config@.resolve(repos@[i].0@),
            ),
{
    let mut r: Vec<RepoRow> = Vec::new();
    let mut i: usize = 0;
    while i < repos.len()
        invariant
            i <= repos@.len(),
            r@.len() == i,
            forall|k: int|
                0 <= k < i ==> (#[trigger] r@[k])@ == local_row(
                    repos@[k].0@,
                    repos@[k].1@,
                    config@.resolve(repos@[k].0@),
                ),
        decreases repos.len() - i,
    {
        let info: &RepoStatusInfo = &repos[i].1;
        let path: String = match config.resolve(repos[i].0.as_str()) {
            Some(p) => p,
            None => String::new(),
        };
        r.push(
            RepoRow {
                alias: repos[i].0.clone(),
                status: info.status.as_str().to_owned(),
                csharp_index: info.csharp_index.as_str().to_owned(),
                csharp_error: copy_opt(&info.csharp_error),
                typescript_index: info.typescript_index.as_str().to_owned(),
                changes: info.changes,
                tool_call_count: info.tool_call_count,
                last_tool_call: copy_opt(&info.last_tool_call),
                lock_mode: info.status.lock_mode().to_owned(),
                path,
                is_remote: false,
                activity_stale: false,
            },
        );
        i += 1;
    }
    r
}

/// A mounted remote project: the name it has here, and where it lives.
pub struct Mount {
    pub local_name: String,
    pub peer: String,
    pub peer_url: String,
    pub remote_alias: String,
}

/// What a peer last told of one of its repositories.
pub struct RemoteStatus {
    pub peer: String,
    pub alias: String,
    pub status: String,
    pub lock_mode: String,
    pub changes: u64,
    pub tool_call_count: Option<u64>,
    pub last_tool_call: Option<String>,
}

/// What a peer last told of one of its repositories.
pub struct RemoteStatusView {
    pub peer: Seq<char>,
    pub alias: Seq<char>,
    pub status: Seq<char>,
    pub lock_mode: Seq<char>,
    pub changes: u64,
    pub tool_call_count: Option<u64>,
    pub last_tool_call: Option<Seq<char>>,
}

impl View for RemoteStatus {
    type V = RemoteStatusView;

    open spec fn view(&self) -> RemoteStatusView {
        RemoteStatusView {
            peer: self.peer@,
            alias: self.alias@,
            status: self.status@,
            lock_mode: self.lock_mode@,
            changes: self.changes,
            tool_call_count: self.tool_call_count,
            last_tool_call: opt_text(self.last_tool_call),
        }
    }
}

/// What is known of a repository of a peer; of several entries the last.
pub open spec fn known_status(known: Seq<RemoteStatus>, peer: Seq<char>, alias: Seq<char>) -> Option<
    RemoteStatusView,
>
    decreases known.len(),
{
    if known.len() == 0 {
        None
    } else if known.last().peer@ == peer && known.last().alias@ == alias {
        Some(known.last()@)
    } else {
        known_status(known.drop_last(), peer, alias)
    }
}

/// The row of a mounted remote project. What the peer told only enriches it.
pub open spec fn remote_row(m: Mount, known: Option<RemoteStatusView>) -> RowView {
    RowView {
        alias: m.local_name@,
        status: match known {
            Some(s) => s.status,
            None => "warm"@,
        },
        csharp_index: "none"@,
        csharp_error: None,
        typescript_index: "none"@,
        changes: match known {
            Some(s) => s.changes,
            None => 0,
        },
        tool_call_count: match known {
            Some(s) => match s.tool_call_count {
                Some(n) => n,
                None => 0,
            },
            None => 0,
        },
        last_tool_call: match known {
            Some(s) => s.last_tool_call,
            None => None,
        },
        lock_mode: match known {
            Some(s) => s.lock_mode,
            None => Seq::empty(),
        },
        path: m.peer_url@,
        is_remote: true,
        activity_stale: false,
    }
}

fn find_status<'a>(known: &'a Vec<RemoteStatus>, peer: &str, alias: &str) -> (r: Option<
    &'a RemoteStatus,
>)
    ensures
        match r {
            Some(s) => known_status(known@, peer@, alias@) == Some(s@),
            None => known_status(known@, peer@, alias@) is None,
        },
{
    let mut n: usize = known.len();
    assert(known@.take(n as int) =~= known@);
    while n > 0
        invariant
            n <= known@.len(),
            known_status(known@, peer@, alias@) == known_status(
                known@.take(n as int),
                peer@,
                alias@,
            ),
        decreases n,
    {
        assert(known@.take(n as int).drop_last() =~= known@.take(n - 1));
        assert(known@.take(n as int).last() == known@[n - 1]);
        if same_text(known[n - 1].peer.as_str(), peer) && same_text(
            known[n - 1].alias.as_str(),
            alias,
        ) {
            return Some(&known[n - 1]);
        }
        n -= 1;
    }
    None
}

/// Build the mounted remote-project rows. They always come from the mounts, so a mount never
/// vanishes when its peer is unreachable; what is known of the peer only enriches them.
pub fn build_remote_rows(mounts: &Vec<Mount>, known: &Vec<RemoteStatus>) -> (r: Vec<RepoRow>)
    ensures
        r@.len() == mounts@.len(),
        forall|i: int|
            0 <= i < r@.len() ==> (#[trigger] r@[i])@ == remote_row(
                mounts@[i],
                known_status(known@, mounts@[i].peer@, mounts@[i].remote_alias@),
            ),
{
    let mut r: Vec<RepoRow> = Vec::new();
    let mut i: usize = 0;
    while i < mounts.len()
        invariant
            i <= mounts@.len(),
            r@.len() == i,
            forall|k: int|
                0 <= k < i ==> (#[trigger] r@[k])@ == remote_row(
                    mounts@[k],
                    known_status(known@, mounts@[k].peer@, mounts@[k].remote_alias@),
                ),
        decreases mounts.len() - i,
    {
        let m: &Mount = &mounts[i];
        let st: Option<&RemoteStatus> = find_status(
            known,
            m.peer.as_str(),
            m.remote_alias.as_str(),
        );
        let row: RepoRow = match st {
            Some(s) => RepoRow {
                alias: m.local_name.clone(),
                status: s.status.clone(),
                csharp_index: "none".to_owned(),
                csharp_error: None,
                typescript_index: "none".to_owned(),
                changes: s.changes,
                tool_call_count: match s.tool_call_count {
                    Some(n) => n,
                    None => 0,
                },
                last_tool_call: copy_opt(&s.last_tool_call),
                lock_mode: s.lock_mode.clone(),
                path: m.peer_url.clone(),
                is_remote: true,
                activity_stale: false,
            },
            None => RepoRow {
                alias: m.local_name.clone(),
                status: "warm".to_owned(),
                csharp_index: "none".to_owned(),
                csharp_error: None,
                typescript_index: "none".to_owned(),
                changes: 0,
                tool_call_count: 0,
                last_tool_call: None,
                lock_mode: String::new(),
                path: m.peer_url.clone(),
                is_remote: true,
                activity_stale: false,
            },
        };
        assert(row@ == remote_row(
            mounts@[i as int],
            known_status(known@, mounts@[i as int].peer@, mounts@[i as int].remote_alias@),
        ));
        r.push(row);
        i += 1;
    }
    r
}

/// Whether a status is one of another peer.
pub open spec fn of_another(peer: Seq<char>) -> spec_fn(RemoteStatusView) -> bool {
    |s: RemoteStatusView| s.peer != peer
}

/// What a list of statuses tells.
pub open spec fn status_views(known: Seq<RemoteStatus>) -> Seq<RemoteStatusView> {
    known.map_values(|s: RemoteStatus| s@)
}

/// A status as one of `peer`.
pub open spec fn status_of_peer(s: RemoteStatus, peer: Seq<char>) -> RemoteStatusView {
    RemoteStatusView { peer, ..s@ }
}

/// What `peer` told, under its name.
pub open spec fn told_by(told: Seq<RemoteStatus>, peer: Seq<char>) -> Seq<RemoteStatusView> {
    told.map_values(|s: RemoteStatus| status_of_peer(s, peer))
}

/// A peer told the status of its repositories: it is kept under the name of the peer. What was
/// known of the peer before is dropped, so that a repository that vanished there vanishes here;
/// what is known of other peers stays.
pub fn peer_refreshed(known: &Vec<RemoteStatus>, peer: &str, told: &Vec<RemoteStatus>) -> (r: Vec<
    RemoteStatus,
>)
    ensures
        status_views(r@) == status_views(known@).filter(of_another(peer@)) + told_by(told@, peer@),
        forall|i: int|
            0 <= i < r@.len() && (#[trigger] r@[i])@.peer == peer@ ==> told_by(
                told@,
                peer@,
            ).contains(r@[i]@),
{
    let ghost all = status_views(known@);
    let ghost fresh = told_by(told@, peer@);
    let mut r: Vec<RemoteStatus> = Vec::new();
    let mut i: usize = 0;
    proof {
        reveal(Seq::filter);
        assert(status_views(r@) =~= all.take(0).filter(of_another(peer@)));
    }
    while i < known.len()
        invariant
            i <= known@.len(),
            all == status_views(known@),
            status_views(r@) == all.take(i as int).filter(of_another(peer@)),
        decreases known.len() - i,
    {
        let ghost before = r@;
        proof {
            reveal(Seq::filter);
            assert(all.take(i + 1).drop_last() =~= all.take(i as int));
        }
        if !same_text(known[i].peer.as_str(), peer) {
            r.push(known[i].copy());
            assert(status_views(r@) =~= status_views(before).push(all[i as int]));
        }
        i += 1;
    }
    assert(all.take(all.len() as int) =~= all);
    let ghost kept = status_views(r@);
    let mut k: usize = 0;
    assert(kept + fresh.take(0) =~= kept);
    while k < told.len()
        invariant
            k <= told@.len(),
            fresh == told_by(told@, peer@),
            status_views(r@) == kept + fresh.take(k as int),
        decreases told.len() - k,
    {
        let ghost before = r@;
        r.push(told[k].copy_for(peer));
        proof {
            assert(status_views(r@) =~= status_views(before).push(fresh[k as int]));
            assert(fresh.take(k + 1) =~= fresh.take(k as int).push(fresh[k as int]));
            assert(status_views(r@) =~= kept + fresh.take(k + 1));
        }
        k += 1;
    }
    assert(fresh.take(fresh.len() as int) =~= fresh);
    proof {
        assert forall|i: int| 0 <= i < r@.len() && (#[trigger] r@[i])@.peer == peer@ implies
            fresh.contains(r@[i]@) by {
            assert(status_views(r@)[i] == r@[i]@);
            if i < kept.len() {
                all.lemma_filter_pred(of_another(peer@), i);
            } else {
                assert(fresh[i - kept.len()] == r@[i]@);
            }
        }
    }
    r
}

impl RemoteStatus {
    fn copy(&self) -> (r: RemoteStatus)
        ensures
            r@ == self@,
    {
        self.copy_for(self.peer.as_str())
    }

    fn copy_for(&self, peer: &str) -> (r: RemoteStatus)
        ensures
            r@ == status_of_peer(*self, peer@),
    {
        RemoteStatus {
            peer: peer.to_owned(),
            alias: self.alias.clone(),
            status: self.status.clone(),
            lock_mode: self.lock_mode.clone(),
            changes: self.changes,
            tool_call_count: self.tool_call_count,
            last_tool_call: copy_opt(&self.last_tool_call),
        }
    }
}

/// The peer that a row belongs to; of several mounts of a name the last counts.
pub open spec fn peer_of(mounts: Seq<Mount>, alias: Seq<char>) -> Option<Seq<char>>
    decreases mounts.len(),
{
    if mounts.len() == 0 {
        None
    } else if mounts.last().local_name@ == alias {
        Some(mounts.last().peer@)
    } else {
        peer_of(mounts.drop_last(), alias)
    }
}

fn find_peer<'a>(mounts: &'a Vec<Mount>, alias: &str) -> (r: Option<&'a str>)
    ensures
        match r {
            Some(p) => peer_of(mounts@, alias@) == Some(p@),
            None => peer_of(mounts@, alias@) is None,
        },
{
    let mut n: usize = mounts.len();
    assert(mounts@.take(n as int) =~= mounts@);
    while n > 0
        invariant
            n <= mounts@.len(),
            peer_of(mounts@, alias@) == peer_of(mounts@.take(n as int), alias@),
        decreases n,
    {
        assert(mounts@.take(n as int).drop_last() =~= mounts@.take(n - 1));
        assert(mounts@.take(n as int).last() == mounts@[n - 1]);
        if same_text(mounts[n - 1].local_name.as_str(), alias) {
            return Some(mounts[n - 1].peer.as_str());
        }
        n -= 1;
    }
    None
}

/// Whether one of the rows belongs to `peer`.
pub open spec fn has_row_of(rows: Seq<RowView>, mounts: Seq<Mount>, peer: Seq<char>) -> bool {
    exists|i: int| 0 <= i < rows.len() && peer_of(mounts, (#[trigger] rows[i]).alias) == Some(peer)
}

/// Whether `peer` was used since its high-water mark was taken.
pub open spec fn advanced(
    marks: Map<Seq<char>, u64>,
    activity: Map<Seq<char>, u64>,
    peer: Seq<char>,
) -> bool {
    marks.contains_key(peer) && activity.contains_key(peer) && activity[peer] > marks[peer]
}

/// The high-water mark of `peer` after a look at its activity.
pub open spec fn mark_after(
    marks: Map<Seq<char>, u64>,
    activity: Map<Seq<char>, u64>,
    peer: Seq<char>,
) -> Option<u64> {
    if activity.contains_key(peer) && (!marks.contains_key(peer) || activity[peer] > marks[peer]) {
        Some(activity[peer])
    } else if marks.contains_key(peer) {
        Some(marks[peer])
    } else {
        None
    }
}

/// The entry of a table, if there is one.
pub open spec fn entry(m: Map<Seq<char>, u64>, k: Seq<char>) -> Option<u64> {
    if m.contains_key(k) {
        Some(m[k])
    } else {
        None
    }
}

/// Whether the activity of `peer` is shown as stale: it was not refreshed within `window`.
pub open spec fn is_stale(
    refreshed: Map<Seq<char>, u64>,
    peer: Seq<char>,
    now: u64,
    window: u64,
) -> bool {
    !(refreshed.contains_key(peer) && elapsed(now, refreshed[peer]) < window)
}

/// A row after a look at the activity of its peer.
pub open spec fn attended(
    row: RowView,
    mounts: Seq<Mount>,
    refreshed: Map<Seq<char>, u64>,
    now: u64,
    window: u64,
) -> RowView {
    match peer_of(mounts, row.alias) {
        Some(p) => RowView { activity_stale: is_stale(refreshed, p, now, window), ..row },
        None => row,
    }
}

/// Whether a look at the activity of the peers leaves the marks `after` and the list `pokes`
/// of the peers to refresh: exactly those whose activity advanced past a mark, once each. A
/// peer that is seen for the first time gets its mark and is not poked.
pub open spec fn looked(
    rows: Seq<RowView>,
    mounts: Seq<Mount>,
    activity: Map<Seq<char>, u64>,
    marks: Map<Seq<char>, u64>,
    after: Map<Seq<char>, u64>,
    pokes: Seq<Seq<char>>,
) -> bool {
    &&& forall|p: Seq<char>| #[trigger]
        entry(after, p) == (if has_row_of(rows, mounts, p) {
            mark_after(marks, activity, p)
        } else {
            entry(marks, p)
        })
    &&& pokes.no_duplicates()
    &&& forall|p: Seq<char>| #[trigger]
        pokes.contains(p) <==> has_row_of(rows, mounts, p) && advanced(marks, activity, p)
}

/// A peer that nobody uses is never contacted: a second look without activity in between
/// pokes no one.
pub proof fn law_idle_peers_are_left_alone(
    rows: Seq<RowView>,
    mounts: Seq<Mount>,
    activity: Map<Seq<char>, u64>,
    marks: Map<Seq<char>, u64>,
    after: Map<Seq<char>, u64>,
    pokes: Seq<Seq<char>>,
    last: Map<Seq<char>, u64>,
    again: Seq<Seq<char>>,
)
    requires
        looked(rows, mounts, activity, marks, after, pokes),
        looked(rows, mounts, activity, after, last, again),
    ensures
        again.len() == 0,
{
    if again.len() > 0 {
        let p = again[0];
        assert(again.contains(p));
        assert(entry(after, p) == mark_after(marks, activity, p));
    }
}

/// The rows of the mounted remote projects, and what is remembered of their peers.
pub struct RemoteRows {
    pub rows: Vec<RepoRow>,
    /// When each peer was last refreshed.
    pub refreshed: Stamps,
    /// The high-water mark of the activity of each peer.
    pub marks: Stamps,
}

/// A refresh time of a peer.
pub struct Refreshed {
    pub peer: String,
    pub at: u64,
}

/// The refresh times after those of `told` came in, in order.
pub open spec fn refreshed_with(m: Map<Seq<char>, u64>, told: Seq<Refreshed>) -> Map<Seq<char>, u64>
    decreases told.len(),
{
    if told.len() == 0 {
        m
    } else {
        refreshed_with(m, told.drop_last()).insert(told.last().peer@, told.last().at)
    }
}

proof fn lemma_has_row_step(rows: Seq<RowView>, mounts: Seq<Mount>, i: int)
    requires
        0 <= i < rows.len(),
    ensures
        forall|q: Seq<char>| #[trigger]
            has_row_of(rows.take(i + 1), mounts, q) <==> has_row_of(rows.take(i), mounts, q)
                || peer_of(mounts, rows[i].alias) == Some(q),
{
    assert forall|q: Seq<char>| #[trigger]
        has_row_of(rows.take(i + 1), mounts, q) <==> has_row_of(rows.take(i), mounts, q) || peer_of(
            mounts,
            rows[i].alias,
        ) == Some(q) by {
        let now = rows.take(i + 1);
        let seen = rows.take(i);
        if has_row_of(seen, mounts, q) {
            let k = choose|k: int|
                0 <= k < seen.len() && peer_of(mounts, (#[trigger] seen[k]).alias) == Some(q);
            assert(now[k] == seen[k]);
        }
        if peer_of(mounts, rows[i].alias) == Some(q) {
            assert(now[i] == rows[i]);
        }
        if has_row_of(now, mounts, q) {
            let k = choose|k: int|
                0 <= k < now.len() && peer_of(mounts, (#[trigger] now[k]).alias) == Some(q);
            if k < i {
                assert(seen[k] == now[k]);
            }
        }
    }
}

impl RemoteRows {
    /// No rows, and nothing known.
    pub fn new() -> (r: RemoteRows)
        ensures
            r.rows@.len() == 0,
            r.refreshed@ == Map::<Seq<char>, u64>::empty(),
            r.marks@ == Map::<Seq<char>, u64>::empty(),
    {
        RemoteRows { rows: Vec::new(), refreshed: Stamps::new(), marks: Stamps::new() }
    }

    /// Absorbs a snapshot of the rows and of the refresh times.
    pub fn absorb(&mut self, rows: Vec<RepoRow>, told: &Vec<Refreshed>)
        ensures
            final(self).rows == rows,
            final(self).refreshed@ == refreshed_with(old(self).refreshed@, told@),
            final(self).marks == old(self).marks,
    {
        self.rows = rows;
        let ghost before = self.refreshed@;
        let mut i: usize = 0;
        while i < told.len()
            invariant
                i <= told@.len(),
                self.rows == rows,
                self.marks == old(self).marks,
                self.refreshed@ == refreshed_with(before, told@.take(i as int)),
            decreases told.len() - i,
        {
            self.refreshed.put(told[i].peer.as_str(), told[i].at);
            assert(told@.take(i + 1).drop_last() =~= told@.take(i as int));
            i += 1;
        }
        assert(told@.take(told@.len() as int) =~= told@);
    }

    /// Looks at the activity of the peers: marks each row stale or fresh by the last refresh of
    /// its peer, and returns the peers to refresh, those that a real tool call used since the
    /// last look. Nothing else ever contacts a peer, so that one that scaled to zero stays
    /// asleep.
    pub fn look(&mut self, mounts: &Vec<Mount>, state: &ServeState, now: u64, fresh_window: u64) -> (r:
        Vec<String>)
        ensures
            final(self).rows@.len() == old(self).rows@.len(),
            forall|i: int|
                0 <= i < old(self).rows@.len() ==> (#[trigger] final(self).rows@[i])@ == attended(
                    old(self).rows@[i]@,
                    mounts@,
                    old(self).refreshed@,
                    now,
                    fresh_window,
                ),
            final(self).refreshed == old(self).refreshed,
            looked(
                row_views(old(self).rows@),
                mounts@,
                state@.peers,
                old(self).marks@,
                final(self).marks@,
                texts(r@),
            ),
    {
        let ghost rows0 = row_views(self.rows@);
        let ghost marks0 = self.marks@;
        let ghost old_rows = self.rows@;
        let ghost activity = state@.peers;
        let mut pokes: Vec<String> = Vec::new();
        let mut i: usize = 0;
        proof {
            assert forall|p: Seq<char>| !has_row_of(rows0.take(0), mounts@, p) by {}
            assert(texts(pokes@) =~= Seq::empty());
        }
        while i < self.rows.len()
            invariant
                i <= self.rows@.len(),
                self.rows@.len() == old_rows.len(),
                rows0 == row_views(old_rows),
                activity == state@.peers,
                self.refreshed == old(self).refreshed,
                forall|k: int|
                    0 <= k < i ==> (#[trigger] self.rows@[k])@ == attended(
                        old_rows[k]@,
                        mounts@,
                        self.refreshed@,
                        now,
                        fresh_window,
                    ),
                forall|k: int| i <= k < old_rows.len() ==> #[trigger] self.rows@[k] == old_rows[k],
                looked(rows0.take(i as int), mounts@, activity, marks0, self.marks@, texts(pokes@)),
            decreases self.rows.len() - i,
        {
            let ghost seen = rows0.take(i as int);
            let ghost marks1 = self.marks@;
            let ghost pokes1 = texts(pokes@);
            proof {
                lemma_has_row_step(rows0, mounts@, i as int);
                assert(rows0[i as int].alias == self.rows@[i as int].alias@);
            }
            let found: Option<&str> = find_peer(mounts, self.rows[i].alias.as_str());
            match found {
                Some(peer) => {
                    let ghost p = peer@;
                    let fresh: bool = match self.refreshed.get(peer) {
                        Some(at) => (if now >= at {
                            now - at
                        } else {
                            0
                        }) < fresh_window,
                        None => false,
                    };
                    let mut row: RepoRow = self.rows[i].copy();
                    row.activity_stale = !fresh;
                    self.rows.set(i, row);
                    assert(entry(marks1, p) == (if has_row_of(seen, mounts@, p) {
                        mark_after(marks0, activity, p)
                    } else {
                        entry(marks0, p)
                    }));
                    match state.remote_peer_last_activity(peer) {
                        Some(at) => match self.marks.get(peer) {
                            None => {
                                self.marks.put(peer, at);
                            },
                            Some(prev) => {
                                if at > prev {
                                    let ghost before = pokes@;
                                    pokes.push(peer.to_owned());
                                    self.marks.put(peer, at);
                                    proof {
                                        assert(!has_row_of(seen, mounts@, p));
                                        assert(!pokes1.contains(p));
                                        assert(texts(pokes@) =~= pokes1.push(p));
                                        lemma_push_members(pokes1, p);
                                    }
                                }
                            },
                        },
                        None => {},
                    }
                    proof {
                        let marks2 = self.marks@;
                        let next = rows0.take(i + 1);
                        assert forall|q: Seq<char>| #[trigger]
                            entry(marks2, q) == (if has_row_of(next, mounts@, q) {
                                mark_after(marks0, activity, q)
                            } else {
                                entry(marks0, q)
                            }) by {
                            assert(entry(marks1, q) == (if has_row_of(seen, mounts@, q) {
                                mark_after(marks0, activity, q)
                            } else {
                                entry(marks0, q)
                            }));
                        }
                        assert forall|q: Seq<char>| #[trigger]
                            texts(pokes@).contains(q) <==> has_row_of(next, mounts@, q)
                                && advanced(marks0, activity, q) by {
                            assert(pokes1.contains(q) <==> has_row_of(seen, mounts@, q)
                                && advanced(marks0, activity, q));
                        }
                    }
                },
                None => {
                    proof {
                        let next = rows0.take(i + 1);
                        assert forall|q: Seq<char>| has_row_of(next, mounts@, q) == has_row_of(
                            seen,
                            mounts@,
                            q,
                        ) by {}
                    }
                },
            }
            i += 1;
        }
        assert(rows0.take(old_rows.len() as int) =~= rows0);
        pokes
    }
}

/// Index stats of a remote mount, as its peer tells them.
pub struct RemoteIndexStats {
    pub path: String,
    pub chunks: u64,
    pub files: u64,
    pub db_size_human: String,
    pub model: String,
}

/// What is known of the index of a remote mount.
pub enum RemoteStatsState {
    Loading,
    Ready(RemoteIndexStats),
    Unavailable,
}

/// What is shown of a remote mount.
pub struct RemoteInfo {
    pub alias: String,
    pub peer_url: String,
    pub status: String,
    pub lock: String,
    pub changes: u64,
    pub tool_call_count: u64,
    pub last_tool_call: Option<String>,
    pub stats: RemoteStatsState,
}

/// What lies over the table.
pub enum Overlay {
    /// The index stats of a local repository.
    Info(String, crate::info::RepoInfo),
    RemoteInfo(RemoteInfo),
    DoctorRunning(String),
    /// The results of a diagnosis.
    Doctor(String, Vec<String>),
    ConfirmRemove(String),
}

/// Whether `i` shows what a row tells of a remote mount, apart from its index stats.
pub open spec fn shows_mount(i: RemoteInfo, row: RowView) -> bool {
    &&& i.alias@ == row.alias
    &&& i.peer_url@ == row.path
    &&& i.status@ == row.status
    &&& i.lock@ == (if row.lock_mode.len() == 0 {
        "—"@
    } else {
        row.lock_mode
    })
    &&& i.changes == row.changes
    &&& i.tool_call_count == row.tool_call_count
    &&& opt_text(i.last_tool_call) == row.last_tool_call
}

/// What is shown of a mounted remote project: its federation coordinates and what the row
/// tells; its index stats live on the peer and are still to come.
pub fn build_remote_info_overlay(row: &RepoRow) -> (r: RemoteInfo)
    ensures
        shows_mount(r, row@),
        r.stats is Loading,
{
    RemoteInfo {
        alias: row.alias.clone(),
        peer_url: row.path.clone(),
        status: row.status.clone(),
        lock: if row.lock_mode.as_str().unicode_len() == 0 {
            "—".to_owned()
        } else {
            row.lock_mode.clone()
        },
        changes: row.changes,
        tool_call_count: row.tool_call_count,
        last_tool_call: copy_opt(&row.last_tool_call),
        stats: RemoteStatsState::Loading,
    }
}

/// Replaces the stats of a remote mount, leaving any other overlay untouched.
pub fn with_remote_stats(overlay: Overlay, stats: RemoteStatsState) -> (r: Overlay)
    ensures
        r == (match overlay {
            Overlay::RemoteInfo(i) => Overlay::RemoteInfo(RemoteInfo { stats, ..i }),
            _ => overlay,
        }),
{
    match overlay {
        Overlay::RemoteInfo(i) => Overlay::RemoteInfo(
            RemoteInfo {
                alias: i.alias,
                peer_url: i.peer_url,
                status: i.status,
                lock: i.lock,
                changes: i.changes,
                tool_call_count: i.tool_call_count,
                last_tool_call: i.last_tool_call,
                stats,
            },
        ),
        other => other,
    }
}

/// What a key asks for; an index is that of a row.
#[derive(Debug, Clone, Copy, PartialEq, Eq, Structural)]
pub enum KeyAction {
    Reload,
    ShowInfo(usize),
    RunDoctor(usize),
    ForceReindex(usize),
    RequestRemove(usize),
    Nothing,
}

/// What a key asks for while an overlay is shown.
#[derive(Debug, Clone, Copy, PartialEq, Eq, Structural)]
pub enum OverlayKeyAction {
    Dismiss,
    ConfirmRemove,
}

/// What is to be done after a key.
pub enum TuiEffect {
    Nothing,
    /// The configuration is read again.
    Reload,
    /// The index stats of a local repository are gathered and shown.
    GatherInfo(String),
    /// The index stats of a remote mount are fetched from its peer, for this generation.
    FetchRemote(String, u64),
    /// A diagnosis is run, for this generation.
    RunDoctor(String, u64),
    /// A force reindex is started.
    Reindex(String),
}

/// The live view.
pub struct Tui {
    pub rows: Vec<RepoRow>,
    /// How many of the rows, from the first on, are local repositories.
    pub local: usize,
    pub selected: usize,
    pub overlay: Option<Overlay>,
    /// A message in the footer, and when it was put there.
    pub flash: Option<(String, u64)>,
    /// The number of the latest request whose result comes later.
    pub generation: u64,
}

impl Tui {
    /// Whether the local rows are among the rows.
    pub open spec fn well_formed(self) -> bool {
        self.local <= self.rows@.len()
    }

    /// The view before its first frame.
    pub fn new() -> (r: Tui)
        ensures
            r.well_formed(),
            r.rows@.len() == 0,
            r.selected == 0,
            r.overlay is None,
            r.flash is None,
            r.generation == 0,
    {
        Tui {
            rows: Vec::new(),
            local: 0,
            selected: 0,
            overlay: None,
            flash: None,
            generation: 0,
        }
    }

    /// Begins a frame: the local rows come first, then the remote ones. The selection is kept
    /// within the rows, and a flash that was shown long enough goes.
    pub fn frame(&mut self, local: Vec<RepoRow>, remote: &Vec<RepoRow>, now: u64)
        ensures
            final(self).well_formed(),
            row_views(final(self).rows@) == row_views(local@) + row_views(remote@),
            final(self).local == local@.len(),
            final(self).selected == (if local@.len() + remote@.len() > 0 && old(self).selected
                >= local@.len() + remote@.len() {
                (local@.len() + remote@.len() - 1) as usize
            } else {
                old(self).selected
            }),
            final(self).flash == (match old(self).flash {
                Some(f) => if elapsed(now, f.1) >= FLASH_TTL {
                    None
                } else {
                    Some(f)
                },
                None => None,
            }),
            final(self).overlay == old(self).overlay,
            final(self).generation == old(self).generation,
    {
        let n: usize = local.len();
        let ghost first = row_views(local@);
        let ghost second = row_views(remote@);
        let mut rows: Vec<RepoRow> = local;
        let mut i: usize = 0;
        assert(first + second.take(0) =~= first);
        while i < remote.len()
            invariant
                i <= remote@.len(),
                second == row_views(remote@),
                row_views(rows@) == first + second.take(i as int),
                rows@.len() == n + i,
            decreases remote.len() - i,
        {
            let ghost before = rows@;
            rows.push(remote[i].copy());
            proof {
                assert(row_views(rows@) =~= row_views(before).push(second[i as int]));
                assert(second.take(i + 1) =~= second.take(i as int).push(second[i as int]));
                assert(row_views(rows@) =~= first + second.take(i + 1));
            }
            i += 1;
        }
        assert(second.take(second.len() as int) =~= second);
        if rows.len() > 0 && self.selected >= rows.len() {
            self.selected = rows.len() - 1;
        }
        let over: bool = match &self.flash {
            Some(f) => (if now >= f.1 {
                now - f.1
            } else {
                0
            }) >= FLASH_TTL,
            None => false,
        };
        if over {
            self.flash = None;
        }
        self.rows = rows;
        self.local = n;
    }

    /// Whether the view waits for a result.
    pub open spec fn awaits(self, generation: u64) -> bool {
        &&& generation == self.generation
        &&& match self.overlay {
            Some(Overlay::DoctorRunning(_)) => true,
            Some(Overlay::RemoteInfo(_)) => true,
            _ => false,
        }
    }

    /// The result of a request came. It is shown only if it is that of the latest request and
    /// the user still waits for it; otherwise it is stale, and dropped.
    pub fn result_arrived(&mut self, generation: u64, result: Overlay)
        ensures
            *final(self) == (if old(self).awaits(generation) {
                Tui { overlay: Some(result), ..*old(self) }
            } else {
                *old(self)
            }),
    {
        let waiting: bool = match &self.overlay {
            Some(Overlay::DoctorRunning(_)) => true,
            Some(Overlay::RemoteInfo(_)) => true,
            _ => false,
        };
        if waiting && generation == self.generation {
            self.overlay = Some(result);
        }
    }

    /// A key was pressed while an overlay is shown: it goes. If it asked whether to remove a
    /// repository and the key confirms, that repository is returned, to be removed.
    pub fn overlay_key(&mut self, action: OverlayKeyAction) -> (r: Option<String>)
        ensures
            *final(self) == (Tui { overlay: None, ..*old(self) }),
            r == (match (action, old(self).overlay) {
                (OverlayKeyAction::ConfirmRemove, Some(Overlay::ConfirmRemove(alias))) => Some(
                    alias,
                ),
                _ => None,
            }),
    {
        let mut shown: Option<Overlay> = None;
        std::mem::swap(&mut shown, &mut self.overlay);
        match (action, shown) {
            (OverlayKeyAction::ConfirmRemove, Some(Overlay::ConfirmRemove(alias))) => Some(alias),
            _ => None,
        }
    }

    fn refuse_remote(&mut self, now: u64)
        ensures
            final(self).flash matches Some(f) && f.0@ == remote_action_na() && f.1 == now,
            *final(self) == (Tui { flash: final(self).flash, ..*old(self) }),
    {
        self.flash =
        Some(
            ("✗ doctor / reindex / remove don't apply to a remote mount".to_owned(), now),
        );
    }

    /// A key was pressed while no overlay is shown. `mount_resolves` tells whether the mount of
    /// a remote row still resolves to a peer.
    ///
    /// Doctor, reindex and remove work on a local index: on a remote mount they only flash that
    /// they do not apply. A request whose result comes later takes a new generation.
    pub fn key(&mut self, action: KeyAction, mount_resolves: bool, now: u64) -> (r: TuiEffect)
        requires
            old(self).well_formed(),
            old(self).generation < u64::MAX,
        ensures
            final(self).rows == old(self).rows,
            final(self).local == old(self).local,
            final(self).selected == old(self).selected,
            match action {
                KeyAction::Nothing => r is Nothing && *final(self) == *old(self),
                KeyAction::Reload => r is Reload && *final(self) == *old(self),
                KeyAction::ShowInfo(i) => if i < old(self).local {
                    &&& r matches TuiEffect::GatherInfo(a) && a@ == old(self).rows@[i as int].alias@
                    &&& *final(self) == *old(self)
                } else if i < old(self).rows@.len() {
                    &&& final(self).generation == old(self).generation + 1
                    &&& final(self).flash == old(self).flash
                    &&& final(self).overlay matches Some(Overlay::RemoteInfo(info)) && shows_mount(
                        info,
                        old(self).rows@[i as int]@,
                    ) && if mount_resolves {
                        info.stats is Loading && (r matches TuiEffect::FetchRemote(a, g) && a@
                            == old(self).rows@[i as int].alias@ && g == final(self).generation)
                    } else {
                        info.stats is Unavailable && r is Nothing
                    }
                } else {
                    r is Nothing && *final(self) == *old(self)
                },
                KeyAction::RunDoctor(i) => if i < old(self).local {
                    &&& final(self).generation == old(self).generation + 1
                    &&& final(self).flash == old(self).flash
                    &&& final(self).overlay matches Some(Overlay::DoctorRunning(a)) && a@
                        == old(self).rows@[i as int].alias@
                    &&& r matches TuiEffect::RunDoctor(a, g) && a@ == old(self).rows@[i as int].alias@ && g == final(self).generation
                } else {
                    &&& r is Nothing
                    &&& final(self).flash matches Some(f) && f.0@ == remote_action_na() && f.1 == now
                    &&& *final(self) == (Tui { flash: final(self).flash, ..*old(self) })
                },
                KeyAction::ForceReindex(i) => if i < old(self).local {
                    &&& r matches TuiEffect::Reindex(a) && a@ == old(self).rows@[i as int].alias@
                    &&& *final(self) == *old(self)
                } else {
                    &&& r is Nothing
                    &&& final(self).flash matches Some(f) && f.0@ == remote_action_na() && f.1 == now
                    &&& *final(self) == (Tui { flash: final(self).flash, ..*old(self) })
                },
                KeyAction::RequestRemove(i) => if i < old(self).local {
                    &&& r is Nothing
                    &&& final(self).overlay matches Some(Overlay::ConfirmRemove(a)) && a@
                        == old(self).rows@[i as int].alias@
                    &&& *final(self) == (Tui { overlay: final(self).overlay, ..*old(self) })
                } else {
                    &&& r is Nothing
                    &&& final(self).flash matches Some(f) && f.0@ == remote_action_na() && f.1 == now
                    &&& *final(self) == (Tui { flash: final(self).flash, ..*old(self) })
                },
            },
    {
        match action {
            KeyAction::Nothing => TuiEffect::Nothing,
            KeyAction::Reload => TuiEffect::Reload,
            KeyAction::ShowInfo(i) => {
                if i < self.local {
                    return TuiEffect::GatherInfo(self.rows[i].alias.clone());
                }
                if i >= self.rows.len() {
                    return TuiEffect::Nothing;
                }
                let mut base: RemoteInfo = build_remote_info_overlay(&self.rows[i]);
                self.generation = self.generation + 1;
                if mount_resolves {
                    self.overlay = Some(Overlay::RemoteInfo(base));
                    TuiEffect::FetchRemote(self.rows[i].alias.clone(), self.generation)
                } else {
                    base.stats = RemoteStatsState::Unavailable;
                    self.overlay = Some(Overlay::RemoteInfo(base));
                    TuiEffect::Nothing
                }
            },
            KeyAction::RunDoctor(i) => {
                if i < self.local {
                    let alias: String = self.rows[i].alias.clone();
                    self.overlay = Some(Overlay::DoctorRunning(alias.clone()));
                    self.generation = self.generation + 1;
                    TuiEffect::RunDoctor(alias, self.generation)
                } else {
                    self.refuse_remote(now);
                    TuiEffect::Nothing
                }
            },
            KeyAction::ForceReindex(i) => {
                if i < self.local {
                    TuiEffect::Reindex(self.rows[i].alias.clone())
                } else {
                    self.refuse_remote(now);
                    TuiEffect::Nothing
                }
            },
            KeyAction::RequestRemove(i) => {
                if i < self.local {
                    self.overlay = Some(Overlay::ConfirmRemove(self.rows[i].alias.clone()));
                    TuiEffect::Nothing
                } else {
                    self.refuse_remote(now);
                    TuiEffect::Nothing
                }
            },
        }
    }

    /// A force reindex was started, or not: the footer tells.
    pub fn reindex_launched(&mut self, launch: ReindexLaunch, alias: &str, now: u64)
        ensures
            *final(self) == (Tui { flash: final(self).flash, ..*old(self) }),
            final(self).flash matches Some(f) && f.1 == now && f.0@ == (match launch {
                ReindexLaunch::Started => "⟳ Reindex started for '"@ + alias@ + "' …"@,
                ReindexLaunch::AlreadyRunning => "⟳ Reindex already running for '"@ + alias@ + "'"@,
                ReindexLaunch::Failed => "✗ Cannot reindex '"@ + alias@ + "' — see logs"@,
            }),
    {
        self.flash = Some((launch_message(launch, alias), now));
    }

    /// The index stats of a local repository were gathered; without any, nothing is shown.
    pub fn info_gathered(&mut self, alias: String, info: Option<crate::info::RepoInfo>)
        ensures
            *final(self) == (match info {
                Some(i) => Tui { overlay: Some(Overlay::Info(alias, i)), ..*old(self) },
                None => *old(self),
            }),
    {
        match info {
            Some(i) => {
                self.overlay = Some(Overlay::Info(alias, i));
            },
            None => {},
        }
    }
}

/// A result that comes after a newer request is dropped: whatever it shows, the view does not
/// wait for an older generation.
pub proof fn law_late_results_are_dropped(before: Tui, after: Tui, older: u64)
    requires
        older <= before.generation,
        after.generation == before.generation + 1,
    ensures
        !after.awaits(older),
{
}

} // verus!
