//! What the screen shows, and what its keys do.
use crate::config::ReposConfig;
use crate::handlers::ReindexLaunch;
use crate::info::RepoInfo;
use crate::state::ServeState;
use crate::status::{RepoStateLabel, RepoStatusInfo};
use crate::text::{occurs_in, opt_text, texts};
use crate::tui::{
    build_remote_info_overlay, build_remote_rows, known_status, map_repo_rows, peer_of,
    peer_refreshed, refreshed_with, row_views, status_views, told_by, with_remote_stats, KeyAction,
    Mount, Overlay, OverlayKeyAction, Refreshed, RemoteInfo, RemoteRows, RemoteStatsState,
    RemoteStatus, RepoRow, Tui, TuiEffect,
};
use vstd::prelude::*;

verus! {

/// A row of a repository of this server tells its status, its counters and its path.
pub proof fn law_local_rows(
    repos: Vec<(String, RepoStatusInfo)>,
    config: ReposConfig,
    r: Vec<RepoRow>,
    i: int,
    alias: &str,
    path: Option<String>,
    key: &'static str,
    mode: &'static str,
)
    requires
        call_ensures(map_repo_rows, (&repos, &config), r),
        0 <= i < repos@.len(),
        alias@ == repos@[i].0@,
        call_ensures(ReposConfig::resolve, (&config, alias), path),
        call_ensures(RepoStateLabel::as_str, (&repos@[i].1.status,), key),
        call_ensures(RepoStateLabel::lock_mode, (&repos@[i].1.status,), mode),
    ensures
        r@.len() == repos@.len(),
        ({
            let row = r@[i];
            let info = repos@[i].1;
            &&& row.alias@ == repos@[i].0@
            &&& row.status@ == key@
            &&& row.lock_mode@ == mode@
            &&& row.changes == info.changes
            &&& row.tool_call_count == info.tool_call_count
            &&& opt_text(row.last_tool_call) == opt_text(info.last_tool_call)
            &&& opt_text(row.csharp_error) == opt_text(info.csharp_error)
            &&& path matches Some(p) ==> row.path@ == p@
            &&& path is None ==> row.path@.len() == 0
            &&& !row.is_remote
            &&& !row.activity_stale
        }),
{
    let row = r@[i];
    let info = repos@[i].1;
    assert(row@ == crate::tui::local_row(repos@[i].0@, info@, config@.resolve(repos@[i].0@)));
    assert(info@.status == info.status);
    assert(row@.status == row.status@);
}

proof fn lemma_known(known: Seq<RemoteStatus>, peer: Seq<char>, alias: Seq<char>, k: int)
    requires
        0 <= k < known.len(),
        known[k].peer@ == peer,
        known[k].alias@ == alias,
        forall|j: int|
            k < j < known.len() ==> (#[trigger] known[j]).peer@ != peer || known[j].alias@ != alias,
    ensures
        known_status(known, peer, alias) == Some(known[k]@),
    decreases known.len(),
{
    if k < known.len() - 1 {
        assert(known[known.len() - 1].peer@ != peer || known[known.len() - 1].alias@ != alias);
        lemma_known(known.drop_last(), peer, alias, k);
    }
}

proof fn lemma_not_known(known: Seq<RemoteStatus>, peer: Seq<char>, alias: Seq<char>)
    requires
        forall|j: int|
            0 <= j < known.len() ==> (#[trigger] known[j]).peer@ != peer || known[j].alias@
                != alias,
    ensures
        known_status(known, peer, alias) is None,
    decreases known.len(),
{
    if known.len() > 0 {
        assert(known[known.len() - 1].peer@ != peer || known[known.len() - 1].alias@ != alias);
        lemma_not_known(known.drop_last(), peer, alias);
    }
}

/// A row of a mount tells what its peer told last of it; one that nothing is known of is warm.
pub proof fn law_remote_rows(
    mounts: Vec<Mount>,
    known: Vec<RemoteStatus>,
    r: Vec<RepoRow>,
    i: int,
    k: int,
)
    requires
        call_ensures(build_remote_rows, (&mounts, &known), r),
        0 <= i < mounts@.len(),
    ensures
        r@.len() == mounts@.len(),
        r@[i].alias@ == mounts@[i].local_name@,
        r@[i].path@ == mounts@[i].peer_url@,
        r@[i].is_remote,
        0 <= k < known@.len() && known@[k].peer@ == mounts@[i].peer@ && known@[k].alias@
            == mounts@[i].remote_alias@ && (forall|j: int|
            k < j < known@.len() ==> (#[trigger] known@[j]).peer@ != mounts@[i].peer@
                || known@[j].alias@ != mounts@[i].remote_alias@) ==> r@[i].status@
            == known@[k].status@ && r@[i].lock_mode@ == known@[k].lock_mode@ && r@[i].changes
            == known@[k].changes && opt_text(r@[i].last_tool_call) == opt_text(
            known@[k].last_tool_call,
        ) && (known@[k].tool_call_count matches Some(n) ==> r@[i].tool_call_count == n),
        (forall|j: int|
            0 <= j < known@.len() ==> (#[trigger] known@[j]).peer@ != mounts@[i].peer@
                || known@[j].alias@ != mounts@[i].remote_alias@) ==> r@[i].status@ == "warm"@
            && r@[i].changes == 0 && r@[i].tool_call_count == 0 && r@[i].last_tool_call is None,
{
    let m = mounts@[i];
    assert(r@[i]@ == crate::tui::remote_row(
        m,
        known_status(known@, m.peer@, m.remote_alias@),
    ));
    assert(r@[i]@.status == r@[i].status@);
    if 0 <= k < known@.len() && known@[k].peer@ == m.peer@ && known@[k].alias@ == m.remote_alias@
        && (forall|j: int|
        k < j < known@.len() ==> (#[trigger] known@[j]).peer@ != m.peer@ || known@[j].alias@
            != m.remote_alias@) {
        lemma_known(known@, m.peer@, m.remote_alias@, k);
    }
    if forall|j: int|
        0 <= j < known@.len() ==> (#[trigger] known@[j]).peer@ != m.peer@ || known@[j].alias@
            != m.remote_alias@ {
        lemma_not_known(known@, m.peer@, m.remote_alias@);
    }
}

/// What a peer tells takes the place of all that it told before; what others told stays.
pub proof fn law_a_peer_tells_anew(
    known: Vec<RemoteStatus>,
    peer: &str,
    told: Vec<RemoteStatus>,
    r: Vec<RemoteStatus>,
    i: int,
    k: int,
    j: int,
)
    requires
        call_ensures(peer_refreshed, (&known, peer, &told), r),
    ensures
        0 <= i < r@.len() && r@[i].peer@ == peer@ ==> exists|t: int|
            0 <= t < told@.len() && (#[trigger] told@[t]).alias@ == r@[i].alias@ && told@[t].status@
                == r@[i].status@ && told@[t].changes == r@[i].changes && told@[t].lock_mode@
                == r@[i].lock_mode@ && told@[t].tool_call_count == r@[i].tool_call_count,
        0 <= k < known@.len() && known@[k].peer@ != peer@ ==> status_views(r@).contains(
            known@[k]@,
        ),
        0 <= j < told@.len() ==> exists|i: int|
            0 <= i < r@.len() && (#[trigger] r@[i]).peer@ == peer@ && r@[i].alias@ == told@[j].alias@
                && r@[i].status@ == told@[j].status@ && r@[i].changes == told@[j].changes,
{
    let f = crate::tui::of_another(peer@);
    let old_ones = status_views(known@);
    let kept = old_ones.filter(f);
    let new = told_by(told@, peer@);
    let all = status_views(r@);
    assert(all == kept + new);
    assert(all.len() == r@.len());
    if 0 <= i < r@.len() && r@[i].peer@ == peer@ {
        assert(r@[i]@.peer == peer@);
        assert(new.contains(r@[i]@));
        let t = choose|t: int| 0 <= t < new.len() && new[t] == r@[i]@;
        assert(told@[t].alias@ == r@[i].alias@);
    }
    if 0 <= k < known@.len() && known@[k].peer@ != peer@ {
        assert(old_ones[k] == known@[k]@);
        old_ones.lemma_filter_contains(f, k);
        let x = choose|x: int| 0 <= x < kept.len() && kept[x] == known@[k]@;
        assert(all[x] == known@[k]@);
    }
    if 0 <= j < told@.len() {
        let x = kept.len() + j;
        assert(all[x] == new[j]);
        assert(all[x] == r@[x]@);
        assert(r@[x].peer@ == peer@);
    }
}

/// The overlay of a mount shows its row; what its peer counts comes later, and only there.
pub proof fn law_remote_overlays(
    row: RepoRow,
    i: RemoteInfo,
    overlay: Overlay,
    stats: RemoteStatsState,
    r: Overlay,
)
    requires
        call_ensures(build_remote_info_overlay, (&row,), i),
        call_ensures(with_remote_stats, (overlay, stats), r),
    ensures
        i.alias@ == row.alias@,
        i.peer_url@ == row.path@,
        i.status@ == row.status@,
        row.lock_mode@.len() > 0 ==> i.lock@ == row.lock_mode@,
        row.lock_mode@.len() == 0 ==> i.lock@ == "—"@,
        i.changes == row.changes,
        i.tool_call_count == row.tool_call_count,
        opt_text(i.last_tool_call) == opt_text(row.last_tool_call),
        i.stats is Loading,
        !(overlay is RemoteInfo) ==> r == overlay,
        overlay matches Overlay::RemoteInfo(x) ==> (r matches Overlay::RemoteInfo(y) && y.stats
            == stats && y.alias == x.alias && y.peer_url == x.peer_url && y.status == x.status
            && y.lock == x.lock && y.changes == x.changes && y.tool_call_count
            == x.tool_call_count && y.last_tool_call == x.last_tool_call),
{
}

/// A frame shows the repositories of this server and then the mounts; the selection stays, or
/// moves up to the last; a message goes after four seconds; an overlay stays.
pub proof fn law_frames(t: &mut Tui, local: Vec<RepoRow>, remote: Vec<RepoRow>, now: u64, i: int)
    requires
        call_ensures(Tui::frame, (t, local, &remote, now), ()),
    ensures
        final(t).rows@.len() == local@.len() + remote@.len(),
        0 <= i < local@.len() ==> final(t).rows@[i]@ == local@[i]@,
        local@.len() <= i < final(t).rows@.len() ==> final(t).rows@[i]@ == remote@[i
            - local@.len()]@,
        final(t).local == local@.len(),
        old(t).selected < final(t).rows@.len() ==> final(t).selected == old(t).selected,
        final(t).rows@.len() > 0 && old(t).selected >= final(t).rows@.len() ==> final(t).selected
            == final(t).rows@.len() - 1,
        old(t).flash is None ==> final(t).flash is None,
        old(t).flash matches Some(f) ==> now >= f.1 + 4_000_000_000 ==> final(t).flash is None,
        old(t).flash matches Some(f) ==> now < f.1 + 4_000_000_000 ==> final(t).flash == Some(f),
        final(t).overlay == old(t).overlay,
        final(t).generation == old(t).generation,
{
    let all = row_views(final(t).rows@);
    assert(all.len() == final(t).rows@.len());
    assert(row_views(local@).len() == local@.len());
    assert(row_views(remote@).len() == remote@.len());
    if 0 <= i < final(t).rows@.len() {
        assert(all[i] == final(t).rows@[i]@);
    }
}

/// A result is shown when it is the one that is waited for, and dropped else.
pub proof fn law_results_arrive(t: &mut Tui, generation: u64, result: Overlay)
    requires
        call_ensures(Tui::result_arrived, (t, generation, result), ()),
    ensures
        ({
            let waits = old(t).overlay is Some && (old(t).overlay->0 is DoctorRunning || old(t).overlay->0 is RemoteInfo) && generation == old(t).generation;
            &&& waits ==> final(t).overlay == Some(result)
            &&& !waits ==> final(t).overlay == old(t).overlay
        }),
        final(t).rows == old(t).rows,
        final(t).selected == old(t).selected,
        final(t).flash == old(t).flash,
        final(t).generation == old(t).generation,
{
}

/// A key closes an overlay; a repository is removed only where its removal was asked for and
/// is confirmed.
pub proof fn law_overlay_keys(t: &mut Tui, action: OverlayKeyAction, r: Option<String>)
    requires
        call_ensures(Tui::overlay_key, (t, action), r),
    ensures
        final(t).overlay is None,
        r is Some <==> action is ConfirmRemove && old(t).overlay is Some && old(t).overlay->0 is ConfirmRemove,
        r matches Some(alias) ==> old(t).overlay == Some(Overlay::ConfirmRemove(alias)),
        final(t).rows == old(t).rows,
        final(t).selected == old(t).selected,
        final(t).generation == old(t).generation,
{
}

/// A key acts on the row that it is pressed on. What only a repository of this server can do
/// is not done to a mount, and that is told.
pub proof fn law_keys_act_on_their_row(
    t: &mut Tui,
    action: KeyAction,
    resolves: bool,
    now: u64,
    r: TuiEffect,
)
    requires
        old(t).well_formed(),
        old(t).generation < u64::MAX,
        call_ensures(Tui::key, (t, action, resolves, now), r),
    ensures
        final(t).rows == old(t).rows,
        final(t).selected == old(t).selected,
        r matches TuiEffect::GatherInfo(a) ==> (action matches KeyAction::ShowInfo(i) && i < old(t).local && a@ == old(t).rows@[i as int].alias@),
        r matches TuiEffect::Reindex(a) ==> (action matches KeyAction::ForceReindex(i) && i < old(t).local && a@ == old(t).rows@[i as int].alias@),
        r matches TuiEffect::RunDoctor(a, g) ==> (action matches KeyAction::RunDoctor(i) && i < old(t).local && a@ == old(t).rows@[i as int].alias@ && g == old(t).generation + 1 && g == final(t).generation),
        r matches TuiEffect::FetchRemote(a, g) ==> (action matches KeyAction::ShowInfo(i) && old(t).local <= i && a@ == old(t).rows@[i as int].alias@ && g == final(t).generation && g == old(t).generation + 1 && resolves),
        action is Reload <==> r is Reload,
        action is Nothing ==> *final(t) == *old(t),
        action matches KeyAction::ForceReindex(i) ==> i >= old(t).local ==> r is Nothing && final(t).flash is Some && (final(t).flash->0).1 == now,
        action matches KeyAction::RunDoctor(i) ==> i >= old(t).local ==> r is Nothing && final(t).flash is Some && (final(t).flash->0).1 == now,
        action matches KeyAction::RequestRemove(i) ==> i >= old(t).local ==> r is Nothing && final(t).flash is Some && final(t).overlay == old(t).overlay,
        action matches KeyAction::RequestRemove(i) ==> i < old(t).local ==> (final(t).overlay matches Some(Overlay::ConfirmRemove(a)) && a@ == old(t).rows@[i as int].alias@),
        action matches KeyAction::ShowInfo(i) ==> i < old(t).local ==> r is GatherInfo,
        action matches KeyAction::ForceReindex(i) ==> i < old(t).local ==> r is Reindex,
        action matches KeyAction::RunDoctor(i) ==> i < old(t).local ==> r is RunDoctor,
        action matches KeyAction::ShowInfo(i) ==> old(t).local <= i < old(t).rows@.len()
            && resolves ==> r is FetchRemote,
{
}

/// What was gathered is shown, under its alias; a launch is told from now on.
pub proof fn law_what_was_gathered_is_shown(
    t: &mut Tui,
    alias: String,
    info: Option<RepoInfo>,
    u: &mut Tui,
    launch: ReindexLaunch,
    name: &str,
    now: u64,
)
    requires
        call_ensures(Tui::info_gathered, (t, alias, info), ()),
        call_ensures(Tui::reindex_launched, (u, launch, name, now), ()),
    ensures
        info is None ==> *final(t) == *old(t),
        info matches Some(i) ==> final(t).overlay == Some(Overlay::Info(alias, i)),
        final(t).rows == old(t).rows,
        final(t).generation == old(t).generation,
        final(u).flash is Some && (final(u).flash->0).1 == now && occurs_in(
            name@,
            (final(u).flash->0).0@,
        ),
        final(u).overlay == old(u).overlay,
        final(u).rows == old(u).rows,
{
    crate::laws::opening::lemma_stands_between("⟳ Reindex started for '"@, name@, "' …"@);
    crate::laws::opening::lemma_stands_between("⟳ Reindex already running for '"@, name@, "'"@);
    crate::laws::opening::lemma_stands_between("✗ Cannot reindex '"@, name@, "' — see logs"@);
}

proof fn lemma_refreshed(m: Map<Seq<char>, u64>, told: Seq<Refreshed>, k: int, p: Seq<char>)
    ensures
        0 <= k < told.len() && (forall|j: int|
            k < j < told.len() ==> (#[trigger] told[j]).peer@ != told[k].peer@) ==> refreshed_with(
            m,
            told,
        ).contains_key(told[k].peer@) && refreshed_with(m, told)[told[k].peer@] == told[k].at,
        (forall|j: int| 0 <= j < told.len() ==> (#[trigger] told[j]).peer@ != p) ==> (
        refreshed_with(m, told).contains_key(p) <==> m.contains_key(p)) && (m.contains_key(p)
            ==> refreshed_with(m, told)[p] == m[p]),
    decreases told.len(),
{
    if told.len() > 0 {
        let rest = told.drop_last();
        lemma_refreshed(m, rest, k, p);
        assert(told[told.len() - 1] == told.last());
        if 0 <= k < told.len() - 1 && (forall|j: int|
            k < j < told.len() ==> (#[trigger] told[j]).peer@ != told[k].peer@) {
            assert(told[told.len() - 1].peer@ != told[k].peer@);
            assert forall|j: int| k < j < rest.len() implies (#[trigger] rest[j]).peer@
                != rest[k].peer@ by {
                assert(rest[j] == told[j]);
            }
        }
        if forall|j: int| 0 <= j < told.len() ==> (#[trigger] told[j]).peer@ != p {
            assert(told[told.len() - 1].peer@ != p);
            assert forall|j: int| 0 <= j < rest.len() implies (#[trigger] rest[j]).peer@ != p by {
                assert(rest[j] == told[j]);
            }
        }
    }
}

/// Rows that were fetched are shown, and the peers that told them are fresh as of then; the
/// others are as fresh as they were.
pub proof fn law_fetched_rows(
    w: &mut RemoteRows,
    rows: Vec<RepoRow>,
    told: Vec<Refreshed>,
    k: int,
    p: Seq<char>,
)
    requires
        call_ensures(RemoteRows::absorb, (w, rows, &told), ()),
    ensures
        final(w).rows == rows,
        final(w).marks == old(w).marks,
        0 <= k < told@.len() && (forall|j: int|
            k < j < told@.len() ==> (#[trigger] told@[j]).peer@ != told@[k].peer@) ==> final(w).refreshed@.contains_key(told@[k].peer@) && final(w).refreshed@[told@[k].peer@]
            == told@[k].at,
        (forall|j: int| 0 <= j < told@.len() ==> (#[trigger] told@[j]).peer@ != p) ==> (final(w).refreshed@.contains_key(p) <==> old(w).refreshed@.contains_key(p)) && (old(w).refreshed@.contains_key(p) ==> final(w).refreshed@[p] == old(w).refreshed@[p]),
{
    lemma_refreshed(old(w).refreshed@, told@, k, p);
}

proof fn lemma_peer_of(mounts: Seq<Mount>, alias: Seq<char>, k: int)
    requires
        0 <= k < mounts.len(),
        mounts[k].local_name@ == alias,
        forall|j: int| k < j < mounts.len() ==> (#[trigger] mounts[j]).local_name@ != alias,
    ensures
        peer_of(mounts, alias) == Some(mounts[k].peer@),
    decreases mounts.len(),
{
    if k < mounts.len() - 1 {
        assert(mounts[mounts.len() - 1].local_name@ != alias);
        lemma_peer_of(mounts.drop_last(), alias, k);
    }
}

/// A row of a mount is stale when its peer was not refreshed in the time; nothing else of it
/// changes. A peer is asked anew when it was used since it was last looked at.
pub proof fn law_looking_at_mounts(
    w: &mut RemoteRows,
    mounts: Vec<Mount>,
    s: ServeState,
    now: u64,
    window: u64,
    r: Vec<String>,
    i: int,
    k: int,
)
    requires
        call_ensures(RemoteRows::look, (w, &mounts, &s, now, window), r),
        0 <= i < old(w).rows@.len(),
        0 <= k < mounts@.len(),
        mounts@[k].local_name@ == old(w).rows@[i].alias@,
        forall|j: int|
            k < j < mounts@.len() ==> (#[trigger] mounts@[j]).local_name@ != old(w).rows@[i].alias@,
    ensures
        ({
            let p = mounts@[k].peer@;
            let at = old(w).refreshed@;
            let used = s@.peers;
            let marks = old(w).marks@;
            let row = final(w).rows@[i];
            let was = old(w).rows@[i];
            &&& final(w).rows@.len() == old(w).rows@.len()
            &&& row.activity_stale <==> !at.contains_key(p) || (now >= at[p] && now - at[p]
                >= window) || (now < at[p] && window == 0)
            &&& row.alias@ == was.alias@ && row.status@ == was.status@ && row.changes
                == was.changes && row.tool_call_count == was.tool_call_count && row.path@
                == was.path@
            &&& texts(r@).contains(p) <==> marks.contains_key(p) && used.contains_key(p) && used[p]
                > marks[p]
            &&& texts(r@).no_duplicates()
            &&& used.contains_key(p) ==> final(w).marks@.contains_key(p) && final(w).marks@[p]
                >= used[p]
        }),
{
    let p = mounts@[k].peer@;
    let was = old(w).rows@[i];
    let rows = row_views(old(w).rows@);
    lemma_peer_of(mounts@, was.alias@, k);
    assert(rows[i] == was@);
    assert(peer_of(mounts@, rows[i].alias) == Some(p));
    assert(crate::tui::has_row_of(rows, mounts@, p));
    assert(final(w).rows@[i]@ == crate::tui::attended(was@, mounts@, old(w).refreshed@, now, window));
    assert(crate::tui::entry(final(w).marks@, p) == crate::tui::mark_after(
        old(w).marks@,
        s@.peers,
        p,
    ));
}

} // verus!
