//! What the printed board shows.
use crate::board::{
    body_cells, dashboard, dashboard_lines, has_label, labelled, line_views, row_views, Line,
};
use crate::laws::scraping::lemma_sifted_alike;
use crate::reader::lemma_decimal_reads;
use crate::state::ServeState;
use crate::status::{registered_facts, shows, RepoFacts, RepoStateLabel, RepoStatusInfo, RepoStatusView};
use crate::text::{decimal, digits_value, occurs_at, occurs_in, opt_text};
use vstd::prelude::*;

verus! {

proof fn lemma_left(t: Seq<char>, width: nat)
    ensures
        occurs_in(t, crate::board::left_aligned(t, width)),
        crate::board::left_aligned(t, width).len() >= width,
{
    let a = crate::board::left_aligned(t, width);
    assert(a.subrange(0, t.len() as int) =~= t);
    assert(occurs_at(a, t, 0));
}

proof fn lemma_right(t: Seq<char>, width: nat)
    ensures
        occurs_in(t, crate::board::right_aligned(t, width)),
{
    let a = crate::board::right_aligned(t, width);
    let n = a.len() - t.len();
    assert(a.subrange(n, a.len() as int) =~= t);
    assert(occurs_at(a, t, n));
}

/// The board is empty without repositories. Else each repository has a line, in its order,
/// with its alias, the name of its state, its changes and its last call.
pub proof fn law_the_board_has_a_line_for_each(
    rows: Vec<(String, RepoStatusInfo)>,
    active: u64,
    total: u64,
    r: Vec<Line>,
    i: int,
    name: &'static str,
)
    requires
        call_ensures(dashboard_lines, (&rows, active, total), r),
        0 <= i < rows@.len(),
        call_ensures(RepoStateLabel::name, (&rows@[i].1.status,), name),
    ensures
        r@.len() == rows@.len() + 9,
        r@[i + 4].spans@.len() == 18,
        occurs_in(rows@[i].0@, r@[i + 4].spans@[2].text@),
        r@[i + 4].spans@[6].text@ == name@,
        occurs_in(decimal(rows@[i].1.changes as nat), r@[i + 4].spans@[11].text@),
        rows@[i].1.last_tool_call matches Some(t) ==> occurs_in(
            t@,
            r@[i + 4].spans@[15].text@,
        ),
{
    let views = row_views(rows@);
    let all = line_views(r@);
    let width = crate::board::alias_width(views);
    assert(views.len() == rows@.len());
    assert(all == dashboard(views, active, total));
    assert(all.len() == r@.len());
    assert(body_cells(views, width).len() == rows@.len());
    assert(all[i + 4] == body_cells(views, width)[i]);
    assert(views[i] == (rows@[i].0@, rows@[i].1@));
    let line = r@[i + 4]@;
    assert(all[i + 4] == line);
    assert(line == crate::board::repo_cells(views[i], width));
    assert(line.len() == 18);
    assert(r@[i + 4].spans@.len() == line.len());
    assert(line[2] == r@[i + 4].spans@[2]@);
    assert(line[6] == r@[i + 4].spans@[6]@);
    assert(line[11] == r@[i + 4].spans@[11]@);
    assert(line[15] == r@[i + 4].spans@[15]@);
    lemma_left(rows@[i].0@, width);
    lemma_right(decimal(rows@[i].1.changes as nat), 7);
    if let Some(t) = rows@[i].1.last_tool_call {
        lemma_left(t@, 24);
    }
}

/// Behind the repositories stands whether one of them has an error, how many are open, warm
/// and closed, and how many sessions there are and were.
pub proof fn law_the_board_sums_up(
    rows: Vec<(String, RepoStatusInfo)>,
    active: u64,
    total: u64,
    r: Vec<Line>,
)
    requires
        call_ensures(dashboard_lines, (&rows, active, total), r),
    ensures
        rows@.len() == 0 ==> r@.len() == 0,
        rows@.len() > 0 ==> {
            let n = r@.len();
            let health = r@[n - 3].spans@;
            let sessions = r@[n - 2].spans@;
            let count = |l: RepoStateLabel|
                rows@.filter(|x: (String, RepoStatusInfo)| x.1.status == l).len();
            &&& n == rows@.len() + 9
            &&& count(RepoStateLabel::Error) > 0 ==> health[3].text@ == "Error"@
            &&& count(RepoStateLabel::Error) == 0 ==> health[3].text@ == "Healthy"@
            &&& digits_value(health[7].text@) == count(RepoStateLabel::Open)
            &&& digits_value(health[11].text@) == count(RepoStateLabel::Warm)
            &&& digits_value(health[15].text@) == count(RepoStateLabel::Closed) + count(
                RepoStateLabel::NoIndex,
            )
            &&& digits_value(sessions[3].text@) == active
            &&& digits_value(sessions[7].text@) == total
        },
{
    let views = row_views(rows@);
    let all = line_views(r@);
    let width = crate::board::alias_width(views);
    assert(views.len() == rows@.len());
    assert(all == dashboard(views, active, total));
    assert(all.len() == r@.len());
    if rows@.len() > 0 {
        assert(body_cells(views, width).len() == rows@.len());
        let n = r@.len() as int;
        let health = r@[n - 3]@;
        let sessions = r@[n - 2]@;
        assert(all[n - 3] == health && all[n - 2] == sessions);
        assert(health == crate::board::health_line(views));
        assert(sessions == crate::board::sessions_line(active, total));
        assert(health.len() == r@[n - 3].spans@.len());
        assert(sessions.len() == r@[n - 2].spans@.len());
        assert(health[3] == r@[n - 3].spans@[3]@);
        assert(health[7] == r@[n - 3].spans@[7]@);
        assert(health[11] == r@[n - 3].spans@[11]@);
        assert(health[15] == r@[n - 3].spans@[15]@);
        assert(sessions[3] == r@[n - 2].spans@[3]@);
        assert(sessions[7] == r@[n - 2].spans@[7]@);
        lemma_labelled(rows@, RepoStateLabel::Error);
        lemma_labelled(rows@, RepoStateLabel::Open);
        lemma_labelled(rows@, RepoStateLabel::Warm);
        lemma_labelled(rows@, RepoStateLabel::Closed);
        lemma_labelled(rows@, RepoStateLabel::NoIndex);
        lemma_decimal_reads(labelled(views, RepoStateLabel::Open));
        lemma_decimal_reads(labelled(views, RepoStateLabel::Warm));
        lemma_decimal_reads(
            labelled(views, RepoStateLabel::Closed) + labelled(views, RepoStateLabel::NoIndex),
        );
        lemma_decimal_reads(active as nat);
        lemma_decimal_reads(total as nat);
    }
}

proof fn lemma_labelled(rows: Seq<(String, RepoStatusInfo)>, l: RepoStateLabel)
    ensures
        labelled(row_views(rows), l) == rows.filter(
            |x: (String, RepoStatusInfo)| x.1.status == l,
        ).len(),
    decreases rows.len(),
{
    reveal(Seq::filter);
    let views = row_views(rows);
    if rows.len() > 0 {
        lemma_labelled(rows.drop_last(), l);
        assert(views.drop_last() =~= row_views(rows.drop_last()));
        assert(views.last() == (rows.last().0@, rows.last().1@));
    }
}

/// The table of the registered repositories has a line for each that something is told of, in
/// between the head and the sums, and ends in the sessions that there are and were.
pub proof fn law_the_printed_board(
    s: &mut ServeState,
    facts: Vec<RepoFacts>,
    now: u64,
    max_secs: u64,
    active: u64,
    total: u64,
    r: Vec<Line>,
)
    requires
        call_ensures(ServeState::active_session_count, (&*s,), active),
        call_ensures(ServeState::total_session_count, (&*s,), total),
        call_ensures(ServeState::print_dashboard, (s, &facts, now, max_secs), r),
    ensures
        ({
            let told = facts@.filter(|f: RepoFacts| old(s)@.config.resolve(f.alias@) is Some);
            let n = r@.len();
            &&& told.len() == 0 ==> n == 0
            &&& told.len() > 0 ==> n == told.len() + 9 && digits_value(
                r@[n - 2].spans@[3].text@,
            ) == active && digits_value(r@[n - 2].spans@[7].text@) == total
        }),
{
    let told = facts@.filter(|f: RepoFacts| old(s)@.config.resolve(f.alias@) is Some);
    assert(told == registered_facts(old(s)@, facts@));
    let rows = choose|rows: Seq<(String, RepoStatusInfo)>| #[trigger]
        shows(rows, old(s)@, registered_facts(old(s)@, facts@), now, max_secs) && line_views(r@)
            == dashboard(row_views(rows), old(s)@.active_sessions, old(s)@.total_sessions);
    assert(rows.len() == told.len());
    let views = row_views(rows);
    let all = line_views(r@);
    assert(all.len() == r@.len());
    if rows.len() > 0 {
        let width = crate::board::alias_width(views);
        assert(body_cells(views, width).len() == rows.len());
        let n = r@.len() as int;
        let sessions = r@[n - 2]@;
        assert(all[n - 2] == sessions);
        assert(sessions == crate::board::sessions_line(active, total));
        assert(sessions.len() == r@[n - 2].spans@.len());
        assert(sessions[3] == r@[n - 2].spans@[3]@);
        assert(sessions[7] == r@[n - 2].spans@[7]@);
        lemma_decimal_reads(active as nat);
        lemma_decimal_reads(total as nat);
    }
}

} // verus!
