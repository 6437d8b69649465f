//! What is registered, and what is read of it.
use crate::config::{
    alias_in, effective_api_key, key_for, law_register, law_unregister, lemma_path_in_names,
    list_remotes, members_in, path_in, repo_names, resolve_api_key_for_url, sorted_texts, sorts,
    ConfigView, Group, GroupView, RemotePeer, RemotePeerInfo, RemotePeerView, RepoEntryView,
    ReposConfig,
};
use crate::net::normal_url;
use crate::order::{is_text_order, lemma_text_order_is_whole, lists, text_less};
use crate::text::{occurs_in, opt_text, texts, trimmed};
use vstd::prelude::*;

verus! {

/// A registered alias resolves to its path, registered again to its new one; the other
/// aliases, what is owned elsewhere, the groups and the peers stay.
pub proof fn law_registering(
    c: &mut ReposConfig,
    alias: &str,
    path: &str,
    t: ReposConfig,
    r: Option<String>,
    other: &str,
    was: Option<String>,
    is: Option<String>,
)
    requires
        call_ensures(ReposConfig::register, (c, alias, path), ()),
        t@ == final(c)@,
        call_ensures(ReposConfig::resolve, (&t, alias), r),
        call_ensures(ReposConfig::resolve, (&*c, other), was),
        call_ensures(ReposConfig::resolve, (&t, other), is),
    ensures
        r is Some && r->0@ == path@,
        other@ != alias@ ==> opt_text(is) == opt_text(was),
        final(c)@.read_only == old(c)@.read_only,
        final(c)@.groups == old(c)@.groups,
        final(c)@.remotes == old(c)@.remotes,
{
    law_register(old(c)@, alias@, path@);
    assert(old(c)@.registering(alias@, path@).resolve(alias@) == Some(path@));
    if other@ != alias@ {
        assert(old(c)@.registering(alias@, path@).resolve(other@) == old(c)@.resolve(other@));
    }
}

/// An unregistered alias resolves to nothing, and the others as before; it is told whether
/// there was one.
pub proof fn law_unregistering(
    c: &mut ReposConfig,
    alias: &str,
    told: bool,
    before: Option<String>,
    t: ReposConfig,
    r: Option<String>,
    other: &str,
    was: Option<String>,
    is: Option<String>,
)
    requires
        call_ensures(ReposConfig::unregister_alias, (c, alias), told),
        t@ == final(c)@,
        call_ensures(ReposConfig::resolve, (&*c, alias), before),
        call_ensures(ReposConfig::resolve, (&t, alias), r),
        call_ensures(ReposConfig::resolve, (&*c, other), was),
        call_ensures(ReposConfig::resolve, (&t, other), is),
    ensures
        told <==> before is Some,
        r is None,
        other@ != alias@ ==> opt_text(is) == opt_text(was),
        final(c)@.read_only == old(c)@.read_only,
        final(c)@.groups == old(c)@.groups,
        final(c)@.remotes == old(c)@.remotes,
{
    law_unregister(old(c)@, alias@);
    if other@ != alias@ {
        assert(old(c)@.without(alias@).resolve(other@) == old(c)@.resolve(other@));
    }
}

/// A relocated alias resolves to its new path where it was registered; nothing is registered
/// by it, and the others resolve as before.
pub proof fn law_relocating(
    c: &mut ReposConfig,
    alias: &str,
    path: &str,
    t: ReposConfig,
    before: Option<String>,
    r: Option<String>,
    other: &str,
    was: Option<String>,
    is: Option<String>,
)
    requires
        call_ensures(ReposConfig::relocate, (c, alias, path), ()),
        t@ == final(c)@,
        call_ensures(ReposConfig::resolve, (&*c, alias), before),
        call_ensures(ReposConfig::resolve, (&t, alias), r),
        call_ensures(ReposConfig::resolve, (&*c, other), was),
        call_ensures(ReposConfig::resolve, (&t, other), is),
    ensures
        before is Some ==> r is Some && r->0@ == path@,
        before is None ==> r is None,
        other@ != alias@ ==> opt_text(is) == opt_text(was),
        final(c)@.read_only == old(c)@.read_only,
        final(c)@.groups == old(c)@.groups,
        final(c)@.remotes == old(c)@.remotes,
{
    lemma_moved(old(c)@.repos, alias@, path@, alias@);
    lemma_moved(old(c)@.repos, alias@, path@, other@);
}

pub proof fn lemma_moved(repos: Seq<RepoEntryView>, alias: Seq<char>, path: Seq<char>, a: Seq<char>)
    ensures
        path_in(crate::config::moving(repos, alias, path), a) == (if a == alias && path_in(
            repos,
            a,
        ) is Some {
            Some(path)
        } else {
            path_in(repos, a)
        }),
    decreases repos.len(),
{
    let moved = crate::config::moving(repos, alias, path);
    if repos.len() > 0 {
        lemma_moved(repos.drop_first(), alias, path, a);
        assert(moved.drop_first() =~= crate::config::moving(repos.drop_first(), alias, path));
    }
}

/// The aliases that are listed are those that resolve.
pub proof fn law_aliases(c: ReposConfig, all: Vec<String>, alias: &str, r: Option<String>)
    requires
        call_ensures(ReposConfig::aliases, (&c,), all),
        call_ensures(ReposConfig::resolve, (&c, alias), r),
    ensures
        texts(all@).contains(alias@) <==> r is Some,
        texts(all@).no_duplicates(),
{
    lemma_path_in_names(c@.repos, alias@);
}

proof fn lemma_alias_in(repos: Seq<RepoEntryView>, path: Seq<char>)
    ensures
        alias_in(repos, path) is None <==> forall|i: int|
            0 <= i < repos.len() ==> (#[trigger] repos[i]).path != path,
        alias_in(repos, path) matches Some(a) ==> exists|i: int|
            0 <= i < repos.len() && (#[trigger] repos[i]).path == path && repos[i].alias == a,
    decreases repos.len(),
{
    if repos.len() > 0 {
        let rest = repos.drop_first();
        lemma_alias_in(rest, path);
        if repos[0].path != path {
            if alias_in(rest, path) is None {
                assert forall|i: int| 0 <= i < repos.len() implies (#[trigger] repos[i]).path
                    != path by {
                    if i > 0 {
                        assert(rest[i - 1] == repos[i]);
                    }
                }
            } else {
                let i = choose|i: int|
                    0 <= i < rest.len() && (#[trigger] rest[i]).path == path && rest[i].alias
                        == alias_in(rest, path)->0;
                assert(repos[i + 1] == rest[i]);
            }
        }
    }
}

/// A path has the alias that it is registered under, and none when it is not registered.
pub proof fn law_the_alias_of_a_path(c: ReposConfig, path: &str, r: Option<String>, i: int)
    requires
        call_ensures(ReposConfig::alias_for_path, (&c, path), r),
    ensures
        0 <= i < c@.repos.len() && c@.repos[i].path == path@ ==> r is Some,
        r matches Some(a) ==> exists|k: int|
            0 <= k < c@.repos.len() && (#[trigger] c@.repos[k]).path == path@ && c@.repos[k].alias
                == a@,
{
    lemma_alias_in(c@.repos, path@);
}

/// What is marked as owned elsewhere is; nothing else becomes so, and nothing else changes.
pub proof fn law_marking(
    c: &mut ReposConfig,
    alias: &str,
    t: ReposConfig,
    r: bool,
    other: &str,
    was: bool,
    is: bool,
)
    requires
        call_ensures(ReposConfig::mark_read_only, (c, alias), ()),
        t@ == final(c)@,
        call_ensures(ReposConfig::is_read_only, (&t, alias), r),
        call_ensures(ReposConfig::is_read_only, (&*c, other), was),
        call_ensures(ReposConfig::is_read_only, (&t, other), is),
    ensures
        r,
        other@ != alias@ ==> is == was,
        final(c)@.repos == old(c)@.repos,
        final(c)@.groups == old(c)@.groups,
        final(c)@.remotes == old(c)@.remotes,
{
    let b = old(c)@.read_only;
    let a = b.push(alias@);
    assert(a[b.len() as int] == alias@);
    if b.contains(other@) {
        let k = choose|k: int| 0 <= k < b.len() && b[k] == other@;
        assert(a[k] == other@);
    }
    if a.contains(other@) && other@ != alias@ {
        let k = choose|k: int| 0 <= k < a.len() && a[k] == other@;
        assert(b[k] == other@);
    }
}

/// Whether `after` is `before` with the group `g` set.
spec fn sets_group(before: Seq<GroupView>, after: Seq<GroupView>, g: GroupView) -> bool {
    if exists|i: int| 0 <= i < before.len() && (#[trigger] before[i]).name == g.name {
        after.len() == before.len() && forall|i: int|
            0 <= i < before.len() ==> #[trigger] after[i] == (if before[i].name == g.name {
                g
            } else {
                before[i]
            })
    } else {
        after == before.push(g)
    }
}

proof fn lemma_members(
    before: Seq<GroupView>,
    after: Seq<GroupView>,
    g: GroupView,
    name: Seq<char>,
)
    requires
        sets_group(before, after, g),
    ensures
        members_in(after, name) == (if name == g.name {
            Some(g.aliases)
        } else {
            members_in(before, name)
        }),
    decreases before.len(),
{
    if before.len() == 0 {
        assert(after.drop_first() =~= before);
    } else {
        let b = before.drop_first();
        let a = after.drop_first();
        if exists|i: int| 0 <= i < b.len() && (#[trigger] b[i]).name == g.name {
            let i = choose|i: int| 0 <= i < b.len() && (#[trigger] b[i]).name == g.name;
            assert(before[i + 1].name == g.name);
            assert(after[0] == (if before[0].name == g.name {
                g
            } else {
                before[0]
            }));
            assert forall|i: int| 0 <= i < b.len() implies #[trigger] a[i] == (if b[i].name
                == g.name {
                g
            } else {
                b[i]
            }) by {
                assert(a[i] == after[i + 1]);
                assert(b[i] == before[i + 1]);
            }
            lemma_members(b, a, g, name);
        } else if before[0].name == g.name {
            assert(after[0] == g);
            assert forall|i: int| 0 <= i < b.len() implies a[i] == b[i] by {
                assert(a[i] == after[i + 1]);
                assert(b[i] == before[i + 1]);
            }
            assert(a =~= b);
        } else {
            assert forall|i: int| 0 <= i < before.len() implies (#[trigger] before[i]).name
                != g.name by {
                if i > 0 {
                    assert(b[i - 1] == before[i]);
                }
            }
            assert(a =~= b.push(g));
            lemma_members(b, a, g, name);
        }
    }
}

/// A group that is set has its members, in their order; the other groups keep theirs. The
/// group of all has every alias, by name. A group that is not there is told by its name.
pub proof fn law_groups(
    c: &mut ReposConfig,
    group: Group,
    t: ReposConfig,
    name: &str,
    r: Result<Vec<String>, String>,
    was: Result<Vec<String>, String>,
    i: int,
    j: int,
)
    requires
        call_ensures(ReposConfig::set_group, (c, group), ()),
        t@ == final(c)@,
        call_ensures(ReposConfig::resolve_group_aliases, (&t, name), r),
        call_ensures(ReposConfig::resolve_group_aliases, (&*c, name), was),
    ensures
        name@ == group.name@ && name@ != "all"@ ==> r is Ok && texts(r->Ok_0@) == texts(
            group.aliases@,
        ),
        name@ != group.name@ && name@ != "all"@ ==> (r is Ok <==> was is Ok) && (r is Ok ==> texts(
            r->Ok_0@,
        ) == texts(was->Ok_0@)),
        r matches Err(e) ==> occurs_in(name@, e@),
        name@ == "all"@ ==> r is Ok && r->Ok_0@.len() == final(c)@.repos.len(),
        name@ == "all"@ && 0 <= i < j < r->Ok_0@.len() ==> !text_less(
            r->Ok_0@[j]@,
            r->Ok_0@[i]@,
        ),
        name@ == "all"@ && 0 <= i < final(c)@.repos.len() ==> texts(r->Ok_0@).contains(
            final(c)@.repos[i].alias,
        ),
        final(c)@.repos == old(c)@.repos,
        final(c)@.read_only == old(c)@.read_only,
        final(c)@.remotes == old(c)@.remotes,
{
    let before = old(c)@.groups;
    let after = final(c)@.groups;
    let names = crate::config::group_names(before);
    assert(sets_group(before, after, group@)) by {
        if exists|i: int| 0 <= i < before.len() && (#[trigger] before[i]).name == group@.name {
            let i = choose|i: int|
                0 <= i < before.len() && (#[trigger] before[i]).name == group@.name;
            assert(names[i] == group@.name);
        } else if names.contains(group@.name) {
            let i = choose|i: int| 0 <= i < names.len() && names[i] == group@.name;
            assert(before[i].name == group@.name);
        }
    }
    lemma_members(before, after, group@, name@);
    assert(group@.aliases == texts(group.aliases@));
    if let Err(e) = r {
        crate::laws::opening::lemma_stands_between("Unknown group '"@, name@, "'"@);
    }
    if name@ == "all"@ {
        let all = final(c)@.aliases();
        lemma_sorted(all, texts(r->Ok_0@), i, j);
        assert(all.len() == final(c)@.repos.len());
        if 0 <= i < final(c)@.repos.len() {
            assert(all[i] == final(c)@.repos[i].alias);
        }
    }
}

/// What is sorted has the same texts, none lost and none added, and none before one that it
/// comes after.
proof fn lemma_sorted(list: Seq<Seq<char>>, sorted: Seq<Seq<char>>, i: int, j: int)
    requires
        sorts(list, sorted),
    ensures
        sorted.len() == list.len(),
        0 <= i < j < sorted.len() ==> !text_less(sorted[j], sorted[i]),
        0 <= i < list.len() ==> sorted.contains(list[i]),
        0 <= i < sorted.len() ==> list.contains(sorted[i]),
{
    let order = choose|order: Seq<usize>| #[trigger]
        is_text_order(list, order) && sorted == Seq::new(
            order.len(),
            |i: int| list[order[i] as int],
        );
    lemma_text_order_is_whole(list, order);
    if 0 <= i < j < sorted.len() {
        assert(crate::order::text_ordered(list, order[i] as int, order[j] as int));
        crate::order::lemma_text_less_total(sorted[i], sorted[j]);
    }
    if 0 <= i < list.len() {
        assert(lists(order, i));
        let k = choose|k: int| 0 <= k < order.len() && #[trigger] order[k] == i;
        assert(sorted[k] == list[i]);
    }
    if 0 <= i < sorted.len() {
        assert(order[i] < list.len());
        assert(sorted[i] == list[order[i] as int]);
    }
}

/// Sorted texts are the texts, each as often, by their characters.
pub proof fn law_sorting(list: Vec<String>, r: Vec<String>, i: int, j: int)
    requires
        call_ensures(sorted_texts, (&list,), r),
    ensures
        r@.len() == list@.len(),
        0 <= i < j < r@.len() ==> !text_less(r@[j]@, r@[i]@),
        0 <= i < list@.len() ==> texts(r@).contains(list@[i]@),
        0 <= i < r@.len() ==> texts(list@).contains(r@[i]@),
{
    lemma_sorted(texts(list@), texts(r@), i, j);
    assert(texts(r@).len() == r@.len());
    assert(texts(list@).len() == list@.len());
}

/// The peers are listed by name, each with its URL, its group and its time limit.
pub proof fn law_listing_peers(peers: Vec<RemotePeer>, r: Vec<RemotePeerInfo>, i: int, j: int)
    requires
        call_ensures(list_remotes, (&peers,), r),
    ensures
        r@.len() == peers@.len(),
        0 <= i < j < r@.len() ==> !text_less(r@[j].alias@, r@[i].alias@),
        0 <= i < r@.len() ==> exists|k: int|
            0 <= k < peers@.len() && (#[trigger] peers@[k]).alias@ == r@[i].alias@ && peers@[k].url@
                == r@[i].url@ && opt_text(peers@[k].group) == opt_text(r@[i].group)
                && peers@[k].timeout_secs == r@[i].timeout_secs,
        0 <= j < peers@.len() ==> exists|k: int|
            0 <= k < r@.len() && (#[trigger] r@[k]).alias@ == peers@[j].alias@ && r@[k].url@
                == peers@[j].url@ && opt_text(r@[k].group) == opt_text(peers@[j].group)
                && r@[k].timeout_secs == peers@[j].timeout_secs,
{
    let names = crate::config::peer_names(peers@);
    let order = choose|order: Seq<usize>| #[trigger]
        is_text_order(names, order) && r@.len() == order.len() && forall|i: int|
            0 <= i < r@.len() ==> (#[trigger] r@[i])@ == crate::config::disclosed(
                peers@[order[i] as int],
            );
    lemma_text_order_is_whole(names, order);
    if 0 <= i < j < r@.len() {
        assert(crate::order::text_ordered(names, order[i] as int, order[j] as int));
        assert(r@[i]@ == crate::config::disclosed(peers@[order[i] as int]));
        assert(r@[j]@ == crate::config::disclosed(peers@[order[j] as int]));
        crate::order::lemma_text_less_total(r@[i].alias@, r@[j].alias@);
    }
    if 0 <= i < r@.len() {
        assert(r@[i]@ == crate::config::disclosed(peers@[order[i] as int]));
        let k = order[i] as int;
        assert(peers@[k].alias@ == r@[i].alias@);
    }
    if 0 <= j < peers@.len() {
        assert(lists(order, j));
        let k = choose|k: int| 0 <= k < order.len() && #[trigger] order[k] == j;
        assert(r@[k]@ == crate::config::disclosed(peers@[j]));
        assert(r@[k].alias@ == peers@[j].alias@);
    }
}

proof fn lemma_key_for(peers: Seq<RemotePeer>, target: Seq<char>, i: int)
    ensures
        (forall|j: int|
            0 <= j < peers.len() ==> normal_url((#[trigger] peers[j]).url@) != target) ==> key_for(
            peers,
            target,
        ) is None,
        0 <= i < peers.len() && normal_url(peers[i].url@) == target && (forall|j: int|
            0 <= j < i ==> normal_url((#[trigger] peers[j]).url@) != target) ==> key_for(
            peers,
            target,
        ) == (if trimmed(peers[i].api_key@).len() == 0 {
            None
        } else {
            Some(trimmed(peers[i].api_key@))
        }),
    decreases peers.len(),
{
    if peers.len() > 0 {
        let rest = peers.drop_first();
        lemma_key_for(rest, target, i - 1);
        assert(forall|j: int| 0 <= j < rest.len() ==> #[trigger] rest[j] == peers[j + 1]);
        if 0 < i < peers.len() && (forall|j: int|
            0 <= j < i ==> normal_url((#[trigger] peers[j]).url@) != target) {
            assert(normal_url(peers[0].url@) != target);
            assert forall|j: int| 0 <= j < i - 1 implies normal_url((#[trigger] rest[j]).url@)
                != target by {
                assert(rest[j] == peers[j + 1]);
            }
        }
        if forall|j: int| 0 <= j < peers.len() ==> normal_url((#[trigger] peers[j]).url@) != target {
            assert(normal_url(peers[0].url@) != target);
            assert forall|j: int| 0 <= j < rest.len() implies normal_url((#[trigger] rest[j]).url@)
                != target by {
                assert(rest[j] == peers[j + 1]);
            }
        }
    }
}

/// The key for a server is that of the first peer at its URL, without the blanks round it, and
/// none when that is blank or no peer is there; a key that is given is taken as it is.
pub proof fn law_keys_of_peers(
    peers: Vec<RemotePeer>,
    url: &str,
    r: Option<String>,
    given: Option<String>,
    e: Option<String>,
    i: int,
)
    requires
        call_ensures(resolve_api_key_for_url, (&peers, url), r),
        call_ensures(effective_api_key, (given, &peers, url), e),
    ensures
        (forall|j: int|
            0 <= j < peers@.len() ==> normal_url((#[trigger] peers@[j]).url@) != normal_url(url@))
            ==> r is None,
        0 <= i < peers@.len() && normal_url(peers@[i].url@) == normal_url(url@) && (forall|j: int|
            0 <= j < i ==> normal_url((#[trigger] peers@[j]).url@) != normal_url(url@)) ==> (
        trimmed(peers@[i].api_key@).len() == 0 ==> r is None) && (trimmed(
            peers@[i].api_key@,
        ).len() > 0 ==> r is Some && r->0@ == trimmed(peers@[i].api_key@)),
        given matches Some(k) ==> e is Some && e->0@ == k@,
        given is None ==> opt_text(e) == opt_text(r),
{
    lemma_key_for(peers@, normal_url(url@), i);
}

/// A peer that is set is there as it was given, once; the other peers stay, and so does all
/// else.
pub proof fn law_setting_a_peer(c: &mut ReposConfig, peer: RemotePeer, i: int)
    requires
        call_ensures(ReposConfig::set_remote, (c, peer), ()),
    ensures
        exists|k: int|
            0 <= k < final(c)@.remotes.len() && #[trigger] final(c)@.remotes[k] == peer@,
        0 <= i < old(c)@.remotes.len() && old(c)@.remotes[i].alias != peer.alias@ ==> i < final(c)@.remotes.len() && final(c)@.remotes[i] == old(c)@.remotes[i],
        0 <= i < final(c)@.remotes.len() && final(c)@.remotes[i].alias == peer.alias@ ==> final(c)@.remotes[i] == peer@,
        final(c)@.repos == old(c)@.repos,
        final(c)@.read_only == old(c)@.read_only,
        final(c)@.groups == old(c)@.groups,
{
    let before = old(c)@.remotes;
    let after = final(c)@.remotes;
    let names = crate::config::remote_names(before);
    if names.contains(peer.alias@) {
        let k = choose|k: int| 0 <= k < names.len() && names[k] == peer.alias@;
        assert(before[k].alias == peer.alias@);
        assert(after[k] == peer@);
    } else {
        assert(after[before.len() as int] == peer@);
        if 0 <= i < before.len() {
            assert(names[i] == before[i].alias);
        }
    }
}

} // verus!
