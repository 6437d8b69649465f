//! The registered repositories, their groups and the federation peers.
use crate::net::{normal_url, normalize_serve_url};
use crate::order::{is_text_order, text_order};
use crate::text::{
    copy_opt, copy_strings, opt_text, position_of, same_text, texts, trim_text, trimmed,
};
use vstd::prelude::*;

verus! {

/// A registered repository.
pub struct RepoEntry {
    pub alias: String,
    pub path: String,
}

/// A named group of repositories.
pub struct Group {
    pub name: String,
    pub aliases: Vec<String>,
}

/// A federation peer. The key is a shared secret.
pub struct RemotePeer {
    pub alias: String,
    pub url: String,
    pub api_key: String,
    pub group: Option<String>,
    pub timeout_secs: Option<u64>,
}

/// What the server knows of its repositories, groups and peers. No alias, no group and no peer
/// is listed twice.
pub struct ReposConfig {
    repos: Vec<RepoEntry>,
    /// Aliases whose index is owned by another writer.
    read_only: Vec<String>,
    groups: Vec<Group>,
    remotes: Vec<RemotePeer>,
}

/// A registered repository: its alias and its path.
pub struct RepoEntryView {
    pub alias: Seq<char>,
    pub path: Seq<char>,
}

/// A group: its name and its members.
pub struct GroupView {
    pub name: Seq<char>,
    pub aliases: Seq<Seq<char>>,
}

/// A federation peer.
pub struct RemotePeerView {
    pub alias: Seq<char>,
    pub url: Seq<char>,
    pub api_key: Seq<char>,
    pub group: Option<Seq<char>>,
    pub timeout_secs: Option<u64>,
}

/// What a configuration says of repositories, groups and peers.
#[verifier::ext_equal]
pub struct ConfigView {
    pub repos: Seq<RepoEntryView>,
    pub read_only: Seq<Seq<char>>,
    pub groups: Seq<GroupView>,
    pub remotes: Seq<RemotePeerView>,
}

impl View for RepoEntry {
    type V = RepoEntryView;

    open spec fn view(&self) -> RepoEntryView {
        RepoEntryView { alias: self.alias@, path: self.path@ }
    }
}

impl View for Group {
    type V = GroupView;

    open spec fn view(&self) -> GroupView {
        GroupView { name: self.name@, aliases: texts(self.aliases@) }
    }
}

impl View for RemotePeer {
    type V = RemotePeerView;

    open spec fn view(&self) -> RemotePeerView {
        RemotePeerView {
            alias: self.alias@,
            url: self.url@,
            api_key: self.api_key@,
            group: opt_text(self.group),
            timeout_secs: self.timeout_secs,
        }
    }
}

impl View for ReposConfig {
    type V = ConfigView;

    closed spec fn view(&self) -> ConfigView {
        ConfigView {
            repos: self.repos@.map_values(|e: RepoEntry| e@),
            read_only: texts(self.read_only@),
            groups: self.groups@.map_values(|g: Group| g@),
            remotes: self.remotes@.map_values(|p: RemotePeer| p@),
        }
    }
}

/// The path under which `repos` lists `alias`, counting from the front.
pub open spec fn path_in(repos: Seq<RepoEntryView>, alias: Seq<char>) -> Option<Seq<char>>
    decreases repos.len(),
{
    if repos.len() == 0 {
        None
    } else if repos[0].alias == alias {
        Some(repos[0].path)
    } else {
        path_in(repos.drop_first(), alias)
    }
}

/// The test for entries of other repositories than `alias`.
pub open spec fn other_than(alias: Seq<char>) -> spec_fn(RepoEntryView) -> bool {
    |e: RepoEntryView| e.alias != alias
}

/// The entries of `repos` that are not of `alias`.
pub open spec fn dropping(repos: Seq<RepoEntryView>, alias: Seq<char>) -> Seq<RepoEntryView> {
    repos.filter(other_than(alias))
}

/// The alias under which `repos` lists `path`, counting from the front.
pub open spec fn alias_in(repos: Seq<RepoEntryView>, path: Seq<char>) -> Option<Seq<char>>
    decreases repos.len(),
{
    if repos.len() == 0 {
        None
    } else if repos[0].path == path {
        Some(repos[0].alias)
    } else {
        alias_in(repos.drop_first(), path)
    }
}

/// The members of the group `name`, counting from the front.
pub open spec fn members_in(groups: Seq<GroupView>, name: Seq<char>) -> Option<Seq<Seq<char>>>
    decreases groups.len(),
{
    if groups.len() == 0 {
        None
    } else if groups[0].name == name {
        Some(groups[0].aliases)
    } else {
        members_in(groups.drop_first(), name)
    }
}

/// The entries of `repos`, with `path` for those of `alias`.
pub open spec fn moving(repos: Seq<RepoEntryView>, alias: Seq<char>, path: Seq<char>) -> Seq<
    RepoEntryView,
> {
    repos.map_values(
        |e: RepoEntryView|
            if e.alias == alias {
                RepoEntryView { alias, path }
            } else {
                e
            },
    )
}

/// The aliases of `repos`.
pub open spec fn repo_names(repos: Seq<RepoEntryView>) -> Seq<Seq<char>> {
    repos.map_values(|e: RepoEntryView| e.alias)
}

/// The names of `groups`.
pub open spec fn group_names(groups: Seq<GroupView>) -> Seq<Seq<char>> {
    groups.map_values(|g: GroupView| g.name)
}

/// The aliases of `remotes`.
pub open spec fn remote_names(remotes: Seq<RemotePeerView>) -> Seq<Seq<char>> {
    remotes.map_values(|p: RemotePeerView| p.alias)
}

impl ConfigView {
    /// Whether nothing is listed twice: no repository, no read-only alias, no group and no
    /// peer.
    pub open spec fn distinct(self) -> bool {
        &&& self.aliases().no_duplicates()
        &&& self.read_only.no_duplicates()
        &&& group_names(self.groups).no_duplicates()
        &&& remote_names(self.remotes).no_duplicates()
    }

    /// The path of the repository `alias`, if it is registered.
    pub open spec fn resolve(self, alias: Seq<char>) -> Option<Seq<char>> {
        path_in(self.repos, alias)
    }

    /// Whether the index of `alias` is owned by another writer.
    pub open spec fn is_read_only(self, alias: Seq<char>) -> bool {
        self.read_only.contains(alias)
    }

    /// The aliases, in the order of registration.
    pub open spec fn aliases(self) -> Seq<Seq<char>> {
        repo_names(self.repos)
    }

    /// This configuration without the repository `alias`.
    pub open spec fn without(self, alias: Seq<char>) -> ConfigView {
        ConfigView { repos: dropping(self.repos, alias), ..self }
    }

    /// This configuration with another path for the repository `alias`.
    pub open spec fn relocating(self, alias: Seq<char>, path: Seq<char>) -> ConfigView {
        ConfigView { repos: moving(self.repos, alias, path), ..self }
    }

    /// This configuration with the repository `alias` at `path`: in place of the one that it
    /// lists under that alias, or else behind the others.
    pub open spec fn registering(self, alias: Seq<char>, path: Seq<char>) -> ConfigView {
        if self.aliases().contains(alias) {
            self.relocating(alias, path)
        } else {
            ConfigView { repos: self.repos.push(RepoEntryView { alias, path }), ..self }
        }
    }

    /// This configuration with the index of `alias` owned by another writer.
    pub open spec fn marking_read_only(self, alias: Seq<char>) -> ConfigView {
        if self.read_only.contains(alias) {
            self
        } else {
            ConfigView { read_only: self.read_only.push(alias), ..self }
        }
    }

    /// This configuration with the group `group`, in place of the one of that name or else
    /// behind the others.
    pub open spec fn grouping(self, group: GroupView) -> ConfigView {
        ConfigView {
            groups: if group_names(self.groups).contains(group.name) {
                self.groups.map_values(
                    |g: GroupView|
                        if g.name == group.name {
                            group
                        } else {
                            g
                        },
                )
            } else {
                self.groups.push(group)
            },
            ..self
        }
    }

    /// This configuration with the peer `peer`, in place of the one of that alias or else
    /// behind the others.
    pub open spec fn peering(self, peer: RemotePeerView) -> ConfigView {
        ConfigView {
            remotes: if remote_names(self.remotes).contains(peer.alias) {
                self.remotes.map_values(
                    |p: RemotePeerView|
                        if p.alias == peer.alias {
                            peer
                        } else {
                            p
                        },
                )
            } else {
                self.remotes.push(peer)
            },
            ..self
        }
    }
}

/// The name of the group that holds every repository; it is never stored.
pub open spec fn all_group() -> Seq<char> {
    "all"@
}

/// Whether `sorted` holds the texts of `list`, in text order.
pub open spec fn sorts(list: Seq<Seq<char>>, sorted: Seq<Seq<char>>) -> bool {
    exists|order: Seq<usize>| #[trigger] is_text_order(list, order) && sorted == Seq::new(
        order.len(),
        |i: int| list[order[i] as int],
    )
}

impl ReposConfig {
    #[verifier::type_invariant]
    spec fn well_formed(self) -> bool {
        self@.distinct()
    }

    /// A configuration without repositories, groups or peers.
    pub fn empty() -> (r: ReposConfig)
        ensures
            r@.repos.len() == 0,
            r@.read_only.len() == 0,
            r@.groups.len() == 0,
            r@.remotes.len() == 0,
    {
        ReposConfig {
            repos: Vec::new(),
            read_only: Vec::new(),
            groups: Vec::new(),
            remotes: Vec::new(),
        }
    }

    /// The registered repositories, each once.
    pub fn repos(&self) -> (r: &Vec<RepoEntry>)
        ensures
            r@.map_values(|e: RepoEntry| e@) == self@.repos,
            self@.distinct(),
    {
        proof {
            use_type_invariant(self);
        }
        &self.repos
    }

    /// The federation peers, each once.
    pub fn remotes(&self) -> (r: &Vec<RemotePeer>)
        ensures
            r@.map_values(|p: RemotePeer| p@) == self@.remotes,
            self@.distinct(),
    {
        proof {
            use_type_invariant(self);
        }
        &self.remotes
    }

    /// The path of the repository `alias`, if it is registered.
    pub fn resolve(&self, alias: &str) -> (r: Option<String>)
        ensures
            opt_text(r) == self@.resolve(alias@),
    {
        let mut i: usize = 0;
        let ghost all = self@.repos;
        assert(all.skip(0) =~= all);
        while i < self.repos.len()
            invariant
                i <= self.repos@.len(),
                all == self@.repos,
                path_in(all, alias@) == path_in(all.skip(i as int), alias@),
            decreases self.repos.len() - i,
        {
            assert(all[i as int] == self.repos@[i as int]@);
            if same_text(self.repos[i].alias.as_str(), alias) {
                return Some(self.repos[i].path.clone());
            }
            assert(all.skip(i as int).drop_first() =~= all.skip(i + 1));
            i += 1;
        }
        None
    }

    /// The alias under which `path` is registered, if it is.
    pub fn alias_for_path(&self, path: &str) -> (r: Option<String>)
        ensures
            opt_text(r) == alias_in(self@.repos, path@),
    {
        let mut i: usize = 0;
        let ghost all = self@.repos;
        assert(all.skip(0) =~= all);
        while i < self.repos.len()
            invariant
                i <= self.repos@.len(),
                all == self@.repos,
                alias_in(all, path@) == alias_in(all.skip(i as int), path@),
            decreases self.repos.len() - i,
        {
            assert(all[i as int] == self.repos@[i as int]@);
            if same_text(self.repos[i].path.as_str(), path) {
                return Some(self.repos[i].alias.clone());
            }
            assert(all.skip(i as int).drop_first() =~= all.skip(i + 1));
            i += 1;
        }
        None
    }

    /// Whether the index of `alias` is owned by another writer.
    pub fn is_read_only(&self, alias: &str) -> (r: bool)
        ensures
            r == self@.is_read_only(alias@),
    {
        match position_of(&self.read_only, alias) {
            Some(i) => {
                assert(texts(self.read_only@)[i as int] == alias@);
                true
            },
            None => {
                assert forall|j: int| 0 <= j < self.read_only@.len() implies texts(self.read_only@)[j]
                    != alias@ by {
                    assert(self.read_only@[j]@ != alias@);
                }
                false
            },
        }
    }

    /// The aliases, in the order of registration, each once.
    pub fn aliases(&self) -> (r: Vec<String>)
        ensures
            texts(r@) == self@.aliases(),
            texts(r@).no_duplicates(),
    {
        proof {
            use_type_invariant(self);
        }
        let mut r: Vec<String> = Vec::new();
        let mut i: usize = 0;
        while i < self.repos.len()
            invariant
                i <= self.repos@.len(),
                texts(r@) == self@.aliases().take(i as int),
            decreases self.repos.len() - i,
        {
            let ghost before = r@;
            r.push(self.repos[i].alias.clone());
            i += 1;
            proof {
                let names = self@.aliases();
                assert(names[i - 1] == self.repos@[i - 1].alias@);
                assert(texts(r@) =~= texts(before).push(names[i - 1]));
                assert(names.take(i as int) =~= names.take(i - 1).push(names[i - 1]));
            }
        }
        assert(self@.aliases().take(self@.aliases().len() as int) =~= self@.aliases());
        r
    }

    /// Registers a repository; an alias that is registered already gets the new path.
    pub fn register(&mut self, alias: &str, path: &str)
        ensures
            final(self)@ == old(self)@.registering(alias@, path@),
    {
        proof {
            use_type_invariant(&*self);
            lemma_path_in_names(self@.repos, alias@);
        }
        if self.resolve(alias).is_some() {
            self.relocate(alias, path);
            return;
        }
        let ghost before = self@;
        let ghost wanted = before.registering(alias@, path@);
        let mut repos: Vec<RepoEntry> = Vec::new();
        std::mem::swap(&mut repos, &mut self.repos);
        let ghost held = repos@;
        repos.push(RepoEntry { alias: alias.to_owned(), path: path.to_owned() });
        proof {
            assert(held.map_values(|e: RepoEntry| e@) == before.repos);
            assert(repos@.map_values(|e: RepoEntry| e@) =~= wanted.repos);
            assert(wanted.aliases() =~= before.aliases().push(alias@));
            lemma_push_distinct(before.aliases(), alias@);
        }
        self.repos = repos;
        assert(self@ =~= wanted);
    }

    /// Marks the index of `alias` as owned by another writer.
    pub fn mark_read_only(&mut self, alias: &str)
        ensures
            final(self)@ == old(self)@.marking_read_only(alias@),
    {
        if self.is_read_only(alias) {
            return;
        }
        proof {
            use_type_invariant(&*self);
        }
        let ghost before = self@;
        let mut read_only: Vec<String> = Vec::new();
        std::mem::swap(&mut read_only, &mut self.read_only);
        let ghost held = read_only@;
        read_only.push(alias.to_owned());
        proof {
            assert(texts(held) == before.read_only);
            assert(texts(read_only@) =~= before.read_only.push(alias@));
            lemma_push_distinct(before.read_only, alias@);
        }
        self.read_only = read_only;
        assert(self@ =~= before.marking_read_only(alias@));
    }

    /// Adds a group, in place of the one of its name.
    pub fn set_group(&mut self, group: Group)
        ensures
            final(self)@ == old(self)@.grouping(group@),
    {
        proof {
            use_type_invariant(&*self);
        }
        let ghost before = self@;
        let ghost names = group_names(before.groups);
        let ghost wanted = before.grouping(group@);
        let ghost new = group@;
        let mut groups: Vec<Group> = Vec::new();
        std::mem::swap(&mut groups, &mut self.groups);
        let ghost held = groups@;
        assert(held.map_values(|g: Group| g@) == before.groups);
        let mut i: usize = 0;
        while i < groups.len() && !same_text(groups[i].name.as_str(), group.name.as_str())
            invariant
                i <= groups@.len(),
                groups@ == held,
                forall|k: int| 0 <= k < i ==> (#[trigger] held[k]).name@ != group.name@,
            decreases groups.len() - i,
        {
            i += 1;
        }
        if i < groups.len() {
            groups.set(i, group);
            proof {
                assert(names[i as int] == held[i as int]@.name);
                assert(names.contains(new.name));
                assert forall|k: int| 0 <= k < held.len() && k != i implies (#[trigger] held[k]).name@
                    != new.name by {
                    assert(names[k] == held[k]@.name);
                    assert(names[k] != names[i as int]);
                }
                assert(groups@.map_values(|g: Group| g@) =~= wanted.groups);
                assert(group_names(wanted.groups) =~= names);
            }
        } else {
            groups.push(group);
            proof {
                assert(!names.contains(new.name)) by {
                    assert forall|k: int| 0 <= k < names.len() implies names[k] != new.name by {
                        assert(names[k] == held[k]@.name);
                    }
                }
                assert(groups@.map_values(|g: Group| g@) =~= wanted.groups);
                assert(group_names(wanted.groups) =~= names.push(new.name));
                lemma_push_distinct(names, new.name);
            }
        }
        self.groups = groups;
        assert(self@ =~= wanted);
    }

    /// Adds a federation peer, in place of the one of its alias.
    pub fn set_remote(&mut self, peer: RemotePeer)
        ensures
            final(self)@ == old(self)@.peering(peer@),
    {
        proof {
            use_type_invariant(&*self);
        }
        let ghost before = self@;
        let ghost names = remote_names(before.remotes);
        let ghost wanted = before.peering(peer@);
        let ghost new = peer@;
        let mut remotes: Vec<RemotePeer> = Vec::new();
        std::mem::swap(&mut remotes, &mut self.remotes);
        let ghost held = remotes@;
        assert(held.map_values(|p: RemotePeer| p@) == before.remotes);
        let mut i: usize = 0;
        while i < remotes.len() && !same_text(remotes[i].alias.as_str(), peer.alias.as_str())
            invariant
                i <= remotes@.len(),
                remotes@ == held,
                forall|k: int| 0 <= k < i ==> (#[trigger] held[k]).alias@ != peer.alias@,
            decreases remotes.len() - i,
        {
            i += 1;
        }
        if i < remotes.len() {
            remotes.set(i, peer);
            proof {
                assert(names[i as int] == held[i as int]@.alias);
                assert(names.contains(new.alias));
                assert forall|k: int| 0 <= k < held.len() && k != i implies (#[trigger] held[k]).alias@
                    != new.alias by {
                    assert(names[k] == held[k]@.alias);
                    assert(names[k] != names[i as int]);
                }
                assert(remotes@.map_values(|p: RemotePeer| p@) =~= wanted.remotes);
                assert(remote_names(wanted.remotes) =~= names);
            }
        } else {
            remotes.push(peer);
            proof {
                assert(!names.contains(new.alias)) by {
                    assert forall|k: int| 0 <= k < names.len() implies names[k] != new.alias by {
                        assert(names[k] == held[k]@.alias);
                    }
                }
                assert(remotes@.map_values(|p: RemotePeer| p@) =~= wanted.remotes);
                assert(remote_names(wanted.remotes) =~= names.push(new.alias));
                lemma_push_distinct(names, new.alias);
            }
        }
        self.remotes = remotes;
        assert(self@ =~= wanted);
    }

    /// Gives the repository `alias` another path.
    pub fn relocate(&mut self, alias: &str, path: &str)
        ensures
            final(self)@ == old(self)@.relocating(alias@, path@),
    {
        proof {
            use_type_invariant(&*self);
        }
        let ghost before = self@;
        let ghost wanted = before.relocating(alias@, path@).repos;
        let mut repos: Vec<RepoEntry> = Vec::new();
        let mut i: usize = 0;
        while i < self.repos.len()
            invariant
                i <= self.repos@.len(),
                self == old(self),
                before == self@,
                wanted == before.relocating(alias@, path@).repos,
                repos@.map_values(|e: RepoEntry| e@) == wanted.take(i as int),
            decreases self.repos.len() - i,
        {
            let ghost so_far = repos@;
            let e: &RepoEntry = &self.repos[i];
            assert(before.repos[i as int] == self.repos@[i as int]@);
            let moved: bool = same_text(e.alias.as_str(), alias);
            repos.push(
                RepoEntry {
                    alias: e.alias.clone(),
                    path: if moved {
                        path.to_owned()
                    } else {
                        e.path.clone()
                    },
                },
            );
            proof {
                assert(repos@.map_values(|e: RepoEntry| e@) =~= so_far.map_values(
                    |e: RepoEntry| e@,
                ).push(wanted[i as int]));
                assert(wanted.take(i + 1) =~= wanted.take(i as int).push(wanted[i as int]));
            }
            i += 1;
        }
        assert(wanted.take(wanted.len() as int) =~= wanted);
        assert(before.relocating(alias@, path@).aliases() =~= before.aliases());
        self.repos = repos;
        assert(self@ =~= before.relocating(alias@, path@));
    }

    /// Drops the repository `alias`; tells whether it was registered.
    pub fn unregister_alias(&mut self, alias: &str) -> (r: bool)
        ensures
            final(self)@ == old(self)@.without(alias@),
            r == (old(self)@.resolve(alias@) is Some),
    {
        proof {
            use_type_invariant(&*self);
        }
        let ghost before = self@;
        let ghost all = self@.repos;
        let ghost keep = other_than(alias@);
        let mut kept: Vec<RepoEntry> = Vec::new();
        let mut found: bool = false;
        let mut i: usize = 0;
        proof {
            reveal(Seq::filter);
            assert(kept@.map_values(|e: RepoEntry| e@) =~= all.take(0).filter(keep));
            assert(all.skip(0) =~= all);
        }
        while i < self.repos.len()
            invariant
                self == old(self),
                i <= self.repos@.len(),
                before == self@,
                all == self@.repos,
                keep == other_than(alias@),
                kept@.map_values(|e: RepoEntry| e@) == all.take(i as int).filter(keep),
                found || path_in(all, alias@) == path_in(all.skip(i as int), alias@),
                found ==> path_in(all, alias@) is Some,
            decreases self.repos.len() - i,
        {
            let ghost so_far = kept@;
            proof {
                reveal(Seq::filter);
                assert(all[i as int] == self.repos@[i as int]@);
                assert(all.take(i + 1).drop_last() =~= all.take(i as int));
                assert(all.skip(i as int).drop_first() =~= all.skip(i + 1));
            }
            let e: &RepoEntry = &self.repos[i];
            if same_text(e.alias.as_str(), alias) {
                found = true;
            } else {
                kept.push(RepoEntry { alias: e.alias.clone(), path: e.path.clone() });
                assert(kept@.map_values(|e: RepoEntry| e@) =~= so_far.map_values(
                    |e: RepoEntry| e@,
                ).push(all[i as int]));
            }
            i += 1;
        }
        assert(all.take(all.len() as int) =~= all);
        proof {
            lemma_dropping_distinct(all, alias@);
        }
        self.repos = kept;
        assert(self@ =~= before.without(alias@));
        found
    }

    /// Resolve a group name to its constituent aliases.
    ///
    /// The name `all` is a virtual group: it is never stored but resolves to every
    /// registered alias, in text order.
    pub fn resolve_group_aliases(&self, group: &str) -> (r: Result<Vec<String>, String>)
        ensures
            group@ == all_group() ==> (r matches Ok(v) && sorts(self@.aliases(), texts(v@))),
            group@ != all_group() ==> match members_in(self@.groups, group@) {
                Some(m) => r matches Ok(v) && texts(v@) == m,
                None => r matches Err(e) && e@ == "Unknown group '"@ + group@ + "'"@,
            },
    {
        if same_text(group, "all") {
            let names: Vec<String> = self.aliases();
            return Ok(sorted_texts(&names));
        }
        let mut i: usize = 0;
        let ghost all = self@.groups;
        assert(all.skip(0) =~= all);
        while i < self.groups.len()
            invariant
                i <= self.groups@.len(),
                all == self@.groups,
                group@ != all_group(),
                members_in(all, group@) == members_in(all.skip(i as int), group@),
            decreases self.groups.len() - i,
        {
            assert(all[i as int] == self.groups@[i as int]@);
            if same_text(self.groups[i].name.as_str(), group) {
                return Ok(copy_strings(&self.groups[i].aliases));
            }
            assert(all.skip(i as int).drop_first() =~= all.skip(i + 1));
            i += 1;
        }
        let mut msg: String = "Unknown group '".to_owned();
        msg.push_str(group);
        msg.push_str("'");
        Err(msg)
    }
}

/// The texts of `list`, in text order.
pub fn sorted_texts(list: &Vec<String>) -> (r: Vec<String>)
    ensures
        sorts(texts(list@), texts(r@)),
{
    let order: Vec<usize> = text_order(list);
    let mut r: Vec<String> = Vec::new();
    let mut i: usize = 0;
    while i < order.len()
        invariant
            i <= order@.len(),
            is_text_order(texts(list@), order@),
            r@.len() == i,
            forall|j: int| 0 <= j < i ==> (#[trigger] r@[j])@ == texts(list@)[order@[j] as int],
        decreases order.len() - i,
    {
        r.push(list[order[i]].clone());
        i += 1;
    }
    assert(texts(r@) =~= Seq::new(order@.len(), |j: int| texts(list@)[order@[j] as int]));
    r
}

/// What may be told of a federation peer: everything but its key.
pub struct RemotePeerInfo {
    pub alias: String,
    pub url: String,
    pub group: Option<String>,
    pub timeout_secs: Option<u64>,
}

/// What may be told of a federation peer.
pub struct RemotePeerInfoView {
    pub alias: Seq<char>,
    pub url: Seq<char>,
    pub group: Option<Seq<char>>,
    pub timeout_secs: Option<u64>,
}

impl View for RemotePeerInfo {
    type V = RemotePeerInfoView;

    open spec fn view(&self) -> RemotePeerInfoView {
        RemotePeerInfoView {
            alias: self.alias@,
            url: self.url@,
            group: opt_text(self.group),
            timeout_secs: self.timeout_secs,
        }
    }
}

/// What may be told of `peer`.
pub open spec fn disclosed(peer: RemotePeer) -> RemotePeerInfoView {
    RemotePeerInfoView {
        alias: peer.alias@,
        url: peer.url@,
        group: opt_text(peer.group),
        timeout_secs: peer.timeout_secs,
    }
}

/// The aliases of `peers`.
pub open spec fn peer_names(peers: Seq<RemotePeer>) -> Seq<Seq<char>> {
    peers.map_values(|p: RemotePeer| p.alias@)
}

/// Lists the federation peers in the order of their aliases, without their keys.
pub fn list_remotes(peers: &Vec<RemotePeer>) -> (r: Vec<RemotePeerInfo>)
    ensures
        exists|order: Seq<usize>| #[trigger]
            is_text_order(peer_names(peers@), order) && r@.len() == order.len() && forall|i: int|
                0 <= i < r@.len() ==> (#[trigger] r@[i])@ == disclosed(peers@[order[i] as int]),
{
    let mut names: Vec<String> = Vec::new();
    let mut n: usize = 0;
    while n < peers.len()
        invariant
            n <= peers@.len(),
            texts(names@) == peer_names(peers@).take(n as int),
        decreases peers.len() - n,
    {
        let ghost before = names@;
        names.push(peers[n].alias.clone());
        n += 1;
        proof {
            let all = peer_names(peers@);
            assert(texts(names@) =~= texts(before).push(all[n - 1]));
            assert(all.take(n as int) =~= all.take(n - 1).push(all[n - 1]));
        }
    }
    assert(peer_names(peers@).take(n as int) =~= peer_names(peers@));
    let order: Vec<usize> = text_order(&names);
    let mut r: Vec<RemotePeerInfo> = Vec::new();
    let mut i: usize = 0;
    while i < order.len()
        invariant
            i <= order@.len(),
            order@.len() == peers@.len(),
            is_text_order(peer_names(peers@), order@),
            r@.len() == i,
            forall|j: int| 0 <= j < i ==> (#[trigger] r@[j])@ == disclosed(peers@[order@[j] as int]),
        decreases order.len() - i,
    {
        let p: &RemotePeer = &peers[order[i]];
        r.push(
            RemotePeerInfo {
                alias: p.alias.clone(),
                url: p.url.clone(),
                group: copy_opt(&p.group),
                timeout_secs: p.timeout_secs,
            },
        );
        i += 1;
    }
    r
}

/// What is told of the peers does not depend on their keys.
pub proof fn law_keys_are_not_disclosed(a: RemotePeer, b: RemotePeer)
    requires
        a.alias@ == b.alias@,
        a.url@ == b.url@,
        opt_text(a.group) == opt_text(b.group),
        a.timeout_secs == b.timeout_secs,
    ensures
        disclosed(a) == disclosed(b),
{
}

/// The key of the first of `peers` whose URL is that of `target` once both are normalized;
/// none when no peer matches or its key is blank.
pub open spec fn key_for(peers: Seq<RemotePeer>, target: Seq<char>) -> Option<Seq<char>>
    decreases peers.len(),
{
    if peers.len() == 0 {
        None
    } else if normal_url(peers[0].url@) == target {
        if trimmed(peers[0].api_key@).len() == 0 {
            None
        } else {
            Some(trimmed(peers[0].api_key@))
        }
    } else {
        key_for(peers.drop_first(), target)
    }
}

/// Resolve the API key to use for `serve_url` by matching it against the
/// configured remote peers. Returns `None` when no peer matches or the matching peer has
/// no key configured.
pub fn resolve_api_key_for_url(peers: &Vec<RemotePeer>, serve_url: &str) -> (r: Option<String>)
    ensures
        opt_text(r) == key_for(peers@, normal_url(serve_url@)),
{
    let target: String = normalize_serve_url(serve_url);
    let mut i: usize = 0;
    assert(peers@.skip(0) =~= peers@);
    while i < peers.len()
        invariant
            i <= peers@.len(),
            target@ == normal_url(serve_url@),
            key_for(peers@, target@) == key_for(peers@.skip(i as int), target@),
        decreases peers.len() - i,
    {
        let url: String = normalize_serve_url(peers[i].url.as_str());
        if same_text(url.as_str(), target.as_str()) {
            let key: String = trim_text(peers[i].api_key.as_str());
            return if key.as_str().is_empty() {
                None
            } else {
                Some(key)
            };
        }
        assert(peers@.skip(i as int).drop_first() =~= peers@.skip(i + 1));
        i += 1;
    }
    None
}

/// The key a client uses: the one it was given, or else the one of the matching peer.
pub fn effective_api_key(given: Option<String>, peers: &Vec<RemotePeer>, serve_url: &str) -> (r:
    Option<String>)
    ensures
        opt_text(r) == (match given {
            Some(k) => Some(k@),
            None => key_for(peers@, normal_url(serve_url@)),
        }),
{
    match given {
        Some(k) => Some(k),
        None => resolve_api_key_for_url(peers, serve_url),
    }
}

/// A repository that was dropped is not registered any more, and the others are as before.
pub proof fn law_unregister(config: ConfigView, alias: Seq<char>)
    ensures
        config.without(alias).resolve(alias) is None,
        forall|other: Seq<char>|
            other != alias ==> #[trigger] config.without(alias).resolve(other) == config.resolve(
                other,
            ),
{
    lemma_without(config.repos, alias, alias);
    assert forall|other: Seq<char>| other != alias implies #[trigger] config.without(alias).resolve(
        other,
    ) == config.resolve(other) by {
        lemma_without(config.repos, alias, other);
    }
}

proof fn lemma_without(repos: Seq<RepoEntryView>, alias: Seq<char>, other: Seq<char>)
    ensures
        path_in(dropping(repos, alias), other) == (if other == alias {
            None
        } else {
            path_in(repos, other)
        }),
    decreases repos.len(),
{
    reveal(Seq::filter);
    if repos.len() > 0 {
        let rest = repos.drop_first();
        lemma_without(rest, alias, other);
        assert(repos =~= seq![repos[0]] + rest);
        rest.lemma_filter_prepend(repos[0], other_than(alias));
        if repos[0].alias != alias {
            let f = dropping(repos, alias);
            assert(f =~= seq![repos[0]] + dropping(rest, alias));
            assert(f.drop_first() =~= dropping(rest, alias));
        } else {
            assert(dropping(repos, alias) =~= dropping(rest, alias));
        }
    }
}

/// A registered alias resolves to the path that it was last registered with, and the others
/// are as before.
pub proof fn law_register(config: ConfigView, alias: Seq<char>, path: Seq<char>)
    ensures
        config.registering(alias, path).resolve(alias) == Some(path),
        forall|other: Seq<char>|
            other != alias ==> #[trigger] config.registering(alias, path).resolve(other)
                == config.resolve(other),
{
    let e = RepoEntryView { alias, path };
    lemma_path_in_names(config.repos, alias);
    lemma_path_in_push(config.repos, e, alias);
    lemma_path_in_moving(config.repos, alias, path, alias);
    assert forall|other: Seq<char>| other != alias implies #[trigger] config.registering(
        alias,
        path,
    ).resolve(other) == config.resolve(other) by {
        lemma_path_in_push(config.repos, e, other);
        lemma_path_in_moving(config.repos, alias, path, other);
    }
}

/// No change of the registered repositories lists anything twice.
pub proof fn law_nothing_is_listed_twice(config: ConfigView, alias: Seq<char>, path: Seq<char>)
    requires
        config.distinct(),
    ensures
        config.registering(alias, path).distinct(),
        config.relocating(alias, path).distinct(),
        config.without(alias).distinct(),
{
    assert(config.relocating(alias, path).aliases() =~= config.aliases());
    lemma_dropping_distinct(config.repos, alias);
    if !config.aliases().contains(alias) {
        assert(config.registering(alias, path).aliases() =~= config.aliases().push(alias));
        lemma_push_distinct(config.aliases(), alias);
    }
}

proof fn lemma_push_distinct(names: Seq<Seq<char>>, name: Seq<char>)
    requires
        names.no_duplicates(),
        !names.contains(name),
    ensures
        names.push(name).no_duplicates(),
{
    let all = names.push(name);
    assert forall|i: int, j: int| 0 <= i < all.len() && 0 <= j < all.len() && i != j implies all[i]
        != all[j] by {
        if i < names.len() {
            assert(names.contains(names[i]));
        }
        if j < names.len() {
            assert(names.contains(names[j]));
        }
    }
}

proof fn lemma_dropping_distinct(repos: Seq<RepoEntryView>, alias: Seq<char>)
    requires
        repo_names(repos).no_duplicates(),
    ensures
        repo_names(dropping(repos, alias)).no_duplicates(),
        forall|a: Seq<char>| #[trigger]
            repo_names(dropping(repos, alias)).contains(a)
                ==> repo_names(repos).contains(a),
    decreases repos.len(),
{
    reveal(Seq::filter);
    let all = repo_names(repos);
    let kept = repo_names(dropping(repos, alias));
    if repos.len() > 0 {
        let rest = repos.drop_last();
        let last = repos.last();
        assert(repo_names(rest) =~= all.drop_last());
        lemma_dropping_distinct(rest, alias);
        let kept_rest = repo_names(dropping(rest, alias));
        assert(all[repos.len() - 1] == last.alias);
        assert(!repo_names(rest).contains(last.alias)) by {
            if repo_names(rest).contains(last.alias) {
                let j = repo_names(rest).index_of(last.alias);
                assert(all[j] == all[repos.len() - 1]);
            }
        }
        assert forall|a: Seq<char>| #[trigger] repo_names(rest).contains(a) implies all.contains(
            a,
        ) by {
            let j = repo_names(rest).index_of(a);
            assert(all[j] == a);
        }
        if last.alias != alias {
            assert(kept =~= kept_rest.push(last.alias));
            lemma_push_distinct(kept_rest, last.alias);
            assert forall|a: Seq<char>| #[trigger] kept.contains(a) implies all.contains(a) by {
                let j = kept.index_of(a);
                if j < kept_rest.len() {
                    assert(kept_rest[j] == a);
                    assert(kept_rest.contains(a));
                }
            }
        } else {
            assert(kept =~= kept_rest);
        }
    }
}

/// An alias resolves when it is listed.
pub proof fn lemma_path_in_names(repos: Seq<RepoEntryView>, a: Seq<char>)
    ensures
        path_in(repos, a) is Some <==> repo_names(repos).contains(a),
    decreases repos.len(),
{
    let all = repo_names(repos);
    if repos.len() > 0 {
        let rest = repos.drop_first();
        lemma_path_in_names(rest, a);
        assert(all[0] == repos[0].alias);
        if repo_names(rest).contains(a) {
            let j = repo_names(rest).index_of(a);
            assert(all[j + 1] == a);
        }
        if all.contains(a) && all[0] != a {
            let j = all.index_of(a);
            assert(repo_names(rest)[j - 1] == a);
        }
    }
}

proof fn lemma_path_in_moving(
    repos: Seq<RepoEntryView>,
    alias: Seq<char>,
    path: Seq<char>,
    a: Seq<char>,
)
    ensures
        path_in(moving(repos, alias, path), a) == (if a == alias && path_in(repos, a) is Some {
            Some(path)
        } else {
            path_in(repos, a)
        }),
    decreases repos.len(),
{
    if repos.len() > 0 {
        lemma_path_in_moving(repos.drop_first(), alias, path, a);
        assert(moving(repos, alias, path).drop_first() =~= moving(
            repos.drop_first(),
            alias,
            path,
        ));
    }
}

proof fn lemma_path_in_push(repos: Seq<RepoEntryView>, e: RepoEntryView, a: Seq<char>)
    ensures
        path_in(repos.push(e), a) == (match path_in(repos, a) {
            Some(p) => Some(p),
            None => if a == e.alias {
                Some(e.path)
            } else {
                None
            },
        }),
    decreases repos.len(),
{
    if repos.len() > 0 {
        lemma_path_in_push(repos.drop_first(), e, a);
        assert(repos.push(e).drop_first() =~= repos.drop_first().push(e));
    } else {
        assert(repos.push(e).drop_first() =~= Seq::empty());
        assert(path_in(Seq::<RepoEntryView>::empty(), a) is None);
    }
}

} // verus!
