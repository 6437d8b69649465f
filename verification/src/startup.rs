//! What the server does when it starts, and when its configuration changes.
use crate::config::{ConfigView, RepoEntry, ReposConfig};
use crate::lifecycle::{lemma_push_members, lemma_take_contains};
use crate::state::{CSharpIndexStatus, RepoRuntime, RepoState, RepoView, ServeState, StateView};
use crate::symbols::{fresh_status, prewarms};
use crate::text::{decimal, decimal_text, texts};
use vstd::prelude::*;

verus! {

/// Extra file descriptors reserved for everything that is not a repo store.
pub const FD_HEADROOM: u64 = 256;

/// Rough demand of file descriptors per repo.
pub const FDS_PER_REPO_ESTIMATE: u64 = 20;

/// The soft limit of file descriptors to ask for, if the current one can be raised: the hard
/// limit, or the limit of the system for a process where that is lower.
pub fn fd_target(soft: u64, hard: u64, system: Option<u64>) -> (r: Option<u64>)
    ensures
        match r {
            Some(t) => {
                &&& soft < t <= hard
                &&& system matches Some(s) ==> t <= s
                &&& t == hard || Some(t) == system
            },
            None => soft >= hard || (system matches Some(s) && s <= soft),
        },
{
    if soft >= hard {
        return None;
    }
    let target: u64 = match system {
        Some(s) => if s < hard {
            s
        } else {
            hard
        },
        None => hard,
    };
    if target > soft {
        Some(target)
    } else {
        None
    }
}

/// Whether a soft limit is too low for the registered repos; then the estimated demand.
pub fn fd_shortage(soft: u64, repo_count: u64) -> (r: Option<u64>)
    requires
        repo_count * FDS_PER_REPO_ESTIMATE + FD_HEADROOM <= u64::MAX,
    ensures
        r == (if soft < repo_count * 20 + 256 {
            Some((repo_count * 20 + 256) as u64)
        } else {
            None
        }),
{
    let estimated: u64 = repo_count * FDS_PER_REPO_ESTIMATE + FD_HEADROOM;
    if soft < estimated {
        Some(estimated)
    } else {
        None
    }
}

/// The address that the server binds to, as text.
pub open spec fn bind_text(host: Seq<char>, port: u16) -> Seq<char> {
    host + ":"@ + decimal(port as nat)
}

/// The address that the server binds to, as text.
pub fn bind_address(host: &str, port: u16) -> (r: String)
    ensures
        r@ == bind_text(host@, port),
{
    let mut r: String = host.to_owned();
    r.push_str(":");
    let p: String = decimal_text(port as u64);
    r.push_str(p.as_str());
    r
}

/// The error for an address that cannot be bound to.
pub fn invalid_bind_msg(host: &str, port: u16, error: &str, host_env: &str) -> (r: String)
    ensures
        r@ == "Invalid bind address '"@ + bind_text(host@, port) + "': "@ + error@
            + ". For IPv6, use brackets: `[::1]:port`. Override with --host or "@ + host_env@ + "."@,
{
    let address: String = bind_address(host, port);
    let mut r: String = "Invalid bind address '".to_owned();
    r.push_str(address.as_str());
    r.push_str("': ");
    r.push_str(error);
    r.push_str(". For IPv6, use brackets: `[::1]:port`. Override with --host or ");
    r.push_str(host_env);
    r.push_str(".");
    r
}

/// How a server answered the question whether it is well.
#[derive(Debug, Clone, Copy, PartialEq, Eq, Structural)]
pub enum HealthAnswer {
    Success,
    Unauthorized,
    /// Any other status.
    Failure,
    /// There was no answer.
    Unreachable,
}

/// Whether the standalone terminal view may run against the server at `url`, by its answer;
/// otherwise why not.
pub fn standalone_check(url: &str, key_configured: bool, answer: HealthAnswer) -> (r: Result<(), String>)
    ensures
        match r {
            Ok(_) => answer == HealthAnswer::Success,
            Err(e) => e@ == (match answer {
                HealthAnswer::Unauthorized => if key_configured {
                    "Error: Serve at "@ + url@
                        + " rejected the configured API key (401 Unauthorized)."@
                } else {
                    "Error: Serve at "@ + url@
                        + " requires an API key — none configured for this URL. Register it with `codesearch remote add` or pass `--api-key`."@
                },
                HealthAnswer::Failure => "Error: Serve at "@ + url@
                    + " returned an error. Is it running?"@,
                _ => "Error: No serve running at "@ + url@ + ". Start with: codesearch serve"@,
            }) && answer != HealthAnswer::Success,
        },
{
    match answer {
        HealthAnswer::Success => Ok(()),
        HealthAnswer::Unauthorized => {
            let mut e: String = "Error: Serve at ".to_owned();
            e.push_str(url);
            if key_configured {
                e.push_str(" rejected the configured API key (401 Unauthorized).");
            } else {
                e.push_str(
                    " requires an API key — none configured for this URL. Register it with `codesearch remote add` or pass `--api-key`.",
                );
            }
            Err(e)
        },
        HealthAnswer::Failure => {
            let mut e: String = "Error: Serve at ".to_owned();
            e.push_str(url);
            e.push_str(" returned an error. Is it running?");
            Err(e)
        },
        HealthAnswer::Unreachable => {
            let mut e: String = "Error: No serve running at ".to_owned();
            e.push_str(url);
            e.push_str(". Start with: codesearch serve");
            Err(e)
        },
    }
}

impl StateView {
    /// Whether the configuration `new` no longer lists `alias`.
    pub open spec fn drops(self, new: ConfigView, alias: Seq<char>) -> bool {
        self.config.aliases().contains(alias) && new.resolve(alias) is None
    }

    /// What is kept of `alias` once the configuration `new` is in force: a repository that was
    /// dropped is closed and has no watcher.
    pub open spec fn kept_under(self, new: ConfigView, alias: Seq<char>) -> RepoView {
        if self.drops(new, alias) {
            RepoView { mode: None, watcher: false, ..self.repo(alias) }
        } else {
            self.repo(alias)
        }
    }

    /// This state after a stale `alias` was pruned.
    pub open spec fn pruned(self, alias: Seq<char>) -> StateView {
        StateView {
            config: self.config.without(alias),
            ..self.watcher_stopped(alias).with_repo(
                alias,
                RepoView {
                    mode: None,
                    last_access: None,
                    watcher: false,
                    ..self.watcher_stopped(alias).repo(alias)
                },
            )
        }
    }
}

impl ServeState {
    /// The configuration file was read, because its time stamp changed to `observed`. What
    /// cannot be parsed leaves the configuration as it is; the stamp is taken in any case, so
    /// that a broken file is not read again and again.
    ///
    /// Returns the repositories that are no longer listed and whose watcher is to be
    /// cancelled: those that were open for writing.
    pub fn config_read(&mut self, observed: Option<u128>, loaded: Option<ReposConfig>) -> (r: Vec<
        String,
    >)
        ensures
            match loaded {
                Some(new) => {
                    &&& final(self)@ == (StateView {
                        config: new@,
                        config_stamp: observed,
                        repos: final(self)@.repos,
                        ..old(self)@
                    })
                    &&& forall|a: Seq<char>| #[trigger]
                        final(self)@.repo(a) == old(self)@.kept_under(new@, a)
                    &&& forall|a: Seq<char>| #[trigger]
                        texts(r@).contains(a) <==> old(self)@.drops(new@, a) && old(self)@.repo(
                            a,
                        ).mode == Some(RepoState::Write)
                },
                None => {
                    &&& r@.len() == 0
                    &&& final(self)@ == (StateView { config_stamp: observed, ..old(self)@ })
                },
            },
    {
        let ghost before = self@;
        let mut cancel: Vec<String> = Vec::new();
        let new: ReposConfig = match loaded {
            Some(c) => c,
            None => {
                self.set_config_stamp(observed);
                return cancel;
            },
        };
        let names: Vec<String> = self.config().aliases();
        let ghost all = before.config.aliases();
        let mut i: usize = 0;
        assert(texts(cancel@) =~= Seq::empty());
        while i < names.len()
            invariant
                i <= names@.len(),
                texts(names@) == all,
                all == before.config.aliases(),
                self@ == (StateView { repos: self@.repos, ..before }),
                forall|a: Seq<char>| #[trigger]
                    self@.repo(a) == (if all.take(i as int).contains(a) && new@.resolve(a) is None {
                        RepoView { mode: None, watcher: false, ..before.repo(a) }
                    } else {
                        before.repo(a)
                    }),
                forall|a: Seq<char>| #[trigger]
                    texts(cancel@).contains(a) <==> all.take(i as int).contains(a) && new@.resolve(
                        a,
                    ) is None && before.repo(a).mode == Some(RepoState::Write),
            decreases names.len() - i,
        {
            let ghost p = names@[i as int]@;
            let ghost state1 = self@;
            let ghost cancel1 = texts(cancel@);
            proof {
                assert(all[i as int] == p);
                lemma_take_contains(all, i as int);
            }
            if new.resolve(names[i].as_str()).is_none() {
                let mut record: RepoRuntime = self.repo(names[i].as_str());
                let writing: bool = match record.mode {
                    Some(RepoState::Write) => true,
                    _ => false,
                };
                record.mode = None;
                record.watcher = false;
                self.set_repo(names[i].as_str(), record);
                if writing {
                    cancel.push(names[i].clone());
                    assert(texts(cancel@) =~= cancel1.push(p));
                }
                proof {
                    assert(state1.repo(p) == before.repo(p) || state1.repo(p).mode is None);
                    lemma_push_members(cancel1, p);
                    assert forall|a: Seq<char>| #[trigger]
                        self@.repo(a) == (if all.take(i + 1).contains(a) && new@.resolve(
                            a,
                        ) is None {
                            RepoView { mode: None, watcher: false, ..before.repo(a) }
                        } else {
                            before.repo(a)
                        }) by {
                        assert(state1.repo(a) == (if all.take(i as int).contains(a)
                            && new@.resolve(a) is None {
                            RepoView { mode: None, watcher: false, ..before.repo(a) }
                        } else {
                            before.repo(a)
                        }));
                    }
                }
            }
            proof {
                assert forall|a: Seq<char>| #[trigger] texts(cancel@).contains(a) <==> all.take(
                    i + 1,
                ).contains(a) && new@.resolve(a) is None && before.repo(a).mode == Some(
                    RepoState::Write,
                ) by {
                    assert(cancel1.contains(a) <==> all.take(i as int).contains(a) && new@.resolve(
                        a,
                    ) is None && before.repo(a).mode == Some(RepoState::Write));
                    assert(state1.repo(p) == (if all.take(i as int).contains(p) && new@.resolve(
                        p,
                    ) is None {
                        RepoView { mode: None, watcher: false, ..before.repo(p) }
                    } else {
                        before.repo(p)
                    }));
                    assert(all.take(i + 1).contains(a) <==> all.take(i as int).contains(a) || a
                        == p);
                }
            }
            i += 1;
        }
        assert(all.take(names@.len() as int) =~= all);
        let ghost done = self@;
        self.set_config(new);
        self.set_config_stamp(observed);
        proof {
            assert forall|a: Seq<char>| #[trigger] self@.repo(a) == before.kept_under(new@, a) by {
                assert(self@.repo(a) == done.repo(a));
            }
        }
        cancel
    }

    /// Repositories were found at other paths than those they are registered under: the
    /// configuration takes the new paths. Tells whether it is to be saved.
    pub fn paths_relocated(&mut self, relocated: &Vec<RepoEntry>) -> (r: bool)
        ensures
            r == (relocated@.len() > 0),
            final(self)@ == (StateView {
                config: relocated_all(old(self)@.config, relocated@),
                ..old(self)@
            }),
    {
        let ghost before = self@;
        let mut i: usize = 0;
        while i < relocated.len()
            invariant
                i <= relocated@.len(),
                self@ == (StateView {
                    config: relocated_all(before.config, relocated@.take(i as int)),
                    ..before
                }),
            decreases relocated.len() - i,
        {
            self.relocate(relocated[i].alias.as_str(), relocated[i].path.as_str());
            assert(relocated@.take(i + 1).drop_last() =~= relocated@.take(i as int));
            i += 1;
        }
        assert(relocated@.take(relocated@.len() as int) =~= relocated@);
        relocated.len() > 0
    }

    /// Prunes a stale repository whose warmup failed because its database or its path is gone:
    /// what is left of it in memory is dropped, and it is unregistered. Tells whether it was
    /// registered, so that the configuration is to be saved.
    pub fn prune(&mut self, alias: &str) -> (r: bool)
        ensures
            r == (old(self)@.config.resolve(alias@) is Some),
            final(self)@ == old(self)@.pruned(alias@),
    {
        let ghost before = self@;
        let _ = self.stop_fsw(alias);
        let mut record: RepoRuntime = self.repo(alias);
        record.mode = None;
        record.last_access = None;
        record.watcher = false;
        self.set_repo(alias, record);
        let r: bool = self.unregister(alias);
        assert(self@.repos =~= before.pruned(alias@).repos);
        assert(self@ == before.pruned(alias@));
        r
    }

    /// Marks every queued candidate as being indexed, so that a pending symbol rebuild shows
    /// at once.
    pub fn mark_queued(&mut self, aliases: &Vec<String>)
        ensures
            final(self)@ == (StateView { repos: final(self)@.repos, ..old(self)@ }),
            forall|a: Seq<char>| #[trigger]
                final(self)@.repo(a) == (if texts(aliases@).contains(a) {
                    RepoView { csharp: Some(CSharpIndexStatus::Indexing), ..old(self)@.repo(a) }
                } else {
                    old(self)@.repo(a)
                }),
    {
        let ghost before = self@;
        let ghost all = texts(aliases@);
        let mut i: usize = 0;
        while i < aliases.len()
            invariant
                i <= aliases@.len(),
                all == texts(aliases@),
                self@ == (StateView { repos: self@.repos, ..before }),
                forall|a: Seq<char>| #[trigger]
                    self@.repo(a) == (if all.take(i as int).contains(a) {
                        RepoView { csharp: Some(CSharpIndexStatus::Indexing), ..before.repo(a) }
                    } else {
                        before.repo(a)
                    }),
            decreases aliases.len() - i,
        {
            let ghost p = all[i as int];
            let ghost state1 = self@;
            let mut record: RepoRuntime = self.repo(aliases[i].as_str());
            record.csharp = Some(CSharpIndexStatus::Indexing);
            self.set_repo(aliases[i].as_str(), record);
            proof {
                lemma_take_contains(all, i as int);
                assert forall|a: Seq<char>| #[trigger]
                    self@.repo(a) == (if all.take(i + 1).contains(a) {
                        RepoView { csharp: Some(CSharpIndexStatus::Indexing), ..before.repo(a) }
                    } else {
                        before.repo(a)
                    }) by {
                    assert(state1.repo(a) == (if all.take(i as int).contains(a) {
                        RepoView { csharp: Some(CSharpIndexStatus::Indexing), ..before.repo(a) }
                    } else {
                        before.repo(a)
                    }));
                }
            }
            i += 1;
        }
        assert(all.take(aliases@.len() as int) =~= all);
    }

    /// A symbol index was found to be there and fresh: it is shown as ready, unless something
    /// else is known of it.
    pub fn symbol_index_fresh(&mut self, alias: &str)
        ensures
            final(self)@ == old(self)@.with_repo(
                alias@,
                RepoView {
                    csharp: match old(self)@.repo(alias@).csharp {
                        None => Some(CSharpIndexStatus::Ready),
                        Some(CSharpIndexStatus::Absent) => Some(CSharpIndexStatus::Ready),
                        Some(s) => Some(s),
                    },
                    ..old(self)@.repo(alias@)
                },
            ),
    {
        let mut record: RepoRuntime = self.repo(alias);
        record.csharp = Some(fresh_status(record.csharp));
        self.set_repo(alias, record);
    }

    /// Whether the reference cache of a repository is pre-warmed.
    pub open spec fn is_prewarmed(s: StateView, f: PrewarmFacts) -> bool {
        &&& s.config.resolve(f.alias@) is Some
        &&& f.path_exists
        &&& s.repo(f.alias@).csharp == Some(CSharpIndexStatus::Ready)
        &&& f.applies
    }

    /// The repositories whose reference cache is pre-warmed: registered, on disk, with a ready
    /// symbol index that the indexer applies to.
    pub fn prewarm_candidates(&self, facts: &Vec<PrewarmFacts>) -> (r: Vec<String>)
        ensures
            texts(r@) == facts@.filter(|f: PrewarmFacts| Self::is_prewarmed(self@, f)).map_values(
                |f: PrewarmFacts| f.alias@,
            ),
    {
        let ghost keep = |f: PrewarmFacts| Self::is_prewarmed(self@, f);
        let ghost name = |f: PrewarmFacts| f.alias@;
        let mut r: Vec<String> = Vec::new();
        let mut i: usize = 0;
        proof {
            reveal(Seq::filter);
            assert(texts(r@) =~= facts@.take(0).filter(keep).map_values(name));
        }
        while i < facts.len()
            invariant
                i <= facts@.len(),
                keep == (|f: PrewarmFacts| Self::is_prewarmed(self@, f)),
                name == (|f: PrewarmFacts| f.alias@),
                texts(r@) == facts@.take(i as int).filter(keep).map_values(name),
            decreases facts.len() - i,
        {
            let ghost before = r@;
            proof {
                reveal(Seq::filter);
                assert(facts@.take(i + 1).drop_last() =~= facts@.take(i as int));
            }
            let f: &PrewarmFacts = &facts[i];
            let registered: bool = self.config().resolve(f.alias.as_str()).is_some();
            let record: RepoRuntime = self.repo(f.alias.as_str());
            if registered && prewarms(f.path_exists, record.csharp, f.applies) {
                r.push(f.alias.clone());
                proof {
                    let was = facts@.take(i as int).filter(keep);
                    assert(texts(r@) =~= texts(before).push(f.alias@));
                    assert(was.push(*f).map_values(name) =~= was.map_values(name).push(f.alias@));
                }
            }
            i += 1;
        }
        assert(facts@.take(facts@.len() as int) =~= facts@);
        r
    }
}

/// A configuration after each of `relocated` took its new path, in order.
pub open spec fn relocated_all(config: ConfigView, relocated: Seq<RepoEntry>) -> ConfigView
    decreases relocated.len(),
{
    if relocated.len() == 0 {
        config
    } else {
        relocated_all(config, relocated.drop_last()).relocating(
            relocated.last().alias@,
            relocated.last().path@,
        )
    }
}

/// What is found of a repository before its reference cache is pre-warmed.
pub struct PrewarmFacts {
    pub alias: String,
    pub path_exists: bool,
    /// Whether the symbol indexer applies to it.
    pub applies: bool,
}

/// A configuration that lists fewer repositories closes those that it no longer lists, and
/// leaves every other one as it is.
pub proof fn law_reload_leaves_listed_repositories_alone(
    s: StateView,
    new: ConfigView,
    alias: Seq<char>,
)
    ensures
        new.resolve(alias) is Some ==> s.kept_under(new, alias) == s.repo(alias),
        s.config.aliases().contains(alias) && new.resolve(alias) is None ==> s.kept_under(
            new,
            alias,
        ).mode is None && !s.kept_under(new, alias).watcher,
{
}

} // verus!
