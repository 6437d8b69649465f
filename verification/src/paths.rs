//! Paths as lists of components: containment, the repository a path lies in, and the roots
//! that repositories may be registered under.
use crate::text::{
    ascii_lower, join_texts, joined, opt_str, same_text, same_text_ignoring_case, split,
    split_on, texts,
};
use vstd::prelude::*;

verus! {

/// Whether two components are the same, up to ASCII case where the platform ignores it.
pub open spec fn same_component(a: Seq<char>, b: Seq<char>, ignore_case: bool) -> bool {
    a == b || (ignore_case && ascii_lower(a) == ascii_lower(b))
}

/// Whether the path `target` lies inside `root`: its components begin with those of `root`.
pub open spec fn lies_inside(
    target: Seq<Seq<char>>,
    root: Seq<Seq<char>>,
    ignore_case: bool,
) -> bool {
    &&& root.len() <= target.len()
    &&& forall|i: int| 0 <= i < root.len() ==> same_component(#[trigger] root[i], target[i], ignore_case)
}

/// Component-boundary prefix match: does `target` lie inside `root`?
///
/// Both are lists of path components, so `/x/xy` does not match root `/x`. The comparison
/// ignores ASCII case where `ignore_case` says that the platform does.
pub fn path_contains(target: &Vec<String>, root: &Vec<String>, ignore_case: bool) -> (r: bool)
    ensures
        r == lies_inside(texts(target@), texts(root@), ignore_case),
{
    if root.len() > target.len() {
        return false;
    }
    let mut i: usize = 0;
    while i < root.len()
        invariant
            i <= root@.len() <= target@.len(),
            forall|j: int|
                0 <= j < i ==> same_component(
                    #[trigger] texts(root@)[j],
                    texts(target@)[j],
                    ignore_case,
                ),
        decreases root.len() - i,
    {
        let a: &str = root[i].as_str();
        let b: &str = target[i].as_str();
        let same: bool = same_text(a, b) || (ignore_case && same_text_ignoring_case(a, b));
        assert(texts(root@)[i as int] == a@);
        assert(texts(target@)[i as int] == b@);
        if !same {
            return false;
        }
        i += 1;
    }
    true
}

/// A repository and the components of its root.
pub struct RepoRoot {
    pub alias: String,
    pub root: Vec<String>,
}

/// Whether `repos[i]` is the repository that `target` belongs to: its root contains
/// `target`, and of the roots that do it is the longest, the last such in the list.
pub open spec fn innermost(
    repos: Seq<RepoRoot>,
    target: Seq<Seq<char>>,
    ignore_case: bool,
    i: int,
) -> bool {
    &&& 0 <= i < repos.len()
    &&& lies_inside(target, texts(repos[i].root@), ignore_case)
    &&& forall|j: int|
        0 <= j < repos.len() && lies_inside(
            target,
            texts((#[trigger] repos[j]).root@),
            ignore_case,
        ) ==> repos[j].root@.len() < repos[i].root@.len() || (repos[j].root@.len()
            == repos[i].root@.len() && j <= i)
}

/// Resolve `target` to the registered repo that contains it.
///
/// Longest root wins, so nested registered repos (a repo inside another repo's tree)
/// resolve to the inner one. Returns `None` for paths outside every registered repo.
pub fn containing_repo_alias(repos: &Vec<RepoRoot>, target: &Vec<String>, ignore_case: bool) -> (r:
    Option<String>)
    ensures
        match r {
            Some(alias) => exists|i: int|
                innermost(repos@, texts(target@), ignore_case, i) && (#[trigger] repos@[i]).alias@
                    == alias@,
            None => forall|j: int|
                0 <= j < repos@.len() ==> !lies_inside(
                    texts(target@),
                    texts((#[trigger] repos@[j]).root@),
                    ignore_case,
                ),
        },
{
    let mut best: Option<usize> = None;
    let mut i: usize = 0;
    while i < repos.len()
        invariant
            i <= repos@.len(),
            match best {
                Some(b) => b < i && innermost(
                    repos@.take(i as int),
                    texts(target@),
                    ignore_case,
                    b as int,
                ),
                None => forall|j: int|
                    0 <= j < i ==> !lies_inside(
                        texts(target@),
                        texts((#[trigger] repos@[j]).root@),
                        ignore_case,
                    ),
            },
        decreases repos.len() - i,
    {
        let ghost before = repos@.take(i as int);
        let ghost now = repos@.take(i + 1);
        let ghost old_best = best;
        proof {
            assert forall|j: int| 0 <= j < i implies now[j] == before[j] by {}
            assert(now[i as int] == repos@[i as int]);
        }
        if path_contains(target, &repos[i].root, ignore_case) {
            best = match best {
                Some(b) => if repos[i].root.len() >= repos[b].root.len() {
                    Some(i)
                } else {
                    Some(b)
                },
                None => Some(i),
            };
        }
        proof {
            if best is Some {
                let b = best->0 as int;
                assert forall|j: int|
                    0 <= j < now.len() && lies_inside(
                        texts(target@),
                        texts((#[trigger] now[j]).root@),
                        ignore_case,
                    ) implies now[j].root@.len() < now[b].root@.len() || (now[j].root@.len()
                    == now[b].root@.len() && j <= b) by {
                    if j < i {
                        assert(now[j] == before[j]);
                        assert(before[j] == repos@[j]);
                        if old_best is Some {
                            let ob = old_best->0 as int;
                            assert(before[ob] == repos@[ob]);
                        }
                    }
                }
                assert(innermost(now, texts(target@), ignore_case, b));
            }
        }
        i += 1;
    }
    assert(repos@.take(repos@.len() as int) =~= repos@);
    match best {
        Some(b) => {
            assert(repos@[b as int].alias@ == repos[b as int].alias@);
            Some(repos[b].alias.clone())
        },
        None => None,
    }
}

/// A path that lies in a repository lies in every repository around it, and the innermost is
/// the one it is answered with: no other root that contains the path is longer.
pub proof fn law_nested_repository_wins(
    repos: Seq<RepoRoot>,
    target: Seq<Seq<char>>,
    ignore_case: bool,
    inner: int,
    answer: int,
)
    requires
        0 <= inner < repos.len(),
        lies_inside(target, texts(repos[inner].root@), ignore_case),
        innermost(repos, target, ignore_case, answer),
    ensures
        repos[inner].root@.len() <= repos[answer].root@.len(),
{
}

/// Containment goes by whole components: what lies inside a root lies inside every path that
/// the root lies inside of.
pub proof fn law_containment_is_transitive(
    target: Seq<Seq<char>>,
    inner: Seq<Seq<char>>,
    outer: Seq<Seq<char>>,
    ignore_case: bool,
)
    requires
        lies_inside(target, inner, ignore_case),
        lies_inside(inner, outer, ignore_case),
    ensures
        lies_inside(target, outer, ignore_case),
{
    assert forall|i: int| 0 <= i < outer.len() implies same_component(
        #[trigger] outer[i],
        target[i],
        ignore_case,
    ) by {
        assert(same_component(inner[i], target[i], ignore_case));
    }
}

/// A path that differs from a root in one of the root's components lies outside it.
pub proof fn law_sibling_is_outside(target: Seq<Seq<char>>, root: Seq<Seq<char>>, i: int)
    requires
        0 <= i < root.len(),
        i < target.len(),
        root[i] != target[i],
    ensures
        !lies_inside(target, root, false),
{
    assert(!same_component(root[i], target[i], false));
}

/// The roots that a semicolon-separated setting lists; none when it is unset or empty.
pub open spec fn listed_roots(setting: Option<Seq<char>>) -> Seq<Seq<char>> {
    match setting {
        Some(v) => split(v, ';').filter(|s: Seq<char>| s.len() > 0),
        None => Seq::empty(),
    }
}

/// The roots that a semicolon-separated setting lists. An empty answer allows every path.
pub fn configured_roots(setting: Option<&str>) -> (r: Vec<String>)
    ensures
        texts(r@) == listed_roots(opt_str(setting)),
{
    let mut r: Vec<String> = Vec::new();
    match setting {
        Some(v) => {
            let pieces: Vec<String> = split_on(v, ';');
            let mut i: usize = 0;
            let ghost all = split(v@, ';');
            let ghost some = |s: Seq<char>| s.len() > 0;
            proof {
                reveal(Seq::filter);
                assert(texts(r@) =~= all.take(0).filter(some));
            }
            while i < pieces.len()
                invariant
                    i <= pieces@.len(),
                    texts(pieces@) == all,
                    some == (|s: Seq<char>| s.len() > 0),
                    texts(r@) == all.take(i as int).filter(some),
                decreases pieces.len() - i,
            {
                let ghost before = r@;
                proof {
                    reveal(Seq::filter);
                    assert(all[i as int] == pieces@[i as int]@);
                    assert(all.take(i + 1).drop_last() =~= all.take(i as int));
                }
                if !pieces[i].as_str().is_empty() {
                    r.push(pieces[i].clone());
                    assert(texts(r@) =~= texts(before).push(all[i as int]));
                }
                i += 1;
            }
            assert(all.take(all.len() as int) =~= all);
        },
        None => {
            assert(texts(r@) =~= Seq::empty());
        },
    }
    r
}

/// A path in both of its forms: as it is shown, and its components.
pub struct CanonicalPath {
    pub display: String,
    pub components: Vec<String>,
}

/// The shown forms of a list of paths.
pub open spec fn displays(paths: Seq<CanonicalPath>) -> Seq<Seq<char>> {
    paths.map_values(|p: CanonicalPath| p.display@)
}

/// Whether a path lies inside one of `roots`.
pub open spec fn inside_one(path: Seq<Seq<char>>, roots: Seq<CanonicalPath>) -> bool {
    exists|i: int| 0 <= i < roots.len() && lies_inside(path, texts((#[trigger] roots[i]).components@), false)
}

/// Why a path is refused when no configured root could be resolved.
pub open spec fn no_valid_roots() -> Seq<char> {
    "No valid roots found in CODESEARCH_ALLOWED_ROOTS — all configured paths failed to canonicalize"@
}

/// Why a path outside all roots is refused.
pub open spec fn outside_roots(path: Seq<char>, roots: Seq<CanonicalPath>) -> Seq<char> {
    "Path '"@ + path + "' is outside allowed roots: ["@ + joined(displays(roots), ", "@)
        + "]. Set CODESEARCH_ALLOWED_ROOTS to include this path or leave it empty to allow all paths."@
}

/// Validate that a canonical path falls under one of the allowed root directories.
///
/// `configured` are the roots of the setting, `resolved` those of them that exist, in
/// canonical form. Without a configured root every path is allowed; when none of the
/// configured roots resolves, none is.
pub fn validate_path_within_allowed_roots(
    path: &CanonicalPath,
    configured: &Vec<String>,
    resolved: &Vec<CanonicalPath>,
) -> (r: Result<(), String>)
    ensures
        match r {
            Ok(_) => configured@.len() == 0 || inside_one(texts(path.components@), resolved@),
            Err(e) => {
                &&& configured@.len() > 0
                &&& !inside_one(texts(path.components@), resolved@)
                &&& e@ == (if resolved@.len() == 0 {
                    no_valid_roots()
                } else {
                    outside_roots(path.display@, resolved@)
                })
            },
        },
{
    if configured.len() == 0 {
        return Ok(());
    }
    if resolved.len() == 0 {
        return Err(
            "No valid roots found in CODESEARCH_ALLOWED_ROOTS — all configured paths failed to canonicalize".to_owned(),
        );
    }
    let mut shown: Vec<String> = Vec::new();
    let mut i: usize = 0;
    while i < resolved.len()
        invariant
            i <= resolved@.len(),
            texts(shown@) == displays(resolved@.take(i as int)),
            forall|j: int|
                0 <= j < i ==> !lies_inside(
                    texts(path.components@),
                    texts((#[trigger] resolved@[j]).components@),
                    false,
                ),
        decreases resolved.len() - i,
    {
        let ghost before = shown@;
        if path_contains(&path.components, &resolved[i].components, false) {
            assert(lies_inside(
                texts(path.components@),
                texts(resolved@[i as int].components@),
                false,
            ));
            return Ok(());
        }
        shown.push(resolved[i].display.clone());
        i += 1;
        assert(texts(shown@) =~= texts(before).push(resolved@[i - 1].display@));
        assert(displays(resolved@.take(i as int)) =~= displays(resolved@.take(i - 1)).push(
            resolved@[i - 1].display@,
        ));
    }
    assert(resolved@.take(resolved@.len() as int) =~= resolved@);
    let mut msg: String = "Path '".to_owned();
    msg.push_str(path.display.as_str());
    msg.push_str("' is outside allowed roots: [");
    let list: String = join_texts(&shown, ", ");
    msg.push_str(list.as_str());
    msg.push_str(
        "]. Set CODESEARCH_ALLOWED_ROOTS to include this path or leave it empty to allow all paths.",
    );
    Err(msg)
}

} // verus!
