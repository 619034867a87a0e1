//! The cascade: which user requests brought a package into the plan.
//!
//! A package that the solver marked for someone else cannot be unmarked by
//! itself. Unmarking it means finding the user requests that depend on it,
//! directly or through other packages, and taking those back.

use crate::apt::AptCache;
use crate::intent::IntentStore;
use crate::text::{base_name, base_text, same_text};
use crate::types::PackageId;
use vstd::prelude::*;
use vstd::string::*;

verus! {

// ============================================================================
// The dependency relation
// ============================================================================

/// The kinds of dependency that the cascade follows.
pub open spec fn hard_kind(kind: Seq<char>) -> bool {
    kind == "Depends"@ || kind == "PreDepends"@
}

/// Whether the package called `name` lists `target` among its hard
/// dependencies.
pub open spec fn requires_directly(cache: AptCache, name: Seq<char>, target: Seq<char>) -> bool {
    match cache.record_of(name) {
        Some(r) => exists|i: int|
            0 <= i < r.dependencies@.len() && hard_kind((#[trigger] r.dependencies@[i]).0@)
                && r.dependencies@[i].1@ == target,
        None => false,
    }
}

/// The registered full name that a dependency target stands for: the target
/// itself where it is registered, else the target on the native
/// architecture of the catalog.
pub open spec fn resolved(cache: AptCache, target: Seq<char>) -> Option<Seq<char>> {
    if cache.knows(target) {
        Some(target)
    } else if cache.knows(cache.native_name(target)) {
        Some(cache.native_name(target))
    } else {
        None
    }
}

/// Whether a hard dependency of `from` stands for `to`.
pub open spec fn leads_to(cache: AptCache, from: Seq<char>, to: Seq<char>) -> bool {
    exists|t: Seq<char>| #[trigger] requires_directly(cache, from, t) && resolved(cache, t) == Some(to)
}

/// Whether each package of `path` leads to the next.
pub open spec fn is_chain(cache: AptCache, path: Seq<Seq<char>>) -> bool {
    path.len() > 0 && forall|i: int|
        0 <= i < path.len() - 1 ==> leads_to(cache, #[trigger] path[i], path[i + 1])
}

/// Whether hard dependencies lead from `from` to `to` in any number of
/// steps, none included.
pub open spec fn reaches(cache: AptCache, from: Seq<char>, to: Seq<char>) -> bool {
    exists|path: Seq<Seq<char>>| #[trigger]
        is_chain(cache, path) && path[0] == from && path.last() == to
}

/// Whether the package called `name` depends on the package whose name
/// without architecture is `target`, directly or through other packages.
pub open spec fn depends_on(cache: AptCache, name: Seq<char>, target: Seq<char>) -> bool {
    exists|via: Seq<char>| #[trigger]
        reaches(cache, name, via) && requires_directly(cache, via, target)
}

/// Every package reaches itself.
proof fn lemma_reaches_itself(cache: AptCache, name: Seq<char>)
    ensures
        reaches(cache, name, name),
{
    let path = seq![name];
    assert(is_chain(cache, path));
    assert(path[0] == name && path.last() == name);
}

/// A chain can be extended by one step.
proof fn lemma_reaches_step(cache: AptCache, from: Seq<char>, via: Seq<char>, to: Seq<char>)
    requires
        reaches(cache, from, via),
        leads_to(cache, via, to),
    ensures
        reaches(cache, from, to),
{
    let path = choose|path: Seq<Seq<char>>| #[trigger]
        is_chain(cache, path) && path[0] == from && path.last() == via;
    let longer = path.push(to);
    assert forall|i: int| 0 <= i < longer.len() - 1 implies leads_to(
        cache,
        #[trigger] longer[i],
        longer[i + 1],
    ) by {
        if i < path.len() - 1 {
            assert(longer[i] == path[i] && longer[i + 1] == path[i + 1]);
        }
    }
    assert(is_chain(cache, longer));
    assert(longer[0] == from && longer.last() == to);
}

// ============================================================================
// The walk
// ============================================================================

/// The number of handles that the walk has not visited.
spec fn unvisited(visited: Seq<bool>) -> nat
    decreases visited.len(),
{
    if visited.len() == 0 {
        0
    } else {
        unvisited(visited.drop_last()) + if visited.last() {
            0nat
        } else {
            1nat
        }
    }
}

proof fn lemma_visit(visited: Seq<bool>, i: int)
    requires
        0 <= i < visited.len(),
        !visited[i],
    ensures
        unvisited(visited.update(i, true)) + 1 == unvisited(visited),
    decreases visited.len(),
{
    let after = visited.update(i, true);
    if i == visited.len() - 1 {
        assert(after.drop_last() =~= visited.drop_last());
    } else {
        lemma_visit(visited.drop_last(), i);
        assert(after.drop_last() =~= visited.drop_last().update(i, true));
    }
}

/// Whether the walk has seen the package called `name`: it has visited it
/// or holds it on the stack.
spec fn covered(cache: AptCache, visited: Seq<bool>, stack: Seq<PackageId>, name: Seq<char>) -> bool {
    exists|i: int|
        0 <= i < cache.names().len() && i < visited.len() && #[trigger] cache.names()[i] == name
            && (visited[i] || stack.contains(PackageId(i as u32)))
}

/// Whether the walk is done with the handle `v`: it is reachable, does not
/// list the target, and everything it leads to has been seen.
spec fn settled(
    cache: AptCache,
    visited: Seq<bool>,
    stack: Seq<PackageId>,
    start: Seq<char>,
    target: Seq<char>,
    v: int,
) -> bool {
    &&& reaches(cache, start, cache.names()[v])
    &&& !requires_directly(cache, cache.names()[v], target)
    &&& forall|b: Seq<char>| #[trigger]
        leads_to(cache, cache.names()[v], b) ==> covered(cache, visited, stack, b)
}

/// What the walk has seen stays seen while it visits and pushes.
proof fn lemma_covered_keeps(
    cache: AptCache,
    visited: Seq<bool>,
    stack: Seq<PackageId>,
    visited2: Seq<bool>,
    stack2: Seq<PackageId>,
    name: Seq<char>,
)
    requires
        cache.wf(),
        covered(cache, visited, stack, name),
        visited2.len() == visited.len(),
        visited.len() == cache.names().len(),
        forall|i: int| 0 <= i < visited.len() && visited[i] ==> visited2[i],
        forall|k: int|
            0 <= k < stack.len() ==> stack2.contains(#[trigger] stack[k]) || (stack[k].0
                < visited2.len() && visited2[stack[k].0 as int]),
    ensures
        covered(cache, visited2, stack2, name),
{
    cache.lemma_handles_one_to_one();
    let i = choose|i: int|
        0 <= i < cache.names().len() && i < visited.len() && #[trigger] cache.names()[i] == name
            && (visited[i] || stack.contains(PackageId(i as u32)));
    if !visited[i] {
        let k = choose|k: int| 0 <= k < stack.len() && stack[k] == PackageId(i as u32);
        assert(stack2.contains(stack[k]) || visited2[stack[k].0 as int]);
    }
    assert(cache.names()[i] == name && (visited2[i] || stack2.contains(PackageId(i as u32))));
}

/// What is settled stays settled while the walk visits and pushes.
proof fn lemma_settled_keeps(
    cache: AptCache,
    visited: Seq<bool>,
    stack: Seq<PackageId>,
    visited2: Seq<bool>,
    stack2: Seq<PackageId>,
    start: Seq<char>,
    target: Seq<char>,
    v: int,
)
    requires
        cache.wf(),
        settled(cache, visited, stack, start, target, v),
        visited2.len() == visited.len(),
        visited.len() == cache.names().len(),
        forall|i: int| 0 <= i < visited.len() && visited[i] ==> visited2[i],
        forall|k: int|
            0 <= k < stack.len() ==> stack2.contains(#[trigger] stack[k]) || (stack[k].0
                < visited2.len() && visited2[stack[k].0 as int]),
    ensures
        settled(cache, visited2, stack2, start, target, v),
{
    assert forall|b: Seq<char>| #[trigger] leads_to(cache, cache.names()[v], b) implies covered(
        cache,
        visited2,
        stack2,
        b,
    ) by {
        lemma_covered_keeps(cache, visited, stack, visited2, stack2, b);
    }
}

/// Once the stack is empty, the walk has visited every package that the
/// start reaches.
proof fn lemma_all_visited(
    cache: AptCache,
    visited: Seq<bool>,
    start: Seq<char>,
    target: Seq<char>,
    path: Seq<Seq<char>>,
    k: int,
)
    requires
        cache.wf(),
        visited.len() == cache.names().len(),
        covered(cache, visited, Seq::empty(), start),
        forall|v: int|
            0 <= v < visited.len() && visited[v] ==> settled(
                cache,
                visited,
                Seq::empty(),
                start,
                target,
                v,
            ),
        is_chain(cache, path),
        path[0] == start,
        0 <= k < path.len(),
    ensures
        covered(cache, visited, Seq::empty(), path[k]),
    decreases k,
{
    if k > 0 {
        lemma_all_visited(cache, visited, start, target, path, k - 1);
        let i = choose|i: int|
            0 <= i < cache.names().len() && i < visited.len() && #[trigger] cache.names()[i]
                == path[k - 1] && (visited[i] || Seq::<PackageId>::empty().contains(
                PackageId(i as u32),
            ));
        assert(visited[i]);
        assert(settled(cache, visited, Seq::empty(), start, target, i));
        assert(leads_to(cache, path[k - 1], path[k]));
    }
}

/// Whether the package of the handle `start` depends on the package whose
/// name without architecture is `target_base`, directly or through other
/// packages, by `Depends` and `PreDepends` alone. Packages met twice are
/// followed once.
pub fn package_depends_on(cache: &AptCache, start: PackageId, target_base: &str) -> (r: bool)
    requires
        cache.wf(),
        cache.valid(start),
    ensures
        r == depends_on(*cache, cache.names()[start.0 as int], target_base@),
{
    let n = cache.handle_count();
    let ghost start_name = cache.names()[start.0 as int];
    let ghost target = target_base@;
    let mut visited: Vec<bool> = Vec::new();
    let mut k: usize = 0;
    while k < n
        invariant
            k <= n,
            visited@.len() == k,
            forall|i: int| 0 <= i < k ==> !visited@[i],
        decreases n - k,
    {
        visited.push(false);
        k += 1;
    }
    let mut stack: Vec<PackageId> = Vec::new();
    stack.push(start);
    proof {
        lemma_reaches_itself(*cache, start_name);
        assert(stack@[0] == start);
        assert(cache.names()[start.0 as int] == start_name && stack@.contains(
            PackageId(start.0 as int as u32),
        ));
    }
    while stack.len() > 0
        invariant
            cache.wf(),
            n == cache.names().len(),
            visited@.len() == n,
            start_name == cache.names()[start.0 as int],
            target == target_base@,
            covered(*cache, visited@, stack@, start_name),
            forall|k: int|
                0 <= k < stack@.len() ==> (#[trigger] stack@[k]).0 < n && reaches(
                    *cache,
                    start_name,
                    cache.names()[stack@[k].0 as int],
                ),
            forall|v: int|
                0 <= v < n && visited@[v] ==> settled(
                    *cache,
                    visited@,
                    stack@,
                    start_name,
                    target,
                    v,
                ),
        decreases unvisited(visited@), stack@.len(),
    {
        let ghost visited0 = visited@;
        let ghost stack0 = stack@;
        let current = stack.pop().unwrap();
        let ci = current.index();
        proof {
            assert(current == stack0[stack0.len() - 1]);
            assert(stack@ =~= stack0.drop_last());
        }
        if !visited[ci] {
            visited[ci] = true;
            let ghost visited1 = visited@;
            let ghost stack1 = stack@;
            proof {
                lemma_visit(visited0, ci as int);
                assert(visited1 =~= visited0.update(ci as int, true));
                assert forall|k: int| 0 <= k < stack0.len() implies stack1.contains(
                    #[trigger] stack0[k],
                ) || (stack0[k].0 < visited1.len() && visited1[stack0[k].0 as int]) by {
                    if k < stack0.len() - 1 {
                        assert(stack1[k] == stack0[k]);
                    }
                }
                lemma_covered_keeps(*cache, visited0, stack0, visited1, stack1, start_name);
                assert forall|v: int| 0 <= v < n && visited1[v] && v != ci implies settled(
                    *cache,
                    visited1,
                    stack1,
                    start_name,
                    target,
                    v,
                ) by {
                    lemma_settled_keeps(
                        *cache,
                        visited0,
                        stack0,
                        visited1,
                        stack1,
                        start_name,
                        target,
                        v,
                    );
                }
            }
            let name = cache.fullname_of(current).unwrap();
            match cache.get(name) {
                Some(record) => {
                    let deps = &record.dependencies;
                    let mut j: usize = 0;
                    while j < deps.len()
                        invariant
                            j <= deps@.len(),
                            cache.wf(),
                            n == cache.names().len(),
                            visited@ == visited1,
                            visited@.len() == n,
                            ci < n,
                            visited@[ci as int],
                            name@ == cache.names()[ci as int],
                            cache.record_of(name@) == Some(*record),
                            deps@ == record.dependencies@,
                            start_name == cache.names()[start.0 as int],
                            target == target_base@,
                            reaches(*cache, start_name, name@),
                            covered(*cache, visited@, stack@, start_name),
                            forall|k: int|
                                0 <= k < stack@.len() ==> (#[trigger] stack@[k]).0 < n && reaches(
                                    *cache,
                                    start_name,
                                    cache.names()[stack@[k].0 as int],
                                ),
                            forall|v: int|
                                0 <= v < n && visited@[v] && v != ci ==> settled(
                                    *cache,
                                    visited@,
                                    stack@,
                                    start_name,
                                    target,
                                    v,
                                ),
                            forall|i: int|
                                0 <= i < j && hard_kind((#[trigger] deps@[i]).0@) ==> deps@[i].1@
                                    != target && (resolved(*cache, deps@[i].1@) matches Some(b)
                                    ==> covered(*cache, visited@, stack@, b)),
                        decreases deps@.len() - j,
                    {
                        let kind = deps[j].0.as_str();
                        let dep = deps[j].1.as_str();
                        if same_text(kind, "Depends") || same_text(kind, "PreDepends") {
                            if same_text(dep, target_base) {
                                proof {
                                    assert(hard_kind(record.dependencies@[j as int].0@));
                                    assert(requires_directly(*cache, name@, target));
                                }
                                return true;
                            }
                            let found = match cache.get_id(dep) {
                                Some(id) => Some(id),
                                None => {
                                    let native = cache.on_native_arch(dep);
                                    cache.get_id(native.as_str())
                                },
                            };
                            if let Some(next) = found {
                                let ghost stack2 = stack@;
                                stack.push(next);
                                proof {
                                    cache.lemma_handles_one_to_one();
                                    let b = resolved(*cache, dep@)->0;
                                    let at = cache.names().index_of(b);
                                    assert(cache.names().contains(b));
                                    assert(cache.names()[at] == b);
                                    assert(next == PackageId(at as u32));
                                    assert(requires_directly(*cache, name@, dep@)) by {
                                        assert(hard_kind(record.dependencies@[j as int].0@));
                                    }
                                    assert(leads_to(*cache, name@, b));
                                    lemma_reaches_step(*cache, start_name, name@, b);
                                    assert(stack@.drop_last() =~= stack2);
                                    assert forall|k: int| 0 <= k < stack2.len() implies stack@.contains(
                                        #[trigger] stack2[k],
                                    ) by {
                                        assert(stack@[k] == stack2[k]);
                                    }
                                    assert(stack@[stack@.len() - 1] == next);
                                    assert(covered(*cache, visited@, stack@, b)) by {
                                        assert(cache.names()[at] == b && stack@.contains(
                                            PackageId(at as u32),
                                        ));
                                    }
                                    lemma_covered_keeps(
                                        *cache,
                                        visited@,
                                        stack2,
                                        visited@,
                                        stack@,
                                        start_name,
                                    );
                                    assert forall|v: int|
                                        0 <= v < n && visited@[v] && v != ci implies settled(
                                        *cache,
                                        visited@,
                                        stack@,
                                        start_name,
                                        target,
                                        v,
                                    ) by {
                                        lemma_settled_keeps(
                                            *cache,
                                            visited@,
                                            stack2,
                                            visited@,
                                            stack@,
                                            start_name,
                                            target,
                                            v,
                                        );
                                    }
                                    assert forall|i: int|
                                        0 <= i < j && hard_kind((#[trigger] deps@[i]).0@) implies (
                                    resolved(*cache, deps@[i].1@) matches Some(b2) ==> covered(
                                        *cache,
                                        visited@,
                                        stack@,
                                        b2,
                                    )) by {
                                        if resolved(*cache, deps@[i].1@) is Some {
                                            lemma_covered_keeps(
                                                *cache,
                                                visited@,
                                                stack2,
                                                visited@,
                                                stack@,
                                                resolved(*cache, deps@[i].1@)->0,
                                            );
                                        }
                                    }
                                }
                            }
                        }
                        j += 1;
                    }
                    proof {
                        assert(settled(*cache, visited@, stack@, start_name, target, ci as int)) by {
                            assert forall|b: Seq<char>| #[trigger]
                                leads_to(*cache, name@, b) implies covered(
                                *cache,
                                visited@,
                                stack@,
                                b,
                            ) by {
                                let t = choose|t: Seq<char>| #[trigger]
                                    requires_directly(*cache, name@, t) && resolved(*cache, t)
                                        == Some(b);
                                let i = choose|i: int|
                                    0 <= i < record.dependencies@.len() && hard_kind(
                                        (#[trigger] record.dependencies@[i]).0@,
                                    ) && record.dependencies@[i].1@ == t;
                                assert(hard_kind(deps@[i].0@));
                            }
                            if requires_directly(*cache, name@, target) {
                                let i = choose|i: int|
                                    0 <= i < record.dependencies@.len() && hard_kind(
                                        (#[trigger] record.dependencies@[i]).0@,
                                    ) && record.dependencies@[i].1@ == target;
                                assert(hard_kind(deps@[i].0@));
                            }
                        }
                    }
                },
                None => {
                    proof {
                        assert(settled(*cache, visited@, stack@, start_name, target, ci as int));
                    }
                },
            }
        } else {
            proof {
                assert forall|k: int| 0 <= k < stack0.len() implies stack@.contains(
                    #[trigger] stack0[k],
                ) || (stack0[k].0 < visited@.len() && visited@[stack0[k].0 as int]) by {
                    if k < stack0.len() - 1 {
                        assert(stack@[k] == stack0[k]);
                    }
                }
                lemma_covered_keeps(*cache, visited0, stack0, visited@, stack@, start_name);
                assert forall|v: int| 0 <= v < n && visited@[v] implies settled(
                    *cache,
                    visited@,
                    stack@,
                    start_name,
                    target,
                    v,
                ) by {
                    lemma_settled_keeps(
                        *cache,
                        visited0,
                        stack0,
                        visited@,
                        stack@,
                        start_name,
                        target,
                        v,
                    );
                }
            }
        }
    }
    proof {
        assert(stack@ =~= Seq::<PackageId>::empty());
        if depends_on(*cache, start_name, target) {
            let via = choose|via: Seq<char>| #[trigger]
                reaches(*cache, start_name, via) && requires_directly(*cache, via, target);
            let path = choose|path: Seq<Seq<char>>| #[trigger]
                is_chain(*cache, path) && path[0] == start_name && path.last() == via;
            lemma_all_visited(*cache, visited@, start_name, target, path, path.len() - 1);
            let i = choose|i: int|
                0 <= i < cache.names().len() && i < visited@.len() && #[trigger] cache.names()[i]
                    == via && (visited@[i] || Seq::<PackageId>::empty().contains(
                    PackageId(i as u32),
                ));
            assert(settled(*cache, visited@, stack@, start_name, target, i));
        }
    }
    false
}

// ============================================================================
// The user requests behind a package
// ============================================================================

/// Whether the user request `u` accounts for the package called `target`:
/// its package depends on the target's name without architecture.
pub open spec fn accounts_for(cache: AptCache, u: PackageId, target: Seq<char>) -> bool {
    cache.valid(u) && depends_on(cache, cache.names()[u.0 as int], base_text(target))
}

/// The user requests that account for the package of `target`, out of
/// `order`. None where the handle stands for no name.
pub open spec fn culprits(cache: AptCache, order: Seq<PackageId>, target: PackageId) -> Seq<
    PackageId,
> {
    if cache.valid(target) {
        order.filter(|u: PackageId| accounts_for(cache, u, cache.names()[target.0 as int]))
    } else {
        Seq::empty()
    }
}

/// The user requests whose packages depend on the package of `target`,
/// directly or through other packages, in the order in which they were
/// made.
pub fn find_user_intent_depending_on(cache: &AptCache, intent: &IntentStore, target: PackageId) -> (r:
    Vec<PackageId>)
    requires
        cache.wf(),
        intent.wf(),
    ensures
        r@ == culprits(*cache, intent.order(), target),
        forall|i: int| 0 <= i < r@.len() ==> intent@.contains_key(#[trigger] r@[i]),
{
    let mut result: Vec<PackageId> = Vec::new();
    let target_name = match cache.fullname_of(target) {
        Some(name) => name,
        None => {
            return result;
        },
    };
    let target_base = base_name(target_name);
    let ids = intent.ids();
    let ghost keep = |u: PackageId| accounts_for(*cache, u, cache.names()[target.0 as int]);
    let mut i: usize = 0;
    proof {
        intent.lemma_view();
        assert(ids@.take(0).filter(keep) =~= Seq::<PackageId>::empty());
    }
    while i < ids.len()
        invariant
            i <= ids@.len(),
            cache.wf(),
            ids@ == intent.order(),
            cache.valid(target),
            target_base@ == base_text(cache.names()[target.0 as int]),
            keep == (|u: PackageId| accounts_for(*cache, u, cache.names()[target.0 as int])),
            result@ == ids@.take(i as int).filter(keep),
            forall|k: int| 0 <= k < result@.len() ==> ids@.contains(#[trigger] result@[k]),
        decreases ids@.len() - i,
    {
        let u = ids[i];
        proof {
            crate::types::lemma_filter_step(ids@, keep, i as int);
        }
        let accounts = match cache.fullname_of(u) {
            Some(_name) => package_depends_on(cache, u, target_base.as_str()),
            None => false,
        };
        if accounts {
            result.push(u);
            proof {
                assert(ids@[i as int] == u);
            }
        }
        i += 1;
    }
    proof {
        assert(ids@.take(i as int) =~= ids@);
    }
    result
}

} // verus!
