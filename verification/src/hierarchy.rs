//! The hierarchy aggregator: folding each directory's activation result
//! with the results of every directory nested beneath it.
//!
//! For each directory, the descendants are taken in ascending index
//! order; a descendant's new variables are merged in only when none of
//! its keys is already present, otherwise the fold stops with a
//! collision naming the variable and both directories.  Old variables
//! merge without checks: unsetting a name twice is harmless.

use vstd::prelude::*;

use crate::engine::NewAndOldEnv;
use crate::errors::CollisionError;
use crate::errors::CollisionErrorView;
use crate::paths::dir_nested_under;
use crate::paths::nested_under;
use crate::smap::StrMap;

verus! {

/// The indices below `upto` of the results nested beneath result `i`,
/// ascending.
pub open spec fn desc_indices(envs: Seq<NewAndOldEnv>, i: int, upto: int) -> Seq<int>
    decreases upto,
{
    if upto <= 0 {
        Seq::<int>::empty()
    } else {
        desc_indices(envs, i, upto - 1) + (if upto - 1 != i && nested_under(
            envs[upto - 1].activate_toml_file_directory@,
            envs[i].activate_toml_file_directory@,
        ) {
            seq![upto - 1]
        } else {
            Seq::<int>::empty()
        })
    }
}

/// An index is among the descendants exactly when its result is nested
/// beneath result `i`.
pub proof fn lemma_desc_indices_contains(envs: Seq<NewAndOldEnv>, i: int, upto: int, j: int)
    requires
        0 <= j < upto,
    ensures
        desc_indices(envs, i, upto).contains(j) <==> (j != i && nested_under(
            envs[j].activate_toml_file_directory@,
            envs[i].activate_toml_file_directory@,
        )),
    decreases upto,
{
    if j < upto - 1 {
        lemma_desc_indices_contains(envs, i, upto - 1, j);
        assert(desc_indices(envs, i, upto).contains(j) <==> desc_indices(
            envs,
            i,
            upto - 1,
        ).contains(j)) by {
            let pre = desc_indices(envs, i, upto - 1);
            let whole = desc_indices(envs, i, upto);
            if pre.contains(j) {
                let w = choose|w: int| 0 <= w < pre.len() && pre[w] == j;
                assert(whole[w] == j);
            }
            if whole.contains(j) {
                let w = choose|w: int| 0 <= w < whole.len() && whole[w] == j;
                if w < pre.len() {
                    assert(pre[w] == j);
                } else {
                    assert(whole[w] == upto - 1);
                }
            }
        }
    } else {
        let pre = desc_indices(envs, i, upto - 1);
        lemma_desc_indices_below(envs, i, upto - 1);
        if j != i && nested_under(
            envs[j].activate_toml_file_directory@,
            envs[i].activate_toml_file_directory@,
        ) {
            assert(desc_indices(envs, i, upto)[pre.len() as int] == j);
        } else {
            if desc_indices(envs, i, upto).contains(j) {
                let w = choose|w: int|
                    0 <= w < desc_indices(envs, i, upto).len() && desc_indices(envs, i, upto)[w]
                        == j;
                assert(pre[w] == j);
            }
        }
    }
}

/// Every listed descendant index lies below the bound.
pub proof fn lemma_desc_indices_below(envs: Seq<NewAndOldEnv>, i: int, upto: int)
    ensures
        forall|w: int|
            0 <= w < desc_indices(envs, i, upto).len() ==> 0 <= #[trigger] desc_indices(
                envs,
                i,
                upto,
            )[w] < upto,
    decreases upto,
{
    if upto > 0 {
        lemma_desc_indices_below(envs, i, upto - 1);
        let pre = desc_indices(envs, i, upto - 1);
        let whole = desc_indices(envs, i, upto);
        assert forall|w: int| 0 <= w < whole.len() implies 0 <= #[trigger] whole[w] < upto by {
            if w < pre.len() {
                assert(whole[w] == pre[w]);
            } else {
                assert(whole[w] == upto - 1);
            }
        }
    }
}

/// The first key of `kvs` already bound in `m`, in entry order.
pub open spec fn first_collision(
    kvs: Seq<(Seq<char>, Seq<char>)>,
    m: Map<Seq<char>, Seq<char>>,
) -> Option<Seq<char>>
    decreases kvs.len(),
{
    if kvs.len() == 0 {
        None
    } else if m.contains_key(kvs[0].0) {
        Some(kvs[0].0)
    } else {
        first_collision(kvs.skip(1), m)
    }
}

/// No collision is found exactly when no entry's key is bound in `m`.
pub proof fn lemma_first_collision_none(kvs: Seq<(Seq<char>, Seq<char>)>, m: Map<Seq<char>, Seq<char>>)
    ensures
        first_collision(kvs, m) is None <==> forall|w: int|
            0 <= w < kvs.len() ==> !m.contains_key(#[trigger] kvs[w].0),
    decreases kvs.len(),
{
    if kvs.len() > 0 {
        lemma_first_collision_none(kvs.skip(1), m);
        if !m.contains_key(kvs[0].0) {
            assert forall|w: int| 0 <= w < kvs.len() && first_collision(kvs, m) is None implies !m.contains_key(
                #[trigger] kvs[w].0,
            ) by {
                if w > 0 {
                    assert(kvs.skip(1)[w - 1] == kvs[w]);
                }
            }
            if forall|w: int| 0 <= w < kvs.len() ==> !m.contains_key(#[trigger] kvs[w].0) {
                assert forall|w: int| 0 <= w < kvs.skip(1).len() implies !m.contains_key(
                    #[trigger] kvs.skip(1)[w].0,
                ) by {
                    assert(kvs.skip(1)[w] == kvs[w + 1]);
                }
            }
        }
    }
}

/// Folds the listed descendants into the accumulated old and new maps,
/// stopping at the first descendant that binds an already-present key:
/// the refusal names that key and the descendant's directory.
pub open spec fn merge_list(
    acc_old: Map<Seq<char>, Seq<char>>,
    acc_new: Map<Seq<char>, Seq<char>>,
    envs: Seq<NewAndOldEnv>,
    subs: Seq<int>,
) -> Result<(Map<Seq<char>, Seq<char>>, Map<Seq<char>, Seq<char>>), (Seq<char>, Seq<char>)>
    decreases subs.len(),
{
    if subs.len() == 0 {
        Ok((acc_old, acc_new))
    } else {
        let e = envs[subs[0]];
        match first_collision(e.new_env.kvs(), acc_new) {
            Some(k) => Err((k, e.activate_toml_file_directory@)),
            None => merge_list(
                acc_old.union_prefer_right(e.old_env@),
                acc_new.union_prefer_right(e.new_env@),
                envs,
                subs.skip(1),
            ),
        }
    }
}

/// The fold of result `i` with all of its descendants.
pub open spec fn root_merge(envs: Seq<NewAndOldEnv>, i: int) -> Result<
    (Map<Seq<char>, Seq<char>>, Map<Seq<char>, Seq<char>>),
    (Seq<char>, Seq<char>),
> {
    merge_list(
        envs[i].old_env@,
        envs[i].new_env@,
        envs,
        desc_indices(envs, i, envs.len() as int),
    )
}

/// The collision reported for result `i`, when its fold stops.
pub open spec fn root_collision(envs: Seq<NewAndOldEnv>, i: int) -> CollisionErrorView {
    match root_merge(envs, i) {
        Err(kd) => CollisionErrorView {
            key: kd.0,
            first_directory: envs[i].activate_toml_file_directory@,
            second_directory: kd.1,
        },
        Ok(_) => arbitrary(),
    }
}

/// The consolidated results from root index `i` on: one merged pair per
/// result, or the first collision in index order.
pub open spec fn consolidate_from(envs: Seq<NewAndOldEnv>, i: int) -> Result<
    Seq<(Map<Seq<char>, Seq<char>>, Map<Seq<char>, Seq<char>>)>,
    CollisionErrorView,
>
    decreases envs.len() - i,
    when 0 <= i
{
    if i >= envs.len() {
        Ok(Seq::empty())
    } else {
        match root_merge(envs, i) {
            Err(_) => Err(root_collision(envs, i)),
            Ok(p) => match consolidate_from(envs, i + 1) {
                Ok(rest) => Ok(seq![p] + rest),
                Err(c) => Err(c),
            },
        }
    }
}

/// Lists, for each result, the ascending indices of the results nested
/// beneath it.
pub fn create_env_hierarchy(envs: &Vec<NewAndOldEnv>) -> (r: Vec<(usize, Vec<usize>)>)
    ensures
        r@.len() == envs@.len(),
        forall|i: int| 0 <= i < r@.len() ==> (#[trigger] r@[i].0) == i,
        forall|i: int|
            0 <= i < r@.len() ==> (#[trigger] r@[i].1@).map_values(|u: usize| u as int)
                == desc_indices(envs@, i, envs@.len() as int),
{
    let n = envs.len();
    let mut r: Vec<(usize, Vec<usize>)> = Vec::new();
    let mut i: usize = 0;
    while i < n
        invariant
            i <= n,
            n == envs@.len(),
            r@.len() == i,
            forall|p: int| 0 <= p < i ==> (#[trigger] r@[p].0) == p,
            forall|p: int|
                0 <= p < i ==> (#[trigger] r@[p].1@).map_values(|u: usize| u as int)
                    == desc_indices(envs@, p, n as int),
        decreases n - i,
    {
        let mut subs: Vec<usize> = Vec::new();
        let mut j: usize = 0;
        proof {
            assert(subs@.map_values(|u: usize| u as int) =~= desc_indices(envs@, i as int, 0));
        }
        while j < n
            invariant
                j <= n,
                i < n,
                n == envs@.len(),
                subs@.map_values(|u: usize| u as int) == desc_indices(envs@, i as int, j as int),
            decreases n - j,
        {
            let ghost before = subs@;
            if j != i && dir_nested_under(
                envs[j].activate_toml_file_directory.as_str(),
                envs[i].activate_toml_file_directory.as_str(),
            ) {
                subs.push(j);
                proof {
                    assert(subs@.map_values(|u: usize| u as int) =~= before.map_values(
                        |u: usize| u as int,
                    ).push(j as int));
                    assert(subs@.map_values(|u: usize| u as int) =~= desc_indices(
                        envs@,
                        i as int,
                        j + 1,
                    ));
                }
            } else {
                proof {
                    assert(subs@.map_values(|u: usize| u as int) =~= desc_indices(
                        envs@,
                        i as int,
                        j + 1,
                    ));
                }
            }
            j += 1;
        }
        r.push((i, subs));
        i += 1;
    }
    r
}

/// Finds the first key of `m` (in entry order) already bound in `acc`.
fn find_collision(m: &StrMap, acc: &StrMap) -> (r: Option<String>)
    requires
        acc.wf(),
    ensures
        match r {
            Some(k) => first_collision(m.kvs(), acc@) == Some(k@),
            None => first_collision(m.kvs(), acc@) is None,
        },
{
    let entries = m.entries();
    let n = entries.len();
    let mut i: usize = 0;
    proof {
        assert(m.kvs().skip(0) =~= m.kvs());
    }
    while i < n
        invariant
            i <= n,
            n == m.kvs().len(),
            acc.wf(),
            entries.deep_view() == m.kvs(),
            first_collision(m.kvs(), acc@) == first_collision(m.kvs().skip(i as int), acc@),
        decreases n - i,
    {
        proof {
            assert(m.kvs().skip(i as int)[0] == m.kvs()[i as int]);
            assert(m.kvs().skip(i as int).skip(1) =~= m.kvs().skip(i + 1));
        }
        if acc.contains_key(&entries[i].0) {
            return Some(entries[i].0.clone());
        }
        i += 1;
    }
    proof {
        assert(m.kvs().skip(n as int) =~= Seq::<(Seq<char>, Seq<char>)>::empty());
    }
    None
}

/// Consolidates every result with its descendants' results, or reports
/// the first collision, naming the variable, the directory whose fold
/// met it, and the descendant directory that defines it again.
pub fn consolidate(envs: &Vec<NewAndOldEnv>) -> (r: Result<Vec<NewAndOldEnv>, CollisionError>)
    requires
        forall|i: int| 0 <= i < envs@.len() ==> (#[trigger] envs@[i]).wf(),
    ensures
        match consolidate_from(envs@, 0) {
            Ok(ms) => r matches Ok(v) && {
                &&& v@.len() == envs@.len()
                &&& ms.len() == envs@.len()
                &&& forall|j: int|
                    0 <= j < v@.len() ==> {
                        &&& (#[trigger] v@[j]).wf()
                        &&& v@[j].activate_toml_file_directory@
                            == envs@[j].activate_toml_file_directory@
                        &&& v@[j].old_env@ == ms[j].0
                        &&& v@[j].new_env@ == ms[j].1
                    }
            },
            Err(c) => r matches Err(ce) && ce@ == c,
        },
{
    let n = envs.len();
    let hierarchy = create_env_hierarchy(envs);
    let mut out: Vec<NewAndOldEnv> = Vec::new();
    let mut i: usize = 0;
    while i < n
        invariant
            i <= n,
            n == envs@.len(),
            forall|p: int| 0 <= p < envs@.len() ==> (#[trigger] envs@[p]).wf(),
            hierarchy@.len() == n,
            forall|p: int| 0 <= p < n ==> (#[trigger] hierarchy@[p].0) == p,
            forall|p: int|
                0 <= p < n ==> (#[trigger] hierarchy@[p].1@).map_values(|u: usize| u as int)
                    == desc_indices(envs@, p, n as int),
            out@.len() == i,
            forall|p: int| 0 <= p < i ==> root_merge(envs@, p) is Ok,
            forall|p: int|
                0 <= p < i ==> {
                    &&& (#[trigger] out@[p]).wf()
                    &&& out@[p].activate_toml_file_directory@
                        == envs@[p].activate_toml_file_directory@
                    &&& root_merge(envs@, p) matches Ok(pair) && out@[p].old_env@ == pair.0
                        && out@[p].new_env@ == pair.1
                },
        decreases n - i,
    {
        let subs = &hierarchy[i].1;
        let m = subs.len();
        let mut acc_old = envs[i].old_env.clone_map();
        let mut acc_new = envs[i].new_env.clone_map();
        let ghost subsv = subs@.map_values(|u: usize| u as int);
        let mut k: usize = 0;
        proof {
            assert(subsv.skip(0) =~= subsv);
            lemma_desc_indices_below(envs@, i as int, n as int);
        }
        while k < m
            invariant
                k <= m,
                i < n,
                n == envs@.len(),
                m == subs@.len(),
                subsv == subs@.map_values(|u: usize| u as int),
                subsv == desc_indices(envs@, i as int, n as int),
                forall|p: int| 0 <= p < i ==> root_merge(envs@, p) is Ok,
                forall|p: int| 0 <= p < envs@.len() ==> (#[trigger] envs@[p]).wf(),
                forall|w: int| 0 <= w < subsv.len() ==> 0 <= #[trigger] subsv[w] < n,
                acc_old.wf(),
                acc_new.wf(),
                merge_list(envs@[i as int].old_env@, envs@[i as int].new_env@, envs@, subsv)
                    == merge_list(acc_old@, acc_new@, envs@, subsv.skip(k as int)),
            decreases m - k,
        {
            proof {
                assert(subsv.skip(k as int)[0] == subsv[k as int]);
                assert(subsv.skip(k as int).skip(1) =~= subsv.skip(k + 1));
            }
            let s = subs[k];
            let e = &envs[s];
            match find_collision(&e.new_env, &acc_new) {
                Some(key) => {
                    proof {
                        assert(subsv[k as int] == s as int);
                        assert(merge_list(acc_old@, acc_new@, envs@, subsv.skip(k as int))
                            == Err::<
                            (Map<Seq<char>, Seq<char>>, Map<Seq<char>, Seq<char>>),
                            (Seq<char>, Seq<char>),
                        >((key@, e.activate_toml_file_directory@)));
                        assert(root_merge(envs@, i as int) is Err);
                        lemma_consolidate_first_err(envs@, 0, i as int);
                    }
                    return Err(
                        CollisionError {
                            key,
                            first_directory: envs[i].activate_toml_file_directory.clone(),
                            second_directory: e.activate_toml_file_directory.clone(),
                        },
                    );
                },
                None => {},
            }
            acc_old.extend_from(&e.old_env);
            acc_new.extend_from(&e.new_env);
            k += 1;
        }
        proof {
            assert(subsv.skip(m as int) =~= Seq::<int>::empty());
        }
        out.push(
            NewAndOldEnv {
                activate_toml_file_directory: envs[i].activate_toml_file_directory.clone(),
                old_env: acc_old,
                new_env: acc_new,
            },
        );
        i += 1;
    }
    proof {
        lemma_consolidate_all_ok(envs@, 0);
    }
    Ok(out)
}

/// When every root's fold goes through, consolidation succeeds with the
/// folds' results, in order.
proof fn lemma_consolidate_all_ok(envs: Seq<NewAndOldEnv>, a: int)
    requires
        0 <= a,
        forall|p: int| a <= p < envs.len() ==> root_merge(envs, p) is Ok,
    ensures
        consolidate_from(envs, a) matches Ok(ms) && ms.len() == envs.len() - a || a > envs.len(),
        a <= envs.len() ==> (consolidate_from(envs, a) matches Ok(ms) && ms.len() == envs.len() - a
            && forall|w: int|
            0 <= w < ms.len() ==> Ok::<_, (Seq<char>, Seq<char>)>(#[trigger] ms[w]) == root_merge(
                envs,
                a + w,
            )),
    decreases envs.len() - a,
{
    if a < envs.len() {
        lemma_consolidate_all_ok(envs, a + 1);
        let rest = match consolidate_from(envs, a + 1) {
            Ok(ms) => ms,
            Err(_) => arbitrary(),
        };
        let whole = match consolidate_from(envs, a) {
            Ok(ms) => ms,
            Err(_) => arbitrary(),
        };
        assert forall|w: int| 0 <= w < whole.len() implies Ok::<_, (Seq<char>, Seq<char>)>(
            #[trigger] whole[w],
        ) == root_merge(envs, a + w) by {
            if w > 0 {
                assert(whole[w] == rest[w - 1]);
            }
        }
    }
}

/// Consolidation fails with the collision of the first root whose fold
/// stops, when the folds before it go through.
pub proof fn lemma_consolidate_first_err(envs: Seq<NewAndOldEnv>, a: int, i: int)
    requires
        0 <= a <= i < envs.len(),
        forall|p: int| a <= p < i ==> root_merge(envs, p) is Ok,
        root_merge(envs, i) is Err,
    ensures
        consolidate_from(envs, a) == Err::<
            Seq<(Map<Seq<char>, Seq<char>>, Map<Seq<char>, Seq<char>>)>,
            CollisionErrorView,
        >(root_collision(envs, i)),
    decreases i - a,
{
    if a < i {
        lemma_consolidate_first_err(envs, a + 1, i);
    }
}

/// If consolidation succeeds, every root's fold went through.
pub proof fn lemma_consolidate_ok_everywhere(envs: Seq<NewAndOldEnv>, a: int, i: int)
    requires
        0 <= a <= i < envs.len(),
        consolidate_from(envs, a) is Ok,
    ensures
        root_merge(envs, i) is Ok,
    decreases i - a,
{
    if a < i {
        lemma_consolidate_ok_everywhere(envs, a + 1, i);
    }
}

/// A fold stops when some listed descendant binds a key the accumulated
/// new variables already hold.
proof fn lemma_merge_err_on_overlap(
    acc_old: Map<Seq<char>, Seq<char>>,
    acc_new: Map<Seq<char>, Seq<char>>,
    envs: Seq<NewAndOldEnv>,
    subs: Seq<int>,
    j: int,
    k: Seq<char>,
)
    requires
        subs.contains(j),
        0 <= j < envs.len(),
        envs[j].new_env@.contains_key(k),
        acc_new.contains_key(k),
    ensures
        merge_list(acc_old, acc_new, envs, subs) is Err,
    decreases subs.len(),
{
    let e = envs[subs[0]];
    match first_collision(e.new_env.kvs(), acc_new) {
        Some(_) => {},
        None => {
            lemma_first_collision_none(e.new_env.kvs(), acc_new);
            if subs[0] == j {
                crate::smap::lemma_map_of_contains(envs[j].new_env.kvs(), k);
                let w = choose|w: int|
                    0 <= w < envs[j].new_env.kvs().len() && envs[j].new_env.kvs()[w].0 == k;
                assert(!acc_new.contains_key(envs[j].new_env.kvs()[w].0));
            } else {
                let w = choose|w: int| 0 <= w < subs.len() && subs[w] == j;
                assert(subs.skip(1)[w - 1] == j);
                assert(subs.skip(1).contains(j));
                lemma_merge_err_on_overlap(
                    acc_old.union_prefer_right(e.old_env@),
                    acc_new.union_prefer_right(e.new_env@),
                    envs,
                    subs.skip(1),
                    j,
                    k,
                );
            }
        },
    }
}

/// Collision detection: when a directory and one nested beneath it both
/// define a variable, consolidation over the whole set fails — no merged
/// result is produced.
pub proof fn lemma_collision_detected(envs: Seq<NewAndOldEnv>, i: int, j: int, k: Seq<char>)
    requires
        0 <= i < envs.len(),
        0 <= j < envs.len(),
        j != i,
        nested_under(
            envs[j].activate_toml_file_directory@,
            envs[i].activate_toml_file_directory@,
        ),
        envs[i].new_env@.contains_key(k),
        envs[j].new_env@.contains_key(k),
    ensures
        consolidate_from(envs, 0) is Err,
{
    lemma_desc_indices_contains(envs, i, envs.len() as int, j);
    lemma_merge_err_on_overlap(
        envs[i].old_env@,
        envs[i].new_env@,
        envs,
        desc_indices(envs, i, envs.len() as int),
        j,
        k,
    );
    if consolidate_from(envs, 0) is Ok {
        lemma_consolidate_ok_everywhere(envs, 0, i);
    }
}

} // verus!
