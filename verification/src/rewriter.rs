//! The argument rewriter: applies the flag-skip heuristic and the path
//! decision to a whole argument list.
//!
//! Arguments beginning with `-` are taken for flags and passed through
//! without inspection (a known, accepted limitation: a genuine path that
//! starts with `-` is skipped too). Every other argument goes through
//! [`TempFileSet::wrap`]. Order and count are preserved one to one, and the
//! accumulated link requests name pairwise distinct target directories: at
//! most one link per canonical directory and run.

use vstd::prelude::*;
use vstd::string::*;
use crate::cache::{TempFileSet, CanonTable, CanonEntry, LinkRequest, wrap_leaves, wrap_parent_canon};
use crate::pathmodel::file_name_of;
use crate::registry::WrapError;

verus! {

/// True of an argument the rewriter passes through as a flag: its first
/// character is `-`.
pub open spec fn spec_is_flag(arg: Seq<char>) -> bool {
    arg.len() > 0 && arg[0] == '-'
}

/// Whether `arg` is treated as a flag (see [`spec_is_flag`]).
pub fn is_flag(arg: &str) -> (r: bool)
    ensures
        r == spec_is_flag(arg@),
{
    arg.unicode_len() > 0 && arg.get_char(0) == '-'
}

/// The rewrite of a whole argument list: one rewritten argument per
/// original, and the links to create before the arguments are usable.
pub struct RewritePlan {
    pub new_args: Vec<String>,
    pub links: Vec<LinkRequest>,
}

/// A rewritten argument: its parent's canonical directory has an alias in
/// the engine, and the argument is that alias joined with the original file
/// name. Two arguments sharing a canonical parent therefore share the alias.
pub open spec fn arg_rewritten(
    set: TempFileSet,
    newp: Seq<char>,
    orig: Seq<char>,
    canons: Seq<CanonEntry>,
) -> bool {
    let canon = wrap_parent_canon(orig, canons)->Some_0;
    &&& set.spec_linked(canon) is Some
    &&& newp == crate::pathmodel::join(
        set.spec_linked(canon)->Some_0,
        file_name_of(orig)->Some_0,
    )
}

/// A link request belonging to the run: its target is the canonical parent
/// of some non-flag, non-skipped argument of the list. A batch holding only
/// flags and skipped paths therefore yields no link requests.
pub open spec fn link_for_args(
    target: Seq<char>,
    args: Seq<String>,
    canons: Seq<CanonEntry>,
) -> bool {
    exists|i: int|
        0 <= i < args.len() && !spec_is_flag((#[trigger] args[i])@) && !wrap_leaves(
            args[i]@,
            canons,
        ) && target == wrap_parent_canon(args[i]@, canons)->Some_0
}

/// Rewrites every argument in order: flags pass through, paths go through
/// the wrap decision. Fails as a whole if any single argument fails, and
/// only for namespace exhaustion, which a run of this length cannot reach
/// unless some base already carried close to the maximal count. Order and
/// count are preserved; every returned link request records exactly the
/// alias now cached for its target, targets the canonical parent of one of
/// the non-flag, non-skipped arguments, and no two requests target the same
/// canonical directory.
pub fn rewrite_args(
    set: &mut TempFileSet,
    args: &Vec<String>,
    canons: &CanonTable,
    workspace: &str,
) -> (r: Result<RewritePlan, WrapError>)
    requires
        old(set).wf(),
    ensures
        final(set).wf(),
        r is Err ==> r == Err::<RewritePlan, WrapError>(WrapError::NamespaceExhausted),
        (forall|b: Seq<char>| old(set).spec_count(b) + args@.len() <= usize::MAX) ==> r is Ok,
        r matches Ok(plan) ==> {
            &&& plan.new_args@.len() == args@.len()
            &&& forall|i: int|
                0 <= i < args@.len() && spec_is_flag(args@[i]@) ==> (#[trigger] plan.new_args@[i])@
                    == args@[i]@
            &&& forall|i: int|
                0 <= i < args@.len() && !spec_is_flag(args@[i]@) && wrap_leaves(
                    args@[i]@,
                    canons@,
                ) ==> (#[trigger] plan.new_args@[i])@ == args@[i]@
            &&& forall|i: int|
                0 <= i < args@.len() && !spec_is_flag(args@[i]@) && !wrap_leaves(
                    args@[i]@,
                    canons@,
                ) ==> arg_rewritten(*final(set), (#[trigger] plan.new_args@[i])@, args@[i]@, canons@)
            &&& forall|j: int|
                0 <= j < plan.links@.len() ==> final(set).spec_linked(
                    (#[trigger] plan.links@[j]).target@,
                ) == Some(plan.links@[j].link_path@)
            &&& forall|j: int|
                0 <= j < plan.links@.len() ==> link_for_args(
                    (#[trigger] plan.links@[j]).target@,
                    args@,
                    canons@,
                )
            &&& forall|j1: int, j2: int|
                0 <= j1 < j2 < plan.links@.len() ==> (#[trigger] plan.links@[j1]).target@ != (
                #[trigger] plan.links@[j2]).target@
        },
{
    let mut new_args: Vec<String> = Vec::new();
    let mut links: Vec<LinkRequest> = Vec::new();
    let n = args.len();
    let mut i: usize = 0;
    while i < n
        invariant
            set.wf(),
            n == args@.len(),
            i <= n,
            new_args@.len() == i,
            forall|k: int|
                0 <= k < i && spec_is_flag(args@[k]@) ==> (#[trigger] new_args@[k])@ == args@[k]@,
            forall|k: int|
                0 <= k < i && !spec_is_flag(args@[k]@) && wrap_leaves(args@[k]@, canons@) ==> (
                #[trigger] new_args@[k])@ == args@[k]@,
            forall|k: int|
                0 <= k < i && !spec_is_flag(args@[k]@) && !wrap_leaves(args@[k]@, canons@)
                    ==> arg_rewritten(*set, (#[trigger] new_args@[k])@, args@[k]@, canons@),
            forall|b: Seq<char>| #[trigger] set.spec_count(b) <= old(set).spec_count(b) + i,
            forall|j: int|
                0 <= j < links@.len() ==> set.spec_linked((#[trigger] links@[j]).target@) == Some(
                    links@[j].link_path@,
                ),
            forall|j: int|
                0 <= j < links@.len() ==> link_for_args(
                    (#[trigger] links@[j]).target@,
                    args@,
                    canons@,
                ),
            forall|j1: int, j2: int|
                0 <= j1 < j2 < links@.len() ==> (#[trigger] links@[j1]).target@ != (
                #[trigger] links@[j2]).target@,
        decreases n - i,
    {
        let arg = &args[i];
        let ghost old_na = new_args@;
        if is_flag(arg.as_str()) {
            new_args.push(arg.clone());
            proof {
                assert forall|k: int|
                    0 <= k < i + 1 && !spec_is_flag(args@[k]@) && !wrap_leaves(
                        args@[k]@,
                        canons@,
                    ) implies arg_rewritten(*set, (#[trigger] new_args@[k])@, args@[k]@, canons@) by {
                    assert(k < i as int);
                    assert(new_args@[k] == old_na[k]);
                }
            }
        } else {
            let ghost pre = *set;
            let outcome = match set.wrap(arg.as_str(), canons, workspace) {
                Ok(o) => o,
                Err(e) => {
                    proof {
                        let canon = wrap_parent_canon(arg@, canons@)->Some_0;
                        let bb = crate::translit::base_of(file_name_of(canon)->Some_0);
                        assert(pre.link_dir_fails(canon));
                        assert(pre.spec_count(bb) == usize::MAX);
                        assert(pre.spec_count(bb) <= old(set).spec_count(bb) + i);
                        assert(old(set).spec_count(bb) + args@.len() > usize::MAX);
                    }
                    return Err(e);
                },
            };
            let ghost np = outcome.new_path@;
            new_args.push(outcome.new_path);
            proof {
                let ghost canon_i = wrap_parent_canon(arg@, canons@)->Some_0;
                assert forall|k: int|
                    0 <= k < i + 1 && !spec_is_flag(args@[k]@) && !wrap_leaves(
                        args@[k]@,
                        canons@,
                    ) implies arg_rewritten(*set, (#[trigger] new_args@[k])@, args@[k]@, canons@) by {
                    let canon_k = wrap_parent_canon(args@[k]@, canons@)->Some_0;
                    if k < i as int {
                        assert(new_args@[k] == old_na[k]);
                        assert(arg_rewritten(pre, old_na[k]@, args@[k]@, canons@));
                        if canon_k == canon_i {
                            assert(pre.spec_linked(canon_i) is Some);
                            assert(pre.link_dir_alias(canon_i, workspace@) == pre.spec_linked(
                                canon_i,
                            )->Some_0);
                        } else {
                            assert(set.spec_linked(canon_k) == pre.spec_linked(canon_k));
                        }
                    } else {
                        let ad = pre.link_dir_alias(canon_i, workspace@);
                        assert(new_args@[k]@ == np);
                        assert(np == crate::pathmodel::join(
                            ad,
                            file_name_of(args@[k]@)->Some_0,
                        ));
                        assert(set.spec_linked(canon_i) == Some(ad));
                    }
                }
            }
            proof {
                let canon_m = wrap_parent_canon(arg@, canons@)->Some_0;
                assert forall|b: Seq<char>| #[trigger] set.spec_count(b) <= old(set).spec_count(
                    b,
                ) + i + 1 by {
                    if wrap_leaves(arg@, canons@) {
                        assert(*set == pre);
                    } else if pre.link_dir_makes_link(canon_m) {
                        let bb = crate::translit::base_of(file_name_of(canon_m)->Some_0);
                        if b == bb {
                            assert(set.spec_count(b) == pre.spec_count(b) + 1);
                        } else {
                            assert(set.spec_count(b) == pre.spec_count(b));
                        }
                    } else {
                        assert(set.spec_count(b) == pre.spec_count(b));
                    }
                }
                assert forall|j: int| 0 <= j < links@.len() implies set.spec_linked(
                    (#[trigger] links@[j]).target@,
                ) == Some(links@[j].link_path@) by {
                    if !wrap_leaves(arg@, canons@) && links@[j].target@ == canon_m {
                        assert(pre.spec_linked(canon_m) is Some);
                        assert(pre.link_dir_alias(canon_m, workspace@) == pre.spec_linked(
                            canon_m,
                        )->Some_0);
                    }
                }
            }
            match outcome.link {
                Some(lr) => {
                    proof {
                        let canon = wrap_parent_canon(arg@, canons@)->Some_0;
                        assert forall|j: int| 0 <= j < links@.len() implies (
                        #[trigger] links@[j]).target@ != lr.target@ by {
                            assert(pre.spec_linked(links@[j].target@) is Some);
                            assert(pre.spec_linked(canon) is None);
                        }
                        assert((i as int) < args@.len() && !spec_is_flag(args@[i as int]@)
                            && !wrap_leaves(args@[i as int]@, canons@) && lr.target@
                            == wrap_parent_canon(args@[i as int]@, canons@)->Some_0);
                        assert(link_for_args(lr.target@, args@, canons@));
                    }
                    links.push(lr);
                },
                None => {},
            }
        }
        i = i + 1;
    }
    Ok(RewritePlan { new_args, links })
}

/// Two rewritten arguments whose parents share one canonical directory are
/// placed under the identical parent component: the single alias directory
/// recorded for that canonical directory.
pub proof fn lemma_shared_parent_shared_alias(
    set: TempFileSet,
    orig1: Seq<char>,
    orig2: Seq<char>,
    new1: Seq<char>,
    new2: Seq<char>,
    canons: Seq<CanonEntry>,
)
    requires
        arg_rewritten(set, new1, orig1, canons),
        arg_rewritten(set, new2, orig2, canons),
        file_name_of(orig1) is Some,
        file_name_of(orig2) is Some,
        wrap_parent_canon(orig1, canons) == wrap_parent_canon(orig2, canons),
    ensures
        crate::pathmodel::parent_of(new1) == crate::pathmodel::parent_of(new2),
{
    let canon = wrap_parent_canon(orig1, canons)->Some_0;
    let ad = set.spec_linked(canon)->Some_0;
    crate::pathmodel::lemma_file_name_no_sep(orig1);
    crate::pathmodel::lemma_file_name_no_sep(orig2);
    crate::pathmodel::lemma_join_splits(ad, file_name_of(orig1)->Some_0);
    crate::pathmodel::lemma_join_splits(ad, file_name_of(orig2)->Some_0);
}

} // verus!
