//! The per-directory link cache and the path-substitution decision.
//!
//! [`TempFileSet`] owns the alias registry and the table of directories
//! already linked. Its [`TempFileSet::wrap`] decides, for one path argument,
//! whether to leave it alone or to rewrite it under an alias of its
//! canonical parent directory. Canonicalization and link creation are
//! filesystem work and happen outside: the caller passes the
//! canonicalization answers in as a [`CanonTable`], and receives any link
//! still to be created as a [`LinkRequest`]; the engine guarantees at most
//! one request per canonical directory and run.

use vstd::prelude::*;
use vstd::string::*;
use crate::registry::{AliasRegistry, WrapError, alias_for};
use crate::translit::base_of;
use crate::pathmodel::{
    file_name_of, parent_of, skip_path, join, split_path, join_path, is_short_ascii, str_eq,
};

verus! {

/// One canonicalization answer: the parent path as the argument spelt it,
/// and its canonical form, or `None` when the filesystem could not resolve
/// it.
pub struct CanonEntry {
    pub parent: String,
    pub canon: Option<String>,
}

/// The canonicalization answers for a run, newest answer last; a later
/// answer for the same parent supersedes an earlier one.
pub struct CanonTable {
    entries: Vec<CanonEntry>,
}

/// The canonical form the table records for `parent`: `None` when no answer
/// is recorded or the recorded answer is a resolution failure.
pub open spec fn canon_result(es: Seq<CanonEntry>, parent: Seq<char>) -> Option<Seq<char>>
    decreases es.len(),
{
    if es.len() == 0 {
        None
    } else if es.last().parent@ == parent {
        match es.last().canon {
            Some(c) => Some(c@),
            None => None,
        }
    } else {
        canon_result(es.drop_last(), parent)
    }
}

impl View for CanonTable {
    type V = Seq<CanonEntry>;

    closed spec fn view(&self) -> Seq<CanonEntry> {
        self.entries@
    }
}

impl CanonTable {
    /// A table with no answers.
    pub fn new() -> (r: CanonTable)
        ensures
            r@ == Seq::<CanonEntry>::empty(),
    {
        CanonTable { entries: Vec::new() }
    }

    /// Records one canonicalization answer.
    pub fn push(&mut self, parent: String, canon: Option<String>)
        ensures
            final(self)@ == old(self)@.push(CanonEntry { parent, canon }),
    {
        self.entries.push(CanonEntry { parent, canon });
    }

    /// The canonical form recorded for `parent`, if any (see
    /// [`canon_result`]).
    pub fn lookup(&self, parent: &str) -> (r: Option<String>)
        ensures
            r matches Some(c) ==> canon_result(self@, parent@) == Some(c@),
            r is None ==> canon_result(self@, parent@) is None,
    {
        let mut i = self.entries.len();
        proof {
            assert(self@.take(i as int) =~= self@);
        }
        while i > 0
            invariant
                i <= self@.len(),
                canon_result(self@.take(i as int), parent@) == canon_result(self@, parent@),
            decreases i,
        {
            proof {
                assert(self@.take(i as int).last() == self@[i - 1]);
                assert(self@.take(i as int).drop_last() =~= self@.take(i - 1));
            }
            let e = &self.entries[i - 1];
            if str_eq(e.parent.as_str(), parent) {
                return match &e.canon {
                    Some(c) => Some(c.clone()),
                    None => None,
                };
            }
            i = i - 1;
        }
        None
    }
}

/// One directory aliased on disk: the canonical directory and the alias
/// path standing in for it.
pub struct LinkEntry {
    pub canon: String,
    pub alias: String,
}

/// The alias path the entries record for `canon`, if any.
pub open spec fn links_get(es: Seq<LinkEntry>, canon: Seq<char>) -> Option<Seq<char>>
    decreases es.len(),
{
    if es.len() == 0 {
        None
    } else if es.last().canon@ == canon {
        Some(es.last().alias@)
    } else {
        links_get(es.drop_last(), canon)
    }
}

/// The table of directories already aliased, keyed by canonical directory.
pub struct LinkTable {
    entries: Vec<LinkEntry>,
}

impl LinkTable {
    /// Entries name pairwise distinct canonical directories.
    pub closed spec fn wf(&self) -> bool {
        forall|i: int, j: int|
            0 <= i < j < self.entries@.len() ==> (#[trigger] self.entries@[i]).canon@ != (
            #[trigger] self.entries@[j]).canon@
    }

    /// The alias path recorded for `canon`, if any.
    pub closed spec fn spec_get(&self, canon: Seq<char>) -> Option<Seq<char>> {
        links_get(self.entries@, canon)
    }

    /// An empty table: nothing aliased yet.
    pub fn new() -> (r: LinkTable)
        ensures
            r.wf(),
            forall|c: Seq<char>| #[trigger] r.spec_get(c) is None,
    {
        let r = LinkTable { entries: Vec::new() };
        proof {
            assert forall|c: Seq<char>| #[trigger] r.spec_get(c) is None by {
                assert(r.entries@.len() == 0);
            }
        }
        r
    }

    /// The alias path recorded for `canon`, if any.
    pub fn get(&self, canon: &str) -> (r: Option<String>)
        requires
            self.wf(),
        ensures
            r matches Some(a) ==> self.spec_get(canon@) == Some(a@),
            r is None ==> self.spec_get(canon@) is None,
    {
        let mut i = self.entries.len();
        proof {
            assert(self.entries@.take(i as int) =~= self.entries@);
        }
        while i > 0
            invariant
                i <= self.entries@.len(),
                links_get(self.entries@.take(i as int), canon@) == links_get(
                    self.entries@,
                    canon@,
                ),
            decreases i,
        {
            proof {
                assert(self.entries@.take(i as int).last() == self.entries@[i - 1]);
                assert(self.entries@.take(i as int).drop_last() =~= self.entries@.take(i - 1));
            }
            let e = &self.entries[i - 1];
            if str_eq(e.canon.as_str(), canon) {
                return Some(e.alias.clone());
            }
            i = i - 1;
        }
        None
    }

    /// Records the alias path of a directory not aliased before.
    pub fn insert(&mut self, canon: String, alias: String)
        requires
            old(self).wf(),
            old(self).spec_get(canon@) is None,
        ensures
            final(self).wf(),
            final(self).spec_get(canon@) == Some(alias@),
            forall|c: Seq<char>|
                c != canon@ ==> final(self).spec_get(c) == old(self).spec_get(c),
    {
        proof {
            Self::lemma_absent_all(old(self).entries@, canon@);
        }
        let ghost old_es = self.entries@;
        self.entries.push(LinkEntry { canon, alias });
        proof {
            assert(self.entries@.drop_last() =~= old_es);
            assert forall|i: int, j: int| 0 <= i < j < self.entries@.len() implies (
            #[trigger] self.entries@[i]).canon@ != (#[trigger] self.entries@[j]).canon@ by {
                if j < old_es.len() {
                    assert(self.entries@[i] == old_es[i]);
                    assert(self.entries@[j] == old_es[j]);
                } else {
                    assert(self.entries@[i] == old_es[i]);
                }
            }
        }
    }

    /// A canonical directory with `links_get` of `None` matches no entry.
    proof fn lemma_absent_all(es: Seq<LinkEntry>, canon: Seq<char>)
        requires
            links_get(es, canon) is None,
        ensures
            forall|i: int| 0 <= i < es.len() ==> (#[trigger] es[i]).canon@ != canon,
        decreases es.len(),
    {
        if es.len() > 0 {
            Self::lemma_absent_all(es.drop_last(), canon);
            assert forall|i: int| 0 <= i < es.len() implies (#[trigger] es[i]).canon@
                != canon by {
                if i < es.len() - 1 {
                    assert(es.drop_last()[i] == es[i]);
                }
            }
        }
    }
}

/// A symbolic link the caller still has to create: `link_path` must become
/// a link pointing at `target`.
pub struct LinkRequest {
    pub link_path: String,
    pub target: String,
}

/// The outcome of wrapping one argument: the path to hand on, and the link
/// to create first, if one is needed.
pub struct WrapOutcome {
    pub new_path: String,
    pub link: Option<LinkRequest>,
}

/// The substitution engine's state for one run: the alias registry and the
/// table of directories already linked. Both grow monotonically and are
/// discarded together at the end of the run.
pub struct TempFileSet {
    registry: AliasRegistry,
    linked: LinkTable,
}

/// The canonical parent the table gives a path, if the path has a parent
/// and the table resolves it.
pub open spec fn wrap_parent_canon(path: Seq<char>, canons: Seq<CanonEntry>) -> Option<Seq<char>> {
    if parent_of(path) is Some {
        canon_result(canons, parent_of(path)->Some_0)
    } else {
        None
    }
}

/// True when [`TempFileSet::wrap`] leaves `path` untouched: the path is
/// short and ASCII, lacks a file name or a parent, or its parent has no
/// recorded canonical form.
pub open spec fn wrap_leaves(path: Seq<char>, canons: Seq<CanonEntry>) -> bool {
    skip_path(path) || wrap_parent_canon(path, canons) is None
}

impl TempFileSet {
    /// Both components are well formed.
    pub closed spec fn wf(&self) -> bool {
        self.registry.wf() && self.linked.wf()
    }

    /// The alias directory already recorded for `canon`, if any.
    pub closed spec fn spec_linked(&self, canon: Seq<char>) -> Option<Seq<char>> {
        self.linked.spec_get(canon)
    }

    /// How many aliases have been allocated under `base`.
    pub closed spec fn spec_count(&self, base: Seq<char>) -> nat {
        self.registry.spec_count(base)
    }

    /// The link step fails only when the alias namespace under the base of
    /// `canon`'s own name is exhausted.
    pub open spec fn link_dir_fails(&self, canon: Seq<char>) -> bool {
        &&& self.spec_linked(canon) is None
        &&& file_name_of(canon) is Some
        &&& self.spec_count(base_of(file_name_of(canon)->Some_0)) == usize::MAX
    }

    /// The link step asks for a new symbolic link exactly when `canon` is
    /// not cached yet and an alias name can still be allocated.
    pub open spec fn link_dir_makes_link(&self, canon: Seq<char>) -> bool {
        &&& self.spec_linked(canon) is None
        &&& file_name_of(canon) is Some
        &&& self.spec_count(base_of(file_name_of(canon)->Some_0)) < usize::MAX
    }

    /// The alias directory the link step hands back for `canon`: the cached
    /// one; `canon` itself when it has no name to alias; otherwise the next
    /// alias name under `canon`'s base, placed in the workspace.
    pub open spec fn link_dir_alias(&self, canon: Seq<char>, ws: Seq<char>) -> Seq<char> {
        if self.spec_linked(canon) is Some {
            self.spec_linked(canon)->Some_0
        } else if file_name_of(canon) is None {
            canon
        } else {
            join(
                ws,
                alias_for(
                    base_of(file_name_of(canon)->Some_0),
                    self.spec_count(base_of(file_name_of(canon)->Some_0)),
                ),
            )
        }
    }

    /// An engine with nothing cached and nothing allocated.
    pub fn new() -> (r: TempFileSet)
        ensures
            r.wf(),
            forall|c: Seq<char>| #[trigger] r.spec_linked(c) is None,
            forall|b: Seq<char>| #[trigger] r.spec_count(b) == 0,
    {
        TempFileSet { registry: AliasRegistry::new(), linked: LinkTable::new() }
    }

    /// Obtains the alias directory for a canonical directory: the cached
    /// one when the directory was linked before (then no filesystem work is
    /// requested), a fresh uniquely named one otherwise. The caller must
    /// create the requested link before using the returned path.
    pub fn link_dir(&mut self, canon: &str, workspace: &str) -> (r: Result<
        (String, Option<LinkRequest>),
        WrapError,
    >)
        requires
            old(self).wf(),
        ensures
            final(self).wf(),
            r is Err <==> old(self).link_dir_fails(canon@),
            r is Err ==> *final(self) == *old(self) && r == Err::<
                (String, Option<LinkRequest>),
                WrapError,
            >(WrapError::NamespaceExhausted),
            r matches Ok(p) ==> {
                &&& p.0@ == old(self).link_dir_alias(canon@, workspace@)
                &&& final(self).spec_linked(canon@) == Some(p.0@)
                &&& (p.1 is Some <==> old(self).link_dir_makes_link(canon@))
                &&& (p.1 matches Some(lr) ==> lr.link_path@ == p.0@ && lr.target@ == canon@)
                &&& forall|c: Seq<char>|
                    c != canon@ ==> final(self).spec_linked(c) == old(self).spec_linked(c)
                &&& (old(self).link_dir_makes_link(canon@) ==> {
                    let b = base_of(file_name_of(canon@)->Some_0);
                    &&& final(self).spec_count(b) == old(self).spec_count(b) + 1
                    &&& forall|x: Seq<char>|
                        x != b ==> final(self).spec_count(x) == old(self).spec_count(x)
                })
                &&& (!old(self).link_dir_makes_link(canon@) ==> forall|x: Seq<char>|
                    final(self).spec_count(x) == old(self).spec_count(x))
            },
    {
        if let Some(alias) = self.linked.get(canon) {
            return Ok((alias, None));
        }
        let (name_opt, _parent_opt) = split_path(canon);
        match name_opt {
            None => {
                self.linked.insert(String::from_str(canon), String::from_str(canon));
                Ok((String::from_str(canon), None))
            },
            Some(fname) => {
                proof {
                    self.registry.lemma_count_bound(base_of(fname@));
                }
                let alias_name = match self.registry.generate(fname.as_str()) {
                    Ok(a) => a,
                    Err(e) => {
                        return Err(e);
                    },
                };
                let alias_dir = join_path(workspace, alias_name.as_str());
                self.linked.insert(String::from_str(canon), alias_dir.clone());
                Ok(
                    (
                        alias_dir.clone(),
                        Some(LinkRequest { link_path: alias_dir, target: String::from_str(canon) }),
                    ),
                )
            },
        }
    }

    /// Decides one path argument. Paths that are short and ASCII, lack a
    /// file name or a parent, or whose parent has no canonical form in
    /// `canons` pass through unchanged; every other path is rewritten to
    /// its parent's alias directory joined with its original file name.
    pub fn wrap(&mut self, path: &str, canons: &CanonTable, workspace: &str) -> (r: Result<
        WrapOutcome,
        WrapError,
    >)
        requires
            old(self).wf(),
        ensures
            final(self).wf(),
            wrap_leaves(path@, canons@) ==> (r matches Ok(o) && o.new_path@ == path@ && o.link
                is None && *final(self) == *old(self)),
            !wrap_leaves(path@, canons@) ==> {
                let canon = wrap_parent_canon(path@, canons@)->Some_0;
                &&& (r is Err <==> old(self).link_dir_fails(canon))
                &&& (r is Err ==> *final(self) == *old(self) && r == Err::<WrapOutcome, WrapError>(
                    WrapError::NamespaceExhausted,
                ))
                &&& (r matches Ok(o) ==> {
                    let ad = old(self).link_dir_alias(canon, workspace@);
                    &&& o.new_path@ == join(ad, file_name_of(path@)->Some_0)
                    &&& final(self).spec_linked(canon) == Some(ad)
                    &&& (o.link is Some <==> old(self).link_dir_makes_link(canon))
                    &&& (o.link matches Some(lr) ==> lr.link_path@ == ad && lr.target@ == canon)
                    &&& forall|c: Seq<char>|
                        c != canon ==> final(self).spec_linked(c) == old(self).spec_linked(c)
                    &&& (old(self).link_dir_makes_link(canon) ==> {
                        let b = base_of(file_name_of(canon)->Some_0);
                        &&& final(self).spec_count(b) == old(self).spec_count(b) + 1
                        &&& forall|x: Seq<char>|
                            x != b ==> final(self).spec_count(x) == old(self).spec_count(x)
                    })
                    &&& (!old(self).link_dir_makes_link(canon) ==> forall|x: Seq<char>|
                        final(self).spec_count(x) == old(self).spec_count(x))
                })
            },
    {
        if is_short_ascii(path) {
            return Ok(WrapOutcome { new_path: String::from_str(path), link: None });
        }
        let (name_opt, parent_opt) = split_path(path);
        let fname = match name_opt {
            None => {
                return Ok(WrapOutcome { new_path: String::from_str(path), link: None });
            },
            Some(n) => n,
        };
        let parent = match parent_opt {
            None => {
                return Ok(WrapOutcome { new_path: String::from_str(path), link: None });
            },
            Some(p) => p,
        };
        let canon = match canons.lookup(parent.as_str()) {
            None => {
                return Ok(WrapOutcome { new_path: String::from_str(path), link: None });
            },
            Some(c) => c,
        };
        let (alias_dir, req) = match self.link_dir(canon.as_str(), workspace) {
            Ok(p) => p,
            Err(e) => {
                return Err(e);
            },
        };
        let new_path = join_path(alias_dir.as_str(), fname.as_str());
        Ok(WrapOutcome { new_path, link: req })
    }
}

/// Whether `path` is due for rewriting: not skipped on its own account,
/// and with a canonical form recorded for its parent. The caller uses this
/// to materialize the workspace lazily, on the first path that needs an
/// alias.
pub fn needs_wrap(path: &str, canons: &CanonTable) -> (r: bool)
    ensures
        r == !wrap_leaves(path@, canons@),
{
    if is_short_ascii(path) {
        return false;
    }
    let (name, parent) = split_path(path);
    if name.is_none() {
        return false;
    }
    match parent {
        None => false,
        Some(p) => canons.lookup(p.as_str()).is_some(),
    }
}

impl TempFileSet {
    /// Whether wrapping `path` now would allocate a fresh alias directory,
    /// so that the caller must have the workspace ready: the path is due
    /// for rewriting, its canonical parent is not cached yet, and that
    /// directory has a final component to name the alias after. (When this
    /// holds and the alias namespace is exhausted, the wrap fails instead
    /// of linking, and the run aborts.)
    pub fn needs_workspace(&self, path: &str, canons: &CanonTable) -> (r: bool)
        requires
            self.wf(),
        ensures
            r == (!wrap_leaves(path@, canons@) && self.spec_linked(
                wrap_parent_canon(path@, canons@)->Some_0,
            ) is None && file_name_of(wrap_parent_canon(path@, canons@)->Some_0) is Some),
    {
        if !needs_wrap(path, canons) {
            return false;
        }
        let (_name, parent) = split_path(path);
        let canon = match parent {
            None => {
                return false;
            },
            Some(p) => match canons.lookup(p.as_str()) {
                None => {
                    return false;
                },
                Some(c) => c,
            },
        };
        if self.linked.get(canon.as_str()).is_some() {
            return false;
        }
        let (canon_name, _canon_parent) = split_path(canon.as_str());
        canon_name.is_some()
    }
}

/// Rewriting is idempotent per canonical directory: once an alias is
/// cached, the link step returns exactly that alias, cannot fail, and asks
/// for no further filesystem link, whatever the workspace path.
pub proof fn lemma_link_idempotent(s: TempFileSet, canon: Seq<char>, ws: Seq<char>)
    requires
        s.spec_linked(canon) is Some,
    ensures
        s.link_dir_alias(canon, ws) == s.spec_linked(canon)->Some_0,
        !s.link_dir_makes_link(canon),
        !s.link_dir_fails(canon),
{
}

} // verus!
