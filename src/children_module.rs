//! The "children module" query: from a cursor, find the module scope it is
//! in and list the navigation targets of that scope's direct child modules.

use crate::semantics::{FilePosition, NavigationTarget, RootDatabase};
use crate::syntax::{spec_ancestors_at_offset, SyntaxKind, SyntaxTree, TextSize};
use vstd::prelude::*;

verus! {

/// The item list whose child modules are listed: the body of an inline
/// module declaration (a node index), or the top level of the document.
#[derive(Clone, Copy, Debug, PartialEq, Eq, Structural)]
pub enum Scope {
    Module(usize),
    Root,
}

/// The largest index `j < k` such that `p[j]` is a module declaration.
pub open spec fn last_module(t: &SyntaxTree, p: Seq<usize>, k: int) -> Option<int>
    decreases k,
{
    if k <= 0 {
        None
    } else if t.kind_of(p[k - 1]) == SyntaxKind::Module {
        Some(k - 1)
    } else {
        last_module(t, p, k - 1)
    }
}

/// The first of `cs[i..]` of kind `kind`.
pub open spec fn first_of_kind(t: &SyntaxTree, cs: Seq<usize>, kind: SyntaxKind, i: int) -> Option<
    usize,
>
    decreases cs.len() - i,
{
    if i < 0 || i >= cs.len() {
        None
    } else if t.kind_of(cs[i]) == kind {
        Some(cs[i])
    } else {
        first_of_kind(t, cs, kind, i + 1)
    }
}

/// Whether module `m` has a body (its first item list) whose range holds
/// `offset`, ends included.
pub open spec fn body_holds(t: &SyntaxTree, m: usize, offset: TextSize) -> bool {
    match first_of_kind(t, t.children_of(m), SyntaxKind::ItemList, 0) {
        Some(l) => t.range_of(l).spec_contains_inclusive(offset),
        None => false,
    }
}

/// The scope at `offset`: the innermost module declaration around it if the
/// offset is in that module's body; else, when the offset is on the
/// declaration's header, the next module declaration above it; the top
/// level where there is none.
pub open spec fn spec_locate_scope(t: &SyntaxTree, offset: TextSize) -> Scope {
    let p = spec_ancestors_at_offset(t, offset);
    match last_module(t, p, p.len() as int) {
        None => Scope::Root,
        Some(k) => if body_holds(t, p[k], offset) {
            Scope::Module(p[k])
        } else {
            match last_module(t, p, k) {
                Some(j) => Scope::Module(p[j]),
                None => Scope::Root,
            }
        },
    }
}

/// The module declarations among `cs`, in order.
pub open spec fn module_items(t: &SyntaxTree, cs: Seq<usize>) -> Seq<usize>
    decreases cs.len(),
{
    if cs.len() == 0 {
        Seq::empty()
    } else {
        let pre = module_items(t, cs.drop_last());
        if t.kind_of(cs.last()) == SyntaxKind::Module {
            pre.push(cs.last())
        } else {
            pre
        }
    }
}

/// The module declarations that are children of the item lists among `cs`,
/// in order.
pub open spec fn item_list_modules(t: &SyntaxTree, cs: Seq<usize>) -> Seq<usize>
    decreases cs.len(),
{
    if cs.len() == 0 {
        Seq::empty()
    } else {
        let pre = item_list_modules(t, cs.drop_last());
        if t.kind_of(cs.last()) == SyntaxKind::ItemList {
            pre.add(module_items(t, t.children_of(cs.last())))
        } else {
            pre
        }
    }
}

/// The direct child module declarations of a scope, in textual order.
pub open spec fn spec_scope_children(t: &SyntaxTree, scope: Scope) -> Seq<usize> {
    match scope {
        Scope::Module(m) => item_list_modules(t, t.children_of(m)),
        Scope::Root => module_items(t, t.children_of(0)),
    }
}

/// The targets of the declarations `cands` of file `file`, one run per
/// declaration in order; a declaration that resolves to no module adds none.
pub open spec fn collect_targets(db: &RootDatabase, file: usize, cands: Seq<usize>) -> Seq<
    NavigationTarget,
>
    decreases cands.len(),
{
    if cands.len() == 0 {
        Seq::empty()
    } else {
        collect_targets(db, file, cands.drop_last()).add(db.targets_of(file, cands.last()))
    }
}

/// What the query returns at `pos`.
pub open spec fn spec_children_module(db: &RootDatabase, pos: FilePosition) -> Seq<
    NavigationTarget,
> {
    let t = &db.files@[pos.file_id as int].tree;
    collect_targets(db, pos.file_id, spec_scope_children(t, spec_locate_scope(t, pos.offset)))
}

/// The largest index `j < k` such that `path[j]` is a module declaration.
fn find_last_module(tree: &SyntaxTree, path: &Vec<usize>, k: usize) -> (r: Option<usize>)
    requires
        k <= path@.len(),
        forall|j: int| 0 <= j < path@.len() ==> #[trigger] path@[j] < tree.nodes@.len(),
    ensures
        r matches Some(j) ==> j < k && last_module(tree, path@, k as int) == Some(j as int),
        r is None ==> last_module(tree, path@, k as int) is None,
{
    let mut i: usize = k;
    while i > 0
        invariant
            i <= k <= path@.len(),
            forall|j: int| 0 <= j < path@.len() ==> #[trigger] path@[j] < tree.nodes@.len(),
            last_module(tree, path@, k as int) == last_module(tree, path@, i as int),
        decreases i,
    {
        if tree.nodes[path[i - 1]].kind == SyntaxKind::Module {
            return Some(i - 1);
        }
        i -= 1;
    }
    None
}

/// The first item list among the children of `m`: the module's body.
fn item_list(tree: &SyntaxTree, m: usize) -> (r: Option<usize>)
    requires
        tree.wf(),
        m < tree.nodes@.len(),
    ensures
        r == first_of_kind(tree, tree.children_of(m), SyntaxKind::ItemList, 0),
        r matches Some(l) ==> l < tree.nodes@.len(),
{
    let cs = &tree.nodes[m].children;
    let mut i: usize = 0;
    while i < cs.len()
        invariant
            tree.wf(),
            m < tree.nodes@.len(),
            cs@ == tree.children_of(m),
            i <= cs@.len(),
            first_of_kind(tree, cs@, SyntaxKind::ItemList, 0) == first_of_kind(
                tree,
                cs@,
                SyntaxKind::ItemList,
                i as int,
            ),
        decreases cs@.len() - i,
    {
        let c = cs[i];
        assert(m < c < tree.nodes@.len());
        if tree.nodes[c].kind == SyntaxKind::ItemList {
            return Some(c);
        }
        i += 1;
    }
    None
}

/// Finds the scope whose child modules the query at `offset` lists.
pub fn locate_scope(tree: &SyntaxTree, offset: TextSize) -> (r: Scope)
    requires
        tree.wf(),
    ensures
        r == spec_locate_scope(tree, offset),
        r matches Scope::Module(m) ==> m < tree.nodes@.len(),
{
    let path = tree.ancestors_at_offset(offset);
    match find_last_module(tree, &path, path.len()) {
        None => Scope::Root,
        Some(k) => {
            let m = path[k];
            let in_body = match item_list(tree, m) {
                Some(l) => tree.nodes[l].range.contains_inclusive(offset),
                None => false,
            };
            if in_body {
                Scope::Module(m)
            } else {
                // The cursor is on the declaration itself: list its siblings.
                match find_last_module(tree, &path, k) {
                    Some(j) => Scope::Module(path[j]),
                    None => Scope::Root,
                }
            }
        },
    }
}

/// Appends the module declarations among `cs` to `out`, in order.
fn push_module_items(tree: &SyntaxTree, cs: &Vec<usize>, out: &mut Vec<usize>)
    requires
        forall|j: int| 0 <= j < cs@.len() ==> #[trigger] cs@[j] < tree.nodes@.len(),
    ensures
        final(out)@ == old(out)@.add(module_items(tree, cs@)),
{
    let ghost start = out@;
    let mut i: usize = 0;
    while i < cs.len()
        invariant
            i <= cs@.len(),
            forall|j: int| 0 <= j < cs@.len() ==> #[trigger] cs@[j] < tree.nodes@.len(),
            out@ == start.add(module_items(tree, cs@.subrange(0, i as int))),
        decreases cs@.len() - i,
    {
        let c = cs[i];
        proof {
            assert(cs@.subrange(0, i + 1).drop_last() =~= cs@.subrange(0, i as int));
        }
        if tree.nodes[c].kind == SyntaxKind::Module {
            out.push(c);
        }
        assert(out@ =~= start.add(module_items(tree, cs@.subrange(0, i + 1))));
        i += 1;
    }
    assert(cs@.subrange(0, cs@.len() as int) =~= cs@);
}

/// The direct child module declarations of `scope`, in textual order.
pub fn scope_children(tree: &SyntaxTree, scope: Scope) -> (r: Vec<usize>)
    requires
        tree.wf(),
        scope matches Scope::Module(m) ==> m < tree.nodes@.len(),
    ensures
        r@ == spec_scope_children(tree, scope),
{
    let mut out: Vec<usize> = Vec::new();
    match scope {
        Scope::Root => {
            push_module_items(tree, &tree.nodes[0].children, &mut out);
            assert(out@ =~= module_items(tree, tree.children_of(0)));
        },
        Scope::Module(m) => {
            let cs = &tree.nodes[m].children;
            let mut i: usize = 0;
            while i < cs.len()
                invariant
                    tree.wf(),
                    m < tree.nodes@.len(),
                    cs@ == tree.children_of(m),
                    i <= cs@.len(),
                    out@ == item_list_modules(tree, cs@.subrange(0, i as int)),
                decreases cs@.len() - i,
            {
                let c = cs[i];
                assert(m < c < tree.nodes@.len());
                proof {
                    assert(cs@.subrange(0, i + 1).drop_last() =~= cs@.subrange(0, i as int));
                }
                if tree.nodes[c].kind == SyntaxKind::ItemList {
                    assert forall|j: int|
                        0 <= j < tree.children_of(c).len() implies #[trigger] tree.children_of(
                        c,
                    )[j] < tree.nodes@.len() by {
                        assert(c < tree.nodes@[c as int].children@[j]);
                    }
                    push_module_items(tree, &tree.nodes[c].children, &mut out);
                }
                assert(out@ =~= item_list_modules(tree, cs@.subrange(0, i + 1)));
                i += 1;
            }
            assert(cs@.subrange(0, cs@.len() as int) =~= cs@);
        },
    }
    out
}

/// The targets of the declarations `cands` of file `file`: for each, in
/// order, one per declaration site of the module it resolves to.
fn resolve_all(db: &RootDatabase, file: usize, cands: &Vec<usize>) -> (r: Vec<NavigationTarget>)
    requires
        file < db.files@.len(),
    ensures
        r@ == collect_targets(db, file, cands@),
{
    let mut out: Vec<NavigationTarget> = Vec::new();
    let mut i: usize = 0;
    while i < cands.len()
        invariant
            file < db.files@.len(),
            i <= cands@.len(),
            out@ == collect_targets(db, file, cands@.subrange(0, i as int)),
        decreases cands@.len() - i,
    {
        proof {
            assert(cands@.subrange(0, i + 1).drop_last() =~= cands@.subrange(0, i as int));
        }
        match db.to_def(file, cands[i]) {
            Some(m) => {
                let decls = &db.modules[m].declarations;
                let ghost before = out@;
                let mut j: usize = 0;
                while j < decls.len()
                    invariant
                        j <= decls@.len(),
                        out@ == before.add(decls@.subrange(0, j as int)),
                    decreases decls@.len() - j,
                {
                    out.push(decls[j]);
                    assert(out@ =~= before.add(decls@.subrange(0, j + 1)));
                    j += 1;
                }
                assert(decls@.subrange(0, decls@.len() as int) =~= decls@);
            },
            None => {},
        }
        assert(out@ =~= collect_targets(db, file, cands@.subrange(0, i + 1)));
        i += 1;
    }
    assert(cands@.subrange(0, cands@.len() as int) =~= cands@);
    out
}

/// The navigation targets of the direct child modules of the module scope
/// at `position`, in textual order of their declarations. A declaration that
/// resolves to no module is left out; one whose module has several
/// declaration sites gives one target per site, side by side.
pub fn children_module(db: &RootDatabase, position: FilePosition) -> (r: Vec<NavigationTarget>)
    requires
        db.wf(),
        position.file_id < db.files@.len(),
    ensures
        r@ == spec_children_module(db, position),
{
    let tree = &db.files[position.file_id].tree;
    assert(tree.wf());
    let scope = locate_scope(tree, position.offset);
    let cands = scope_children(tree, scope);
    resolve_all(db, position.file_id, &cands)
}

} // verus!
