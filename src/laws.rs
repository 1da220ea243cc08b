//! What holds of the children-module query over every tree, cursor and
//! resolution.

use crate::children_module::{
    collect_targets, last_module, spec_children_module, spec_locate_scope, spec_scope_children,
    body_holds, item_list_modules, module_items, Scope,
};
use crate::semantics::{FilePosition, NavigationTarget, RootDatabase};
use crate::syntax::{lemma_descent_links, spec_ancestors_at_offset, SyntaxKind, SyntaxTree, TextSize};
use vstd::prelude::*;

verus! {

/// `last_module(t, p, n)` is the last module declaration in `p[..n]`.
pub proof fn lemma_last_module(t: &SyntaxTree, p: Seq<usize>, n: int)
    requires
        0 <= n <= p.len(),
    ensures
        last_module(t, p, n) matches Some(k) ==> {
            &&& 0 <= k < n
            &&& t.kind_of(p[k]) == SyntaxKind::Module
            &&& forall|j: int| k < j < n ==> t.kind_of(#[trigger] p[j]) != SyntaxKind::Module
        },
        last_module(t, p, n) is None ==> forall|j: int|
            0 <= j < n ==> t.kind_of(#[trigger] p[j]) != SyntaxKind::Module,
    decreases n,
{
    if n > 0 {
        lemma_last_module(t, p, n - 1);
    }
}

/// The cursor is outside every module declaration: the scope is the top
/// level, and the query lists every top-level module declaration.
pub proof fn law_top_level(db: &RootDatabase, pos: FilePosition)
    requires
        db.wf(),
        pos.file_id < db.files@.len(),
        forall|j: int|
            0 <= j < spec_ancestors_at_offset(&db.files@[pos.file_id as int].tree, pos.offset).len()
                ==> db.files@[pos.file_id as int].tree.kind_of(
                #[trigger] spec_ancestors_at_offset(
                    &db.files@[pos.file_id as int].tree,
                    pos.offset,
                )[j],
            ) != SyntaxKind::Module,
    ensures
        spec_locate_scope(&db.files@[pos.file_id as int].tree, pos.offset) == Scope::Root,
        spec_children_module(db, pos) == collect_targets(
            db,
            pos.file_id,
            module_items(
                &db.files@[pos.file_id as int].tree,
                db.files@[pos.file_id as int].tree.children_of(0),
            ),
        ),
{
    let t = &db.files@[pos.file_id as int].tree;
    let p = spec_ancestors_at_offset(t, pos.offset);
    lemma_last_module(t, p, p.len() as int);
}

/// The cursor is in the body of module declaration `p[k]` and in no nested
/// module's body (at most the header of one directly nested declaration
/// lies under it): the scope is that module, and the query lists its own
/// direct children.
pub proof fn law_inside_body(db: &RootDatabase, pos: FilePosition, k: int)
    requires
        db.wf(),
        pos.file_id < db.files@.len(),
        ({
            let t = &db.files@[pos.file_id as int].tree;
            let p = spec_ancestors_at_offset(t, pos.offset);
            &&& 0 <= k < p.len()
            &&& t.kind_of(p[k]) == SyntaxKind::Module
            &&& body_holds(t, p[k], pos.offset)
            &&& forall|j: int|
                k < j < p.len() && t.kind_of(#[trigger] p[j]) == SyntaxKind::Module ==> !body_holds(
                    t,
                    p[j],
                    pos.offset,
                )
            &&& forall|i: int, j: int|
                k < i < j < p.len() ==> !(t.kind_of(#[trigger] p[i]) == SyntaxKind::Module
                    && t.kind_of(#[trigger] p[j]) == SyntaxKind::Module)
        }),
    ensures
        ({
            let t = &db.files@[pos.file_id as int].tree;
            let m = spec_ancestors_at_offset(t, pos.offset)[k];
            &&& spec_locate_scope(t, pos.offset) == Scope::Module(m)
            &&& spec_children_module(db, pos) == collect_targets(
                db,
                pos.file_id,
                item_list_modules(t, t.children_of(m)),
            )
        }),
{
    let t = &db.files@[pos.file_id as int].tree;
    let p = spec_ancestors_at_offset(t, pos.offset);
    lemma_last_module(t, p, p.len() as int);
    let big_k = last_module(t, p, p.len() as int)->Some_0;
    if big_k != k {
        assert(t.kind_of(p[big_k]) == SyntaxKind::Module);
        lemma_last_module(t, p, big_k);
        let j = last_module(t, p, big_k)->Some_0;
        if j > k {
            assert(t.kind_of(p[j]) == SyntaxKind::Module);
        } else if j < k {
            assert(t.kind_of(p[k]) != SyntaxKind::Module);
        }
    }
}

/// Collecting over two runs of declarations is collecting over each in turn.
pub proof fn lemma_collect_concat(db: &RootDatabase, file: usize, a: Seq<usize>, b: Seq<usize>)
    ensures
        collect_targets(db, file, a.add(b)) == collect_targets(db, file, a).add(
            collect_targets(db, file, b),
        ),
    decreases b.len(),
{
    if b.len() == 0 {
        assert(a.add(b) =~= a);
        assert(collect_targets(db, file, a).add(collect_targets(db, file, b)) =~= collect_targets(
            db,
            file,
            a,
        ));
    } else {
        lemma_collect_concat(db, file, a, b.drop_last());
        assert(a.add(b).drop_last() =~= a.add(b.drop_last()));
        assert(a.add(b).last() == b.last());
        assert(collect_targets(db, file, a.add(b)) =~= collect_targets(db, file, a).add(
            collect_targets(db, file, b),
        ));
    }
}

/// Where the `i`-th declaration of `cands` stands in what is collected: its
/// targets come as one run, after those of the declarations before it and
/// before those of the declarations after it.
pub proof fn lemma_collect_split(db: &RootDatabase, file: usize, cands: Seq<usize>, i: int)
    requires
        0 <= i < cands.len(),
    ensures
        collect_targets(db, file, cands) == collect_targets(db, file, cands.take(i)).add(
            db.targets_of(file, cands[i]),
        ).add(collect_targets(db, file, cands.skip(i + 1))),
{
    let pre = cands.take(i + 1);
    assert(cands =~= pre.add(cands.skip(i + 1)));
    lemma_collect_concat(db, file, pre, cands.skip(i + 1));
    assert(pre.drop_last() =~= cands.take(i));
}

/// A logical module with several declaration sites gives one target per
/// site, side by side: the targets of the `i`-th child declaration of the
/// scope at `pos` are the declaration sites of the module it resolves to,
/// in one run that follows the targets of the declarations before it.
pub proof fn law_sites_adjacent(db: &RootDatabase, pos: FilePosition, i: int)
    requires
        db.wf(),
        pos.file_id < db.files@.len(),
        0 <= i < spec_scope_children(
            &db.files@[pos.file_id as int].tree,
            spec_locate_scope(&db.files@[pos.file_id as int].tree, pos.offset),
        ).len(),
    ensures
        ({
            let t = &db.files@[pos.file_id as int].tree;
            let cands = spec_scope_children(t, spec_locate_scope(t, pos.offset));
            let r = spec_children_module(db, pos);
            let start = collect_targets(db, pos.file_id, cands.take(i)).len();
            let sites = db.targets_of(pos.file_id, cands[i]);
            &&& start + sites.len() <= r.len()
            &&& r.subrange(start as int, (start + sites.len()) as int) == sites
            &&& db.spec_to_def(pos.file_id, cands[i]) matches Some(m) ==> sites
                == db.declarations_of(m)
        }),
{
    let t = &db.files@[pos.file_id as int].tree;
    let cands = spec_scope_children(t, spec_locate_scope(t, pos.offset));
    lemma_collect_split(db, pos.file_id, cands, i);
    let r = spec_children_module(db, pos);
    let start = collect_targets(db, pos.file_id, cands.take(i)).len();
    let sites = db.targets_of(pos.file_id, cands[i]);
    assert(r.subrange(start as int, (start + sites.len()) as int) =~= sites);
}

/// Node `node` of file `file` resolves to a module declared at one site.
pub open spec fn single_site(db: &RootDatabase, file: usize, node: usize) -> bool {
    match db.spec_to_def(file, node) {
        Some(m) => db.declarations_of(m).len() == 1,
        None => false,
    }
}

/// Each declaration of `cands` that resolves to a module with one site adds
/// exactly that site.
pub proof fn lemma_collect_single_sites(db: &RootDatabase, file: usize, cands: Seq<usize>)
    requires
        forall|i: int|
            0 <= i < cands.len() ==> single_site(db, file, #[trigger] cands[i]),
    ensures
        collect_targets(db, file, cands).len() == cands.len(),
        forall|i: int|
            0 <= i < cands.len() ==> #[trigger] collect_targets(db, file, cands)[i]
                == db.declarations_of(db.spec_to_def(file, cands[i])->Some_0)[0],
    decreases cands.len(),
{
    if cands.len() > 0 {
        let pre = cands.drop_last();
        assert forall|i: int|
            0 <= i < pre.len() implies single_site(db, file, #[trigger] pre[i]) by {
            assert(pre[i] == cands[i]);
        }
        lemma_collect_single_sites(db, file, pre);
        let last = cands.len() - 1;
        assert(db.spec_to_def(file, cands[last]) is Some);
        let r = collect_targets(db, file, cands);
        assert forall|i: int| 0 <= i < cands.len() implies #[trigger] r[i]
            == db.declarations_of(db.spec_to_def(file, cands[i])->Some_0)[0] by {
            if i < last {
                assert(pre[i] == cands[i]);
            }
        }
    }
}

/// When each of the `N` direct child declarations of the scope at `pos`
/// resolves to a module with one declaration site, the query returns exactly
/// `N` targets, the `i`-th for the `i`-th declaration in textual order.
pub proof fn law_one_target_per_child(db: &RootDatabase, pos: FilePosition)
    requires
        db.wf(),
        pos.file_id < db.files@.len(),
        ({
            let t = &db.files@[pos.file_id as int].tree;
            let cands = spec_scope_children(t, spec_locate_scope(t, pos.offset));
            forall|i: int|
                0 <= i < cands.len() ==> single_site(db, pos.file_id, #[trigger] cands[i])
        }),
    ensures
        ({
            let t = &db.files@[pos.file_id as int].tree;
            let cands = spec_scope_children(t, spec_locate_scope(t, pos.offset));
            let r = spec_children_module(db, pos);
            &&& r.len() == cands.len()
            &&& forall|i: int|
                0 <= i < cands.len() ==> #[trigger] r[i] == db.declarations_of(
                    db.spec_to_def(pos.file_id, cands[i])->Some_0,
                )[0]
        }),
{
    let t = &db.files@[pos.file_id as int].tree;
    let cands = spec_scope_children(t, spec_locate_scope(t, pos.offset));
    lemma_collect_single_sites(db, pos.file_id, cands);
}

/// A module declaration at `p[k]` with none after it up to `n` is the last
/// one in `p[..n]`.
pub proof fn lemma_last_module_is(t: &SyntaxTree, p: Seq<usize>, n: int, k: int)
    requires
        0 <= k < n <= p.len(),
        t.kind_of(p[k]) == SyntaxKind::Module,
        forall|j: int| k < j < n ==> t.kind_of(#[trigger] p[j]) != SyntaxKind::Module,
    ensures
        last_module(t, p, n) == Some(k),
    decreases n,
{
    if n - 1 > k {
        lemma_last_module_is(t, p, n - 1, k);
    }
}

/// A module declaration among `cs` is among `module_items(t, cs)`.
pub proof fn lemma_module_items_contains(t: &SyntaxTree, cs: Seq<usize>, c: usize)
    requires
        cs.contains(c),
        t.kind_of(c) == SyntaxKind::Module,
    ensures
        module_items(t, cs).contains(c),
    decreases cs.len(),
{
    if cs.last() != c {
        let j = choose|j: int| 0 <= j < cs.len() && cs[j] == c;
        assert(cs.drop_last()[j] == c);
        lemma_module_items_contains(t, cs.drop_last(), c);
        let pre = module_items(t, cs.drop_last());
        let i = choose|i: int| 0 <= i < pre.len() && pre[i] == c;
        if t.kind_of(cs.last()) == SyntaxKind::Module {
            assert(pre.push(cs.last())[i] == c);
        }
    } else {
        assert(module_items(t, cs).last() == c);
    }
}

/// A module declaration in an item list among `cs` is among
/// `item_list_modules(t, cs)`.
pub proof fn lemma_item_list_modules_contains(
    t: &SyntaxTree,
    cs: Seq<usize>,
    l: usize,
    c: usize,
)
    requires
        cs.contains(l),
        t.kind_of(l) == SyntaxKind::ItemList,
        t.children_of(l).contains(c),
        t.kind_of(c) == SyntaxKind::Module,
    ensures
        item_list_modules(t, cs).contains(c),
    decreases cs.len(),
{
    let pre = item_list_modules(t, cs.drop_last());
    if cs.last() != l {
        let j = choose|j: int| 0 <= j < cs.len() && cs[j] == l;
        assert(cs.drop_last()[j] == l);
        lemma_item_list_modules_contains(t, cs.drop_last(), l, c);
        let i = choose|i: int| 0 <= i < pre.len() && pre[i] == c;
        if t.kind_of(cs.last()) == SyntaxKind::ItemList {
            assert(pre.add(module_items(t, t.children_of(cs.last())))[i] == c);
        }
    } else {
        lemma_module_items_contains(t, t.children_of(l), c);
        let mi = module_items(t, t.children_of(l));
        let i = choose|i: int| 0 <= i < mi.len() && mi[i] == c;
        assert(pre.add(mi)[pre.len() + i] == c);
    }
}

/// The cursor is on the header of module declaration `p[k]`, the innermost
/// one around it, and not in its body: the scope is the next module
/// declaration above it, or the top level where there is none. Where the
/// declaration stands directly in that scope's body (or at the top level),
/// it is itself one of the children listed, with each of its targets.
pub proof fn law_on_declaration(db: &RootDatabase, pos: FilePosition, k: int)
    requires
        db.wf(),
        pos.file_id < db.files@.len(),
        ({
            let t = &db.files@[pos.file_id as int].tree;
            let p = spec_ancestors_at_offset(t, pos.offset);
            &&& 0 <= k < p.len()
            &&& t.kind_of(p[k]) == SyntaxKind::Module
            &&& !body_holds(t, p[k], pos.offset)
            &&& forall|j: int| k < j < p.len() ==> t.kind_of(#[trigger] p[j]) != SyntaxKind::Module
        }),
    ensures
        ({
            let t = &db.files@[pos.file_id as int].tree;
            let p = spec_ancestors_at_offset(t, pos.offset);
            let scope = spec_locate_scope(t, pos.offset);
            &&& scope == match last_module(t, p, k) {
                Some(j) => Scope::Module(p[j]),
                None => Scope::Root,
            }
            &&& (k == 1 && last_module(t, p, k) is None) || (k >= 2 && last_module(t, p, k) == Some(
                k - 2,
            ) && t.kind_of(p[k - 1]) == SyntaxKind::ItemList) ==> {
                &&& spec_scope_children(t, scope).contains(p[k])
                &&& forall|s: NavigationTarget|
                    db.targets_of(pos.file_id, p[k]).contains(s) ==> #[trigger] spec_children_module(
                        db,
                        pos,
                    ).contains(s)
            }
        }),
{
    let t = &db.files@[pos.file_id as int].tree;
    let p = spec_ancestors_at_offset(t, pos.offset);
    let scope = spec_locate_scope(t, pos.offset);
    lemma_last_module_is(t, p, p.len() as int, k);
    if (k == 1 && last_module(t, p, k) is None) || (k >= 2 && last_module(t, p, k) == Some(k - 2)
        && t.kind_of(p[k - 1]) == SyntaxKind::ItemList) {
        lemma_descent_links(t, 0, pos.offset);
        assert(t.children_of(p[k - 1]).contains(p[k]));
        if k == 1 {
            lemma_module_items_contains(t, t.children_of(0), p[1]);
        } else {
            assert(t.children_of(p[k - 2]).contains(p[k - 1]));
            lemma_item_list_modules_contains(t, t.children_of(p[k - 2]), p[k - 1], p[k]);
        }
        let cands = spec_scope_children(t, scope);
        let i = choose|i: int| 0 <= i < cands.len() && cands[i] == p[k];
        lemma_collect_split(db, pos.file_id, cands, i);
        let r = spec_children_module(db, pos);
        let pre = collect_targets(db, pos.file_id, cands.take(i));
        let sites = db.targets_of(pos.file_id, p[k]);
        assert forall|s: NavigationTarget| sites.contains(s) implies #[trigger] r.contains(s) by {
            let j = choose|j: int| 0 <= j < sites.len() && sites[j] == s;
            assert(r[pre.len() + j] == s);
        }
    }
}

} // verus!
