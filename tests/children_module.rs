use module_nav::children_module::{children_module, locate_scope, scope_children, Scope};
use module_nav::semantics::{FilePosition, NavigationTarget, RootDatabase};
use module_nav::syntax::{SyntaxKind, SyntaxTree, TextRange};

/// The range of the `nth` occurrence (from 0) of `needle` in `text`.
fn nth_range(text: &str, needle: &str, nth: usize) -> TextRange {
    let (start, _) = text.match_indices(needle).nth(nth).expect("needle in text");
    TextRange::new(start as u32, (start + needle.len()) as u32)
}

fn range(text: &str, needle: &str) -> TextRange {
    nth_range(text, needle, 0)
}

fn whole(text: &str) -> TextRange {
    TextRange::new(0, text.len() as u32)
}

fn offset_of(text: &str, needle: &str) -> u32 {
    text.find(needle).expect("needle in text") as u32
}

/// The target of a `mod` declaration: its whole span, focused on its name.
fn decl_target(file_id: usize, full: TextRange, name: TextRange) -> NavigationTarget {
    NavigationTarget { file_id, full_range: full, focus_range: Some(name) }
}

fn empty_file(db: &mut RootDatabase, text: &str) -> usize {
    let tree = SyntaxTree::new(whole(text));
    let defs = vec![None; tree.nodes.len()];
    db.add_file(tree, defs)
}

fn check_children_module(
    db: &RootDatabase,
    position: FilePosition,
    expected: Vec<(usize, TextRange)>,
) {
    let navs = children_module(db, position);
    let navs = navs.iter().map(|nav| (nav.file_id, nav.focus_or_full_range())).collect::<Vec<_>>();
    assert_eq!(expected, navs);
}

const INLINE: &str = "mod foo {\n    mod bar {\n        mod baz {}\n    }     //^^^\n}\n";

/// The tree of `INLINE`, with each declaration resolved to a module of its own.
fn inline_db() -> RootDatabase {
    let text = INLINE;
    let mut db = RootDatabase::new();
    let mut tree = SyntaxTree::new(whole(text));
    let foo = tree.add_node(0, SyntaxKind::Module, TextRange::new(0, text.len() as u32 - 1));
    tree.add_node(foo, SyntaxKind::Name, range(text, "foo"));
    let foo_body = tree.add_node(
        foo,
        SyntaxKind::ItemList,
        TextRange::new(offset_of(text, "{"), text.len() as u32 - 1),
    );
    let bar_end = offset_of(text, "}     //") + 1;
    let bar = tree.add_node(foo_body, SyntaxKind::Module, TextRange::new(offset_of(text, "mod bar"), bar_end));
    tree.add_node(bar, SyntaxKind::Name, range(text, "bar"));
    let bar_body = tree.add_node(
        bar,
        SyntaxKind::ItemList,
        TextRange::new(offset_of(text, "{\n        mod baz"), bar_end),
    );
    let baz = tree.add_node(bar_body, SyntaxKind::Module, range(text, "mod baz {}"));
    tree.add_node(baz, SyntaxKind::Name, range(text, "baz"));
    tree.add_node(baz, SyntaxKind::ItemList, range(text, "{}"));
    let mut defs = vec![None; tree.nodes.len()];
    let names = [(foo, "foo"), (bar, "bar"), (baz, "baz")];
    for (node, name) in names {
        let full = tree.nodes[node].range;
        defs[node] = Some(db.add_module(vec![decl_target(0, full, range(text, name))]));
    }
    db.add_file(tree, defs);
    db
}

#[test]
fn test_resolve_children_module() {
    // lib.rs, cursor at its start: `$0\nmod foo;\n`
    let lib = "\nmod foo;\n  //^^^\n\n";
    let mut db = RootDatabase::new();
    let mut tree = SyntaxTree::new(whole(lib));
    let foo = tree.add_node(0, SyntaxKind::Module, range(lib, "mod foo;"));
    tree.add_node(foo, SyntaxKind::Name, range(lib, "foo"));
    let mut defs = vec![None; tree.nodes.len()];
    defs[foo] = Some(db.add_module(vec![decl_target(0, range(lib, "mod foo;"), range(lib, "foo"))]));
    let lib_id = db.add_file(tree, defs);
    empty_file(&mut db, "// empty\n");
    check_children_module(
        &db,
        FilePosition { file_id: lib_id, offset: 0 },
        vec![(lib_id, range(lib, "foo"))],
    );
}

#[test]
fn test_resolve_children_module_on_module_decl() {
    // lib.rs: `mod $0foo;`; foo.rs: `mod bar;`; foo/bar.rs: empty.
    let lib = "mod foo;\n  //^^^\n";
    let foo_rs = "mod bar;\n\n";
    let mut db = RootDatabase::new();
    let foo_module = db.add_module(vec![decl_target(0, range(lib, "mod foo;"), range(lib, "foo"))]);
    let bar_module =
        db.add_module(vec![decl_target(1, range(foo_rs, "mod bar;"), range(foo_rs, "bar"))]);

    let mut tree = SyntaxTree::new(whole(lib));
    let foo = tree.add_node(0, SyntaxKind::Module, range(lib, "mod foo;"));
    tree.add_node(foo, SyntaxKind::Name, range(lib, "foo"));
    let mut defs = vec![None; tree.nodes.len()];
    defs[foo] = Some(foo_module);
    let lib_id = db.add_file(tree, defs);

    let mut tree = SyntaxTree::new(whole(foo_rs));
    let bar = tree.add_node(0, SyntaxKind::Module, range(foo_rs, "mod bar;"));
    tree.add_node(bar, SyntaxKind::Name, range(foo_rs, "bar"));
    let mut defs = vec![None; tree.nodes.len()];
    defs[bar] = Some(bar_module);
    db.add_file(tree, defs);
    empty_file(&mut db, "// empty\n");

    check_children_module(
        &db,
        FilePosition { file_id: lib_id, offset: offset_of(lib, "foo") },
        vec![(lib_id, range(lib, "foo"))],
    );
}

#[test]
fn test_resolve_children_module_for_inline() {
    let db = inline_db();
    check_children_module(
        &db,
        FilePosition { file_id: 0, offset: offset_of(INLINE, "baz") },
        vec![(0, range(INLINE, "baz"))],
    );
}

#[test]
fn test_resolve_multi_child_module() {
    // main.rs, cursor at its start: `$0\nmod foo;\nmod bar;\n`
    let main = "\nmod foo;\n  //^^^\nmod bar;\n  //^^^\n  \n";
    let mut db = RootDatabase::new();
    let mut tree = SyntaxTree::new(whole(main));
    let foo = tree.add_node(0, SyntaxKind::Module, range(main, "mod foo;"));
    tree.add_node(foo, SyntaxKind::Name, range(main, "foo"));
    let bar = tree.add_node(0, SyntaxKind::Module, range(main, "mod bar;"));
    tree.add_node(bar, SyntaxKind::Name, range(main, "bar"));
    let mut defs = vec![None; tree.nodes.len()];
    defs[foo] = Some(db.add_module(vec![decl_target(0, range(main, "mod foo;"), range(main, "foo"))]));
    defs[bar] = Some(db.add_module(vec![decl_target(0, range(main, "mod bar;"), range(main, "bar"))]));
    let main_id = db.add_file(tree, defs);
    empty_file(&mut db, "// empty\n");
    empty_file(&mut db, "// empty\n");
    check_children_module(
        &db,
        FilePosition { file_id: main_id, offset: 0 },
        vec![(main_id, range(main, "foo")), (main_id, range(main, "bar"))],
    );
}
