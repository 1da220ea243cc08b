//! The semantic view of a set of documents: which logical module each
//! module declaration resolves to, and where each logical module is declared.

use crate::syntax::{SyntaxTree, TextRange, TextSize};
use vstd::prelude::*;

verus! {

/// A place to jump to: a document, the whole span of the target and, where
/// there is one, the part to put the cursor on (a declaration's name).
#[derive(Clone, Copy, Debug, PartialEq, Eq, Structural)]
pub struct NavigationTarget {
    pub file_id: usize,
    pub full_range: TextRange,
    pub focus_range: Option<TextRange>,
}

impl NavigationTarget {
    pub open spec fn spec_focus_or_full_range(self) -> TextRange {
        match self.focus_range {
            Some(r) => r,
            None => self.full_range,
        }
    }

    pub fn focus_or_full_range(&self) -> (r: TextRange)
        ensures
            r == self.spec_focus_or_full_range(),
    {
        match self.focus_range {
            Some(r) => r,
            None => self.full_range,
        }
    }
}

/// A cursor: a document and a byte offset in it.
#[derive(Clone, Copy, Debug, PartialEq, Eq, Structural)]
pub struct FilePosition {
    pub file_id: usize,
    pub offset: TextSize,
}

/// A logical module, known by the places that declare it (more than one
/// where conditional compilation declares it twice).
pub struct ModuleData {
    pub declarations: Vec<NavigationTarget>,
}

/// A parsed document, and for each of its nodes the logical module that the
/// node resolves to, if any.
pub struct FileData {
    pub tree: SyntaxTree,
    pub defs: Vec<Option<usize>>,
}

/// The documents and logical modules of a program snapshot. File `f` is
/// `files[f]`; logical module `m` is `modules[m]`.
pub struct RootDatabase {
    pub files: Vec<FileData>,
    pub modules: Vec<ModuleData>,
}

impl RootDatabase {
    pub open spec fn wf(&self) -> bool {
        forall|f: int| 0 <= f < self.files@.len() ==> (#[trigger] self.files@[f]).tree.wf()
    }

    /// The logical module that node `node` of file `file` resolves to. A node
    /// without an entry, or whose entry names no known module, resolves to none.
    pub open spec fn spec_to_def(&self, file: usize, node: usize) -> Option<usize> {
        let defs = self.files@[file as int].defs@;
        if node < defs.len() {
            match defs[node as int] {
                Some(m) => if m < self.modules@.len() {
                    Some(m)
                } else {
                    None
                },
                None => None,
            }
        } else {
            None
        }
    }

    /// The navigation targets of every declaration site of module `m`.
    pub open spec fn declarations_of(&self, m: usize) -> Seq<NavigationTarget> {
        self.modules@[m as int].declarations@
    }

    /// The targets that node `node` of file `file` leads to: one per
    /// declaration site of the module it resolves to, none if it resolves to none.
    pub open spec fn targets_of(&self, file: usize, node: usize) -> Seq<NavigationTarget> {
        match self.spec_to_def(file, node) {
            Some(m) => self.declarations_of(m),
            None => Seq::empty(),
        }
    }

    pub fn new() -> (r: RootDatabase)
        ensures
            r.wf(),
            r.files@.len() == 0,
            r.modules@.len() == 0,
    {
        RootDatabase { files: Vec::new(), modules: Vec::new() }
    }

    /// Adds a logical module declared at `declarations`; returns its index.
    pub fn add_module(&mut self, declarations: Vec<NavigationTarget>) -> (r: usize)
        requires
            old(self).wf(),
        ensures
            final(self).wf(),
            r == old(self).modules@.len(),
            final(self).files@ == old(self).files@,
            final(self).modules@.len() == r + 1,
            final(self).declarations_of(r) == declarations@,
            forall|m: usize| m < r ==> final(self).declarations_of(m) == old(self).declarations_of(m),
    {
        let r = self.modules.len();
        self.modules.push(ModuleData { declarations });
        r
    }

    /// Adds a document with its tree and the resolution of its nodes
    /// (`defs[n]` for node `n`); returns its index.
    pub fn add_file(&mut self, tree: SyntaxTree, defs: Vec<Option<usize>>) -> (r: usize)
        requires
            old(self).wf(),
            tree.wf(),
        ensures
            final(self).wf(),
            r == old(self).files@.len(),
            final(self).files@ == old(self).files@.push(FileData { tree, defs }),
            final(self).modules@ == old(self).modules@,
    {
        let r = self.files.len();
        self.files.push(FileData { tree, defs });
        r
    }

    /// The logical module that node `node` of file `file` resolves to.
    pub fn to_def(&self, file: usize, node: usize) -> (r: Option<usize>)
        requires
            file < self.files@.len(),
        ensures
            r == self.spec_to_def(file, node),
    {
        let defs = &self.files[file].defs;
        if node < defs.len() {
            match defs[node] {
                Some(m) => if m < self.modules.len() {
                    Some(m)
                } else {
                    None
                },
                None => None,
            }
        } else {
            None
        }
    }
}

} // verus!
