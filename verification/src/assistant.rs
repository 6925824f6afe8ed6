//! The coding assistant that works in the workspaces, known by its names.
use vstd::prelude::*;

verus! {

/// How the assistant is called, and how the files that it reads are.
#[derive(Debug)]
pub struct Assistant {
    /// Its name in what is said of it.
    pub title: String,
    /// The name of the product that its program comes with.
    pub product: String,
    /// Its program.
    pub program: String,
    /// The directory that it reads in a project.
    pub dir: String,
    /// The file of instructions that it reads, in a project or in that directory.
    pub guide: String,
}

/// What an [`Assistant`] stands for.
#[verifier::ext_equal]
pub struct AssistantView {
    pub title: Seq<char>,
    pub product: Seq<char>,
    pub program: Seq<char>,
    pub dir: Seq<char>,
    pub guide: Seq<char>,
}

impl View for Assistant {
    type V = AssistantView;

    open spec fn view(&self) -> AssistantView {
        AssistantView {
            title: self.title@,
            product: self.product@,
            program: self.program@,
            dir: self.dir@,
            guide: self.guide@,
        }
    }
}

} // verus!
