//! The abstract instruction list: the parser's output, one variant record per
//! source instruction, carrying operand names as opaque identifiers not yet
//! resolved to addresses.

use vstd::prelude::*;

verus! {

/// A source-level variable name to be resolved to a storage location.
#[derive(Debug)]
pub struct Address(pub String);

/// A source-level symbolic name defining or referencing a jump target.
#[derive(Debug)]
pub struct Label(pub String);

impl View for Address {
    type V = Seq<char>;

    open spec fn view(&self) -> Seq<char> {
        self.0@
    }
}

impl View for Label {
    type V = Seq<char>;

    open spec fn view(&self) -> Seq<char> {
        self.0@
    }
}

/// One abstract instruction per source operator. The list's order is exactly
/// the source order; positions are referenced by index for error reporting.
#[derive(Debug)]
pub enum AssASTTypes {
    /// a > b == true jump to c
    JumpIfHigherThan { a: Address, b: Address, c: Label },
    /// a/b = c
    Divide { a: Address, b: Address, c: Address },
    /// a != b go to c
    NotEqual { a: Address, b: Address, c: Label },
    /// a == b go to c
    Equal { a: Address, b: Address, c: Label },
    LabelDefenition(Label),
    /// a * b = c
    Multiply { a: Address, b: Address, c: Address },
    /// a - b = c
    Subtract { a: Address, b: Address, c: Address },
    /// jump to a
    Jump { a: Label },
    /// copy a to b
    Copy { a: Address, b: Address },
    /// a + b = c
    Add { a: Address, b: Address, c: Address },
    /// define a variable holding a literal
    Define { name: Label, a: u64 },
    Exit { code: Address },
    /// hand a, b, c to the machine's outward port
    Yeet { a: Address, b: Address, c: Address },
}

/// The mathematical shadow of `AssASTTypes`: the same variants over plain
/// character sequences, so that specifications can build and compare them.
pub enum AstView {
    JumpIfHigherThan { a: Seq<char>, b: Seq<char>, c: Seq<char> },
    Divide { a: Seq<char>, b: Seq<char>, c: Seq<char> },
    NotEqual { a: Seq<char>, b: Seq<char>, c: Seq<char> },
    Equal { a: Seq<char>, b: Seq<char>, c: Seq<char> },
    LabelDefenition(Seq<char>),
    Multiply { a: Seq<char>, b: Seq<char>, c: Seq<char> },
    Subtract { a: Seq<char>, b: Seq<char>, c: Seq<char> },
    Jump { a: Seq<char> },
    Copy { a: Seq<char>, b: Seq<char> },
    Add { a: Seq<char>, b: Seq<char>, c: Seq<char> },
    Define { name: Seq<char>, a: u64 },
    Exit { code: Seq<char> },
    Yeet { a: Seq<char>, b: Seq<char>, c: Seq<char> },
}

impl View for AssASTTypes {
    type V = AstView;

    open spec fn view(&self) -> AstView {
        match self {
            AssASTTypes::JumpIfHigherThan { a, b, c } => AstView::JumpIfHigherThan {
                a: a@,
                b: b@,
                c: c@,
            },
            AssASTTypes::Divide { a, b, c } => AstView::Divide { a: a@, b: b@, c: c@ },
            AssASTTypes::NotEqual { a, b, c } => AstView::NotEqual { a: a@, b: b@, c: c@ },
            AssASTTypes::Equal { a, b, c } => AstView::Equal { a: a@, b: b@, c: c@ },
            AssASTTypes::LabelDefenition(l) => AstView::LabelDefenition(l@),
            AssASTTypes::Multiply { a, b, c } => AstView::Multiply { a: a@, b: b@, c: c@ },
            AssASTTypes::Subtract { a, b, c } => AstView::Subtract { a: a@, b: b@, c: c@ },
            AssASTTypes::Jump { a } => AstView::Jump { a: a@ },
            AssASTTypes::Copy { a, b } => AstView::Copy { a: a@, b: b@ },
            AssASTTypes::Add { a, b, c } => AstView::Add { a: a@, b: b@, c: c@ },
            AssASTTypes::Define { name, a } => AstView::Define { name: name@, a: *a },
            AssASTTypes::Exit { code } => AstView::Exit { code: code@ },
            AssASTTypes::Yeet { a, b, c } => AstView::Yeet { a: a@, b: b@, c: c@ },
        }
    }
}

/// The views of a whole abstract instruction list, index by index.
pub open spec fn views_of(l: Seq<AssASTTypes>) -> Seq<AstView> {
    Seq::new(l.len(), |i: int| l[i]@)
}

} // verus!
