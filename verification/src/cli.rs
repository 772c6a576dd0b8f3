//! Names and selectors shared with the command-line layer.

use vstd::prelude::*;

verus! {

/// The staging transaction subcommands.
#[derive(Clone, Copy, Debug, PartialEq, Eq, Structural)]
pub enum TransactionCmd {
    New,
    List,
    Destroy,
    Export,
    Import,
    Sign,
    Finalize,
    Send,
    InputSelect,
    AddChange,
    AddInput,
    AddOutput,
    RmInput,
    RmOutput,
    RmChange,
    Status,
}

impl TransactionCmd {
    /// The name the subcommand goes by on the command line.
    pub fn as_string(self) -> (r: &'static str)
        ensures
            self is New ==> r@ == "new"@,
            self is List ==> r@ == "list"@,
            self is Destroy ==> r@ == "destroy"@,
            self is Export ==> r@ == "export"@,
            self is Import ==> r@ == "import"@,
            self is Sign ==> r@ == "sign"@,
            self is Finalize ==> r@ == "finalize"@,
            self is Send ==> r@ == "send"@,
            self is InputSelect ==> r@ == "input-select"@,
            self is AddChange ==> r@ == "add-change"@,
            self is AddInput ==> r@ == "add-input"@,
            self is AddOutput ==> r@ == "add-output"@,
            self is RmInput ==> r@ == "rm-input"@,
            self is RmOutput ==> r@ == "rm-output"@,
            self is RmChange ==> r@ == "rm-change"@,
            self is Status ==> r@ == "status"@,
    {
        match self {
            TransactionCmd::New => "new",
            TransactionCmd::List => "list",
            TransactionCmd::Destroy => "destroy",
            TransactionCmd::Export => "export",
            TransactionCmd::Import => "import",
            TransactionCmd::Send => "send",
            TransactionCmd::Sign => "sign",
            TransactionCmd::Finalize => "finalize",
            TransactionCmd::InputSelect => "input-select",
            TransactionCmd::AddChange => "add-change",
            TransactionCmd::AddInput => "add-input",
            TransactionCmd::AddOutput => "add-output",
            TransactionCmd::RmInput => "rm-input",
            TransactionCmd::RmOutput => "rm-output",
            TransactionCmd::RmChange => "rm-change",
            TransactionCmd::Status => "status",
        }
    }
}

/// How much detail a listing of remote peers goes into.
#[derive(Clone, Copy, Debug, PartialEq, Eq, PartialOrd, Ord, Structural)]
pub enum RemoteDetail {
    Short,
    Local,
    Remote,
}

impl RemoteDetail {
    /// The detail levels in increasing order.
    pub open spec fn spec_rank(self) -> u8 {
        match self {
            RemoteDetail::Short => 0u8,
            RemoteDetail::Local => 1u8,
            RemoteDetail::Remote => 2u8,
        }
    }

    /// The detail levels in increasing order.
    pub fn rank(self) -> (r: u8)
        ensures
            r == self.spec_rank(),
    {
        match self {
            RemoteDetail::Short => 0,
            RemoteDetail::Local => 1,
            RemoteDetail::Remote => 2,
        }
    }

    /// Whether this level shows at least as much as the other.
    pub fn at_least(self, other: RemoteDetail) -> (r: bool)
        ensures
            r == (self.spec_rank() >= other.spec_rank()),
    {
        self.rank() >= other.rank()
    }
}

} // verus!
