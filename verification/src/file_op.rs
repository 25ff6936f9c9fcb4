//! The file operations that the probes observe.

use vstd::prelude::*;

verus! {

/// A file operation observed by the probes.
#[derive(Debug, Clone, Copy, PartialEq, Eq, Structural)]
pub enum FileOp {
    Create,
    Write,
    Delete,
}

impl FileOp {
    /// The byte that stands for the operation in a record.
    pub open spec fn byte(self) -> u8 {
        match self {
            FileOp::Create => 1,
            FileOp::Write => 2,
            FileOp::Delete => 3,
        }
    }

    /// The operation's name in a printed line.
    pub open spec fn name(self) -> Seq<char> {
        match self {
            FileOp::Create => "create"@,
            FileOp::Write => "write"@,
            FileOp::Delete => "delete"@,
        }
    }

    /// The byte that stands for the operation in a record.
    pub fn to_u8(self) -> (value: u8)
        ensures
            value == self.byte(),
    {
        match self {
            FileOp::Create => 1,
            FileOp::Write => 2,
            FileOp::Delete => 3,
        }
    }

    /// The operation that `value` stands for, if it stands for one.
    pub fn from_u8(value: u8) -> (op: Option<FileOp>)
        ensures
            op is Some <==> 1 <= value <= 3,
            op matches Some(op) ==> op.byte() == value,
    {
        match value {
            1 => Some(FileOp::Create),
            2 => Some(FileOp::Write),
            3 => Some(FileOp::Delete),
            _ => None,
        }
    }

    pub fn label(self) -> (label: &'static str)
        ensures
            label@ == self.name(),
    {
        match self {
            FileOp::Create => "create",
            FileOp::Write => "write",
            FileOp::Delete => "delete",
        }
    }
}

/// Different operations have different bytes and different names, and no name
/// is empty.
pub proof fn law_operations_are_told_apart(a: FileOp, b: FileOp)
    ensures
        a.byte() == b.byte() <==> a == b,
        a.name() == b.name() <==> a == b,
        a.name().len() > 0,
{
    reveal_strlit("create");
    reveal_strlit("write");
    reveal_strlit("delete");
    assert("create"@[0] != "delete"@[0]);
}

} // verus!
