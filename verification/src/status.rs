//! The disposition of a message.

use vstd::prelude::*;

verus! {

/// What is to become of a message. The variants are ordered as declared:
/// `Inbox < FollowUp < ReadThrough < Archive`.
#[derive(Clone, Copy, Debug, PartialEq, Eq, PartialOrd, Ord, Hash, Structural)]
pub enum Status {
    Inbox,
    FollowUp,
    ReadThrough,
    Archive,
}

impl Status {
    /// Place of the variant in declaration order.
    pub open spec fn spec_rank(self) -> nat {
        match self {
            Status::Inbox => 0,
            Status::FollowUp => 1,
            Status::ReadThrough => 2,
            Status::Archive => 3,
        }
    }

    /// Name of the variant as shown to the operator.
    pub open spec fn label(self) -> Seq<char> {
        match self {
            Status::Inbox => "Inbox"@,
            Status::FollowUp => "FollowUp"@,
            Status::ReadThrough => "ReadThrough"@,
            Status::Archive => "Archive"@,
        }
    }

    /// True of the status every message starts with.
    pub open spec fn is_initial(self) -> bool {
        self == Status::Inbox
    }

    /// Place of the variant in declaration order.
    pub fn rank(&self) -> (r: u8)
        ensures
            r == self.spec_rank(),
    {
        match self {
            Status::Inbox => 0,
            Status::FollowUp => 1,
            Status::ReadThrough => 2,
            Status::Archive => 3,
        }
    }

    /// Name of the variant as shown to the operator.
    pub fn to_string(&self) -> (s: String)
        ensures
            s@ == self.label(),
    {
        match self {
            Status::Inbox => "Inbox".to_owned(),
            Status::FollowUp => "FollowUp".to_owned(),
            Status::ReadThrough => "ReadThrough".to_owned(),
            Status::Archive => "Archive".to_owned(),
        }
    }
}

/// Distinct variants have distinct ranks, so the rank orders the four
/// dispositions totally.
pub proof fn lemma_rank_injective(a: Status, b: Status)
    ensures
        a.spec_rank() == b.spec_rank() <==> a == b,
        a.spec_rank() <= 3,
{
}

} // verus!
