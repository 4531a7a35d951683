//! Named references: branches, tags, and the default branch.

use vstd::prelude::*;
use vstd::string::StringExecFns;

use crate::commit::CommitId;

verus! {

/// The name of a concrete reference: a local branch or a tag.
pub enum ReferenceName {
    Branch(String),
    Tag(String),
}

/// A reference as it appears in the reference index: a branch, a tag, or
/// the repository's designated default branch.
pub enum Reference {
    Branch(String),
    Tag(String),
    Default,
}

/// The mathematical shape of a [`Reference`]: names as character sequences.
pub enum ReferenceView {
    Branch(Seq<char>),
    Tag(Seq<char>),
    Default,
}

impl View for Reference {
    type V = ReferenceView;

    open spec fn view(&self) -> ReferenceView {
        match self {
            Reference::Branch(n) => ReferenceView::Branch(n@),
            Reference::Tag(n) => ReferenceView::Tag(n@),
            Reference::Default => ReferenceView::Default,
        }
    }
}

impl ReferenceName {
    /// The display form of the name, qualified by its kind.
    pub open spec fn qualified_spec(&self) -> Seq<char> {
        match self {
            ReferenceName::Branch(n) => "refs/heads/"@ + n@,
            ReferenceName::Tag(n) => "refs/tags/"@ + n@,
        }
    }

    /// Renders the qualified display form: `refs/heads/<name>` for a branch,
    /// `refs/tags/<name>` for a tag.
    pub fn qualified(&self) -> (r: String)
        ensures
            r@ == self.qualified_spec(),
    {
        match self {
            ReferenceName::Branch(n) => {
                let mut s = "refs/heads/".to_owned();
                s.append(n.as_str());
                s
            },
            ReferenceName::Tag(n) => {
                let mut s = "refs/tags/".to_owned();
                s.append(n.as_str());
                s
            },
        }
    }
}

impl Reference {
    /// The display form of the reference; the default branch is shown by a
    /// sentinel, since its concrete name is configuration, not identity.
    pub open spec fn qualified_spec(&self) -> Seq<char> {
        match self {
            Reference::Branch(n) => "refs/heads/"@ + n@,
            Reference::Tag(n) => "refs/tags/"@ + n@,
            Reference::Default => "refs/default"@,
        }
    }

    /// Renders the qualified display form: `refs/heads/<name>`,
    /// `refs/tags/<name>`, or the sentinel `refs/default`.
    pub fn qualified(&self) -> (r: String)
        ensures
            r@ == self.qualified_spec(),
    {
        match self {
            Reference::Branch(n) => {
                let mut s = "refs/heads/".to_owned();
                s.append(n.as_str());
                s
            },
            Reference::Tag(n) => {
                let mut s = "refs/tags/".to_owned();
                s.append(n.as_str());
                s
            },
            Reference::Default => "refs/default".to_owned(),
        }
    }
}

impl Clone for Reference {
    fn clone(&self) -> (r: Self)
        ensures
            r@ == self@,
    {
        match self {
            Reference::Branch(n) => Reference::Branch(n.clone()),
            Reference::Tag(n) => Reference::Tag(n.clone()),
            Reference::Default => Reference::Default,
        }
    }
}

/// A concrete local branch or tag snapshot: its decoded name and the commit
/// it points at.
pub struct ReferenceInfo {
    pub name: String,
    pub commit: CommitId,
}

impl Clone for ReferenceInfo {
    fn clone(&self) -> (r: Self)
        ensures
            r.name@ == self.name@,
            r.commit@ == self.commit@,
    {
        ReferenceInfo { name: self.name.clone(), commit: self.commit.clone() }
    }
}

/// A reference as read from the repository, before its raw name bytes have
/// been decoded as text.
pub struct RawReference {
    pub name: Vec<u8>,
    pub commit: CommitId,
}

} // verus!
