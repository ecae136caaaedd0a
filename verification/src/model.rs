//! The objects a workspace is made of, as the rules read them. UUIDs are held as their
//! 128-bit values; hybrid logical clocks, order keys, layouts and styles as the text they
//! are stored and compared as.

use vstd::prelude::*;

verus! {

/// Whether a UUID names a page or a block.
#[derive(Debug, Clone, Copy, PartialEq, Eq, Structural)]
pub enum ObjectKind {
    Page,
    Block,
}

/// The calendar day a journal page belongs to.
#[derive(Debug, Clone, Copy, PartialEq, Eq, Structural)]
pub struct JournalDate {
    pub year: i32,
    pub month: u8,
    pub day: u8,
}

/// The immutable kind a page UUID is reserved for.
#[derive(Debug, Clone, Copy, PartialEq, Eq, Structural)]
pub enum PageKind {
    Note,
    Handwriting,
    Journal { date: JournalDate },
}

impl PageKind {
    pub fn is_journal(&self) -> (r: bool)
        ensures
            r == (*self is Journal),
    {
        match self {
            PageKind::Journal { .. } => true,
            _ => false,
        }
    }
}

/// The page or block an attachment belongs to.
#[derive(Debug, Clone, Copy, PartialEq, Eq, Structural)]
pub enum AttachmentOwner {
    Page(u128),
    Block(u128),
}

pub open spec fn owner_kind(owner: AttachmentOwner) -> ObjectKind {
    match owner {
        AttachmentOwner::Page(_) => ObjectKind::Page,
        AttachmentOwner::Block(_) => ObjectKind::Block,
    }
}

pub open spec fn owner_uuid(owner: AttachmentOwner) -> u128 {
    match owner {
        AttachmentOwner::Page(u) => u,
        AttachmentOwner::Block(u) => u,
    }
}

impl AttachmentOwner {
    pub fn kind(&self) -> (r: ObjectKind)
        ensures
            r == owner_kind(*self),
    {
        match self {
            AttachmentOwner::Page(_) => ObjectKind::Page,
            AttachmentOwner::Block(_) => ObjectKind::Block,
        }
    }

    pub fn uuid(&self) -> (r: u128)
        ensures
            r == owner_uuid(*self),
    {
        match self {
            AttachmentOwner::Page(u) => *u,
            AttachmentOwner::Block(u) => *u,
        }
    }
}

} // verus!
