use vstd::prelude::*;

verus! {

/// What a change that the file watcher reports did to a file.
#[derive(Debug, Clone, Copy, PartialEq, Eq, Structural)]
pub enum ChangeKind {
    Create,
    Modify,
    Remove,
    Access,
    Other,
}

/// Whether a change of this kind calls for a rebuild: creating, modifying or
/// removing a file does; reading one does not.
pub fn triggers_rebuild(kind: ChangeKind) -> (r: bool)
    ensures
        r == (kind == ChangeKind::Create || kind == ChangeKind::Modify || kind
            == ChangeKind::Remove),
{
    match kind {
        ChangeKind::Create | ChangeKind::Modify | ChangeKind::Remove => true,
        ChangeKind::Access | ChangeKind::Other => false,
    }
}

} // verus!
