use vstd::prelude::*;

verus! {

/// Which row notifications of a table with a primary key to route into channels.
#[derive(Debug, Default, Clone, Copy)]
pub struct TableMessages {
    /// Route row insertions as [`crate::InsertMessage`].
    ///
    /// Together with `update`, also routes [`crate::InsertUpdateMessage`].
    pub insert: bool,
    /// Route row updates as [`crate::UpdateMessage`].
    ///
    /// Together with `insert`, also routes [`crate::InsertUpdateMessage`].
    pub update: bool,
    /// Route row deletions as [`crate::DeleteMessage`].
    pub delete: bool,
}

impl TableMessages {
    /// Every notification kind.
    pub fn all() -> (r: Self)
        ensures
            r.insert && r.update && r.delete,
    {
        Self { insert: true, update: true, delete: true }
    }

    /// Insertions and deletions, no updates.
    pub fn no_update() -> (r: Self)
        ensures
            r.insert && !r.update && r.delete,
    {
        Self { insert: true, update: false, delete: true }
    }
}

/// Which row notifications of a table without a primary key to route.
///
/// Such a table has no row identity, so there is no update notification.
#[derive(Debug, Default, Clone, Copy)]
pub struct TableMessagesWithoutPrimaryKey {
    /// Same as [`TableMessages::insert`].
    pub insert: bool,
    /// Same as [`TableMessages::delete`].
    pub delete: bool,
}

impl TableMessagesWithoutPrimaryKey {
    /// Every notification kind available without a primary key.
    pub fn all() -> (r: Self)
        ensures
            r.insert && r.delete,
    {
        Self { insert: true, delete: true }
    }
}

} // verus!
