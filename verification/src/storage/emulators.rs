//! Configured emulators and their sync settings (which categories to sync).
use vstd::prelude::*;

verus! {

/// Sync categories enabled for an emulator. Default: all on.
#[derive(Debug, Clone, Copy, PartialEq, Eq, Structural)]
pub struct SyncCategories {
    pub saves: bool,
    pub savestates: bool,
    pub config: bool,
}

impl Default for SyncCategories {
    fn default() -> (r: Self)
        ensures
            r == (SyncCategories { saves: true, savestates: true, config: true }),
    {
        SyncCategories { saves: true, savestates: true, config: true }
    }
}

impl SyncCategories {
    /// The categories stored in a row of integer flags (non-zero means on).
    pub fn from_row(saves: i64, savestates: i64, config: i64) -> (r: Self)
        ensures
            r == (SyncCategories { saves: saves != 0, savestates: savestates != 0, config: config != 0 }),
    {
        SyncCategories { saves: saves != 0, savestates: savestates != 0, config: config != 0 }
    }

    /// The row of integer flags stored for these categories.
    pub fn to_row(&self) -> (r: (i64, i64, i64))
        ensures
            r == (
                if self.saves { 1i64 } else { 0i64 },
                if self.savestates { 1i64 } else { 0i64 },
                if self.config { 1i64 } else { 0i64 },
            ),
    {
        (
            if self.saves { 1 } else { 0 },
            if self.savestates { 1 } else { 0 },
            if self.config { 1 } else { 0 },
        )
    }

    /// The categories of an emulator: the stored ones, or all on if it was
    /// never configured.
    pub fn or_default(stored: Option<SyncCategories>) -> (r: Self)
        ensures
            r == match stored {
                Some(c) => c,
                None => SyncCategories { saves: true, savestates: true, config: true },
            },
    {
        match stored {
            Some(c) => c,
            None => SyncCategories::default(),
        }
    }
}

/// Categories are read back as written.
pub proof fn lemma_categories_row_roundtrip(c: SyncCategories)
    ensures
        ({
            let r = (
                if c.saves { 1i64 } else { 0i64 },
                if c.savestates { 1i64 } else { 0i64 },
                if c.config { 1i64 } else { 0i64 },
            );
            (SyncCategories { saves: r.0 != 0, savestates: r.1 != 0, config: r.2 != 0 }) == c
        }),
{
}

} // verus!
