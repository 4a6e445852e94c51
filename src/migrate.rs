//! The schema migrator's plan: from the version marker a store holds, the
//! one step that brings it a version closer to the current schema. Each step
//! runs in its own transaction, so a crash leaves a well-defined version.
use vstd::prelude::*;

use crate::ident::{replace_char, valid_id, ArxivId};
use crate::text::str_eq;

verus! {

/// The schema version this library reads and writes.
pub const TARGET_VERSION: u32 = 5;

/// One step of the migration: the statements to run, in order, then the
/// derived work, then the new version marker.
pub struct Migration {
    pub statements: Vec<String>,
    /// Give every partition the category its name carries.
    pub derive_categories: bool,
    /// Turn the bookmark links into per-record tag files.
    pub convert_bookmarks: bool,
    /// The version marker to write before committing.
    pub new_version: String,
}

/// What the migrator does for a version marker.
pub enum MigrationStep {
    /// The store is current: hand the open transaction over, write nothing.
    Ready,
    Upgrade(Migration),
}

/// Why a store cannot be migrated.
#[derive(Debug, Clone, Copy, PartialEq, Eq)]
pub enum MigrationError {
    /// The marker names no schema version this library knows.
    UnknownVersion,
}

/// The schema version a marker names: one digit from 1 to 5.
pub open spec fn marker_version(m: Seq<char>) -> Option<u32> {
    if m.len() != 1 {
        None
    } else if m[0] == '1' {
        Some(1)
    } else if m[0] == '2' {
        Some(2)
    } else if m[0] == '3' {
        Some(3)
    } else if m[0] == '4' {
        Some(4)
    } else if m[0] == '5' {
        Some(5)
    } else {
        None
    }
}

/// The statements of the step from version `v`.
pub open spec fn step_statements(v: u32) -> Seq<Seq<char>> {
    if v == 1 {
        seq![
            "ALTER TABLE last_update ADD COLUMN resumption_data TEXT"@,
            "DROP TABLE resumption_data"@,
        ]
    } else if v == 2 {
        seq![
            "ALTER TABLE article ADD COLUMN last_change TEXT"@,
            "ALTER TABLE article ADD COLUMN sets TEXT"@,
            "DELETE FROM last_update"@,
        ]
    } else if v == 3 {
        seq![
            "ALTER TABLE last_update RENAME TO set_"@,
            "ALTER TABLE set_ RENAME COLUMN set_ TO name"@,
            "ALTER TABLE set_ ADD COLUMN category TEXT"@,
        ]
    } else {
        Seq::empty()
    }
}

/// The marker of version `v`.
pub open spec fn version_marker(v: u32) -> Seq<char> {
    if v == 1 {
        seq!['1']
    } else if v == 2 {
        seq!['2']
    } else if v == 3 {
        seq!['3']
    } else if v == 4 {
        seq!['4']
    } else {
        seq!['5']
    }
}

/// How many writes a step makes: its statements and the new marker; none for
/// a store that is current.
pub open spec fn planned_writes(s: MigrationStep) -> nat {
    match s {
        MigrationStep::Ready => 0,
        MigrationStep::Upgrade(m) => m.statements@.len() + 1,
    }
}

/// The migration step for the marker `marker`: nothing at all at the current
/// version, one step from an older one, an error for a marker that names no
/// known version.
pub fn upgrade_step(marker: &str) -> (r: Result<MigrationStep, MigrationError>)
    ensures
        match marker_version(marker@) {
            None => r == Err::<MigrationStep, MigrationError>(MigrationError::UnknownVersion),
            Some(v) => if v == TARGET_VERSION {
                r is Ok && r->Ok_0 is Ready && planned_writes(r->Ok_0) == 0
            } else {
                r is Ok && r->Ok_0 is Upgrade && {
                    let m = r->Ok_0->Upgrade_0;
                    &&& planned_writes(r->Ok_0) > 0
                    &&& marker_version(m.new_version@) == Some((v + 1) as u32)
                    &&& m.statements@.map_values(|s: String| s@) == step_statements(v)
                    &&& m.derive_categories == (v == 3)
                    &&& m.convert_bookmarks == (v == 4)
                }
            },
        },
{
    proof {
        reveal_strlit("1");
        reveal_strlit("2");
        reveal_strlit("3");
        reveal_strlit("4");
        reveal_strlit("5");
    }
    if str_eq(marker, "5") {
        return Ok(MigrationStep::Ready);
    }
    let mut statements: Vec<String> = Vec::new();
    let step = if str_eq(marker, "1") {
        statements.push(String::from_str("ALTER TABLE last_update ADD COLUMN resumption_data TEXT"));
        statements.push(String::from_str("DROP TABLE resumption_data"));
        Migration {
            statements,
            derive_categories: false,
            convert_bookmarks: false,
            new_version: String::from_str("2"),
        }
    } else if str_eq(marker, "2") {
        statements.push(String::from_str("ALTER TABLE article ADD COLUMN last_change TEXT"));
        statements.push(String::from_str("ALTER TABLE article ADD COLUMN sets TEXT"));
        statements.push(String::from_str("DELETE FROM last_update"));
        Migration {
            statements,
            derive_categories: false,
            convert_bookmarks: false,
            new_version: String::from_str("3"),
        }
    } else if str_eq(marker, "3") {
        statements.push(String::from_str("ALTER TABLE last_update RENAME TO set_"));
        statements.push(String::from_str("ALTER TABLE set_ RENAME COLUMN set_ TO name"));
        statements.push(String::from_str("ALTER TABLE set_ ADD COLUMN category TEXT"));
        Migration {
            statements,
            derive_categories: true,
            convert_bookmarks: false,
            new_version: String::from_str("4"),
        }
    } else if str_eq(marker, "4") {
        Migration {
            statements,
            derive_categories: false,
            convert_bookmarks: true,
            new_version: String::from_str("5"),
        }
    } else {
        proof {
            if marker@.len() == 1 {
                if marker@[0] == '1' {
                    assert(marker@ =~= "1"@);
                }
                if marker@[0] == '2' {
                    assert(marker@ =~= "2"@);
                }
                if marker@[0] == '3' {
                    assert(marker@ =~= "3"@);
                }
                if marker@[0] == '4' {
                    assert(marker@ =~= "4"@);
                }
                if marker@[0] == '5' {
                    assert(marker@ =~= "5"@);
                }
            }
        }
        return Err(MigrationError::UnknownVersion);
    };
    assert(step.statements@.map_values(|s: String| s@) =~= step_statements(
        marker_version(marker@)->Some_0,
    ));
    Ok(MigrationStep::Upgrade(step))
}

/// The record a bookmark link points at: the link target must be
/// `../articles/<dir>` with `<dir>` the directory name of an identifier.
pub open spec fn bookmark_target(parent: Seq<char>, file_name: Seq<char>) -> Option<Seq<char>> {
    if parent == "../articles"@ && valid_id(replace_char(file_name, '_', '/')) {
        Some(replace_char(file_name, '_', '/'))
    } else {
        None
    }
}

/// Reads the record a bookmark link points at from the link target's parent
/// directory and file name.
pub fn bookmark_target_id(parent: &str, file_name: &str) -> (r: Option<ArxivId>)
    ensures
        match bookmark_target(parent@, file_name@) {
            Some(id) => r is Some && r->Some_0@ == id,
            None => r is None,
        },
{
    if !str_eq(parent, "../articles") {
        return None;
    }
    ArxivId::from_dir_name(file_name)
}

} // verus!
