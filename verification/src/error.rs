//! The errors that the station's operations report.

use vstd::prelude::*;
use vstd::string::*;

use crate::text::{push_decimal, push_decimal_signed};
use crate::text;

verus! {

/// What can go wrong.
#[derive(Debug)]
pub enum CrabError {
    Audio(String),
    Database(String),
    FileNotFound { path: String },
    UnsupportedFormat { format: String },
    Metadata(String),
    Io(String),
    Playlist(String),
    Scheduler(String),
    Library(String),
    /// A schema migration did not apply.
    Migration { version: u32, name: &'static str, source: String },
    /// The database was written by a newer release.
    SchemaTooNew { found: u32, supported: u32 },
    /// Replacing the station lists failed as a whole.
    BulkReplace(String),
    /// A stored value does not read as what its column holds.
    Integrity { table: &'static str, id: String, field: &'static str, value: String },
    /// A cart position off the wall.
    InvalidCartPosition(i32),
}

/// The words that show an error.
pub open spec fn error_text(e: CrabError) -> Seq<char> {
    match e {
        CrabError::Audio(m) => "Audio playback error: "@ + m@,
        CrabError::Database(m) => "Database error: "@ + m@,
        CrabError::FileNotFound { path } => "File not found: "@ + path@,
        CrabError::UnsupportedFormat { format } => "Unsupported format: "@ + format@,
        CrabError::Metadata(m) => "Metadata error: "@ + m@,
        CrabError::Io(m) => "I/O error: "@ + m@,
        CrabError::Playlist(m) => "Playlist error: "@ + m@,
        CrabError::Scheduler(m) => "Scheduler error: "@ + m@,
        CrabError::Library(m) => "Library error: "@ + m@,
        CrabError::Migration { version, name, source } => "Migration v"@ + text::decimal(version as nat)
            + " ("@ + name@ + ") failed: "@ + source@,
        CrabError::SchemaTooNew { found, supported } => "Database schema v"@ + text::decimal(found as nat)
            + " is newer than supported v"@ + text::decimal(supported as nat),
        CrabError::BulkReplace(m) => "Station lists replace failed: "@ + m@,
        CrabError::Integrity { table, id, field, value } => "Integrity error: "@ + table@ + " row "@
            + id@ + " holds a bad "@ + field@ + ": "@ + value@,
        CrabError::InvalidCartPosition(p) => "Invalid cart position: "@ + text::decimal_int(p as int),
    }
}

/// Two texts, one behind the other.
fn two(a: &str, b: &str) -> (s: String)
    ensures
        s@ == a@ + b@,
{
    let mut s = String::new();
    s.append(a);
    s.append(b);
    assert(s@ =~= a@ + b@);
    s
}

impl CrabError {
    /// The words that show this error.
    pub fn message(&self) -> (s: String)
        ensures
            s@ == error_text(*self),
    {
        match self {
            CrabError::Audio(m) => two("Audio playback error: ", m.as_str()),
            CrabError::Database(m) => two("Database error: ", m.as_str()),
            CrabError::FileNotFound { path } => two("File not found: ", path.as_str()),
            CrabError::UnsupportedFormat { format } => two("Unsupported format: ", format.as_str()),
            CrabError::Metadata(m) => two("Metadata error: ", m.as_str()),
            CrabError::Io(m) => two("I/O error: ", m.as_str()),
            CrabError::Playlist(m) => two("Playlist error: ", m.as_str()),
            CrabError::Scheduler(m) => two("Scheduler error: ", m.as_str()),
            CrabError::Library(m) => two("Library error: ", m.as_str()),
            CrabError::Migration { version, name, source } => {
                let mut s = String::from_str("Migration v");
                push_decimal(&mut s, *version as u64);
                s.append(" (");
                s.append(name);
                s.append(") failed: ");
                s.append(source.as_str());
                s
            },
            CrabError::SchemaTooNew { found, supported } => {
                let mut s = String::from_str("Database schema v");
                push_decimal(&mut s, *found as u64);
                s.append(" is newer than supported v");
                push_decimal(&mut s, *supported as u64);
                s
            },
            CrabError::BulkReplace(m) => two("Station lists replace failed: ", m.as_str()),
            CrabError::Integrity { table, id, field, value } => {
                let mut s = String::from_str("Integrity error: ");
                s.append(table);
                s.append(" row ");
                s.append(id.as_str());
                s.append(" holds a bad ");
                s.append(field);
                s.append(": ");
                s.append(value.as_str());
                s
            },
            CrabError::InvalidCartPosition(p) => {
                let mut s = String::from_str("Invalid cart position: ");
                push_decimal_signed(&mut s, *p as i64);
                s
            },
        }
    }
}

/// What is told of an error ends with its reason, whatever went wrong.
pub proof fn errors_tell_their_reason(m: String, version: u32, name: &'static str, found: u32)
    ensures
        text::ends(error_text(CrabError::Audio(m)), m@),
        text::ends(error_text(CrabError::Database(m)), m@),
        text::ends(error_text(CrabError::FileNotFound { path: m }), m@),
        text::ends(error_text(CrabError::UnsupportedFormat { format: m }), m@),
        text::ends(error_text(CrabError::Metadata(m)), m@),
        text::ends(error_text(CrabError::Io(m)), m@),
        text::ends(error_text(CrabError::Playlist(m)), m@),
        text::ends(error_text(CrabError::Scheduler(m)), m@),
        text::ends(error_text(CrabError::Library(m)), m@),
        text::ends(error_text(CrabError::BulkReplace(m)), m@),
        text::ends(error_text(CrabError::Migration { version, name, source: m }), m@),
        text::holds(error_text(CrabError::Migration { version, name, source: m }), name@),
        text::ends(
            error_text(CrabError::SchemaTooNew { found, supported: version }),
            text::decimal(version as nat),
        ),
        text::holds(
            error_text(CrabError::SchemaTooNew { found, supported: version }),
            text::decimal(found as nat),
        ),
{
    lemma_ends("Audio playback error: "@, m@);
    lemma_ends("Database error: "@, m@);
    lemma_ends("File not found: "@, m@);
    lemma_ends("Unsupported format: "@, m@);
    lemma_ends("Metadata error: "@, m@);
    lemma_ends("I/O error: "@, m@);
    lemma_ends("Playlist error: "@, m@);
    lemma_ends("Scheduler error: "@, m@);
    lemma_ends("Library error: "@, m@);
    lemma_ends("Station lists replace failed: "@, m@);
    let a = "Migration v"@ + text::decimal(version as nat) + " ("@;
    lemma_ends(a + name@ + ") failed: "@, m@);
    let w = error_text(CrabError::Migration { version, name, source: m });
    assert(w =~= a + name@ + (") failed: "@ + m@));
    text::middles_are_held(a, name@, ") failed: "@ + m@);
    let d = text::decimal(found as nat);
    let b = "Database schema v"@ + d + " is newer than supported v"@;
    lemma_ends(b, text::decimal(version as nat));
    let x = error_text(CrabError::SchemaTooNew { found, supported: version });
    let tail = " is newer than supported v"@ + text::decimal(version as nat);
    assert(x =~= "Database schema v"@ + d + tail);
    text::middles_are_held("Database schema v"@, d, tail);
}

proof fn lemma_ends(a: Seq<char>, m: Seq<char>)
    ensures
        text::ends(a + m, m),
{
    assert((a + m).skip((a + m).len() - m.len()) =~= m);
}

} // verus!
