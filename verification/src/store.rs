//! The documents that are kept in the key-value store.

use vstd::prelude::*;

use crate::json;
use crate::model::{AuditLog, AuditLogEntryView, CupHistory};
use crate::roster;
use crate::roster::history_from_roster;
use crate::state;
use crate::state::CupState;

verus! {

/// A document of the store.
#[derive(Clone, Copy, Debug, PartialEq, Eq, Structural)]
pub enum Document {
    State,
    CupHistory,
    AuditLog,
}

/// The name of the store.
pub open spec fn store_name_text() -> Seq<char> {
    "in_season_cup"@
}

/// The name of the store.
pub fn store_name() -> (name: &'static str)
    ensures
        name@ == store_name_text(),
{
    "in_season_cup"
}

impl Document {
    /// The key that the document is stored under.
    pub open spec fn key_text(self) -> Seq<char> {
        match self {
            Document::State => "state"@,
            Document::CupHistory => "cup_history"@,
            Document::AuditLog => "audit_log"@,
        }
    }

    /// What the document is called in messages.
    pub open spec fn noun_text(self) -> Seq<char> {
        match self {
            Document::State => "state"@,
            Document::CupHistory => "history"@,
            Document::AuditLog => "audit log"@,
        }
    }

    /// The key that the document is stored under.
    pub fn key(&self) -> (key: &'static str)
        ensures
            key@ == self.key_text(),
    {
        match self {
            Document::State => "state",
            Document::CupHistory => "cup_history",
            Document::AuditLog => "audit_log",
        }
    }

    fn noun(&self) -> (noun: &'static str)
        ensures
            noun@ == self.noun_text(),
    {
        match self {
            Document::State => "state",
            Document::CupHistory => "history",
            Document::AuditLog => "audit log",
        }
    }
}

/// What a lookup in the store came to.
pub enum Stored<T> {
    /// The document was there.
    Found(T),
    /// There was a text under the key, but it could not be read as the document, for the reason given.
    Unreadable { body: String, reason: String },
    /// The lookup did not succeed.
    Missing,
}

/// The message for a stored text that cannot be read.
pub open spec fn unreadable_text(body: Seq<char>, reason: Seq<char>) -> Seq<char> {
    "Couldn't convert "@ + body + " to json: "@ + reason
}

fn unreadable(body: &str, reason: &str) -> (message: String)
    ensures
        message@ == unreadable_text(body@, reason@),
{
    "Couldn't convert ".to_owned().concat(body).concat(" to json: ").concat(reason)
}

/// The state of the cup: the stored one, or the default where nothing is stored.
pub fn get_cup_state(stored: Stored<CupState>) -> (res: Result<CupState, String>)
    ensures
        match stored {
            Stored::Found(found) => res == Ok::<CupState, String>(found),
            Stored::Unreadable { body, reason } => res matches Err(message) && message@ == unreadable_text(
                body@,
                reason@,
            ),
            Stored::Missing => res matches Ok(fresh) && fresh@ == state::default_state(),
        },
{
    match stored {
        Stored::Found(found) => Ok(found),
        Stored::Unreadable { body, reason } => Err(unreadable(body.as_str(), reason.as_str())),
        Stored::Missing => Ok(CupState::default()),
    }
}

/// The history of the cup: the stored one, or where nothing is stored the one that the roster starts
/// with.
pub fn get_cup_history(stored: Stored<CupHistory>, players_json: &str) -> (res: Result<CupHistory, String>)
    ensures
        match stored {
            Stored::Found(found) => res == Ok::<CupHistory, String>(found),
            Stored::Unreadable { body, reason } => res matches Err(message) && message@ == unreadable_text(
                body@,
                reason@,
            ),
            Stored::Missing => match json::json_from_str(players_json@) {
                Ok(players) => res matches Ok(fresh) && fresh@ == roster::fresh_history(
                    roster::roster_teams(players),
                ),
                Err(reason) => res matches Err(message) && message@ == "Failed to parse players.json: "@ + reason,
            },
        },
{
    match stored {
        Stored::Found(found) => Ok(found),
        Stored::Unreadable { body, reason } => Err(unreadable(body.as_str(), reason.as_str())),
        Stored::Missing => history_from_roster(players_json),
    }
}

/// The audit log: the stored one, or an empty one where nothing is stored.
pub fn get_audit_log(stored: Stored<AuditLog>) -> (res: Result<AuditLog, String>)
    ensures
        match stored {
            Stored::Found(found) => res == Ok::<AuditLog, String>(found),
            Stored::Unreadable { body, reason } => res matches Err(message) && message@ == unreadable_text(
                body@,
                reason@,
            ),
            Stored::Missing => res matches Ok(fresh) && fresh@ == Seq::<AuditLogEntryView>::empty(),
        },
{
    match stored {
        Stored::Found(found) => Ok(found),
        Stored::Unreadable { body, reason } => Err(unreadable(body.as_str(), reason.as_str())),
        Stored::Missing => {
            let fresh = AuditLog { entries: Vec::new() };
            assert(fresh@ =~= Seq::empty());
            Ok(fresh)
        },
    }
}

/// Something to be stored.
pub struct StoreWrite {
    pub key: &'static str,
    pub body: String,
}

/// What to store for a document, once it has been turned into JSON. A document that could not be
/// turned into JSON is an error.
pub fn prepare_write(document: Document, serialized: Result<String, String>) -> (res: Result<StoreWrite, String>)
    ensures
        match serialized {
            Ok(body) => res matches Ok(write) && write.key@ == document.key_text() && write.body@ == body@,
            Err(reason) => res matches Err(message) && message@ == "Couldn't convert "@ + document.noun_text()
                + " to json: "@ + reason@,
        },
{
    match serialized {
        Ok(body) => Ok(StoreWrite { key: document.key(), body }),
        Err(reason) => Err(
            "Couldn't convert ".to_owned().concat(document.noun()).concat(" to json: ").concat(reason.as_str()),
        ),
    }
}

/// What storing a document came to.
pub fn confirm_write(document: Document, outcome: Result<(), String>) -> (res: Result<(), String>)
    ensures
        match outcome {
            Ok(_) => res is Ok,
            Err(reason) => res matches Err(message) && message@ == "Couldn't insert "@ + document.noun_text()
                + " into KV store: "@ + reason@,
        },
{
    match outcome {
        Ok(_) => Ok(()),
        Err(reason) => Err(
            "Couldn't insert ".to_owned().concat(document.noun()).concat(" into KV store: ").concat(
                reason.as_str(),
            ),
        ),
    }
}

/// The document to be written after another one has been, when an update is stored: first the state,
/// then the history, and then the audit log.
pub open spec fn write_after(written: Option<Document>) -> Option<Document> {
    match written {
        None => Some(Document::State),
        Some(Document::State) => Some(Document::CupHistory),
        Some(Document::CupHistory) => Some(Document::AuditLog),
        Some(Document::AuditLog) => None,
    }
}

/// Decides which document is to be written next when an update is stored, given the one that has
/// been written last.
pub fn next_write(written: Option<Document>) -> (res: Option<Document>)
    ensures
        res == write_after(written),
{
    match written {
        None => Some(Document::State),
        Some(Document::State) => Some(Document::CupHistory),
        Some(Document::CupHistory) => Some(Document::AuditLog),
        Some(Document::AuditLog) => None,
    }
}

/// Storing an update writes every document, each of them once, and then ends.
pub proof fn each_document_is_written_once(document: Document)
    ensures
        ({
            let first = write_after(None);
            let second = write_after(first);
            let third = write_after(second);
            &&& first is Some && second is Some && third is Some
            &&& first != second && second != third && third != first
            &&& first == Some(document) || second == Some(document) || third == Some(document)
            &&& write_after(third) is None
        }),
{
}

/// No two documents are stored under the same key.
pub proof fn documents_have_keys_of_their_own(a: Document, b: Document)
    requires
        a != b,
    ensures
        a.key_text() != b.key_text(),
{
    reveal_strlit("state");
    reveal_strlit("cup_history");
    reveal_strlit("audit_log");
    assert(a.key_text().len() != b.key_text().len());
}

/// An update is stored state first, then history, then audit log, and each write but the last is
/// followed by another one.
pub proof fn state_is_written_first(document: Document)
    ensures
        write_after(None) == Some(Document::State),
        write_after(Some(document)) == Some(Document::CupHistory) <==> document == Document::State,
        write_after(Some(document)) == Some(Document::AuditLog) <==> document == Document::CupHistory,
        write_after(Some(document)) is None <==> document == Document::AuditLog,
{
}

/// The store, the keys of its documents, and what they are called in messages.
pub proof fn documents_have_fixed_keys(document: Document)
    ensures
        store_name_text() == "in_season_cup"@,
        document is State ==> document.key_text() == "state"@ && document.noun_text() == "state"@,
        document is CupHistory ==> document.key_text() == "cup_history"@ && document.noun_text() == "history"@,
        document is AuditLog ==> document.key_text() == "audit_log"@ && document.noun_text() == "audit log"@,
{
}

/// The message for a text that cannot be read shows the whole text and the reason.
pub proof fn unreadable_text_shows_text_and_reason(body: Seq<char>, reason: Seq<char>)
    ensures
        unreadable_text(body, reason) == "Couldn't convert "@ + body + " to json: "@ + reason,
{
}

} // verus!
