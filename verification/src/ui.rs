//! Event types for communication with a graphical front end. The front end
//! itself is an external collaborator; these are the plain values it
//! exchanges with the mediation layer.

use vstd::prelude::*;

verus! {

/// One event reported to the front end.
#[derive(Clone)]
pub enum UiEvent {
    WorkspaceSelected { path: String, id: String },
    FilesListed { entries: Vec<String> },
    FileRead { path: String, content: String },
    NetworkFetched { url: String, response: String },
    AuditEvent { message: String },
    Error { message: String },
}

} // verus!
