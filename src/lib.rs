//! Core of a code editor's native backend: the language-server gateway
//! (Content-Length framing, request correlation, message routing and the
//! server registry), document-symbol extraction and the file clipboard.

use vstd::prelude::*;

pub mod bytes;
pub mod clipboard;
pub mod correlator;
pub mod decimal;
pub mod framing;
pub mod gateway;
pub mod header;
pub mod registry;
pub mod router;
pub mod search;
pub mod session;
pub mod shutdown;
pub mod symbols;
pub mod terminal;
pub mod text;
pub mod workspace;

verus! {

} // verus!
