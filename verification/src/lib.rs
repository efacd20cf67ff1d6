pub mod apply_plan;
pub mod assoc;
pub mod calendar;
pub mod collab;
pub mod compat;
pub mod conflicts;
pub mod encryption;
pub mod error;
pub mod format;
pub mod history;
pub mod ics_roundtrip;
pub mod ids;
pub mod journal;
pub mod interop;
pub mod linking;
pub mod links;
pub mod migrate;
pub mod models;
pub mod ordering;
pub mod paging;
pub mod rows;
pub mod server_history;
pub mod storage;
pub mod text;
pub mod upgrade;
pub mod vcard_roundtrip;
pub mod version_vector;
pub mod ws_sync;
