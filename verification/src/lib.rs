//! Bookkeeping for windows that are parked on a hidden workspace.
//!
//! - `record`: what is remembered of one minimized window.
//! - `codec`: the text format in which the records are stored, with what
//!   reading back a written collection gives in `codec_laws`.
//! - `info`: flat key and value attributes, as the window manager reports
//!   them and as a stored record holds them.
//! - `registry`: the records in the order of their minimizing.
//! - `icons`: the glyph that stands for an application.
//! - `workflow`: the decisions of the minimize and restore commands, with
//!   what holds of the registry whatever commands are run in
//!   `workflow_laws`.
//! - `steps`: the two commands as state machines, for a caller that talks to
//!   the window manager.
//! - `text`, `text_laws`, `number`: trimming, searching, splitting and
//!   decimal numbers.

pub mod codec;
pub mod codec_laws;
pub mod icons;
pub mod info;
pub mod number;
pub mod record;
pub mod registry;
pub mod steps;
pub mod text;
pub mod text_laws;
pub mod workflow;
pub mod workflow_laws;
