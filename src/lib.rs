//! Safe handles to the tracks of a host sequence: which instrument each track
//! is bound to, who may replace it, and how a track's note events are read back
//! from the host one index at a time.

pub mod note;
pub mod scan;
pub mod sequence;
pub mod track;
