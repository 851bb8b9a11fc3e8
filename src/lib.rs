//! Rendering pipeline of an analytics chat bot: output-format hints in a
//! question, the HTML reply for a query result, CSV and text-table export,
//! message segmentation, chart planning and reply-button action tokens.

pub mod action;
pub mod api;
pub mod chart;
pub mod dispatch;
pub mod export;
pub mod hints;
pub mod render;
pub mod segment;
pub mod text;
