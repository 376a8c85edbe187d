//! Change detection and notification planning for per-weekday substitution schedules.
//!
//! A poll cycle looks at the schedule document of one school day. The tables extracted from
//! the document are read ([`tabula_json_parser`], [`table`]) and built into a schedule
//! ([`schedule`]), which is compared, group by group, with the snapshot stored for the day
//! ([`detector`], [`storage`]). For each watched group that is first seen or changed, every
//! subscriber of the group ([`registry`], [`registration`]) gets a notification
//! ([`notifier`]), and the schedule becomes the new snapshot. The steps of a cycle, and the
//! rule that no two cycles for one day run at once, are in [`driver`].
//!
//! Fetching documents, running the extraction engine, reading and writing files and sending
//! messages are left to the caller.

pub mod detector;
pub mod driver;
pub mod grouping;
pub mod json;
pub mod notifier;
pub mod registration;
pub mod registry;
pub mod schedule;
pub mod storage;
pub mod substitution_pdf_getter;
pub mod table;
pub mod tabula_json_parser;
pub mod text;
pub mod weekday;
