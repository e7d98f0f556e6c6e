use vstd::prelude::*;

pub mod text;
pub mod hub;
pub mod order;
pub mod link;
pub mod number;
pub mod calendar;
pub mod db;
pub mod context;
pub mod ics;
pub mod card;
pub mod delivery;
pub mod commit;
pub mod gate;
pub mod doc;
pub mod owner;
pub mod activity;
pub mod kasl;
pub mod paint;
pub mod profile;
pub mod mcp;
pub mod import;
pub mod open;
pub mod line;
pub mod adopt;
pub mod answers;
pub mod moment;
pub mod page;
pub mod recorded;
pub mod record;
pub mod pen;
pub mod doctor;
pub mod retro;

verus! {
} // verus!
