//! Pricing of card-game decklists.
//!
//! A decklist is free-form text with one `<quantity> <card name>` entry per
//! line. The library parses and validates the lines, orders the entries,
//! decides what each price lookup means for the report, and adds up the
//! total. Looking a card up, and waiting between two lookups, is left to the
//! caller: the library says what to ask for and takes the answer back.

pub mod entry;
pub mod lines;
pub mod normalize;
pub mod order;
pub mod pipeline;
pub mod price;
pub mod report;
pub mod resolve;
pub mod text;
