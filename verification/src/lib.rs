//! Editing an Atom feed held on disk: the notation that carries a link and its
//! annotations in one string, and the rules that decide which entries a feed keeps.

pub mod add_command;
pub mod kaboom_feed;
pub mod link;
pub mod meta_command;
pub mod notation;
pub mod ordering;
pub mod prune_command;
pub mod round_trip;
pub mod stringable_link;
pub mod text;
pub mod timestamp;
