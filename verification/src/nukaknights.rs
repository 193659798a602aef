//! The Nuka Knights fan site: the event calendar, the Minerva schedule and
//! inventory, and the home page's challenge, Daily Ops, nuke-code and
//! season widgets.

pub mod events;
pub mod home;
pub mod minerva;
