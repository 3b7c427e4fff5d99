//! Sign-pattern broadcast for fleet federation: each agent of a fleet is
//! reduced to one sign (+1 or -1), and fleets are coupled through those signs.

pub mod sign_pattern;
pub mod bridge;

pub use sign_pattern::SignPattern;
