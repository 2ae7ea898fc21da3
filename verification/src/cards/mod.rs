//! Queue state to display data.
//!
//! Every surface that asks a human for a decision paints the same cards. What
//! they say is decided here, once: which trust class a host falls into, in
//! which order pills stand, how a body is summarised. Nothing here names a
//! toolkit: colours are tones, and each surface has a palette for them.
//!
//! - [`spans`]: the raw detail with its styles.
//! - [`markup`]: escaping for surfaces that parse markup.
//! - [`pills`]: risk signals as pills.
//! - [`url`]: the URL row and the trust class of a host.
//! - [`effects`] and [`rows`]: the rows beneath the URL.
//! - [`rules`] and [`picker`]: what a new rule would be.
//! - [`card`] and [`resolved`]: whole cards.

pub mod card;
pub mod effects;
pub mod markup;
pub mod picker;
pub mod pills;
pub mod resolved;
pub mod rows;
pub mod rules;
pub mod spans;
pub mod url;
