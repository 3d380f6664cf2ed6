//! Ordering, colouring and pacing of point-cloud frames for playback.
//!
//! The crate holds the decisions of a point-cloud player and leaves the
//! reading of files and the talking to a viewer to its caller:
//!
//! * [`resolver`] picks the point-cloud files out of a directory listing and
//!   puts them in the order of the frame numbers in their names, which
//!   [`name`] and [`index`] read out of the paths;
//! * [`color`] turns hue, saturation and value into red, green and blue, and
//!   the elevations of a frame into one colour per point;
//! * [`playback`] says, step by step, what a player has to do next.
//!
//! Every function is verified against the contract written on it. The
//! contracts speak of paths as sequences of characters, of colours as whole
//! numbers, and of a run as the sequence of its events.

pub mod color;
pub mod index;
pub mod name;
pub mod playback;
pub mod resolver;
pub mod text;
