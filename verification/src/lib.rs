//! Two-body Kepler propagation over a tree of celestial bodies.
//!
//! The crate models orbital elements in fixed-point integer units so that
//! every computation carries an exact contract: angles are held in
//! femto-degrees (`10^-15` degree), eccentricity in femto-units
//! (`10^15` is `1.0`), lengths in whole kilometres.  A document in a
//! key-value mapping format is loaded into a tree of [`celestial::Object`]
//! values, and [`orbital::OrbitalParameters::step_forward`] advances the
//! mean anomaly of every body by an elapsed number of seconds.

pub mod num;
pub mod celestial;
pub mod doc;
pub mod loader;
pub mod orbital;
pub mod solver;
pub mod timestep;
pub mod yaml;
