//! A small ray-casting engine on a wall grid, with the keyboard and
//! tick-cadence logic that drives it and the projection of wall distances
//! into an RGBA frame.
//!
//! Positions and distances are fixed-point numbers of `geometry::UNIT` per
//! grid unit, and angles are binary angles of `geometry::TURN` per turn. The
//! sines come from a `TrigTable` that the host fills once.
pub mod geometry;
pub mod grid;
pub mod keys;
pub mod moving_pixel;
pub mod raycast;
pub mod render;
pub mod schedule;

pub use geometry::{generate_ray_angles, move_forward, move_forward_floored, TrigTable};
pub use grid::GridMap;
pub use keys::{KeySet, KeyTracker, LogicalKey, MyKeys, SystemAction};
pub use moving_pixel::MovingPixel;
pub use raycast::{Command, Heading, PanDirection, World};
pub use render::{draw_centered_column, draw_walls, put_pixel};
pub use schedule::{hz_to_nanosec_period, DoneStatus, IdleAction, TickScheduler};
