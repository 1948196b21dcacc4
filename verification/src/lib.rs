//! Windowed-grid rendering and scroll/animation core for a GUI terminal
//! front-end: ring-buffered row storage with O(1) rotation, a scrollback
//! model that answers virtual-line lookups across current and historical
//! content, lazily rebuilt per-row line caches, fixed-point easing and
//! critically damped spring animation, and per-window compositing of
//! floating windows into ordered draw commands.
//!
//! All fractional quantities (scroll positions, grid coordinates, pixel
//! coordinates, time deltas) are fixed-point integers in thousandths, so
//! that every computation is exact and verifiable.

pub mod animation;
pub mod box_drawing;
pub mod fixed;
pub mod fonts;
pub mod grid;
pub mod grid_renderer;
pub mod images;
pub mod profiling;
pub mod rendered_window;
pub mod renderer;
pub mod ring_buffer;
pub mod scrollback_buffer;
pub mod settings;
pub mod style;
pub mod units;
pub mod vsync;

pub use fixed::SUBUNIT;
