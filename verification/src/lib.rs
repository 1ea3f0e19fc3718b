//! A chessboard widget core: board interaction and animation state machine.
//!
//! The crate holds the verified logic of a chessboard UI widget: diffing
//! successive board placements into smooth per-piece animations, the
//! click/drag gesture state machine with its movement threshold, a promotion
//! chooser, an annotation-shape layer, and the top-level controller that
//! routes pointer events and emits user moves. Rendering, asset loading and
//! the chess rules engine stay outside: the host feeds position snapshots in
//! and performs drawing from the plain values this crate hands back.

pub mod board;
pub mod board_state;
pub mod drawable;
pub mod geom;
pub mod ground;
pub mod laws;
pub mod pieces;
pub mod promotable;
pub mod square;

pub use board::Board;
pub use board_state::BoardState;
pub use drawable::{DrawBrush, DrawShape, Drawable};
pub use geom::{BoardPos, BoardRect, PixelRect, Transform};
pub use ground::{Ground, GroundMsg, Pos};
pub use pieces::{Drag, Figurine, Pieces};
pub use promotable::Promotable;
pub use square::{Color, Move, Piece, Role, Square};
