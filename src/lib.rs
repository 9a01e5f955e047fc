//! Movement, collision and bit-mutation engine of a tile puzzle in which a
//! boxfish carries a row of boolean registers through logic gates.

pub mod coords;
pub mod travel;
pub mod collision;
pub mod gate;
pub mod stage_manager;
pub mod boxfish;
pub mod stage;
