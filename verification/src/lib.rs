//! Simulation core of an idle game built from rotating rings of coloured
//! sockets.
//!
//! Every ring sweeps its sockets once per cycle. A socket that the hand of
//! its ring passes fires, if its cooldown lets it, and what its orb scores
//! is paid into the wallet when the cycle ends. The wallet buys upgrades:
//! sockets, colours, rings, and stronger orbs.
//!
//! The whole state is one [`game::Game`]; every step takes it, or a part
//! of it, and the time as whole microseconds. Nothing here draws, plays a
//! sound or reads a clock. The contracts speak of the mathematical
//! content of the state, [`game::GameView`].
//!
//! - [`bignum`], [`notation`]: amounts of any size, and how they are written
//! - [`color`]: the table of what each colour of orb means
//! - [`ring`], [`grid`]: rings, sockets, and the spiral they are laid out on
//! - [`cycle`], [`settle`], [`progress`]: firing, the end of a cycle, a tick
//! - [`upgrade`], [`unlocks`], [`shop`]: prices, rules of the shop, buying
//! - [`hotbar`], [`display`]: the chosen colour, and what is shown in words

pub mod bignum;
pub mod color;
pub mod cycle;
pub mod display;
pub mod game;
pub mod grid;
pub mod hotbar;
pub mod notation;
pub mod progress;
pub mod ring;
pub mod settle;
pub mod shop;
pub mod unlocks;
pub mod upgrade;
