//! The collaborative core of a spreadsheet: a grid of sheets that is changed
//! by invertible operations only, with undo and redo, and that is kept in
//! step with a server-ordered sequence of transactions while local
//! transactions are still on their way.
//!
//! The code is verified with Verus against a mathematical model; the three
//! calls into outside crates (a random UUID, the text of a UUID, the clock)
//! stand behind small wrappers whose contracts are taken on trust:
//!
//! - [`position`], [`values`], [`ids`], [`code`]: the plain data of cells.
//! - [`order`]: order keys for sheets, with room for a key between two keys.
//! - [`sheet`], [`grid`]: sheets with their cells and cached bounds, and the
//!   grid that keeps them in order and their names and ids apart.
//! - [`operation`]: operations, transactions and the summary of a change.
//! - [`apply`]: what applying operations means, as functions on the model.
//! - [`laws`]: every effect can be undone exactly and replayed exactly.
//! - [`executor`]: the code that applies operations, all or none.
//! - [`controller`]: user actions, undo and redo, and the replication
//!   protocol, with the laws that hold of every state.
//! - [`formulas`]: references of formulas, and mapping a function over
//!   arrays.
//! - [`rooms`]: the rooms of the collaboration server.
//! - [`js_structs`]: records for the renderer.
//! - [`text`]: numbers and column names as text.

pub mod position;
pub mod text;
pub mod values;
pub mod ids;
pub mod order;
pub mod sheet;
pub mod grid;
pub mod operation;
pub mod apply;
pub mod laws;
pub mod executor;
pub mod controller;
pub mod code;
pub mod js_structs;
pub mod rooms;
pub mod formulas;
