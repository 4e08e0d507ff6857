//! Expression trees and what walks them.

pub mod expr;
pub mod laws;
