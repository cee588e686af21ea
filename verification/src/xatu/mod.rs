//! Public Xatu datasets: catalog, column projection and normalization.

pub mod catalog;
pub mod column_laws;
pub mod columns;
pub mod dates;
pub mod error;
pub mod frame_laws;
pub mod generic;
pub mod generic_laws;
pub mod generic_projection;
pub mod history;
pub mod identity;
pub mod messages;
pub mod normalize;
pub mod projection;
pub mod projection_laws;
pub mod reading;
pub mod row_laws;
pub mod rows;
pub mod sizes;
