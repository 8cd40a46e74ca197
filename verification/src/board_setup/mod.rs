pub mod fen;
pub mod laws;
pub mod models;
