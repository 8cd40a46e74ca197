pub mod board_setup;
pub mod chess_bot;
pub mod config;
pub mod game_state;
pub mod move_generator;
pub mod move_register;
pub mod opening_book;
pub mod text;
