[package]
name = "sudoku_game"
version = "0.1.0"
edition = "2021"
publish = false

[dependencies]
macroquad = "0.3"
quad-rand = "0.2"
sudoku = "*"
