//! A viewer for ESC/POS print jobs: what a receipt printer would print, laid out and drawn.

pub mod app_icon;
pub mod barcode;
pub mod hex_dump;
pub mod image;
pub mod labels;
pub mod layout;
pub mod model;
pub mod printer_setup;
pub mod qr;
pub mod startup;
pub mod tcp_capture;
pub mod text;
pub mod tray;
pub mod viewer;
pub mod window_control;
