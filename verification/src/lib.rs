pub mod app;
pub mod apps;
pub mod ble;
pub mod buttons;
pub mod charger;
pub mod contacts;
pub mod drawer;
pub mod list;
pub mod pressed;
pub mod text;
pub mod time;
