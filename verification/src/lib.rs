pub mod text;
pub mod date;
pub mod settings;
pub mod timer;
pub mod history;
pub mod stats;
pub mod form;
pub mod pomodoro;
pub mod display;
