pub mod text;
pub mod assoc;
pub mod ids;
pub mod actions;
pub mod source;
pub mod midi;
pub mod config;
pub mod pipewire;
pub mod feedback;
pub mod edit;
pub mod software;
pub mod device;
pub mod ui;
pub mod session;
pub mod editor;
pub mod navigation;
pub mod dispatch;
pub mod normalize;
pub mod jobs;
pub mod picker;
pub mod laws;
