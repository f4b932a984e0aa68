//! The verified core of a scrollable panel of widgets: the widget tree it searches,
//! how it is configured and built, and what it does on an event and on a draw.
pub mod widget;
pub mod panel;
pub mod plan;
