//! Verified core of the PlotX spectroscopy workbench.
pub mod constraints;
pub mod xps;
pub mod xrd;
pub mod xrd_container;
pub mod bootstrap;
pub mod provenance;
pub mod text;
pub mod vamas;
pub mod ribbon;
pub mod xps_session;
pub mod ui_state;
pub mod gesture;
pub mod card_layout;
pub mod sidebars;
pub mod fonts;
pub mod vamas_report;
