//! Verified core of an analyzer for rocket test logs: CAN traffic and its object dictionary,
//! telemetry series, the panes that show them, and the figures exported from them.
//!
//! Instants and spans are integers, in microseconds. Measured values are carried as IEEE-754
//! bit patterns ([`double::Double`]): the library orders and selects them, and leaves the
//! arithmetic on them to its callers.
pub mod assoc;
pub mod shortcuts;
pub mod sidebar;
pub mod tank;
pub mod text;
pub mod text_laws;
pub mod timeline;
pub mod timeline_laws;
pub mod keyed;
pub mod can;
pub mod can_builder;
pub mod canopen_inspector;
pub mod clock;
pub mod export;
pub mod import;
pub mod mavlink_meta;
pub mod colors;
pub mod correction;
pub mod model;
pub mod n2o;
pub mod units;
pub mod vapor;
pub mod view_laws;
pub mod wire;
pub mod wire_laws;
pub mod workspace;
pub mod xml;
pub mod order;
pub mod pane_laws;
pub mod plot_laws;
pub mod panes;
pub mod media_view;
pub mod picker;
pub mod playback;
pub mod plot_view;
pub mod dialect;
pub mod double;
pub mod schema_laws;
pub mod series;
pub mod series_laws;
pub mod workspace_laws;
pub mod list_laws;
pub mod session_laws;
