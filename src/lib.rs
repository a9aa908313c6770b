//! Keeps a local file of userstyle settings in step with the userstyles
//! site: reads the settings document, fills in missing settings from the
//! site's metadata, writes the document back and builds the render requests.
pub mod config;
pub mod decimal;
pub mod metadata;
pub mod model;
pub mod render;

pub use config::{load_config, parse_config, save_style_settings, ConfigError};
pub use metadata::{get_style_settings, settings_from_info, update_style_settings, FetchError};
pub use model::{find_settings_val, styles_needing_settings, Setting, Style};
pub use render::{get_style_body, get_style_uri, metadata_uri};
