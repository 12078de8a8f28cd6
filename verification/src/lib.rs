//! Mod registry, load-order resolution and launch-script generation for a
//! family of strategy games.

pub mod enrichment;
pub mod frontend_types;
pub mod game_config;
pub mod games;
pub mod launch_options;
pub mod load_order;
pub mod map_pack;
pub mod mods;
pub mod paths;
pub mod scan;
pub mod secondary;
pub mod seqs;
pub mod settings;
pub mod steam;
pub mod store;
pub mod text;
pub mod updater;
