//! Verified core logic of Slint's back-key tracking, layer-shell surface
//! bookkeeping, software pixel packing, font registration and builtin file
//! lookup.

pub mod back_key_state;
pub mod text;
pub mod paths;
pub mod lookup;
pub mod fileaccess;
pub mod layer_shell;
pub mod sw_layer;
pub mod sharedfontique;
pub mod collect_custom_fonts;
pub mod path_map;
