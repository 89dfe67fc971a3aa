//! Verified core of the waywallen wallpaper daemon: buffer-format
//! negotiation, renderer lifecycle bookkeeping, release ordering, canvas
//! geometry, text parsers and the small decision functions around them.

pub mod negotiate;
pub mod text;
pub mod release;
pub mod slot;
pub mod gpu;
pub mod system_info;
pub mod geometry;
pub mod display_registry;
pub mod i18n;
pub mod subscriptions;
pub mod mpris;
pub mod session;
pub mod process_stdio;
pub mod source_types;
pub mod qr_login;
pub mod auto_replay;
pub mod tasks;
pub mod start_schedule;
pub mod audio;
pub mod routing;
pub mod pcm_window;
pub mod drm_syncobj;
pub mod reaper;
pub mod paths;
pub mod installer;
pub mod reported_state;
pub mod renderer_events;
pub mod deadline;
pub mod btree_order;
pub mod caps_dump;
pub mod media;
pub mod redact;
pub mod settings_resolve;
pub mod autostart;
pub mod art_cache;
pub mod consumption;
pub mod manual;
pub mod audio_slot;
pub mod catalog;
pub mod players;
pub mod settings_flush;
