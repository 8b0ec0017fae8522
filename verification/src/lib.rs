//! Desktop-entry parsing and freedesktop-style icon resolution.
//!
//! The library parses `.desktop` descriptor files into structured records,
//! classifies icon asset paths by extension, resolves a descriptor's icon
//! field into candidate asset paths, and fixes where rasterized vector
//! icons land. All path and text manipulation is verified; filesystem and
//! environment access stay with the caller, which hands in plain values.

mod desktop;
mod discover;
mod icon;
mod paths;
mod raster;
mod resolve;

pub use desktop::apply_desktop_line;
pub use desktop::DesktopFile;
pub use desktop::DesktopFileView;
pub use desktop::empty_descriptor;
pub use desktop::lemma_parse_keeps_path;
pub use desktop::line_skipped;
pub use desktop::parse_desktop_lines;
pub use desktop::parse_lines_from;
pub use desktop::spec_parse_desktop;
pub use desktop::split_categories;
pub use desktop::split_once_eq;
pub use desktop::split_semicolons;

pub use discover::application_roots;
pub use discover::desktop_paths_of;
pub use discover::filter_desktop_paths;
pub use discover::lemma_desktop_paths_come_from_walk;
pub use discover::lemma_filter_desktop_paths_distinct;
pub use discover::spec_application_roots;
pub use discover::spec_default_data_dirs;

pub use icon::classify_of;
pub use icon::Icon;
pub use icon::IconView;
pub use icon::ProcessStep;
pub use icon::ProcessStepView;
pub use icon::RawIconType;
pub use icon::RawIconView;

pub use paths::extension;
pub use paths::extension_of;
pub use paths::file_name;
pub use paths::file_name_of;
pub use paths::file_stem;
pub use paths::file_stem_of;
pub use paths::join_path;
pub use paths::prefix_without;
pub use paths::spec_join;
pub use paths::suffix_without;
pub use paths::with_extension;
pub use paths::with_extension_of;

pub use raster::png_output_path;
pub use raster::spec_png_output_path;

pub use resolve::candidates_from_entries;
pub use resolve::dirs_for_root;
pub use resolve::icon_theme;
pub use resolve::lemma_direct_path_short_circuits;
pub use resolve::lemma_no_icon_resolves_empty;
pub use resolve::matched_candidates_of;
pub use resolve::spec_icon_sizes;
pub use resolve::spec_icon_theme;
pub use resolve::spec_raw_icons;
pub use resolve::spec_theme_search_dirs;
pub use resolve::split_colons;
pub use resolve::split_colons_of;
pub use resolve::theme_dir_of;
pub use resolve::theme_dirs_of;
pub use resolve::theme_search_dirs;
