//! Decision logic of a C-41 negative darkroom.

pub mod aces;
pub mod aspect;
pub mod auto;
pub mod auto_crop;
pub mod auto_report;
pub mod blur_laws;
pub mod bujack;
pub mod calibration;
pub mod canvas;
pub mod canvas_laws;
pub mod chart_laws;
pub mod cms;
pub mod color;
pub mod color_space;
pub mod colour_laws;
pub mod contact_sheet;
pub mod crop_laws;
pub mod crop_score;
pub mod curve;
pub mod dmin_text;
pub mod dust;
pub mod export;
pub mod film;
pub mod frame;
pub mod frame_laws;
pub mod gates;
pub mod geometry;
pub mod grade_laws;
pub mod histogram;
pub mod jobs;
pub mod lab_laws;
pub mod metrics;
pub mod near;
pub mod numerals;
pub mod options;
pub mod options_key;
pub mod orient;
pub mod panels;
pub mod paper;
pub mod picture_laws;
pub mod pictures;
pub mod preview;
pub mod preview_job;
pub mod print_laws;
pub mod project;
pub mod readout;
pub mod runs;
pub mod score_laws;
pub mod search;
pub mod session;
pub mod settings;
pub mod single;
pub mod sliders;
pub mod sprockets;
pub mod stats;
pub mod surround;
pub mod text;
pub mod tile_cache;
pub mod tile_job;
pub mod tiles;
pub mod tune_laws;
pub mod turns;
pub mod unsaved;
pub mod view;
pub mod workbench;
