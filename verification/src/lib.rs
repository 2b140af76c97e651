//! Recording of timestamped telemetry samples: the sample catalog and its text
//! form, the store that collects records, the framed link between a collector
//! and a producer, and the sparse tabular export.

pub mod client;
pub mod command;
pub mod data_types;
pub mod decimal;
pub mod entry;
pub mod error;
pub mod export;
pub mod frame;
pub mod numerals;
pub mod rows;
pub mod server;
pub mod store;

pub use command::{Command, Direction};
pub use entry::Data;
pub use store::{
    add_command, add_comment, clear_data, delete_data, get_data_name, get_left_total_distance,
    get_rec_data, get_rec_index, get_rec_len, get_rec_start_time, get_right_total_distance,
    get_time, save_data, save_record_data, set_server, update_total_distance, write_data, RecData,
    Recorder,
};
