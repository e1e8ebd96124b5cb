//! Core of a photo-culling tool: preview path derivation, the shared preview
//! status map with its wakeup protocol, the generation dispatch rules, the
//! preview server's decisions and the culling workflow's plan.

pub mod culling;
pub mod dispatch;
pub mod image;
pub mod paths;
pub mod server;
pub mod status;
pub mod wakeup;

pub use culling::{
    check_finish, decimal_string, edit_folder, file_actions, finish_actions, join, needs_write,
    plan_finish, FileAction, FinishError,
};
pub use dispatch::{
    complete_job, conversion_args, plan_job, pool_size, registrations, schedule_order,
    worker_count, GenerationError, JobStep, RESERVED_CORES,
};
pub use image::{open_images, sort_by_created, CullState, Image, OpenError, Timestamp};
pub use paths::{file_name, get_preview_path, preview_path_in, sidecar_path, PreviewDir};
pub use server::{
    immediate_status, preview_step, serve_step, stream_status, uptime_unit, QueryParams, ServeStep, UptimeUnit,
    PREVIEW_CONTENT_TYPE, STATUS_NOT_FOUND, STATUS_OK, STATUS_SERVER_ERROR,
};
pub use status::{Lookup, SlotView, StatusMap};
pub use wakeup::{completion_step, CompletionStep, ReaderPhase, SlotEvent, WakeupSlot};
