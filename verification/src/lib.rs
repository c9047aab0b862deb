//! Image-processing primitives with verified contracts: telling formats by
//! extension and by magic bytes, MIME types, data URLs, base64, a minimal
//! EXIF reader, and the decisions behind image operations (crop bounds,
//! rotations, filters, export settings, frame encoding).

pub mod codec;
pub mod data_url;
pub mod exif;
pub mod format;
pub mod frame;
pub mod mime;
pub mod ops;
pub mod text;
pub mod types;

pub use codec::{base64_decode_padded, base64_fits, standard_base64};
pub use data_url::{decode_data_url, encode_data_url, DataUrl};
pub use exif::{exif_read_faults, parse_exif_minimal, read_basic_exif, ExifMap};
pub use format::{
    detect_format, format_from_extension, parse_format, parse_format_kind, source_format, ImageKind,
};
pub use frame::{
    check_frame, encode_frame_jpeg, frame_encode_fits, frame_needs_downscale, frame_quality,
    frame_scale_fits, frame_target_size, try_encode_frame_jpeg,
};
pub use mime::{ext_for_mime, mime_for_ext, sniff_format};
pub use ops::{
    check_crop, export_quality, filter_for_name, format_carries_exif, invert_rgba, plan_export,
    prepare_save, rotation_for, thumbnail_size, ExportPlan, Filter, Rotation,
};
pub use types::{FrameJpeg, ImageInfo, ImageThumbnail};
