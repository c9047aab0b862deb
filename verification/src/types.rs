//! The records that the image operations hand back.

use vstd::prelude::*;
use crate::exif::ExifMap;

verus! {

/// What `info` reports of an image file.
#[derive(Debug)]
pub struct ImageInfo {
    pub width: u32,
    pub height: u32,
    /// The canonical format name, by the file's extension.
    pub format: String,
    /// The file's size in bytes.
    pub size: u64,
    pub has_alpha: bool,
    /// The EXIF tags, for JPEG and TIFF files that carry them.
    pub exif: Option<ExifMap>,
}

/// A thumbnail: PNG bytes in standard base64, and the thumbnail's size.
#[derive(Debug)]
pub struct ImageThumbnail {
    pub data: String,
    pub width: u32,
    pub height: u32,
}

/// One encoded frame: JPEG bytes in standard base64, and the frame's size.
#[derive(Debug, Clone)]
pub struct FrameJpeg {
    pub base64: String,
    pub width: u32,
    pub height: u32,
}

} // verus!
