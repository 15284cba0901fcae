use crate::trusted::extension;
use crate::trusted::lowercase;
use crate::trusted::path_extension;
use crate::trusted::to_lowercase;
use vstd::prelude::*;

verus! {

/// The kind of a media file, as its name tells it.
#[derive(Debug, Copy, Clone, PartialEq, Eq, Hash, Structural)]
pub enum FileKind {
    Video,
    Audio,
    Image,
}

/// Whether a lowercase extension names an image.
pub open spec fn is_image_extension(ext: Seq<char>) -> bool {
    ext == "jpg"@ || ext == "jpeg"@ || ext == "png"@ || ext == "gif"@ || ext == "bmp"@ || ext
        == "webp"@ || ext == "svg"@ || ext == "tiff"@
}

/// Whether a lowercase extension names a video.
pub open spec fn is_video_extension(ext: Seq<char>) -> bool {
    ext == "mp4"@ || ext == "mkv"@ || ext == "webm"@ || ext == "avi"@ || ext == "mov"@ || ext
        == "wmv"@ || ext == "flv"@ || ext == "mpeg"@
}

/// Whether a lowercase extension names an audio file.
pub open spec fn is_audio_extension(ext: Seq<char>) -> bool {
    ext == "mp3"@ || ext == "wav"@ || ext == "ogg"@ || ext == "m4a"@ || ext == "flac"@ || ext
        == "aac"@
}

/// The kind that a lowercase extension names, if it names one.
pub open spec fn kind_of(ext: Seq<char>) -> Option<FileKind> {
    if is_image_extension(ext) {
        Some(FileKind::Image)
    } else if is_video_extension(ext) {
        Some(FileKind::Video)
    } else if is_audio_extension(ext) {
        Some(FileKind::Audio)
    } else {
        None
    }
}

/// The kind of the file at `path`: the kind that its extension names, once
/// made lowercase; none without an extension.
pub open spec fn kind_of_path(path: Seq<char>) -> Option<FileKind> {
    match path_extension(path) {
        Some(ext) => kind_of(lowercase(ext)),
        None => None,
    }
}

impl FileKind {
    /// The kind that an extension in lowercase names.
    pub fn from_lowercase(extension: &str) -> (kind: Option<FileKind>)
        ensures
            kind == kind_of(extension@),
    {
        if extension.eq("jpg") || extension.eq("jpeg") || extension.eq("png") || extension.eq("gif")
            || extension.eq("bmp") || extension.eq("webp") || extension.eq("svg") || extension.eq(
            "tiff",
        ) {
            Some(FileKind::Image)
        } else if extension.eq("mp4") || extension.eq("mkv") || extension.eq("webm")
            || extension.eq("avi") || extension.eq("mov") || extension.eq("wmv") || extension.eq(
            "flv",
        ) || extension.eq("mpeg") {
            Some(FileKind::Video)
        } else if extension.eq("mp3") || extension.eq("wav") || extension.eq("ogg") || extension.eq(
            "m4a",
        ) || extension.eq("flac") || extension.eq("aac") {
            Some(FileKind::Audio)
        } else {
            None
        }
    }

    /// The kind that an extension names, in whatever case it is written.
    pub fn from_extension(extension: &str) -> (kind: Option<FileKind>)
        ensures
            kind == kind_of(lowercase(extension@)),
    {
        let lower = to_lowercase(extension);
        FileKind::from_lowercase(lower.as_str())
    }

    /// The kind of the file at `path`, by its extension.
    pub fn from_path(path: &str) -> (kind: Option<FileKind>)
        ensures
            kind == kind_of_path(path@),
    {
        match extension(path) {
            Some(ext) => FileKind::from_extension(ext.as_str()),
            None => None,
        }
    }
}

} // verus!
