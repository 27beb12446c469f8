//! Errors of the pipeline, with the messages they are shown with.
use vstd::prelude::*;

verus! {

/// What can go wrong while producing subtitles. The last three variants
/// carry the message of the database, HTTP or I/O error that caused them.
#[derive(Debug, Clone)]
pub enum SubsForgeError {
    Ffmpeg(String),
    Whisper(String),
    Translation(String),
    SrtParse(String),
    FileNotFound(String),
    PathMapping(String),
    Database(String),
    Http(String),
    Io(String),
}

/// An error as a mathematical value.
pub enum ErrorView {
    Ffmpeg(Seq<char>),
    Whisper(Seq<char>),
    Translation(Seq<char>),
    SrtParse(Seq<char>),
    FileNotFound(Seq<char>),
    PathMapping(Seq<char>),
    Database(Seq<char>),
    Http(Seq<char>),
    Io(Seq<char>),
}

impl View for SubsForgeError {
    type V = ErrorView;

    open spec fn view(&self) -> ErrorView {
        match self {
            SubsForgeError::Ffmpeg(m) => ErrorView::Ffmpeg(m@),
            SubsForgeError::Whisper(m) => ErrorView::Whisper(m@),
            SubsForgeError::Translation(m) => ErrorView::Translation(m@),
            SubsForgeError::SrtParse(m) => ErrorView::SrtParse(m@),
            SubsForgeError::FileNotFound(m) => ErrorView::FileNotFound(m@),
            SubsForgeError::PathMapping(m) => ErrorView::PathMapping(m@),
            SubsForgeError::Database(m) => ErrorView::Database(m@),
            SubsForgeError::Http(m) => ErrorView::Http(m@),
            SubsForgeError::Io(m) => ErrorView::Io(m@),
        }
    }
}

/// The text an error is displayed as.
pub open spec fn message_of(e: ErrorView) -> Seq<char> {
    match e {
        ErrorView::Ffmpeg(m) => "ffmpeg failed: "@ + m,
        ErrorView::Whisper(m) => "whisper failed: "@ + m,
        ErrorView::Translation(m) => "translation failed: "@ + m,
        ErrorView::SrtParse(m) => "SRT parse error: "@ + m,
        ErrorView::FileNotFound(m) => "file not found: "@ + m,
        ErrorView::PathMapping(m) => "path mapping failed: remote path "@ + m
            + " has no matching local mount"@,
        ErrorView::Database(m) => "database error: "@ + m,
        ErrorView::Http(m) => "HTTP error: "@ + m,
        ErrorView::Io(m) => "IO error: "@ + m,
    }
}

/// The text the error `e` is displayed as.
pub open spec fn error_message(e: SubsForgeError) -> Seq<char> {
    message_of(e@)
}

fn prefixed(prefix: &str, m: &String) -> (r: String)
    ensures
        r@ == prefix@ + m@,
{
    let mut r = String::from_str(prefix);
    r.append(m.as_str());
    r
}

impl SubsForgeError {
    /// The text this error is displayed as.
    pub fn message(&self) -> (r: String)
        ensures
            r@ == error_message(*self),
    {
        match self {
            SubsForgeError::Ffmpeg(m) => prefixed("ffmpeg failed: ", m),
            SubsForgeError::Whisper(m) => prefixed("whisper failed: ", m),
            SubsForgeError::Translation(m) => prefixed("translation failed: ", m),
            SubsForgeError::SrtParse(m) => prefixed("SRT parse error: ", m),
            SubsForgeError::FileNotFound(m) => prefixed("file not found: ", m),
            SubsForgeError::PathMapping(m) => {
                let mut r = prefixed("path mapping failed: remote path ", m);
                r.append(" has no matching local mount");
                r
            },
            SubsForgeError::Database(m) => prefixed("database error: ", m),
            SubsForgeError::Http(m) => prefixed("HTTP error: ", m),
            SubsForgeError::Io(m) => prefixed("IO error: ", m),
        }
    }
}

} // verus!
