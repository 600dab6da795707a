//! The one error type of the library and the messages it prints.

use crate::text;
use vstd::prelude::*;

verus! {

/// Everything that can go wrong while building a tile.
#[derive(Clone, Debug)]
pub enum Error {
    /// Zoom outside `[MIN_ZOOM, MAX_ZOOM]` or `x`/`y` outside `[0, 2^zoom)`.
    InvalidTile(String),
    /// Invalid mesh resolution (vertices per edge).
    InvalidResolution(u32),
    /// The provider answered 404 for a required asset.
    NotFound {
        /// The URL that 404'd.
        url: String,
    },
    /// Any other HTTP failure (status, timeout, connection).
    Fetch {
        /// The URL being fetched.
        url: String,
        /// Human-readable cause.
        reason: String,
    },
    /// Bytes that were not a decodable image.
    Decode {
        /// Which asset failed.
        what: String,
        /// Decoder message.
        reason: String,
    },
    /// Cache failure (filesystem or object store read/write).
    Io {
        /// The path or object URL involved.
        path: String,
        /// The message of the underlying error.
        reason: String,
    },
}

/// An [`Error`] with its strings as character sequences.
pub enum ErrorView {
    /// See [`Error::InvalidTile`].
    InvalidTile(Seq<char>),
    /// See [`Error::InvalidResolution`].
    InvalidResolution(u32),
    /// See [`Error::NotFound`].
    NotFound {
        /// The URL that 404'd.
        url: Seq<char>,
    },
    /// See [`Error::Fetch`].
    Fetch {
        /// The URL being fetched.
        url: Seq<char>,
        /// Human-readable cause.
        reason: Seq<char>,
    },
    /// See [`Error::Decode`].
    Decode {
        /// Which asset failed.
        what: Seq<char>,
        /// Decoder message.
        reason: Seq<char>,
    },
    /// See [`Error::Io`].
    Io {
        /// The path or object URL involved.
        path: Seq<char>,
        /// The message of the underlying error.
        reason: Seq<char>,
    },
}

impl View for Error {
    type V = ErrorView;

    open spec fn view(&self) -> ErrorView {
        match *self {
            Error::InvalidTile(s) => ErrorView::InvalidTile(s@),
            Error::InvalidResolution(r) => ErrorView::InvalidResolution(r),
            Error::NotFound { url } => ErrorView::NotFound { url: url@ },
            Error::Fetch { url, reason } => ErrorView::Fetch { url: url@, reason: reason@ },
            Error::Decode { what, reason } => ErrorView::Decode { what: what@, reason: reason@ },
            Error::Io { path, reason } => ErrorView::Io { path: path@, reason: reason@ },
        }
    }
}

impl ErrorView {
    /// The message of this error, as a user reads it.
    pub open spec fn message(self) -> Seq<char> {
        match self {
            ErrorView::InvalidTile(s) => "invalid tile: "@ + s,
            ErrorView::InvalidResolution(r) =>
                "resolution must be in 2..=257 vertices per edge, got "@ + text::decimal_text(
                    r as nat,
                ),
            ErrorView::NotFound { url } => "not found upstream: "@ + url,
            ErrorView::Fetch { url, reason } => "fetch "@ + url + ": "@ + reason,
            ErrorView::Decode { what, reason } => "decode "@ + what + ": "@ + reason,
            ErrorView::Io { path, reason } => "io "@ + path + ": "@ + reason,
        }
    }
}

impl Error {
    /// The message of this error.
    pub fn to_string(&self) -> (out: String)
        ensures
            out@ == self@.message(),
    {
        match self {
            Error::InvalidTile(s) => text::join2("invalid tile: ", s.as_str()),
            Error::InvalidResolution(r) => {
                let n: String = text::decimal(*r as u64);
                text::join2("resolution must be in 2..=257 vertices per edge, got ", n.as_str())
            },
            Error::NotFound { url } => text::join2("not found upstream: ", url.as_str()),
            Error::Fetch { url, reason } => labelled("fetch ", url.as_str(), reason.as_str()),
            Error::Decode { what, reason } => labelled("decode ", what.as_str(), reason.as_str()),
            Error::Io { path, reason } => labelled("io ", path.as_str(), reason.as_str()),
        }
    }
}

/// A byte result with its bytes and its error as models.
pub open spec fn bytes_view(r: Result<Vec<u8>, Error>) -> Result<Seq<u8>, ErrorView> {
    match r {
        Ok(v) => Ok(v@),
        Err(e) => Err(e@),
    }
}

/// `{label}{subject}: {reason}`.
fn labelled(label: &str, subject: &str, reason: &str) -> (out: String)
    ensures
        out@ == label@ + subject@ + ": "@ + reason@,
{
    let mut out: String = text::join3(label, subject, ": ");
    out.append(reason);
    out
}

/// Every message names what it is about and, where there is one, the cause:
/// it ends with them.
pub proof fn law_messages_name_their_subject(e: ErrorView)
    ensures
        match e {
            ErrorView::InvalidTile(s) => text::has_suffix(e.message(), s),
            ErrorView::InvalidResolution(r) => text::has_suffix(
                e.message(),
                text::decimal_text(r as nat),
            ),
            ErrorView::NotFound { url } => text::has_suffix(e.message(), url),
            ErrorView::Fetch { url, reason } => text::has_suffix(
                e.message(),
                url + ": "@ + reason,
            ),
            ErrorView::Decode { what, reason } => text::has_suffix(
                e.message(),
                what + ": "@ + reason,
            ),
            ErrorView::Io { path, reason } => text::has_suffix(
                e.message(),
                path + ": "@ + reason,
            ),
        },
{
    let m = e.message();
    match e {
        ErrorView::InvalidTile(s) => {
            assert(m.skip(m.len() - s.len()) =~= s);
        },
        ErrorView::InvalidResolution(r) => {
            let s = text::decimal_text(r as nat);
            assert(m.skip(m.len() - s.len()) =~= s);
        },
        ErrorView::NotFound { url } => {
            assert(m.skip(m.len() - url.len()) =~= url);
        },
        ErrorView::Fetch { url, reason } => {
            let s = url + ": "@ + reason;
            assert(m.skip(m.len() - s.len()) =~= s);
        },
        ErrorView::Decode { what, reason } => {
            let s = what + ": "@ + reason;
            assert(m.skip(m.len() - s.len()) =~= s);
        },
        ErrorView::Io { path, reason } => {
            let s = path + ": "@ + reason;
            assert(m.skip(m.len() - s.len()) =~= s);
        },
    }
}

} // verus!
