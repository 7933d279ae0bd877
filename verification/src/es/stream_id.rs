//! The 8-bit PES stream identifier and its classification predicates.

use vstd::prelude::*;

use crate::error::ErrorKind;

verus! {

/// Minimum identifier of an audio stream.
pub const AUDIO_MIN: u8 = 0xC0;

/// Maximum identifier of an audio stream.
pub const AUDIO_MAX: u8 = 0xDF;

/// Minimum identifier of a video stream.
pub const VIDEO_MIN: u8 = 0xE0;

/// Maximum identifier of a video stream.
pub const VIDEO_MAX: u8 = 0xEF;

/// Identifier of synchronous KLV metadata (private_stream_1).
pub const KLV_SYNC: u8 = 0xBD;

/// Identifier of asynchronous KLV metadata (metadata_stream).
pub const KLV_ASYNC: u8 = 0xFC;

/// Stream identifier.
#[derive(Debug, Clone, Copy, PartialEq, Eq, Structural, Hash)]
pub struct StreamId(pub u8);

impl StreamId {
    /// Whether `id` identifies an audio stream.
    pub open spec fn spec_is_audio(self) -> bool {
        AUDIO_MIN <= self.0 <= AUDIO_MAX
    }

    /// Whether `id` identifies a video stream.
    pub open spec fn spec_is_video(self) -> bool {
        VIDEO_MIN <= self.0 <= VIDEO_MAX
    }

    /// Whether `id` identifies a synchronous KLV metadata stream.
    pub open spec fn spec_is_sync_klv(self) -> bool {
        self.0 == KLV_SYNC
    }

    /// Whether `id` identifies an asynchronous KLV metadata stream.
    pub open spec fn spec_is_async_klv(self) -> bool {
        self.0 == KLV_ASYNC
    }

    /// Makes a new `StreamId` instance.
    pub fn new(id: u8) -> (r: Self)
        ensures
            r == StreamId(id),
    {
        StreamId(id)
    }

    /// Makes a new `StreamId` instance for an audio stream.
    ///
    /// Returns `ErrorKind::InvalidInput` if `id` is not between `AUDIO_MIN`
    /// and `AUDIO_MAX`.
    pub fn new_audio(id: u8) -> (r: Result<Self, ErrorKind>)
        ensures
            AUDIO_MIN <= id <= AUDIO_MAX ==> r == Ok::<Self, ErrorKind>(StreamId(id)),
            !(AUDIO_MIN <= id <= AUDIO_MAX) ==> r == Err::<Self, ErrorKind>(
                ErrorKind::InvalidInput,
            ),
    {
        if AUDIO_MIN <= id && id <= AUDIO_MAX {
            Ok(StreamId(id))
        } else {
            Err(ErrorKind::InvalidInput)
        }
    }

    /// Makes a new `StreamId` instance for a video stream.
    ///
    /// Returns `ErrorKind::InvalidInput` if `id` is not between `VIDEO_MIN`
    /// and `VIDEO_MAX`.
    pub fn new_video(id: u8) -> (r: Result<Self, ErrorKind>)
        ensures
            VIDEO_MIN <= id <= VIDEO_MAX ==> r == Ok::<Self, ErrorKind>(StreamId(id)),
            !(VIDEO_MIN <= id <= VIDEO_MAX) ==> r == Err::<Self, ErrorKind>(
                ErrorKind::InvalidInput,
            ),
    {
        if VIDEO_MIN <= id && id <= VIDEO_MAX {
            Ok(StreamId(id))
        } else {
            Err(ErrorKind::InvalidInput)
        }
    }

    /// Returns the value of the identifier.
    pub fn as_u8(&self) -> (r: u8)
        ensures
            r == self.0,
    {
        self.0
    }

    /// Returns `true` if it is an audio identifier, otherwise `false`.
    pub fn is_audio(&self) -> (r: bool)
        ensures
            r == self.spec_is_audio(),
    {
        AUDIO_MIN <= self.0 && self.0 <= AUDIO_MAX
    }

    /// Returns `true` if it is a video identifier, otherwise `false`.
    pub fn is_video(&self) -> (r: bool)
        ensures
            r == self.spec_is_video(),
    {
        VIDEO_MIN <= self.0 && self.0 <= VIDEO_MAX
    }

    /// Returns `true` if it is a KLV identifier of either kind, otherwise
    /// `false`.
    pub fn is_klv(&self) -> (r: bool)
        ensures
            r == (self.spec_is_sync_klv() || self.spec_is_async_klv()),
    {
        self.is_sync_klv() || self.is_async_klv()
    }

    /// Returns `true` if it is a synchronous KLV identifier, otherwise
    /// `false`.
    pub fn is_sync_klv(&self) -> (r: bool)
        ensures
            r == self.spec_is_sync_klv(),
    {
        self.0 == KLV_SYNC
    }

    /// Returns `true` if it is an asynchronous KLV identifier, otherwise
    /// `false`.
    pub fn is_async_klv(&self) -> (r: bool)
        ensures
            r == self.spec_is_async_klv(),
    {
        self.0 == KLV_ASYNC
    }
}

} // verus!
