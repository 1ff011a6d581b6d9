//! The failures of the library: one closed type, each variant with the
//! condition that failed.

use vstd::prelude::*;

use crate::image::Channel;

verus! {

/// What was wrong with the parts a buffer or a kernel was to be built from.
#[derive(Clone, Copy, Debug, PartialEq, Eq, Structural)]
pub enum ConfigFault {
    /// The byte count is not `width * height * channels`.
    DataLength,
    /// The kernel's side is even, so no cell is its centre.
    EvenSize,
    /// The number of weights is not `size * size`.
    WeightCount,
}

/// Which channel layout an operation met and could not work on.
#[derive(Clone, Copy, Debug, PartialEq, Eq, Structural)]
pub enum StateFault {
    /// Grayscale conversion of a buffer that is gray already.
    AlreadyGray,
    /// Channel extraction from a buffer that has no colour channels.
    NotColor,
    /// The gray selector was used on a colour buffer.
    NoSuchChannel,
    /// The plane given for this channel is not a single-channel buffer.
    PlaneNotGray(Channel),
    /// The plane given for this channel is not as wide and high as the red one.
    PlaneShape(Channel),
}

/// Every way in which an operation of this library fails.
#[derive(Clone, Copy, Debug, PartialEq, Eq, Structural)]
pub enum ImageError {
    /// A buffer or a kernel was malformed when it was built or handed in.
    ConfigError(ConfigFault),
    /// An operation met a buffer in the wrong channel layout.
    StateError(StateFault),
    /// A decoded raster is not 8 bits per sample with one or three channels.
    UnsupportedFormatError,
}

impl ImageError {
    /// The text of [`ImageError::message`].
    pub open spec fn text(self) -> Seq<char> {
        match self {
            ImageError::ConfigError(ConfigFault::DataLength) => {
                "the buffer does not hold width * height pixels of its layout"@
            },
            ImageError::ConfigError(ConfigFault::EvenSize) => {
                "the kernel has an even size and so no centre"@
            },
            ImageError::ConfigError(ConfigFault::WeightCount) => {
                "the kernel does not hold size * size weights"@
            },
            ImageError::StateError(StateFault::AlreadyGray) => "the image is already gray"@,
            ImageError::StateError(StateFault::NotColor) => {
                "a channel can only be taken from a colour image"@
            },
            ImageError::StateError(StateFault::NoSuchChannel) => {
                "a colour image has no gray channel"@
            },
            ImageError::StateError(StateFault::PlaneNotGray(Channel::R)) => {
                "the red plane is not a gray image"@
            },
            ImageError::StateError(StateFault::PlaneNotGray(Channel::G)) => {
                "the green plane is not a gray image"@
            },
            ImageError::StateError(StateFault::PlaneNotGray(Channel::B)) => {
                "the blue plane is not a gray image"@
            },
            ImageError::StateError(StateFault::PlaneNotGray(Channel::Gray)) => {
                "a plane is not a gray image"@
            },
            ImageError::StateError(StateFault::PlaneShape(Channel::G)) => {
                "the green plane is not of the red plane's width and height"@
            },
            ImageError::StateError(StateFault::PlaneShape(Channel::B)) => {
                "the blue plane is not of the red plane's width and height"@
            },
            ImageError::StateError(StateFault::PlaneShape(_)) => {
                "the planes are not of one width and height"@
            },
            ImageError::UnsupportedFormatError => {
                "only rasters of 8 bits per sample with 1 or 3 channels are supported"@
            },
        }
    }

    /// Says in words which condition failed, and for which buffer.
    pub fn message(&self) -> (s: String)
        ensures
            s@ == self.text(),
    {
        let text: &str = match self {
            ImageError::ConfigError(ConfigFault::DataLength) => {
                "the buffer does not hold width * height pixels of its layout"
            },
            ImageError::ConfigError(ConfigFault::EvenSize) => {
                "the kernel has an even size and so no centre"
            },
            ImageError::ConfigError(ConfigFault::WeightCount) => {
                "the kernel does not hold size * size weights"
            },
            ImageError::StateError(StateFault::AlreadyGray) => "the image is already gray",
            ImageError::StateError(StateFault::NotColor) => {
                "a channel can only be taken from a colour image"
            },
            ImageError::StateError(StateFault::NoSuchChannel) => {
                "a colour image has no gray channel"
            },
            ImageError::StateError(StateFault::PlaneNotGray(Channel::R)) => {
                "the red plane is not a gray image"
            },
            ImageError::StateError(StateFault::PlaneNotGray(Channel::G)) => {
                "the green plane is not a gray image"
            },
            ImageError::StateError(StateFault::PlaneNotGray(Channel::B)) => {
                "the blue plane is not a gray image"
            },
            ImageError::StateError(StateFault::PlaneNotGray(Channel::Gray)) => {
                "a plane is not a gray image"
            },
            ImageError::StateError(StateFault::PlaneShape(Channel::G)) => {
                "the green plane is not of the red plane's width and height"
            },
            ImageError::StateError(StateFault::PlaneShape(Channel::B)) => {
                "the blue plane is not of the red plane's width and height"
            },
            ImageError::StateError(StateFault::PlaneShape(_)) => {
                "the planes are not of one width and height"
            },
            ImageError::UnsupportedFormatError => {
                "only rasters of 8 bits per sample with 1 or 3 channels are supported"
            },
        };
        text.to_owned()
    }
}

} // verus!
