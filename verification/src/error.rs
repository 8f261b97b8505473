//! Errors the library reports.

use vstd::prelude::*;

verus! {

#[verifier::external_type_specification]
#[verifier::external_body]
pub struct ExRilError(ril::Error);

#[verifier::external_type_specification]
#[verifier::external_body]
pub struct ExUrlParseError(url::ParseError);

#[verifier::external_type_specification]
#[verifier::external_body]
pub struct ExImageError(image::ImageError);

/// What can go wrong outside the layout rules themselves.
#[derive(Debug)]
pub enum AppError {
    /// The configuration asks for something that cannot be done.
    InvalidConfigError(&'static str),
    /// An argument, named first, is not what it must be, as said second.
    InvalidArgumentError(&'static str, &'static str),
    /// A location could not be read as a URL.
    UrlParseError(url::ParseError),
    /// Bytes could not be decoded as an image.
    ImageError(image::ImageError),
    /// An error surfaced from the `ril` image processing library.
    RILError(ril::Error),
}

} // verus!
