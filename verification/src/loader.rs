use vstd::prelude::*;

use crate::error::ScError;
use crate::types::{ImageMetadata, PageIndex};

verus! {

/// A decoded image of the `image` crate, carried through without being
/// inspected.
#[verifier::external_type_specification]
#[verifier::external_body]
pub struct ExDynamicImage(image::DynamicImage);

/// The image that `image::load_from_memory` decodes from `data`, or `None`
/// when decoding fails.  A function of the bytes alone.
pub uninterp spec fn decoded_image(data: Seq<u8>) -> Option<image::DynamicImage>;

/// Width and height of an image, as `GenericImageView::dimensions` gives
/// them.  A function of the image alone.
pub uninterp spec fn image_size(img: image::DynamicImage) -> (u32, u32);

/// Calls `image::load_from_memory`: the decoded image exactly when
/// `decoded_image` names one for these bytes.  The pixels and the text of the
/// error are not described.
#[verifier::external_body]
fn decode_image(data: &[u8]) -> (r: Result<image::DynamicImage, String>)
    ensures
        r is Ok <==> decoded_image(data@) is Some,
        r matches Ok(img) ==> decoded_image(data@) == Some(img),
{
    image::load_from_memory(data).map_err(|e| e.to_string())
}

/// Calls `GenericImageView::dimensions` on the image: its width and height.
#[verifier::external_body]
fn dimensions(img: &image::DynamicImage) -> (r: (u32, u32))
    ensures
        r == image_size(*img),
{
    image::GenericImageView::dimensions(img)
}

/// Load a raw image buffer into a DynamicImage.
pub struct ImageLoader;

impl ImageLoader {
    /// Decodes an image and describes it as page `index` named `filename`.
    pub fn load_bytes(data: &[u8], filename: &str, index: PageIndex) -> (r: Result<
        (image::DynamicImage, ImageMetadata),
        ScError,
    >)
        ensures
            decoded_image(data@) is None ==> (r matches Err(ScError::Image(_))),
            decoded_image(data@) matches Some(d) ==> (r matches Ok((img, meta)) && img == d
                && meta.width == image_size(d).0 && meta.height == image_size(d).1
                && meta.filename@ == filename@ && meta.index == index),
    {
        match decode_image(data) {
            Ok(img) => {
                let (width, height) = dimensions(&img);
                let meta = ImageMetadata { width, height, filename: filename.to_owned(), index };
                Ok((img, meta))
            },
            Err(msg) => Err(ScError::Image(msg)),
        }
    }
}

} // verus!
