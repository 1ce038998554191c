//! The source image: one colour triple per pixel, or no colour data at all.

use crate::color::{is_channel, rgb2hsv, rgb2hsv_spec, HSV};
use crate::geometry::{point2index, Dimensions, Point, Scale, VectorError};
use itertools::Itertools;
use vstd::prelude::*;

verus! {

/// A grid of colour triples in row-major order. Without colour data it still
/// has a size, and every lookup fails.
pub struct Image {
    dimensions: Dimensions,
    values: Option<Vec<HSV>>,
}

/// Groups a byte sequence into runs of four with `Itertools::tuples` of
/// itertools. The contract claims that group `i` holds bytes `4 * i` to
/// `4 * i + 3` in order, and that bytes past the last whole group are left out.
#[verifier::external_body]
fn quads(raw: Vec<u8>) -> (groups: Vec<(u8, u8, u8, u8)>)
    ensures
        groups@.len() == raw@.len() / 4,
        forall|i: int|
            0 <= i < groups@.len() ==> #[trigger] groups@[i] == (
                raw@[4 * i],
                raw@[4 * i + 1],
                raw@[4 * i + 2],
                raw@[4 * i + 3],
            ),
{
    raw.into_iter().tuples().collect()
}

impl Image {
    /// Number of columns.
    pub closed spec fn width(&self) -> usize {
        self.dimensions.width
    }

    /// Number of rows.
    pub closed spec fn height(&self) -> usize {
        self.dimensions.height
    }

    /// The colour of each pixel in row-major order, where the image has colour data.
    pub closed spec fn colors(&self) -> Option<Seq<HSV>> {
        match self.values {
            Some(v) => Some(v@),
            None => None,
        }
    }

    /// Width and height together.
    pub open spec fn size(&self) -> Dimensions {
        Dimensions { width: self.width(), height: self.height() }
    }

    /// Colour data, where present, has one valid triple per pixel.
    pub open spec fn wf(&self) -> bool {
        self.colors() matches Some(c) ==> c.len() == self.width() * self.height() && forall|i: int|
            0 <= i < c.len() ==> (#[trigger] c[i]).wf()
    }

    /// What a lookup at mask pixel `(x, y)` gives: the colour of the image pixel
    /// that `scale` maps it to, or `IndexError` where that pixel lies outside
    /// the image or the image has no colour data.
    pub open spec fn sample(&self, x: usize, y: usize, scale: &Scale) -> Result<HSV, VectorError> {
        match (self.colors(), scale.rescale_spec(x, y, self.size())) {
            (Some(c), Some(p)) => Ok(c[p.y * self.width() + p.x]),
            _ => Err(VectorError::IndexError),
        }
    }

    /// Builds an image of `width` by `height` pixels from interleaved samples,
    /// four bytes per pixel of which the fourth is ignored; `None` gives an
    /// image without colour data.
    pub fn new(raw: Option<Vec<u8>>, width: usize, height: usize) -> (image: Image)
        requires
            raw matches Some(bytes) ==> bytes@.len() == width * height * 4,
        ensures
            image.wf(),
            image.width() == width,
            image.height() == height,
            raw is None ==> image.colors() is None,
            raw matches Some(bytes) ==> image.colors() matches Some(c) && c.len() == width * height
                && forall|i: int|
                0 <= i < c.len() ==> #[trigger] c[i] == rgb2hsv_spec(
                    bytes@[4 * i] as int,
                    bytes@[4 * i + 1] as int,
                    bytes@[4 * i + 2] as int,
                ),
    {
        let values = match raw {
            None => None,
            Some(bytes) => {
                let ghost samples = bytes@;
                let groups = quads(bytes);
                let mut colors: Vec<HSV> = Vec::new();
                let mut i: usize = 0;
                while i < groups.len()
                    invariant
                        i <= groups@.len(),
                        groups@.len() == samples.len() / 4,
                        colors@.len() == i,
                        forall|j: int|
                            0 <= j < groups@.len() ==> #[trigger] groups@[j] == (
                                samples[4 * j],
                                samples[4 * j + 1],
                                samples[4 * j + 2],
                                samples[4 * j + 3],
                            ),
                        forall|j: int|
                            0 <= j < i ==> #[trigger] colors@[j] == rgb2hsv_spec(
                                samples[4 * j] as int,
                                samples[4 * j + 1] as int,
                                samples[4 * j + 2] as int,
                            ) && colors@[j].wf(),
                    decreases groups@.len() - i,
                {
                    let (r, g, b, _) = groups[i];
                    colors.push(rgb2hsv(r as i32, g as i32, b as i32));
                    i += 1;
                }
                Some(colors)
            },
        };
        Image { values, dimensions: Dimensions { width, height } }
    }

    /// The colour under mask pixel `(x, y)`.
    pub fn get(&self, x: usize, y: usize, scale: &Scale) -> (color: Result<HSV, VectorError>)
        requires
            self.wf(),
        ensures
            color == self.sample(x, y, scale),
            color matches Ok(c) ==> c.wf(),
    {
        match &self.values {
            Some(contents) => {
                let total: usize = contents.len();
                match scale.rescale(&Point { x, y }, self.dimensions) {
                    Some(p) => match point2index(
                        p.x,
                        p.y,
                        self.dimensions.width,
                        self.dimensions.height,
                        1,
                    ) {
                        Ok(idx) => Ok(contents[idx]),
                        Err(e) => Err(e),
                    },
                    None => Err(VectorError::IndexError),
                }
            },
            None => Err(VectorError::IndexError),
        }
    }

    /// Width and height of the image.
    pub fn dimensions(&self) -> (d: Dimensions)
        ensures
            d == self.size(),
    {
        self.dimensions
    }

    /// Whether the image has colour data.
    pub fn has_colors(&self) -> (present: bool)
        ensures
            present == self.colors().is_some(),
    {
        self.values.is_some()
    }
}

} // verus!
