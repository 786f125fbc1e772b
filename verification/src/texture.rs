use vstd::prelude::*;

verus! {

/// A packed image: four bytes (red, green, blue, alpha) per pixel, rows
/// stored top to bottom. This is the form the framebuffer hands to whatever
/// renders it.
pub struct RGBAImage {
    _rgba: Vec<u8>,
    _width: usize,
    _height: usize,
}

impl View for RGBAImage {
    type V = Seq<u8>;

    closed spec fn view(&self) -> Seq<u8> {
        self._rgba@
    }
}

impl RGBAImage {
    pub closed spec fn spec_width(&self) -> int {
        self._width as int
    }

    pub closed spec fn spec_height(&self) -> int {
        self._height as int
    }

    pub fn new(data: Vec<u8>, width: usize, height: usize) -> (r: RGBAImage)
        ensures
            r@ == data@,
            r.spec_width() == width,
            r.spec_height() == height,
    {
        RGBAImage { _rgba: data, _width: width, _height: height }
    }

    pub fn data(&self) -> (r: &[u8])
        ensures
            r@ == self@,
    {
        self._rgba.as_slice()
    }

    pub fn width(&self) -> (r: usize)
        ensures
            r == self.spec_width(),
    {
        self._width
    }

    pub fn height(&self) -> (r: usize)
        ensures
            r == self.spec_height(),
    {
        self._height
    }
}

} // verus!
