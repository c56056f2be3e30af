use vstd::prelude::*;
use crate::lossless::DefineBitsLossless;

verus! {

/// Identifies a shape registered with a renderer.
#[derive(Copy, Clone, Debug)]
pub struct ShapeHandle(pub usize);

/// Identifies a bitmap registered with a renderer.
#[derive(Copy, Clone, Debug)]
pub struct BitmapHandle(pub usize);

/// A renderer that keeps nothing: every bitmap it is given gets handle 0.
pub struct NullRenderer;

impl NullRenderer {
    pub fn register_bitmap_jpeg(&mut self, _id: u16, _data: &[u8], _jpeg_tables: &[u8]) -> (r:
        BitmapHandle)
        ensures
            r.0 == 0,
    {
        BitmapHandle(0)
    }

    pub fn register_bitmap_jpeg_2(&mut self, _id: u16, _data: &[u8]) -> (r: BitmapHandle)
        ensures
            r.0 == 0,
    {
        BitmapHandle(0)
    }

    pub fn register_bitmap_jpeg_3(&mut self, _id: u16, _data: &[u8], _alpha_data: &[u8]) -> (r:
        BitmapHandle)
        ensures
            r.0 == 0,
    {
        BitmapHandle(0)
    }

    pub fn register_bitmap_png(&mut self, _swf_tag: &DefineBitsLossless) -> (r: BitmapHandle)
        ensures
            r.0 == 0,
    {
        BitmapHandle(0)
    }
}

} // verus!
