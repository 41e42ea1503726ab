//! A minimal concrete schema.
//!
//! The catalog of real asset schemas lives outside this crate; every schema
//! type takes part in the codec through the [`PrimaryTagStruct`] capability.
//! This module provides one small concrete implementation of the capability,
//! so that the codec can be exercised end to end from within the crate and
//! its tests.

use vstd::prelude::*;
use crate::bytes::{
    be_u16_bytes, be_u32_bytes, lemma_be_u16_bytes_of_at, lemma_be_u16_read_back,
    lemma_be_u32_bytes_of_at, lemma_be_u32_read_back, read_u16_be, read_u32_be, write_u16_be,
    write_u32_be,
};
use crate::error::RinghopperResult;
use crate::primitive::TagGroup;
use crate::tag::PrimaryTagStruct;

verus! {

/// A bitmap-like schema struct of fixed eight-byte layout: width, height,
/// pixel count. Every eight-byte payload decodes to a value, and the
/// encoding determines the value.
#[derive(Copy, Clone, Debug, PartialEq, Eq, Structural)]
pub struct SimpleBitmap {
    /// Width in pixels.
    pub width: u16,
    /// Height in pixels.
    pub height: u16,
    /// Number of stored pixels.
    pub pixel_count: u32,
}

impl PrimaryTagStruct for SimpleBitmap {
    open spec fn spec_group() -> TagGroup {
        TagGroup::Bitmap
    }

    open spec fn spec_version() -> u16 {
        1
    }

    open spec fn spec_size() -> usize {
        8
    }

    open spec fn encoded(&self) -> Seq<u8> {
        be_u16_bytes(self.width) + be_u16_bytes(self.height) + be_u32_bytes(self.pixel_count)
    }

    open spec fn spec_encodable(&self) -> bool {
        true
    }

    proof fn lemma_encoded_size(&self) {
    }

    proof fn lemma_encoded_injective(a: &Self, b: &Self) {
        if a.encoded() == b.encoded() {
            lemma_be_u16_read_back(a.encoded(), 0, a.width);
            lemma_be_u16_read_back(b.encoded(), 0, b.width);
            lemma_be_u16_read_back(a.encoded(), 2, a.height);
            lemma_be_u16_read_back(b.encoded(), 2, b.height);
            lemma_be_u32_read_back(a.encoded(), 4, a.pixel_count);
            lemma_be_u32_read_back(b.encoded(), 4, b.pixel_count);
        }
    }

    fn group() -> (g: TagGroup) {
        TagGroup::Bitmap
    }

    fn version() -> (v: u16) {
        1
    }

    fn size() -> (n: usize) {
        8
    }

    fn write_to_tag_file(&self, data: &mut Vec<u8>, at: usize, struct_end: usize) -> (r:
        RinghopperResult<()>) {
        write_u16_be(data, at, self.width);
        write_u16_be(data, at + 2, self.height);
        write_u32_be(data, at + 4, self.pixel_count);
        proof {
            assert(data@.subrange(at as int, at + 8) =~= self.encoded());
        }
        Ok(())
    }

    fn read_from_tag_file(data: &[u8], at: usize, struct_end: usize) -> (r: RinghopperResult<
        Self>) {
        let len = data.len();
        let v = SimpleBitmap {
            width: read_u16_be(data, at),
            height: read_u16_be(data, at + 2),
            pixel_count: read_u32_be(data, at + 4),
        };
        proof {
            lemma_be_u16_bytes_of_at(data@, at as int);
            lemma_be_u16_bytes_of_at(data@, at + 2);
            lemma_be_u32_bytes_of_at(data@, at + 4);
            assert(v.encoded() =~= data@.subrange(at as int, at + 8));
        }
        Ok(v)
    }
}

} // verus!
