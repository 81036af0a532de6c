//! The specialized image-batch reader: a narrow, hard-coded variant of the
//! generic IDX reader for 3-D uint8 image files. It checks a fixed magic
//! number, reads three sizes, and then hands out one image worth of pixels at
//! a time. The opening of files lives outside this crate; the bytes come in
//! whole.

use vstd::prelude::*;
use vstd::slice::slice_subrange;

use crate::endian::{be_u32, read_be_u32};
use crate::error::MnistError;

verus! {

/// The parsed prefix of an image-batch source.
#[derive(Clone, Debug)]
pub struct Header {
    pub num_images: u32,
    pub image_width: u32,
    pub image_height: u32,
}

/// Whether `data` begins with a well-formed image-batch header: the fixed
/// magic number and three big-endian 32-bit sizes.
pub open spec fn image_header_ok(data: Seq<u8>) -> bool {
    &&& data.len() >= 16
    &&& be_u32(data.subrange(0, 4)) == 0x00000803u32
}

/// The error a malformed image-batch prefix is rejected with: a wrong magic
/// number first, running out of data otherwise.
pub open spec fn image_header_error(data: Seq<u8>) -> MnistError
    recommends
        !image_header_ok(data),
{
    if data.len() >= 4 && be_u32(data.subrange(0, 4)) != 0x00000803u32 {
        MnistError::InvalidFormat
    } else {
        MnistError::UnexpectedEof
    }
}

/// Owns the bytes of one image-batch source and the parsed header; reads
/// advance a cursor over the pixel payload.
#[derive(Debug)]
pub struct ImageReader {
    data: Vec<u8>,
    pos: usize,
    header: Header,
}

impl ImageReader {
    /// The cursor never points past the end of the data.
    pub closed spec fn wf(&self) -> bool {
        self.pos <= self.data@.len()
    }

    /// The declared number of images.
    pub closed spec fn num_images_spec(&self) -> u32 {
        self.header.num_images
    }

    /// The declared width of one image, in pixels.
    pub closed spec fn image_width_spec(&self) -> u32 {
        self.header.image_width
    }

    /// The declared height of one image, in pixels.
    pub closed spec fn image_height_spec(&self) -> u32 {
        self.header.image_height
    }

    /// The pixel bytes not yet consumed.
    pub closed spec fn remaining(&self) -> Seq<u8> {
        self.data@.skip(self.pos as int)
    }

    /// Requires the fixed magic number at the front of the data.
    fn check_magic_number(data: &Vec<u8>) -> (r: Result<(), MnistError>)
        ensures
            match r {
                Ok(()) => data@.len() >= 4 && be_u32(data@.subrange(0, 4)) == 0x00000803u32,
                Err(e) => {
                    &&& !(data@.len() >= 4 && be_u32(data@.subrange(0, 4)) == 0x00000803u32)
                    &&& e == image_header_error(data@)
                },
            },
    {
        if data.len() < 4 {
            return Err(MnistError::UnexpectedEof);
        }
        let magic = read_be_u32(slice_subrange(data.as_slice(), 0, 4));
        if magic != 0x00000803 {
            Err(MnistError::InvalidFormat)
        } else {
            Ok(())
        }
    }

    /// Reads the three declared sizes that follow the magic number.
    fn read_header(data: &Vec<u8>) -> (r: Result<Header, MnistError>)
        ensures
            r is Ok <==> data@.len() >= 16,
            match r {
                Ok(h) => {
                    &&& h.num_images == be_u32(data@.subrange(4, 8))
                    &&& h.image_width == be_u32(data@.subrange(8, 12))
                    &&& h.image_height == be_u32(data@.subrange(12, 16))
                },
                Err(e) => e == MnistError::UnexpectedEof,
            },
    {
        if data.len() < 16 {
            return Err(MnistError::UnexpectedEof);
        }
        let num_images = read_be_u32(slice_subrange(data.as_slice(), 4, 8));
        let width = read_be_u32(slice_subrange(data.as_slice(), 8, 12));
        let height = read_be_u32(slice_subrange(data.as_slice(), 12, 16));
        Ok(Header { num_images, image_width: width, image_height: height })
    }

    /// Builds a reader over an in-memory image-batch source by checking the
    /// magic number and consuming the header.
    pub fn new(data: Vec<u8>) -> (r: Result<ImageReader, MnistError>)
        ensures
            r is Ok <==> image_header_ok(data@),
            match r {
                Ok(rd) => {
                    &&& rd.wf()
                    &&& rd.num_images_spec() == be_u32(data@.subrange(4, 8))
                    &&& rd.image_width_spec() == be_u32(data@.subrange(8, 12))
                    &&& rd.image_height_spec() == be_u32(data@.subrange(12, 16))
                    &&& rd.remaining() == data@.skip(16)
                },
                Err(e) => e == image_header_error(data@),
            },
    {
        if let Err(e) = ImageReader::check_magic_number(&data) {
            return Err(e);
        }
        let header = match ImageReader::read_header(&data) {
            Ok(h) => h,
            Err(e) => {
                return Err(e);
            },
        };
        Ok(ImageReader { data, pos: 16, header })
    }

    /// The declared number of images.
    pub fn num_images(&self) -> (r: u32)
        ensures
            r == self.num_images_spec(),
    {
        self.header.num_images
    }

    /// The declared width of one image, in pixels.
    pub fn image_width(&self) -> (r: u32)
        ensures
            r == self.image_width_spec(),
    {
        self.header.image_width
    }

    /// The declared height of one image, in pixels.
    pub fn image_height(&self) -> (r: u32)
        ensures
            r == self.image_height_spec(),
    {
        self.header.image_height
    }

    /// How many pixels one image holds: width times height.
    pub fn num_pixels(&self) -> (r: usize)
        requires
            self.image_width_spec() * self.image_height_spec() <= u32::MAX,
        ensures
            r == self.image_width_spec() * self.image_height_spec(),
    {
        (self.header.image_width as usize) * (self.header.image_height as usize)
    }

    /// Reads the next image: exactly one image worth of pixel bytes. Fails
    /// with `UnexpectedEof`, consuming nothing, when fewer remain.
    pub fn read_next_image(&mut self) -> (r: Result<Option<Vec<u8>>, MnistError>)
        requires
            old(self).wf(),
            old(self).image_width_spec() * old(self).image_height_spec() <= u32::MAX,
        ensures
            final(self).wf(),
            final(self).num_images_spec() == old(self).num_images_spec(),
            final(self).image_width_spec() == old(self).image_width_spec(),
            final(self).image_height_spec() == old(self).image_height_spec(),
            ({
                let np = old(self).image_width_spec() * old(self).image_height_spec();
                if old(self).remaining().len() >= np {
                    &&& r matches Ok(img)
                    &&& (r matches Ok(img) ==> {
                        &&& img matches Some(pixels)
                        &&& (img matches Some(pixels) ==> pixels@ == old(self).remaining().take(
                            np as int,
                        ))
                    })
                    &&& final(self).remaining() == old(self).remaining().skip(np as int)
                } else {
                    &&& r == Err::<Option<Vec<u8>>, MnistError>(MnistError::UnexpectedEof)
                    &&& final(self).remaining() == old(self).remaining()
                }
            }),
    {
        let np = self.num_pixels();
        if self.data.len() - self.pos < np {
            return Err(MnistError::UnexpectedEof);
        }
        let mut pixel_buffer: Vec<u8> = Vec::new();
        let start = self.pos;
        let end = start + np;
        let mut i = start;
        while i < end
            invariant
                start <= i <= end,
                end == start + np,
                end <= self.data@.len(),
                pixel_buffer@ == self.data@.subrange(start as int, i as int),
                self.wf(),
            decreases end - i,
        {
            let b = self.data[i];
            pixel_buffer.push(b);
            proof {
                assert(pixel_buffer@ =~= self.data@.subrange(start as int, i + 1));
            }
            i += 1;
        }
        self.pos = end;
        proof {
            assert(pixel_buffer@ =~= old(self).remaining().take(np as int));
            assert(self.data@.skip(self.pos as int) =~= old(self).remaining().skip(np as int));
        }
        Ok(Some(pixel_buffer))
    }
}

} // verus!
