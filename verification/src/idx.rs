//! The generic IDX reader: header parsing, scalar decoding, and the two lazy
//! reading modes (flat scalar stream and item stream sliced along the outer
//! dimension).
//!
//! A reader owns the raw bytes of one IDX source together with a cursor; the
//! opening of files and other real I/O lives outside this crate and hands the
//! bytes in whole.

use vstd::arithmetic::div_mod::{
    lemma_div_by_multiple, lemma_div_multiples_vanish, lemma_fundamental_div_mod_converse,
    lemma_mod_multiples_basic, lemma_small_mod,
};
use vstd::prelude::*;
use vstd::slice::{slice_index_get, slice_subrange};

use crate::endian::{be_i16, be_i32, be_u32, read_be_i16, read_be_i32, read_be_u16, read_be_u32};
use crate::error::MnistError;

verus! {

/// The closed set of scalar encodings an IDX header may declare.
#[derive(Clone, Copy, Debug, PartialEq, Eq, Structural)]
pub enum ElementType {
    U8,
    I8,
    I16,
    I32,
    F32,
    F64,
}

/// Whether `val` is one of the six tag bytes the format recognises.
pub open spec fn valid_tag(val: u8) -> bool {
    val == 0x08 || val == 0x09 || val == 0x0b || val == 0x0c || val == 0x0d || val == 0x0e
}

/// The scalar kind a recognised tag byte names.
pub open spec fn tag_type(val: u8) -> ElementType
    recommends
        valid_tag(val),
{
    if val == 0x08 {
        ElementType::U8
    } else if val == 0x09 {
        ElementType::I8
    } else if val == 0x0b {
        ElementType::I16
    } else if val == 0x0c {
        ElementType::I32
    } else if val == 0x0d {
        ElementType::F32
    } else {
        ElementType::F64
    }
}

impl ElementType {
    /// The tag byte that marks this scalar kind on disk.
    pub open spec fn tag_spec(self) -> u8 {
        match self {
            ElementType::U8 => 0x08,
            ElementType::I8 => 0x09,
            ElementType::I16 => 0x0b,
            ElementType::I32 => 0x0c,
            ElementType::F32 => 0x0d,
            ElementType::F64 => 0x0e,
        }
    }

    /// The width of one scalar of this kind on disk, in bytes.
    pub open spec fn size_spec(self) -> u32 {
        match self {
            ElementType::U8 => 1,
            ElementType::I8 => 1,
            ElementType::I16 => 2,
            ElementType::I32 => 4,
            ElementType::F32 => 4,
            ElementType::F64 => 8,
        }
    }

    /// Maps a tag byte to its scalar kind; every unrecognised byte marks the
    /// file malformed.
    pub fn from_value(val: u8) -> (r: Result<ElementType, MnistError>)
        ensures
            match r {
                Ok(t) => valid_tag(val) && t == tag_type(val) && t.tag_spec() == val,
                Err(e) => !valid_tag(val) && e == MnistError::InvalidFormat,
            },
    {
        match val {
            0x08 => Ok(ElementType::U8),
            0x09 => Ok(ElementType::I8),
            0x0b => Ok(ElementType::I16),
            0x0c => Ok(ElementType::I32),
            0x0d => Ok(ElementType::F32),
            0x0e => Ok(ElementType::F64),
            _ => Err(MnistError::InvalidFormat),
        }
    }

    /// The fixed byte width of this scalar kind; never touches any stream.
    pub fn size_in_bytes(&self) -> (r: u32)
        ensures
            r == self.size_spec(),
            1 <= r <= 8,
    {
        match *self {
            ElementType::U8 => 1,
            ElementType::I8 => 1,
            ElementType::I16 => 2,
            ElementType::I32 => 4,
            ElementType::F32 => 4,
            ElementType::F64 => 8,
        }
    }
}

/// The capability a native scalar type offers: naming the on-disk kind it
/// stands for, checking that choice against a header, and decoding one scalar
/// from its big-endian bytes.
pub trait ElementScalar: Sized + Copy {
    /// The on-disk scalar kind this native type decodes.
    spec fn elem_type_spec() -> ElementType;

    /// The value stored big-endian at the front of `b`.
    spec fn decode_spec(b: Seq<u8>) -> Self;

    /// The width of one scalar, in bytes.
    fn size_of_elem() -> (w: u32)
        ensures
            w == Self::elem_type_spec().size_spec(),
    ;

    /// A value for filling freshly allocated buffers before they are decoded
    /// into.
    fn filler() -> Self;

    /// Verifies that the caller's chosen scalar kind matches the declared
    /// kind exactly; no coercion between kinds is permitted.
    fn is_elem_type_compatible(ty: ElementType) -> (r: Result<(), MnistError>)
        ensures
            match r {
                Ok(()) => ty == Self::elem_type_spec(),
                Err(e) => ty != Self::elem_type_spec() && e == MnistError::InvalidElementType,
            },
    ;

    /// Decodes exactly one scalar from its width of big-endian bytes.
    fn read_element(b: &[u8]) -> (r: Self)
        requires
            b@.len() == Self::elem_type_spec().size_spec(),
        ensures
            r == Self::decode_spec(b@),
    ;
}

impl ElementScalar for u8 {
    open spec fn elem_type_spec() -> ElementType {
        ElementType::U8
    }

    open spec fn decode_spec(b: Seq<u8>) -> u8 {
        b[0]
    }

    fn size_of_elem() -> u32 {
        1
    }

    fn filler() -> u8 {
        0
    }

    fn is_elem_type_compatible(ty: ElementType) -> Result<(), MnistError> {
        if ty == ElementType::U8 {
            Ok(())
        } else {
            Err(MnistError::InvalidElementType)
        }
    }

    fn read_element(b: &[u8]) -> u8 {
        *slice_index_get(b, 0)
    }
}

impl ElementScalar for i8 {
    open spec fn elem_type_spec() -> ElementType {
        ElementType::I8
    }

    open spec fn decode_spec(b: Seq<u8>) -> i8 {
        b[0] as i8
    }

    fn size_of_elem() -> u32 {
        1
    }

    fn filler() -> i8 {
        0
    }

    fn is_elem_type_compatible(ty: ElementType) -> Result<(), MnistError> {
        if ty == ElementType::I8 {
            Ok(())
        } else {
            Err(MnistError::InvalidElementType)
        }
    }

    fn read_element(b: &[u8]) -> i8 {
        #[verifier::truncate] (*slice_index_get(b, 0) as i8)
    }
}

impl ElementScalar for i16 {
    open spec fn elem_type_spec() -> ElementType {
        ElementType::I16
    }

    open spec fn decode_spec(b: Seq<u8>) -> i16 {
        be_i16(b)
    }

    fn size_of_elem() -> u32 {
        2
    }

    fn filler() -> i16 {
        0
    }

    fn is_elem_type_compatible(ty: ElementType) -> Result<(), MnistError> {
        if ty == ElementType::I16 {
            Ok(())
        } else {
            Err(MnistError::InvalidElementType)
        }
    }

    fn read_element(b: &[u8]) -> i16 {
        read_be_i16(b)
    }
}

impl ElementScalar for i32 {
    open spec fn elem_type_spec() -> ElementType {
        ElementType::I32
    }

    open spec fn decode_spec(b: Seq<u8>) -> i32 {
        be_i32(b)
    }

    fn size_of_elem() -> u32 {
        4
    }

    fn filler() -> i32 {
        0
    }

    fn is_elem_type_compatible(ty: ElementType) -> Result<(), MnistError> {
        if ty == ElementType::I32 {
            Ok(())
        } else {
            Err(MnistError::InvalidElementType)
        }
    }

    fn read_element(b: &[u8]) -> i32 {
        read_be_i32(b)
    }
}

/// The number of scalars a tensor of shape `dims` holds: the product of all
/// dimension sizes, `1` for the empty shape.
pub open spec fn product(dims: Seq<u32>) -> nat
    decreases dims.len(),
{
    if dims.len() == 0 {
        1
    } else {
        (dims.first() * product(dims.drop_first())) as nat
    }
}

/// The shape of one item: every dimension but the outer one.
pub open spec fn item_geometry_spec(dims: Seq<u32>) -> Seq<u32> {
    if dims.len() == 0 {
        Seq::empty()
    } else {
        dims.skip(1)
    }
}

/// The number of scalars one item holds.
pub open spec fn item_size_spec(dims: Seq<u32>) -> nat {
    product(item_geometry_spec(dims))
}

/// A shape with a zero dimension holds no scalars at all.
proof fn lemma_product_zero(s: Seq<u32>, k: int)
    requires
        0 <= k < s.len(),
        s[k] == 0,
    ensures
        product(s) == 0,
    decreases s.len(),
{
    if k == 0 {
        assert(s.first() == 0);
        assert(product(s) == (s.first() * product(s.drop_first())) as nat);
    } else {
        lemma_product_zero(s.drop_first(), k - 1);
        assert(product(s) == (s.first() * product(s.drop_first())) as nat);
    }
}

/// Dropping leading dimensions from an all-positive shape never grows the
/// product.
proof fn lemma_product_suffix_le(s: Seq<u32>, start: int, i: int)
    requires
        0 <= start <= i <= s.len(),
        forall|j: int| start <= j < s.len() ==> s[j] >= 1,
    ensures
        product(s.skip(i)) <= product(s.skip(start)),
    decreases i - start,
{
    if i > start {
        lemma_product_suffix_le(s, start + 1, i);
        assert(s.skip(start).drop_first() =~= s.skip(start + 1));
        let a = s[start] as int;
        let p = product(s.skip(start + 1)) as int;
        assert(p <= a * p) by (nonlinear_arith)
            requires
                a >= 1,
                p >= 0,
        ;
    }
}

/// Multiplies the dimension sizes from `start` on, exactly.
fn product_from(dims: &Vec<u32>, start: usize) -> (r: usize)
    requires
        start <= dims@.len(),
        product(dims@.skip(start as int)) <= usize::MAX,
    ensures
        r == product(dims@.skip(start as int)),
{
    let n = dims.len();
    let mut k = start;
    while k < n
        invariant
            start <= k <= n,
            n == dims@.len(),
            forall|j: int| start <= j < k ==> dims@[j] >= 1,
        decreases n - k,
    {
        if dims[k] == 0 {
            proof {
                lemma_product_zero(dims@.skip(start as int), k - start);
            }
            return 0;
        }
        k += 1;
    }
    let mut total: usize = 1;
    let mut i = n;
    while i > start
        invariant
            start <= i <= n,
            n == dims@.len(),
            forall|j: int| start <= j < n ==> dims@[j] >= 1,
            total == product(dims@.skip(i as int)),
            product(dims@.skip(start as int)) <= usize::MAX,
        decreases i,
    {
        i -= 1;
        let d = dims[i];
        proof {
            assert(dims@.skip(i as int).drop_first() =~= dims@.skip(i + 1));
            assert(dims@.skip(i as int).first() == dims@[i as int]);
            assert(product(dims@.skip(i as int)) == (d * product(dims@.skip(i + 1))) as nat);
            lemma_product_suffix_le(dims@, start as int, i as int);
            vstd::arithmetic::mul::lemma_mul_is_commutative(total as int, d as int);
        }
        total = total * (d as usize);
    }
    total
}

/// The parsed prefix of an IDX source: the declared scalar kind and the
/// dimension sizes, outer to inner.
#[derive(Clone, Debug)]
pub struct IdxHeader {
    pub elem_type: ElementType,
    pub dimension_sizes: Vec<u32>,
}

/// How many bytes the header of `data` occupies: the reserved field, the tag
/// byte, the dimension count, and one big-endian 32-bit size per dimension.
pub open spec fn header_len(data: Seq<u8>) -> int
    recommends
        data.len() >= 4,
{
    4 + 4 * (data[3] as int)
}

/// Whether `data` begins with a well-formed IDX header.
pub open spec fn header_ok(data: Seq<u8>) -> bool {
    &&& data.len() >= 4
    &&& data[0] == 0
    &&& data[1] == 0
    &&& valid_tag(data[2])
    &&& data.len() >= header_len(data)
}

/// The error a malformed header prefix is rejected with. Checks happen in
/// stream order: the reserved field first, the tag byte next, the dimension
/// sizes last. A non-zero reserved field and an unrecognised tag byte both
/// mark the file malformed; running out of data inside any field is an
/// end-of-data error.
pub open spec fn header_error(data: Seq<u8>) -> MnistError
    recommends
        !header_ok(data),
{
    if data.len() >= 2 && !(data[0] == 0 && data[1] == 0) {
        MnistError::InvalidFormat
    } else if data.len() >= 3 && data[0] == 0 && data[1] == 0 && !valid_tag(data[2]) {
        MnistError::InvalidFormat
    } else {
        MnistError::UnexpectedEof
    }
}

/// The scalar kind a well-formed header declares.
pub open spec fn header_etype(data: Seq<u8>) -> ElementType
    recommends
        header_ok(data),
{
    tag_type(data[2])
}

/// The dimension sizes a well-formed header declares, outer to inner.
pub open spec fn header_dims(data: Seq<u8>) -> Seq<u32>
    recommends
        header_ok(data),
{
    Seq::new(data[3] as nat, |i: int| be_u32(data.subrange(4 + 4 * i, 8 + 4 * i)))
}

/// Owns the bytes of one IDX source and the parsed header; reads advance a
/// cursor over the payload.
#[derive(Debug)]
pub struct IdxReader {
    data: Vec<u8>,
    pos: usize,
    header: IdxHeader,
}

impl IdxReader {
    /// The cursor never points past the end of the data.
    pub closed spec fn wf(&self) -> bool {
        self.pos <= self.data@.len()
    }

    /// The scalar kind the source declares.
    pub closed spec fn etype_spec(&self) -> ElementType {
        self.header.elem_type
    }

    /// The declared dimension sizes, outer to inner.
    pub closed spec fn dims_spec(&self) -> Seq<u32> {
        self.header.dimension_sizes@
    }

    /// The bytes not yet consumed.
    pub closed spec fn remaining(&self) -> Seq<u8> {
        self.data@.skip(self.pos as int)
    }

    /// Parses the mandatory header prefix of `data`, returning the header and
    /// the number of bytes it occupied.
    fn read_header(data: &Vec<u8>) -> (r: Result<(IdxHeader, usize), MnistError>)
        ensures
            r is Ok <==> header_ok(data@),
            match r {
                Ok(p) => {
                    &&& p.0.elem_type == header_etype(data@)
                    &&& p.0.dimension_sizes@ == header_dims(data@)
                    &&& p.1 == header_len(data@)
                },
                Err(e) => e == header_error(data@),
            },
    {
        if data.len() < 2 {
            return Err(MnistError::UnexpectedEof);
        }
        let zero = read_be_u16(slice_subrange(data.as_slice(), 0, 2));
        proof {
            assert(data@.subrange(0, 2)[0] == data@[0]);
            assert(data@.subrange(0, 2)[1] == data@[1]);
        }
        if zero != 0x0000 {
            return Err(MnistError::InvalidFormat);
        }
        if data.len() < 3 {
            return Err(MnistError::UnexpectedEof);
        }
        let type_enum = match ElementType::from_value(data[2]) {
            Ok(t) => t,
            Err(e) => {
                return Err(e);
            },
        };
        if data.len() < 4 {
            return Err(MnistError::UnexpectedEof);
        }
        let num_dims = data[3] as usize;
        let needed = 4 + 4 * num_dims;
        if data.len() < needed {
            return Err(MnistError::UnexpectedEof);
        }
        let mut dim_sizes: Vec<u32> = Vec::new();
        let mut i: usize = 0;
        while i < num_dims
            invariant
                i <= num_dims,
                num_dims == data@[3] as int,
                needed == 4 + 4 * num_dims,
                data@.len() >= needed,
                dim_sizes@ == header_dims(data@).take(i as int),
            decreases num_dims - i,
        {
            let s = slice_subrange(data.as_slice(), 4 + 4 * i, 8 + 4 * i);
            let d = read_be_u32(s);
            dim_sizes.push(d);
            proof {
                assert(dim_sizes@ =~= header_dims(data@).take(i + 1));
            }
            i += 1;
        }
        proof {
            assert(dim_sizes@ =~= header_dims(data@));
        }
        Ok((IdxHeader { elem_type: type_enum, dimension_sizes: dim_sizes }, needed))
    }

    /// Builds a reader over an in-memory IDX source by parsing and consuming
    /// its header. Fails with exactly the header's defect, and reads nothing
    /// of the payload either way.
    pub fn new(data: Vec<u8>) -> (r: Result<IdxReader, MnistError>)
        ensures
            r is Ok <==> header_ok(data@),
            match r {
                Ok(reader) => {
                    &&& reader.wf()
                    &&& reader.etype_spec() == header_etype(data@)
                    &&& reader.dims_spec() == header_dims(data@)
                    &&& reader.remaining() == data@.skip(header_len(data@))
                },
                Err(e) => e == header_error(data@),
            },
    {
        let (header, consumed) = match IdxReader::read_header(&data) {
            Ok(p) => p,
            Err(e) => {
                return Err(e);
            },
        };
        Ok(IdxReader { data, pos: consumed, header })
    }

    /// The declared dimension sizes, outer to inner.
    pub fn dimensions(&self) -> (r: &Vec<u32>)
        ensures
            r@ == self.dims_spec(),
    {
        &self.header.dimension_sizes
    }

    /// The scalar kind the source declares.
    pub fn element_type(&self) -> (r: ElementType)
        ensures
            r == self.etype_spec(),
    {
        self.header.elem_type
    }

    /// The number of scalars the whole tensor holds: the product of all
    /// dimension sizes, `1` for rank zero.
    pub fn num_elems(&self) -> (r: usize)
        requires
            product(self.dims_spec()) <= usize::MAX,
        ensures
            r == product(self.dims_spec()),
    {
        proof {
            assert(self.header.dimension_sizes@.skip(0) =~= self.header.dimension_sizes@);
        }
        product_from(&self.header.dimension_sizes, 0)
    }

    /// The number of scalars one item (one slice of the outer dimension)
    /// holds: the product of all dimension sizes but the first, `1` for rank
    /// at most one.
    pub fn item_size(&self) -> (r: usize)
        requires
            item_size_spec(self.dims_spec()) <= usize::MAX,
        ensures
            r == item_size_spec(self.dims_spec()),
    {
        if self.header.dimension_sizes.len() == 0 {
            1
        } else {
            product_from(&self.header.dimension_sizes, 1)
        }
    }

    /// The shape of one item: every declared dimension but the outer one.
    fn get_item_geometry(&self) -> (g: Vec<u32>)
        ensures
            g@ == item_geometry_spec(self.dims_spec()),
    {
        let n = self.header.dimension_sizes.len();
        if n == 0 {
            let g: Vec<u32> = Vec::new();
            proof {
                assert(g@ =~= item_geometry_spec(self.dims_spec()));
            }
            return g;
        }
        let mut g: Vec<u32> = Vec::new();
        let mut i: usize = 1;
        while i < n
            invariant
                1 <= i <= n,
                n == self.dims_spec().len(),
                g@ == self.dims_spec().subrange(1, i as int),
            decreases n - i,
        {
            let d = self.header.dimension_sizes[i];
            g.push(d);
            proof {
                assert(g@ =~= self.dims_spec().subrange(1, i + 1));
            }
            i += 1;
        }
        proof {
            assert(self.dims_spec().subrange(1, n as int) =~= self.dims_spec().skip(1));
            assert(g@ =~= item_geometry_spec(self.dims_spec()));
        }
        g
    }

    /// Hands out every byte not yet consumed and leaves the cursor at the
    /// end of the data.
    pub fn read_bytes_to_end(&mut self) -> (r: Vec<u8>)
        requires
            old(self).wf(),
        ensures
            final(self).wf(),
            final(self).dims_spec() == old(self).dims_spec(),
            final(self).etype_spec() == old(self).etype_spec(),
            r@ == old(self).remaining(),
            final(self).remaining().len() == 0,
    {
        let mut bytes: Vec<u8> = Vec::new();
        let n = self.data.len();
        let start = self.pos;
        let mut i = start;
        while i < n
            invariant
                start <= i <= n,
                n == self.data@.len(),
                bytes@ == self.data@.subrange(start as int, i as int),
            decreases n - i,
        {
            let b = self.data[i];
            bytes.push(b);
            proof {
                assert(bytes@ =~= self.data@.subrange(start as int, i + 1));
            }
            i += 1;
        }
        self.pos = n;
        proof {
            assert(bytes@ =~= old(self).remaining());
        }
        bytes
    }
}

/// The first `n` scalars of kind `T` stored big-endian at the front of
/// `bytes`.
pub open spec fn decode_block<T: ElementScalar>(bytes: Seq<u8>, n: int) -> Seq<T> {
    Seq::new(
        n as nat,
        |i: int|
            T::decode_spec(
                bytes.subrange(
                    i * (T::elem_type_spec().size_spec() as int),
                    (i + 1) * (T::elem_type_spec().size_spec() as int),
                ),
            ),
    )
}

impl IdxReader {
    /// Decodes one scalar of kind `T` and advances past its bytes; fails
    /// without consuming anything when fewer than one scalar's bytes remain.
    fn read_element<T: ElementScalar>(&mut self) -> (r: Result<T, MnistError>)
        requires
            old(self).wf(),
        ensures
            final(self).wf(),
            final(self).dims_spec() == old(self).dims_spec(),
            final(self).etype_spec() == old(self).etype_spec(),
            ({
                let w = T::elem_type_spec().size_spec() as int;
                if old(self).remaining().len() >= w {
                    &&& r == Ok::<T, MnistError>(T::decode_spec(old(self).remaining().take(w)))
                    &&& final(self).remaining() == old(self).remaining().skip(w)
                } else {
                    &&& r == Err::<T, MnistError>(MnistError::UnexpectedEof)
                    &&& final(self).remaining() == old(self).remaining()
                }
            }),
    {
        let w = T::size_of_elem() as usize;
        if self.data.len() - self.pos < w {
            return Err(MnistError::UnexpectedEof);
        }
        let s = slice_subrange(self.data.as_slice(), self.pos, self.pos + w);
        proof {
            assert(s@ =~= old(self).remaining().take(w as int));
        }
        let v = T::read_element(s);
        self.pos = self.pos + w;
        proof {
            assert(self.data@.skip(self.pos as int) =~= old(self).remaining().skip(w as int));
        }
        Ok(v)
    }

    /// Decodes `buf.len()` scalars in order, overwriting `buf`. Fails with
    /// `InvalidElementType`, touching nothing, when `T` does not match the
    /// declared kind; fails with `UnexpectedEof` at the scalar where the data
    /// ran out, leaving `buf` partially overwritten and the cursor at the
    /// boundary of the last complete scalar.
    #[verifier::loop_isolation(false)]
    pub fn read_elements<T: ElementScalar>(&mut self, buf: &mut Vec<T>) -> (r: Result<
        (),
        MnistError,
    >)
        requires
            old(self).wf(),
        ensures
            final(self).wf(),
            final(self).dims_spec() == old(self).dims_spec(),
            final(self).etype_spec() == old(self).etype_spec(),
            final(buf)@.len() == old(buf)@.len(),
            ({
                let w = T::elem_type_spec().size_spec() as int;
                let n = old(buf)@.len() as int;
                if T::elem_type_spec() != old(self).etype_spec() {
                    &&& r == Err::<(), MnistError>(MnistError::InvalidElementType)
                    &&& *final(self) == *old(self)
                    &&& final(buf)@ == old(buf)@
                } else if old(self).remaining().len() >= n * w {
                    &&& r == Ok::<(), MnistError>(())
                    &&& final(buf)@ == decode_block::<T>(old(self).remaining(), n)
                    &&& final(self).remaining() == old(self).remaining().skip(n * w)
                } else {
                    &&& r == Err::<(), MnistError>(MnistError::UnexpectedEof)
                    &&& final(self).remaining() == old(self).remaining().skip(
                        (old(self).remaining().len() as int / w) * w,
                    )
                }
            }),
    {
        if let Err(e) = T::is_elem_type_compatible(self.element_type()) {
            return Err(e);
        }
        let ghost rem0 = self.remaining();
        let ghost dims0 = self.dims_spec();
        let ghost et0 = self.etype_spec();
        let ghost w = T::elem_type_spec().size_spec() as int;
        let n = buf.len();
        let mut i: usize = 0;
        while i < n
            invariant
                i <= n,
                n == buf@.len(),
                self.wf(),
                self.dims_spec() == dims0,
                self.etype_spec() == et0,
                w == T::elem_type_spec().size_spec() as int,
                i * w <= rem0.len(),
                self.remaining() == rem0.skip(i * w),
                forall|j: int|
                    0 <= j < i ==> buf@[j] == T::decode_spec(
                        #[trigger] rem0.subrange(j * w, (j + 1) * w),
                    ),
            decreases n - i,
        {
            let v = match self.read_element::<T>() {
                Ok(v) => v,
                Err(e) => {
                    proof {
                        assert(rem0.skip(i * w).len() == rem0.len() - i * w);
                        assert((i + 1) * w == i * w + w) by (nonlinear_arith);
                        assert((i + 1) * w <= n * w) by (nonlinear_arith)
                            requires
                                i + 1 <= n,
                                w >= 0,
                        ;
                        let tail = rem0.len() - i * w;
                        lemma_fundamental_div_mod_converse(rem0.len() as int, w, i as int, tail);
                    }
                    return Err(e);
                },
            };
            buf.set(i, v);
            proof {
                assert(rem0.skip(i * w).take(w) =~= rem0.subrange(i * w, i * w + w));
                assert(rem0.skip(i * w).skip(w) =~= rem0.skip(i * w + w));
                assert((i + 1) * w == i * w + w) by (nonlinear_arith);
            }
            i += 1;
        }
        proof {
            assert(buf@ =~= decode_block::<T>(rem0, n as int));
        }
        Ok(())
    }
}

/// An owned, decoded sub-tensor: the scalars of one slice of the outer
/// dimension, together with that slice's own shape.
#[derive(Clone, Debug)]
pub struct Item<T: ElementScalar> {
    elems: Vec<T>,
    dimension_sizes: Vec<u32>,
}

impl<T: ElementScalar> Item<T> {
    /// The decoded scalars, in row-major order.
    pub closed spec fn elems_spec(&self) -> Seq<T> {
        self.elems@
    }

    /// This item's own shape.
    pub closed spec fn dims_spec(&self) -> Seq<u32> {
        self.dimension_sizes@
    }

    /// Read access to the decoded scalars.
    pub fn data(&self) -> (r: &Vec<T>)
        ensures
            r@ == self.elems_spec(),
    {
        &self.elems
    }

    /// In-place edit access to the decoded scalars; the shape stays as it is.
    pub fn data_mut(&mut self) -> (r: &mut Vec<T>)
        ensures
            r@ == old(self).elems_spec(),
            final(self).elems_spec() == final(r)@,
            final(self).dims_spec() == old(self).dims_spec(),
    {
        &mut self.elems
    }

    /// This item's own shape, inner dimensions of the file it came from.
    pub fn dimensions(&self) -> (r: &Vec<u32>)
        ensures
            r@ == self.dims_spec(),
    {
        &self.dimension_sizes
    }

    /// The innermost dimension size, if the item has any dimension at all.
    pub fn width(&self) -> (r: Option<u32>)
        ensures
            if self.dims_spec().len() > 0 {
                r == Some(self.dims_spec().last())
            } else {
                r is None
            },
    {
        let n = self.dimension_sizes.len();
        if n > 0 {
            Some(self.dimension_sizes[n - 1])
        } else {
            None
        }
    }

    /// The second-innermost dimension size, if the item has at least two
    /// dimensions.
    pub fn height(&self) -> (r: Option<u32>)
        ensures
            if self.dims_spec().len() > 1 {
                r == Some(self.dims_spec()[self.dims_spec().len() - 2])
            } else {
                r is None
            },
    {
        let n = self.dimension_sizes.len();
        if n > 1 {
            Some(self.dimension_sizes[n - 2])
        } else {
            None
        }
    }

    /// The number of scalars this item's own shape describes; always equal to
    /// the length of `data()`.
    pub fn total_elements(&self) -> (r: u32)
        requires
            product(self.dims_spec()) <= u32::MAX,
        ensures
            r == product(self.dims_spec()),
    {
        proof {
            assert(self.dimension_sizes@.skip(0) =~= self.dimension_sizes@);
        }
        let p = product_from(&self.dimension_sizes, 0);
        p as u32
    }
}

impl IdxReader {
    /// Decodes one item: `item_size()` scalars wrapped with the item shape.
    /// Fails with `InvalidElementType` on a kind mismatch and with
    /// `UnexpectedEof` when the data runs out mid-item, leaving the cursor at
    /// the boundary of the last complete scalar.
    pub fn read_item<T: ElementScalar>(&mut self) -> (r: Result<Item<T>, MnistError>)
        requires
            old(self).wf(),
            item_size_spec(old(self).dims_spec()) <= usize::MAX,
        ensures
            final(self).wf(),
            final(self).dims_spec() == old(self).dims_spec(),
            final(self).etype_spec() == old(self).etype_spec(),
            ({
                let w = T::elem_type_spec().size_spec() as int;
                let isz = item_size_spec(old(self).dims_spec()) as int;
                if T::elem_type_spec() != old(self).etype_spec() {
                    &&& r == Err::<Item<T>, MnistError>(MnistError::InvalidElementType)
                    &&& final(self).remaining() == old(self).remaining()
                } else if old(self).remaining().len() >= isz * w {
                    &&& r matches Ok(item)
                    &&& (r matches Ok(item) ==> {
                        &&& item.elems_spec() == decode_block::<T>(old(self).remaining(), isz)
                        &&& item.dims_spec() == item_geometry_spec(old(self).dims_spec())
                    })
                    &&& final(self).remaining() == old(self).remaining().skip(isz * w)
                } else {
                    &&& r == Err::<Item<T>, MnistError>(MnistError::UnexpectedEof)
                    &&& final(self).remaining() == old(self).remaining().skip(
                        (old(self).remaining().len() as int / w) * w,
                    )
                }
            }),
    {
        let item_sizes = self.item_size();
        let filler = T::filler();
        let mut elems: Vec<T> = Vec::new();
        let mut j: usize = 0;
        while j < item_sizes
            invariant
                j <= item_sizes,
                elems@.len() == j,
            decreases item_sizes - j,
        {
            elems.push(filler);
            j += 1;
        }
        match self.read_elements(&mut elems) {
            Ok(()) => Ok(Item { elems, dimension_sizes: self.get_item_geometry() }),
            Err(e) => Err(e),
        }
    }

    /// Reads whole items until the data runs out, appending them to `buf`.
    /// Running out exactly between items is graceful completion; running out
    /// mid-item is an `UnexpectedEof` failure that still leaves every
    /// complete item appended, and a kind mismatch is an `InvalidElementType`
    /// failure before anything is appended.
    #[verifier::loop_isolation(false)]
    pub fn read_items_to_end<T: ElementScalar>(&mut self, buf: &mut Vec<Item<T>>) -> (r: Result<
        (),
        MnistError,
    >)
        requires
            old(self).wf(),
            1 <= item_size_spec(old(self).dims_spec()) <= usize::MAX,
        ensures
            final(self).wf(),
            final(self).dims_spec() == old(self).dims_spec(),
            final(self).etype_spec() == old(self).etype_spec(),
            ({
                let w = T::elem_type_spec().size_spec() as int;
                let isz = item_size_spec(old(self).dims_spec()) as int;
                let ib = isz * w;
                let n0 = old(self).remaining().len() as int;
                if n0 == 0 {
                    &&& r == Ok::<(), MnistError>(())
                    &&& final(buf)@ == old(buf)@
                    &&& final(self).remaining() == old(self).remaining()
                } else if T::elem_type_spec() != old(self).etype_spec() {
                    &&& r == Err::<(), MnistError>(MnistError::InvalidElementType)
                    &&& final(buf)@ == old(buf)@
                } else if n0 % ib == 0 {
                    &&& r == Ok::<(), MnistError>(())
                    &&& final(buf)@.len() == old(buf)@.len() + n0 / ib
                    &&& forall|j: int| 0 <= j < old(buf)@.len() ==> final(buf)@[j] == old(buf)@[j]
                    &&& forall|j: int|
                        0 <= j < n0 / ib ==> {
                            &&& (#[trigger] final(buf)@[old(buf)@.len() + j]).elems_spec()
                                == decode_block::<T>(old(self).remaining().skip(j * ib), isz)
                            &&& final(buf)@[old(buf)@.len() + j].dims_spec()
                                == item_geometry_spec(old(self).dims_spec())
                        }
                    &&& final(self).remaining().len() == 0
                } else {
                    &&& r == Err::<(), MnistError>(MnistError::UnexpectedEof)
                    &&& final(buf)@.len() == old(buf)@.len() + n0 / ib
                    &&& forall|j: int| 0 <= j < old(buf)@.len() ==> final(buf)@[j] == old(buf)@[j]
                    &&& forall|j: int|
                        0 <= j < n0 / ib ==> {
                            &&& (#[trigger] final(buf)@[old(buf)@.len() + j]).elems_spec()
                                == decode_block::<T>(old(self).remaining().skip(j * ib), isz)
                            &&& final(buf)@[old(buf)@.len() + j].dims_spec()
                                == item_geometry_spec(old(self).dims_spec())
                        }
                }
            }),
    {
        let ghost rem0 = old(self).remaining();
        let ghost w = T::elem_type_spec().size_spec() as int;
        let ghost isz = item_size_spec(old(self).dims_spec()) as int;
        let ghost ib = isz * w;
        let ghost buf0 = old(buf)@;
        let ghost mut k: int = 0;
        proof {
            assert(T::elem_type_spec().size_spec() >= 1);
            assert(isz * w >= 1) by (nonlinear_arith)
                requires
                    isz >= 1,
                    w >= 1,
            ;
        }
        loop
            invariant
                self.wf(),
                self.dims_spec() == old(self).dims_spec(),
                self.etype_spec() == old(self).etype_spec(),
                0 <= k,
                k * ib <= rem0.len(),
                self.remaining() == rem0.skip(k * ib),
                buf@.len() == buf0.len() + k,
                forall|j: int| 0 <= j < buf0.len() ==> buf@[j] == buf0[j],
                forall|j: int|
                    0 <= j < k ==> {
                        &&& (#[trigger] buf@[buf0.len() + j]).elems_spec() == decode_block::<T>(
                            rem0.skip(j * ib),
                            isz,
                        )
                        &&& buf@[buf0.len() + j].dims_spec() == item_geometry_spec(
                            old(self).dims_spec(),
                        )
                    },
                k >= 1 ==> T::elem_type_spec() == old(self).etype_spec(),
            decreases rem0.len() - k * ib,
        {
            if self.data.len() - self.pos == 0 {
                proof {
                    assert(rem0.len() == k * ib);
                    lemma_mod_multiples_basic(k, ib);
                    lemma_div_by_multiple(k, ib);
                }
                return Ok(());
            }
            match self.read_item::<T>() {
                Ok(x) => {
                    buf.push(x);
                    proof {
                        assert(rem0.skip(k * ib).skip(ib) =~= rem0.skip(k * ib + ib));
                        assert((k + 1) * ib == k * ib + ib) by (nonlinear_arith);
                        k = k + 1;
                    }
                },
                Err(e) => {
                    proof {
                        if T::elem_type_spec() == old(self).etype_spec() {
                            let tail = rem0.len() - k * ib;
                            assert(0 < tail < ib);
                            lemma_fundamental_div_mod_converse(rem0.len() as int, ib, k, tail);
                            assert(rem0.len() as int % ib == tail);
                            assert(rem0.len() as int / ib == k);
                        } else {
                            assert(k == 0);
                            assert(buf@ =~= buf0);
                        }
                    }
                    return Err(e);
                },
            }
        }
    }

    /// Consumes the reader into a lazy stream of single scalars of kind `T`.
    /// The chosen kind must match the declared kind.
    pub fn elements<T: ElementScalar>(self) -> (r: Elements<T>)
        requires
            self.wf(),
            T::elem_type_spec() == self.etype_spec(),
        ensures
            r.wf(),
            r.remaining() == self.remaining(),
            r.dims_spec() == self.dims_spec(),
            r.etype_spec() == self.etype_spec(),
    {
        Elements { reader: self, elem_type: core::marker::PhantomData }
    }

    /// Consumes the reader into a lazy stream of whole items of kind `T`.
    /// The chosen kind must match the declared kind, and the tensor must have
    /// rank at least two for an item stream to mean anything.
    pub fn items<T: ElementScalar>(self) -> (r: Items<T>)
        requires
            self.wf(),
            T::elem_type_spec() == self.etype_spec(),
            self.dims_spec().len() > 1,
            item_size_spec(self.dims_spec()) <= usize::MAX,
        ensures
            r.wf(),
            r.remaining() == self.remaining(),
            r.dims_spec() == self.dims_spec(),
            r.etype_spec() == self.etype_spec(),
    {
        Items { reader: self, elem_type: core::marker::PhantomData }
    }
}

/// A lazy, pull-based stream of decoded scalars; it exclusively owns the
/// reader it was converted from.
#[derive(Debug)]
pub struct Elements<T: ElementScalar> {
    reader: IdxReader,
    elem_type: core::marker::PhantomData<T>,
}

impl<T: ElementScalar> Elements<T> {
    /// The reader is sound and the stream's scalar kind matches the declared
    /// one.
    pub closed spec fn wf(&self) -> bool {
        &&& self.reader.wf()
        &&& T::elem_type_spec() == self.reader.etype_spec()
    }

    /// The payload bytes not yet consumed.
    pub closed spec fn remaining(&self) -> Seq<u8> {
        self.reader.remaining()
    }

    /// The declared dimension sizes.
    pub closed spec fn dims_spec(&self) -> Seq<u32> {
        self.reader.dims_spec()
    }

    /// The declared scalar kind.
    pub closed spec fn etype_spec(&self) -> ElementType {
        self.reader.etype_spec()
    }

    /// One pull: decodes the next scalar. Yields nothing once the data ends
    /// exactly at a scalar boundary — the only normal end of the stream — and
    /// an `UnexpectedEof` failure when it ends mid-scalar.
    pub fn next(&mut self) -> (r: Option<Result<T, MnistError>>)
        requires
            old(self).wf(),
        ensures
            final(self).wf(),
            final(self).dims_spec() == old(self).dims_spec(),
            final(self).etype_spec() == old(self).etype_spec(),
            ({
                let w = T::elem_type_spec().size_spec() as int;
                if old(self).remaining().len() == 0 {
                    &&& r is None
                    &&& final(self).remaining() == old(self).remaining()
                } else if old(self).remaining().len() >= w {
                    &&& r == Some(Ok::<T, MnistError>(T::decode_spec(old(self).remaining().take(w))))
                    &&& final(self).remaining() == old(self).remaining().skip(w)
                } else {
                    &&& r == Some(Err::<T, MnistError>(MnistError::UnexpectedEof))
                    &&& final(self).remaining() == old(self).remaining()
                }
            }),
    {
        if self.reader.data.len() - self.reader.pos == 0 {
            return None;
        }
        match self.reader.read_element::<T>() {
            Ok(x) => Some(Ok(x)),
            Err(e) => Some(Err(e)),
        }
    }

    /// Pulls scalars until the stream ends: all of them when the payload is a
    /// whole number of scalars, an `UnexpectedEof` failure otherwise.
    #[verifier::loop_isolation(false)]
    pub fn collect_to_end(&mut self) -> (r: Result<Vec<T>, MnistError>)
        requires
            old(self).wf(),
        ensures
            final(self).wf(),
            final(self).dims_spec() == old(self).dims_spec(),
            final(self).etype_spec() == old(self).etype_spec(),
            ({
                let w = T::elem_type_spec().size_spec() as int;
                let n0 = old(self).remaining().len() as int;
                if n0 % w == 0 {
                    &&& r matches Ok(v)
                    &&& (r matches Ok(v) ==> v@ == decode_block::<T>(old(self).remaining(), n0 / w))
                    &&& final(self).remaining().len() == 0
                } else {
                    r == Err::<Vec<T>, MnistError>(MnistError::UnexpectedEof)
                }
            }),
    {
        let ghost rem0 = old(self).remaining();
        let ghost w = T::elem_type_spec().size_spec() as int;
        let ghost mut k: int = 0;
        let mut out: Vec<T> = Vec::new();
        proof {
            assert(T::elem_type_spec().size_spec() >= 1);
        }
        loop
            invariant
                self.wf(),
                self.dims_spec() == old(self).dims_spec(),
                self.etype_spec() == old(self).etype_spec(),
                0 <= k,
                k * w <= rem0.len(),
                self.remaining() == rem0.skip(k * w),
                out@.len() == k,
                forall|j: int|
                    0 <= j < k ==> out@[j] == T::decode_spec(
                        #[trigger] rem0.subrange(j * w, (j + 1) * w),
                    ),
            decreases rem0.len() - k * w,
        {
            match self.next() {
                None => {
                    proof {
                        assert(rem0.len() == k * w);
                        lemma_mod_multiples_basic(k, w);
                        lemma_div_by_multiple(k, w);
                        assert(out@ =~= decode_block::<T>(rem0, k));
                    }
                    return Ok(out);
                },
                Some(Ok(v)) => {
                    out.push(v);
                    proof {
                        assert(rem0.skip(k * w).take(w) =~= rem0.subrange(k * w, k * w + w));
                        assert(rem0.skip(k * w).skip(w) =~= rem0.skip(k * w + w));
                        assert((k + 1) * w == k * w + w) by (nonlinear_arith);
                        k = k + 1;
                    }
                },
                Some(Err(e)) => {
                    proof {
                        let tail = rem0.len() - k * w;
                        assert(0 < tail < w);
                        lemma_fundamental_div_mod_converse(rem0.len() as int, w, k, tail);
                        assert(rem0.len() as int % w == tail);
                    }
                    return Err(e);
                },
            }
        }
    }
}

/// A lazy, pull-based stream of decoded items; it exclusively owns the reader
/// it was converted from.
#[derive(Debug)]
pub struct Items<T: ElementScalar> {
    reader: IdxReader,
    elem_type: core::marker::PhantomData<T>,
}

impl<T: ElementScalar> Items<T> {
    /// The reader is sound, the stream's scalar kind matches the declared
    /// one, the tensor has an outer dimension to slice along, and one item's
    /// scalar count is addressable.
    pub closed spec fn wf(&self) -> bool {
        &&& self.reader.wf()
        &&& T::elem_type_spec() == self.reader.etype_spec()
        &&& self.reader.dims_spec().len() > 1
        &&& item_size_spec(self.reader.dims_spec()) <= usize::MAX
    }

    /// The payload bytes not yet consumed.
    pub closed spec fn remaining(&self) -> Seq<u8> {
        self.reader.remaining()
    }

    /// The declared dimension sizes.
    pub closed spec fn dims_spec(&self) -> Seq<u32> {
        self.reader.dims_spec()
    }

    /// The declared scalar kind.
    pub closed spec fn etype_spec(&self) -> ElementType {
        self.reader.etype_spec()
    }

    /// One pull: decodes the next whole item. Yields nothing once the data
    /// ends exactly at an item boundary — the only normal end of the stream —
    /// and an `UnexpectedEof` failure when it ends mid-item.
    pub fn next(&mut self) -> (r: Option<Result<Item<T>, MnistError>>)
        requires
            old(self).wf(),
        ensures
            final(self).wf(),
            final(self).dims_spec() == old(self).dims_spec(),
            final(self).etype_spec() == old(self).etype_spec(),
            ({
                let w = T::elem_type_spec().size_spec() as int;
                let isz = item_size_spec(old(self).dims_spec()) as int;
                let ib = isz * w;
                if old(self).remaining().len() == 0 {
                    &&& r is None
                    &&& final(self).remaining() == old(self).remaining()
                } else if old(self).remaining().len() >= ib {
                    &&& r matches Some(Ok(item))
                    &&& (r matches Some(Ok(item)) ==> {
                        &&& item.elems_spec() == decode_block::<T>(old(self).remaining(), isz)
                        &&& item.dims_spec() == item_geometry_spec(old(self).dims_spec())
                    })
                    &&& final(self).remaining() == old(self).remaining().skip(ib)
                } else {
                    &&& r == Some(Err::<Item<T>, MnistError>(MnistError::UnexpectedEof))
                    &&& final(self).remaining() == old(self).remaining().skip(
                        (old(self).remaining().len() as int / w) * w,
                    )
                }
            }),
    {
        if self.reader.data.len() - self.reader.pos == 0 {
            return None;
        }
        match self.reader.read_item::<T>() {
            Ok(x) => Some(Ok(x)),
            Err(e) => Some(Err(e)),
        }
    }

    /// Pulls items until the stream ends: all of them when the payload is a
    /// whole number of items, an `UnexpectedEof` failure otherwise.
    pub fn collect_to_end(&mut self) -> (r: Result<Vec<Item<T>>, MnistError>)
        requires
            old(self).wf(),
            item_size_spec(old(self).dims_spec()) >= 1,
        ensures
            final(self).wf(),
            final(self).dims_spec() == old(self).dims_spec(),
            final(self).etype_spec() == old(self).etype_spec(),
            ({
                let w = T::elem_type_spec().size_spec() as int;
                let isz = item_size_spec(old(self).dims_spec()) as int;
                let ib = isz * w;
                let n0 = old(self).remaining().len() as int;
                if n0 % ib == 0 {
                    &&& r matches Ok(v)
                    &&& (r matches Ok(v) ==> {
                        &&& v@.len() == n0 / ib
                        &&& forall|j: int|
                            0 <= j < n0 / ib ==> {
                                &&& (#[trigger] v@[j]).elems_spec() == decode_block::<T>(
                                    old(self).remaining().skip(j * ib),
                                    isz,
                                )
                                &&& v@[j].dims_spec() == item_geometry_spec(old(self).dims_spec())
                            }
                    })
                    &&& final(self).remaining().len() == 0
                } else {
                    r == Err::<Vec<Item<T>>, MnistError>(MnistError::UnexpectedEof)
                }
            }),
    {
        let ghost w = T::elem_type_spec().size_spec() as int;
        let ghost isz = item_size_spec(old(self).dims_spec()) as int;
        let ghost ib = isz * w;
        proof {
            assert(T::elem_type_spec().size_spec() >= 1);
            assert(isz * w >= 1) by (nonlinear_arith)
                requires
                    isz >= 1,
                    w >= 1,
            ;
        }
        let mut out: Vec<Item<T>> = Vec::new();
        match self.reader.read_items_to_end(&mut out) {
            Ok(()) => {
                let ghost n0 = old(self).remaining().len() as int;
                proof {
                    if n0 == 0 {
                        lemma_small_mod(0nat, ib as nat);
                        lemma_div_by_multiple(0, ib);
                    }
                    if n0 % ib == 0 {
                        assert forall|j: int| 0 <= j < n0 / ib implies {
                            &&& (#[trigger] out@[j]).elems_spec() == decode_block::<T>(
                                old(self).remaining().skip(j * ib),
                                isz,
                            )
                            &&& out@[j].dims_spec() == item_geometry_spec(old(self).dims_spec())
                        } by {
                            assert(out@[0 + j].elems_spec() == decode_block::<T>(
                                old(self).remaining().skip(j * ib),
                                isz,
                            ));
                            assert(out@[0 + j].dims_spec() == item_geometry_spec(
                                old(self).dims_spec(),
                            ));
                        }
                    }
                }
                Ok(out)
            },
            Err(e) => Err(e),
        }
    }
}

/// Law: a tensor of rank at least one holds exactly `dimension_sizes[0]`
/// items of `item_size` scalars each, so `num_elems` is their product; and
/// when the outer dimension is positive, `item_size` is `num_elems` divided
/// by it.
pub proof fn lemma_geometry(dims: Seq<u32>)
    requires
        dims.len() >= 1,
    ensures
        product(dims) == dims[0] * item_size_spec(dims),
        dims[0] >= 1 ==> item_size_spec(dims) == product(dims) as int / (dims[0] as int),
{
    assert(dims.drop_first() =~= dims.skip(1));
    assert(product(dims) == (dims.first() * product(dims.drop_first())) as nat);
    if dims[0] >= 1 {
        lemma_div_multiples_vanish(item_size_spec(dims) as int, dims[0] as int);
    }
}

/// Law: flat round trip. When the payload holds exactly the declared number
/// of scalars, the flat stream yields every one of them — `num_elems` values
/// — and then ends without error: the payload length is a whole number of
/// scalar widths, and dividing it out gives back `num_elems`, so
/// `Elements::collect_to_end` returns `Ok` with exactly that many values.
pub proof fn lemma_flat_round_trip<T: ElementScalar>(dims: Seq<u32>, payload: Seq<u8>)
    requires
        payload.len() == product(dims) * T::elem_type_spec().size_spec(),
    ensures
        payload.len() as int % (T::elem_type_spec().size_spec() as int) == 0,
        payload.len() as int / (T::elem_type_spec().size_spec() as int) == product(dims),
        decode_block::<T>(payload, product(dims) as int).len() == product(dims),
{
    let w = T::elem_type_spec().size_spec() as int;
    let n = product(dims) as int;
    assert(T::elem_type_spec().size_spec() >= 1);
    assert(n * w == w * n) by (nonlinear_arith);
    lemma_mod_multiples_basic(n, w);
    lemma_div_by_multiple(n, w);
}

/// Law: item round trip. When the payload of a tensor of rank at least one
/// holds exactly the declared number of scalars, it is a whole number of
/// items, and dividing it out gives back the outer dimension: over such data
/// `Items::collect_to_end` and `read_items_to_end` return `Ok` with exactly
/// `dimension_sizes[0]` items, each carrying the item geometry, whose scalar
/// count is `item_size`.
pub proof fn lemma_items_round_trip<T: ElementScalar>(dims: Seq<u32>, payload: Seq<u8>)
    requires
        dims.len() >= 1,
        item_size_spec(dims) >= 1,
        payload.len() == product(dims) * T::elem_type_spec().size_spec(),
    ensures
        payload.len() as int % (item_size_spec(dims) * T::elem_type_spec().size_spec()) == 0,
        payload.len() as int / (item_size_spec(dims) * T::elem_type_spec().size_spec())
            == dims[0],
        product(item_geometry_spec(dims)) == item_size_spec(dims),
{
    let w = T::elem_type_spec().size_spec() as int;
    let isz = item_size_spec(dims) as int;
    let ib = isz * w;
    let d0 = dims[0] as int;
    lemma_geometry(dims);
    assert(T::elem_type_spec().size_spec() >= 1);
    assert(payload.len() as int == d0 * ib) by (nonlinear_arith)
        requires
            payload.len() as int == (d0 * isz) * w,
            ib == isz * w,
    ;
    assert(ib >= 1) by (nonlinear_arith)
        requires
            isz >= 1,
            w >= 1,
            ib == isz * w,
    ;
    lemma_mod_multiples_basic(d0, ib);
    lemma_div_by_multiple(d0, ib);
}

} // verus!
