//! Images: raw RGBA pixel buffers, with an optional precomputed mip chain.
use vstd::prelude::*;

use crate::arena::AssetKey;

verus! {

/// The channel value of the 1x1 grey placeholder pixel.
pub const PLACEHOLDER_CHANNEL: u8 = 128;

/// An RGBA image. `data` holds 4 bytes per pixel, row-major; when a mip chain
/// has been installed, `mips` holds the full chain (level 0 first) and takes
/// over as the image's pixel data.
#[derive(Debug, Clone)]
pub struct Image {
    width: u32,
    height: u32,
    data: Vec<u8>,
    mips: Option<Mips>,
}

/// A precomputed mip chain: the concatenated levels and how many there are.
#[derive(Debug, Clone)]
pub struct Mips {
    pub level_count: u32,
    pub data: Vec<u8>,
}

impl Image {
    /// Structural soundness: without a mip chain the pixel buffer holds
    /// exactly 4 bytes per pixel; with one, the image is square with a
    /// power-of-two edge and the chain has the length and level count that the
    /// edge dictates.
    pub open spec fn wf(self) -> bool {
        if self.has_mips() {
            &&& self.width_spec() == self.height_spec()
            &&& is_power_of_two(self.width_spec() as nat)
            &&& self.mip_level_count_spec() == mip_level_count_spec(self.width_spec() as nat)
            &&& self.data_spec().len() == mip_chain_bytes_spec(self.width_spec() as nat)
        } else {
            self.data_spec().len() == 4 * self.width_spec() * self.height_spec()
        }
    }

    /// The pixel width.
    pub closed spec fn width_spec(self) -> u32 {
        self.width
    }

    /// The pixel height.
    pub closed spec fn height_spec(self) -> u32 {
        self.height
    }

    /// The bytes a caller sees: the mip chain when present, the plain pixel
    /// buffer otherwise.
    pub closed spec fn data_spec(self) -> Seq<u8> {
        match self.mips {
            Some(mips) => mips.data@,
            None => self.data@,
        }
    }

    /// How many mip levels the image carries.
    pub closed spec fn mip_level_count_spec(self) -> u32 {
        match self.mips {
            Some(mips) => mips.level_count,
            None => 1,
        }
    }

    /// Whether a mip chain has been installed.
    pub closed spec fn has_mips(self) -> bool {
        self.mips is Some
    }

    /// Whether this is the 1x1 mid-grey placeholder that `new_dummy` builds
    /// and `load` installs until the real image arrives.
    pub open spec fn is_placeholder(self) -> bool {
        &&& self.width_spec() == 1
        &&& self.height_spec() == 1
        &&& self.mip_level_count_spec() == 1
        &&& self.data_spec() == seq![PLACEHOLDER_CHANNEL, PLACEHOLDER_CHANNEL, PLACEHOLDER_CHANNEL, 255u8]
    }

    /// An image from a raw RGBA buffer.
    pub fn new(width: u32, height: u32, data: Vec<u8>) -> (img: Image)
        requires
            data@.len() == 4 * width * height,
        ensures
            img.wf(),
            img.width_spec() == width,
            img.height_spec() == height,
            img.data_spec() == data@,
            img.mip_level_count_spec() == 1,
    {
        Image { width, height, data, mips: None }
    }

    /// The 1x1 mid-grey placeholder shown until a real image is loaded.
    pub fn new_dummy() -> (img: Image)
        ensures
            img.wf(),
            img.is_placeholder(),
            img.width_spec() == 1,
            img.height_spec() == 1,
            img.mip_level_count_spec() == 1,
            img.data_spec() == seq![
                PLACEHOLDER_CHANNEL,
                PLACEHOLDER_CHANNEL,
                PLACEHOLDER_CHANNEL,
                255u8,
            ],
    {
        let data: Vec<u8> = vec![PLACEHOLDER_CHANNEL, PLACEHOLDER_CHANNEL, PLACEHOLDER_CHANNEL, 255];
        proof {
            assert(data@ =~= seq![
                PLACEHOLDER_CHANNEL,
                PLACEHOLDER_CHANNEL,
                PLACEHOLDER_CHANNEL,
                255u8,
            ]);
        }
        Image { width: 1, height: 1, data, mips: None }
    }

    /// The pixel width.
    pub fn width(&self) -> (w: u32)
        ensures
            w == self.width_spec(),
    {
        self.width
    }

    /// The pixel height.
    pub fn height(&self) -> (h: u32)
        ensures
            h == self.height_spec(),
    {
        self.height
    }

    /// The image's bytes: the mip chain when one is installed, otherwise the
    /// plain pixel buffer.
    pub fn data(&self) -> (d: &Vec<u8>)
        ensures
            d@ == self.data_spec(),
    {
        match &self.mips {
            Some(mips) => &mips.data,
            None => &self.data,
        }
    }

    /// How many mip levels the image carries; 1 until a chain is installed.
    pub fn mip_level_count(&self) -> (n: u32)
        ensures
            n == self.mip_level_count_spec(),
    {
        match &self.mips {
            Some(mips) => mips.level_count,
            None => 1,
        }
    }
}

impl AssetKey for Image {
    open spec fn type_key_spec() -> u64 {
        1
    }

    fn type_key() -> u64 {
        1
    }
}

/// Whether `n` is a power of two (and in particular nonzero).
pub open spec fn is_power_of_two(n: nat) -> bool
    decreases n,
{
    if n == 0 {
        false
    } else if n == 1 {
        true
    } else {
        n % 2 == 0 && is_power_of_two(n / 2)
    }
}

/// How many mip levels a square image of the given edge length has: one per
/// halving, down to the 1x1 level.
pub open spec fn mip_level_count_spec(size: nat) -> nat
    decreases size,
{
    if size <= 1 {
        1
    } else {
        1 + mip_level_count_spec(size / 2)
    }
}

/// How many bytes the full mip chain of a square RGBA image of the given edge
/// length takes: 4 bytes per pixel on every level.
pub open spec fn mip_chain_bytes_spec(size: nat) -> nat
    decreases size,
{
    if size == 0 {
        0
    } else if size == 1 {
        4
    } else {
        4 * size * size + mip_chain_bytes_spec(size / 2)
    }
}

} // verus!

verus! {

/// What decoding a byte buffer as an image yields: its dimensions and RGBA
/// pixels, or nothing when the bytes are not a decodable image. A function of
/// the bytes alone.
pub uninterp spec fn decoded_image(bytes: Seq<u8>) -> Option<(u32, u32, Seq<u8>)>;

/// Relies on `image::load_from_memory` and `DynamicImage::into_rgba8`: what a
/// byte buffer decodes to depends on the bytes alone, and the RGBA buffer
/// holds 4 bytes per pixel.
#[verifier::external_body]
fn decode_image_bytes(bytes: &[u8]) -> (r: Result<(u32, u32, Vec<u8>), String>)
    ensures
        r is Ok <==> decoded_image(bytes@) is Some,
        r matches Ok(t) ==> decoded_image(bytes@) == Some((t.0, t.1, t.2@)) && t.2@.len() == 4
            * t.0 * t.1,
{
    match image::load_from_memory(bytes) {
        Ok(dyn_image) => {
            let rgba = dyn_image.into_rgba8();
            let (width, height) = (rgba.width(), rgba.height());
            Ok((width, height, rgba.into_raw()))
        },
        Err(e) => Err(format!("{:?}", e)),
    }
}

impl Image {
    /// Decodes an in-memory image file (such as a PNG) into an RGBA image
    /// with a single mip level; fails exactly when the bytes do not decode.
    pub fn load_from_memory(data: &[u8]) -> (r: Result<Image, String>)
        ensures
            r is Ok <==> decoded_image(data@) is Some,
            r matches Ok(img) ==> {
                &&& img.wf()
                &&& decoded_image(data@) == Some(
                    (img.width_spec(), img.height_spec(), img.data_spec()),
                )
                &&& img.mip_level_count_spec() == 1
            },
    {
        match decode_image_bytes(data) {
            Ok((width, height, pixels)) => Ok(Image::new(width, height, pixels)),
            Err(e) => Err(e),
        }
    }

    /// Whether a mip chain can be generated for this image: it must be square
    /// with a power-of-two edge.
    pub fn can_make_mips(&self) -> (r: bool)
        ensures
            r == (self.width_spec() == self.height_spec() && is_power_of_two(
                self.width_spec() as nat,
            )),
    {
        self.width == self.height && size_is_power_of_two(self.width)
    }

    /// Installs a precomputed mip chain (level 0 first, every level 4 bytes
    /// per pixel): succeeds exactly when the image is square with a
    /// power-of-two edge and the chain has the right length; on failure the
    /// image is unchanged. The chain's pixel content is the host's
    /// downsampling work and is taken as given.
    pub fn install_mips(&mut self, chain: Vec<u8>) -> (r: Result<(), String>)
        requires
            old(self).wf(),
        ensures
            final(self).wf(),
            r is Ok <==> (old(self).width_spec() == old(self).height_spec() && is_power_of_two(
                old(self).width_spec() as nat,
            ) && chain@.len() == mip_chain_bytes_spec(old(self).width_spec() as nat)
                && chain@.subrange(
                0,
                4 * (old(self).width_spec() as int) * (old(self).width_spec() as int),
            ) == old(self).data_spec().subrange(
                0,
                4 * (old(self).width_spec() as int) * (old(self).width_spec() as int),
            )),
            r is Ok ==> {
                &&& final(self).width_spec() == old(self).width_spec()
                &&& final(self).height_spec() == old(self).height_spec()
                &&& final(self).data_spec() == chain@
                &&& final(self).mip_level_count_spec() == mip_level_count_spec(
                    old(self).width_spec() as nat,
                )
            },
            r is Err ==> *final(self) == *old(self),
    {
        if !(self.width == self.height && size_is_power_of_two(self.width)) {
            return Err(
                "mipmaps need a square image with power-of-two dimensions".to_owned(),
            );
        }
        let expected = mip_chain_bytes(self.width);
        if (chain.len() as u128) != expected {
            return Err("mip chain length does not match the image size".to_owned());
        }
        proof {
            lemma_mip_chain_at_least_level0(self.width as nat);
        }
        let level0_bytes = (4 * (self.width as u128) * (self.width as u128)) as usize;
        if !prefixes_equal(&chain, self.data(), level0_bytes) {
            return Err("mip chain does not start with the image's own pixels".to_owned());
        }
        let level_count = mip_level_count_for(self.width);
        self.mips = Some(Mips { level_count, data: chain });
        Ok(())
    }
}

/// Whether a size is a power of two, by repeated halving.
pub fn size_is_power_of_two(size: u32) -> (r: bool)
    ensures
        r == is_power_of_two(size as nat),
{
    let mut s = size;
    while s > 1
        invariant
            is_power_of_two(size as nat) == is_power_of_two(s as nat),
        decreases s,
    {
        if s % 2 == 1 {
            return false;
        }
        s = s / 2;
    }
    s == 1
}

/// How many mip levels a square image of the given edge length has.
pub fn mip_level_count_for(size: u32) -> (r: u32)
    ensures
        r == mip_level_count_spec(size as nat),
{
    let mut s = size;
    let mut count: u32 = 1;
    proof {
        assert(size >> 0u32 == size) by (bit_vector);
    }
    while s > 1
        invariant
            count >= 1,
            count <= 33,
            s <= size,
            mip_level_count_spec(size as nat) == count - 1 + mip_level_count_spec(s as nat),
            count - 1 <= 32,
            s > 1 ==> s <= size >> ((count - 1) as u32),
        decreases s,
    {
        proof {
            lemma_shr_halves(size, s, count);
        }
        s = s / 2;
        count = count + 1;
    }
    count
}

/// Helper for the level counter's bound: halving keeps the shifted bound.
proof fn lemma_shr_halves(size: u32, s: u32, count: u32)
    requires
        1 <= count <= 33,
        s > 1,
        count - 1 <= 32,
        s > 1 ==> s <= size >> ((count - 1) as u32),
    ensures
        count <= 32 ==> s / 2 <= size >> (count as u32),
        count == 33 ==> false,
{
    assert(s <= size >> ((count - 1) as u32));
    if count == 33 {
        assert(size >> 32u32 == 0) by (bit_vector);
        assert(false);
    } else {
        let c: u32 = (count - 1) as u32;
        assert(c < 32);
        assert(forall|x: u32, d: u32| d < 32 ==> #[trigger] (x >> d) / 2 == x >> (d + 1))
            by (bit_vector);
        assert((size >> c) / 2 == size >> ((c + 1) as u32));
        assert(s / 2 <= (size >> c) / 2);
    }
}

/// The byte length of the full mip chain of a square RGBA image.
pub fn mip_chain_bytes(size: u32) -> (r: u128)
    ensures
        r == mip_chain_bytes_spec(size as nat),
{
    let mut s = size;
    let mut acc: u128 = 0;
    proof {
        lemma_mip_chain_bytes_bound(size as nat);
        assert(8 * (size as int) * (size as int) + 4 <= 0x8000_0000_0000_0000_0004)
            by (nonlinear_arith)
            requires
                0 <= size <= 0xffff_ffff,
        ;
    }
    while s > 1
        invariant
            s <= size,
            acc + mip_chain_bytes_spec(s as nat) == mip_chain_bytes_spec(size as nat),
            mip_chain_bytes_spec(size as nat) <= 0x8000_0000_0000_0000_0004,
        decreases s,
    {
        proof {
            assert(mip_chain_bytes_spec(s as nat) == 4 * (s as nat) * (s as nat)
                + mip_chain_bytes_spec((s / 2) as nat));
            assert((s as int) * (s as int) <= 0xffff_ffff * 0xffff_ffff) by (nonlinear_arith)
                requires
                    0 <= s <= 0xffff_ffff,
            ;
        }
        let sq: u128 = (s as u128) * (s as u128);
        proof {
            assert(4 * (s as int) * (s as int) == 4 * ((s as int) * (s as int)))
                by (nonlinear_arith);
            assert(acc + 4 * sq <= mip_chain_bytes_spec(size as nat));
        }
        acc = acc + 4 * sq;
        s = s / 2;
    }
    if s == 1 {
        proof {
            assert(mip_chain_bytes_spec(1nat) == 4);
        }
        acc = acc + 4;
    }
    acc
}

/// A mip chain is at least as long as its top level.
pub proof fn lemma_mip_chain_at_least_level0(size: nat)
    requires
        is_power_of_two(size),
    ensures
        mip_chain_bytes_spec(size) >= 4 * size * size,
{
    if size > 1 {
        assert(mip_chain_bytes_spec(size) == 4 * size * size + mip_chain_bytes_spec(size / 2));
    }
}

/// The first `count` bytes of two buffers agree.
fn prefixes_equal(a: &Vec<u8>, b: &Vec<u8>, count: usize) -> (r: bool)
    requires
        count <= a@.len(),
        count <= b@.len(),
    ensures
        r == (a@.subrange(0, count as int) == b@.subrange(0, count as int)),
{
    for i in 0..count
        invariant
            count <= a@.len(),
            count <= b@.len(),
            forall|j: int| 0 <= j < i ==> a@[j] == b@[j],
    {
        if a[i] != b[i] {
            proof {
                assert(a@.subrange(0, count as int)[i as int] != b@.subrange(0, count as int)[
                    i as int
                ]);
            }
            return false;
        }
    }
    proof {
        assert(a@.subrange(0, count as int) =~= b@.subrange(0, count as int));
    }
    true
}

/// The mip chain of an image is never more than a little over twice its top
/// level's size.
pub proof fn lemma_mip_chain_bytes_bound(size: nat)
    ensures
        mip_chain_bytes_spec(size) <= 8 * size * size + 4,
    decreases size,
{
    if size > 1 {
        lemma_mip_chain_bytes_bound(size / 2);
        assert(8 * (size / 2) * (size / 2) + 4 * size * size <= 8 * size * size)
            by (nonlinear_arith)
            requires
                size > 1,
        ;
    }
}

} // verus!
