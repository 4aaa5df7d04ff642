use vstd::prelude::*;

verus! {

/// An RGBA color with 8-bit channels.
#[derive(Clone, Copy, Debug, PartialEq, Eq, Structural)]
pub struct Rgba {
    /// Red channel.
    pub r: u8,
    /// Green channel.
    pub g: u8,
    /// Blue channel.
    pub b: u8,
    /// Alpha channel.
    pub a: u8,
}

impl Default for Rgba {
    fn default() -> (c: Self)
        ensures
            c == (Rgba { r: 0, g: 0, b: 0, a: 0 }),
    {
        Rgba { r: 0, g: 0, b: 0, a: 0 }
    }
}

/// Errors that can be produced while reading or writing `.vox` data.
#[derive(Clone, Debug, PartialEq, Eq)]
pub enum VoxError {
    /// The input ended unexpectedly.
    UnexpectedEof,
    /// The file header is not valid `.vox` data.
    InvalidHeader,
    /// The file version is not supported.
    UnsupportedVersion(u32),
    /// A chunk is malformed.
    InvalidChunk(&'static str),
    /// The scene graph is malformed.
    InvalidNodeGraph(&'static str),
    /// The file contains invalid data.
    InvalidData(String),
    /// A referenced index is out of bounds.
    IndexOutOfBounds {
        /// The kind of index that was out of bounds.
        kind: &'static str,
        /// The invalid index value.
        index: usize,
        /// The length of the collection that was indexed.
        len: usize,
    },
    /// The requested required-color set is too large.
    TooManyRequiredColors(usize),
    /// Scene writing was cancelled by progress reporting.
    WriteCancelled,
    /// The generated file would exceed the 4 GiB `.vox` limit.
    FileTooLarge,
}


/// MagicaVoxel's default palette as 256 groups of four `r, g, b, a` bytes.
pub const DEFAULT_PALETTE_RAW: [u8; 1024] = [
    0xff, 0xff, 0xff, 0xff, 0xff, 0xff, 0xcc, 0xff, 0xff, 0xff, 0x99, 0xff, 0xff, 0xff, 0x66, 0xff,
    0xff, 0xff, 0x33, 0xff, 0xff, 0xff, 0x00, 0xff, 0xff, 0xcc, 0xff, 0xff, 0xff, 0xcc, 0xcc, 0xff,
    0xff, 0xcc, 0x99, 0xff, 0xff, 0xcc, 0x66, 0xff, 0xff, 0xcc, 0x33, 0xff, 0xff, 0xcc, 0x00, 0xff,
    0xff, 0x99, 0xff, 0xff, 0xff, 0x99, 0xcc, 0xff, 0xff, 0x99, 0x99, 0xff, 0xff, 0x99, 0x66, 0xff,
    0xff, 0x99, 0x33, 0xff, 0xff, 0x99, 0x00, 0xff, 0xff, 0x66, 0xff, 0xff, 0xff, 0x66, 0xcc, 0xff,
    0xff, 0x66, 0x99, 0xff, 0xff, 0x66, 0x66, 0xff, 0xff, 0x66, 0x33, 0xff, 0xff, 0x66, 0x00, 0xff,
    0xff, 0x33, 0xff, 0xff, 0xff, 0x33, 0xcc, 0xff, 0xff, 0x33, 0x99, 0xff, 0xff, 0x33, 0x66, 0xff,
    0xff, 0x33, 0x33, 0xff, 0xff, 0x33, 0x00, 0xff, 0xff, 0x00, 0xff, 0xff, 0xff, 0x00, 0xcc, 0xff,
    0xff, 0x00, 0x99, 0xff, 0xff, 0x00, 0x66, 0xff, 0xff, 0x00, 0x33, 0xff, 0xff, 0x00, 0x00, 0xff,
    0xcc, 0xff, 0xff, 0xff, 0xcc, 0xff, 0xcc, 0xff, 0xcc, 0xff, 0x99, 0xff, 0xcc, 0xff, 0x66, 0xff,
    0xcc, 0xff, 0x33, 0xff, 0xcc, 0xff, 0x00, 0xff, 0xcc, 0xcc, 0xff, 0xff, 0xcc, 0xcc, 0xcc, 0xff,
    0xcc, 0xcc, 0x99, 0xff, 0xcc, 0xcc, 0x66, 0xff, 0xcc, 0xcc, 0x33, 0xff, 0xcc, 0xcc, 0x00, 0xff,
    0xcc, 0x99, 0xff, 0xff, 0xcc, 0x99, 0xcc, 0xff, 0xcc, 0x99, 0x99, 0xff, 0xcc, 0x99, 0x66, 0xff,
    0xcc, 0x99, 0x33, 0xff, 0xcc, 0x99, 0x00, 0xff, 0xcc, 0x66, 0xff, 0xff, 0xcc, 0x66, 0xcc, 0xff,
    0xcc, 0x66, 0x99, 0xff, 0xcc, 0x66, 0x66, 0xff, 0xcc, 0x66, 0x33, 0xff, 0xcc, 0x66, 0x00, 0xff,
    0xcc, 0x33, 0xff, 0xff, 0xcc, 0x33, 0xcc, 0xff, 0xcc, 0x33, 0x99, 0xff, 0xcc, 0x33, 0x66, 0xff,
    0xcc, 0x33, 0x33, 0xff, 0xcc, 0x33, 0x00, 0xff, 0xcc, 0x00, 0xff, 0xff, 0xcc, 0x00, 0xcc, 0xff,
    0xcc, 0x00, 0x99, 0xff, 0xcc, 0x00, 0x66, 0xff, 0xcc, 0x00, 0x33, 0xff, 0xcc, 0x00, 0x00, 0xff,
    0x99, 0xff, 0xff, 0xff, 0x99, 0xff, 0xcc, 0xff, 0x99, 0xff, 0x99, 0xff, 0x99, 0xff, 0x66, 0xff,
    0x99, 0xff, 0x33, 0xff, 0x99, 0xff, 0x00, 0xff, 0x99, 0xcc, 0xff, 0xff, 0x99, 0xcc, 0xcc, 0xff,
    0x99, 0xcc, 0x99, 0xff, 0x99, 0xcc, 0x66, 0xff, 0x99, 0xcc, 0x33, 0xff, 0x99, 0xcc, 0x00, 0xff,
    0x99, 0x99, 0xff, 0xff, 0x99, 0x99, 0xcc, 0xff, 0x99, 0x99, 0x99, 0xff, 0x99, 0x99, 0x66, 0xff,
    0x99, 0x99, 0x33, 0xff, 0x99, 0x99, 0x00, 0xff, 0x99, 0x66, 0xff, 0xff, 0x99, 0x66, 0xcc, 0xff,
    0x99, 0x66, 0x99, 0xff, 0x99, 0x66, 0x66, 0xff, 0x99, 0x66, 0x33, 0xff, 0x99, 0x66, 0x00, 0xff,
    0x99, 0x33, 0xff, 0xff, 0x99, 0x33, 0xcc, 0xff, 0x99, 0x33, 0x99, 0xff, 0x99, 0x33, 0x66, 0xff,
    0x99, 0x33, 0x33, 0xff, 0x99, 0x33, 0x00, 0xff, 0x99, 0x00, 0xff, 0xff, 0x99, 0x00, 0xcc, 0xff,
    0x99, 0x00, 0x99, 0xff, 0x99, 0x00, 0x66, 0xff, 0x99, 0x00, 0x33, 0xff, 0x99, 0x00, 0x00, 0xff,
    0x66, 0xff, 0xff, 0xff, 0x66, 0xff, 0xcc, 0xff, 0x66, 0xff, 0x99, 0xff, 0x66, 0xff, 0x66, 0xff,
    0x66, 0xff, 0x33, 0xff, 0x66, 0xff, 0x00, 0xff, 0x66, 0xcc, 0xff, 0xff, 0x66, 0xcc, 0xcc, 0xff,
    0x66, 0xcc, 0x99, 0xff, 0x66, 0xcc, 0x66, 0xff, 0x66, 0xcc, 0x33, 0xff, 0x66, 0xcc, 0x00, 0xff,
    0x66, 0x99, 0xff, 0xff, 0x66, 0x99, 0xcc, 0xff, 0x66, 0x99, 0x99, 0xff, 0x66, 0x99, 0x66, 0xff,
    0x66, 0x99, 0x33, 0xff, 0x66, 0x99, 0x00, 0xff, 0x66, 0x66, 0xff, 0xff, 0x66, 0x66, 0xcc, 0xff,
    0x66, 0x66, 0x99, 0xff, 0x66, 0x66, 0x66, 0xff, 0x66, 0x66, 0x33, 0xff, 0x66, 0x66, 0x00, 0xff,
    0x66, 0x33, 0xff, 0xff, 0x66, 0x33, 0xcc, 0xff, 0x66, 0x33, 0x99, 0xff, 0x66, 0x33, 0x66, 0xff,
    0x66, 0x33, 0x33, 0xff, 0x66, 0x33, 0x00, 0xff, 0x66, 0x00, 0xff, 0xff, 0x66, 0x00, 0xcc, 0xff,
    0x66, 0x00, 0x99, 0xff, 0x66, 0x00, 0x66, 0xff, 0x66, 0x00, 0x33, 0xff, 0x66, 0x00, 0x00, 0xff,
    0x33, 0xff, 0xff, 0xff, 0x33, 0xff, 0xcc, 0xff, 0x33, 0xff, 0x99, 0xff, 0x33, 0xff, 0x66, 0xff,
    0x33, 0xff, 0x33, 0xff, 0x33, 0xff, 0x00, 0xff, 0x33, 0xcc, 0xff, 0xff, 0x33, 0xcc, 0xcc, 0xff,
    0x33, 0xcc, 0x99, 0xff, 0x33, 0xcc, 0x66, 0xff, 0x33, 0xcc, 0x33, 0xff, 0x33, 0xcc, 0x00, 0xff,
    0x33, 0x99, 0xff, 0xff, 0x33, 0x99, 0xcc, 0xff, 0x33, 0x99, 0x99, 0xff, 0x33, 0x99, 0x66, 0xff,
    0x33, 0x99, 0x33, 0xff, 0x33, 0x99, 0x00, 0xff, 0x33, 0x66, 0xff, 0xff, 0x33, 0x66, 0xcc, 0xff,
    0x33, 0x66, 0x99, 0xff, 0x33, 0x66, 0x66, 0xff, 0x33, 0x66, 0x33, 0xff, 0x33, 0x66, 0x00, 0xff,
    0x33, 0x33, 0xff, 0xff, 0x33, 0x33, 0xcc, 0xff, 0x33, 0x33, 0x99, 0xff, 0x33, 0x33, 0x66, 0xff,
    0x33, 0x33, 0x33, 0xff, 0x33, 0x33, 0x00, 0xff, 0x33, 0x00, 0xff, 0xff, 0x33, 0x00, 0xcc, 0xff,
    0x33, 0x00, 0x99, 0xff, 0x33, 0x00, 0x66, 0xff, 0x33, 0x00, 0x33, 0xff, 0x33, 0x00, 0x00, 0xff,
    0x00, 0xff, 0xff, 0xff, 0x00, 0xff, 0xcc, 0xff, 0x00, 0xff, 0x99, 0xff, 0x00, 0xff, 0x66, 0xff,
    0x00, 0xff, 0x33, 0xff, 0x00, 0xff, 0x00, 0xff, 0x00, 0xcc, 0xff, 0xff, 0x00, 0xcc, 0xcc, 0xff,
    0x00, 0xcc, 0x99, 0xff, 0x00, 0xcc, 0x66, 0xff, 0x00, 0xcc, 0x33, 0xff, 0x00, 0xcc, 0x00, 0xff,
    0x00, 0x99, 0xff, 0xff, 0x00, 0x99, 0xcc, 0xff, 0x00, 0x99, 0x99, 0xff, 0x00, 0x99, 0x66, 0xff,
    0x00, 0x99, 0x33, 0xff, 0x00, 0x99, 0x00, 0xff, 0x00, 0x66, 0xff, 0xff, 0x00, 0x66, 0xcc, 0xff,
    0x00, 0x66, 0x99, 0xff, 0x00, 0x66, 0x66, 0xff, 0x00, 0x66, 0x33, 0xff, 0x00, 0x66, 0x00, 0xff,
    0x00, 0x33, 0xff, 0xff, 0x00, 0x33, 0xcc, 0xff, 0x00, 0x33, 0x99, 0xff, 0x00, 0x33, 0x66, 0xff,
    0x00, 0x33, 0x33, 0xff, 0x00, 0x33, 0x00, 0xff, 0x00, 0x00, 0xff, 0xff, 0x00, 0x00, 0xcc, 0xff,
    0x00, 0x00, 0x99, 0xff, 0x00, 0x00, 0x66, 0xff, 0x00, 0x00, 0x33, 0xff, 0xee, 0x00, 0x00, 0xff,
    0xdd, 0x00, 0x00, 0xff, 0xbb, 0x00, 0x00, 0xff, 0xaa, 0x00, 0x00, 0xff, 0x88, 0x00, 0x00, 0xff,
    0x77, 0x00, 0x00, 0xff, 0x55, 0x00, 0x00, 0xff, 0x44, 0x00, 0x00, 0xff, 0x22, 0x00, 0x00, 0xff,
    0x11, 0x00, 0x00, 0xff, 0x00, 0xee, 0x00, 0xff, 0x00, 0xdd, 0x00, 0xff, 0x00, 0xbb, 0x00, 0xff,
    0x00, 0xaa, 0x00, 0xff, 0x00, 0x88, 0x00, 0xff, 0x00, 0x77, 0x00, 0xff, 0x00, 0x55, 0x00, 0xff,
    0x00, 0x44, 0x00, 0xff, 0x00, 0x22, 0x00, 0xff, 0x00, 0x11, 0x00, 0xff, 0x00, 0x00, 0xee, 0xff,
    0x00, 0x00, 0xdd, 0xff, 0x00, 0x00, 0xbb, 0xff, 0x00, 0x00, 0xaa, 0xff, 0x00, 0x00, 0x88, 0xff,
    0x00, 0x00, 0x77, 0xff, 0x00, 0x00, 0x55, 0xff, 0x00, 0x00, 0x44, 0xff, 0x00, 0x00, 0x22, 0xff,
    0x00, 0x00, 0x11, 0xff, 0xee, 0xee, 0xee, 0xff, 0xdd, 0xdd, 0xdd, 0xff, 0xbb, 0xbb, 0xbb, 0xff,
    0xaa, 0xaa, 0xaa, 0xff, 0x88, 0x88, 0x88, 0xff, 0x77, 0x77, 0x77, 0xff, 0x55, 0x55, 0x55, 0xff,
    0x44, 0x44, 0x44, 0xff, 0x22, 0x22, 0x22, 0xff, 0x11, 0x11, 0x11, 0xff, 0x00, 0x00, 0x00, 0xff,
];

/// The palette entry that `raw_default` places at `index`.
pub open spec fn raw_default_color(index: int) -> Rgba {
    Rgba {
        r: DEFAULT_PALETTE_RAW@[4 * index],
        g: DEFAULT_PALETTE_RAW@[4 * index + 1],
        b: DEFAULT_PALETTE_RAW@[4 * index + 2],
        a: DEFAULT_PALETTE_RAW@[4 * index + 3],
    }
}


/// A fixed 256-entry palette.
#[derive(Clone, Debug, PartialEq, Eq)]
pub struct Palette {
    /// Palette entries indexed from `0` to `255`.
    pub colors: [Rgba; 256],
}

/// The scene palette: the raw default palette rotated by one entry, so that
/// entry `0` holds the raw palette's last color with its alpha cleared.
pub open spec fn scene_palette_color(raw: Seq<Rgba>, index: int) -> Rgba {
    if index == 0 {
        Rgba { a: 0, ..raw[255] }
    } else {
        raw[index - 1]
    }
}

impl Palette {
    /// Returns MagicaVoxel's raw default palette.
    pub fn raw_default() -> (palette: Self)
        ensures
            forall|i: int| 0 <= i < 256 ==> #[trigger] palette.colors@[i] == raw_default_color(i),
    {
        let mut colors = [Rgba { r: 0, g: 0, b: 0, a: 0 }; 256];
        let mut index: usize = 0;
        while index < 256
            invariant
                index <= 256,
                forall|i: int| 0 <= i < index ==> #[trigger] colors@[i] == raw_default_color(i),
            decreases 256 - index,
        {
            colors[index] = Rgba {
                r: DEFAULT_PALETTE_RAW[4 * index],
                g: DEFAULT_PALETTE_RAW[4 * index + 1],
                b: DEFAULT_PALETTE_RAW[4 * index + 2],
                a: DEFAULT_PALETTE_RAW[4 * index + 3],
            };
            index += 1;
        }
        Palette { colors }
    }

    /// Returns the scene palette used by [`Default`] for [`Palette`].
    pub fn default_scene_palette() -> (palette: Self)
        ensures
            forall|i: int|
                0 <= i < 256 ==> #[trigger] palette.colors@[i] == scene_palette_color(
                    Seq::new(256, |j: int| raw_default_color(j)),
                    i,
                ),
    {
        let mut palette = Self::raw_default();
        rotate_palette_right(&mut palette.colors);
        palette
    }
}

/// Moves every palette entry up by one index and puts the former last entry, with
/// its alpha cleared, at index `0`.
pub fn rotate_palette_right(colors: &mut [Rgba; 256])
    ensures
        forall|i: int|
            0 <= i < 256 ==> #[trigger] final(colors)@[i] == scene_palette_color(old(colors)@, i),
{
    let ghost original = colors@;
    let last = colors[255];
    let mut index: usize = 255;
    while index > 0
        invariant
            0 <= index <= 255,
            last == original[255],
            forall|i: int| 0 <= i <= index ==> #[trigger] colors@[i] == original[i],
            forall|i: int| index < i < 256 ==> #[trigger] colors@[i] == original[i - 1],
        decreases index,
    {
        colors[index] = colors[index - 1];
        index -= 1;
    }
    colors[0] = Rgba { a: 0, ..last };
}

impl Default for Palette {
    fn default() -> (palette: Self)
        ensures
            forall|i: int|
                0 <= i < 256 ==> #[trigger] palette.colors@[i] == scene_palette_color(
                    Seq::new(256, |j: int| raw_default_color(j)),
                    i,
                ),
    {
        Self::default_scene_palette()
    }
}

/// Material families supported by scene materials.
#[derive(Clone, Copy, Debug, PartialEq, Eq, Structural)]
pub enum MaterialType {
    /// The default diffuse material.
    Diffuse,
    /// A metallic material.
    Metal,
    /// A glass-like material.
    Glass,
    /// An emissive material.
    Emit,
    /// A blended material.
    Blend,
    /// A volumetric medium material.
    Media,
}

impl Default for MaterialType {
    fn default() -> (t: Self)
        ensures
            t == MaterialType::Diffuse,
    {
        MaterialType::Diffuse
    }
}

/// Media interaction modes supported by scene materials.
#[derive(Clone, Copy, Debug, PartialEq, Eq, Structural)]
pub enum MediaType {
    /// The medium absorbs light.
    Absorb,
    /// The medium scatters light.
    Scatter,
    /// The medium emits light.
    Emit,
    /// A subsurface-scattering medium.
    Sss,
}

impl Default for MediaType {
    fn default() -> (t: Self)
        ensures
            t == MediaType::Absorb,
    {
        MediaType::Absorb
    }
}

/// Camera modes supported by MagicaVoxel.
#[derive(Clone, Copy, Debug, PartialEq, Eq, Structural)]
pub enum CameraMode {
    /// Perspective projection.
    Perspective,
    /// Free-form camera movement.
    Free,
    /// Panorama projection.
    Pano,
    /// Orthographic projection.
    Orthographic,
    /// Isometric projection.
    Isometric,
    /// A mode not recognized by this crate.
    Unknown,
}

impl Default for CameraMode {
    fn default() -> (m: Self)
        ensures
            m == CameraMode::Perspective,
    {
        CameraMode::Perspective
    }
}

/// A voxel model with dimensions and linear voxel data.
#[derive(Clone, Debug, PartialEq, Eq)]
pub struct Model {
    /// Size along the x axis.
    pub size_x: u32,
    /// Size along the y axis.
    pub size_y: u32,
    /// Size along the z axis.
    pub size_z: u32,
    /// Voxel color indices stored in x-major order, then y, then z.
    pub voxels: Vec<u8>,
}

/// The number of entries of `voxels` that are not zero.
pub open spec fn count_solid(voxels: Seq<u8>) -> nat
    decreases voxels.len(),
{
    if voxels.len() == 0 {
        0
    } else {
        count_solid(voxels.drop_last()) + if voxels.last() != 0 { 1nat } else { 0nat }
    }
}

/// No more voxels are solid than there are voxels.
pub proof fn lemma_count_solid_bound(voxels: Seq<u8>)
    ensures
        count_solid(voxels) <= voxels.len(),
    decreases voxels.len(),
{
    if voxels.len() > 0 {
        lemma_count_solid_bound(voxels.drop_last());
    }
}

/// The number of voxel slots that a model's dimensions imply.
pub open spec fn slot_count(size_x: u32, size_y: u32, size_z: u32) -> int {
    size_x * size_y * size_z
}

/// Whether the slot count, computed as `(size_x * size_y) * size_z`, fits a `usize`
/// at every step.
pub open spec fn voxel_count_fits(size_x: u32, size_y: u32, size_z: u32) -> bool {
    size_x * size_y <= usize::MAX && slot_count(size_x, size_y, size_z) <= usize::MAX
}

impl Model {
    /// Returns the number of voxel slots implied by the model dimensions.
    pub fn voxel_count(&self) -> (count: Result<usize, VoxError>)
        ensures
            voxel_count_fits(self.size_x, self.size_y, self.size_z) ==> count == Ok::<usize, VoxError>(
                slot_count(self.size_x, self.size_y, self.size_z) as usize,
            ),
            !voxel_count_fits(self.size_x, self.size_y, self.size_z) ==> count matches Err(
                VoxError::InvalidData(_),
            ),
    {
        let size_x = self.size_x as usize;
        let size_y = self.size_y as usize;
        let size_z = self.size_z as usize;
        match size_x.checked_mul(size_y) {
            Some(xy) => match xy.checked_mul(size_z) {
                Some(xyz) => {
                    assert(xyz == slot_count(self.size_x, self.size_y, self.size_z)) by (nonlinear_arith)
                        requires
                            xy == size_x * size_y,
                            xyz == xy * size_z,
                            size_x == self.size_x,
                            size_y == self.size_y,
                            size_z == self.size_z,
                    ;
                    Ok(xyz)
                },
                None => {
                    assert(slot_count(self.size_x, self.size_y, self.size_z) > usize::MAX) by (nonlinear_arith)
                        requires
                            xy == size_x * size_y,
                            xy * size_z > usize::MAX,
                            size_x == self.size_x,
                            size_y == self.size_y,
                            size_z == self.size_z,
                    ;
                    Err(VoxError::InvalidData("model voxel count overflow".to_string()))
                },
            },
            None => {
                Err(VoxError::InvalidData("model voxel count overflow".to_string()))
            },
        }
    }

    /// Counts voxels whose color index is not zero.
    pub fn solid_voxel_count(&self) -> (count: usize)
        ensures
            count == count_solid(self.voxels@),
    {
        let mut count: usize = 0;
        let mut index: usize = 0;
        while index < self.voxels.len()
            invariant
                index <= self.voxels.len(),
                count == count_solid(self.voxels@.take(index as int)),
                count <= index,
            decreases self.voxels.len() - index,
        {
            assert(self.voxels@.take(index as int + 1).drop_last() == self.voxels@.take(index as int));
            if self.voxels[index] != 0 {
                count += 1;
            }
            index += 1;
        }
        assert(self.voxels@.take(index as int) == self.voxels@);
        count
    }
}


/// A model index sampled at a specific animation frame.
#[derive(Clone, Copy, Debug, PartialEq, Eq, Structural)]
pub struct KeyframeModel {
    /// Frame at which this model index applies.
    pub frame_index: u32,
    /// Model index for the frame.
    pub model_index: usize,
}

/// Model keyframes and looping state for a node.
#[derive(Clone, Debug, PartialEq, Eq)]
pub struct AnimModel {
    /// Ordered model keyframes.
    pub keyframes: Vec<KeyframeModel>,
    /// Whether animation should loop.
    pub looped: bool,
}

impl Default for AnimModel {
    fn default() -> (anim: Self)
        ensures
            anim.keyframes@.len() == 0,
            !anim.looped,
    {
        AnimModel { keyframes: Vec::new(), looped: false }
    }
}

impl AnimModel {
    /// Returns `true` when no model keyframes are stored.
    pub fn is_empty(&self) -> (empty: bool)
        ensures
            empty == (self.keyframes@.len() == 0),
    {
        self.keyframes.len() == 0
    }
}

/// Whether a loop running from `first` to `last` can be evaluated: the loop must
/// not run backwards, and `1 + last` must fit a `u32`.
pub open spec fn loop_range_ok(first: u32, last: u32) -> bool {
    first <= last < u32::MAX
}

/// The frame that `frame` maps to inside the loop `first..=last`.
pub open spec fn looped_frame(first: u32, last: u32, frame: u32) -> int {
    let len = 1 + last - first;
    if frame >= first {
        first + (frame - first) % len
    } else {
        last - ((first - frame - 1) % len)
    }
}

/// Maps `frame_index` into the loop that runs from `first_loop_frame` to
/// `last_loop_frame`, both included.
pub fn compute_looped_frame_index(first_loop_frame: u32, last_loop_frame: u32, frame_index: u32) -> (frame: u32)
    requires
        loop_range_ok(first_loop_frame, last_loop_frame),
    ensures
        frame == looped_frame(first_loop_frame, last_loop_frame, frame_index),
        first_loop_frame <= frame <= last_loop_frame,
{
    let loop_len = 1 + last_loop_frame - first_loop_frame;
    if frame_index >= first_loop_frame {
        let offset = (frame_index - first_loop_frame) % loop_len;
        assert(offset < loop_len);
        first_loop_frame + offset
    } else {
        let frames_since_first_frame = first_loop_frame - frame_index - 1;
        let offset = frames_since_first_frame % loop_len;
        assert(offset < loop_len);
        last_loop_frame - offset
    }
}

/// Law: the looped frame lies in the loop and differs from the requested frame by
/// a whole number of loop lengths.
pub proof fn looped_frame_is_congruent(first: u32, last: u32, frame: u32)
    requires
        loop_range_ok(first, last),
    ensures
        first <= looped_frame(first, last, frame) <= last,
        (looped_frame(first, last, frame) - frame) % (1 + last - first) == 0,
{
    let len: int = 1 + last - first;
    if frame >= first {
        let d: int = frame - first;
        let q: int = d / len;
        vstd::arithmetic::div_mod::lemma_fundamental_div_mod(d, len);
        vstd::arithmetic::div_mod::lemma_mod_bound(d, len);
        vstd::arithmetic::div_mod::lemma_mod_multiples_basic(-q, len);
        vstd::arithmetic::mul::lemma_mul_is_commutative(len, q);
        vstd::arithmetic::mul::lemma_mul_unary_negation(q, len);
        assert(looped_frame(first, last, frame) - frame == (-q) * len);
    } else {
        let d: int = first - frame - 1;
        let q: int = d / len;
        vstd::arithmetic::div_mod::lemma_fundamental_div_mod(d, len);
        vstd::arithmetic::div_mod::lemma_mod_bound(d, len);
        vstd::arithmetic::div_mod::lemma_mod_multiples_basic(1 + q, len);
        vstd::arithmetic::mul::lemma_mul_is_commutative(len, q);
        vstd::arithmetic::mul::lemma_mul_is_distributive_add_other_way(len, 1, q);
        assert(looped_frame(first, last, frame) - frame == (1 + q) * len);
    }
}

/// Whether model keyframes can be sampled: there is at least one, and a looped
/// animation runs forwards from its first to its last keyframe.
pub open spec fn anim_model_samplable(keyframes: Seq<KeyframeModel>, looped: bool) -> bool {
    &&& keyframes.len() > 0
    &&& (looped && keyframes.len() > 1) ==> loop_range_ok(
        keyframes[0].frame_index,
        keyframes.last().frame_index,
    )
}

/// The greatest index `i <= from` whose keyframe starts at or before `frame`, or `0`.
pub open spec fn last_model_keyframe_at_or_before(keyframes: Seq<KeyframeModel>, frame: int, from: int) -> int
    decreases from,
{
    if from <= 0 {
        0
    } else if frame >= keyframes[from].frame_index {
        from
    } else {
        last_model_keyframe_at_or_before(keyframes, frame, from - 1)
    }
}

/// The frame at which model keyframes are evaluated: looped animations map the
/// requested frame into the loop of their first and last keyframes.
pub open spec fn effective_model_frame(keyframes: Seq<KeyframeModel>, looped: bool, frame: u32) -> int {
    if looped {
        looped_frame(keyframes[0].frame_index, keyframes.last().frame_index, frame)
    } else {
        frame as int
    }
}

/// The model index that model keyframes select at `frame`.
pub open spec fn sampled_model_index(keyframes: Seq<KeyframeModel>, looped: bool, frame: u32) -> usize {
    let last = keyframes.len() - 1;
    if keyframes.len() == 1 {
        keyframes[0].model_index
    } else {
        let f = effective_model_frame(keyframes, looped, frame);
        if f <= keyframes[0].frame_index {
            keyframes[0].model_index
        } else if f >= keyframes[last].frame_index {
            keyframes[last].model_index
        } else {
            keyframes[last_model_keyframe_at_or_before(keyframes, f, last - 1)].model_index
        }
    }
}

/// Returns the model index that `anim` selects at `frame_index`.
pub fn sample_anim_model(anim: &AnimModel, frame_index: u32) -> (model_index: usize)
    requires
        anim_model_samplable(anim.keyframes@, anim.looped),
    ensures
        model_index == sampled_model_index(anim.keyframes@, anim.looped, frame_index),
{
    let keyframes = &anim.keyframes;
    let len = keyframes.len();
    if len == 1 {
        return keyframes[0].model_index;
    }
    let frame = if anim.looped {
        compute_looped_frame_index(keyframes[0].frame_index, keyframes[len - 1].frame_index, frame_index)
    } else {
        frame_index
    };
    assert(frame == effective_model_frame(keyframes@, anim.looped, frame_index));
    if frame <= keyframes[0].frame_index {
        return keyframes[0].model_index;
    }
    if frame >= keyframes[len - 1].frame_index {
        return keyframes[len - 1].model_index;
    }
    let index = find_model_keyframe(keyframes, frame, len - 2);
    keyframes[index].model_index
}

/// Finds the greatest keyframe index `i <= from` whose keyframe starts at or
/// before `frame`, or `0` when there is none.
fn find_model_keyframe(keyframes: &Vec<KeyframeModel>, frame: u32, from: usize) -> (index: usize)
    requires
        from < keyframes@.len(),
    ensures
        index == last_model_keyframe_at_or_before(keyframes@, frame as int, from as int),
        index <= from,
{
    let mut index: usize = from;
    while index > 0
        invariant
            index <= from < keyframes@.len(),
            last_model_keyframe_at_or_before(keyframes@, frame as int, from as int)
                == last_model_keyframe_at_or_before(keyframes@, frame as int, index as int),
        decreases index,
    {
        if frame >= keyframes[index].frame_index {
            return index;
        }
        index -= 1;
    }
    0
}

/// The keyframe that the search from `from` down finds is at or before the
/// frame when the first keyframe is, and every keyframe after it up to `from`
/// starts later.
proof fn lemma_model_search(keyframes: Seq<KeyframeModel>, frame: int, from: int)
    requires
        0 <= from < keyframes.len(),
    ensures
        0 <= last_model_keyframe_at_or_before(keyframes, frame, from) <= from,
        frame >= keyframes[0].frame_index ==> keyframes[last_model_keyframe_at_or_before(keyframes, frame, from)].frame_index
            <= frame,
        forall|j: int|
            last_model_keyframe_at_or_before(keyframes, frame, from) < j <= from ==> frame
                < (#[trigger] keyframes[j]).frame_index,
    decreases from,
{
    if from > 0 && frame < keyframes[from].frame_index {
        lemma_model_search(keyframes, frame, from - 1);
    }
}

/// The frame at which keyframes are looked up: a looped animation of more than
/// one keyframe maps the requested frame into the loop from its first to its
/// last keyframe.
pub open spec fn model_frame(keyframes: Seq<KeyframeModel>, looped: bool, frame: u32) -> int {
    if looped && keyframes.len() > 1 {
        looped_frame(keyframes[0].frame_index, keyframes.last().frame_index, frame)
    } else {
        frame as int
    }
}

/// Law: the model that model keyframes select at a frame is that of the first
/// keyframe up to it; past it, that of the last keyframe from it on, and before
/// it that of the keyframe at or before the frame after which every keyframe
/// starts later. A looped animation first maps the frame into its loop.
pub proof fn sampled_model_is_latest_started(keyframes: Seq<KeyframeModel>, looped: bool, frame: u32)
    requires
        anim_model_samplable(keyframes, looped),
    ensures
        keyframes.len() == 1 ==> sampled_model_index(keyframes, looped, frame) == keyframes[0].model_index,
        keyframes.len() > 1 && model_frame(keyframes, looped, frame) <= keyframes[0].frame_index ==> sampled_model_index(
            keyframes,
            looped,
            frame,
        ) == keyframes[0].model_index,
        keyframes.len() > 1 && keyframes[0].frame_index < model_frame(keyframes, looped, frame)
            && model_frame(keyframes, looped, frame) >= keyframes.last().frame_index ==> sampled_model_index(keyframes, looped, frame) == keyframes.last().model_index,
        forall|i: int|
            keyframes.len() > 1 && keyframes[0].frame_index < model_frame(keyframes, looped, frame)
                < keyframes.last().frame_index && 0 <= i < keyframes.len() && (#[trigger] keyframes[i]).frame_index
                <= model_frame(keyframes, looped, frame) && (forall|j: int|
                i < j < keyframes.len() ==> model_frame(keyframes, looped, frame) < (#[trigger] keyframes[j]).frame_index)
                ==> sampled_model_index(keyframes, looped, frame) == keyframes[i].model_index,
{
    let last = keyframes.len() - 1;
    if keyframes.len() > 1 {
        let f = effective_model_frame(keyframes, looped, frame);
        assert(f == model_frame(keyframes, looped, frame));
        if keyframes[0].frame_index < f < keyframes[last].frame_index {
            lemma_model_search(keyframes, f, last - 1);
            let found = last_model_keyframe_at_or_before(keyframes, f, last - 1);
            assert forall|i: int|
                0 <= i < keyframes.len() && (#[trigger] keyframes[i]).frame_index <= f && (forall|j: int|
                    i < j < keyframes.len() ==> f < (#[trigger] keyframes[j]).frame_index) implies found == i by {
                if found < i {
                    assert(i <= last - 1);
                    assert(f < keyframes[i].frame_index);
                } else if found > i {
                    assert(f < keyframes[found].frame_index);
                }
            }
            assert(sampled_model_index(keyframes, looped, frame) == keyframes[found].model_index);
        }
    }
}

/// A logical layer in the scene graph.
#[derive(Clone, Debug, PartialEq, Eq)]
pub struct Layer {
    /// Optional layer name.
    pub name: Option<String>,
    /// Layer display color.
    pub color: Rgba,
    /// Whether the layer is hidden.
    pub hidden: bool,
}

/// Options that control how scenes are normalized while reading.
#[derive(Clone, Copy, Debug, PartialEq, Eq, Structural)]
pub struct ReadOptions {
    /// Preserve group hierarchy instead of flattening it.
    pub preserve_groups: bool,
    /// Preserve animation keyframes instead of baking them.
    pub preserve_keyframes: bool,
    /// Keep empty model instances instead of dropping them.
    pub keep_empty_models_instances: bool,
    /// Keep duplicate models instead of deduplicating them.
    pub keep_duplicate_models: bool,
}

impl Default for ReadOptions {
    fn default() -> (options: Self)
        ensures
            options == (ReadOptions {
                preserve_groups: false,
                preserve_keyframes: false,
                keep_empty_models_instances: false,
                keep_duplicate_models: false,
            }),
    {
        ReadOptions {
            preserve_groups: false,
            preserve_keyframes: false,
            keep_empty_models_instances: false,
            keep_duplicate_models: false,
        }
    }
}

} // verus!
