//! Material identities and the per-material texture slots read by shading.
use vstd::prelude::*;

verus! {

/// Texture slot used for a material without a base-color texture.
pub const DEFAULT_TEXTURE_BASE_COLOR: u32 = 0;

/// Texture slot used for a material without a normal map.
pub const DEFAULT_TEXTURE_NORMAL: u32 = 1;

/// Texture slot used for a material without an occlusion-roughness-metallic map.
pub const DEFAULT_TEXTURE_AO_ROUGHNESS_METALLIC: u32 = 2;

/// Most textures the material bind group can hold.
pub const MAX_TEXTURE_COUNT: u32 = 128;

/// Identifies a material of an imported file by file and material name.
#[derive(Debug, Clone, PartialEq, Eq, Hash)]
pub struct GltfMaterialKey {
    pub file_name: String,
    pub material_name: String,
}

impl GltfMaterialKey {
    pub fn new(file_name: String, material_name: String) -> (r: GltfMaterialKey)
        ensures
            r.file_name == file_name,
            r.material_name == material_name,
    {
        GltfMaterialKey { file_name, material_name }
    }
}

/// The kinds of texture a material can carry.
#[derive(Debug, Clone, Copy, PartialEq, Eq, Structural)]
pub enum TextureType {
    BaseColor,
    Normal,
    AoRoughnessMetallic,
}

/// The slot of the built-in texture of each kind.
pub open spec fn default_slot(ty: TextureType) -> u32 {
    match ty {
        TextureType::BaseColor => DEFAULT_TEXTURE_BASE_COLOR,
        TextureType::Normal => DEFAULT_TEXTURE_NORMAL,
        TextureType::AoRoughnessMetallic => DEFAULT_TEXTURE_AO_ROUGHNESS_METALLIC,
    }
}

/// The slot to bind for a texture of kind `ty`: the material's own, or the
/// built-in one when it has none.
pub fn texture_slot(ty: TextureType, own: Option<u32>) -> (r: u32)
    ensures
        r == match own {
            Some(slot) => slot,
            None => default_slot(ty),
        },
{
    match own {
        Some(slot) => slot,
        None => match ty {
            TextureType::BaseColor => DEFAULT_TEXTURE_BASE_COLOR,
            TextureType::Normal => DEFAULT_TEXTURE_NORMAL,
            TextureType::AoRoughnessMetallic => DEFAULT_TEXTURE_AO_ROUGHNESS_METALLIC,
        },
    }
}

/// Texture slots of one material, as the shading passes read them.
#[derive(Clone, Copy, Debug, PartialEq, Eq)]
pub struct PbrMaterialInfo {
    pub base_color: u32,
    pub normal: u32,
    pub ao_roughness_metallic: u32,
    pub padding: u32,
}

impl PbrMaterialInfo {
    /// The slots of a material whose own textures, where it has them, sit in
    /// the given slots; a missing texture falls back to the built-in one.
    pub fn from_texture_slots(
        base_color: Option<u32>,
        normal: Option<u32>,
        ao_roughness_metallic: Option<u32>,
    ) -> (r: PbrMaterialInfo)
        ensures
            r.base_color == match base_color {
                Some(s) => s,
                None => DEFAULT_TEXTURE_BASE_COLOR,
            },
            r.normal == match normal {
                Some(s) => s,
                None => DEFAULT_TEXTURE_NORMAL,
            },
            r.ao_roughness_metallic == match ao_roughness_metallic {
                Some(s) => s,
                None => DEFAULT_TEXTURE_AO_ROUGHNESS_METALLIC,
            },
            r.padding == 0,
    {
        PbrMaterialInfo {
            base_color: texture_slot(TextureType::BaseColor, base_color),
            normal: texture_slot(TextureType::Normal, normal),
            ao_roughness_metallic: texture_slot(TextureType::AoRoughnessMetallic, ao_roughness_metallic),
            padding: 0,
        }
    }
}

/// Fills a list of texture slots up to [`MAX_TEXTURE_COUNT`] entries with the
/// built-in base-color slot, as the bind group's fixed-size texture array needs.
pub fn pad_texture_slots(slots: &mut Vec<u32>)
    requires
        old(slots)@.len() <= MAX_TEXTURE_COUNT,
    ensures
        final(slots)@.len() == MAX_TEXTURE_COUNT,
        final(slots)@.take(old(slots)@.len() as int) == old(slots)@,
        forall|i: int|
            old(slots)@.len() <= i < MAX_TEXTURE_COUNT ==> #[trigger] final(slots)@[i]
                == DEFAULT_TEXTURE_BASE_COLOR,
{
    let ghost start = slots@;
    while slots.len() < MAX_TEXTURE_COUNT as usize
        invariant
            start.len() <= slots@.len() <= MAX_TEXTURE_COUNT,
            slots@.take(start.len() as int) == start,
            forall|i: int| start.len() <= i < slots@.len() ==> #[trigger] slots@[i] == DEFAULT_TEXTURE_BASE_COLOR,
        decreases MAX_TEXTURE_COUNT - slots@.len(),
    {
        let ghost prev = slots@;
        slots.push(DEFAULT_TEXTURE_BASE_COLOR);
        assert(slots@.take(start.len() as int) =~= prev.take(start.len() as int));
    }
}

/// Pixel layouts of imported images.
#[derive(Debug, Clone, Copy, PartialEq, Eq, Structural)]
pub enum ImageFormat {
    R8G8B8,
    R8G8B8A8,
    /// Any other layout; textures cannot use it.
    Other,
}

/// Decoded image data of a texture.
#[derive(Debug)]
pub struct ImageData {
    pub pixels: Vec<u8>,
    pub format: ImageFormat,
    pub width: u32,
    pub height: u32,
}

/// RGB bytes widened to RGBA: each group of three bytes, the last possibly
/// shorter, followed by an opaque alpha byte.
pub open spec fn rgba_of(pixels: Seq<u8>) -> Seq<u8>
    decreases pixels.len(),
{
    if pixels.len() == 0 {
        Seq::empty()
    } else if pixels.len() <= 3 {
        pixels.push(255u8)
    } else {
        pixels.take(3).push(255u8) + rgba_of(pixels.skip(3))
    }
}

/// Converts an image to 8-bit RGBA; RGBA images are returned as they are.
pub fn convert_image_data_to_rgba(data: ImageData) -> (r: ImageData)
    requires
        data.format != ImageFormat::Other,
    ensures
        r.format == ImageFormat::R8G8B8A8,
        r.width == data.width,
        r.height == data.height,
        data.format == ImageFormat::R8G8B8A8 ==> r.pixels@ == data.pixels@,
        data.format == ImageFormat::R8G8B8 ==> r.pixels@ == rgba_of(data.pixels@),
{
    if data.format == ImageFormat::R8G8B8A8 {
        return data;
    }
    let pixels = &data.pixels;
    let mut out: Vec<u8> = Vec::new();
    let mut i: usize = 0;
    proof {
        assert(pixels@.skip(0) =~= pixels@);
        assert(out@ + rgba_of(pixels@) =~= rgba_of(pixels@));
    }
    while i < pixels.len()
        invariant
            i <= pixels@.len(),
            out@ + rgba_of(pixels@.skip(i as int)) == rgba_of(pixels@),
        decreases pixels@.len() - i,
    {
        let ghost rest = pixels@.skip(i as int);
        let end = if pixels.len() - i <= 3 { pixels.len() } else { i + 3 };
        let ghost before = out@;
        let mut j: usize = i;
        while j < end
            invariant
                i <= j <= end,
                end <= pixels@.len(),
                out@ == before + pixels@.subrange(i as int, j as int),
            decreases end - j,
        {
            out.push(pixels[j]);
            assert(pixels@.subrange(i as int, j + 1) =~= pixels@.subrange(i as int, j as int).push(pixels@[j as int]));
            j += 1;
        }
        out.push(255);
        proof {
            if rest.len() <= 3 {
                assert(pixels@.subrange(i as int, end as int) =~= rest);
                assert(pixels@.skip(end as int) =~= Seq::<u8>::empty());
            } else {
                assert(pixels@.subrange(i as int, end as int) =~= rest.take(3));
                assert(pixels@.skip(end as int) =~= rest.skip(3));
            }
            assert(out@ + rgba_of(pixels@.skip(end as int)) =~= before + rgba_of(rest));
        }
        i = end;
    }
    proof {
        assert(pixels@.skip(i as int) =~= Seq::<u8>::empty());
        assert(out@ + Seq::<u8>::empty() =~= out@);
    }
    ImageData { pixels: out, format: ImageFormat::R8G8B8A8, width: data.width, height: data.height }
}

/// Moves image `index` out of `images`, leaving an empty RGB image in its
/// place, and converts it to RGBA.
pub fn take_texture(images: &mut Vec<ImageData>, index: usize) -> (r: ImageData)
    requires
        index < old(images)@.len(),
        old(images)@[index as int].format != ImageFormat::Other,
    ensures
        final(images)@.len() == old(images)@.len(),
        forall|i: int| 0 <= i < old(images)@.len() && i != index ==> #[trigger] final(images)@[i] == old(images)@[i],
        final(images)@[index as int].pixels@.len() == 0,
        final(images)@[index as int].format == ImageFormat::R8G8B8,
        r.format == ImageFormat::R8G8B8A8,
        r.width == old(images)@[index as int].width,
        r.height == old(images)@[index as int].height,
        old(images)@[index as int].format == ImageFormat::R8G8B8A8 ==> r.pixels@ == old(images)@[index as int].pixels@,
        old(images)@[index as int].format == ImageFormat::R8G8B8 ==> r.pixels@ == rgba_of(old(images)@[index as int].pixels@),
{
    let mut texture = ImageData { pixels: Vec::new(), format: ImageFormat::R8G8B8, width: 0, height: 0 };
    std::mem::swap(&mut texture, &mut images[index]);
    convert_image_data_to_rgba(texture)
}

/// Handle of a material in a [`MaterialManager`]: its position there.
#[derive(Debug, Clone, Copy, PartialEq, Eq, Hash, Structural)]
pub struct MaterialId {
    pub index: usize,
}

/// A material's name and its textures, where it has them.
#[derive(Debug)]
pub struct PbrMaterialData {
    pub name: String,
    pub base_color: Option<ImageData>,
    pub normal: Option<ImageData>,
    pub ao_roughness_metallic: Option<ImageData>,
}

/// The materials of all imported files, each registered once per
/// file and material name.
pub struct MaterialManager {
    materials: Vec<PbrMaterialData>,
    by_gltf: Vec<(GltfMaterialKey, MaterialId)>,
}

/// What a material manager holds: its materials, and the material
/// registered for each key, as a list without repeated keys.
pub struct MaterialManagerView {
    pub materials: Seq<PbrMaterialData>,
    pub by_gltf: Seq<(GltfMaterialKey, MaterialId)>,
}

/// Two keys name the same material.
pub open spec fn same_key(a: GltfMaterialKey, b: GltfMaterialKey) -> bool {
    a.file_name@ == b.file_name@ && a.material_name@ == b.material_name@
}

impl MaterialManagerView {
    pub open spec fn wf(self) -> bool {
        &&& forall|i: int| 0 <= i < self.by_gltf.len() ==> (#[trigger] self.by_gltf[i]).1.index < self.materials.len()
        &&& forall|i: int, j: int|
            0 <= i < j < self.by_gltf.len() ==> !same_key(#[trigger] self.by_gltf[i].0, #[trigger] self.by_gltf[j].0)
    }

    /// The material registered under `file` and `name`, if any.
    pub open spec fn lookup(self, file: Seq<char>, name: Seq<char>) -> Option<MaterialId> {
        if exists|i: int|
            0 <= i < self.by_gltf.len() && (#[trigger] self.by_gltf[i]).0.file_name@ == file
                && self.by_gltf[i].0.material_name@ == name {
            let i = choose|i: int|
                0 <= i < self.by_gltf.len() && (#[trigger] self.by_gltf[i]).0.file_name@ == file
                    && self.by_gltf[i].0.material_name@ == name;
            Some(self.by_gltf[i].1)
        } else {
            None
        }
    }
}

impl View for MaterialManager {
    type V = MaterialManagerView;

    closed spec fn view(&self) -> MaterialManagerView {
        MaterialManagerView { materials: self.materials@, by_gltf: self.by_gltf@ }
    }
}

impl MaterialManager {
    pub fn new() -> (r: MaterialManager)
        ensures
            r@.wf(),
            r@.materials.len() == 0,
            r@.by_gltf.len() == 0,
    {
        MaterialManager { materials: Vec::new(), by_gltf: Vec::new() }
    }

    /// Adds a material without registering a key for it.
    pub fn add_material(&mut self, material_data: PbrMaterialData) -> (id: MaterialId)
        requires
            old(self)@.wf(),
        ensures
            final(self)@.wf(),
            id.index == old(self)@.materials.len(),
            final(self)@.materials == old(self)@.materials.push(material_data),
            final(self)@.by_gltf == old(self)@.by_gltf,
    {
        let id = MaterialId { index: self.materials.len() };
        self.materials.push(material_data);
        proof {
            let v = self@;
            assert forall|i: int| 0 <= i < v.by_gltf.len() implies (#[trigger] v.by_gltf[i]).1.index < v.materials.len() by {
                assert(old(self)@.by_gltf[i] == v.by_gltf[i]);
            }
            assert(v.by_gltf == old(self)@.by_gltf);
            assert forall|i: int, j: int| 0 <= i < j < v.by_gltf.len() implies !same_key(
                #[trigger] v.by_gltf[i].0,
                #[trigger] v.by_gltf[j].0,
            ) by {
                assert(!same_key(old(self)@.by_gltf[i].0, old(self)@.by_gltf[j].0));
            }
        }
        id
    }

    fn find(&self, file_name: &String, material_name: &String) -> (r: Option<usize>)
        requires
            self@.wf(),
        ensures
            r matches Some(i) ==> i < self@.by_gltf.len() && self@.by_gltf[i as int].0.file_name@ == file_name@
                && self@.by_gltf[i as int].0.material_name@ == material_name@,
            r.is_none() ==> forall|i: int|
                0 <= i < self@.by_gltf.len() ==> !((#[trigger] self@.by_gltf[i]).0.file_name@ == file_name@
                    && self@.by_gltf[i].0.material_name@ == material_name@),
    {
        let mut i: usize = 0;
        while i < self.by_gltf.len()
            invariant
                i <= self@.by_gltf.len(),
                forall|j: int|
                    0 <= j < i ==> !((#[trigger] self@.by_gltf[j]).0.file_name@ == file_name@
                        && self@.by_gltf[j].0.material_name@ == material_name@),
            decreases self@.by_gltf.len() - i,
        {
            let entry = &self.by_gltf[i];
            if entry.0.file_name == *file_name && entry.0.material_name == *material_name {
                return Some(i);
            }
            i += 1;
        }
        None
    }

    /// The material registered for material `material_name` of `file_name`.
    pub fn get_gltf_material(&self, file_name: &str, material_name: &str) -> (r: Option<MaterialId>)
        requires
            self@.wf(),
        ensures
            r == self@.lookup(file_name@, material_name@),
    {
        let file = file_name.to_owned();
        let name = material_name.to_owned();
        match self.find(&file, &name) {
            Some(i) => {
                proof {
                    let v = self@;
                    let k = choose|k: int|
                        0 <= k < v.by_gltf.len() && (#[trigger] v.by_gltf[k]).0.file_name@ == file_name@
                            && v.by_gltf[k].0.material_name@ == material_name@;
                    if k != i as int {
                        if k < i {
                            assert(!same_key(v.by_gltf[k].0, v.by_gltf[i as int].0));
                        } else {
                            assert(!same_key(v.by_gltf[i as int].0, v.by_gltf[k].0));
                        }
                    }
                }
                Some(self.by_gltf[i].1)
            },
            None => None,
        }
    }

    /// Registers a material of an imported file: the material already
    /// registered under `key` if there is one, else `material_data` added
    /// as a new material under `key`.
    pub fn register_gltf_material(&mut self, key: GltfMaterialKey, material_data: PbrMaterialData) -> (id:
        MaterialId)
        requires
            old(self)@.wf(),
        ensures
            final(self)@.wf(),
            old(self)@.lookup(key.file_name@, key.material_name@) matches Some(existing) ==> {
                &&& id == existing
                &&& final(self)@ == old(self)@
            },
            old(self)@.lookup(key.file_name@, key.material_name@).is_none() ==> {
                &&& id.index == old(self)@.materials.len()
                &&& final(self)@.materials == old(self)@.materials.push(material_data)
                &&& final(self)@.by_gltf == old(self)@.by_gltf.push((key, id))
            },
            final(self)@.lookup(key.file_name@, key.material_name@) == Some(id),
    {
        let file = key.file_name.clone();
        let name = key.material_name.clone();
        if let Some(existing) = self.get_gltf_material(file.as_str(), name.as_str()) {
            return existing;
        }
        let id = self.add_material(material_data);
        let ghost before = self@;
        self.by_gltf.push((key, id));
        proof {
            let v = self@;
            assert(v.by_gltf[before.by_gltf.len() as int] == (key, id));
            assert forall|i: int, j: int| 0 <= i < j < v.by_gltf.len() implies !same_key(
                #[trigger] v.by_gltf[i].0,
                #[trigger] v.by_gltf[j].0,
            ) by {
                if j == before.by_gltf.len() {
                    assert(before.by_gltf[i] == v.by_gltf[i]);
                }
            }
            assert(v.by_gltf[before.by_gltf.len() as int].0.file_name@ == key.file_name@);
            let k = choose|k: int|
                0 <= k < v.by_gltf.len() && (#[trigger] v.by_gltf[k]).0.file_name@ == key.file_name@
                    && v.by_gltf[k].0.material_name@ == key.material_name@;
            if k != before.by_gltf.len() {
                assert(before.by_gltf[k] == v.by_gltf[k]);
            }
        }
        id
    }

    /// All materials, by id.
    pub fn materials(&self) -> (r: &Vec<PbrMaterialData>)
        ensures
            r@ == self@.materials,
    {
        &self.materials
    }
}

} // verus!
