use vstd::prelude::*;
use vstd::string::StringSliceAdditionalSpecFns;

verus! {

/// `s` ends with `suffix`.
pub open spec fn has_suffix(s: Seq<u8>, suffix: Seq<u8>) -> bool {
    suffix.len() <= s.len() && s.subrange(s.len() - suffix.len(), s.len() as int) == suffix
}

fn ends_with_bytes(s: &[u8], suffix: &[u8]) -> (r: bool)
    ensures
        r == has_suffix(s@, suffix@),
{
    if suffix.len() > s.len() {
        return false;
    }
    let n = s.len();
    let start = n - suffix.len();
    let mut i: usize = 0;
    while i < suffix.len()
        invariant
            n == s@.len(),
            start + suffix@.len() == s@.len(),
            i <= suffix@.len(),
            forall|k: int| 0 <= k < i ==> s@[start + k] == suffix@[k],
        decreases suffix@.len() - i,
    {
        if s[start + i] != suffix[i] {
            proof {
                assert(s@.subrange(start as int, s@.len() as int)[i as int] != suffix@[i as int]);
            }
            return false;
        }
        i = i + 1;
    }
    proof {
        assert(s@.subrange(start as int, s@.len() as int) =~= suffix@);
    }
    true
}

/// Whether a dropped file's name is that of an image the renderer can use
/// as a sky: by its extension, in lower case.
pub fn is_image(img: &str) -> (r: bool)
    ensures
        r == (has_suffix(img.spec_bytes(), ".png".spec_bytes()) || has_suffix(
            img.spec_bytes(),
            ".jpg".spec_bytes(),
        ) || has_suffix(img.spec_bytes(), ".jpeg".spec_bytes()) || has_suffix(
            img.spec_bytes(),
            ".bmp".spec_bytes(),
        ) || has_suffix(img.spec_bytes(), ".tga".spec_bytes()) || has_suffix(
            img.spec_bytes(),
            ".hdr".spec_bytes(),
        ) || has_suffix(img.spec_bytes(), ".exr".spec_bytes())),
{
    let name = img.as_bytes();
    ends_with_bytes(name, ".png".as_bytes()) || ends_with_bytes(name, ".jpg".as_bytes())
        || ends_with_bytes(name, ".jpeg".as_bytes()) || ends_with_bytes(name, ".bmp".as_bytes())
        || ends_with_bytes(name, ".tga".as_bytes()) || ends_with_bytes(name, ".hdr".as_bytes())
        || ends_with_bytes(name, ".exr".as_bytes())
}

/// Marks the triangles that are lights: those whose material emits.
/// `material_ids[i]` is the material of triangle `i`, and
/// `material_emits[m]` tells whether material `m` has a nonzero emission.
pub fn emissive_mask(material_ids: &Vec<u32>, material_emits: &Vec<bool>) -> (r: Vec<bool>)
    requires
        forall|i: int| 0 <= i < material_ids@.len() ==> #[trigger] material_ids@[i] < material_emits@.len(),
    ensures
        r@.len() == material_ids@.len(),
        forall|i: int| 0 <= i < material_ids@.len() ==> #[trigger] r@[i] == material_emits@[material_ids@[i] as int],
{
    let mut mask: Vec<bool> = Vec::new();
    let mut i: usize = 0;
    while i < material_ids.len()
        invariant
            i <= material_ids@.len(),
            mask@.len() == i,
            forall|k: int| 0 <= k < material_ids@.len() ==> #[trigger] material_ids@[k] < material_emits@.len(),
            forall|k: int| 0 <= k < i ==> #[trigger] mask@[k] == material_emits@[material_ids@[k] as int],
        decreases material_ids@.len() - i,
    {
        mask.push(material_emits[material_ids[i] as usize]);
        i = i + 1;
    }
    mask
}

} // verus!
