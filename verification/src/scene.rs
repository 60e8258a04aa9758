//! Scene-level rules: the material and shape vocabulary of the scene file,
//! the name checks of the material table, and the integrator's branch rule.
//!
//! A scene file names its materials; each shape refers to one by name. The
//! host parses the file and hands the raw names in; here they are checked —
//! duplicate material names and missing references are load errors — and
//! each reference is resolved to a stable index into the material table.

use vstd::prelude::*;

verus! {

/// The kinds of material the renderer knows.
#[derive(Clone, Copy, Debug, PartialEq, Eq, Structural)]
pub enum MaterialKind {
    Lambertian,
    Metal,
    Dielectric,
    DiffuseLight,
    Empty,
}

impl MaterialKind {
    /// Whether a hit on a material of this kind answers with a scattered
    /// ray: diffuse, metallic and dielectric materials always scatter; a
    /// light and the empty material never do.
    pub fn scatters(&self) -> (r: bool)
        ensures
            r == (*self == MaterialKind::Lambertian || *self == MaterialKind::Metal || *self
                == MaterialKind::Dielectric),
    {
        match self {
            MaterialKind::Lambertian => true,
            MaterialKind::Metal => true,
            MaterialKind::Dielectric => true,
            MaterialKind::DiffuseLight => false,
            MaterialKind::Empty => false,
        }
    }

    /// Whether a material of this kind emits light of its own.
    pub fn emits(&self) -> (r: bool)
        ensures
            r == (*self == MaterialKind::DiffuseLight),
    {
        match self {
            MaterialKind::DiffuseLight => true,
            _ => false,
        }
    }
}

/// The placeholder material: it neither scatters nor emits.
#[derive(Clone, Copy, Debug, PartialEq, Eq, Structural)]
pub struct EmptyMaterial;

impl EmptyMaterial {
    pub fn kind(&self) -> (k: MaterialKind)
        ensures
            k == MaterialKind::Empty,
    {
        MaterialKind::Empty
    }
}

/// The kinds of shape the scene file may declare.
#[derive(Clone, Copy, Debug, PartialEq, Eq, Structural)]
pub enum ShapeKind {
    Sphere,
    Cube,
    Rectangle,
    Torus,
    RayMarched,
}

/// Scene-file description of an image-mapped texture: the path of the
/// image file, which the host resolves relative to the scene file and
/// loads.
#[derive(Clone, Debug)]
pub struct ImageTextureJson {
    pub image_filename: String,
}

/// Marching depth of a ray-marched shape when the scene file gives none.
pub fn default_depth() -> (d: u8)
    ensures
        d == 4,
{
    4
}

/// What the scene loader rejects: a schema whose checks fail.
#[derive(Clone, Debug, PartialEq)]
pub enum LoadError {
    /// Two materials of the table carry this name.
    DuplicateMaterial(String),
    /// A shape refers to this material name, which the table lacks.
    MissingMaterial(String),
    /// A `type` tag no material or shape kind answers to.
    UnknownTag(String),
}

/// Decode a material `type` tag of the scene file. Exactly the four
/// documented tags are accepted; anything else is an unknown-tag load
/// error carrying the offending tag.
pub fn parse_material_tag(tag: &String) -> (r: Result<MaterialKind, LoadError>)
    ensures
        r == Ok::<MaterialKind, LoadError>(MaterialKind::Lambertian) <==> tag@ == "lambertian"@,
        r == Ok::<MaterialKind, LoadError>(MaterialKind::Metal) <==> tag@ == "metal"@,
        r == Ok::<MaterialKind, LoadError>(MaterialKind::Dielectric) <==> tag@ == "dielectric"@,
        r == Ok::<MaterialKind, LoadError>(MaterialKind::DiffuseLight) <==> tag@
            == "diffuse_light"@,
        r is Err <==> (tag@ != "lambertian"@ && tag@ != "metal"@ && tag@ != "dielectric"@ && tag@
            != "diffuse_light"@),
        r is Err ==> r->Err_0 is UnknownTag && r->Err_0->UnknownTag_0@ == tag@,
{
    proof {
        reveal_strlit("lambertian");
        reveal_strlit("metal");
        reveal_strlit("dielectric");
        reveal_strlit("diffuse_light");
        assert("lambertian"@.len() == 10);
        assert("metal"@.len() == 5);
        assert("dielectric"@.len() == 10);
        assert("diffuse_light"@.len() == 13);
        assert("lambertian"@[0] != "dielectric"@[0]);
    }
    if tag.eq(&"lambertian".to_owned()) {
        Ok(MaterialKind::Lambertian)
    } else if tag.eq(&"metal".to_owned()) {
        Ok(MaterialKind::Metal)
    } else if tag.eq(&"dielectric".to_owned()) {
        Ok(MaterialKind::Dielectric)
    } else if tag.eq(&"diffuse_light".to_owned()) {
        Ok(MaterialKind::DiffuseLight)
    } else {
        Err(LoadError::UnknownTag(tag.clone()))
    }
}

/// Decode a shape `type` tag of the scene file.
pub fn parse_shape_tag(tag: &String) -> (r: Result<ShapeKind, LoadError>)
    ensures
        r == Ok::<ShapeKind, LoadError>(ShapeKind::Sphere) <==> tag@ == "sphere"@,
        r == Ok::<ShapeKind, LoadError>(ShapeKind::Cube) <==> tag@ == "cube"@,
        r == Ok::<ShapeKind, LoadError>(ShapeKind::Rectangle) <==> tag@ == "rectangle"@,
        r == Ok::<ShapeKind, LoadError>(ShapeKind::Torus) <==> tag@ == "torus"@,
        r == Ok::<ShapeKind, LoadError>(ShapeKind::RayMarched) <==> tag@ == "ray_marched"@,
        r is Err <==> (tag@ != "sphere"@ && tag@ != "cube"@ && tag@ != "rectangle"@ && tag@
            != "torus"@ && tag@ != "ray_marched"@),
        r is Err ==> r->Err_0 is UnknownTag && r->Err_0->UnknownTag_0@ == tag@,
{
    proof {
        reveal_strlit("sphere");
        reveal_strlit("cube");
        reveal_strlit("rectangle");
        reveal_strlit("torus");
        reveal_strlit("ray_marched");
        assert("sphere"@.len() == 6);
        assert("cube"@.len() == 4);
        assert("rectangle"@.len() == 9);
        assert("torus"@.len() == 5);
        assert("ray_marched"@.len() == 11);
    }
    if tag.eq(&"sphere".to_owned()) {
        Ok(ShapeKind::Sphere)
    } else if tag.eq(&"cube".to_owned()) {
        Ok(ShapeKind::Cube)
    } else if tag.eq(&"rectangle".to_owned()) {
        Ok(ShapeKind::Rectangle)
    } else if tag.eq(&"torus".to_owned()) {
        Ok(ShapeKind::Torus)
    } else if tag.eq(&"ray_marched".to_owned()) {
        Ok(ShapeKind::RayMarched)
    } else {
        Err(LoadError::UnknownTag(tag.clone()))
    }
}

/// The table holds a material of that name.
pub open spec fn has_name(names: Seq<String>, name: Seq<char>) -> bool {
    exists|j: int| 0 <= j < names.len() && (#[trigger] names[j])@ == name
}

/// Position of the first material named `name`, front to back.
pub fn find_material(names: &Vec<String>, name: &String) -> (r: Option<usize>)
    ensures
        match r {
            Some(i) => {
                &&& i < names@.len()
                &&& names@[i as int]@ == name@
                &&& forall|j: int| 0 <= j < i ==> (#[trigger] names@[j])@ != name@
            },
            None => !has_name(names@, name@),
        },
{
    let mut i: usize = 0;
    while i < names.len()
        invariant
            i <= names@.len(),
            forall|j: int| 0 <= j < i ==> (#[trigger] names@[j])@ != name@,
        decreases names@.len() - i,
    {
        if names[i].eq(name) {
            return Some(i);
        }
        i = i + 1;
    }
    None
}

/// Check the material table for duplicated names: the table is accepted if
/// and only if all names are distinct, and the first name that repeats an
/// earlier one is the load error.
pub fn check_material_names(names: &Vec<String>) -> (r: Result<(), LoadError>)
    ensures
        r is Ok <==> (forall|i2: int, j2: int|
            0 <= j2 < i2 < names@.len() ==> (#[trigger] names@[j2])@ != (#[trigger] names@[i2])@),
        r is Err ==> r->Err_0 is DuplicateMaterial && exists|i: int, j: int|
            {
                &&& 0 <= j < i < names@.len()
                &&& (#[trigger] names@[j])@ == (#[trigger] names@[i])@
                &&& r->Err_0->DuplicateMaterial_0@ == names@[i]@
                &&& forall|i2: int, j2: int|
                    0 <= j2 < i2 < i ==> (#[trigger] names@[j2])@ != (#[trigger] names@[i2])@
            },
{
    let mut i: usize = 0;
    while i < names.len()
        invariant
            i <= names@.len(),
            forall|i2: int, j2: int|
                0 <= j2 < i2 < i ==> (#[trigger] names@[j2])@ != (#[trigger] names@[i2])@,
        decreases names@.len() - i,
    {
        let mut j: usize = 0;
        while j < i
            invariant
                j <= i < names@.len(),
                forall|j2: int| 0 <= j2 < j ==> (#[trigger] names@[j2])@ != names@[i as int]@,
                forall|i2: int, j2: int|
                    0 <= j2 < i2 < i ==> (#[trigger] names@[j2])@ != (#[trigger] names@[i2])@,
            decreases i - j,
        {
            if names[j].eq(&names[i]) {
                return Err(LoadError::DuplicateMaterial(names[i].clone()));
            }
            j = j + 1;
        }
        i = i + 1;
    }
    Ok(())
}

/// Resolve every shape's material reference against the table: the index
/// of the first material of that name, shape by shape. The first reference
/// the table cannot serve is the load error, and resolution succeeds if
/// and only if every referenced name is in the table.
pub fn resolve_materials(names: &Vec<String>, refs: &Vec<String>) -> (r: Result<
    Vec<usize>,
    LoadError,
>)
    ensures
        r is Ok <==> (forall|k: int| 0 <= k < refs@.len() ==> has_name(names@, (#[trigger] refs@[k])@)),
        r is Ok ==> {
            let idx = r->Ok_0;
            &&& idx@.len() == refs@.len()
            &&& forall|k: int|
                0 <= k < refs@.len() ==> {
                    let i = #[trigger] idx@[k];
                    &&& i < names@.len()
                    &&& names@[i as int]@ == refs@[k]@
                    &&& forall|j: int| 0 <= j < i ==> (#[trigger] names@[j])@ != refs@[k]@
                }
        },
        r is Err ==> {
            &&& r->Err_0 is MissingMaterial
            &&& exists|k: int|
                0 <= k < refs@.len() && r->Err_0->MissingMaterial_0@ == (#[trigger] refs@[k])@
                    && !has_name(names@, refs@[k]@) && (forall|k2: int|
                    0 <= k2 < k ==> has_name(names@, (#[trigger] refs@[k2])@))
        },
{
    let mut idx: Vec<usize> = Vec::new();
    let mut k: usize = 0;
    while k < refs.len()
        invariant
            k <= refs@.len(),
            idx@.len() == k,
            forall|k2: int| 0 <= k2 < k ==> has_name(names@, (#[trigger] refs@[k2])@),
            forall|k2: int|
                0 <= k2 < k ==> {
                    let i = #[trigger] idx@[k2];
                    &&& i < names@.len()
                    &&& names@[i as int]@ == refs@[k2]@
                    &&& forall|j: int| 0 <= j < i ==> (#[trigger] names@[j])@ != refs@[k2]@
                },
        decreases refs@.len() - k,
    {
        match find_material(names, &refs[k]) {
            Some(i) => {
                idx.push(i);
            },
            None => {
                return Err(LoadError::MissingMaterial(refs[k].clone()));
            },
        }
        k = k + 1;
    }
    Ok(idx)
}

/// The branch the integrator takes for one traced ray.
#[derive(Clone, Copy, Debug, PartialEq, Eq, Structural)]
pub enum RadianceCase {
    /// The recursion budget is spent: the ray contributes black.
    Exhausted,
    /// The hit material scattered: attenuate the radiance of the scattered
    /// ray, one level deeper.
    Scattered,
    /// The hit material did not scatter: take its emission at the hit.
    Emitted,
    /// Nothing was hit: take the background.
    Background,
}

/// The integrator's branch rule for a ray traced with `depth` levels left,
/// given whether the scene was hit and whether the hit material scattered:
/// a spent budget yields black before anything else is consulted; then a
/// scattering hit recurses, a non-scattering hit emits, and a miss falls
/// to the background.
pub fn radiance_case(depth: u32, hit: bool, scattered: bool) -> (c: RadianceCase)
    ensures
        c == (if depth == 0 {
            RadianceCase::Exhausted
        } else if hit && scattered {
            RadianceCase::Scattered
        } else if hit {
            RadianceCase::Emitted
        } else {
            RadianceCase::Background
        }),
{
    if depth == 0 {
        RadianceCase::Exhausted
    } else if hit && scattered {
        RadianceCase::Scattered
    } else if hit {
        RadianceCase::Emitted
    } else {
        RadianceCase::Background
    }
}

} // verus!
