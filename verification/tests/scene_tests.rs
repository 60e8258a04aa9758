use ray_tracing::scene::{
    check_material_names, default_depth, find_material, parse_material_tag, parse_shape_tag,
    radiance_case, resolve_materials, EmptyMaterial, ImageTextureJson, LoadError, MaterialKind,
    RadianceCase, ShapeKind,
};

#[test]
fn test_parse_material_tag() {
    assert_eq!(parse_material_tag(&"lambertian".to_owned()), Ok(MaterialKind::Lambertian));
    assert_eq!(parse_material_tag(&"metal".to_owned()), Ok(MaterialKind::Metal));
    assert_eq!(parse_material_tag(&"dielectric".to_owned()), Ok(MaterialKind::Dielectric));
    assert_eq!(parse_material_tag(&"diffuse_light".to_owned()), Ok(MaterialKind::DiffuseLight));
    assert_eq!(
        parse_material_tag(&"glass".to_owned()),
        Err(LoadError::UnknownTag("glass".to_owned()))
    );
    assert_eq!(
        parse_material_tag(&"Lambertian".to_owned()),
        Err(LoadError::UnknownTag("Lambertian".to_owned()))
    );
    assert_eq!(parse_material_tag(&"".to_owned()), Err(LoadError::UnknownTag("".to_owned())));
}

#[test]
fn test_parse_shape_tag() {
    assert_eq!(parse_shape_tag(&"sphere".to_owned()), Ok(ShapeKind::Sphere));
    assert_eq!(parse_shape_tag(&"cube".to_owned()), Ok(ShapeKind::Cube));
    assert_eq!(parse_shape_tag(&"rectangle".to_owned()), Ok(ShapeKind::Rectangle));
    assert_eq!(parse_shape_tag(&"torus".to_owned()), Ok(ShapeKind::Torus));
    assert_eq!(parse_shape_tag(&"ray_marched".to_owned()), Ok(ShapeKind::RayMarched));
    assert_eq!(
        parse_shape_tag(&"plane".to_owned()),
        Err(LoadError::UnknownTag("plane".to_owned()))
    );
}

#[test]
fn test_material_kind_scatter_and_emit() {
    assert!(MaterialKind::Lambertian.scatters());
    assert!(MaterialKind::Metal.scatters());
    assert!(MaterialKind::Dielectric.scatters());
    assert!(!MaterialKind::DiffuseLight.scatters());
    assert!(!MaterialKind::Empty.scatters());

    assert!(MaterialKind::DiffuseLight.emits());
    assert!(!MaterialKind::Lambertian.emits());
    assert!(!MaterialKind::Metal.emits());
    assert!(!MaterialKind::Dielectric.emits());
    assert!(!MaterialKind::Empty.emits());

    let empty = EmptyMaterial;
    assert_eq!(empty.kind(), MaterialKind::Empty);
    assert!(!empty.kind().scatters());
    assert!(!empty.kind().emits());
}

#[test]
fn test_default_depth() {
    assert_eq!(default_depth(), 4);
}

#[test]
fn test_image_texture_json_holds_path() {
    let tex = ImageTextureJson { image_filename: "textures/earth.png".to_owned() };
    assert_eq!(tex.image_filename, "textures/earth.png");
}

fn names(list: &[&str]) -> Vec<String> {
    list.iter().map(|s| (*s).to_owned()).collect()
}

#[test]
fn test_find_material() {
    let table = names(&["ground", "glass", "light"]);
    assert_eq!(find_material(&table, &"ground".to_owned()), Some(0));
    assert_eq!(find_material(&table, &"light".to_owned()), Some(2));
    assert_eq!(find_material(&table, &"mirror".to_owned()), None);
}

#[test]
fn test_check_material_names() {
    assert_eq!(check_material_names(&names(&["a", "b", "c"])), Ok(()));
    assert_eq!(check_material_names(&names(&[])), Ok(()));
    assert_eq!(
        check_material_names(&names(&["a", "b", "a", "b"])),
        Err(LoadError::DuplicateMaterial("a".to_owned()))
    );
    assert_eq!(
        check_material_names(&names(&["x", "x"])),
        Err(LoadError::DuplicateMaterial("x".to_owned()))
    );
}

#[test]
fn test_resolve_materials() {
    let table = names(&["ground", "glass", "light"]);
    let refs = names(&["glass", "ground", "glass"]);
    assert_eq!(resolve_materials(&table, &refs), Ok(vec![1, 0, 1]));

    let refs = names(&["glass", "mirror", "nothing"]);
    assert_eq!(
        resolve_materials(&table, &refs),
        Err(LoadError::MissingMaterial("mirror".to_owned()))
    );

    let empty: Vec<String> = Vec::new();
    assert_eq!(resolve_materials(&table, &empty), Ok(Vec::new()));
}

#[test]
fn test_radiance_case() {
    // A spent depth budget yields black whatever else holds.
    assert_eq!(radiance_case(0, true, true), RadianceCase::Exhausted);
    assert_eq!(radiance_case(0, false, false), RadianceCase::Exhausted);
    // A scattering hit recurses, a non-scattering hit emits.
    assert_eq!(radiance_case(5, true, true), RadianceCase::Scattered);
    assert_eq!(radiance_case(5, true, false), RadianceCase::Emitted);
    // A miss falls to the background.
    assert_eq!(radiance_case(5, false, false), RadianceCase::Background);
}
