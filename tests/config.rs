use termview::config::{collect_loaded, format_of, rotation_separators, ConfigError, LoadError, MeshFormat};

#[test]
fn rotation_with_two_components_is_rejected() {
    assert_eq!(rotation_separators("10 20".as_bytes()), Err(ConfigError::RotationSeparators(1)));
}

#[test]
fn rotation_with_three_components_is_split() {
    assert_eq!(rotation_separators("10 20 30".as_bytes()), Ok((2, 5)));
    assert_eq!(rotation_separators("0 -45 1.5".as_bytes()), Ok((1, 5)));
}

#[test]
fn rotation_with_other_counts_is_rejected() {
    assert_eq!(rotation_separators("".as_bytes()), Err(ConfigError::RotationSeparators(0)));
    assert_eq!(rotation_separators("1 2 3 4".as_bytes()), Err(ConfigError::RotationSeparators(3)));
    assert_eq!(rotation_separators("1  2 3".as_bytes()), Err(ConfigError::RotationSeparators(3)));
}

#[test]
fn formats_by_extension() {
    assert_eq!(format_of("good.obj"), Ok(MeshFormat::Obj));
    assert_eq!(format_of("missing.stl"), Ok(MeshFormat::Stl));
    assert_eq!(format_of("models/Teapot.OBJ"), Ok(MeshFormat::Obj));
    assert_eq!(format_of("a.b/part.StL"), Ok(MeshFormat::Stl));
    assert_eq!(format_of("notes.txt"), Err(LoadError::UnknownExtension));
    assert_eq!(format_of("mesh.objx"), Err(LoadError::UnknownExtension));
    assert_eq!(format_of("mesh."), Err(LoadError::UnknownExtension));
}

#[test]
fn names_without_extension() {
    assert_eq!(format_of("mesh"), Err(LoadError::NoExtension));
    assert_eq!(format_of(".obj"), Err(LoadError::NoExtension));
    assert_eq!(format_of("dir.obj/mesh"), Err(LoadError::NoExtension));
    assert_eq!(format_of(""), Err(LoadError::NoExtension));
}

#[test]
fn unreadable_input_among_several() {
    let good = || -> Result<Vec<u32>, LoadError> { Ok(vec![1, 2]) };
    let bad = || -> Result<Vec<u32>, LoadError> { Err(LoadError::Unreadable("no such file".to_string())) };
    assert_eq!(collect_loaded(vec![good(), bad()]), vec![1, 2]);
    assert_eq!(collect_loaded(vec![bad(), good()]), vec![1, 2]);
    assert_eq!(collect_loaded(vec![good(), bad(), Ok(vec![7])]), vec![1, 2, 7]);
    assert_eq!(collect_loaded::<u32>(vec![]), Vec::<u32>::new());
}
