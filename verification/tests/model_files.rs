use meshterm::geometry::{GeometryError, Material, Position, SourceModel};
use meshterm::inputs::{model_format, InputError, LoadFailure, ModelFile, Opts, SubCommand};
use meshterm::loader::{decode_stl, file_extension, format_for_extension, ModelFormat};
use meshterm::context::Context;

const ASCII_STL: &str = "solid corner
facet normal 0 0 1
outer loop
vertex 0 0 1
vertex 1 0 1
vertex 0 1 1
endloop
endfacet
facet normal 0 0 1
outer loop
vertex 1 0 1
vertex 1 1 1
vertex 0 1 1
endloop
endfacet
endsolid corner
";

fn bits(values: &[f32]) -> Vec<u32> {
    values.iter().map(|v| v.to_bits()).collect()
}

fn binary_stl(faces: &[[f32; 9]]) -> Vec<u8> {
    let mut bytes = vec![0u8; 80];
    bytes.extend_from_slice(&(faces.len() as u32).to_le_bytes());
    for face in faces {
        for _ in 0..3 {
            bytes.extend_from_slice(&0.0f32.to_le_bytes());
        }
        for value in face {
            bytes.extend_from_slice(&value.to_le_bytes());
        }
        bytes.extend_from_slice(&[0, 0]);
    }
    bytes
}

fn options(models: &[&str]) -> Opts {
    Opts {
        models: models.iter().map(|m| m.to_string()).collect(),
        color_less: false,
        x: 0.0f32.to_bits(),
        y: 0.0f32.to_bits(),
        z: 0.0f32.to_bits(),
        speed: 1.0f32.to_bits(),
        subcmd: SubCommand::Interactive,
    }
}

fn one_face_model(material_id: Option<usize>) -> SourceModel {
    SourceModel {
        positions: bits(&[0.0, 0.0, 0.0, 1.0, 0.0, 0.0, 0.0, 1.0, 0.0]),
        indices: vec![0, 1, 2],
        material_id,
    }
}

fn position(x: f32, y: f32, z: f32) -> Position {
    Position { x: x.to_bits(), y: y.to_bits(), z: z.to_bits() }
}

fn load_error(path: usize, failure: LoadFailure, cause: &str) -> InputError {
    InputError::Load { path, failure, cause: cause.to_string() }
}

#[test]
fn extensions_of_paths() {
    assert_eq!(file_extension("model.obj"), Some("obj"));
    assert_eq!(file_extension("a/b.c/model.tar.STL"), Some("STL"));
    assert_eq!(file_extension("model"), None);
    assert_eq!(file_extension("dir.d/model"), None);
    assert_eq!(file_extension(".hidden"), None);
    assert_eq!(file_extension("dir/.hidden"), None);
    assert_eq!(file_extension(".hidden.stl"), Some("stl"));
    assert_eq!(file_extension("model."), Some(""));
    assert_eq!(file_extension(""), None);
    assert_eq!(file_extension("dir/"), None);
    assert_eq!(file_extension("w\u{fc}rfel.\u{f6}bj"), Some("\u{f6}bj"));
}

#[test]
fn extensions_are_those_of_the_standard_library() {
    let paths = [
        "model.obj",
        "m.obj/",
        "m.obj//",
        "foo.txt/.",
        "foo.txt/.//",
        "a/./b.stl",
        "..",
        "a/..",
        "a.b/..",
        ".",
        "./",
        "./.",
        "/",
        "/.",
        "",
        "...",
        "..a",
        "a..",
        ".a.b",
        "/usr/lib.d/x",
        "x.tar.gz",
        "dir.d/.hidden",
        "./model.STL",
        "../model.obj",
        "a/b/",
    ];
    for path in paths {
        let expected = std::path::Path::new(path).extension().map(|e| e.to_str().unwrap());
        assert_eq!(file_extension(path), expected);
    }
    assert_eq!(file_extension("m.obj/"), Some("obj"));
    assert_eq!(file_extension(".."), None);
}

#[test]
fn formats_of_extensions() {
    assert_eq!(format_for_extension("obj"), Some(ModelFormat::Obj));
    assert_eq!(format_for_extension("OBJ"), Some(ModelFormat::Obj));
    assert_eq!(format_for_extension("oBj"), Some(ModelFormat::Obj));
    assert_eq!(format_for_extension("stl"), Some(ModelFormat::Stl));
    assert_eq!(format_for_extension("Stl"), Some(ModelFormat::Stl));
    assert_eq!(format_for_extension("st"), None);
    assert_eq!(format_for_extension("stlx"), None);
    assert_eq!(format_for_extension("ply"), None);
    assert_eq!(format_for_extension(""), None);
    assert_eq!(format_for_extension("\u{f6}bj"), None);
}

#[test]
fn formats_of_paths() {
    assert_eq!(model_format("teapot.obj"), Ok(ModelFormat::Obj));
    assert_eq!(model_format("/tmp/x.y/teapot.STL"), Ok(ModelFormat::Stl));
    assert_eq!(model_format("teapot"), Err(LoadFailure::NoExtension));
    assert_eq!(model_format("teapot.ply"), Err(LoadFailure::UnknownExtension));
    assert_eq!(model_format("teapot."), Err(LoadFailure::UnknownExtension));
}

#[test]
fn decodes_text_stl() {
    let model = decode_stl(ASCII_STL.as_bytes()).unwrap();
    assert_eq!(
        model.positions,
        bits(&[0.0, 0.0, 1.0, 1.0, 0.0, 1.0, 0.0, 1.0, 1.0, 1.0, 1.0, 1.0])
    );
    assert_eq!(model.indices, vec![0, 1, 2, 1, 3, 2]);
    assert_eq!(model.material_id, None);
    assert_eq!(model.check(), Ok(()));
    let mesh = model.to_simple_mesh();
    assert_eq!(mesh.triangles.len(), 2);
    assert_eq!(mesh.triangles[1].v2.position, position(1.0, 1.0, 1.0));
}

#[test]
fn decodes_binary_stl() {
    let bytes = binary_stl(&[[0.0, 0.0, 0.0, 2.0, 0.0, 0.0, 0.0, -0.5, 0.0]]);
    let model = decode_stl(&bytes).unwrap();
    assert_eq!(model.positions, bits(&[0.0, 0.0, 0.0, 2.0, 0.0, 0.0, 0.0, -0.5, 0.0]));
    assert_eq!(model.indices, vec![0, 1, 2]);
    assert_eq!(decode_stl(&bytes), decode_stl(&bytes));
}

#[test]
fn what_is_no_stl_gives_the_message_of_the_decoder() {
    let message = decode_stl(b"hello").unwrap_err();
    assert!(!message.is_empty());
    let truncated = &binary_stl(&[[0.0; 9]])[..100];
    assert!(decode_stl(truncated).is_err());
    let bad = ASCII_STL.replace("vertex 1 1 1", "vertex 1 one 1");
    assert!(decode_stl(bad.as_bytes()).is_err());
    assert_eq!(decode_stl(bad.as_bytes()), decode_stl(bad.as_bytes()));
}

#[test]
fn queue_holds_the_meshes_of_all_files_in_order() {
    let opts = options(&["a.stl", "dir/b.OBJ", "c.Stl"]);
    let materials = vec![Material { diffuse: Some([1.0f32.to_bits(); 3]) }];
    let files = vec![
        ModelFile::StlBytes(ASCII_STL.as_bytes().to_vec()),
        ModelFile::ObjModels(vec![one_face_model(Some(0)), one_face_model(None)], materials.clone()),
        ModelFile::StlBytes(binary_stl(&[[0.0, 0.0, 0.0, 2.0, 0.0, 0.0, 0.0, -0.5, 0.0]])),
    ];
    let queue = opts.match_meshes(&files).unwrap();
    assert_eq!(queue.len(), 4);
    assert_eq!(queue[0], decode_stl(ASCII_STL.as_bytes()).unwrap().to_simple_mesh());
    assert_eq!(queue[1], one_face_model(Some(0)).to_simple_mesh_with_materials(&materials));
    assert_eq!(queue[2], one_face_model(None).to_simple_mesh());
    assert_eq!(queue[3].triangles.len(), 1);
    assert_eq!(queue[3].triangles[0].v3.position, position(0.0, -0.5, 0.0));
    assert_eq!(
        Opts::to_meshes(&vec![one_face_model(Some(0)), one_face_model(None)], &materials),
        Ok(vec![queue[1].clone(), queue[2].clone()])
    );
}

#[test]
fn a_path_without_extension_fails() {
    let files = vec![ModelFile::StlBytes(ASCII_STL.as_bytes().to_vec())];
    assert_eq!(
        options(&["model"]).match_meshes(&files),
        Err(load_error(0, LoadFailure::NoExtension, ""))
    );
}

#[test]
fn an_unknown_extension_fails() {
    let files = vec![
        ModelFile::StlBytes(ASCII_STL.as_bytes().to_vec()),
        ModelFile::StlBytes(ASCII_STL.as_bytes().to_vec()),
    ];
    assert_eq!(
        options(&["model.stl", "model.ply"]).match_meshes(&files),
        Err(load_error(1, LoadFailure::UnknownExtension, ""))
    );
}

#[test]
fn unreadable_files_fail_with_what_the_loader_said() {
    let files = vec![ModelFile::Unreadable("no such file".to_string())];
    assert_eq!(
        options(&["model.obj"]).match_meshes(&files),
        Err(load_error(0, LoadFailure::ObjLoad, "no such file"))
    );
    assert_eq!(
        options(&["model.stl"]).match_meshes(&files),
        Err(load_error(0, LoadFailure::StlLoad, "no such file"))
    );
}

#[test]
fn bytes_that_are_no_stl_fail_with_the_message_of_the_decoder() {
    let files = vec![ModelFile::StlBytes(b"hello".to_vec())];
    assert_eq!(
        options(&["model.stl"]).match_meshes(&files),
        Err(load_error(0, LoadFailure::StlParse, &decode_stl(b"hello").unwrap_err()))
    );
}

#[test]
fn malformed_geometry_fails() {
    let mut model = one_face_model(None);
    model.indices[2] = 3;
    let files = vec![ModelFile::ObjModels(vec![one_face_model(None), model.clone()], vec![])];
    assert_eq!(
        options(&["model.obj"]).match_meshes(&files),
        Err(load_error(0, LoadFailure::Geometry(GeometryError::Index), ""))
    );
    assert_eq!(
        Opts::to_meshes(&vec![one_face_model(None), model], &vec![]),
        Err(GeometryError::Index)
    );
}

#[test]
fn coordinates_of_any_value_give_a_mesh() {
    let values = [0.0, 0.0, 0.0, f32::INFINITY, 65536.0, -1.0e30, 0.0, 1.0, 0.0];
    let files = vec![
        ModelFile::StlBytes(binary_stl(&[values])),
        ModelFile::ObjModels(
            vec![SourceModel { positions: bits(&values), indices: vec![2, 1, 0], material_id: None }],
            vec![],
        ),
    ];
    let queue = options(&["model.stl", "model.obj"]).match_meshes(&files).unwrap();
    assert_eq!(queue.len(), 2);
    assert_eq!(queue[0].triangles[0].v2.position, position(f32::INFINITY, 65536.0, -1.0e30));
    assert_eq!(queue[1].triangles[0].v2.position, position(f32::INFINITY, 65536.0, -1.0e30));
    assert_eq!(queue[1].triangles[0].v1.position, position(0.0, 1.0, 0.0));
}

#[test]
fn what_was_not_read_as_the_format_asks_fails() {
    let stl = ModelFile::StlBytes(ASCII_STL.as_bytes().to_vec());
    let obj = ModelFile::ObjModels(vec![one_face_model(None)], vec![]);
    assert_eq!(
        options(&["model.obj"]).match_meshes(&vec![stl.clone()]),
        Err(load_error(0, LoadFailure::NotLoaded, ""))
    );
    assert_eq!(
        options(&["model.stl"]).match_meshes(&vec![obj]),
        Err(load_error(0, LoadFailure::NotLoaded, ""))
    );
    assert_eq!(
        options(&["a.stl", "b.stl"]).match_meshes(&vec![stl]),
        Err(load_error(1, LoadFailure::NotLoaded, ""))
    );
}

#[test]
fn the_first_failing_path_is_reported() {
    let files = vec![
        ModelFile::StlBytes(ASCII_STL.as_bytes().to_vec()),
        ModelFile::Unreadable("first".to_string()),
        ModelFile::Unreadable("second".to_string()),
    ];
    assert_eq!(
        options(&["a.stl", "b.stl", "c"]).match_meshes(&files),
        Err(load_error(1, LoadFailure::StlLoad, "first"))
    );
}

#[test]
fn a_run_without_meshes_fails() {
    assert_eq!(options(&[]).match_meshes(&vec![]), Err(InputError::NoMeshes));
    let files = vec![ModelFile::ObjModels(vec![], vec![])];
    assert_eq!(options(&["empty.obj"]).match_meshes(&files), Err(InputError::NoMeshes));
}

#[test]
fn turntable_starts_half_a_revolution_on() {
    assert_eq!(
        options(&[]).match_turntable(),
        Ok((Some(0), Some(205887), Some(0), 1.0f32.to_bits()))
    );
    let mut opts = options(&[]);
    opts.x = 0.5f32.to_bits();
    opts.y = (-1.0f32).to_bits();
    opts.z = 2.0f32.to_bits();
    opts.speed = (-0.25f32).to_bits();
    assert_eq!(
        opts.match_turntable(),
        Ok((Some(32768), Some(205887 - 65536), Some(131072), (-0.25f32).to_bits()))
    );
}

#[test]
fn there_is_a_turntable_for_numbers_of_any_size() {
    let mut opts = options(&["a.stl"]);
    opts.x = 65536.0f32.to_bits();
    opts.y = 65536.0f32.to_bits();
    opts.z = (-65536.0f32).to_bits();
    opts.speed = f32::MAX.to_bits();
    assert_eq!(
        opts.match_turntable(),
        Ok((Some(155795), Some(361682), Some(255979), f32::MAX.to_bits()))
    );
    opts.color_less = true;
    opts.subcmd = SubCommand::Image { webify: 3, width: 1, height: None };
    assert_eq!(
        opts.match_turntable(),
        Ok((Some(155795), Some(361682), Some(255979), f32::MAX.to_bits()))
    );
}

#[test]
fn what_is_no_number_is_carried_on() {
    let mut opts = options(&[]);
    opts.x = f32::NAN.to_bits();
    opts.y = f32::INFINITY.to_bits();
    opts.z = f32::NEG_INFINITY.to_bits();
    opts.speed = f32::NAN.to_bits();
    assert_eq!(opts.match_turntable(), Ok((None, None, None, f32::NAN.to_bits())));
    opts.y = 0.0f32.to_bits();
    assert_eq!(opts.match_turntable(), Ok((None, Some(205887), None, f32::NAN.to_bits())));
    for bits in [0u32, 1, 0x7f7f_ffff, 0x7f80_0000, 0x7fc0_0000, 0xffff_ffff, 0x8000_0000] {
        opts.x = bits;
        opts.y = bits;
        opts.z = bits;
        opts.speed = bits;
        assert!(opts.match_turntable().is_ok());
    }
}

#[test]
fn files_are_read_one_by_one_until_one_fails() {
    let opts = options(&["a.stl", "b.obj", "c.ply", "d.stl"]);
    let stl = ModelFile::StlBytes(ASCII_STL.as_bytes().to_vec());
    let obj = ModelFile::ObjModels(vec![one_face_model(None)], vec![]);
    assert_eq!(opts.next_to_read(&vec![]), Some((0, ModelFormat::Stl)));
    assert_eq!(opts.next_to_read(&vec![stl.clone()]), Some((1, ModelFormat::Obj)));
    assert_eq!(opts.next_to_read(&vec![stl.clone(), obj.clone()]), None);
    assert_eq!(
        opts.match_meshes(&vec![stl.clone(), obj.clone()]),
        Err(load_error(2, LoadFailure::UnknownExtension, ""))
    );
    let unreadable = ModelFile::Unreadable("gone".to_string());
    assert_eq!(opts.next_to_read(&vec![unreadable.clone()]), None);
    assert_eq!(opts.next_to_read(&vec![ModelFile::StlBytes(b"hello".to_vec())]), None);
    assert_eq!(opts.next_to_read(&vec![obj.clone()]), None);
    assert_eq!(opts.next_to_read(&vec![stl.clone(), unreadable]), None);
    let all = options(&["a.stl", "b.obj"]);
    assert_eq!(all.next_to_read(&vec![stl.clone()]), Some((1, ModelFormat::Obj)));
    assert_eq!(all.next_to_read(&vec![stl.clone(), obj.clone()]), None);
    assert_eq!(all.next_to_read(&vec![stl.clone(), obj.clone(), stl]), None);
    assert_eq!(options(&["model"]).next_to_read(&vec![]), None);
    assert_eq!(options(&[]).next_to_read(&vec![]), None);
}

#[test]
fn an_image_has_the_size_of_the_options() {
    let mut opts = options(&[]);
    opts.subcmd = SubCommand::Image { webify: 0, width: 7, height: Some(3) };
    let mut context = Context::blank(true);
    assert_eq!(opts.match_dimensions(&mut context), Ok(()));
    assert_eq!((context.width, context.height), (7, 3));
    assert_eq!(context.frame_buffer.len(), 21);
    assert_eq!(context.z_buffer.len(), 21);
    opts.subcmd = SubCommand::Image { webify: 0, width: 5, height: None };
    assert_eq!(opts.match_dimensions(&mut context), Ok(()));
    assert_eq!((context.width, context.height), (5, 5));
    assert_eq!(context.frame_buffer.len(), 25);
}

#[test]
fn an_interactive_run_keeps_the_size_of_the_context() {
    let opts = options(&[]);
    let mut context = Context::blank(false);
    context.update((4, 2), &[]);
    let before = context.clone();
    assert_eq!(opts.match_dimensions(&mut context), Ok(()));
    assert_eq!(context, before);
}
