use wavefront_obj::error::Error;
use wavefront_obj::obj::Face;
use wavefront_obj::obj::FaceDefinition;
use wavefront_obj::obj::Normal;
use wavefront_obj::obj::Obj3D;
use wavefront_obj::obj::Smoothing;
use wavefront_obj::obj::UVTexture;
use wavefront_obj::obj::Vertex;

fn s(t: &str) -> String {
    t.to_owned()
}

#[test]
fn test_obj3d_new() {
    let name = String::from("wall_with_door_gap");
    let vertices = vec![
        Vertex::new(s("1.0"), s("2.0"), s("3.0")),
        Vertex::new(s("4.0"), s("5.0"), s("6.0")),
        Vertex::new(s("7.0"), s("8.0"), s("9.0")),
    ];
    let normals = vec![
        Normal::new(s("10.0"), s("11.0"), s("12.0")),
        Normal::new(s("13.0"), s("14.0"), s("15.0")),
        Normal::new(s("16.0"), s("17.0"), s("18.0")),
    ];
    let uv_textures = vec![
        UVTexture::new(s("1.0"), s("2.0")),
        UVTexture::new(s("3.0"), s("4.0")),
        UVTexture::new(s("5.0"), s("6.0")),
    ];
    let smoothing = Smoothing(1);
    let faces = vec![Face::new(vec![
        FaceDefinition::new(1, 2, 3),
        FaceDefinition::new(4, 5, 6),
        FaceDefinition::new(7, 8, 9),
    ])];

    let o = Obj3D::new(
        Some(name.clone()),
        vertices.clone(),
        normals.clone(),
        uv_textures.clone(),
        smoothing.clone(),
        faces.clone(),
    );

    assert_eq!(o.name, Some(name));
    assert_eq!(o.vertices, vertices);
    assert_eq!(o.normals, normals);
    assert_eq!(o.uv_textures, uv_textures);
    assert_eq!(o.smoothing, smoothing);
    assert_eq!(o.faces, faces);
}

#[test]
fn test_obj3d_new_with_name() {
    let name = String::from("new_name");
    let o = Obj3D::new_with_name(name.clone());

    assert_eq!(o.name, Some(name));
    assert_eq!(o.vertices, Vec::new());
    assert_eq!(o.normals, Vec::new());
    assert_eq!(o.uv_textures, Vec::new());
    assert_eq!(o.smoothing, Smoothing(0));
    assert_eq!(o.faces, Vec::new());
}

#[test]
fn test_parse_string_end_to_end() {
    let input = "o Plane\nv 0 0 0\nv 1 0 0\nv 1 1 0\nvn 0 0 1\nvt 0 0\nf 1/1/1 2/1/1 3/1/1";
    let objs = Obj3D::parse_string(input).unwrap();
    assert_eq!(objs.len(), 1);
    let o = &objs[0];
    assert_eq!(o.name, Some(s("Plane")));
    assert_eq!(o.vertices.len(), 3);
    assert_eq!(o.vertices[0], Vertex::new(s("0"), s("0"), s("0")));
    assert_eq!(o.vertices[1], Vertex::new(s("1"), s("0"), s("0")));
    assert_eq!(o.vertices[2], Vertex::new(s("1"), s("1"), s("0")));
    assert_eq!(o.normals, vec![Normal::new(s("0"), s("0"), s("1"))]);
    assert_eq!(o.uv_textures, vec![UVTexture::new(s("0"), s("0"))]);
    assert_eq!(o.smoothing, Smoothing(0));
    assert_eq!(o.faces.len(), 1);
    let fds = &o.faces[0].face_defs;
    assert_eq!(fds.len(), 3);
    for (i, fd) in fds.iter().enumerate() {
        assert_eq!(fd.vertex_index, i);
        assert_eq!(fd.uv_texture_index, 0);
        assert_eq!(fd.normal_index, 0);
    }
}

#[test]
fn test_parse_string_vertices_in_order() {
    let input = "o box\nv 1 2 3\nv 4 5 6\nv 7 8 9\nv 10 11 12";
    let objs = Obj3D::parse_string(input).unwrap();
    assert_eq!(objs.len(), 1);
    assert_eq!(objs[0].vertices.len(), 4);
    assert_eq!(objs[0].vertices[0], Vertex::new(s("1"), s("2"), s("3")));
    assert_eq!(objs[0].vertices[3], Vertex::new(s("10"), s("11"), s("12")));
}

#[test]
fn test_parse_string_smoothing_last_write_wins() {
    let input = "o thing\ns 1\nv 1 2 3\ns off";
    let objs = Obj3D::parse_string(input).unwrap();
    assert_eq!(objs[0].smoothing, Smoothing(0));

    let input2 = "o thing\ns 1\nv 1 2 3\ns 7";
    let objs2 = Obj3D::parse_string(input2).unwrap();
    assert_eq!(objs2[0].smoothing, Smoothing(7));
}

#[test]
fn test_parse_string_missing_object_declaration() {
    let input = "v 1 2 3\no late\nv 4 5 6";
    let err = Obj3D::parse_string(input).unwrap_err();
    assert_eq!(err, Error::MissingObjectDeclaration);

    for directive in ["vn 0 0 1", "vt 0 1", "s 1", "f 1/1/1"] {
        let text = format!("# lead-in\n{}\no recovery", directive);
        let err = Obj3D::parse_string(&text).unwrap_err();
        assert_eq!(err, Error::MissingObjectDeclaration);
    }
}

#[test]
fn test_parse_string_unrecognized_lines_skipped() {
    let with_noise = "o a\nv 1 2 3\ng mygroup\n# comment\n\nv 4 5 6";
    let without = "o a\nv 1 2 3\nv 4 5 6";
    let a = Obj3D::parse_string(with_noise).unwrap();
    let b = Obj3D::parse_string(without).unwrap();
    assert_eq!(a, b);
}

#[test]
fn test_parse_string_multiple_objects() {
    let input = "o first\nv 1 2 3\no second\nv 4 5 6\nv 7 8 9";
    let objs = Obj3D::parse_string(input).unwrap();
    assert_eq!(objs.len(), 2);
    assert_eq!(objs[0].name, Some(s("first")));
    assert_eq!(objs[0].vertices.len(), 1);
    assert_eq!(objs[1].name, Some(s("second")));
    assert_eq!(objs[1].vertices.len(), 2);
}

#[test]
fn test_parse_string_object_names() {
    let objs = Obj3D::parse_string("o").unwrap();
    assert_eq!(objs.len(), 1);
    assert_eq!(objs[0].name, None);

    let objs = Obj3D::parse_string("o a b").unwrap();
    assert_eq!(objs[0].name, Some(s("a")));

    let objs = Obj3D::parse_string("o ").unwrap();
    assert_eq!(objs[0].name, Some(s("")));

    let objs = Obj3D::parse_string("o caf\u{e9}").unwrap();
    assert_eq!(objs[0].name, Some(s("caf\u{e9}")));
}

#[test]
fn test_parse_string_empty_input() {
    let objs = Obj3D::parse_string("").unwrap();
    assert_eq!(objs, Vec::new());
}

#[test]
fn test_parse_string_first_some_and_none() {
    let first = Obj3D::parse_string_first("o one\nv 1 2 3\no two").unwrap();
    assert_eq!(first.unwrap().name, Some(s("one")));

    let none = Obj3D::parse_string_first("# nothing here").unwrap();
    assert!(none.is_none());

    let err = Obj3D::parse_string_first("v 1 2 3").unwrap_err();
    assert_eq!(err, Error::MissingObjectDeclaration);
}

#[test]
fn test_parse_string_single_cardinality() {
    let two = Obj3D::parse_string_single("o one\no two").unwrap_err();
    assert_eq!(two, Error::ParseSingleObj(2));

    let zero = Obj3D::parse_string_single("# empty").unwrap_err();
    assert_eq!(zero, Error::ParseSingleObj(0));

    let input = "o only\nv 1 2 3";
    let one = Obj3D::parse_string_single(input).unwrap();
    let all = Obj3D::parse_string(input).unwrap();
    assert_eq!(all.len(), 1);
    assert_eq!(one, all[0]);
}

#[test]
fn test_parse_string_crlf_lines_trimmed() {
    let input = "o a\r\nv 1 2 3\r\ns 4\r";
    let objs = Obj3D::parse_string(input).unwrap();
    assert_eq!(objs[0].name, Some(s("a")));
    assert_eq!(objs[0].vertices, vec![Vertex::new(s("1"), s("2"), s("3"))]);
    assert_eq!(objs[0].smoothing, Smoothing(4));
}

#[test]
fn test_parse_string_double_space_counts_as_token() {
    let err = Obj3D::parse_string("o a\nv  1 2 3").unwrap_err();
    assert_eq!(err, Error::InvalidVertexFormat);
}

#[test]
fn test_parse_string_empty_face_accepted() {
    let objs = Obj3D::parse_string("o a\nf").unwrap();
    assert_eq!(objs[0].faces, vec![Face::new(Vec::new())]);
}

#[test]
fn test_parse_string_error_variants() {
    let e = Obj3D::parse_string("o a\nv 1 2 x").unwrap_err();
    assert_eq!(e, Error::ParseFloat(s("x")));

    let e = Obj3D::parse_string("o a\ns 256").unwrap_err();
    assert_eq!(e, Error::ParseInt(s("256")));

    let e = Obj3D::parse_string("o a\ns abc").unwrap_err();
    assert_eq!(e, Error::ParseInt(s("abc")));

    let e = Obj3D::parse_string("o a\nv 1 2").unwrap_err();
    assert_eq!(e, Error::InvalidVertexFormat);

    let e = Obj3D::parse_string("o a\nvn 1 2").unwrap_err();
    assert_eq!(e, Error::InvalidNormalFormat);

    let e = Obj3D::parse_string("o a\nvt 1").unwrap_err();
    assert_eq!(e, Error::InvalidUVTextureFormat);

    let e = Obj3D::parse_string("o a\ns 1 2").unwrap_err();
    assert_eq!(e, Error::InvalidSmoothingFormat);

    let e = Obj3D::parse_string("o a\nf 1/2").unwrap_err();
    assert_eq!(e, Error::InvalidFaceDefinitionString);

    let e = Obj3D::parse_string("o a\nf 0/1/1").unwrap_err();
    assert_eq!(e, Error::InvalidFaceDefinitionString);

    let e = Obj3D::parse_string("o a\nf 1/1/99999999999999999999999").unwrap_err();
    assert_eq!(e, Error::ParseInt(s("99999999999999999999999")));
}

#[test]
fn test_parse_string_fail_fast_no_partial_result() {
    let e = Obj3D::parse_string("o a\nv 1 2 3\nv bad bad bad\no b").unwrap_err();
    assert_eq!(e, Error::ParseFloat(s("bad")));
}
