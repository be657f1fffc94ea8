use wavefront_obj::error::Error;
use wavefront_obj::obj::Face;
use wavefront_obj::obj::FaceDefinition;
use wavefront_obj::obj::Normal;
use wavefront_obj::obj::ObjToken;
use wavefront_obj::obj::Smoothing;
use wavefront_obj::obj::UVTexture;
use wavefront_obj::obj::Vertex;

fn t(x: &str) -> String {
    x.to_owned()
}

#[test]
fn test_face_definition_from_str_rebases() {
    let fd = FaceDefinition::from_str("5/3/2").unwrap();
    assert_eq!(fd.vertex_index, 4);
    assert_eq!(fd.uv_texture_index, 2);
    assert_eq!(fd.normal_index, 1);
}

#[test]
fn test_face_definition_from_str_rejects() {
    assert_eq!(
        FaceDefinition::from_str("1/2").unwrap_err(),
        Error::InvalidFaceDefinitionString
    );
    assert_eq!(
        FaceDefinition::from_str("1/2/3/4").unwrap_err(),
        Error::InvalidFaceDefinitionString
    );
    assert_eq!(
        FaceDefinition::from_str("0/2/3").unwrap_err(),
        Error::InvalidFaceDefinitionString
    );
    assert_eq!(
        FaceDefinition::from_str("1/x/3").unwrap_err(),
        Error::ParseInt(t("x"))
    );
    assert_eq!(
        FaceDefinition::from_str("").unwrap_err(),
        Error::InvalidFaceDefinitionString
    );
}

#[test]
fn test_vertex_from_str_shapes() {
    let bare = Vertex::from_str("1 2 3").unwrap();
    assert_eq!(bare, Vertex::new(t("1"), t("2"), t("3")));

    let led = Vertex::from_str("v 1.5 -2 3e2").unwrap();
    assert_eq!(led, Vertex::new(t("1.5"), t("-2"), t("3e2")));

    assert_eq!(
        Vertex::from_str("vn 1 2 3").unwrap_err(),
        Error::InvalidVertexFormat
    );
    assert_eq!(
        Vertex::from_str("v 1 2").unwrap_err(),
        Error::ParseFloat(t("v"))
    );
    assert_eq!(
        Vertex::from_str("v 1 2 3 4").unwrap_err(),
        Error::InvalidVertexFormat
    );
}

#[test]
fn test_normal_from_str_shapes() {
    let led = Normal::from_str("vn 0 0 1").unwrap();
    assert_eq!(led, Normal::new(t("0"), t("0"), t("1")));
    assert_eq!(
        Normal::from_str("v 0 0 1").unwrap_err(),
        Error::InvalidNormalFormat
    );
}

#[test]
fn test_uv_texture_from_str_shapes() {
    let led = UVTexture::from_str("vt 0.25 0.75").unwrap();
    assert_eq!(led, UVTexture::new(t("0.25"), t("0.75")));
    let bare = UVTexture::from_str(".5 1.").unwrap();
    assert_eq!(bare, UVTexture::new(t(".5"), t("1.")));
    assert_eq!(
        UVTexture::from_str("vt 1 2 3").unwrap_err(),
        Error::InvalidUVTextureFormat
    );
}

#[test]
fn test_float_grammar_accepted_tokens() {
    for good in [
        "0", "-0", "+3.14", "2.5E10", "2.5e-10", "5.", ".5", "1.e3", "inf", "-inf",
        "+Infinity", "NaN", "nan",
    ] {
        let line = format!("v {} 1 1", good);
        assert!(Vertex::from_str(&line).is_ok(), "rejected {}", good);
    }
}

#[test]
fn test_float_grammar_rejected_tokens() {
    for bad in ["", "1.2.3", "e5", "1e", "1e+", "+", "--1", "0x1", "1_000", "in", "infini"] {
        let line = format!("v {} 1 1", bad);
        assert_eq!(
            Vertex::from_str(&line).unwrap_err(),
            Error::ParseFloat(t(bad)),
            "accepted {:?}",
            bad
        );
    }
}

#[test]
fn test_float_grammar_agrees_with_std() {
    for good in [
        "0", "-0", "+3.14", "2.5E10", "2.5e-10", "5.", ".5", "1.e3", "inf", "-inf",
        "+Infinity", "NaN", "nan", "007", "1e00", "3.", "-.5e-0",
    ] {
        assert!(good.parse::<f32>().is_ok(), "std rejects {:?}", good);
        let line = format!("v {} 1 1", good);
        assert!(Vertex::from_str(&line).is_ok(), "library rejects {:?}", good);
    }
    for bad in [
        "", "1.2.3", "e5", "1e", "1e+", "+", "-", ".", "+.", "--1", "0x1", "1_000", "in",
        "infini", "infinityy", "nans", "1f32", "0b1", "1,5",
    ] {
        assert!(bad.parse::<f32>().is_err(), "std accepts {:?}", bad);
        let line = format!("v {} 1 1", bad);
        assert_eq!(
            Vertex::from_str(&line).unwrap_err(),
            Error::ParseFloat(t(bad)),
            "library accepts {:?}",
            bad
        );
    }
}

#[test]
fn test_smoothing_from_str() {
    assert_eq!(Smoothing::from_str("off").unwrap(), Smoothing(0));
    assert_eq!(Smoothing::from_str("OFF").unwrap(), Smoothing(0));
    assert_eq!(Smoothing::from_str("Off").unwrap(), Smoothing(0));
    assert_eq!(Smoothing::from_str("0").unwrap(), Smoothing(0));
    assert_eq!(Smoothing::from_str("255").unwrap(), Smoothing(255));
    assert_eq!(Smoothing::from_str("+7").unwrap(), Smoothing(7));
    assert_eq!(Smoothing::from_str("256").unwrap_err(), Error::ParseInt(t("256")));
    assert_eq!(Smoothing::from_str("-1").unwrap_err(), Error::ParseInt(t("-1")));
    assert_eq!(Smoothing::from_str("").unwrap_err(), Error::ParseInt(t("")));
}

#[test]
fn test_obj_token_round_trip() {
    for word in ["o", "v", "vn", "vt", "s", "f"] {
        let tok = ObjToken::from_token(word).unwrap();
        assert_eq!(tok.as_str(), word);
    }
    assert_eq!(
        ObjToken::from_token("g").unwrap_err(),
        Error::UnrecognizedToken(t("g"))
    );
    assert_eq!(
        ObjToken::from_token("V").unwrap_err(),
        Error::UnrecognizedToken(t("V"))
    );
}

#[test]
fn test_face_to_display_string() {
    let face = Face::new(vec![
        FaceDefinition::new(1, 2, 3),
        FaceDefinition::new(4, 5, 6),
    ]);
    assert_eq!(face.to_display_string(), "1,3,2,4,6,5");
    assert_eq!(Face::new(Vec::new()).to_display_string(), "");
}

#[test]
fn test_smoothing_to_display_string() {
    assert_eq!(Smoothing(0).to_display_string(), "0");
    assert_eq!(Smoothing(210).to_display_string(), "210");
}

#[test]
fn test_to_arr_orders() {
    let v = Vertex::new(t("1"), t("2"), t("3"));
    assert_eq!(v.to_arr(), vec![t("1"), t("2"), t("3")]);
    let n = Normal::new(t("4"), t("5"), t("6"));
    assert_eq!(n.to_arr(), vec![t("4"), t("5"), t("6")]);
    let uv = UVTexture::new(t("7"), t("8"));
    assert_eq!(uv.to_arr(), vec![t("7"), t("8")]);
}
