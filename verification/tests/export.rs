use monster_step_viewer::nsi_export::{
    escape_nsi_string, image_filename_for_stem, output_image_filename, write_f32_slice_attr,
    write_i32_attr, write_i32_slice_attr, write_scene, write_set_attribute, write_string_attr,
    write_surface_attributes, write_trim_attributes, write_u32_slice_attr, ExportShell,
    NsiBrepSurfaceData, NsiBrepTrimData, NsiFileExportOptions, RealText,
};

fn number(text: &str) -> RealText {
    RealText { text: text.to_string() }
}

fn numbers(texts: &[&str]) -> Vec<RealText> {
    texts.iter().map(|t| number(t)).collect()
}

fn test_trims() -> NsiBrepTrimData<RealText> {
    NsiBrepTrimData {
        nloops: 2,
        ncurves: vec![1, 1],
        n: vec![2, 2],
        order: vec![2, 2],
        knot: numbers(&["0", "0", "1", "1", "0", "0", "1", "1"]),
        min: numbers(&["0", "0"]),
        max: numbers(&["1", "1"]),
        u: numbers(&["0", "1", "0.25", "0.75"]),
        v: numbers(&["0", "0", "0.25", "0.25"]),
        w: numbers(&["1", "1", "1", "1"]),
        sense: vec![0, 1],
    }
}

fn control(texts: [&str; 4]) -> [RealText; 4] {
    texts.map(number)
}

fn test_surface() -> NsiBrepSurfaceData<RealText> {
    NsiBrepSurfaceData {
        face_index: 3,
        nu: 2,
        nv: 2,
        uorder: 2,
        vorder: 2,
        uknot: numbers(&["0", "0", "1", "1"]),
        vknot: numbers(&["0", "0", "1", "1"]),
        umin: number("0"),
        umax: number("1"),
        vmin: number("0"),
        vmax: number("1"),
        pw: vec![
            control(["0", "0", "0", "1"]),
            control(["2", "0", "0", "2"]),
            control(["0", "1", "0", "1"]),
            control(["1", "1", "0", "1"]),
        ],
        trims: None,
        sampled_trim_fallback_count: 0,
    }
}

#[test]
fn trim_attributes_write_per_loop_sense_array() {
    let mut output = String::new();
    write_trim_attributes(&mut output, &test_trims()).expect("trim serialization should succeed");
    assert!(output.contains("\"trimcurves.sense\" \"int\" 2 [ 0 1 ]"));
}

#[test]
fn surface_attributes_write_weighted_homogeneous_pw() {
    let mut output = String::new();
    write_surface_attributes(&mut output, &test_surface())
        .expect("surface serialization should succeed");
    assert!(output.contains("\"Pw\" \"float\" 16 ["));
    assert!(output.contains("2 0 0 2"));
}

#[test]
fn quotes_and_backslashes_are_escaped() {
    assert_eq!(escape_nsi_string("a\"b\\c"), "a\\\"b\\\\c");
    assert_eq!(escape_nsi_string(""), "");
}

#[test]
fn attributes_are_written_line_by_line() {
    let mut output = String::new();
    write_set_attribute(&mut output, "no\"de").unwrap();
    write_i32_attr(&mut output, "n", -3).unwrap();
    write_string_attr(&mut output, "s", "a\"").unwrap();
    write_u32_slice_attr(&mut output, "r", &[640, 480]).unwrap();
    write_i32_slice_attr(&mut output, "i", &[-1, 2]).unwrap();
    write_f32_slice_attr(&mut output, "f", &numbers(&["0.5"])).unwrap();
    assert!(output.starts_with("SetAttribute \"no\\\"de\"\n"));
    assert!(output.contains("\"n\" \"int\" 1 -3\n"));
    assert!(output.contains("\"s\" \"string\" 1 \"a\\\"\"\n"));
    assert!(output.contains("\"r\" \"int\" 2 [ 640 480 ]\n"));
    assert!(output.contains("\"i\" \"int\" 2 [ -1 2 ]\n"));
    assert!(output.contains("\"f\" \"float\" 1 [ 0.5 ]\n"));
}

#[test]
fn the_image_is_named_after_the_scene() {
    assert_eq!(output_image_filename("boxes/boxy.nsi"), "boxy.tif");
    assert_eq!(output_image_filename(""), "mstpv_nsi_export.tif");
    assert_eq!(image_filename_for_stem(Some("a".to_string())), "a.tif");
    assert_eq!(output_image_filename("boxy"), "boxy.tif");
    assert_eq!(output_image_filename("boxy."), "boxy.tif");
    assert_eq!(output_image_filename("a.b/boxy.old.nsi"), "boxy.old.tif");
    assert_eq!(output_image_filename("/boxy"), "boxy.tif");
    assert_eq!(output_image_filename("boxes/boxy.nsi/"), "boxy.tif");
    assert_eq!(output_image_filename("boxes//boxy.nsi/./"), "boxy.tif");
    assert_eq!(output_image_filename(".boxy"), ".boxy.tif");
    assert_eq!(output_image_filename("a/.boxy.nsi"), ".boxy.tif");
    assert_eq!(output_image_filename("..."), "...tif");
    for none in ["/", ".", "./.", "..", "a/..", "/../"] {
        assert_eq!(output_image_filename(none), "mstpv_nsi_export.tif", "{none}");
    }
}

fn identity() -> [RealText; 16] {
    let mut texts: Vec<RealText> = Vec::new();
    for i in 0..16 {
        texts.push(number(if i % 5 == 0 { "1" } else { "0" }));
    }
    match texts.try_into() {
        Ok(matrix) => matrix,
        Err(_) => panic!("sixteen entries"),
    }
}

#[test]
fn a_scene_holds_the_camera_and_every_surface() {
    let options = NsiFileExportOptions {
        model_matrix: identity(),
        camera_matrix: identity(),
        fov_y_degrees: number("45"),
        resolution: [640, 480],
    };
    let trimmed = NsiBrepSurfaceData { trims: Some(test_trims()), ..test_surface() };
    let shells = vec![
        ExportShell { id: 0, surfaces: Some(vec![test_surface(), trimmed]) },
        ExportShell { id: 1, surfaces: None },
    ];
    let mut output = String::new();
    let count = write_scene(&mut output, "boxy_with_surfacetex.nsi", &shells, &options).unwrap();
    assert_eq!(count, 2);
    assert!(output.contains("Create \"mstpv_camera\" \"perspectivecamera\""));
    assert!(output.contains("\"Pw\" \"float\""));
    assert!(output.contains("\"trimcurves.sense\" \"int\" 2 ["));
    assert!(output.contains("\"resolution\" \"int\" 2 [ 640 480 ]"));
    assert!(output.contains("boxy_with_surfacetex.tif"));
}
