use monster_step_viewer::assembly::parse_assembly_transforms;
use monster_step_viewer::colors::parse_step_colors;
use monster_step_viewer::exchange::{build_shell_to_solid_map, open_step, resolve_to_shell_id, OpenFailure};
use monster_step_viewer::graph::{find_transform_roots, resolve_representations};
use monster_step_viewer::load_state::{FrameBudget, LoadEffect, LoadRequest, LoadState};
use monster_step_viewer::loader::{LoadMessage, LoadPhase, LoadProgress, LoadRun, ProgressBoard};
use monster_step_viewer::model::{StepEdge, StepFace, StepShell, StepTopology};
use monster_step_viewer::numbers::is_readable;
use monster_step_viewer::parameter::{HeaderParameter, StepMetadata};
use monster_step_viewer::prepare::{
    active_boundaries, build_topology_for_shell, classify_curve_type, count_failed_face_meshes,
    curve_edges, face_plans, plan_load, scene_of, shell_requires_trimmed_meshing, step_faces,
    step_shell, CurveKind, EdgeUse, OutlineFace, SceneFailure, SolidCache, TopologySource,
};
use std::collections::HashMap;

type Shell = StepShell<u32, [i32; 3], u8, ()>;

fn outline<S>(surface: S, uses: &[usize]) -> OutlineFace<S, usize> {
    let boundaries = if uses.is_empty() {
        Vec::new()
    } else {
        vec![uses
            .iter()
            .map(|index| EdgeUse { index: *index, orientation: true, trim_curve: None })
            .collect()]
    };
    OutlineFace { boundaries, orientation: true, surface }
}

#[test]
fn boundary_without_exact_pcurve_still_requires_trimmed_meshing() {
    assert!(shell_requires_trimmed_meshing(&[outline((), &[0])]));
}

#[test]
fn empty_boundaries_do_not_require_trimmed_meshing() {
    assert!(!shell_requires_trimmed_meshing(&[outline((), &[])]));
}

#[test]
fn failed_face_meshes_are_counted() {
    assert_eq!(count_failed_face_meshes(&[outline(Some(1u32), &[]), outline(None, &[])]), 1);
}

#[test]
fn load_phase_labels_distinguish_parsing_from_meshing() {
    assert_eq!(LoadPhase::Parsing.label(), "Parsing STEP file");
    assert_eq!(LoadPhase::Meshing.label(), "Tessellating shells");
}

#[test]
fn progress_reads_back() {
    let mut board = ProgressBoard::new();
    let progress = LoadProgress::new(&mut board);
    assert!(progress.is_on(&board));
    assert!(!progress.is_on(&ProgressBoard::new()));
    assert_eq!(progress.get(&board), (0, 0));
    progress.set(&mut board, 3, 65535);
    assert_eq!(progress.get(&board), (3, 65535));
    progress.set_counts(&mut board, 65537, 7);
    assert_eq!(progress.get(&board), (1, 7));
}

#[test]
fn clones_share_their_progress() {
    let mut board = ProgressBoard::default();
    let progress = LoadProgress::new(&mut board);
    let other = LoadProgress::new(&mut board);
    let clone = progress.clone();
    clone.set(&mut board, 65535, 2);
    assert_eq!(progress.get(&board), (65535, 2));
    progress.set(&mut board, 4, 9);
    assert_eq!(clone.get(&board), (4, 9));
    assert_eq!(other.get(&board), (0, 0));
}

#[test]
fn faces_keep_their_number_and_their_loops() {
    let faces = vec![outline(Some(10u32), &[1, 2]), outline(None, &[]), outline(Some(30), &[])];
    let plans = face_plans(&faces);
    assert_eq!(plans.len(), 2);
    assert_eq!((plans[0].face, plans[1].face), (0, 2));
    assert_eq!(plans[1].name, "Face 3");
    assert_eq!(plans[0].boundary_loops[0].edge_indices, vec![1, 2]);
    assert!(plans[0].boundary_loops[0].is_outer);
    let made = step_faces(plans, vec![10u32, 30]);
    assert_eq!((made[1].id, made[1].mesh), (2, 30));
}

#[test]
fn edges_take_the_names_of_their_curves() {
    let made = curve_edges(&["Line".to_string()], vec![vec![1, 2], vec![3]]);
    assert_eq!(made[0].curve_type, "Line");
    assert_eq!(made[1].curve_type, "Unknown");
    assert_eq!((made[1].id, made[1].points.clone()), (1, vec![3]));
    assert_eq!(classify_curve_type(CurveKind::Line), "Line");
    assert_eq!(classify_curve_type(CurveKind::Intersection), "IntersectionCurve");
    assert_eq!(classify_curve_type(CurveKind::Surface), "SurfaceCurve");
}

fn shell(at: usize) -> Shell {
    step_shell(at, Vec::new(), Vec::new(), None, 0, ())
}

#[test]
fn shells_are_named_by_their_place() {
    assert_eq!(shell(0).name, "Shell 1");
    assert_eq!(shell(11).name, "Shell 12");
}

fn metadata() -> StepMetadata {
    StepMetadata { headers: Vec::new(), entity_count: 7 }
}

#[test]
fn a_scene_needs_shells() {
    let made = scene_of(metadata(), vec![Ok(shell(0)), Ok(shell(1))]);
    assert_eq!(made.map(|s| s.shells.len()).unwrap_or(0), 2);
    match scene_of::<u32, [i32; 3], u8, ()>(metadata(), Vec::new()) {
        Err(failure) => assert_eq!(failure.message(), "No shells found in STEP file"),
        Ok(_) => panic!("no scene"),
    }
    let shells = vec![Ok(shell(0)), Err("first".to_string()), Err("second".to_string())];
    match scene_of(metadata(), shells) {
        Err(failure) => {
            assert!(matches!(failure, SceneFailure::Shell(_)));
            assert_eq!(
                failure.message(),
                "Failed to convert STEP shell into topology: first"
            );
        }
        Ok(_) => panic!("no scene"),
    }
}

#[test]
fn a_solid_is_converted_once() {
    let mut cache: SolidCache<u8> = SolidCache::new();
    assert_eq!(cache.source(None), TopologySource::Shell);
    assert_eq!(cache.source(Some(4)), TopologySource::Convert(4));
    cache.keep(4, 9);
    assert_eq!(cache.source(Some(4)), TopologySource::Kept(4));
    assert_eq!(cache.get(4), Some(&9));
    let made = build_topology_for_shell(TopologySource::Shell, 1u8, None);
    assert!(matches!(made, Some(StepTopology::Shell(1))));
    let made = build_topology_for_shell(TopologySource::Convert(4), 1u8, Some(9));
    assert!(matches!(made, Some(StepTopology::Solid(9))));
}

#[test]
fn boundaries_that_stay_active() {
    assert_eq!(active_boundaries(3, &[2, 0, 3]), vec![2, 0]);
    assert_eq!(active_boundaries(2, &[5]), Vec::<usize>::new());
}

const FILE: &str = "ISO-10303-21;
HEADER;
FILE_DESCRIPTION(('part'),'2;1');
FILE_NAME('part.stp','2024-01-01T00:00:00',('author'),('org'),'pre','sys','auth');
FILE_SCHEMA(('AUTOMOTIVE_DESIGN'));
ENDSEC;
DATA;
#1 = CARTESIAN_POINT('',(0.,0.,0.));
#2 = CLOSED_SHELL('',(#9));
#3 = CLOSED_SHELL('',(#9));
#4 = MANIFOLD_SOLID_BREP('',#2);
#5 = OPEN_SHELL('',(#9));
ENDSEC;
END-ISO-10303-21;
";

#[test]
fn a_file_is_opened_with_its_header_and_shells() {
    assert!(is_readable(FILE));
    let opened = match open_step(FILE) {
        Ok(opened) => opened,
        Err(_) => panic!("the file can be read"),
    };
    let names: Vec<&str> = opened.metadata.headers.iter().map(|h| h.name.as_str()).collect();
    assert_eq!(names, vec!["FILE_DESCRIPTION", "FILE_NAME", "FILE_SCHEMA"]);
    assert_eq!(opened.metadata.entity_count, 5);
    assert_eq!(opened.shell_ids, vec![2, 3, 5]);
    assert_eq!(opened.owners, HashMap::from([(2, 4)]));
    assert_eq!(build_shell_to_solid_map(&opened.table), HashMap::from([(2, 4)]));
    assert_eq!(resolve_to_shell_id(&opened.table, 2), 2);
    match &opened.metadata.headers[2].parameter {
        HeaderParameter::List(items) => match &items[0] {
            HeaderParameter::List(inner) => match &inner[0] {
                HeaderParameter::String(s) => assert_eq!(s, "AUTOMOTIVE_DESIGN"),
                _ => panic!("a string"),
            },
            _ => panic!("a list"),
        },
        _ => panic!("a list"),
    }
}

#[test]
fn files_that_cannot_be_opened() {
    match open_step("no STEP file") {
        Err(failure) => {
            assert!(matches!(failure, OpenFailure::Parse));
            assert_eq!(failure.message(), "Failed to parse STEP file");
        }
        Ok(_) => panic!("not readable"),
    }
}

fn file_with(entity: &str) -> String {
    format!("ISO-10303-21;HEADER;A(1);ENDSEC;DATA;{entity}ENDSEC;END-ISO-10303-21;")
}

#[test]
fn numbers_that_are_too_large_are_found() {
    assert!(is_readable(&file_with("#1=A(9223372036854775807);")));
    assert!(!is_readable(&file_with("#1=A(9223372036854775808);")));
    assert!(is_readable(&file_with("#1=A('9223372036854775808');")));
    assert!(is_readable(&file_with("#1=A(/*9223372036854775808*/1);")));
    assert!(is_readable(&file_with("#1=A(9223372036854775808.5);")));
    assert!(is_readable(&file_with("#1=A(0.99999999999999999999);")));
    assert!(is_readable("9223372036854775808"));
}

#[test]
fn exponents_that_are_too_large_are_found() {
    assert!(is_readable(&file_with("#1=A(1.E99);")));
    assert!(!is_readable(&file_with("#1=A(1.E99999999999999999999);")));
    assert!(!is_readable(&file_with("#1=A(1.E99999999999999999999.);")));
    assert!(!is_readable(&file_with("#1=A(1.5E- 99999999999999999999.);")));
    assert!(!is_readable("ISO-10303-21;HEADER;A(1.E99999999999999999999.);"));
}

#[test]
fn digits_of_keywords_and_anchors() {
    assert!(is_readable(&file_with("#1=A99999999999999999999(1);")));
    assert!(is_readable(&file_with("#1=E99999999999999999999(1);")));
    let anchors = |item: &str| {
        format!("ISO-10303-21;HEADER;A(1);ENDSEC;ANCHOR;<a>={item};ENDSEC;DATA;#1=A(99999999999999999999.);")
    };
    assert!(is_readable(&anchors("1")));
    assert!(is_readable(&anchors("'99999999999999999999'")));
    assert!(is_readable(&anchors("0.99999999999999999999")));
    assert!(!is_readable(&anchors("99999999999999999999.")));
}

#[test]
fn brackets_are_nested_within_bounds() {
    let nested = |n: usize| file_with(&format!("#1=A{}1{};", "(".repeat(n), ")".repeat(n)));
    assert!(is_readable(&nested(64)));
    assert!(!is_readable(&nested(65)));
    assert!(open_step(&nested(64)).is_ok());
    let quoted = file_with(&format!("#1=A('{}');", "(".repeat(100)));
    assert!(is_readable(&quoted));
    let behind = nested(1) + &"(".repeat(100) + "99999999999999999999";
    assert!(is_readable(&behind));
    assert!(open_step(&behind).is_ok());
}

fn failure_of(raw: &str) -> Option<OpenFailure> {
    assert!(is_readable(raw));
    open_step(raw).err()
}

#[test]
fn enumerations_in_the_place_of_references() {
    let unreadable = |entity: &str| {
        let failure = failure_of(&file_with(entity));
        matches!(failure, Some(OpenFailure::Unreadable))
    };
    assert!(unreadable("#1=MANIFOLD_SOLID_BREP('',.T.);"));
    assert!(!unreadable("#1=MANIFOLD_SOLID_BREP('',#2);"));
    assert!(!unreadable("#1=MANIFOLD_SOLID_BREP('',.T.,#2);"));
    assert!(unreadable("#1=CLOSED_SHELL('',(#2,.T.));"));
    assert!(unreadable("#1=ORIENTED_EDGE('',*,*,.T.,.T.);"));
    assert!(!unreadable("#1=ORIENTED_EDGE('',*,*,#2,.T.);"));
    assert!(!unreadable("#1=COLOUR(.T.);"));
    // An enumeration in the place of a list, or behind what is refused, is not
    // read as a reference.
    assert!(!unreadable("#1=CLOSED_SHELL('',.T.);"));
    assert!(!unreadable("#1=CLOSED_SHELL(1,(.T.));"));
    assert!(!unreadable("#1=CLOSED_SHELL('',('x',.T.));"));
    assert!(!unreadable("#1=LINE('',.ENTITY.,#2);"));
    assert!(unreadable("#1=LINE('',#2,.ENTITY_A.);"));
    match failure_of(&file_with("#1=PLANE('',.T.);")) {
        Some(failure) => {
            assert_eq!(failure.message(), "an entity of the STEP file cannot be read")
        }
        None => panic!("not readable"),
    }
}

#[test]
fn inline_entities_are_read_by_their_fields() {
    let opened = |entity: &str| {
        let raw = file_with(entity);
        assert!(is_readable(&raw));
        open_step(&raw).ok()
    };
    let typed = "#1=EDGE_LOOP('',(ORIENTED_EDGE(('',#2,.T.)),#3));";
    assert_eq!(opened(typed).map(|step| step.table.edge_loop.len()), Some(1));
    assert!(opened("#1=EDGE_LOOP('',(ORIENTED_EDGE(('',.T.,.T.)),#3));").is_none());
    let refused = "#1=EDGE_LOOP('',(ORIENTED_EDGE(('',#2,.X.)),.T.));";
    assert_eq!(opened(refused).map(|step| step.table.edge_loop.len()), Some(0));
    assert!(opened("#1=EDGE_LOOP('',(ORIENTED_EDGE(('',#2,.F.)),.T.));").is_none());
    let listed = "#1=FACE_BOUND('',('',(#2)),.T.);";
    assert_eq!(opened(listed).map(|step| step.table.face_bound.len()), Some(1));
    let curve = "#1=SEAM_CURVE('',#2,(#3),.CURVE_3D.);";
    assert_eq!(opened(curve).map(|step| step.table.surface_curve.len()), Some(1));
}

#[test]
fn partial_records_are_read_where_they_are_whole() {
    let curve = |net: &str, weights: &str| {
        file_with(&format!(
            "#1=(BOUNDED_CURVE()B_SPLINE_CURVE(2,{net},.UNSPECIFIED.,.F.,.F.)\
             B_SPLINE_CURVE_WITH_KNOTS((3,3),(0.,1.),.UNSPECIFIED.)CURVE()\
             GEOMETRIC_REPRESENTATION_ITEM()RATIONAL_B_SPLINE_CURVE({weights})\
             REPRESENTATION_ITEM(''));"
        ))
    };
    match open_step(&curve("(#2,#3,#4)", "(1.,1.,1.)")) {
        Ok(opened) => assert_eq!(opened.table.rational_b_spline_curve.len(), 1),
        Err(_) => panic!("the file can be read"),
    }
    assert!(matches!(
        failure_of(&curve("(#2,.T.,#4)", "(1.,1.,1.)")),
        Some(OpenFailure::Unreadable)
    ));
    assert!(matches!(failure_of(&curve("(#2,#3,#4)", "")), Some(OpenFailure::Unreadable)));
    assert!(failure_of(&curve("#2", "")).is_none());
    let relation = |first: &str| {
        file_with(&format!(
            "#1=(REPRESENTATION_RELATIONSHIP({first})\
             REPRESENTATION_RELATIONSHIP_WITH_TRANSFORMATION(#4)\
             SHAPE_REPRESENTATION_RELATIONSHIP());"
        ))
    };
    assert!(failure_of(&relation("'','',#2,#3")).is_none());
    assert!(matches!(failure_of(&relation("'','',#2")), Some(OpenFailure::Unreadable)));
    assert!(failure_of(&relation("1")).is_none());
    assert!(matches!(failure_of(&relation("'','',.T.,#3")), Some(OpenFailure::Unreadable)));
}

#[test]
fn a_refusal_far_along_a_line_is_told() {
    let long = file_with(&format!("#1=A('{}');!", "x".repeat(70000)));
    assert!(matches!(failure_of(&long), Some(OpenFailure::Parse)));
    assert!(matches!(failure_of("ISO-10303-21;HEADER;A(1);ENDSEC;END-ISO-10303-21;"), Some(OpenFailure::NoData)));
}

#[test]
fn a_load_is_planned_shell_by_shell() {
    let plan = match plan_load(FILE) {
        Ok(plan) => plan,
        Err(_) => panic!("the file can be read"),
    };
    let shells: Vec<(usize, u64, Option<u64>)> =
        plan.shells.iter().map(|s| (s.local_idx, s.entity, s.solid)).collect();
    assert_eq!(shells, vec![(0, 2, Some(4)), (1, 3, None), (2, 5, None)]);
    assert!(plan.shells[0].color.is_none());
    assert_eq!(plan.shells[0].steps.as_ref().map(|s| s.len()), Some(0));
    assert!(plan.shells[1].steps.is_none());
}

const STYLES: &str = "#1 = STYLED_ITEM('',(#2),#20);
#2 = PRESENTATION_STYLE_ASSIGNMENT((#3));
#3 = SURFACE_STYLE_USAGE(.BOTH.,#4);
#4 = SURFACE_SIDE_STYLE('',(#5));
#5 = SURFACE_STYLE_FILL_AREA(#6);
#6 = FILL_AREA_STYLE('',(#7));
#7 = FILL_AREA_STYLE_COLOUR('',#8);
#8 = COLOUR_RGB('',0.5,1.,0.25);
#11 = STYLED_ITEM('',(#12),#30);
#12 = PRESENTATION_STYLE_ASSIGNMENT((#99));
#20 = MANIFOLD_SOLID_BREP('',#21);
";

#[test]
fn a_colour_reaches_the_shell_of_a_solid() {
    let colours = parse_step_colors(STYLES);
    assert_eq!(colours.len(), 1);
    let rgb = &colours[&21];
    assert_eq!((rgb.x.as_str(), rgb.y.as_str(), rgb.z.as_str()), ("0.5", "1.", "0.25"));
}

#[test]
fn the_last_styled_item_counts() {
    let again = "#40 = STYLED_ITEM('',(#42),#21);
#42 = PRESENTATION_STYLE_ASSIGNMENT((#43));
#43 = SURFACE_STYLE_USAGE(.BOTH.,#44);
#44 = SURFACE_SIDE_STYLE('',(#45));
#45 = SURFACE_STYLE_FILL_AREA(#46);
#46 = FILL_AREA_STYLE('',(#47));
#47 = FILL_AREA_STYLE_COLOUR('',#48);
#48 = COLOUR_RGB('',0.,0.,1.E+000);
";
    let colours = parse_step_colors(&[STYLES, again].concat());
    assert_eq!(colours.len(), 1);
    assert_eq!(colours[&21].z, "1.0E+000");
}

const ASSEMBLY: &str = "#1 = CARTESIAN_POINT('',(1.,2.,3.));
#2 = DIRECTION('',(0.,0.,1.));
#3 = DIRECTION('',(1.,0.,0.));
#4 = AXIS2_PLACEMENT_3D('',#1,#2,#3);
#5 = AXIS2_PLACEMENT_3D('',#1,#2,#88);
#6 = ITEM_DEFINED_TRANSFORMATION('','',#4,#5);
#10 = SHAPE_REPRESENTATION('',(#4));
#11 = SHAPE_REPRESENTATION('',(#5));
#12 = ADVANCED_BREP_SHAPE_REPRESENTATION('',(#14),#77);
#13 = SHAPE_REPRESENTATION_RELATIONSHIP('','',#11,#12);
#14 = MANIFOLD_SOLID_BREP('',#15);
#16 = ( REPRESENTATION_RELATIONSHIP('','',#11,#10)
  REPRESENTATION_RELATIONSHIP_WITH_TRANSFORMATION(#6)
  SHAPE_REPRESENTATION_RELATIONSHIP() );
";

#[test]
fn a_shell_takes_the_steps_on_the_way_to_its_solid() {
    let assembly = parse_assembly_transforms(ASSEMBLY);
    assert_eq!(assembly.shell_count(), 1);
    let steps = assembly.shell_steps(15).unwrap();
    assert_eq!(steps.len(), 1);
    assert_eq!((steps[0].placements, steps[0].inverted), (Some((4, 5)), false));
    let place = assembly.placement(4).unwrap();
    assert_eq!(place.location.unwrap().y, "2.");
    assert!(assembly.placement(5).unwrap().ref_direction.is_none());
    assert!(assembly.placement(6).is_none());
}

#[test]
fn without_an_assembly_every_shell_stays() {
    let assembly = parse_assembly_transforms("#14 = MANIFOLD_SOLID_BREP('',#15);");
    assert_eq!(assembly.shell_steps(15).map(|s| s.len()), Some(0));
    assert!(assembly.shell_steps(14).is_none());
}

#[test]
fn roots_are_parents_and_never_children() {
    let relationships = [(2, 1, 9), (3, 1, 9), (4, 2, 9)];
    assert_eq!(find_transform_roots(&relationships, false), vec![1]);
    assert_eq!(find_transform_roots(&relationships, true), vec![3, 4]);
}

#[test]
fn many_roots_flip_the_direction() {
    let relationships = [(1, 2, 9), (1, 3, 8)];
    let items = HashMap::from([(9, (90, 91))]);
    let reached = resolve_representations(&[(3, 4)], &relationships, &items);
    assert_eq!(reached.len(), 4);
    assert_eq!(reached[&1].len(), 0);
    assert_eq!(reached[&2][0].placements, Some((90, 91)));
    assert!(reached[&2][0].inverted);
    assert_eq!(reached[&4][0].placements, None);
}

#[test]
fn messages_of_a_load_come_in_order() {
    let (mut run, first) = LoadRun::start_file::<u8, u8>();
    assert!(matches!(first, LoadMessage::Phase(LoadPhase::Reading)));
    assert!(matches!(run.text_read::<u8, u8>(), LoadMessage::Phase(LoadPhase::Parsing)));
    let opened = run.opened::<u8, u8>(metadata(), 1);
    assert!(opened.iter().any(|m| matches!(m, LoadMessage::TotalShells(1))));
    assert!(opened.iter().any(|m| matches!(m, LoadMessage::Metadata(_))));
    let step = run.one_more::<u8, u8>();
    assert!(matches!(
        step,
        LoadMessage::Progress { phase: LoadPhase::Preparing, current: 1, total: 1 }
    ));
    let next = run.all_prepared::<u8, u8>();
    assert!(matches!(
        next,
        LoadMessage::Phase(LoadPhase::Meshing) | LoadMessage::Progress { .. }
    ));
    let step = run.one_more::<u8, u8>();
    assert!(matches!(
        step,
        LoadMessage::Progress { phase: LoadPhase::Meshing, current: 1, total: 1 }
    ));
    let last = run.all_meshed(Some(5u8), vec![7u8]);
    assert!(matches!(last[0], LoadMessage::Bounds(5)));
    assert!(matches!(last[1], LoadMessage::Shell(7)));
    assert!(matches!(last[last.len() - 1], LoadMessage::Done));
}

#[test]
fn messages_of_a_new_tessellation_come_in_order() {
    let (mut run, first) = LoadRun::start_retessellation::<u8, u8>(1);
    assert_eq!(first.len(), 2);
    assert!(matches!(first[0], LoadMessage::TotalShells(1)));
    assert!(matches!(first[1], LoadMessage::Phase(LoadPhase::Meshing)));
    assert!(matches!(
        run.one_more::<u8, u8>(),
        LoadMessage::Progress { phase: LoadPhase::Meshing, current: 1, total: 1 }
    ));
    let last = run.all_meshed(None::<u8>, vec![7u8]);
    assert_eq!(last.len(), 2);
    assert!(matches!(last[0], LoadMessage::Shell(7)));
    assert!(matches!(last[1], LoadMessage::Done));
    let (_, none) = LoadRun::start_retessellation::<u8, u8>(0);
    assert!(matches!(none[0], LoadMessage::TotalShells(0)));
    match &none[1] {
        LoadMessage::Error(text) => assert_eq!(text, "No shells found in STEP file"),
        _ => panic!("an error"),
    }
}

#[test]
fn relationships_are_flipped_where_that_leaves_fewer_roots() {
    let fewer = [(1, 2, 50), (1, 3, 50)];
    assert_eq!(find_transform_roots(&fewer, false), vec![2, 3]);
    assert_eq!(find_transform_roots(&fewer, true), vec![1]);
    let flipped = resolve_representations(&[], &fewer, &HashMap::new());
    assert!(flipped[&2][0].inverted);
    let tie = [(1, 2, 50), (3, 4, 50)];
    assert_eq!(find_transform_roots(&tie, false).len(), find_transform_roots(&tie, true).len());
    let kept = resolve_representations(&[], &tie, &HashMap::new());
    assert_eq!(kept[&2].len(), 0);
    assert!(!kept[&1][0].inverted);
}

type State = LoadState<&'static str, u32, [i32; 3], u8, (), u8>;

#[test]
fn a_load_is_heard_to_its_end() {
    let mut state: State = LoadState::new();
    assert_eq!(state.next_request(true, true, true), LoadRequest::File);
    assert_eq!(state.next_request(true, false, true), LoadRequest::Text);
    assert_eq!(state.next_request(false, true, true), LoadRequest::File);
    assert_eq!(state.next_request(false, false, false), LoadRequest::Nothing);
    state.begin("a.stp");
    let effects = state.receive_all(
        vec![
            LoadMessage::Metadata(metadata()),
            LoadMessage::TotalShells(1),
            LoadMessage::Bounds(3),
            LoadMessage::Shell(shell(0)),
            LoadMessage::Done,
            LoadMessage::Error("never heard".to_string()),
        ],
        false,
    );
    assert!(effects.iter().any(|e| matches!(e, LoadEffect::Frame(3))));
    assert!(effects.iter().any(|e| matches!(e, LoadEffect::Show(0))));
    assert!(matches!(effects[effects.len() - 1], LoadEffect::Finished { .. }));
    assert!(state.job.is_none());
    assert!(state.error.is_none());
    assert_eq!(state.scene.as_ref().map(|s| s.len()), Some(1));
    assert_eq!(state.next_request(true, true, true), LoadRequest::Retessellate);
}

#[test]
fn a_lost_loader_is_an_error() {
    let mut state: State = LoadState::new();
    state.begin("a.stp");
    state.receive_all(Vec::new(), true);
    assert_eq!(
        state.error.as_deref(),
        Some("STEP loader stopped unexpectedly before completion")
    );
    assert!(state.job.is_none());
}

#[test]
fn only_a_few_shells_are_taken_in_a_frame() {
    let mut budget = FrameBudget::new();
    let spent: Vec<bool> =
        (0..4).map(|i| budget.is_spent::<u8, u8>(&LoadMessage::Shell(i))).collect();
    assert_eq!(spent, vec![false, false, false, true]);
}

#[test]
fn solids_are_told_from_open_shells() {
    let solid: Shell = StepShell { topology: Some(StepTopology::Solid(1)), ..shell(0) };
    assert!(solid.has_solid_topology());
    let open: Shell = StepShell { topology: Some(StepTopology::Shell(1)), ..shell(0) };
    assert!(!open.has_solid_topology());
    let face: StepFace<u32> =
        StepFace { id: 0, name: String::new(), mesh: 1, boundary_loops: Vec::new() };
    let edge: StepEdge<[i32; 3]> =
        StepEdge { id: 0, curve_type: String::new(), points: Vec::new() };
    let full: Shell = step_shell(2, vec![face], vec![edge], None, 1, ());
    assert_eq!((full.id, full.faces.len(), full.curve_edges.len(), full.failed_faces), (2, 1, 1, 1));
}
