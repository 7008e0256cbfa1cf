use monster_step_viewer::browser::{
    expand_tree_to_path, set_children, set_expanded, DirectoryEntry, ExpandOutcome,
};
use monster_step_viewer::loader::LoadMessage;
use monster_step_viewer::parameter::{
    format_leaf_param, header_open, is_leaf_param, parameter_ui, HeaderParameter, RowKind,
};
use monster_step_viewer::previews::{
    assign_slots, collect_preview, grid_placeholder, grid_rows, has_step_ending, is_hidden,
    is_step_file, keeps_changing, listing_order, places_to_render, preview_caption,
    settle_preview, slot_of, start_waiting, visible_places, PreviewEntry, PreviewStatus,
    PreviewStep,
};
use monster_step_viewer::settings::{parse_cli_args, save_is_due, CliOutcome};

fn entry(name: &str, children: Option<Vec<DirectoryEntry<()>>>) -> DirectoryEntry<()> {
    DirectoryEntry { path: (), name: name.to_string(), expanded: false, children }
}

fn names(list: &[&str]) -> Vec<String> {
    list.iter().map(|n| n.to_string()).collect()
}

#[test]
fn a_tree_is_expanded_down_to_a_directory() {
    let mut tree = vec![entry("a", None), entry("b", Some(vec![entry("c", Some(Vec::new()))]))];
    assert!(matches!(expand_tree_to_path(&mut tree, &names(&["b", "c"])), ExpandOutcome::Found));
    assert!(tree[1].expanded);
    assert!(tree[1].children.as_ref().unwrap()[0].expanded);
    assert!(!tree[0].expanded);
    assert!(matches!(expand_tree_to_path(&mut tree, &names(&["x"])), ExpandOutcome::Missing));
    assert!(matches!(expand_tree_to_path(&mut tree, &[]), ExpandOutcome::Found));
}

#[test]
fn children_are_asked_for_on_the_way() {
    let mut tree = vec![entry("a", None)];
    let wanted = names(&["a", "b"]);
    match expand_tree_to_path(&mut tree, &wanted) {
        ExpandOutcome::NeedsChildren(path) => {
            assert_eq!(path, vec![0]);
            set_children(&mut tree, &path, vec![entry("b", Some(Vec::new()))]);
        }
        _ => panic!("children are missing"),
    }
    assert!(matches!(expand_tree_to_path(&mut tree, &wanted), ExpandOutcome::Found));
    set_expanded(&mut tree, &[0], false);
    assert!(!tree[0].expanded);
    assert!(tree[0].children.as_ref().unwrap()[0].expanded);
}

#[test]
fn each_directory_is_asked_for_once() {
    let mut tree = vec![entry("x", None), entry("a", None)];
    let wanted = names(&["a", "b", "c"]);
    let mut asked: Vec<Vec<usize>> = Vec::new();
    for children in [vec![entry("x", None), entry("b", None)], vec![entry("c", Some(Vec::new()))]] {
        match expand_tree_to_path(&mut tree, &wanted) {
            ExpandOutcome::NeedsChildren(path) => {
                set_children(&mut tree, &path, children);
                asked.push(path);
            }
            _ => panic!("children are missing"),
        }
    }
    assert_eq!(asked, vec![vec![1], vec![1, 1]]);
    assert!(matches!(expand_tree_to_path(&mut tree, &wanted), ExpandOutcome::Found));
}

#[test]
fn step_files_are_told_by_their_ending() {
    assert!(is_step_file("Part.STEP"));
    assert!(is_step_file("a.stp"));
    assert!(!is_step_file("a.stl"));
    assert!(!has_step_ending("A.STP"));
    assert!(is_hidden(".git"));
    assert!(!is_hidden("git"));
}

#[test]
fn listings_are_sorted_without_case() {
    assert_eq!(listing_order(&names(&["b", "A", "c", "a"])), vec![1, 3, 0, 2]);
}

fn preview(status: PreviewStatus<u8>) -> PreviewEntry<(), u8> {
    PreviewEntry { path: (), filename: String::new(), status }
}

#[test]
fn previews_are_loaded_and_settled() {
    let mut previews = vec![
        preview(PreviewStatus::Pending),
        preview(PreviewStatus::Ready(1)),
        preview(PreviewStatus::Pending),
    ];
    assert_eq!(start_waiting(&mut previews), vec![0, 2]);
    assert!(matches!(previews[0].status, PreviewStatus::Loading));
    settle_preview(&mut previews, 0, Ok(5));
    settle_preview(&mut previews, 2, Err("bad".to_string()));
    settle_preview(&mut previews, 9, Ok(5));
    assert!(matches!(previews[0].status, PreviewStatus::Ready(5)));
    assert_eq!(preview_caption(&previews[2].status, false), Some("bad"));
    assert_eq!(preview_caption(&previews[0].status, false), Some("Ready"));
    assert_eq!(preview_caption(&previews[0].status, true), None);
    assert_eq!(
        preview_caption(&PreviewStatus::<u8>::Loading, false),
        Some("Loading\u{2026}")
    );
}

#[test]
fn shells_of_a_preview_are_collected() {
    let mut shells: Vec<u8> = Vec::new();
    let step = collect_preview::<u8, ()>(&mut shells, LoadMessage::Shell(4));
    assert!(matches!(step, PreviewStep::Continue));
    assert_eq!(shells, vec![4]);
    assert!(matches!(
        collect_preview::<u8, ()>(&mut shells, LoadMessage::Done),
        PreviewStep::Finished
    ));
    match collect_preview::<u8, ()>(&mut shells, LoadMessage::Error("no".to_string())) {
        PreviewStep::Failed(text) => assert_eq!(text, "no"),
        _ => panic!("a failure"),
    }
}

#[test]
fn the_grid_has_rows_for_all_previews() {
    assert_eq!(grid_rows(7, 3), 3);
    assert_eq!(grid_rows(6, 3), 2);
    assert_eq!(visible_places(1, 2, 3, 100), (3, 12));
    assert_eq!(visible_places(1, 2, 3, 7), (3, 7));
    assert_eq!(grid_placeholder(false, 3), Some("Select a directory to browse STEP files"));
    assert_eq!(grid_placeholder(true, 0), Some("No STEP files in this directory"));
    assert_eq!(grid_placeholder(true, 1), None);
}

#[test]
fn visible_previews_share_the_slots() {
    let previews = vec![
        preview(PreviewStatus::Ready(0)),
        preview(PreviewStatus::Loading),
        preview(PreviewStatus::Ready(2)),
        preview(PreviewStatus::Ready(3)),
    ];
    let needed = places_to_render(&previews, 0, 4);
    assert_eq!(needed, vec![0, 2, 3]);
    let mut slots = vec![Some(3), Some(9)];
    assert_eq!(assign_slots(&mut slots, &needed), vec![(1, 0)]);
    let mut empty = vec![None, None, None];
    assert_eq!(assign_slots(&mut empty, &[7, 5, 7, 6]), vec![(0, 7), (1, 5), (2, 6)]);
    assert_eq!(slots, vec![Some(3), Some(0)]);
    assert_eq!(slot_of(&slots, 0), Some(1));
    assert_eq!(slot_of(&slots, 2), None);
    assert!(keeps_changing(&[None], &previews));
    assert!(!keeps_changing(&[None], &[preview(PreviewStatus::Ready(1))]));
    assert!(keeps_changing(&[Some(0)], &[preview(PreviewStatus::Ready(1))]));
}

fn string(s: &str) -> HeaderParameter {
    HeaderParameter::String(s.to_string())
}

#[test]
fn leaves_are_written_in_short() {
    assert_eq!(format_leaf_param(&string("")), "(empty)");
    assert_eq!(format_leaf_param(&string("a")), "'a'");
    assert_eq!(format_leaf_param(&HeaderParameter::Integer(-4)), "-4");
    assert_eq!(format_leaf_param(&HeaderParameter::Enumeration("T".to_string())), ".T.");
    assert_eq!(format_leaf_param(&HeaderParameter::NotProvided), "$");
    assert_eq!(format_leaf_param(&HeaderParameter::Omitted), "*");
    assert_eq!(format_leaf_param(&HeaderParameter::List(Vec::new())), "...");
    assert!(is_leaf_param(&string("a")));
    assert!(!is_leaf_param(&HeaderParameter::List(Vec::new())));
    assert!(header_open("FILE_NAME"));
    assert!(header_open("FILE_SCHEMA"));
    assert!(!header_open("FILE_DESCRIPTION"));
}

fn rows_of(p: &HeaderParameter) -> Vec<(usize, RowKind, String)> {
    let mut rows = Vec::new();
    parameter_ui(&mut rows, p, "value", 0);
    rows.into_iter().map(|r| (r.depth, r.kind, r.text)).collect()
}

#[test]
fn parameters_are_shown_as_a_tree() {
    let short = HeaderParameter::List(vec![string("a"), HeaderParameter::Integer(2)]);
    assert_eq!(rows_of(&short), vec![(0, RowKind::Wrapped, "value: ['a', 2]".to_string())]);
    assert_eq!(
        rows_of(&HeaderParameter::List(Vec::new())),
        vec![(0, RowKind::Label, "value: []".to_string())]
    );
    let long = HeaderParameter::List(vec![
        HeaderParameter::Integer(1),
        HeaderParameter::Integer(2),
        HeaderParameter::Integer(3),
        HeaderParameter::Omitted,
    ]);
    let rows = rows_of(&long);
    assert_eq!(rows[0], (0, RowKind::Section { open: true }, "value (4)".to_string()));
    assert_eq!(rows[4], (1, RowKind::Label, "[3]: *".to_string()));
    let typed = HeaderParameter::Typed {
        keyword: "LABEL".to_string(),
        parameter: Box::new(string("x")),
    };
    assert_eq!(rows_of(&typed), vec![(0, RowKind::Wrapped, "value: LABEL = 'x'".to_string())]);
}

#[test]
fn arguments_name_one_file() {
    match parse_cli_args(&names(&["-v", "a.stp", "b.stp"])) {
        CliOutcome::Run(args) => {
            assert_eq!(args.path.as_deref(), Some("a.stp"));
            assert!(args.verbose);
        }
        CliOutcome::Help => panic!("no help was asked for"),
    }
    match parse_cli_args(&[]) {
        CliOutcome::Run(args) => assert!(args.path.is_none() && !args.verbose),
        CliOutcome::Help => panic!("no help was asked for"),
    }
    assert!(matches!(parse_cli_args(&names(&["a.stp", "--help"])), CliOutcome::Help));
}

#[test]
fn settings_are_saved_after_a_while() {
    assert!(save_is_due(true, 2000));
    assert!(!save_is_due(true, 1999));
    assert!(!save_is_due(false, 9000));
}
