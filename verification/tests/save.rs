use serde_json::Value;
use steam_art_manager::encoder::encode;
use steam_art_manager::error::VdfError;
use steam_art_manager::grids::{AppGrids, ChangedPath, GridAssignments, GridSlot, GridType};
use steam_art_manager::node::{VdfEntry, VdfNode};
use steam_art_manager::save::{
    check_for_shortcut_changes, error_payload, file_operations, file_operations_for_all,
    plan_save_changes, rewrite_shortcuts, try_check_for_shortcut_changes, try_plan_save_changes,
    FileOperation,
};

fn icons(entries: &[(&str, &str)]) -> serde_json::Map<String, Value> {
    let mut map = serde_json::Map::new();
    for (id, icon) in entries {
        map.insert(id.to_string(), Value::String(icon.to_string()));
    }
    map
}

fn change(app_id: &str, grid_type: GridType, old: &str, target: &str, source: &str) -> ChangedPath {
    ChangedPath {
        app_id: app_id.to_string(),
        grid_type: grid_type.name(),
        old_path: old.to_string(),
        target_path: target.to_string(),
        source_path: source.to_string(),
    }
}

fn remove(path: &str) -> FileOperation {
    FileOperation::Remove { path: path.to_string() }
}

fn create(path: &str) -> FileOperation {
    FileOperation::Create { path: path.to_string() }
}

fn copy(source: &str, target: &str) -> FileOperation {
    FileOperation::Copy { source: source.to_string(), target: target.to_string() }
}

fn one_slot(app_id: &str, grid_type: GridType, path: &str) -> GridAssignments {
    GridAssignments {
        apps: vec![AppGrids {
            app_id: app_id.to_string(),
            grids: vec![GridSlot { grid_type: grid_type.name(), path: path.to_string() }],
        }],
    }
}

fn shortcuts_tree(appid: i32, icon: &str) -> VdfNode {
    VdfNode::Object(vec![VdfEntry {
        key: "shortcuts".to_string(),
        value: VdfNode::Object(vec![VdfEntry {
            key: "0".to_string(),
            value: VdfNode::Object(vec![
                VdfEntry { key: "appid".to_string(), value: VdfNode::Int32(appid) },
                VdfEntry { key: "icon".to_string(), value: VdfNode::String(icon.to_string()) },
            ]),
        }]),
    }])
}

#[test]
fn no_shortcuts_means_no_changes() {
    assert!(!check_for_shortcut_changes(&serde_json::Map::new(), &serde_json::Map::new()));
    assert!(!check_for_shortcut_changes(&serde_json::Map::new(), &icons(&[("1", "/a.png")])));
}

#[test]
fn same_icons_mean_no_changes() {
    let current = icons(&[("1", "/a.png"), ("2", "/b.png")]);
    let original = icons(&[("2", "/b.png"), ("1", "/a.png"), ("3", "/c.png")]);
    assert!(!check_for_shortcut_changes(&current, &original));
}

#[test]
fn one_different_icon_is_a_change() {
    let current = icons(&[("1", "/a.png"), ("2", "/new.png"), ("3", "/c.png")]);
    let original = icons(&[("1", "/a.png"), ("2", "/b.png"), ("3", "/c.png")]);
    assert!(check_for_shortcut_changes(&current, &original));
    let last = icons(&[("1", "/a.png"), ("2", "/b.png"), ("3", "")]);
    assert!(check_for_shortcut_changes(&last, &original));
}

#[test]
fn icons_that_cannot_be_compared_are_told() {
    let current = icons(&[("1", "/a.png")]);
    assert_eq!(try_check_for_shortcut_changes(&current, &serde_json::Map::new()), None);
    let mut number = serde_json::Map::new();
    number.insert("1".to_string(), Value::Bool(true));
    assert_eq!(try_check_for_shortcut_changes(&number, &current), None);
    assert_eq!(try_check_for_shortcut_changes(&current, &number), None);
    assert_eq!(try_check_for_shortcut_changes(&current, &current), Some(false));
    assert_eq!(try_check_for_shortcut_changes(&current, &icons(&[("1", "/b.png")])), Some(true));
    let mixed = icons(&[("1", "/changed.png"), ("2", "/x.png")]);
    assert_eq!(try_check_for_shortcut_changes(&mixed, &current), None);
}

#[test]
fn removal_deletes_and_does_not_copy() {
    let removal = change("100", GridType::Icon, "/grids/100_icon.png", "REMOVE", "REMOVE");
    assert_eq!(file_operations(&removal), vec![remove("/grids/100_icon.png")]);
}

#[test]
fn replacement_deletes_then_creates_then_copies() {
    let replacement =
        change("100", GridType::Hero, "/steam/config/grid/100_hero.png", "/steam/config/grid/100_hero.jpg", "/tmp/a.webp");
    assert_eq!(
        file_operations(&replacement),
        vec![
            remove("/steam/config/grid/100_hero.png"),
            create("/steam/config/grid/100_hero.jpg"),
            copy("/tmp/a.webp", "/steam/config/grid/100_hero.jpg"),
        ]
    );
}

#[test]
fn first_assignment_only_creates_and_copies() {
    let first = change("100", GridType::Hero, "", "/grids/100_hero.png", "/tmp/a.png");
    assert_eq!(
        file_operations(&first),
        vec![create("/grids/100_hero.png"), copy("/tmp/a.png", "/grids/100_hero.png")]
    );
    let default_art = change("100", GridType::Hero, "/cache/100_library_hero.jpg", "/g/100_hero.png", "/tmp/a.png");
    assert_eq!(
        file_operations(&default_art),
        vec![create("/g/100_hero.png"), copy("/tmp/a.png", "/g/100_hero.png")]
    );
    let nothing = change("100", GridType::Hero, "", "REMOVE", "REMOVE");
    assert_eq!(file_operations(&nothing), vec![]);
}

#[test]
fn operations_follow_the_order_of_the_changes() {
    let changes = vec![
        change("1", GridType::Icon, "/grids/1_icon.png", "REMOVE", "REMOVE"),
        change("2", GridType::Logo, "", "/grids/2_logo.png", "/tmp/l.png"),
    ];
    assert_eq!(
        file_operations_for_all(&changes),
        vec![
            remove("/grids/1_icon.png"),
            create("/grids/2_logo.png"),
            copy("/tmp/l.png", "/grids/2_logo.png"),
        ]
    );
    assert_eq!(file_operations_for_all(&vec![]), vec![]);
}

#[test]
fn error_payload_is_a_json_object() {
    assert_eq!(error_payload("No such file"), "{ \"error\": \"No such file\"}");
    assert_eq!(error_payload(""), "{ \"error\": \"\"}");
}

#[test]
fn plan_lists_changes_and_operations() {
    let current = one_slot("730", GridType::Hero, "/tmp/hero.png");
    let original = GridAssignments { apps: vec![] };
    let plan = plan_save_changes("/grids", &current, &original);
    assert_eq!(plan.changes, vec![change("730", GridType::Hero, "", "/grids/730_hero.png", "/tmp/hero.png")]);
    assert_eq!(
        plan.operations,
        vec![create("/grids/730_hero.png"), copy("/tmp/hero.png", "/grids/730_hero.png")]
    );
}

#[test]
fn plan_of_an_icon_change_leads_to_the_new_shortcuts() {
    let current = one_slot("730", GridType::Icon, "/tmp/icon.png");
    let original = one_slot("730", GridType::Icon, "/grids/730_icon.ico");
    let plan = plan_save_changes("/grids", &current, &original);
    assert_eq!(
        plan.operations,
        vec![
            remove("/grids/730_icon.ico"),
            create("/grids/730_icon.png"),
            copy("/tmp/icon.png", "/grids/730_icon.png"),
        ]
    );
    assert!(check_for_shortcut_changes(
        &icons(&[("730", "/tmp/icon.png")]),
        &icons(&[("730", "/grids/730_icon.ico")])
    ));
    assert_eq!(
        rewrite_shortcuts(&shortcuts_tree(730, "/grids/730_icon.ico"), &plan.changes),
        Ok(encode(&shortcuts_tree(730, "/grids/730_icon.png")))
    );
}

#[test]
fn rewrite_tells_a_tree_without_shortcuts() {
    assert_eq!(rewrite_shortcuts(&VdfNode::Object(vec![]), &vec![]), Err(VdfError::MissingKey));
    let tree = shortcuts_tree(5, "/keep.png");
    assert_eq!(rewrite_shortcuts(&tree, &vec![]), Ok(encode(&tree)));
}

#[test]
fn plan_is_refused_where_it_cannot_be_made() {
    let none = GridAssignments { apps: vec![] };
    let without_extension = one_slot("1", GridType::Hero, "/tmp/art");
    assert_eq!(try_plan_save_changes("/grids", &without_extension, &none), None);
    let twice = GridAssignments {
        apps: vec![one_slot("1", GridType::Hero, "/a.png").apps.remove(0), one_slot("1", GridType::Logo, "/b.png").apps.remove(0)],
    };
    assert_eq!(try_plan_save_changes("/grids", &twice, &none), None);
    let plan = try_plan_save_changes("/grids", &none, &none).unwrap();
    assert_eq!(plan.changes, vec![]);
    assert_eq!(plan.operations, vec![]);
}
