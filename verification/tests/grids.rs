use steam_art_manager::grids::{
    adjust_path, can_filter_paths, filter_paths, get_assigned_path, get_grid_filename, get_icon_owner,
    has_unique_slots, path_has_extension, AppGrids, ChangedPath, GridAssignments, GridSlot,
    GridType,
};

fn assignments(entries: &[(&str, &[(GridType, &str)])]) -> GridAssignments {
    GridAssignments {
        apps: entries
            .iter()
            .map(|(app_id, grids)| AppGrids {
                app_id: app_id.to_string(),
                grids: grids
                    .iter()
                    .map(|(grid_type, path)| GridSlot { grid_type: grid_type.name(), path: path.to_string() })
                    .collect(),
            })
            .collect(),
    }
}

fn change(app_id: &str, grid_type: GridType, old: &str, target: &str, source: &str) -> ChangedPath {
    ChangedPath {
        app_id: app_id.to_string(),
        grid_type: grid_type.name(),
        old_path: old.to_string(),
        target_path: target.to_string(),
        source_path: source.to_string(),
    }
}

#[test]
fn grid_filename_follows_the_kind() {
    assert_eq!(get_grid_filename("100", "Capsule", ".png"), "100p.png");
    assert_eq!(get_grid_filename("100", "Wide Capsule", ".png"), "100.png");
    assert_eq!(get_grid_filename("100", "Hero", ".png"), "100_hero.png");
    assert_eq!(get_grid_filename("100", "Logo", ".png"), "100_logo.png");
    assert_eq!(get_grid_filename("100", "Icon", ".ico"), "100_icon.ico");
}

#[test]
fn adjust_path_takes_the_extension_from_the_last_dot() {
    assert_eq!(adjust_path("730", "/tmp/art.v2.png", "Hero"), "730_hero.png");
    assert_eq!(adjust_path("730", "cover.jpeg", "Capsule"), "730p.jpeg");
    assert_eq!(adjust_path("730", ".hidden", "Wide Capsule"), "730.hidden");
}

#[test]
fn grid_types_have_their_names() {
    assert_eq!(GridType::Capsule.name(), "Capsule");
    assert_eq!(GridType::WideCapsule.name(), "Wide Capsule");
    assert_eq!(GridType::Hero.name(), "Hero");
    assert_eq!(GridType::Logo.name(), "Logo");
    assert_eq!(GridType::Icon.name(), "Icon");
    assert_eq!(GridType::from_name("Capsule"), Some(GridType::Capsule));
    assert_eq!(GridType::from_name("Wide Capsule"), Some(GridType::WideCapsule));
    assert_eq!(GridType::from_name("Hero"), Some(GridType::Hero));
    assert_eq!(GridType::from_name("Logo"), Some(GridType::Logo));
    assert_eq!(GridType::from_name("Icon"), Some(GridType::Icon));
    assert_eq!(GridType::from_name("icon"), None);
    assert_eq!(GridType::from_name("Banner"), None);
    assert_eq!(GridType::from_name(""), None);
}

#[test]
fn webp_hero_is_filed_as_jpg() {
    let current = assignments(&[("100", &[(GridType::Hero, "/tmp/art.webp")])]);
    let original = assignments(&[]);
    let changes = filter_paths("/grids", &current, &original);
    assert_eq!(
        changes,
        vec![change("100", GridType::Hero, "", "/grids/100_hero.jpg", "/tmp/art.webp")]
    );
}

#[test]
fn removed_icon_keeps_the_remove_marker() {
    let current = assignments(&[("100", &[(GridType::Icon, "REMOVE")])]);
    let original = assignments(&[("100", &[(GridType::Icon, "/grids/100_icon.png")])]);
    let changes = filter_paths("/grids", &current, &original);
    assert_eq!(
        changes,
        vec![change("100", GridType::Icon, "/grids/100_icon.png", "REMOVE", "REMOVE")]
    );
}

#[test]
fn unchanged_slot_yields_no_change() {
    let current = assignments(&[(
        "100",
        &[(GridType::Hero, "/grids/100_hero.png"), (GridType::Logo, "/tmp/new.png")],
    )]);
    let original = assignments(&[(
        "100",
        &[(GridType::Logo, "/grids/100_logo.png"), (GridType::Hero, "/grids/100_hero.png")],
    )]);
    let changes = filter_paths("/grids", &current, &original);
    assert_eq!(
        changes,
        vec![change("100", GridType::Logo, "/grids/100_logo.png", "/grids/100_logo.png", "/tmp/new.png")]
    );
    assert!(changes.iter().all(|c| !(c.app_id == "100" && c.grid_type == "Hero")));
}

#[test]
fn empty_path_counts_as_unassigned() {
    let current = assignments(&[("7", &[(GridType::Capsule, "")])]);
    let original = assignments(&[]);
    assert_eq!(filter_paths("/grids", &current, &original), vec![]);
}

#[test]
fn filter_paths_gives_the_same_answer_twice() {
    let current = assignments(&[
        ("100", &[(GridType::Hero, "/tmp/a.png"), (GridType::Icon, "REMOVE")]),
        ("200", &[(GridType::Capsule, "C:\\art\\b.webp")]),
    ]);
    let original = assignments(&[("100", &[(GridType::Icon, "/grids/100_icon.ico")])]);
    let first = filter_paths("/grids", &current, &original);
    let second = filter_paths("/grids", &current, &original);
    assert_eq!(first, second);
    assert_eq!(
        first,
        vec![
            change("100", GridType::Hero, "", "/grids/100_hero.png", "/tmp/a.png"),
            change("100", GridType::Icon, "/grids/100_icon.ico", "REMOVE", "REMOVE"),
            change("200", GridType::Capsule, "", "/grids/200p.jpg", "C:/art/b.webp"),
        ]
    );
}

#[test]
fn backslashes_become_forward_slashes() {
    let current = assignments(&[("5", &[(GridType::Logo, "C:\\Users\\me\\logo.png")])]);
    let original = assignments(&[("5", &[(GridType::Logo, "C:\\grids\\5_logo.png")])]);
    let changes = filter_paths("C:/steam/grid/", &current, &original);
    assert_eq!(
        changes,
        vec![change(
            "5",
            GridType::Logo,
            "C:/grids/5_logo.png",
            "C:/steam/grid/5_logo.png",
            "C:/Users/me/logo.png"
        )]
    );
}

#[test]
fn webp_rewrite_leaves_the_source_alone() {
    let current = assignments(&[("9", &[(GridType::WideCapsule, "/tmp/wide.webp")])]);
    let original = assignments(&[("9", &[(GridType::WideCapsule, "/grids/9.png")])]);
    let changes = filter_paths("/grids", &current, &original);
    assert_eq!(changes.len(), 1);
    assert_eq!(changes[0].target_path, "/grids/9.jpg");
    assert_eq!(changes[0].source_path, "/tmp/wide.webp");
    assert_eq!(changes[0].old_path, "/grids/9.png");
}

#[test]
fn source_without_extension_cannot_be_filed() {
    let original = assignments(&[]);
    let without = assignments(&[("1", &[(GridType::Hero, "/tmp/art")])]);
    assert!(!can_filter_paths(&without, &original));
    let with = assignments(&[("1", &[(GridType::Hero, "/tmp/art.png")])]);
    assert!(can_filter_paths(&with, &original));
    let removal = assignments(&[("1", &[(GridType::Hero, "REMOVE")])]);
    assert!(can_filter_paths(&removal, &original));
    let unchanged = assignments(&[("1", &[(GridType::Hero, "/tmp/art")])]);
    assert!(can_filter_paths(&unchanged, &unchanged));
}

#[test]
fn assigned_path_is_found_by_app_and_kind() {
    let all = assignments(&[
        ("100", &[(GridType::Hero, "/a.png")]),
        ("200", &[(GridType::Hero, "/b.png"), (GridType::Icon, "/c.ico")]),
    ]);
    let icon = "Icon".to_string();
    let hero = "Hero".to_string();
    assert_eq!(get_assigned_path(&all, &"200".to_string(), &icon), Some(&"/c.ico".to_string()));
    assert_eq!(get_assigned_path(&all, &"100".to_string(), &icon), None);
    assert_eq!(get_assigned_path(&all, &"300".to_string(), &hero), None);
}

#[test]
fn extension_needs_a_dot() {
    assert!(path_has_extension("/tmp/art.png"));
    assert!(path_has_extension("/tmp.d/art"));
    assert!(path_has_extension("."));
    assert!(!path_has_extension("/tmp/art"));
    assert!(!path_has_extension(""));
}

fn named_slot(app_id: &str, grid_type: &str, path: &str) -> GridAssignments {
    GridAssignments {
        apps: vec![AppGrids {
            app_id: app_id.to_string(),
            grids: vec![GridSlot { grid_type: grid_type.to_string(), path: path.to_string() }],
        }],
    }
}

#[test]
fn unknown_kind_matters_only_for_a_new_image() {
    let none = assignments(&[]);
    let new_image = named_slot("1", "Banner", "/tmp/art.png");
    assert!(!can_filter_paths(&new_image, &none));
    assert!(can_filter_paths(&new_image, &new_image));
    assert_eq!(filter_paths("/grids", &new_image, &new_image), vec![]);
    let removal = named_slot("1", "Banner", "REMOVE");
    assert!(can_filter_paths(&removal, &new_image));
    assert_eq!(
        filter_paths("/grids", &removal, &new_image),
        vec![ChangedPath {
            app_id: "1".to_string(),
            grid_type: "Banner".to_string(),
            old_path: "/tmp/art.png".to_string(),
            target_path: "REMOVE".to_string(),
            source_path: "REMOVE".to_string(),
        }]
    );
    assert!(!can_filter_paths(&named_slot("1", "hero", "/tmp/art.png"), &none));
}

#[test]
fn slot_listed_twice_cannot_be_filtered() {
    let none = assignments(&[]);
    let kind_twice = assignments(&[(
        "1",
        &[(GridType::Hero, "/tmp/a.png"), (GridType::Logo, "/tmp/b.png"), (GridType::Hero, "/tmp/c.png")],
    )]);
    assert!(!has_unique_slots(&kind_twice));
    assert!(!can_filter_paths(&kind_twice, &none));
    let app_twice = assignments(&[
        ("1", &[(GridType::Hero, "/tmp/a.png")]),
        ("2", &[(GridType::Hero, "/tmp/b.png")]),
        ("1", &[(GridType::Logo, "/tmp/c.png")]),
    ]);
    assert!(!has_unique_slots(&app_twice));
    assert!(!can_filter_paths(&app_twice, &none));
    let once = assignments(&[
        ("1", &[(GridType::Hero, "/tmp/a.png"), (GridType::Logo, "/tmp/b.png")]),
        ("2", &[(GridType::Hero, "/tmp/a.png")]),
    ]);
    assert!(has_unique_slots(&once));
    assert!(has_unique_slots(&none));
    assert!(can_filter_paths(&once, &kind_twice));
}

#[test]
fn webp_rewrite_holds_for_every_kind() {
    let none = assignments(&[]);
    for kind in [GridType::Capsule, GridType::WideCapsule, GridType::Hero, GridType::Logo, GridType::Icon] {
        let current = assignments(&[("42", &[(kind, "C:\\art\\pic.webp")])]);
        let changes = filter_paths("/grids", &current, &none);
        assert_eq!(changes.len(), 1);
        assert_eq!(changes[0].source_path, "C:/art/pic.webp");
        assert!(changes[0].target_path.ends_with(".jpg"));
        assert!(!changes[0].target_path.ends_with(".webp"));
    }
}

#[test]
fn icon_files_tell_their_app() {
    assert_eq!(get_icon_owner("730_icon.png"), Some("730".to_string()));
    assert_eq!(get_icon_owner("2789567296_icon.ico"), Some("2789567296".to_string()));
    assert_eq!(get_icon_owner("_icon.png"), Some(String::new()));
    assert_eq!(get_icon_owner("730_icon"), Some("730".to_string()));
    assert_eq!(get_icon_owner("730_icon.v2.png"), None);
    assert_eq!(get_icon_owner("730_hero.png"), None);
    assert_eq!(get_icon_owner("730p.png"), None);
    assert_eq!(get_icon_owner("730_Icon.png"), None);
    assert_eq!(get_icon_owner(""), None);
}
