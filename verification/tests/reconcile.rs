use dataset_capture::digits::u32_to_dec;
use dataset_capture::index_map::IndexMap;
use dataset_capture::names::{commit_name, final_name, label_dir, staged_name, PathError};
use dataset_capture::reconcile::{build_commit_plan, build_stage_plan, ScanEntry};
use dataset_capture::session::record_step;

fn entry(dir: &str, name: &str) -> ScanEntry {
    ScanEntry { dir: String::from(dir), name: String::from(name) }
}

#[test]
fn dec_renders_exact_values() {
    assert_eq!(u32_to_dec(0).as_str(), "0");
    assert_eq!(u32_to_dec(7).as_str(), "7");
    assert_eq!(u32_to_dec(10).as_str(), "10");
    assert_eq!(u32_to_dec(42).as_str(), "42");
    assert_eq!(u32_to_dec(100).as_str(), "100");
    assert_eq!(u32_to_dec(4294967295).as_str(), "4294967295");
}

#[test]
fn names_render_exact_values() {
    assert_eq!(final_name(3).as_str(), "3.png");
    assert_eq!(final_name(0).as_str(), "0.png");
    assert_eq!(staged_name(3).as_str(), "3.png_");
    assert_eq!(staged_name(12).as_str(), "12.png_");
}

#[test]
fn commit_strips_the_marker() {
    assert_eq!(commit_name("7.png_").unwrap().as_str(), "7.png");
    assert_eq!(commit_name("_").unwrap().as_str(), "");
}

#[test]
fn commit_of_empty_name_is_too_short() {
    assert_eq!(commit_name(""), Err(PathError::NameTooShort));
}

#[test]
fn label_dir_joins_root_and_label() {
    assert_eq!(label_dir("data", 'a').as_str(), "data/a");
    assert_eq!(label_dir("data", '5').as_str(), "data/5");
}

#[test]
fn index_map_counts_per_directory() {
    let mut map = IndexMap::new();
    let a = String::from("data/a");
    let b = String::from("data/b");
    assert_eq!(map.get(&a), None);
    assert_eq!(map.take_next(&a), 0);
    assert_eq!(map.take_next(&a), 1);
    assert_eq!(map.take_next(&b), 0);
    assert_eq!(map.get(&a), Some(2));
    assert_eq!(map.get(&b), Some(1));
    assert_eq!(map.dir_count(), 2);
}

#[test]
fn stage_plan_renumbers_existing_files() {
    // Two pre-existing samples under one label directory, any names.
    let entries = vec![entry("/data/a", "x.png"), entry("/data/a", "y.png")];
    let (plan, map) = build_stage_plan(&entries);
    assert_eq!(plan.len(), 2);
    assert_eq!(plan[0].from.as_str(), "x.png");
    assert_eq!(plan[0].to.as_str(), "0.png_");
    assert_eq!(plan[1].from.as_str(), "y.png");
    assert_eq!(plan[1].to.as_str(), "1.png_");
    assert_eq!(map.get(&String::from("/data/a")), Some(2));
}

#[test]
fn stage_plan_after_reconcile_records_at_next_index() {
    // After startup on a directory with two samples, recording the label
    // saves the sample at index 2.
    let entries = vec![entry("/data/a", "x.png"), entry("/data/a", "y.png")];
    let (_, mut map) = build_stage_plan(&entries);
    let (i, name) = record_step(&mut map, &String::from("/data/a"));
    assert_eq!(i, 2);
    assert_eq!(name.as_str(), "2.png");
    assert_eq!(map.get(&String::from("/data/a")), Some(3));
}

#[test]
fn stage_plan_keeps_directories_apart() {
    let entries = vec![
        entry("/d/a", "m.png"),
        entry("/d/b", "m.png"),
        entry("/d/a", "n.png"),
        entry("/d/b", "n.png"),
    ];
    let (plan, map) = build_stage_plan(&entries);
    assert_eq!(plan[0].to.as_str(), "0.png_");
    assert_eq!(plan[1].to.as_str(), "0.png_");
    assert_eq!(plan[2].to.as_str(), "1.png_");
    assert_eq!(plan[3].to.as_str(), "1.png_");
    assert_eq!(map.get(&String::from("/d/a")), Some(2));
    assert_eq!(map.get(&String::from("/d/b")), Some(2));
}

#[test]
fn stage_plan_targets_never_collide() {
    // Numeric names that overlap the target numbering: every staged name
    // still differs from every other staged name and every scanned name.
    let entries = vec![entry("/d/a", "2.png"), entry("/d/a", "0.png"), entry("/d/a", "10.png")];
    let (plan, _) = build_stage_plan(&entries);
    let targets: Vec<&str> = plan.iter().map(|r| r.to.as_str()).collect();
    assert_eq!(targets, vec!["0.png_", "1.png_", "2.png_"]);
    for r in &plan {
        for e in &entries {
            assert_ne!(r.to, e.name);
        }
    }
}

#[test]
fn commit_plan_strips_all_markers() {
    let staged = vec![entry("/d/a", "0.png_"), entry("/d/a", "1.png_")];
    let plan = build_commit_plan(&staged).unwrap();
    assert_eq!(plan.len(), 2);
    assert_eq!(plan[0].to.as_str(), "0.png");
    assert_eq!(plan[1].to.as_str(), "1.png");
}

#[test]
fn commit_plan_rejects_empty_name() {
    let staged = vec![entry("/d/a", "")];
    assert_eq!(build_commit_plan(&staged).unwrap_err(), PathError::NameTooShort);
}

#[test]
fn reconcile_twice_gives_same_layout_and_map() {
    // First reconciliation over arbitrary names.
    let first = vec![entry("/data/a", "x.png"), entry("/data/a", "y.png")];
    let (plan1, map1) = build_stage_plan(&first);
    let staged1: Vec<ScanEntry> =
        plan1.iter().map(|r| entry(r.dir.as_str(), r.to.as_str())).collect();
    let commit1 = build_commit_plan(&staged1).unwrap();
    let mut layout1: Vec<String> = commit1.iter().map(|r| r.to.clone()).collect();
    layout1.sort();

    // Rescan finds exactly the committed names; reconcile again.
    let second: Vec<ScanEntry> =
        commit1.iter().map(|r| entry(r.dir.as_str(), r.to.as_str())).collect();
    let (plan2, map2) = build_stage_plan(&second);
    let staged2: Vec<ScanEntry> =
        plan2.iter().map(|r| entry(r.dir.as_str(), r.to.as_str())).collect();
    let commit2 = build_commit_plan(&staged2).unwrap();
    let mut layout2: Vec<String> = commit2.iter().map(|r| r.to.clone()).collect();
    layout2.sort();

    assert_eq!(layout1, layout2);
    let d = String::from("/data/a");
    assert_eq!(map1.get(&d), map2.get(&d));
    assert_eq!(map2.get(&d), Some(2));
}

#[test]
fn reconcile_of_empty_scan_is_empty() {
    let entries: Vec<ScanEntry> = Vec::new();
    let (plan, map) = build_stage_plan(&entries);
    assert_eq!(plan.len(), 0);
    assert_eq!(map.dir_count(), 0);
}
