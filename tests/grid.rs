use tab_term::colors::{assign_colors, get_color};
use tab_term::grouping::{group_by_time, map_idx_to_time};
use tab_term::layout::{layout, PlacementRegion};
use tab_term::model::{keep_placeable, Color, Subject, TimeBlock};

fn subject(name: &str) -> Subject {
    Subject {
        name: name.to_string(),
        abbreviation: String::new(),
        location: String::new(),
        kind: String::new(),
    }
}

fn entry(day: usize, time: usize, duration: usize, name: &str) -> TimeBlock {
    TimeBlock {
        day,
        time,
        duration,
        professor: "Prof".to_string(),
        classroom: "R1".to_string(),
        subject: subject(name),
    }
}

fn region(
    day: usize,
    row_start: usize,
    row_span: usize,
    column_index: usize,
    column_count: usize,
    entry_ref: usize,
) -> PlacementRegion {
    PlacementRegion { day, row_start, row_span, column_index, column_count, entry_ref }
}

#[test]
fn single_entry_spans_its_hours() {
    let entries = vec![entry(0, 9, 2, "Algorithms")];
    assert_eq!(layout(&entries), vec![region(0, 9, 2, 0, 1, 0)]);
}

#[test]
fn concurrent_entries_share_the_slot() {
    let entries = vec![entry(2, 14, 1, "DB"), entry(2, 14, 1, "Net")];
    assert_eq!(
        layout(&entries),
        vec![region(2, 14, 1, 0, 2, 0), region(2, 14, 1, 1, 2, 1)]
    );
}

#[test]
fn zero_duration_entry_is_left_out() {
    let entries = vec![entry(1, 10, 0, "Placeholder")];
    assert!(layout(&entries).is_empty());
    let entries = vec![entry(1, 10, 0, "Placeholder"), entry(1, 10, 1, "Real")];
    assert_eq!(layout(&entries), vec![region(1, 10, 1, 0, 1, 1)]);
}

#[test]
fn entries_outside_the_grid_are_left_out() {
    let entries = vec![
        entry(5, 9, 1, "Saturday"),
        entry(0, 6, 1, "Early"),
        entry(0, 21, 1, "Late"),
        entry(0, 20, 1, "LastSlot"),
        entry(0, 7, 1, "FirstSlot"),
    ];
    assert_eq!(
        layout(&entries),
        vec![region(0, 7, 1, 0, 1, 4), region(0, 20, 1, 0, 1, 3)]
    );
}

#[test]
fn each_placeable_entry_is_placed_once() {
    let entries = vec![
        entry(4, 8, 1, "A"),
        entry(0, 8, 3, "B"),
        entry(0, 8, 1, "C"),
        entry(0, 9, 1, "D"),
        entry(3, 12, 0, "E"),
        entry(0, 8, 2, "F"),
    ];
    let regions = layout(&entries);
    for i in 0..entries.len() {
        let n = regions.iter().filter(|r| r.entry_ref == i).count();
        if i == 4 {
            assert_eq!(n, 0);
        } else {
            assert_eq!(n, 1);
        }
    }
    assert_eq!(
        regions,
        vec![
            region(0, 8, 3, 0, 3, 1),
            region(0, 8, 1, 1, 3, 2),
            region(0, 8, 2, 2, 3, 5),
            region(0, 9, 1, 0, 1, 3),
            region(4, 8, 1, 0, 1, 0),
        ]
    );
}

#[test]
fn columns_of_an_anchor_are_distinct() {
    let entries = vec![
        entry(1, 11, 1, "A"),
        entry(1, 11, 2, "B"),
        entry(1, 12, 1, "C"),
        entry(1, 11, 4, "D"),
    ];
    let regions = layout(&entries);
    let anchored: Vec<&PlacementRegion> =
        regions.iter().filter(|r| r.day == 1 && r.row_start == 11).collect();
    assert_eq!(anchored.len(), 3);
    let mut indices: Vec<usize> = anchored.iter().map(|r| r.column_index).collect();
    indices.sort();
    assert_eq!(indices, vec![0, 1, 2]);
    assert!(anchored.iter().all(|r| r.column_count == 3));
    let later: Vec<&PlacementRegion> =
        regions.iter().filter(|r| r.day == 1 && r.row_start == 12).collect();
    assert_eq!(later.len(), 1);
    assert_eq!(later[0].column_count, 1);
    assert_eq!(later[0].column_index, 0);
}

#[test]
fn layout_is_repeatable() {
    let entries = vec![entry(2, 10, 2, "X"), entry(2, 10, 1, "Y"), entry(3, 15, 1, "Z")];
    let first = layout(&entries);
    let second = layout(&entries);
    assert_eq!(first, second);
    let renamed = vec![entry(2, 10, 2, "P"), entry(2, 10, 1, "Q"), entry(3, 15, 1, "R")];
    assert_eq!(layout(&renamed), first);
}

#[test]
fn grouping_has_a_group_per_day_and_hour() {
    let entries = vec![entry(0, 9, 1, "A"), entry(0, 9, 2, "B"), entry(2, 20, 1, "C"), entry(1, 8, 0, "D")];
    let groups = group_by_time(&entries);
    assert_eq!(groups.len(), 5);
    assert!(groups.iter().all(|day| day.len() == 14));
    assert_eq!(groups[0][2], vec![0, 1]);
    assert_eq!(groups[2][13], vec![2]);
    assert!(groups[1].iter().all(|g| g.is_empty()));
    assert!(groups[3].iter().all(|g| g.is_empty()));
}

#[test]
fn slot_index_maps_to_hour() {
    assert_eq!(map_idx_to_time(0), 7);
    assert_eq!(map_idx_to_time(13), 20);
    assert_eq!(map_idx_to_time(14), 21);
    assert_eq!(map_idx_to_time(usize::MAX - 7), usize::MAX);
}

#[test]
fn entry_without_subject_name_is_left_out() {
    let entries = vec![entry(0, 9, 1, "")];
    assert!(layout(&entries).is_empty());
    let entries = vec![entry(0, 9, 1, ""), entry(0, 9, 1, "Net")];
    assert_eq!(layout(&entries), vec![region(0, 9, 1, 0, 1, 1)]);
}

#[test]
fn filter_keeps_valid_entries_in_order() {
    let entries = vec![
        entry(0, 9, 1, "A"),
        entry(0, 9, 1, ""),
        entry(3, 20, 1, "B"),
        entry(0, 9, 0, "C"),
        entry(4, 7, 2, "D"),
    ];
    let kept = keep_placeable(entries);
    let names: Vec<&str> = kept.iter().map(|b| b.subject.name.as_str()).collect();
    assert_eq!(names, vec!["A", "B", "D"]);
    assert!(keep_placeable(Vec::new()).is_empty());
}

#[test]
fn visible_rows_stop_at_the_grid_end() {
    assert_eq!(region(0, 19, 4, 0, 1, 0).visible_rows(), 2);
    assert_eq!(region(0, 9, 2, 0, 1, 0).visible_rows(), 2);
    assert_eq!(region(0, 21, 2, 0, 1, 0).visible_rows(), 0);
}

#[test]
fn color_keys_are_sorted_distinct_names() {
    let entries = vec![
        entry(0, 9, 1, "Net"),
        entry(1, 9, 1, "Algorithms"),
        entry(2, 9, 1, "DB"),
        entry(3, 9, 1, "Net"),
        entry(4, 9, 0, "DB"),
    ];
    let first = assign_colors(&entries);
    let keys: Vec<String> = first.iter().map(|p| p.0.clone()).collect();
    assert_eq!(keys, vec!["Algorithms".to_string(), "DB".to_string(), "Net".to_string()]);
    assert!(first.iter().all(|p| matches!(p.1, Color::Rgb(_, _, _))));
    let second = assign_colors(&entries);
    let keys2: Vec<String> = second.iter().map(|p| p.0.clone()).collect();
    assert_eq!(keys, keys2);
}

#[test]
fn color_keys_of_no_entries_are_empty() {
    assert!(assign_colors(&Vec::new()).is_empty());
}

#[test]
fn color_lookup_falls_back_to_red() {
    let table = vec![
        ("DB".to_string(), Color::Rgb(1, 2, 3)),
        ("Net".to_string(), Color::Rgb(4, 5, 6)),
    ];
    assert_eq!(get_color(&subject("Net"), &table), Color::Rgb(4, 5, 6));
    assert_eq!(get_color(&subject("DB"), &table), Color::Rgb(1, 2, 3));
    assert_eq!(get_color(&subject("Gone"), &table), Color::Red);
    assert_eq!(get_color(&subject("net"), &table), Color::Red);
    assert_eq!(get_color(&subject("DB"), &Vec::new()), Color::Red);
}

#[test]
fn placeable_entries() {
    assert!(entry(0, 7, 1, "A").is_placeable());
    assert!(entry(4, 20, 1, "A").is_placeable());
    assert!(!entry(5, 9, 1, "A").is_placeable());
    assert!(!entry(0, 9, 0, "A").is_placeable());
    assert!(!entry(0, 21, 1, "A").is_placeable());
    assert!(!entry(0, 9, 1, "").is_placeable());
}
