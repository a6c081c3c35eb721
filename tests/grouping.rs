use fshare::grouping::DisplayDirectories;
use fshare::order::text_less_eq;
use fshare::upload::{FileInfo, FileType};

fn archived(name: &str, origin: &str, created: u64) -> FileInfo {
    FileInfo::new(name.to_string(), FileType::Archive(origin.to_string()), 10, created)
}

fn regular(name: &str, created: u64) -> FileInfo {
    FileInfo::new(name.to_string(), FileType::Regular, 10, created)
}

#[test]
fn groups_by_day_then_key_then_name() {
    let data = vec![
        regular("zeta", 1614816000),
        archived("b.txt", "Link", 1614815999),
        archived("a.txt", "Link", 1614815999),
        archived("c.txt", "Alpha", 1614816100),
        regular("beta", 1700000000),
    ];
    let days = DisplayDirectories::from(&data);
    let dates: Vec<&str> = days.iter().map(|d| d.date.as_str()).collect();
    assert_eq!(dates, vec!["2023, 11 14", "2021, 03 04", "2021, 03 03"]);

    assert_eq!(days[0].files.len(), 1);
    assert_eq!(days[0].files[0].key, "beta");

    let keys: Vec<&str> = days[1].files.iter().map(|g| g.key.as_str()).collect();
    assert_eq!(keys, vec!["Alpha", "zeta"]);

    assert_eq!(days[2].files.len(), 1);
    assert_eq!(days[2].files[0].key, "Link");
    let names: Vec<&str> = days[2].files[0].entries.iter().map(|e| e.name.as_str()).collect();
    assert_eq!(names, vec!["a.txt", "b.txt"]);
}

#[test]
fn grouping_nothing_gives_nothing() {
    assert!(DisplayDirectories::from(&Vec::new()).is_empty());
}

#[test]
fn day_labels_are_zero_padded() {
    let days = DisplayDirectories::from(&vec![regular("x", 0)]);
    assert_eq!(days[0].date, "1970, 01 01");
}

#[test]
fn grouping_is_the_same_for_any_scan_order() {
    let a = vec![
        archived("b", "K", 100),
        regular("r", 200),
        archived("a", "K", 100),
    ];
    let b = vec![a[2].clone(), a[0].clone(), a[1].clone()];
    let ga = DisplayDirectories::from(&a);
    let gb = DisplayDirectories::from(&b);
    assert_eq!(format!("{:?}", ga), format!("{:?}", gb));
    assert_eq!(format!("{:?}", ga), format!("{:?}", DisplayDirectories::from(&a)));
}

#[test]
fn names_sort_by_code_point() {
    let days = DisplayDirectories::from(&vec![
        archived("b", "K", 5),
        archived("B", "K", 5),
        archived("ab", "K", 5),
        archived("a", "K", 5),
    ]);
    let names: Vec<&str> = days[0].files[0].entries.iter().map(|e| e.name.as_str()).collect();
    assert_eq!(names, vec!["B", "a", "ab", "b"]);
}

#[test]
fn text_order() {
    assert!(text_less_eq("a", "b"));
    assert!(text_less_eq("a", "a"));
    assert!(text_less_eq("", "a"));
    assert!(text_less_eq("ab", "b"));
    assert!(!text_less_eq("b", "ab"));
    assert!(!text_less_eq("abc", "ab"));
    assert!(text_less_eq("Z", "a"));
}

#[test]
fn grouping_with_given_labels() {
    let data = vec![
        archived("y", "K", 1),
        regular("solo", 2),
        archived("x", "K", 3),
        archived("z", "A", 4),
    ];
    let days: Vec<String> = vec!["d1", "d2", "d1", "d1"].into_iter().map(String::from).collect();
    let groups = DisplayDirectories::from_labelled(&data, &days);
    assert_eq!(groups.len(), 2);
    assert_eq!(groups[0].date, "d2");
    assert_eq!(groups[0].files.len(), 1);
    assert_eq!(groups[0].files[0].key, "solo");
    assert_eq!(groups[1].date, "d1");
    let keys: Vec<&str> = groups[1].files.iter().map(|g| g.key.as_str()).collect();
    assert_eq!(keys, vec!["A", "K"]);
    let names: Vec<&str> = groups[1].files[1].entries.iter().map(|e| e.name.as_str()).collect();
    assert_eq!(names, vec!["x", "y"]);
    assert_eq!(groups[1].files[1].entries[0].created, 3);
}

#[test]
fn standalone_file_comes_before_a_same_named_entry() {
    let data = vec![archived("x", "x", 100), regular("x", 100)];
    let days = DisplayDirectories::from(&data);
    assert_eq!(days.len(), 1);
    assert_eq!(days[0].files.len(), 1);
    let g = &days[0].files[0];
    assert_eq!(g.key, "x");
    assert!(matches!(g.entries[0].file_type, FileType::Regular));
    assert!(matches!(g.entries[1].file_type, FileType::Archive(_)));
    let swapped = vec![data[1].clone(), data[0].clone()];
    assert_eq!(format!("{:?}", days), format!("{:?}", DisplayDirectories::from(&swapped)));
}
