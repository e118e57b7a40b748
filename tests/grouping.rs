use dircmp::{arrange, group_differs, passes_filter, retain_differences, sort_by_digest, text_le_exec, FileEntry, Group, Grouping};

fn entry(dir: usize, name: &str) -> FileEntry {
    FileEntry { dir, name: name.to_string() }
}

fn group(digest: &str, files: Vec<FileEntry>) -> Group {
    Group { digest: digest.to_string(), files }
}

#[test]
fn add_creates_and_extends_groups() {
    let mut g = Grouping::new();
    g.add("BB".to_string(), entry(0, "f1"));
    g.add("AA".to_string(), entry(0, "f2"));
    g.add("BB".to_string(), entry(1, "f1"));
    assert_eq!(g.groups.len(), 2);
    assert_eq!(g.groups[0].digest, "BB");
    assert_eq!(g.groups[0].files.len(), 2);
    assert_eq!(g.groups[0].files[1].dir, 1);
    assert_eq!(g.groups[1].digest, "AA");
    assert_eq!(g.groups[1].files[0].name, "f2");
    assert_eq!(g.find(&"AA".to_string()), Some(1));
    assert_eq!(g.find(&"CC".to_string()), None);
}

#[test]
fn every_file_lands_in_exactly_one_group() {
    let added = vec![("D1", 0, "a"), ("D2", 0, "b"), ("D1", 1, "a"), ("D3", 1, "c"), ("D2", 1, "d")];
    let mut g = Grouping::new();
    for (d, dir, name) in added.iter() {
        g.add(d.to_string(), entry(*dir, name));
    }
    let total: usize = g.groups.iter().map(|x| x.files.len()).sum();
    assert_eq!(total, added.len());
    for (d, dir, name) in added.iter() {
        let holding: Vec<&Group> = g
            .groups
            .iter()
            .filter(|x| x.files.iter().any(|f| f.dir == *dir && f.name == *name))
            .collect();
        assert_eq!(holding.len(), 1);
        assert_eq!(holding[0].digest, *d);
    }
}

#[test]
fn text_order_is_bytewise() {
    assert!(text_le_exec(&"A".to_string(), &"B".to_string()));
    assert!(!text_le_exec(&"B".to_string(), &"A".to_string()));
    assert!(text_le_exec(&"A".to_string(), &"AB".to_string()));
    assert!(!text_le_exec(&"AB".to_string(), &"A".to_string()));
    assert!(text_le_exec(&"9F".to_string(), &"A0".to_string()));
    assert!(text_le_exec(&"".to_string(), &"".to_string()));
    assert!(text_le_exec(&"C3".to_string(), &"C3".to_string()));
}

#[test]
fn sort_orders_by_digest() {
    let gs = vec![
        group("C1", vec![entry(0, "x")]),
        group("0F", vec![entry(0, "y")]),
        group("A2", vec![entry(1, "z")]),
    ];
    let sorted = sort_by_digest(gs);
    let digests: Vec<&str> = sorted.iter().map(|g| g.digest.as_str()).collect();
    assert_eq!(digests, vec!["0F", "A2", "C1"]);
}

#[test]
fn sort_of_nothing() {
    assert!(sort_by_digest(Vec::new()).is_empty());
}

#[test]
fn differs_when_missing_from_a_directory() {
    assert!(group_differs(&vec![entry(0, "f")], 2));
}

#[test]
fn differs_when_twice_in_one_directory() {
    assert!(group_differs(&vec![entry(0, "f"), entry(0, "g"), entry(1, "f")], 2));
}

#[test]
fn differs_when_names_differ() {
    assert!(group_differs(&vec![entry(0, "f"), entry(1, "g")], 2));
}

#[test]
fn same_everywhere_shows_no_difference() {
    assert!(!group_differs(&vec![entry(0, "f"), entry(1, "f")], 2));
    assert!(!group_differs(&vec![entry(0, "f")], 1));
}

#[test]
fn retain_keeps_only_differences_in_order() {
    let mut gs = vec![
        group("01", vec![entry(0, "same"), entry(1, "same")]),
        group("02", vec![entry(0, "only")]),
        group("03", vec![entry(0, "a"), entry(1, "b")]),
        group("04", vec![entry(0, "s"), entry(1, "s")]),
    ];
    retain_differences(&mut gs, 2);
    let digests: Vec<&str> = gs.iter().map(|g| g.digest.as_str()).collect();
    assert_eq!(digests, vec!["02", "03"]);
}

#[test]
fn arrange_sorts_and_filters() {
    let gs = vec![
        group("FF", vec![entry(0, "a")]),
        group("00", vec![entry(0, "b"), entry(1, "b")]),
        group("80", vec![entry(1, "c")]),
    ];
    let all: Vec<String> = arrange(
        vec![
            group("FF", vec![entry(0, "a")]),
            group("00", vec![entry(0, "b"), entry(1, "b")]),
            group("80", vec![entry(1, "c")]),
        ],
        2,
        false,
    )
    .into_iter()
    .map(|g| g.digest)
    .collect();
    assert_eq!(all, vec!["00", "80", "FF"]);
    let diff: Vec<String> = arrange(gs, 2, true).into_iter().map(|g| g.digest).collect();
    assert_eq!(diff, vec!["80", "FF"]);
}

#[test]
fn extension_filter() {
    let txt = Some("txt".to_string());
    assert!(passes_filter(&None, &None));
    assert!(passes_filter(&None, &txt));
    assert!(passes_filter(&txt, &Some("txt".to_string())));
    assert!(!passes_filter(&txt, &Some("TXT".to_string())));
    assert!(!passes_filter(&txt, &None));
}
