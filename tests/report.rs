use dircmp::{
    arrange, cell_text, render_header, render_row, render_table, tab_join, ContentHasher, FileEntry, Group,
    Grouping,
};

fn entry(dir: usize, name: &str) -> FileEntry {
    FileEntry { dir, name: name.to_string() }
}

fn digest(content: &[u8]) -> String {
    let mut h = ContentHasher::new();
    h.feed(content);
    h.finish()
}

#[test]
fn cell_for_no_file_is_a_dash() {
    assert_eq!(cell_text(&vec![entry(1, "f")], 0), "\u{2013}");
}

#[test]
fn cell_for_one_file_is_its_name() {
    assert_eq!(cell_text(&vec![entry(1, "f"), entry(0, "g")], 0), "g");
}

#[test]
fn cell_for_several_files_is_a_count() {
    assert_eq!(cell_text(&vec![entry(0, "a"), entry(1, "x"), entry(0, "b")], 0), "(2 files)");
    let many: Vec<FileEntry> = (0..12).map(|i| entry(3, &format!("n{}", i))).collect();
    assert_eq!(cell_text(&many, 3), "(12 files)");
}

#[test]
fn tab_join_separates_parts() {
    assert_eq!(tab_join(&vec![]), "");
    assert_eq!(tab_join(&vec!["a".to_string()]), "a");
    assert_eq!(tab_join(&vec!["a".to_string(), "b".to_string(), "c".to_string()]), "a\tb\tc");
}

#[test]
fn header_row_layout() {
    let names = vec![Some("alpha".to_string()), None];
    let expected = format!("#\tSHA256{}\talpha \t???   ", " ".repeat(58));
    assert_eq!(render_header(&names, 6), expected);
}

#[test]
fn data_row_layout() {
    let g = Group { digest: "AB12".to_string(), files: vec![entry(0, "file.txt"), entry(2, "x"), entry(2, "y")] };
    assert_eq!(render_row(3, &g, 3, 5), "3\tAB12\tfile.\t\u{2013}    \t(2 fi");
}

#[test]
fn table_has_blank_lines_header_and_numbered_rows() {
    let shown = vec![
        Group { digest: "00".to_string(), files: vec![entry(0, "a")] },
        Group { digest: "11".to_string(), files: vec![entry(1, "b")] },
    ];
    let names = vec![Some("A".to_string()), Some("B".to_string())];
    let lines = render_table(&shown, &names, 3);
    assert_eq!(lines.len(), 5);
    assert_eq!(lines[0], "");
    assert_eq!(lines[1], render_header(&names, 3));
    assert_eq!(lines[2], "1\t00\ta  \t\u{2013}  ");
    assert_eq!(lines[3], "2\t11\t\u{2013}  \tb  ");
    assert_eq!(lines[4], "");
}

#[test]
fn two_directories_shared_and_unique_file() {
    let x = digest(b"content X");
    let y = digest(b"content Y");
    let mut g = Grouping::new();
    g.add(x.clone(), entry(0, "f1"));
    g.add(y.clone(), entry(0, "f2"));
    g.add(x.clone(), entry(1, "f1"));
    assert_eq!(g.groups.len(), 2);
    let names = vec![Some("A".to_string()), Some("B".to_string())];

    let all = arrange(g.groups, 2, false);
    assert_eq!(all.len(), 2);
    let shared = all.iter().find(|gr| gr.digest == x).unwrap();
    assert_eq!(shared.files.len(), 2);
    assert_eq!(cell_text(&shared.files, 0), "f1");
    assert_eq!(cell_text(&shared.files, 1), "f1");

    let mut again = Grouping::new();
    again.add(x.clone(), entry(0, "f1"));
    again.add(y.clone(), entry(0, "f2"));
    again.add(x.clone(), entry(1, "f1"));
    let diff = arrange(again.groups, 2, true);
    assert_eq!(diff.len(), 1);
    assert_eq!(diff[0].digest, y);
    let lines = render_table(&diff, &names, 4);
    assert_eq!(lines[2], format!("1\t{}\tf2  \t\u{2013}   ", y));
}

#[test]
fn duplicate_content_in_one_directory_is_counted() {
    let d = digest(b"same bytes");
    let mut g = Grouping::new();
    g.add(d.clone(), entry(0, "one"));
    g.add(d.clone(), entry(0, "two"));
    assert_eq!(g.groups.len(), 1);
    let shown = arrange(g.groups, 1, false);
    let lines = render_table(&shown, &vec![Some("dir".to_string())], 10);
    assert_eq!(lines[2], format!("1\t{}\t(2 files) ", d));
}

#[test]
fn rows_sorted_whatever_the_insertion_order() {
    let contents: Vec<&[u8]> = vec![b"q", b"w", b"e", b"r", b"t", b"y"];
    let mut g = Grouping::new();
    for (i, c) in contents.iter().enumerate() {
        g.add(digest(c), entry(0, &format!("f{}", i)));
    }
    let shown = arrange(g.groups, 1, false);
    let digests: Vec<&String> = shown.iter().map(|x| &x.digest).collect();
    let mut expected = digests.clone();
    expected.sort();
    assert_eq!(digests, expected);
    assert_eq!(shown.len(), contents.len());
}
