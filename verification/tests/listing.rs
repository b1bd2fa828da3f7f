use paneview::listing::{column_lines, listing_entries, DirListing, EntryKind, DIR_REFRESH_INTERVAL_MS};

#[test]
fn dir_listing_refreshes_once_then_throttles() {
    let mut listing = DirListing::new();
    assert!(listing.refreshed_at.is_none());

    // The first refresh fills the listing and stamps the time.
    assert!(listing.is_due(5));
    listing.refresh(5, "/tmp".to_string(), Some(vec![("a".to_string(), EntryKind::File)]));
    let first_stamp = listing.refreshed_at;
    assert!(first_stamp.is_some());

    // Right after, the listing is within the throttle window: no rescan.
    assert!(!listing.is_due(6));
    assert_eq!(listing.refreshed_at, first_stamp);
    assert!(listing.is_due(5 + DIR_REFRESH_INTERVAL_MS));
}

#[test]
fn unreadable_directory_lists_na() {
    let mut listing = DirListing::new();
    listing.refresh(0, ".".to_string(), None);
    assert_eq!(listing.entries, vec!["N/A".to_string()]);
    assert_eq!(listing.path, ".");
}

#[test]
fn entries_are_labelled_and_sorted_case_insensitively() {
    let entries = vec![
        ("zeta".to_string(), EntryKind::File),
        ("Beta".to_string(), EntryKind::Dir),
        ("alpha".to_string(), EntryKind::File),
        ("Alpha".to_string(), EntryKind::File),
        ("odd".to_string(), EntryKind::Unknown),
        ("src".to_string(), EntryKind::Dir),
    ];
    let labels = listing_entries(&entries);

    let mut expected: Vec<String> = entries
        .iter()
        .map(|(name, kind)| {
            let prefix = match kind {
                EntryKind::Dir => "[d]",
                EntryKind::File => "[f]",
                EntryKind::Unknown => "[?]",
            };
            format!("{prefix} {name}")
        })
        .collect();
    expected.sort_by_key(|entry| entry.to_ascii_lowercase());
    assert_eq!(labels, expected);
    assert_eq!(labels[0], "[?] odd");
    assert_eq!(labels[1], "[d] Beta");
    // Equal keys keep their order.
    assert_eq!(labels[3], "[f] alpha");
    assert_eq!(labels[4], "[f] Alpha");
}

#[test]
fn columns_fill_top_to_bottom() {
    let entries: Vec<String> = ["[f] a", "[f] b", "[f] c", "[d] a-very-long-directory-name"]
        .iter()
        .map(|s| s.to_string())
        .collect();
    let lines = column_lines(&entries, 2, 40);
    assert_eq!(lines.len(), 2);
    assert_eq!(lines[0], format!("{:<20}{:<20}", "[f] a", "[f] c"));
    assert_eq!(lines[1], format!("{:<20}{:<20}", "[f] b", "[d] a-very-long-di~"));

    let narrow = column_lines(&entries, 3, 10);
    assert_eq!(narrow, vec!["[f] a     ".to_string(), "[f] b     ".to_string(), "[f] c     ".to_string()]);
    assert!(column_lines(&entries, 0, 40).is_empty());
}
