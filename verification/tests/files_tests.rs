use wikigraph::files::all_shards_present;
use wikigraph::files::check_xml_files;
use wikigraph::files::generate_xml_file_names;
use wikigraph::files::FilesError;

#[test]
fn shard_names_follow_the_pattern() {
    let names = generate_xml_file_names("dump.xml".to_string(), "temp/".to_string(), 3);
    assert_eq!(
        names,
        vec![
            "temp/dump-split1.xml".to_string(),
            "temp/dump-split2.xml".to_string(),
            "temp/dump-split3.xml".to_string(),
        ]
    );
}

#[test]
fn shard_numbers_render_in_decimal() {
    let names = generate_xml_file_names("d.xml".to_string(), "".to_string(), 12);
    assert_eq!(names[9], "d-split10.xml".to_string());
    assert_eq!(names[11], "d-split12.xml".to_string());
}

#[test]
fn every_trailing_xml_suffix_is_trimmed() {
    let names = generate_xml_file_names("a.xml.xml".to_string(), "t/".to_string(), 1);
    assert_eq!(names, vec!["t/a-split1.xml".to_string()]);
}

#[test]
fn base_without_suffix_is_kept() {
    let names = generate_xml_file_names("dump".to_string(), "t/".to_string(), 1);
    assert_eq!(names, vec!["t/dump-split1.xml".to_string()]);
}

#[test]
fn expected_shard_set_is_accepted() {
    let expected = vec!["t/a-split1.xml".to_string(), "t/a-split2.xml".to_string()];
    let found = vec!["t/a-split2.xml".to_string(), "t/a-split1.xml".to_string()];
    assert_eq!(check_xml_files(expected, 2, found), Ok(()));
}

#[test]
fn stray_shard_file_is_rejected() {
    let expected = vec!["t/a-split1.xml".to_string()];
    let found = vec!["t/a-split1.xml".to_string(), "t/other.xml".to_string()];
    assert_eq!(check_xml_files(expected, 1, found), Err(FilesError::ExtraXmlFile));
}

#[test]
fn wrong_shard_count_is_rejected() {
    let expected = vec!["t/a-split1.xml".to_string(), "t/a-split2.xml".to_string()];
    let found = vec!["t/a-split1.xml".to_string()];
    assert_eq!(check_xml_files(expected, 2, found), Err(FilesError::WrongXmlCount));
}

#[test]
fn complete_shard_set_skips_resplitting() {
    // The idempotent fast path: with every shard file present the
    // partitioner performs no writes.
    assert!(all_shards_present(&vec![true, true, true]));
    assert!(!all_shards_present(&vec![true, false, true]));
    assert!(all_shards_present(&Vec::new()));
}
