use cfn_guard::commands::test_directory::{GuardFile, OrderedTestDirectory, WalkedFile};

fn walked(dir: &str, name: &str) -> WalkedFile {
    let parent = String::from(dir);
    let in_tests_dir = dir.rsplit('/').next() == Some("tests");
    let grandparent = dir.rfind('/').map(|at| String::from(&dir[..at]));
    WalkedFile { path: format!("{dir}/{name}"), name: String::from(name), parent, in_tests_dir, grandparent }
}

#[test]
fn a_test_file_goes_to_the_rules_file_with_the_longest_stem() {
    let entries = vec![
        walked("root/b", "s3.guard"),
        walked("root/b", "s3_encryption.guard"),
        walked("root/b", "notes.txt"),
        walked("root/b/tests", "ec2_tests.yml"),
        walked("root/b/tests", "s3_encryption_tests.yml"),
        walked("root/b/tests", "s3_tests.yml"),
        walked("root/a", "x.ruleset"),
        walked("root/a/tests", "x_tests.json"),
        walked("root/c/tests", "y_tests.yaml"),
    ];
    let layout = OrderedTestDirectory::from_walk(&entries);

    let dirs: Vec<&str> = layout.files.iter().map(|(d, _)| d.as_str()).collect();
    assert_eq!(vec!["root/a", "root/b"], dirs);

    let a = &layout.files[0].1;
    assert_eq!(1, a.len());
    assert_eq!("x", a[0].prefix);
    assert_eq!(vec![String::from("root/a/tests/x_tests.json")], a[0].test_files);

    let b = &layout.files[1].1;
    assert_eq!(2, b.len());
    assert_eq!("s3", b[0].prefix);
    assert_eq!("root/b/s3.guard", b[0].path);
    assert_eq!(vec![String::from("root/b/tests/s3_tests.yml")], b[0].test_files);
    assert_eq!("s3_encryption", b[1].prefix);
    assert_eq!(vec![String::from("root/b/tests/s3_encryption_tests.yml")], b[1].test_files);

    assert_eq!(
        vec![String::from("root/b/tests/ec2_tests.yml"), String::from("root/c/tests/y_tests.yaml")],
        layout.orphaned_test_files
    );
}

#[test]
fn a_tie_goes_to_the_first_rules_file() {
    let entries = vec![
        walked("d", "x.guard"),
        walked("d", "x.ruleset"),
        walked("d/tests", "x_tests.yaml"),
    ];
    let layout = OrderedTestDirectory::from_walk(&entries);
    let group = &layout.files[0].1;
    assert_eq!(1, group[0].test_files.len());
    assert!(group[1].test_files.is_empty());
    assert!(layout.orphaned_test_files.is_empty());
}

#[test]
fn a_data_file_outside_a_tests_directory_is_not_a_test_file() {
    let entries = vec![walked("d", "x.guard"), walked("d", "x_tests.yaml")];
    let layout = OrderedTestDirectory::from_walk(&entries);
    assert!(layout.files[0].1[0].test_files.is_empty());
    assert!(layout.orphaned_test_files.is_empty());
}

#[test]
fn a_rules_file_gives_its_test_files_in_walk_order() {
    let file = GuardFile {
        prefix: String::from("s3"),
        path: String::from("rules/s3.guard"),
        test_files: vec![String::from("rules/tests/s3_tests.yaml"), String::from("rules/tests/s3_more_tests.json")],
    };
    assert_eq!(
        vec![String::from("rules/tests/s3_tests.yaml"), String::from("rules/tests/s3_more_tests.json")],
        file.get_test_files()
    );
}
