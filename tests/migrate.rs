use arxiv_reader::migrate::{
    bookmark_target_id, upgrade_step, MigrationError, MigrationStep, TARGET_VERSION,
};

#[test]
fn current_store_needs_no_writes() {
    assert!(matches!(upgrade_step("5"), Ok(MigrationStep::Ready)));
    assert_eq!(TARGET_VERSION, 5);
}

#[test]
fn each_step_advances_one_version() {
    let mut marker = "1".to_string();
    let mut steps = 0;
    loop {
        match upgrade_step(&marker) {
            Ok(MigrationStep::Ready) => break,
            Ok(MigrationStep::Upgrade(m)) => {
                assert_eq!(m.new_version.parse::<u32>().unwrap(), marker.parse::<u32>().unwrap() + 1);
                marker = m.new_version;
                steps += 1;
            }
            Err(_) => panic!("known versions migrate"),
        }
    }
    assert_eq!(steps, 4);
}

#[test]
fn step_contents() {
    match upgrade_step("3") {
        Ok(MigrationStep::Upgrade(m)) => {
            assert_eq!(m.statements.len(), 3);
            assert_eq!(m.statements[0], "ALTER TABLE last_update RENAME TO set_");
            assert!(m.derive_categories);
            assert!(!m.convert_bookmarks);
        }
        _ => panic!("version 3 upgrades"),
    }
    match upgrade_step("4") {
        Ok(MigrationStep::Upgrade(m)) => {
            assert!(m.statements.is_empty());
            assert!(m.convert_bookmarks);
            assert_eq!(m.new_version, "5");
        }
        _ => panic!("version 4 upgrades"),
    }
}

#[test]
fn unknown_marker_is_fatal() {
    assert!(matches!(upgrade_step("6"), Err(MigrationError::UnknownVersion)));
    assert!(matches!(upgrade_step(""), Err(MigrationError::UnknownVersion)));
    assert!(matches!(upgrade_step("15"), Err(MigrationError::UnknownVersion)));
}

#[test]
fn bookmark_links() {
    let id = bookmark_target_id("../articles", "math_0601001").unwrap();
    assert_eq!(id.as_str(), "math/0601001");
    assert!(bookmark_target_id("../other", "math_0601001").is_none());
    assert!(bookmark_target_id("../articles", "Not An Id").is_none());
}
