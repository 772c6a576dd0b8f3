use cardano_cli::directory_name::{DirectoryName, DirectoryNameError};

#[test]
fn valid_directory_name() {
    assert_eq!(
        DirectoryName::new("directory1".into()),
        Ok(DirectoryName("directory1".into()))
    );
    assert_eq!(
        DirectoryName::new("directory 2".into()),
        Ok(DirectoryName("directory 2".into()))
    );
    assert_eq!(
        DirectoryName::new("directory 📦".into()),
        Ok(DirectoryName("directory 📦".into()))
    );
}

#[test]
fn invalid_character_in_directory_name() {
    assert_eq!(
        DirectoryName::new("directory/1".into()),
        Err(DirectoryNameError::InvalidCharacterAtIndex(9))
    );
    assert_eq!(
        DirectoryName::new("directory.2".into()),
        Err(DirectoryNameError::InvalidCharacterAtIndex(9))
    );
}
