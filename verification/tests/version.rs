use branchless::version::{GitVersion, GitVersionError};

#[test]
fn test_parse_git_version_output() {
    assert_eq!(
        GitVersion::from_str("git version 12.34.56").unwrap(),
        GitVersion(12, 34, 56)
    );
    assert_eq!(
        GitVersion::from_str("git version 12.34.56\n").unwrap(),
        GitVersion(12, 34, 56)
    );
    assert_eq!(
        GitVersion::from_str("git version 12.34.56.78.abcdef").unwrap(),
        GitVersion(12, 34, 56)
    );
    assert_eq!(
        GitVersion::from_str("git version 2.33.0-rc0").unwrap(),
        GitVersion(2, 33, 0)
    );
    assert_eq!(
        GitVersion::from_str("git version 2.33.GIT").unwrap(),
        GitVersion(2, 33, 0)
    );
}

#[test]
fn version_with_too_few_words_is_refused() {
    assert_eq!(
        GitVersion::from_str("git version"),
        Err(GitVersionError::MissingVersion)
    );
    assert_eq!(GitVersion::from_str(""), Err(GitVersionError::MissingVersion));
}

#[test]
fn version_with_too_few_parts_is_refused() {
    assert_eq!(
        GitVersion::from_str("git version 2.33"),
        Err(GitVersionError::MissingPart)
    );
}

#[test]
fn version_with_a_major_part_that_is_no_number_is_refused() {
    assert_eq!(
        GitVersion::from_str("git version x.33.1"),
        Err(GitVersionError::InvalidNumber)
    );
    assert_eq!(
        GitVersion::from_str("git version 2..1"),
        Err(GitVersionError::InvalidNumber)
    );
}

#[test]
fn version_numbers_may_carry_a_sign() {
    assert_eq!(
        GitVersion::from_str("  git version +2.33.-7  ").unwrap(),
        GitVersion(2, 33, 0)
    );
    assert_eq!(
        GitVersion::from_str("git version +2.33.+7").unwrap(),
        GitVersion(2, 33, 7)
    );
}

#[test]
fn version_number_that_overflows_is_refused() {
    assert_eq!(
        GitVersion::from_str("git version 99999999999999999999999999.1.1"),
        Err(GitVersionError::InvalidNumber)
    );
    assert_eq!(
        GitVersion::from_str("git version 1.2.99999999999999999999999999").unwrap(),
        GitVersion(1, 2, 0)
    );
}
