//! The mount table as the kernel writes it: which volumes are data volumes,
//! and their mount points unescaped byte for byte.

use dxray::paths::{is_data_mount, mount_points, unescape_mount_path};

#[test]
fn mountinfo_paths_are_unescaped_and_limited_to_data_mounts() {
    assert_eq!(unescape_mount_path(b"/media/a\\040disk"), b"/media/a disk".to_vec());
    let paths = mount_points(
        "1 0 8:1 / /media/a\\040disk rw - ext4 /dev/sda rw\n2 0 0:2 / /proc rw - proc proc rw\n",
    );
    assert_eq!(paths, vec![b"/media/a disk".to_vec()]);
}

#[test]
fn non_ascii_mount_names_survive_unescaping_byte_for_byte() {
    for name in ["/media/café", "/media/日本語ディスク", "/run/media/user/Übisoft"] {
        assert_eq!(
            unescape_mount_path(name.as_bytes()),
            name.as_bytes().to_vec(),
            "a name with no escapes in it has to come back unchanged"
        );
    }
    assert_eq!(
        unescape_mount_path(b"/media/caf\\303\\251 disk"),
        "/media/café disk".as_bytes().to_vec(),
        "and octal escapes have to reassemble into the bytes they name"
    );
}

#[test]
fn a_backslash_that_is_not_an_octal_escape_is_left_alone() {
    assert_eq!(unescape_mount_path(b"/media/a\\400b"), b"/media/a\\400b".to_vec());
    assert_eq!(unescape_mount_path(b"/media/a\\8b"), b"/media/a\\8b".to_vec());
    assert_eq!(unescape_mount_path(b"/media/trailing\\"), b"/media/trailing\\".to_vec());
}

#[test]
fn only_mount_roots_under_the_data_directories_count_component_by_component() {
    assert!(is_data_mount(&b"/media".to_vec()));
    assert!(is_data_mount(&b"/run/media/u/disk".to_vec()));
    assert!(is_data_mount(&b"//mnt/./games".to_vec()));
    assert!(!is_data_mount(&b"/mediax/disk".to_vec()), "a longer name is another directory");
    assert!(!is_data_mount(&b"media/disk".to_vec()), "a relative path is under no root");
    assert!(!is_data_mount(&b"/run/user/1000".to_vec()));
}

#[test]
fn a_line_with_too_few_fields_names_no_mount() {
    assert!(mount_points("1 0 8:1 /\n\n").is_empty());
    assert_eq!(
        mount_points("36 35 98:0 /mnt1 /mnt/data rw,noatime master:1 - ext3 /dev/root rw\r\n"),
        vec![b"/mnt/data".to_vec()]
    );
}
