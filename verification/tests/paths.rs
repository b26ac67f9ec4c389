use rapidarchive::tar::path::{clone_parts, paths_equal};
use rapidarchive::tar::{canonicalized_tar_path, normalize, PathPart, PathPrefix, TarFileType};

fn name(text: &str) -> PathPart {
    PathPart::Normal(text.to_string())
}

#[test]
fn canonical_path_joins_with_slashes() {
    let parts = vec![name("a"), name("b"), name("c.txt")];

    assert_eq!(canonicalized_tar_path(&parts, TarFileType::FileStream), "a/b/c.txt");
    assert_eq!(canonicalized_tar_path(&parts, TarFileType::Directory), "a/b/c.txt/");
}

#[test]
fn canonical_path_leaves_out_the_root() {
    let parts = vec![PathPart::RootDir, name("etc"), name("fstab")];

    assert_eq!(canonicalized_tar_path(&parts, TarFileType::FileStream), "etc/fstab");
    assert_eq!(canonicalized_tar_path(&[PathPart::RootDir], TarFileType::FileStream), "");
    assert_eq!(canonicalized_tar_path(&[PathPart::RootDir], TarFileType::Directory), "/");
    assert_eq!(canonicalized_tar_path(&[], TarFileType::FileStream), "");
}

#[test]
fn canonical_path_keeps_dots() {
    let parts = vec![PathPart::CurDir, name("a"), PathPart::ParentDir, name("b")];

    assert_eq!(canonicalized_tar_path(&parts, TarFileType::FileStream), "./a/../b");
}

#[test]
fn canonical_path_spells_drives_small() {
    let disk = vec![PathPart::Prefix(PathPrefix::Disk(b'C')), PathPart::RootDir, name("test.txt")];
    let verbatim = vec![PathPart::Prefix(PathPrefix::VerbatimDisk(b'z')), name("x")];
    let odd = vec![PathPart::Prefix(PathPrefix::Disk(b'['))];

    assert_eq!(canonicalized_tar_path(&disk, TarFileType::FileStream), "c/test.txt");
    assert_eq!(canonicalized_tar_path(&verbatim, TarFileType::FileStream), "z/x");
    assert_eq!(canonicalized_tar_path(&odd, TarFileType::FileStream), "[");
}

#[test]
fn canonical_path_names_server_and_share() {
    let unc = vec![
        PathPart::Prefix(PathPrefix::UNC("server".to_string(), "share".to_string())),
        PathPart::RootDir,
        name("f"),
    ];
    let verbatim_unc = vec![PathPart::Prefix(PathPrefix::VerbatimUNC(
        "s".to_string(),
        "t".to_string(),
    ))];
    let device = vec![PathPart::Prefix(PathPrefix::DeviceNS("COM1".to_string()))];
    let verbatim = vec![PathPart::Prefix(PathPrefix::Verbatim("pic".to_string())), name("a")];

    assert_eq!(canonicalized_tar_path(&unc, TarFileType::FileStream), "server/share/f");
    assert_eq!(canonicalized_tar_path(&verbatim_unc, TarFileType::FileStream), "s/t");
    assert_eq!(canonicalized_tar_path(&device, TarFileType::FileStream), "COM1");
    assert_eq!(canonicalized_tar_path(&verbatim, TarFileType::FileStream), "pic/a");
}

#[test]
fn normalize_resolves_dots() {
    let parts = vec![
        PathPart::CurDir,
        name("a"),
        name("b"),
        PathPart::ParentDir,
        PathPart::CurDir,
        name("c"),
    ];

    assert_eq!(normalize(&parts), vec![name("a"), name("c")]);
}

#[test]
fn normalize_stops_at_the_root() {
    let parts = vec![PathPart::RootDir, PathPart::ParentDir, PathPart::ParentDir, name("a")];

    assert_eq!(normalize(&parts), vec![PathPart::RootDir, name("a")]);
    assert_eq!(normalize(&[PathPart::ParentDir, name("a")]), vec![name("a")]);
    assert_eq!(normalize(&[]), Vec::<PathPart>::new());
}

#[test]
fn paths_compare_by_their_components() {
    let a = vec![PathPart::RootDir, name("x"), PathPart::Prefix(PathPrefix::Disk(b'c'))];
    let b = clone_parts(&a);

    assert!(paths_equal(&a, &b));
    assert!(a == b);
    assert!(!paths_equal(&a, &a[..2]));
    assert!(!paths_equal(&[name("x")], &[name("y")]));
    assert!(!paths_equal(&[PathPart::CurDir], &[PathPart::ParentDir]));
    assert!(PathPrefix::Disk(b'c') != PathPrefix::VerbatimDisk(b'c'));
    assert!(
        PathPrefix::UNC("a".to_string(), "b".to_string())
            != PathPrefix::UNC("a".to_string(), "c".to_string())
    );
}
