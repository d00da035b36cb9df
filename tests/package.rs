use std::io::Write;

use alpm_local::package::{
    FileStat, FileType, LoadCause, LoadError, ManifestEntry, Package, PackageDesc, Reason,
    Validation, ValidationError,
};

const DESC: &str = "%NAME%\npkgname\n\n%VERSION%\n1.0\n\n%DESC%\nHuman readable description\n\n%GROUPS%\ngroup-a\ngroup-b\n\n%URL%\nhttps://example.org\n\n%ARCH%\nx86_64\n\n%PACKAGER%\nName <email>\n\n%REASON%\n1\n\n%VALIDATION%\nsha256\n\n%SIZE%\n123456\n\n%DEPENDS%\nlibfoo\nlibbar>=2.0\n\n";

fn entry(path: &str, file_type: Option<FileType>, size: Option<u64>) -> ManifestEntry {
    ManifestEntry { path: path.to_string(), file_type, size }
}

fn package(files: Vec<ManifestEntry>) -> Package {
    Package::from_parts("/var/lib/pacman/local/pkgname-1.0".to_string(), DESC, files, "pkgname", "1.0")
        .unwrap()
}

fn gzip(data: &[u8]) -> Vec<u8> {
    let mut enc = libflate::gzip::Encoder::new(Vec::new()).unwrap();
    enc.write_all(data).unwrap();
    enc.finish().into_result().unwrap()
}

#[test]
fn decodes_full_descriptor() {
    let d = PackageDesc::decode(DESC).unwrap();
    assert_eq!(d.name, "pkgname");
    assert_eq!(d.version, "1.0");
    assert_eq!(d.description, "Human readable description");
    assert_eq!(d.groups, vec!["group-a", "group-b"]);
    assert_eq!(d.url, "https://example.org");
    assert_eq!(d.arch, "x86_64");
    assert_eq!(d.packager, "Name <email>");
    assert_eq!(d.reason, Some(Reason::Depend));
    assert_eq!(d.validation, vec![Validation::Sha256]);
    assert_eq!(d.size, 123456);
    assert_eq!(d.depends, vec!["libfoo", "libbar>=2.0"]);
}

#[test]
fn descriptor_missing_optional_keys_takes_defaults() {
    let d = PackageDesc::decode(DESC).unwrap();
    assert_eq!(d.base, None);
    assert_eq!(d.license, None);
    assert!(d.replaces.is_empty());
    assert!(d.optional_depends.is_empty());
    assert!(d.conflicts.is_empty());
    assert!(d.provides.is_empty());
}

#[test]
fn descriptor_with_unknown_section_decodes_the_same() {
    let extra = format!("%BUILDDATE%\n1700000000\n\n{}%XDATA%\npkgtype=pkg\n\n", DESC);
    let d = PackageDesc::decode(&extra).unwrap();
    let plain = PackageDesc::decode(DESC).unwrap();
    assert_eq!(d.name, plain.name);
    assert_eq!(d.depends, plain.depends);
    assert_eq!(d.size, plain.size);
}

#[test]
fn descriptor_with_explicit_reason_and_all_validations() {
    let text = DESC.replace("%REASON%\n1", "%REASON%\n0").replace("%VALIDATION%\nsha256", "%VALIDATION%\nnone\nmd5\nsha256\npgp");
    let d = PackageDesc::decode(&text).unwrap();
    assert_eq!(d.reason, Some(Reason::Explicit));
    assert_eq!(d.validation, vec![Validation::Unvalidated, Validation::Md5, Validation::Sha256, Validation::Pgp]);
}

#[test]
fn descriptor_with_bad_size_fails() {
    let text = DESC.replace("123456", "12x");
    let e = PackageDesc::decode(&text).unwrap_err();
    assert_eq!(e.kind(), &alpm_local::error::ErrorKind::ExpectedUnsigned);
}

#[test]
fn descriptor_with_empty_name_fails() {
    let text = DESC.replace("%NAME%\npkgname\n", "%NAME%\n");
    let e = PackageDesc::decode(&text).unwrap_err();
    assert_eq!(e.kind(), &alpm_local::error::ErrorKind::Custom("empty name or version".to_string()));
}

#[test]
fn accessors_project_descriptor() {
    let p = package(vec![entry("./a", Some(FileType::File), Some(1))]);
    assert_eq!(p.name(), "pkgname");
    assert_eq!(p.version(), "1.0");
    assert_eq!(p.base(), None);
    assert_eq!(p.description(), "Human readable description");
    assert_eq!(p.groups(), &["group-a".to_string(), "group-b".to_string()][..]);
    assert_eq!(p.url(), "https://example.org");
    assert_eq!(p.license(), None);
    assert_eq!(p.arch(), "x86_64");
    assert_eq!(p.packager(), "Name <email>");
    assert_eq!(p.reason(), Some(Reason::Depend));
    assert_eq!(p.validation(), &[Validation::Sha256][..]);
    assert_eq!(p.size(), 123456);
    assert!(p.replaces().is_empty());
    assert_eq!(p.depends().len(), 2);
    assert!(p.optional_depends().is_empty());
    assert!(p.conflicts().is_empty());
    assert!(p.provides().is_empty());
    assert_eq!(p.file_names(), vec!["./a"]);
    assert_eq!(p.files().len(), 1);
    assert_eq!(p.path, "/var/lib/pacman/local/pkgname-1.0");
}

#[test]
fn total_size_skips_metadata_and_directories() {
    let p = package(vec![
        entry("./.PKGINFO", Some(FileType::File), Some(10)),
        entry("./lib.so", Some(FileType::File), Some(100)),
        entry("./bin", Some(FileType::Directory), None),
    ]);
    assert_eq!(p.total_size(), Some(100));
}

#[test]
fn total_size_skips_reserved_links_and_sizeless() {
    let p = package(vec![
        entry("./.BUILDINFO", Some(FileType::File), Some(7)),
        entry("./.INSTALL", Some(FileType::File), Some(9)),
        entry("./link", Some(FileType::SymbolicLink), Some(3)),
        entry("./nosize", Some(FileType::File), None),
        entry("./untyped", None, Some(5)),
        entry("./a", Some(FileType::File), Some(20)),
        entry("./b", Some(FileType::File), Some(22)),
    ]);
    assert_eq!(p.total_size(), Some(42));
    assert_eq!(package(vec![]).total_size(), Some(0));
}

#[test]
fn total_size_overflow_is_none() {
    let p = package(vec![
        entry("./a", Some(FileType::File), Some(u64::MAX)),
        entry("./b", Some(FileType::File), Some(1)),
    ]);
    assert_eq!(p.total_size(), None);
}

#[test]
fn validate_missing_file_gives_one_finding() {
    let p = package(vec![entry("./gone", Some(FileType::File), Some(5))]);
    let r = p.validate_with(&vec![FileStat::NotFound]);
    assert_eq!(r, vec![ValidationError::FileNotFound("./gone".to_string())]);
}

#[test]
fn validate_wrong_size() {
    let p = package(vec![entry("./f", Some(FileType::File), Some(50))]);
    let r = p.validate_with(&vec![FileStat::Found { file_type: FileType::File, len: 60 }]);
    assert_eq!(r, vec![ValidationError::WrongSize { expected: 50, actual: 60 }]);
}

#[test]
fn validate_wrong_type_and_size_and_other_loose() {
    let p = package(vec![
        entry("./d", Some(FileType::Directory), Some(4)),
        entry("./o", Some(FileType::Other), None),
        entry("./ok", Some(FileType::SymbolicLink), None),
        entry("./gone", None, None),
    ]);
    let r = p.validate_with(&vec![
        FileStat::Found { file_type: FileType::File, len: 8 },
        FileStat::Found { file_type: FileType::File, len: 8 },
        FileStat::Found { file_type: FileType::SymbolicLink, len: 1 },
        FileStat::NotFound,
    ]);
    assert_eq!(
        r,
        vec![
            ValidationError::wrong_type(FileType::Directory, FileType::File),
            ValidationError::wrong_size(4, 8),
            ValidationError::file_not_found("./gone".to_string()),
        ]
    );
}

#[test]
fn load_with_wrong_version_fails() {
    let text = DESC.replace("%VERSION%\n1.0", "%VERSION%\n2.0");
    let r = Package::from_parts("/db/pkgname-1.0".to_string(), &text, vec![], "pkgname", "1.0");
    match r {
        Err(LoadError::InvalidLocalPackage { name, cause: LoadCause::VersionMismatch { expected, found } }) => {
            assert_eq!(name, "pkgname");
            assert_eq!(expected, "1.0");
            assert_eq!(found, "2.0");
        },
        _ => panic!("expected an invalid local package"),
    }
}

#[test]
fn load_with_wrong_name_fails() {
    let r = Package::from_parts("/db/other-1.0".to_string(), DESC, vec![], "other", "1.0");
    assert!(matches!(
        r,
        Err(LoadError::InvalidLocalPackage { cause: LoadCause::NameMismatch { .. }, .. })
    ));
}

#[test]
fn load_with_bad_descriptor_fails() {
    let r = Package::from_parts("/db/x".to_string(), "garbage\n", vec![], "x", "1");
    match r {
        Err(LoadError::InvalidLocalPackage { name, cause: LoadCause::Decode(e) }) => {
            assert_eq!(name, "x");
            assert_eq!(e.kind(), &alpm_local::error::ErrorKind::ExpectedKey);
        },
        _ => panic!("expected a decode failure"),
    }
}

#[test]
fn load_from_raw_reads_compressed_manifest() {
    let manifest = gzip(b"#mtree\n/set type=file uid=0 gid=0 mode=644\n./.PKGINFO size=10\n./lib.so size=100\n./bin type=dir\n");
    let p = Package::from_raw("/db/pkgname-1.0".to_string(), DESC, &manifest, "pkgname", "1.0").unwrap();
    assert_eq!(p.files().len(), 3);
    assert_eq!(p.file_names(), vec!["./.PKGINFO", "./lib.so", "./bin"]);
    assert_eq!(p.files()[2].file_type, Some(FileType::Directory));
    assert_eq!(p.total_size(), Some(100));
}

#[test]
fn load_from_raw_rejects_bad_gzip() {
    let r = Package::from_raw("/db/pkgname-1.0".to_string(), DESC, &b"not gzip".to_vec(), "pkgname", "1.0");
    assert!(matches!(r, Err(LoadError::Manifest(_))));
}

#[test]
fn load_from_raw_rejects_unset() {
    let manifest = gzip(b"#mtree\n/unset uid\n./a type=file\n");
    let r = Package::from_raw("/db/pkgname-1.0".to_string(), DESC, &manifest, "pkgname", "1.0");
    assert!(matches!(r, Err(LoadError::Manifest(_))));
}

#[test]
fn file_type_names() {
    assert_eq!(FileType::File.to_string(), "file");
    assert_eq!(FileType::Directory.to_string(), "directory");
    assert_eq!(FileType::SymbolicLink.to_string(), "symbolic link");
    assert_eq!(FileType::Other.to_string(), "other");
}

#[test]
fn descriptor_without_validation_loads_with_empty_list() {
    let text = "%NAME%\npkgname\n\n%VERSION%\n1.0\n\n%DESC%\nd\n\n%URL%\nu\n\n%ARCH%\nany\n\n%PACKAGER%\np\n\n%SIZE%\n1\n\n";
    let d = PackageDesc::decode(text).unwrap();
    assert!(d.validation.is_empty());
    let p = Package::from_parts("/db/pkgname-1.0".to_string(), text, vec![], "pkgname", "1.0").unwrap();
    assert_eq!(p.base(), None);
    assert_eq!(p.license(), None);
    assert_eq!(p.reason(), None);
    assert!(p.validation().is_empty());
    assert!(p.groups().is_empty());
    assert!(p.replaces().is_empty());
    assert!(p.depends().is_empty());
    assert!(p.optional_depends().is_empty());
    assert!(p.conflicts().is_empty());
    assert!(p.provides().is_empty());
}

#[test]
fn load_from_raw_accepts_paths_naming_unset() {
    let manifest = gzip(b"#mtree\n/set type=file uid=0 gid=0 mode=644\n./usr/share/man/man1p/unset.1p.gz time=1600000000.5 size=12 md5digest=0123456789abcdef0123456789abcdef\n./usr/bin type=dir mode=0755\n./usr/bin/tool link=/bin/x type=link\n");
    let p = Package::from_raw("/db/pkgname-1.0".to_string(), DESC, &manifest, "pkgname", "1.0").unwrap();
    assert_eq!(p.file_names(), vec!["./usr/share/man/man1p/unset.1p.gz", "./usr/bin", "./usr/bin/tool"]);
    assert_eq!(p.files()[0].size, Some(12));
    assert_eq!(p.files()[2].file_type, Some(FileType::SymbolicLink));
}

#[test]
fn load_from_raw_rejects_relative_entry() {
    let manifest = gzip(b"#mtree\nrelative type=file\n");
    let r = Package::from_raw("/db/pkgname-1.0".to_string(), DESC, &manifest, "pkgname", "1.0");
    assert!(matches!(r, Err(LoadError::Manifest(_))));
}

#[test]
fn load_from_raw_rejects_unknown_keyword_and_long_time() {
    for m in [&b"./a type=file colour=red\n"[..], &b"./a time=18446744073709551615.9999999999\n"[..], &b"./a size=x\n"[..]] {
        let r = Package::from_raw("/db/pkgname-1.0".to_string(), DESC, &gzip(m), "pkgname", "1.0");
        assert!(matches!(r, Err(LoadError::Manifest(_))));
    }
}

#[test]
fn descriptor_reencoded_decodes_the_same() {
    let ss = alpm_local::desc::parse_text(DESC).unwrap();
    let again = alpm_local::encode::encode_to_string(&ss);
    let a = PackageDesc::decode(DESC).unwrap();
    let b = PackageDesc::decode(&again).unwrap();
    assert_eq!(a.name, b.name);
    assert_eq!(a.groups, b.groups);
    assert_eq!(a.depends, b.depends);
    assert_eq!(a.validation, b.validation);
    assert_eq!(a.size, b.size);
    assert_eq!(a.reason, b.reason);
}

#[test]
fn findings_for_missing_and_resized_entries() {
    let p = package(vec![
        entry("./gone", Some(FileType::Directory), Some(5)),
        entry("./f", None, Some(50)),
    ]);
    let r = p.validate_with(&vec![FileStat::NotFound, FileStat::Found { file_type: FileType::File, len: 60 }]);
    assert_eq!(
        r,
        vec![
            ValidationError::FileNotFound("./gone".to_string()),
            ValidationError::WrongSize { expected: 50, actual: 60 },
        ]
    );
}

#[test]
fn load_from_raw_rejects_time_past_the_epoch_range() {
    for m in [&b"./a time=9999999999999999999.0\n"[..], &b"./a time=9223372036854775807.0\n"[..], &b"./a time=1.4294967296\n"[..]] {
        let r = Package::from_raw("/db/pkgname-1.0".to_string(), DESC, &gzip(m), "pkgname", "1.0");
        assert!(matches!(r, Err(LoadError::Manifest(_))));
    }
}

#[test]
fn load_from_raw_accepts_other_digests_devices_and_large_numbers() {
    let manifest = gzip(b"./a type=file size=18446744073709551615 time=9223372036854775802.999999999 sha1digest=0123456789ABCDEF0123456789abcdef01234567 md5=0123456789ABCDEF0123456789ABCDEF\n./dev/x type=char device=linux,1,3 resdevice=native,0,1\n./s type=socket sha512=00000000000000000000000000000000000000000000000000000000000000000000000000000000000000000000000000000000000000000000000000000000\n");
    let p = Package::from_raw("/db/pkgname-1.0".to_string(), DESC, &manifest, "pkgname", "1.0").unwrap();
    assert_eq!(p.files().len(), 3);
    assert_eq!(p.files()[0].size, Some(u64::MAX));
    assert_eq!(p.files()[1].file_type, Some(FileType::Other));
    assert_eq!(p.files()[2].file_type, Some(FileType::Other));
}

#[test]
fn file_type_from_reader_words() {
    assert_eq!(FileType::from_word("file"), FileType::File);
    assert_eq!(FileType::from_word("dir"), FileType::Directory);
    assert_eq!(FileType::from_word("link"), FileType::SymbolicLink);
    for w in ["block", "char", "fifo", "socket"] {
        assert_eq!(FileType::from_word(w), FileType::Other);
    }
}
