use soundtransfer::archive::ZipEntry;
use soundtransfer::update::{
    asset_name, bundle_entry, bundle_root, bundle_step, check, extract_exe, find_exe, install,
    parse_ver, read_entry, ver_le, Asset, BundleStep, InstallPlan, Platform, Release, SwapFault,
    SwapStep, UpdateError,
};
use std::io::Write;

#[test]
fn version_parsing_and_ordering() {
    assert_eq!(parse_ver("v1.2.3"), (1, 2, 3));
    assert_eq!(parse_ver("0.10.0"), (0, 10, 0));
    assert!(parse_ver("v0.2.0") > parse_ver("0.1.9"));
    assert!(parse_ver("v0.10.0") > parse_ver("v0.9.9"));
    assert!(parse_ver("1.0.0") > parse_ver("0.99.99"));
}

#[test]
fn odd_versions_count_as_zero_where_they_are_odd() {
    assert_eq!(parse_ver(" vv1.2.3.4\n"), (1, 2, 3));
    assert_eq!(parse_ver("1"), (1, 0, 0));
    assert_eq!(parse_ver("1.x.3"), (1, 0, 3));
    assert_eq!(parse_ver("+1.-2. 3"), (1, 0, 0));
    assert_eq!(parse_ver("+.1..2"), (0, 1, 0));
    assert_eq!(parse_ver(""), (0, 0, 0));
    assert_eq!(
        parse_ver("18446744073709551615.18446744073709551616.007"),
        (u64::MAX, 0, 7)
    );
}

#[test]
fn versions_are_ordered_as_tuples() {
    let versions = [(0, 0, 1), (0, 1, 0), (0, 1, 9), (1, 0, 0), (1, 0, 0)];
    for a in versions {
        for b in versions {
            assert_eq!(ver_le(a, b), a <= b);
        }
    }
}

fn release(tag: &str, files: &[&str]) -> Release {
    Release {
        tag_name: tag.to_string(),
        assets: files
            .iter()
            .enumerate()
            .map(|(i, name)| Asset {
                name: name.to_string(),
                browser_download_url: format!("https://host/{i}"),
            })
            .collect(),
    }
}

#[test]
fn only_newer_releases_are_offered() {
    let files = ["SoundTransfer-macos.zip", "SoundTransfer-windows.zip"];
    let latest = check(&release("v0.3.0", &files), "0.2.9", Platform::Windows)
        .unwrap()
        .unwrap();
    assert_eq!(latest.version, "v0.3.0");
    assert_eq!(latest.asset_url, "https://host/1");
    let same = check(&release("v0.3.0", &files), "0.3.0", Platform::Windows);
    assert!(matches!(same, Ok(None)));
    let older = check(&release("v0.3.0", &[]), "0.3.1", Platform::Windows);
    assert!(matches!(older, Ok(None)));
}

#[test]
fn the_first_file_of_a_platform_is_taken() {
    let files = ["SoundTransfer-macos.zip", "SoundTransfer-macos.zip"];
    let latest = check(&release("v2", &files), "1", Platform::MacOs).unwrap().unwrap();
    assert_eq!(latest.asset_url, "https://host/0");
    let none = check(&release("v2", &files), "1", Platform::Windows);
    assert!(matches!(none, Err(UpdateError::NoAsset)));
    assert_eq!(asset_name(Platform::Windows), "SoundTransfer-windows.zip");
    assert_eq!(asset_name(Platform::MacOs), "SoundTransfer-macos.zip");
    assert_eq!(asset_name(Platform::Other), "");
}

/// An archive with the given files; a name that ends in a slash is a directory.
fn archive(files: &[(&str, &[u8], u32)]) -> Vec<u8> {
    let mut writer = zip::ZipWriter::new(std::io::Cursor::new(Vec::new()));
    for (name, contents, mode) in files {
        let options = zip::write::SimpleFileOptions::default()
            .compression_method(zip::CompressionMethod::Deflated)
            .unix_permissions(*mode);
        if name.ends_with('/') {
            writer.add_directory(*name, options).unwrap();
        } else {
            writer.start_file(*name, options).unwrap();
            writer.write_all(contents).unwrap();
        }
    }
    writer.finish().unwrap().into_inner()
}

#[test]
fn the_program_is_taken_out_of_the_archive() {
    let program = vec![42u8; 5000];
    let data = archive(&[
        ("README.txt", b"read me", 0o644),
        ("SoundTransfer/st.exe", &program, 0o755),
        ("other/st.exe", b"not this one", 0o755),
    ]);
    assert_eq!(extract_exe(&data), Ok(program.clone()));
    assert_eq!(
        install(Platform::Windows, &data),
        Ok(InstallPlan::ReplaceExe { exe: program })
    );
    assert_eq!(install(Platform::Other, &data), Err(UpdateError::Unsupported));
}

#[test]
fn archives_without_a_program_are_refused() {
    let data = archive(&[("README.txt", b"read me", 0o644), ("st.exe/", b"", 0o755)]);
    assert_eq!(extract_exe(&data), Err(UpdateError::NoExe));
    assert_eq!(extract_exe(b"no archive at all"), Err(UpdateError::BadArchive));
    assert_eq!(
        install(Platform::MacOs, b"no archive at all"),
        Err(UpdateError::BadArchive)
    );
}

#[test]
fn damaged_contents_are_refused() {
    let mut data = archive(&[("st.exe", &[7u8; 300], 0o755)]);
    // The packed contents follow the entry's header of 30 bytes and its name.
    data[36] ^= 0xFF;
    assert_eq!(extract_exe(&data), Err(UpdateError::BadArchive));
}

fn entry(name: &str) -> Option<ZipEntry> {
    Some(ZipEntry {
        name: name.to_string(),
        is_dir: name.ends_with('/'),
        unix_mode: None,
    })
}

#[test]
fn entries_before_the_program_must_be_readable() {
    assert_eq!(find_exe(&vec![entry("a"), entry("b/st.exe"), None]), Ok(1));
    assert_eq!(
        find_exe(&vec![entry("a"), None, entry("st.exe")]),
        Err(UpdateError::BadArchive)
    );
    assert_eq!(find_exe(&vec![entry("a"), entry("st.exe.txt")]), Err(UpdateError::NoExe));
}

#[test]
fn bundles_are_unpacked_entry_by_entry() {
    let data = archive(&[
        ("SoundTransfer.app/", b"", 0o755),
        ("SoundTransfer.app/Contents/", b"", 0o755),
        ("SoundTransfer.app/Contents/MacOS/st", b"program", 0o755),
        ("README.txt", b"read me", 0o644),
    ]);
    assert_eq!(
        install(Platform::MacOs, &data),
        Ok(InstallPlan::UnpackBundle { entries: 4 })
    );
    assert_eq!(bundle_step(&data, 0), Ok(BundleStep::Skip));
    assert_eq!(
        bundle_step(&data, 1),
        Ok(BundleStep::MakeDir {
            path: "Contents/".to_string(),
        })
    );
    match bundle_step(&data, 2) {
        Ok(BundleStep::WriteFile { path, unix_mode }) => {
            assert_eq!(path, "Contents/MacOS/st");
            assert_eq!(unix_mode.map(|mode| mode & 0o777), Some(0o755));
        }
        other => panic!("{other:?}"),
    }
    assert_eq!(read_entry(&data, 2), Ok(b"program".to_vec()));
    assert_eq!(bundle_step(&data, 3), Ok(BundleStep::Skip));
    assert_eq!(bundle_step(&data, 4), Err(UpdateError::BadArchive));
    assert_eq!(read_entry(&data, 4), Err(UpdateError::BadArchive));
}

#[test]
fn entries_outside_the_bundle_are_passed_over() {
    assert_eq!(bundle_entry(&entry("Other.app/x").unwrap()), BundleStep::Skip);
    assert_eq!(bundle_entry(&entry("SoundTransfer.app").unwrap()), BundleStep::Skip);
    assert_eq!(
        bundle_entry(&entry("SoundTransfer.app/x").unwrap()),
        BundleStep::WriteFile {
            path: "x".to_string(),
            unix_mode: None,
        }
    );
}

#[test]
fn bundles_are_told_by_their_extension() {
    let path = |text: &str| text.split('/').map(|s| s.to_string()).collect::<Vec<String>>();
    assert_eq!(
        bundle_root(&path("Applications/SoundTransfer.app/Contents/MacOS/st")),
        Some(2)
    );
    assert_eq!(bundle_root(&path("SoundTransfer.app/Contents/MacOS/st")), Some(1));
    assert_eq!(bundle_root(&path(".app/Contents/MacOS/st")), None);
    assert_eq!(bundle_root(&path("usr/local/bin/st")), None);
    assert_eq!(bundle_root(&path("SoundTransfer.app/MacOS/st")), None);
    for text in ["a.app/x/y/z", "a.b.app/x/y/z", ".app/x/y/z", "a.apps/x/y/z", "app/x/y/z"] {
        let std = std::path::Path::new(text)
            .ancestors()
            .nth(3)
            .and_then(|p| p.extension())
            .map(|e| e == "app");
        assert_eq!(bundle_root(&path(text)).is_some(), std == Some(true), "{text}");
    }
}

#[test]
fn a_swap_that_works_ends_in_a_new_start() {
    let mut step = SwapStep::first();
    let mut steps = vec![step];
    while step != SwapStep::Done {
        step = step.next(true);
        steps.push(step);
    }
    assert_eq!(
        steps,
        vec![
            SwapStep::ClearAside,
            SwapStep::MoveAside,
            SwapStep::PutInPlace,
            SwapStep::Relaunch,
            SwapStep::Done,
        ]
    );
    assert_eq!(SwapStep::Done.next(false), SwapStep::Done);
}

#[test]
fn a_swap_that_fails_puts_the_running_version_back() {
    // Nothing to clear is no reason to stop.
    assert_eq!(SwapStep::ClearAside.next(false), SwapStep::MoveAside);
    assert_eq!(
        SwapStep::MoveAside.next(false),
        SwapStep::Failed {
            fault: SwapFault::MoveAside,
        }
    );
    assert_eq!(SwapStep::PutInPlace.next(false), SwapStep::PutBack);
    for ok in [true, false] {
        assert_eq!(
            SwapStep::PutBack.next(ok),
            SwapStep::Failed {
                fault: SwapFault::PutInPlace,
            }
        );
    }
    assert_eq!(
        SwapStep::Relaunch.next(false),
        SwapStep::Failed {
            fault: SwapFault::Relaunch,
        }
    );
}

#[test]
fn a_leading_v_makes_no_difference() {
    for version in ["", "1.2.3", "vv2", "0.10", "x.1"] {
        assert_eq!(parse_ver(&format!("v{version}")), parse_ver(version));
    }
    // Behind a `v` white space is no longer at the start, and is not trimmed.
    assert_ne!(parse_ver("v 1"), parse_ver(" 1"));
}

#[test]
fn a_bundle_without_its_program_is_discarded() {
    assert_eq!(SwapStep::after_unpacking(true), SwapStep::ClearAside);
    assert_eq!(SwapStep::after_unpacking(false), SwapStep::Discard);
    for ok in [true, false] {
        assert_eq!(
            SwapStep::Discard.next(ok),
            SwapStep::Failed {
                fault: SwapFault::NoProgram,
            }
        );
    }
}
