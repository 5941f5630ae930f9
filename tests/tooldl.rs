use std::io::{Cursor, Write};

use tooldl::arch::{classify_asset, Architecture};
use tooldl::cli::{credential_from_store, credential_step, Args, CredentialStep, StoredCredential};
use tooldl::error::ToolError;
use tooldl::extract::{
    extract_to_directory, is_enclosed_path, place_entries, ArchiveEntry, Placement,
};
use tooldl::layout::{arch_dir, join_path, marker_path, registry_path, tool_dir};
use tooldl::registry::{load_registry, parse_registry, ToolId};
use tooldl::release::{authorization, latest_release_url, status_error};
use tooldl::update::{
    after_lookup, is_archive, plan_update, LookupOutcome, select_assets, tool_steps, AssetDescriptor, Download,
    ReleaseDescriptor, Step, UpdatePlan,
};
use tooldl::version::is_up_to_date;

fn tool(owner: &str, repo: &str) -> ToolId {
    ToolId { owner: owner.to_string(), repo: repo.to_string() }
}

fn asset(name: &str) -> AssetDescriptor {
    AssetDescriptor {
        name: name.to_string(),
        download_url: format!("https://example.com/{}", name),
    }
}

fn archive(entries: &[(&str, &[u8], Option<u32>)], dirs: &[&str]) -> Vec<u8> {
    let mut w = zip::ZipWriter::new(Cursor::new(Vec::new()));
    for d in dirs {
        w.add_directory(*d, zip::write::FileOptions::default()).unwrap();
    }
    for (name, content, mode) in entries {
        let mut opts = zip::write::FileOptions::default();
        if let Some(m) = mode {
            opts = opts.unix_permissions(*m);
        }
        w.start_file(*name, opts).unwrap();
        w.write_all(content).unwrap();
    }
    w.finish().unwrap().into_inner()
}

fn file_paths(p: &[Placement]) -> Vec<String> {
    p.iter()
        .map(|x| match x {
            Placement::Directory { path, .. } => format!("dir {}", path),
            Placement::File { path, .. } => format!("file {}", path),
        })
        .collect()
}

#[test]
fn registry_skips_comments_and_blanks() {
    let text = "// comment\n\nfoo/bar\n baz/qux ";
    assert_eq!(parse_registry(text), Ok(vec![tool("foo", "bar"), tool("baz", "qux")]));
}

#[test]
fn registry_trims_tabs_and_carriage_returns() {
    let text = "\tone/two\r\n  // note\r\n\r\nthree/four\n";
    assert_eq!(parse_registry(text), Ok(vec![tool("one", "two"), tool("three", "four")]));
}

#[test]
fn registry_splits_at_first_slash() {
    assert_eq!(parse_registry("a/b/c"), Ok(vec![tool("a", "b/c")]));
}

#[test]
fn registry_empty_text_names_nothing() {
    assert_eq!(parse_registry(""), Ok(vec![]));
    assert_eq!(parse_registry("\n\n   \n// x"), Ok(vec![]));
}

#[test]
fn registry_keeps_duplicates_and_order() {
    let text = "z/y\na/b\nz/y\n";
    assert_eq!(
        parse_registry(text),
        Ok(vec![tool("z", "y"), tool("a", "b"), tool("z", "y")])
    );
}

#[test]
fn registry_reports_first_malformed_line() {
    let text = "foo/bar\n  noslash  \nother\n";
    assert_eq!(
        parse_registry(text),
        Err(ToolError::MalformedRegistryEntry("noslash".to_string()))
    );
}

#[test]
fn registry_missing_file() {
    assert_eq!(load_registry(None), Err(ToolError::RegistryNotFound));
}

#[test]
fn registry_loaded_from_contents() {
    assert_eq!(load_registry(Some("acme/tool")), Ok(vec![tool("acme", "tool")]));
}

#[test]
fn up_to_date_by_prefix() {
    assert!(is_up_to_date(Some("v1.0"), "v1.0.1"));
    assert!(is_up_to_date(Some("v2.0"), "v2.0"));
    assert!(!is_up_to_date(Some("v1.0"), "v2.0"));
    assert!(!is_up_to_date(Some("v1.0.1"), "v1.0"));
    assert!(!is_up_to_date(None, "v1.0"));
    assert!(is_up_to_date(Some(""), "v1.0"));
}

#[test]
fn classify_by_name() {
    assert_eq!(classify_asset("tool-x64.zip"), Some(Architecture::X64));
    assert_eq!(classify_asset("tool-x86_64-linux.zip"), Some(Architecture::X64));
    assert_eq!(classify_asset("tool-ARM64.zip"), Some(Architecture::Arm64));
    assert_eq!(classify_asset("tool-aarch64.zip"), Some(Architecture::Arm64));
    assert_eq!(classify_asset("tool-arm64.zip"), None);
    assert_eq!(classify_asset("tool-linux.zip"), None);
    assert_eq!(classify_asset(""), None);
}

#[test]
fn classify_first_rule_wins() {
    assert_eq!(classify_asset("tool-ARM64-x64.zip"), Some(Architecture::X64));
    assert_eq!(classify_asset("aarch64-x86_64"), Some(Architecture::X64));
}

#[test]
fn architecture_directories() {
    assert_eq!(Architecture::X64.dir_name(), "X64");
    assert_eq!(Architecture::Arm64.dir_name(), "ARM64");
}

#[test]
fn archive_suffix() {
    assert!(is_archive("a.zip"));
    assert!(!is_archive("a.zip.sig"));
    assert!(!is_archive("zip"));
}

#[test]
fn selection_keeps_archives_with_architecture() {
    let assets = vec![
        asset("tool-x64.zip"),
        asset("tool-x64.tar.gz"),
        asset("tool-linux.zip"),
        asset("tool-aarch64.zip"),
        asset("tool-x86_64.zip"),
    ];
    let picked: Vec<(String, Architecture)> =
        select_assets(&assets).into_iter().map(|d| (d.name, d.arch)).collect();
    assert_eq!(
        picked,
        vec![
            ("tool-x64.zip".to_string(), Architecture::X64),
            ("tool-aarch64.zip".to_string(), Architecture::Arm64),
            ("tool-x86_64.zip".to_string(), Architecture::X64),
        ]
    );
}

#[test]
fn end_to_end_install_then_up_to_date() {
    let tools = load_registry(Some("acme/tool\n")).unwrap();
    assert_eq!(tools, vec![tool("acme", "tool")]);
    let release = ReleaseDescriptor { tag: "v2.0".to_string(), assets: vec![asset("tool-x64.zip")] };
    let plan = plan_update(None, &release);
    assert_eq!(
        plan,
        UpdatePlan::Install {
            tag: "v2.0".to_string(),
            downloads: vec![Download {
                name: "tool-x64.zip".to_string(),
                url: "https://example.com/tool-x64.zip".to_string(),
                arch: Architecture::X64,
            }],
        }
    );
    assert_eq!(arch_dir("/root", &tools[0].repo, Architecture::X64), "/root/tool/X64");
    assert_eq!(marker_path("/root", &tools[0].repo), "/root/tool/info.txt");
    let bytes = archive(&[("bin/tool", b"binary", Some(0o755))], &[]);
    let placed = extract_to_directory(bytes, "/root/tool/X64").unwrap();
    assert_eq!(file_paths(&placed), vec!["file /root/tool/X64/bin/tool".to_string()]);
    assert_eq!(plan_update(Some("v2.0"), &release), UpdatePlan::UpToDate);
}

#[test]
fn marker_not_matching_gives_install() {
    let release = ReleaseDescriptor { tag: "v3.0".to_string(), assets: vec![] };
    assert_eq!(
        plan_update(Some("v2.0"), &release),
        UpdatePlan::Install { tag: "v3.0".to_string(), downloads: vec![] }
    );
}

#[test]
fn extraction_skips_traversal() {
    let bytes = archive(
        &[("../../etc/passwd", b"evil", None), ("ok.txt", b"fine", None), ("/abs.txt", b"x", None)],
        &[],
    );
    let placed = extract_to_directory(bytes, "/dest").unwrap();
    assert_eq!(file_paths(&placed), vec!["file /dest/ok.txt".to_string()]);
}

#[test]
fn extraction_allows_inner_parent() {
    let bytes = archive(&[("a/../b.txt", b"b", None), ("a/../../c.txt", b"c", None)], &[]);
    let placed = extract_to_directory(bytes, "/dest/").unwrap();
    assert_eq!(file_paths(&placed), vec!["file /dest/a/../b.txt".to_string()]);
}

#[test]
fn extraction_directories_files_and_modes() {
    let bytes = archive(&[("sub/run.sh", b"#!/bin/sh\n", Some(0o755))], &["sub/"]);
    let placed = extract_to_directory(bytes, "/dest").unwrap();
    assert_eq!(
        file_paths(&placed),
        vec!["dir /dest/sub/".to_string(), "file /dest/sub/run.sh".to_string()]
    );
    match &placed[1] {
        Placement::File { content, mode, .. } => {
            assert_eq!(content, b"#!/bin/sh\n");
            assert_eq!(mode.unwrap() & 0o777, 0o755);
        }
        other => panic!("unexpected {:?}", other),
    }
}

#[test]
fn extraction_same_archive_same_result() {
    let bytes = archive(&[("x.txt", b"1", None), ("x.txt", b"2", None)], &["d/"]);
    let first = extract_to_directory(bytes.clone(), "/dest").unwrap();
    let second = extract_to_directory(bytes, "/dest").unwrap();
    assert_eq!(first, second);
}

#[test]
fn extraction_rejects_garbage() {
    assert!(matches!(extract_to_directory(vec![1, 2, 3], "/d"), Err(ToolError::ArchiveCorrupt(_))));
    assert!(matches!(extract_to_directory(vec![], "/d"), Err(ToolError::ArchiveCorrupt(_))));
}

#[test]
fn placing_entries_skips_unsafe_ones() {
    let entries = vec![
        ArchiveEntry { name: "../x".to_string(), enclosed: None, mode: None, content: vec![1] },
        ArchiveEntry {
            name: "y/".to_string(),
            enclosed: Some("y/".to_string()),
            mode: Some(0o40755),
            content: vec![],
        },
    ];
    assert_eq!(
        place_entries(&entries, "r"),
        vec![Placement::Directory { path: "r/y/".to_string(), mode: Some(0o40755) }]
    );
}

#[test]
fn paths_are_joined() {
    assert_eq!(join_path("", "a"), "a");
    assert_eq!(join_path("/x/", "a"), "/x/a");
    assert_eq!(join_path("/x", "a"), "/x/a");
    assert_eq!(tool_dir("/t", "tool"), "/t/tool");
    assert_eq!(registry_path("/t"), "/t/tools.txt");
}

#[test]
fn request_parts() {
    assert_eq!(
        latest_release_url("acme", "tool"),
        "https://api.github.com/repos/acme/tool/releases/latest"
    );
    assert_eq!(authorization("abc"), "token abc");
}

#[test]
fn statuses() {
    assert_eq!(status_error(200), None);
    assert_eq!(status_error(401), Some(ToolError::AuthenticationError));
    assert_eq!(status_error(403), Some(ToolError::AuthenticationError));
    assert_eq!(status_error(404), Some(ToolError::NotFound));
    assert!(matches!(status_error(500), Some(ToolError::TransportError(_))));
}

#[test]
fn credentials() {
    let given = Args { user: "u".to_string(), token: Some("t".to_string()), path: None };
    assert_eq!(credential_step(&given), CredentialStep::Save("t".to_string()));
    let bare = Args { user: "u".to_string(), token: None, path: Some("/w".to_string()) };
    assert_eq!(credential_step(&bare), CredentialStep::Load);
    assert_eq!(credential_from_store(StoredCredential::Found("s".to_string())), Ok("s".to_string()));
    assert_eq!(credential_from_store(StoredCredential::NoEntry), Err(ToolError::CredentialMissing));
    assert_eq!(
        credential_from_store(StoredCredential::Failed("locked".to_string())),
        Err(ToolError::CredentialStoreError("locked".to_string()))
    );
}

#[test]
fn working_directory() {
    let bare = Args { user: "u".to_string(), token: None, path: None };
    assert_eq!(bare.path("/cwd"), "/cwd");
    let given = Args { user: "u".to_string(), token: None, path: Some("/w".to_string()) };
    assert_eq!(given.path("/cwd"), "/w");
}

#[test]
fn steps_write_marker_before_installs() {
    let release = ReleaseDescriptor {
        tag: "v2.0".to_string(),
        assets: vec![asset("tool-x64.zip"), asset("notes.txt"), asset("tool-aarch64.zip")],
    };
    assert_eq!(
        tool_steps("/root", "tool", None, &release),
        vec![
            Step::WriteMarker { path: "/root/tool/info.txt".to_string(), tag: "v2.0".to_string() },
            Step::Install {
                dir: "/root/tool/X64".to_string(),
                url: "https://example.com/tool-x64.zip".to_string(),
                name: "tool-x64.zip".to_string(),
            },
            Step::Install {
                dir: "/root/tool/ARM64".to_string(),
                url: "https://example.com/tool-aarch64.zip".to_string(),
                name: "tool-aarch64.zip".to_string(),
            },
        ]
    );
    assert_eq!(
        tool_steps("/root", "tool", Some("v2.0"), &release),
        vec![Step::Current { tag: "v2.0".to_string() }]
    );
}

#[test]
fn enclosed_paths() {
    assert!(is_enclosed_path("a/b.txt"));
    assert!(is_enclosed_path("a/../b"));
    assert!(is_enclosed_path("./a//b/"));
    assert!(is_enclosed_path(""));
    assert!(!is_enclosed_path("../x"));
    assert!(!is_enclosed_path("a/../../x"));
    assert!(!is_enclosed_path("/etc/passwd"));
    assert!(!is_enclosed_path("a\0b"));
    assert!(!is_enclosed_path("a\\b/../.."));
}

#[test]
fn placing_entries_applies_own_rule() {
    let entries = vec![
        ArchiveEntry {
            name: "a\\b/../..".to_string(),
            enclosed: Some("a\\b/../..".to_string()),
            mode: None,
            content: vec![1],
        },
        ArchiveEntry {
            name: "../up".to_string(),
            enclosed: Some("../up".to_string()),
            mode: None,
            content: vec![2],
        },
        ArchiveEntry {
            name: "in.txt".to_string(),
            enclosed: Some("in.txt".to_string()),
            mode: None,
            content: vec![3],
        },
    ];
    assert_eq!(
        place_entries(&entries, "/r"),
        vec![Placement::File { path: "/r/in.txt".to_string(), content: vec![3], mode: None }]
    );
}

#[test]
fn failed_lookup_skips_tool() {
    assert_eq!(after_lookup(Err(ToolError::NotFound)), LookupOutcome::Skip(ToolError::NotFound));
    let release = ReleaseDescriptor { tag: "v1".to_string(), assets: vec![] };
    assert_eq!(after_lookup(Ok(release.clone())), LookupOutcome::Proceed(release));
}
