use vs_buildtools::{vs2013, vs2022, vsenv, winpath};
use vs_buildtools::winpath::PathSyntax::{Unix, Windows};

fn owned(v: &[&str]) -> Vec<String> {
    v.iter().map(|s| s.to_string()).collect()
}

/// The script computed with the standard string methods, line by line.
fn reference_script(profile: &str) -> String {
    let mut out = String::from("@echo off\r\n");
    for line in profile.trim().replace(r"C:\", "%~dp0").lines() {
        let mut line = line.trim().to_string();
        if line.starts_with("Path=") {
            line += ";%PATH%";
        }
        out.push_str(&format!("set \"{line}\"\r\n"));
    }
    out
}

#[test]
fn profile_script_example() {
    let profile = "\n  A=C:\\x\n  Path=C:\\p;C:\\q\n   \n";
    assert_eq!(
        vs2013::profile_script(profile),
        "@echo off\r\nset \"A=%~dp0x\"\r\nset \"Path=%~dp0p;%~dp0q;%PATH%\"\r\n"
    );
}

#[test]
fn profile_script_of_empty_profile() {
    assert_eq!(vs2013::profile_script(""), "@echo off\r\n");
    assert_eq!(vs2013::profile_script("  \n "), "@echo off\r\n");
}

#[test]
fn profile_scripts_match_reference() {
    for p in [vs2013::CMD_PROFILE_X86, vs2013::CMD_PROFILE_X64, "a\r\n b \r\nPath=x\n"] {
        assert_eq!(vs2013::profile_script(p), reference_script(p));
    }
}

#[test]
fn profile_scripts_hold_no_drive_prefix() {
    for p in [vs2013::CMD_PROFILE_X86, vs2013::CMD_PROFILE_X64, "CC:\\:\\"] {
        assert!(!vs2013::profile_script(p).contains("C:\\"));
    }
}

#[test]
fn x64_script_sets_path_with_inherited_path() {
    let script = vs2013::profile_script(vs2013::CMD_PROFILE_X64);
    let path_line = script.lines().find(|l| l.starts_with("set \"Path=")).unwrap();
    assert!(path_line.ends_with(";%PATH%\""));
    assert!(path_line.starts_with("set \"Path=%~dp0Program Files (x86)"));
    assert_eq!(script.lines().count(), 1 + vs2013::CMD_PROFILE_X64.trim().lines().count());
}

#[test]
fn source_dirs_targets() {
    let expected = [
        vec!["Program Files (x86)"],
        vec!["Program Files (x86)", "Microsoft SDKs"],
        vec!["Program Files (x86)"],
        vec!["Program Files (x86)"],
        vec!["Windows", "Microsoft.NET"],
    ];
    for (dir, want) in vs2013::SOURCE_DIRS.iter().zip(expected.iter()) {
        assert!(!winpath::is_unc_like_path(dir));
        assert_eq!(winpath::target_subdirs(dir, Windows), Some(owned(want)), "{dir}");
    }
}

#[test]
fn target_subdirs_forms() {
    assert_eq!(winpath::target_subdirs("C:/x/y/z", Windows), Some(owned(&["x", "y"])));
    assert_eq!(winpath::target_subdirs("C:\\x\\.\\y\\z", Windows), Some(owned(&["x", "y"])));
    assert_eq!(winpath::target_subdirs("C:\\x\\\\y\\z\\", Windows), Some(owned(&["x", "y"])));
    assert_eq!(winpath::target_subdirs("a\\b\\c\\d", Windows), Some(owned(&["c"])));
    assert_eq!(winpath::target_subdirs("c:x\\y\\z", Windows), Some(owned(&["y"])));
    assert_eq!(winpath::target_subdirs(".\\a\\b\\c", Windows), Some(owned(&["b"])));
    assert_eq!(winpath::target_subdirs("C:\\..\\a\\b", Windows), Some(owned(&["..", "a"])));
}

#[test]
fn target_subdirs_none_when_copy_lands_in_package_root() {
    for dir in ["C:\\MSBuild", "C:\\", "C:", "", "a\\b\\c", "\\x\\y"] {
        assert_eq!(winpath::target_subdirs(dir, Windows), None, "{dir}");
    }
}

#[test]
fn unc_like_paths() {
    assert!(winpath::is_unc_like_path("\\\\server\\share"));
    assert!(winpath::is_unc_like_path("//?/C:/x"));
    assert!(!winpath::is_unc_like_path("\\x"));
    assert!(!winpath::is_unc_like_path("C:\\x"));
}

#[test]
fn install_command_line() {
    let got = vs2022::install_command("D:\\w\\vs_buildtools.exe", "D:\\w\\ms_buildtools\\2022");
    let expected = [
        "D:\\w\\vs_buildtools.exe",
        "--nocache",
        "--quiet",
        "--wait",
        "--installPath D:\\w\\ms_buildtools\\2022",
        "--add Microsoft.VisualStudio.Workload.VCTools",
        "--add Microsoft.Component.MSBuild",
        "--add Microsoft.VisualStudio.Component.Roslyn.Compiler",
        "--add Microsoft.VisualStudio.Component.TextTemplating",
        "--add Microsoft.VisualStudio.Component.VC.CoreIde",
        "--add Microsoft.VisualStudio.Component.VC.Redist.14.Latest",
        "--add Microsoft.VisualStudio.ComponentGroup.NativeDesktop.Core",
        "--add Microsoft.VisualStudio.Component.VC.Tools.x86.x64",
        "--add Microsoft.VisualStudio.ComponentGroup.NativeDesktop.Win81",
        "--add Microsoft.VisualStudio.Component.Windows10SDK.19041",
    ]
    .join(" ");
    assert_eq!(got, expected);
}

#[test]
fn kept_sdk_selection() {
    assert!(vs2022::is_kept_sdk(true, Some("10.0.19041.0")));
    assert!(!vs2022::is_kept_sdk(false, Some("10.0.19041.0")));
    assert!(!vs2022::is_kept_sdk(true, Some("10.0.22000.0")));
    assert!(!vs2022::is_kept_sdk(true, None));
}

#[test]
fn sdk_siblings_removed_but_kept_version() {
    assert!(vs2022::removes_sdk_sibling(Some("10.0.22000.0")));
    assert!(vs2022::removes_sdk_sibling(Some("8.0")));
    assert!(!vs2022::removes_sdk_sibling(Some("10.0.19041.0")));
    assert!(!vs2022::removes_sdk_sibling(None));
}

#[test]
fn unwanted_dirs_components() {
    let got = vs2022::unwanted_dirs();
    let expected = vec![
        owned(&["Windows Kits", "10", "Windows Performance Toolkit"]),
        owned(&["Windows Kits", "10", "Testing"]),
        owned(&["Windows Kits", "10", "References"]),
        owned(&["2022", "Common7", "IDE", "CommonExtensions"]),
        owned(&["2022", "Common7", "IDE", "Extensions"]),
    ];
    assert_eq!(got, expected);
}

#[test]
fn env_lines_and_names() {
    assert_eq!(vs2022::env_line("A", "1"), "A=1\n");
    assert_eq!(vs2022::env_line("", "x=y"), "=x=y\n");
    assert_eq!(vs2022::env_file_name("x64 Native Tools"), "x64 Native Tools.env");
}

#[test]
fn env_file_lines_sorted_stably() {
    let envs = vec![
        ("b".to_string(), "1".to_string()),
        ("a".to_string(), "2".to_string()),
        ("b".to_string(), "0".to_string()),
        ("A".to_string(), "3".to_string()),
    ];
    assert_eq!(vs2022::env_file_lines(&envs), owned(&["A=3\n", "a=2\n", "b=1\n", "b=0\n"]));
    let mut reference = envs.clone();
    reference.sort_by_key(|x| x.0.clone());
    assert_eq!(vs_buildtools::envsort::sort_by_name(&envs), reference);
    assert!(vs2022::env_file_lines(&vec![]).is_empty());
}

#[test]
fn env_query_command_exits() {
    assert_eq!(
        vsenv::env_query_command("/k \"C:\\vcvars64.bat\""),
        "cmd /c \"C:\\vcvars64.bat\" && set"
    );
    assert_eq!(vsenv::env_query_command(""), "cmd  && set");
    assert_eq!(vsenv::env_query_command("/k"), "cmd /k && set");
}

#[test]
fn env_output_parsed() {
    let got = vsenv::parse_env_output("/k x", "A=1\r\nnoeq\nB=2=3\n\nC=\n");
    let expected = vec![
        ("VSCMD".to_string(), "/k x".to_string()),
        ("A".to_string(), "1".to_string()),
        ("B".to_string(), "2=3".to_string()),
        ("C".to_string(), "".to_string()),
    ];
    assert_eq!(got, expected);
    assert_eq!(vsenv::parse_env_output("a", ""), vec![("VSCMD".to_string(), "a".to_string())]);
}

#[test]
fn source_dirs_have_no_target_on_unix_hosts() {
    for dir in vs2013::SOURCE_DIRS {
        assert_eq!(winpath::target_subdirs(dir, Unix), None, "{dir}");
    }
}

#[test]
fn target_subdirs_unix_forms() {
    assert_eq!(winpath::target_subdirs("/a/b/c/d", Unix), Some(owned(&["b", "c"])));
    assert_eq!(winpath::target_subdirs("a/b/c\\x/d", Unix), Some(owned(&["c\\x"])));
    assert_eq!(winpath::target_subdirs("./a/b/c", Unix), Some(owned(&["b"])));
    assert_eq!(winpath::target_subdirs("//a/./b//c/", Unix), Some(owned(&["b"])));
    assert_eq!(winpath::target_subdirs("C:/x/y/z", Unix), Some(owned(&["y"])));
    assert_eq!(winpath::target_subdirs("/a/b", Unix), None);
    assert_eq!(winpath::target_subdirs("\\\\server\\share\\x", Unix), None);
}
