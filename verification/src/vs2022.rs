//! Visual Studio 2022: the installer command that installs the C++ build
//! tools into a package directory, the choice of what the package keeps of
//! the Windows SDKs, and the environment files written beside it.
use vstd::prelude::*;
use crate::envsort::{entry_views, sort_by_name, stably_sorted};
use crate::text::{append, chars_of, join, join_chars, same_chars, split, split_chars, string_of,
    views};

verus! {

/// Where the build-tools installer is downloaded from.
pub const INSTALLER_URL: &'static str = "https://aka.ms/vs/17/release/vs_buildtools.exe";

/// File name of the downloaded installer.
pub const INSTALLER_FILE: &'static str = "vs_buildtools.exe";

/// Name of the package directory.
pub const PACKAGE_DIR: &'static str = "ms_buildtools";

/// Directory inside the package that receives the installation.
pub const INSTALL_SUBDIR: &'static str = "2022";

/// The Windows SDK version that the package keeps.
pub const SDK_VERSION: &'static str = "10.0.19041.0";

/// Pattern of the SDK version directories beside the kept one.
pub const SDK_SIBLINGS: &'static str = "*.0";

/// Environment variable naming the 32-bit program files directory.
pub const PROGRAM_FILES_X86_VAR: &'static str = "ProgramFiles(x86)";

/// Directory of the Windows SDKs, copied into the package.
pub const WINDOWS_KITS: &'static str = "Windows Kits";

/// Name of the script that opens a developer environment.
pub const MSDEV_FILE: &'static str = "msdev.bat";

/// Extension of the environment files.
pub const ENV_EXT: &'static str = ".env";

/// Name of the compressed package.
pub const ZIP_FILE: &'static str = "ms_buildtools.zip";

/// The options of the installer: install quietly, without cache, waiting for
/// the end, into `install_path`, with the C++ build tools and the Windows 10
/// SDK 10.0.19041.
pub open spec fn installer_args(installer: Seq<char>, install_path: Seq<char>) -> Seq<Seq<char>> {
    seq![
        installer,
        "--nocache"@,
        "--quiet"@,
        "--wait"@,
        "--installPath "@ + install_path,
        "--add Microsoft.VisualStudio.Workload.VCTools"@,
        "--add Microsoft.Component.MSBuild"@,
        "--add Microsoft.VisualStudio.Component.Roslyn.Compiler"@,
        "--add Microsoft.VisualStudio.Component.TextTemplating"@,
        "--add Microsoft.VisualStudio.Component.VC.CoreIde"@,
        "--add Microsoft.VisualStudio.Component.VC.Redist.14.Latest"@,
        "--add Microsoft.VisualStudio.ComponentGroup.NativeDesktop.Core"@,
        "--add Microsoft.VisualStudio.Component.VC.Tools.x86.x64"@,
        "--add Microsoft.VisualStudio.ComponentGroup.NativeDesktop.Win81"@,
        "--add Microsoft.VisualStudio.Component.Windows10SDK.19041"@
    ]
}

/// The installer command line: its arguments joined by single spaces.
pub open spec fn install_command_spec(installer: Seq<char>, install_path: Seq<char>) -> Seq<char> {
    join(installer_args(installer, install_path), " "@)
}

/// The directories, relative to the package and `/`-separated, that the
/// package drops after installation.
pub open spec fn unwanted_paths() -> Seq<Seq<char>> {
    seq![
        "Windows Kits/10/Windows Performance Toolkit"@,
        "Windows Kits/10/Testing"@,
        "Windows Kits/10/References"@,
        "2022/Common7/IDE/CommonExtensions"@,
        "2022/Common7/IDE/Extensions"@
    ]
}

/// The command line that installs the build tools with `installer` into
/// `install_path`.
pub fn install_command(installer: &str, install_path: &str) -> (r: String)
    ensures
        r@ == install_command_spec(installer@, install_path@),
{
    let mut parts: Vec<Vec<char>> = Vec::new();
    parts.push(chars_of(installer));
    parts.push(chars_of("--nocache"));
    parts.push(chars_of("--quiet"));
    parts.push(chars_of("--wait"));
    let mut target = chars_of("--installPath ");
    append(&mut target, &chars_of(install_path));
    parts.push(target);
    parts.push(chars_of("--add Microsoft.VisualStudio.Workload.VCTools"));
    parts.push(chars_of("--add Microsoft.Component.MSBuild"));
    parts.push(chars_of("--add Microsoft.VisualStudio.Component.Roslyn.Compiler"));
    parts.push(chars_of("--add Microsoft.VisualStudio.Component.TextTemplating"));
    parts.push(chars_of("--add Microsoft.VisualStudio.Component.VC.CoreIde"));
    parts.push(chars_of("--add Microsoft.VisualStudio.Component.VC.Redist.14.Latest"));
    parts.push(chars_of("--add Microsoft.VisualStudio.ComponentGroup.NativeDesktop.Core"));
    parts.push(chars_of("--add Microsoft.VisualStudio.Component.VC.Tools.x86.x64"));
    parts.push(chars_of("--add Microsoft.VisualStudio.ComponentGroup.NativeDesktop.Win81"));
    parts.push(chars_of("--add Microsoft.VisualStudio.Component.Windows10SDK.19041"));
    assert(views(parts@) == installer_args(installer@, install_path@));
    let joined = join_chars(&parts, &chars_of(" "));
    string_of(&joined)
}

/// The components of each directory that the package drops, relative to
/// the package directory.
pub fn unwanted_dirs() -> (r: Vec<Vec<String>>)
    ensures
        r.len() == unwanted_paths().len(),
        forall|i: int|
            0 <= i < r.len() ==> (#[trigger] r@[i])@.map_values(|s: String| s@) == split(
                unwanted_paths()[i],
                '/',
            ),
{
    let mut paths: Vec<Vec<char>> = Vec::new();
    paths.push(chars_of("Windows Kits/10/Windows Performance Toolkit"));
    paths.push(chars_of("Windows Kits/10/Testing"));
    paths.push(chars_of("Windows Kits/10/References"));
    paths.push(chars_of("2022/Common7/IDE/CommonExtensions"));
    paths.push(chars_of("2022/Common7/IDE/Extensions"));
    assert(views(paths@) == unwanted_paths());
    let mut out: Vec<Vec<String>> = Vec::new();
    let mut i: usize = 0;
    while i < paths.len()
        invariant
            i <= paths.len(),
            views(paths@) == unwanted_paths(),
            out.len() == i,
            forall|m: int|
                0 <= m < i ==> (#[trigger] out@[m])@.map_values(|s: String| s@) == split(
                    unwanted_paths()[m],
                    '/',
                ),
        decreases paths.len() - i,
    {
        let pieces = split_chars(&paths[i], '/');
        let mut names: Vec<String> = Vec::new();
        let mut j: usize = 0;
        while j < pieces.len()
            invariant
                j <= pieces.len(),
                names@.map_values(|s: String| s@) == views(pieces@).take(j as int),
            decreases pieces.len() - j,
        {
            let ghost old_names = names@;
            names.push(string_of(&pieces[j]));
            assert(names@.map_values(|s: String| s@) == old_names.map_values(|s: String| s@).push(
                pieces@[j as int]@,
            ));
            assert(views(pieces@).take(j + 1) == views(pieces@).take(j as int).push(
                pieces@[j as int]@,
            ));
            j += 1;
        }
        assert(views(pieces@).take(pieces.len() as int) == views(pieces@));
        out.push(names);
        i += 1;
    }
    out
}

/// A directory found under the package is the kept SDK version: it is a
/// directory and its name, readable as text, is the kept version.
pub open spec fn is_kept_sdk_spec(is_dir: bool, name: Option<Seq<char>>) -> bool {
    is_dir && name == Some(SDK_VERSION@)
}

/// A sibling of the kept SDK version is removed: its name is readable as
/// text and is not the kept version.
pub open spec fn removes_sdk_sibling_spec(name: Option<Seq<char>>) -> bool {
    match name {
        Some(n) => n != SDK_VERSION@,
        None => false,
    }
}

/// The text of an optional name.
pub open spec fn opt_view(name: Option<&str>) -> Option<Seq<char>> {
    match name {
        Some(n) => Some(n@),
        None => None,
    }
}

/// Whether a directory entry is the kept SDK version directory; `name` is
/// the entry's last path component, `None` where it is not valid Unicode.
pub fn is_kept_sdk(is_dir: bool, name: Option<&str>) -> (r: bool)
    ensures
        r == is_kept_sdk_spec(is_dir, opt_view(name)),
{
    if !is_dir {
        return false;
    }
    match name {
        Some(n) => same_chars(&chars_of(n), &chars_of(SDK_VERSION)),
        None => false,
    }
}

/// Whether an SDK directory beside the kept version is removed; `name` is
/// its last path component, `None` where it is not valid Unicode.
pub fn removes_sdk_sibling(name: Option<&str>) -> (r: bool)
    ensures
        r == removes_sdk_sibling_spec(opt_view(name)),
{
    match name {
        Some(n) => !same_chars(&chars_of(n), &chars_of(SDK_VERSION)),
        None => false,
    }
}

/// The kept SDK version is never removed: a directory that is the kept
/// version is not a sibling that the package drops.
pub proof fn lemma_kept_sdk_never_removed(is_dir: bool, name: Option<Seq<char>>)
    requires
        is_kept_sdk_spec(is_dir, name),
    ensures
        !removes_sdk_sibling_spec(name),
{
}

/// A sibling SDK directory is removed exactly when its name is readable and
/// differs from the kept version, whatever version it names.
pub proof fn lemma_removes_every_other_version(name: Option<Seq<char>>)
    ensures
        name is None ==> !removes_sdk_sibling_spec(name),
        forall|n: Seq<char>| n != SDK_VERSION@ ==> #[trigger] removes_sdk_sibling_spec(Some(n)),
        !removes_sdk_sibling_spec(Some(SDK_VERSION@)),
        name is Some ==> (removes_sdk_sibling_spec(name) <==> !is_kept_sdk_spec(true, name)),
{
}

/// One line of an environment file: `name=value` and a newline.
pub open spec fn env_line_spec(name: Seq<char>, value: Seq<char>) -> Seq<char> {
    name + seq!['='] + value + seq!['\n']
}

/// One line of an environment file.
pub fn env_line(name: &str, value: &str) -> (r: String)
    ensures
        r@ == env_line_spec(name@, value@),
{
    let mut out = chars_of(name);
    out.push('=');
    append(&mut out, &chars_of(value));
    out.push('\n');
    string_of(&out)
}

/// A line holds the name and the value verbatim: it starts with `name=`,
/// ends with a newline, and what lies between is exactly the value,
/// whatever its last character.
pub proof fn lemma_env_line_holds_value(name: Seq<char>, value: Seq<char>)
    ensures
        env_line_spec(name, value).len() == name.len() + value.len() + 2,
        env_line_spec(name, value).take(name.len() as int) == name,
        env_line_spec(name, value)[name.len() as int] == '=',
        env_line_spec(name, value).subrange(
            name.len() + 1int,
            env_line_spec(name, value).len() - 1,
        ) == value,
        env_line_spec(name, value).last() == '\n',
{
    let l = env_line_spec(name, value);
    assert(l.take(name.len() as int) == name);
    assert(l.subrange(name.len() + 1int, l.len() - 1) == value);
}

/// Name of the environment file of a developer prompt.
pub fn env_file_name(prompt: &str) -> (r: String)
    ensures
        r@ == prompt@ + ENV_EXT@,
{
    let mut out = chars_of(prompt);
    append(&mut out, &chars_of(ENV_EXT));
    string_of(&out)
}

/// The lines of the environment file of a developer prompt: its variables
/// sorted stably by name, one `name=value` line each.
pub fn env_file_lines(envs: &Vec<(String, String)>) -> (r: Vec<String>)
    ensures
        exists|s: Seq<(Seq<char>, Seq<char>)>|
            #![trigger stably_sorted(s, entry_views(envs@))]
            stably_sorted(s, entry_views(envs@)) && r.len() == s.len() && forall|i: int|
                0 <= i < s.len() ==> (#[trigger] r@[i])@ == env_line_spec(s[i].0, s[i].1),
{
    let sorted = sort_by_name(envs);
    let ghost s = entry_views(sorted@);
    let mut out: Vec<String> = Vec::new();
    let mut i: usize = 0;
    while i < sorted.len()
        invariant
            i <= sorted.len(),
            s == entry_views(sorted@),
            out.len() == i,
            forall|m: int| 0 <= m < i ==> (#[trigger] out@[m])@ == env_line_spec(s[m].0, s[m].1),
        decreases sorted.len() - i,
    {
        out.push(env_line(sorted[i].0.as_str(), sorted[i].1.as_str()));
        i += 1;
    }
    out
}

/// `msdev.bat`: calls the `vcvars` script of the requested target; `x86`,
/// `cx86` and `cx64` pick the x86 and the two cross prompts, anything else
/// the x64 one.
pub const MSDEV_SCRIPT: &'static str = r#"
@echo off

set "SCRIPT_DIR=%~dp0."

if "%1" == "x86" (
    REM x86 Native Tools Command Prompt for VS 2022
    call "%SCRIPT_DIR%\2022\VC\Auxiliary\Build\vcvars32.bat"
) else if "%1" == "cx86" (
    REM x64_x86 Cross Tools Command Prompt for VS 2022
    call "%SCRIPT_DIR%\2022\VC\Auxiliary\Build\vcvarsamd64_x86.bat"
) else if "%1" == "cx64" (
    REM x86_x64 Cross Tools Command Prompt for VS 2022
    call "%SCRIPT_DIR%\2022\VC\Auxiliary\Build\vcvarsx86_amd64.bat"
) else (
    REM x64 Native Tools Command Prompt for VS 2022
    call "%SCRIPT_DIR%\2022\VC\Auxiliary\Build\vcvars64.bat"
)

exit /b 0
"#;

} // verus!
