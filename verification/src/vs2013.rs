//! Visual Studio 2013: the layout of the package built from an existing
//! installation, and the batch scripts that set up its environment.
//!
//! The package is made from an installation of `vs2013.5_ce_enu.iso`
//! (installed with `vs_community.exe /NoRestart /Passive /noweb /NoRefresh
//! /Quiet /Full`); the scripts point every `C:\` path of the recorded
//! environments at the directory that holds the script.
use vstd::prelude::*;
use crate::text::{
    append, boundary_safe, chars_of, contains, is_piece_of, is_whitespace, lemma_absent_first_char,
    lemma_replace_absent, lemma_single_line, lemma_trim_fixed,
    lemma_concat_keeps_absence, lemma_lines_pieces, lemma_piece_keeps_absence,
    lemma_replace_removes, lemma_trim_piece, lines, lines_chars, no_overlap, replace,
    replace_chars, starts_with, starts_with_chars, string_of, trim, trim_chars, views,
};

verus! {

/// Name of the package directory made under the chosen location.
pub const PACKAGE_DIR: &'static str = "ms_buidtools_vs2013_community";

/// The directories of an existing installation that the package copies,
/// each under the package directory at its own parent path without drive.
pub const SOURCE_DIRS: [&'static str; 5] = [
    "C:\\Program Files (x86)\\MSBuild",
    "C:\\Program Files (x86)\\Microsoft SDKs\\Windows",
    "C:\\Program Files (x86)\\Microsoft Visual Studio 12.0",
    "C:\\Program Files (x86)\\Windows Kits",
    "C:\\Windows\\Microsoft.NET\\Framework",
];

/// File name of the x86 environment script.
pub const X86_SCRIPT: &'static str = "x86.bat";

/// File name of the x64 environment script.
pub const X64_SCRIPT: &'static str = "x64.bat";

/// First line of every generated script.
pub const SCRIPT_HEADER: &'static str = "@echo off\r\n";

/// The drive prefix that the scripts replace.
pub const DRIVE_PREFIX: &'static str = "C:\\";

/// What a drive prefix becomes: the directory of the running batch script.
pub const SCRIPT_DIR: &'static str = "%~dp0";

/// Start of the variable whose value is extended with the inherited one.
pub const PATH_ASSIGN: &'static str = "Path=";

/// What is appended to the `Path=` assignment.
pub const PATH_SUFFIX: &'static str = ";%PATH%";

/// Start of each `set` command.
pub const SET_OPEN: &'static str = "set \"";

/// End of each `set` command.
pub const SET_CLOSE: &'static str = "\"\r\n";

/// The value that one profile line assigns: the line trimmed, and for the
/// `Path=` line the inherited `%PATH%` appended.
pub open spec fn profile_value(line: Seq<char>) -> Seq<char> {
    let l = trim(line);
    if starts_with(l, PATH_ASSIGN@) {
        l + PATH_SUFFIX@
    } else {
        l
    }
}

/// The `set` command for one profile line.
pub open spec fn set_command(line: Seq<char>) -> Seq<char> {
    SET_OPEN@ + profile_value(line) + SET_CLOSE@
}

/// The lines of a profile once it is trimmed and every `C:\` in it points at
/// the script's directory.
pub open spec fn relocated_lines(profile: Seq<char>) -> Seq<Seq<char>> {
    lines(replace(trim(profile), DRIVE_PREFIX@, SCRIPT_DIR@))
}

/// The batch script for a profile: the header, then one `set` command per
/// relocated line, in order.
pub open spec fn profile_script_spec(profile: Seq<char>) -> Seq<char> {
    SCRIPT_HEADER@ + relocated_lines(profile).map_values(|l: Seq<char>| set_command(l)).flatten()
}

/// The value that one profile line assigns (see [`profile_value`]).
pub fn profile_value_chars(line: &Vec<char>) -> (r: Vec<char>)
    ensures
        r@ == profile_value(line@),
{
    let mut l = trim_chars(line);
    let path_assign = chars_of(PATH_ASSIGN);
    if starts_with_chars(&l, &path_assign) {
        let suffix = chars_of(PATH_SUFFIX);
        append(&mut l, &suffix);
    }
    l
}

/// The batch script that sets the environment recorded in `profile`, with
/// every `C:\` replaced by the script's own directory.
pub fn profile_script(profile: &str) -> (r: String)
    ensures
        r@ == profile_script_spec(profile@),
{
    let mut out = chars_of(SCRIPT_HEADER);
    let trimmed = trim_chars(&chars_of(profile));
    let pat = chars_of(DRIVE_PREFIX);
    let rep = chars_of(SCRIPT_DIR);
    proof {
        reveal_strlit("C:\\");
    }
    let relocated = replace_chars(&trimmed, &pat, &rep);
    let ls = lines_chars(&relocated);
    let open = chars_of(SET_OPEN);
    let close = chars_of(SET_CLOSE);
    let ghost cmds = views(ls@).map_values(|l: Seq<char>| set_command(l));
    let mut i: usize = 0;
    while i < ls.len()
        invariant
            i <= ls.len(),
            open@ == SET_OPEN@,
            close@ == SET_CLOSE@,
            cmds == views(ls@).map_values(|l: Seq<char>| set_command(l)),
            out@ == SCRIPT_HEADER@ + cmds.take(i as int).flatten(),
        decreases ls.len() - i,
    {
        let value = profile_value_chars(&ls[i]);
        append(&mut out, &open);
        append(&mut out, &value);
        append(&mut out, &close);
        proof {
            assert(cmds.take(i + 1) == cmds.take(i as int).push(cmds[i as int]));
            cmds.take(i as int).lemma_flatten_push(cmds[i as int]);
        }
        i += 1;
    }
    assert(cmds.take(ls.len() as int) == cmds);
    string_of(&out)
}

proof fn lemma_drive_prefix_chars()
    ensures
        DRIVE_PREFIX@ == seq!['C', ':', '\\'],
        DRIVE_PREFIX@.take(2) == seq!['C', ':'],
        DRIVE_PREFIX@.skip(1) == seq![':', '\\'],
{
    reveal_strlit("C:\\");
    assert(DRIVE_PREFIX@.take(2) == seq!['C', ':']);
    assert(DRIVE_PREFIX@.skip(1) == seq![':', '\\']);
}

/// A `set` command built from a line without `C:\` holds no `C:\` and ends
/// with a newline.
proof fn lemma_set_command_clean(l: Seq<char>)
    requires
        !contains(l, DRIVE_PREFIX@),
    ensures
        !contains(set_command(l), DRIVE_PREFIX@),
        set_command(l).len() > 0,
        set_command(l).last() == '\n',
{
    let p = DRIVE_PREFIX@;
    lemma_drive_prefix_chars();
    reveal_strlit("set \"");
    reveal_strlit("\"\r\n");
    reveal_strlit(";%PATH%");
    let t = trim(l);
    lemma_trim_piece(l);
    lemma_piece_keeps_absence(t, l, p);
    let open = SET_OPEN@;
    let close = SET_CLOSE@;
    let suffix = PATH_SUFFIX@;
    assert(!open.contains('C')) by {
        assert(open == seq!['s', 'e', 't', ' ', '"']);
    }
    assert(!close.contains('C')) by {
        assert(close == seq!['"', '\r', '\n']);
    }
    assert(!suffix.contains('C')) by {
        assert(suffix == seq![';', '%', 'P', 'A', 'T', 'H', '%']);
    }
    lemma_absent_first_char(open, p);
    lemma_absent_first_char(close, p);
    lemma_absent_first_char(suffix, p);
    let v = profile_value(l);
    if starts_with(t, PATH_ASSIGN@) {
        assert(suffix[0] == ';');
        assert(!p.skip(1).contains(';'));
        assert(boundary_safe(t, suffix, p));
        lemma_concat_keeps_absence(t, suffix, p);
    }
    assert(!contains(v, p));
    assert(open.last() == '"');
    assert(!p.take(2).contains('"'));
    assert(boundary_safe(open, v, p));
    lemma_concat_keeps_absence(open, v, p);
    assert(close[0] == '"');
    assert(!p.skip(1).contains('"'));
    assert(boundary_safe(open + v, close, p));
    lemma_concat_keeps_absence(open + v, close, p);
    assert(set_command(l) == open + v + close);
    assert(set_command(l).last() == close.last());
}

/// Commands without `C:\` that each end with a newline join into a text
/// without `C:\`.
proof fn lemma_commands_clean(cs: Seq<Seq<char>>)
    requires
        forall|i: int|
            0 <= i < cs.len() ==> !contains(#[trigger] cs[i], DRIVE_PREFIX@) && cs[i].len() > 0
                && cs[i].last() == '\n',
    ensures
        !contains(cs.flatten(), DRIVE_PREFIX@),
        cs.len() > 0 ==> cs.flatten().len() > 0 && cs.flatten().last() == '\n',
    decreases cs.len(),
{
    let p = DRIVE_PREFIX@;
    lemma_drive_prefix_chars();
    if cs.len() == 0 {
        assert(cs.flatten() == Seq::<char>::empty());
        lemma_absent_first_char(cs.flatten(), p);
    } else {
        let init = cs.drop_last();
        let c = cs.last();
        lemma_commands_clean(init);
        assert(cs == init.push(c));
        init.lemma_flatten_push(c);
        assert(cs.flatten() == init.flatten() + c);
        assert(!contains(c, p));
        if init.len() > 0 {
            assert(!p.take(2).contains('\n'));
        }
        assert(boundary_safe(init.flatten(), c, p));
        lemma_concat_keeps_absence(init.flatten(), c, p);
    }
}

/// Every `C:\` of the recorded environment is relocated: the generated
/// script holds no `C:\` at all, whatever the profile.
pub proof fn lemma_script_has_no_drive_prefix(profile: Seq<char>)
    ensures
        !contains(profile_script_spec(profile), DRIVE_PREFIX@),
{
    let p = DRIVE_PREFIX@;
    let rep = SCRIPT_DIR@;
    lemma_drive_prefix_chars();
    reveal_strlit("%~dp0");
    reveal_strlit("@echo off\r\n");
    assert(rep == seq!['%', '~', 'd', 'p', '0']);
    assert(no_overlap(p, rep)) by {
        assert forall|k: int| 0 <= k < rep.len() implies !crate::text::compatible(
            #[trigger] rep.skip(k),
            p,
        ) by {
            assert(rep.skip(k)[0] != p[0]);
        }
        assert forall|m: int| 1 <= m < p.len() implies !crate::text::compatible(
            #[trigger] p.skip(m),
            rep,
        ) by {
            assert(p.skip(m)[0] != rep[0]);
        }
    }
    let r = replace(trim(profile), p, rep);
    lemma_replace_removes(trim(profile), p, rep);
    let ls = relocated_lines(profile);
    lemma_lines_pieces(r);
    let cmds = ls.map_values(|l: Seq<char>| set_command(l));
    assert forall|i: int| 0 <= i < cmds.len() implies !contains(#[trigger] cmds[i], p)
        && cmds[i].len() > 0 && cmds[i].last() == '\n' by {
        assert(is_piece_of(ls[i], r));
        lemma_piece_keeps_absence(ls[i], r, p);
        lemma_set_command_clean(ls[i]);
    }
    lemma_commands_clean(cmds);
    let header = SCRIPT_HEADER@;
    assert(header == seq!['@', 'e', 'c', 'h', 'o', ' ', 'o', 'f', 'f', '\r', '\n']);
    assert(!header.contains('C'));
    lemma_absent_first_char(header, p);
    assert(!p.take(2).contains('\n'));
    assert(boundary_safe(header, cmds.flatten(), p));
    lemma_concat_keeps_absence(header, cmds.flatten(), p);
}

/// A profile line `NAME=value` (no surrounding white space, no newline, no
/// `C:\`) becomes the single command `set "NAME=value"`, with `;%PATH%`
/// appended to the value exactly when `NAME` is `Path`: a name that merely
/// ends with `Path` is set as it stands.
pub proof fn lemma_assignment_line_script(name: Seq<char>, value: Seq<char>)
    requires
        name.len() > 0,
        !name.contains('='),
        !is_whitespace(name[0]),
        value.len() > 0 ==> !is_whitespace(value.last()),
        !(name + seq!['='] + value).contains('\n'),
        !contains(name + seq!['='] + value, DRIVE_PREFIX@),
    ensures
        profile_script_spec(name + seq!['='] + value) == SCRIPT_HEADER@ + SET_OPEN@ + name
            + seq!['='] + value + (if name == seq!['P', 'a', 't', 'h'] {
            PATH_SUFFIX@
        } else {
            Seq::<char>::empty()
        }) + SET_CLOSE@,
{
    let l = name + seq!['='] + value;
    assert(l[0] == name[0]);
    if value.len() > 0 {
        assert(l.last() == value.last());
    } else {
        assert(l.last() == '=');
    }
    lemma_trim_fixed(l);
    lemma_drive_prefix_chars();
    lemma_replace_absent(l, DRIVE_PREFIX@, SCRIPT_DIR@);
    lemma_single_line(l);
    assert(relocated_lines(l) == seq![l]);
    let cmds = seq![l].map_values(|x: Seq<char>| set_command(x));
    assert(cmds == seq![set_command(l)]);
    cmds.lemma_flatten_singleton();
    reveal_strlit("Path=");
    let pa = PATH_ASSIGN@;
    assert(pa == seq!['P', 'a', 't', 'h', '=']);
    let path = seq!['P', 'a', 't', 'h'];
    if name == path {
        assert(l.take(5) == pa);
        assert(starts_with(l, pa));
    } else {
        if starts_with(l, pa) {
            if name.len() < 4 {
                assert(l[name.len() as int] == '=');
                assert(l.take(5)[name.len() as int] == pa[name.len() as int]);
            } else if name.len() == 4 {
                assert(name == l.take(4));
                assert(l.take(4) == pa.take(4));
                assert(pa.take(4) == path);
            } else {
                assert(l[4] == name[4]);
                assert(l.take(5)[4] == '=');
                assert(name.contains('='));
            }
        }
        assert(!starts_with(l, pa));
    }
    assert(profile_value(l) == l + (if name == path {
        PATH_SUFFIX@
    } else {
        Seq::<char>::empty()
    }));
}

/// Environment of the x86 build-tools command prompt of Visual Studio 2013.
pub const CMD_PROFILE_X86: &'static str = r"
    DevEnvDir=C:\Program Files (x86)\Microsoft Visual Studio 12.0\Common7\IDE\
    ExtensionSdkDir=C:\Program Files (x86)\Microsoft SDKs\Windows\v8.1\ExtensionSDKs
    Framework40Version=v4.0
    FrameworkDir=C:\Windows\Microsoft.NET\Framework\
    FrameworkDIR32=C:\Windows\Microsoft.NET\Framework\
    FrameworkVersion=v4.0.30319
    FrameworkVersion32=v4.0.30319
    INCLUDE=C:\Program Files (x86)\Microsoft Visual Studio 12.0\VC\INCLUDE;C:\Program Files (x86)\Microsoft Visual Studio 12.0\VC\ATLMFC\INCLUDE;C:\Program Files (x86)\Windows Kits\8.1\include\shared;C:\Program Files (x86)\Windows Kits\8.1\include\um;C:\Program Files (x86)\Windows Kits\8.1\include\winrt;
    LIB=C:\Program Files (x86)\Microsoft Visual Studio 12.0\VC\LIB;C:\Program Files (x86)\Microsoft Visual Studio 12.0\VC\ATLMFC\LIB;C:\Program Files (x86)\Windows Kits\8.1\lib\winv6.3\um\x86;
    LIBPATH=C:\Windows\Microsoft.NET\Framework\v4.0.30319;C:\Program Files (x86)\Microsoft Visual Studio 12.0\VC\LIB;C:\Program Files (x86)\Microsoft Visual Studio 12.0\VC\ATLMFC\LIB;C:\Program Files (x86)\Windows Kits\8.1\References\CommonConfiguration\Neutral;C:\Program Files (x86)\Microsoft SDKs\Windows\v8.1\ExtensionSDKs\Microsoft.VCLibs\12.0\References\CommonConfiguration\neutral;
    Path=C:\Program Files (x86)\Microsoft Visual Studio 12.0\Common7\IDE\CommonExtensions\Microsoft\TestWindow;C:\Program Files (x86)\Microsoft SDKs\F#\3.1\Framework\v4.0\;C:\Program Files (x86)\Microsoft SDKs\TypeScript\1.0;C:\Program Files (x86)\MSBuild\12.0\bin;C:\Program Files (x86)\Microsoft Visual Studio 12.0\Common7\IDE\;C:\Program Files (x86)\Microsoft Visual Studio 12.0\VC\BIN;C:\Program Files (x86)\Microsoft Visual Studio 12.0\Common7\Tools;C:\Windows\Microsoft.NET\Framework\v4.0.30319;C:\Program Files (x86)\Microsoft Visual Studio 12.0\VC\VCPackages;C:\Program Files (x86)\HTML Help Workshop;C:\Program Files (x86)\Microsoft Visual Studio 12.0\Team Tools\Performance Tools;C:\Program Files (x86)\Windows Kits\8.1\bin\x86;C:\Program Files (x86)\Microsoft SDKs\Windows\v8.1A\bin\NETFX 4.5.1 Tools\;
    VCINSTALLDIR=C:\Program Files (x86)\Microsoft Visual Studio 12.0\VC\
    VisualStudioVersion=12.0
    VS120COMNTOOLS=C:\Program Files (x86)\Microsoft Visual Studio 12.0\Common7\Tools\
    VSINSTALLDIR=C:\Program Files (x86)\Microsoft Visual Studio 12.0\
    WindowsSdkDir=C:\Program Files (x86)\Windows Kits\8.1\
    WindowsSDK_ExecutablePath_x64=C:\Program Files (x86)\Microsoft SDKs\Windows\v8.1A\bin\NETFX 4.5.1 Tools\x64\
    WindowsSDK_ExecutablePath_x86=C:\Program Files (x86)\Microsoft SDKs\Windows\v8.1A\bin\NETFX 4.5.1 Tools\
";

/// Environment of the x64 build-tools command prompt of Visual Studio 2013.
pub const CMD_PROFILE_X64: &'static str = r"
    CommandPromptType=Native
    ExtensionSdkDir=C:\Program Files (x86)\Microsoft SDKs\Windows\v8.1\ExtensionSDKs
    Framework40Version=v4.0
    FrameworkDir=C:\Windows\Microsoft.NET\Framework64
    FrameworkDIR64=C:\Windows\Microsoft.NET\Framework64
    FrameworkVersion=v4.0.30319
    FrameworkVersion64=v4.0.30319
    INCLUDE=C:\Program Files (x86)\Microsoft Visual Studio 12.0\VC\INCLUDE;C:\Program Files (x86)\Microsoft Visual Studio 12.0\VC\ATLMFC\INCLUDE;C:\Program Files (x86)\Windows Kits\8.1\include\shared;C:\Program Files (x86)\Windows Kits\8.1\include\um;C:\Program Files (x86)\Windows Kits\8.1\include\winrt;
    LIB=C:\Program Files (x86)\Microsoft Visual Studio 12.0\VC\LIB\amd64;C:\Program Files (x86)\Microsoft Visual Studio 12.0\VC\ATLMFC\LIB\amd64;C:\Program Files (x86)\Windows Kits\8.1\lib\winv6.3\um\x64;
    LIBPATH=C:\Windows\Microsoft.NET\Framework64\v4.0.30319;C:\Program Files (x86)\Microsoft Visual Studio 12.0\VC\LIB\amd64;C:\Program Files (x86)\Microsoft Visual Studio 12.0\VC\ATLMFC\LIB\amd64;C:\Program Files (x86)\Windows Kits\8.1\References\CommonConfiguration\Neutral;C:\Program Files (x86)\Microsoft SDKs\Windows\v8.1\ExtensionSDKs\Microsoft.VCLibs\12.0\References\CommonConfiguration\neutral;
    Path=C:\Program Files (x86)\Microsoft Visual Studio 12.0\Common7\IDE\CommonExtensions\Microsoft\TestWindow;C:\Program Files (x86)\MSBuild\12.0\bin\amd64;C:\Program Files (x86)\Microsoft Visual Studio 12.0\VC\BIN\amd64;C:\Windows\Microsoft.NET\Framework64\v4.0.30319;C:\Program Files (x86)\Microsoft Visual Studio 12.0\VC\VCPackages;C:\Program Files (x86)\Microsoft Visual Studio 12.0\Common7\IDE;C:\Program Files (x86)\Microsoft Visual Studio 12.0\Common7\Tools;C:\Program Files (x86)\HTML Help Workshop;C:\Program Files (x86)\Microsoft Visual Studio 12.0\Team Tools\Performance Tools\x64;C:\Program Files (x86)\Microsoft Visual Studio 12.0\Team Tools\Performance Tools;C:\Program Files (x86)\Windows Kits\8.1\bin\x64;C:\Program Files (x86)\Windows Kits\8.1\bin\x86;C:\Program Files (x86)\Microsoft SDKs\Windows\v8.1A\bin\NETFX 4.5.1 Tools\x64\;
    Platform=X64
    VCINSTALLDIR=C:\Program Files (x86)\Microsoft Visual Studio 12.0\VC\
    VisualStudioVersion=12.0
    VS110COMNTOOLS=C:\Program Files (x86)\Microsoft Visual Studio 11.0\Common7\Tools\
    VS120COMNTOOLS=C:\Program Files (x86)\Microsoft Visual Studio 12.0\Common7\Tools\
    VSINSTALLDIR=C:\Program Files (x86)\Microsoft Visual Studio 12.0\
    WindowsSdkDir=C:\Program Files (x86)\Windows Kits\8.1\
    WindowsSDK_ExecutablePath_x64=C:\Program Files (x86)\Microsoft SDKs\Windows\v8.1A\bin\NETFX 4.5.1 Tools\x64\
    WindowsSDK_ExecutablePath_x86=C:\Program Files (x86)\Microsoft SDKs\Windows\v8.1A\bin\NETFX 4.5.1 Tools\
";


} // verus!
