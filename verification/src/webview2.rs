use vstd::prelude::*;
use crate::paths::{join_path, joined_in};
use crate::text::push_str;

verus! {

/// Where the official download page of the WebView2 runtime is.
pub open spec fn download_url() -> Seq<char> {
    "https://developer.microsoft.com/microsoft-edge/webview2/"@
}

/// The runtime executable inside a fixed-version runtime folder.
pub fn fixed_runtime_executable(folder: &str, windows: bool) -> (path: String)
    ensures
        path@ == joined_in(folder@, "msedgewebview2.exe"@, windows),
{
    join_path(folder, "msedgewebview2.exe", windows)
}

/// The directories that hold the versions of an installed runtime, under each of the known
/// base directories that is set (local application data, then the two program directories).
pub open spec fn application_directories(bases: Seq<Option<Seq<char>>>, windows: bool) -> Seq<Seq<char>>
    decreases bases.len(),
{
    if bases.len() == 0 {
        Seq::empty()
    } else {
        let rest = application_directories(bases.drop_last(), windows);
        match bases.last() {
            Some(b) => rest.push(joined_in(b, "Microsoft/EdgeWebView/Application"@, windows)),
            None => rest,
        }
    }
}

pub open spec fn bases_view(bases: Seq<Option<String>>) -> Seq<Option<Seq<char>>> {
    bases.map_values(|b: Option<String>| match b {
        Some(s) => Some(s@),
        None => None,
    })
}

/// The directories to look for installed runtime versions in (see `application_directories`).
pub fn runtime_application_directories(bases: &Vec<Option<String>>, windows: bool) -> (dirs: Vec<String>)
    ensures
        dirs@.map_values(|d: String| d@) == application_directories(bases_view(bases@), windows),
{
    let ghost bv = bases_view(bases@);
    let mut dirs: Vec<String> = Vec::new();
    let mut i: usize = 0;
    while i < bases.len()
        invariant
            i <= bases.len(),
            bv == bases_view(bases@),
            dirs@.map_values(|d: String| d@) == application_directories(bv.take(i as int), windows),
        decreases bases.len() - i,
    {
        assert(bv.take(i + 1).drop_last() =~= bv.take(i as int));
        match &bases[i] {
            Some(b) => {
                let ghost before = dirs@;
                dirs.push(join_path(b.as_str(), "Microsoft/EdgeWebView/Application", windows));
                assert(dirs@.map_values(|d: String| d@) =~= before.map_values(|d: String| d@).push(
                    joined_in(b@, "Microsoft/EdgeWebView/Application"@, windows),
                ));
            },
            None => {},
        }
        i = i + 1;
    }
    assert(bv.take(i as int) =~= bv);
    dirs
}

/// Whether some version directory holds the runtime executable.
pub fn runtime_in(version_has_executable: &Vec<bool>) -> (found: bool)
    ensures
        found == version_has_executable@.contains(true),
{
    let mut i: usize = 0;
    while i < version_has_executable.len()
        invariant
            i <= version_has_executable.len(),
            forall|j: int| 0 <= j < i ==> !version_has_executable@[j],
        decreases version_has_executable.len() - i,
    {
        if version_has_executable[i] {
            assert(version_has_executable@[i as int]);
            return true;
        }
        i = i + 1;
    }
    false
}

/// The runtime is there when the fixed-version folder holds it, or when some installed
/// version directory does.
pub fn webview2_runtime_exists(fixed_runtime_present: bool, installed_directories: &Vec<bool>) -> (exists: bool)
    ensures
        exists == (fixed_runtime_present || installed_directories@.contains(true)),
{
    if fixed_runtime_present {
        return true;
    }
    runtime_in(installed_directories)
}

/// Whether the application can start: only when the runtime exists (otherwise the user is
/// told how to install it).
pub fn ensure_available(runtime_exists: bool) -> (available: bool)
    ensures
        available == runtime_exists,
{
    runtime_exists
}

/// Whether the WebView2 runtime the application needs is available.
pub fn webview2_available(runtime_exists: bool) -> (available: bool)
    ensures
        available == runtime_exists,
{
    ensure_available(runtime_exists)
}

/// The PowerShell script that tells the user the runtime is missing and opens its download
/// page.
pub fn missing_runtime_script() -> (script: String)
    ensures
        script@ == "Add-Type -AssemblyName PresentationFramework; [void][System.Windows.MessageBox]::Show('GeoTagger 需要 Microsoft Edge WebView2 Runtime 才能启动。将打开官方下载页面；安装完成后请再次运行此 EXE。', '缺少 WebView2 Runtime', 'OK', 'Error'); Start-Process '"@
            + download_url() + "'"@,
{
    let mut script = "Add-Type -AssemblyName PresentationFramework; [void][System.Windows.MessageBox]::Show('GeoTagger 需要 Microsoft Edge WebView2 Runtime 才能启动。将打开官方下载页面；安装完成后请再次运行此 EXE。', '缺少 WebView2 Runtime', 'OK', 'Error'); Start-Process '".to_owned();
    push_str(&mut script, "https://developer.microsoft.com/microsoft-edge/webview2/");
    push_str(&mut script, "'");
    script
}

} // verus!
