//! The video backend: which one is used, where its bundled programs are
//! found, and what they are asked. Running the programs is the caller's
//! part; today the only backend is the bundled `ffprobe`/`ffmpeg` pair.
use vstd::prelude::*;
use crate::paths::{join, join_chars};
use crate::scan::HostOs;
use crate::text::{chars_of, push_str, string_from};

verus! {

/// The video backends, in preference order for this platform. Native APIs
/// would come first once they exist; the bundled programs stay last as the
/// portable fallback.
#[derive(Debug, Clone, Copy, PartialEq, Eq, Structural)]
pub enum VideoBackendKind {
    /// The bundled `ffprobe` and `ffmpeg` programs.
    Ffmpeg,
}

pub open spec fn backend_name_spec(b: VideoBackendKind) -> Seq<char> {
    match b {
        VideoBackendKind::Ffmpeg => "ffmpeg-sidecar"@,
    }
}

impl VideoBackendKind {
    /// Short identifier, used in logs so a support question can be answered
    /// with "which backend were you on".
    pub fn name(&self) -> (r: &'static str)
        ensures
            r@ == backend_name_spec(*self),
    {
        match self {
            VideoBackendKind::Ffmpeg => "ffmpeg-sidecar",
        }
    }
}

pub open spec fn candidates_spec() -> Seq<VideoBackendKind> {
    seq![VideoBackendKind::Ffmpeg]
}

/// The backends to try, in preference order.
pub fn candidates() -> (r: Vec<VideoBackendKind>)
    ensures
        r@ == candidates_spec(),
{
    let mut v = Vec::new();
    v.push(VideoBackendKind::Ffmpeg);
    assert(v@ =~= candidates_spec());
    v
}

/// The backend in use: the first candidate reported available, or the last
/// candidate when none is, so callers keep one interface and every call
/// simply yields nothing, given which candidates (in the order `candidates`
/// lists them) were found able to run here.
pub fn backend(available: &[bool]) -> (r: VideoBackendKind)
    requires
        available@.len() == candidates_spec().len(),
    ensures
        exists|i: int|
            {
                &&& 0 <= i < available@.len()
                &&& r == candidates_spec()[i]
                &&& forall|j: int| 0 <= j < i ==> !available@[j]
                &&& available@[i] || i == available@.len() - 1
            },
{
    let all = candidates();
    let mut i: usize = 0;
    while i < all.len()
        invariant
            all@ == candidates_spec(),
            available@.len() == all@.len(),
            i <= all@.len(),
            forall|j: int| 0 <= j < i ==> !available@[j],
        decreases all@.len() - i,
    {
        if available[i] {
            return all[i];
        }
        i = i + 1;
    }
    all[all.len() - 1]
}

// ---------------------------------------------------------------------------
// Where the bundled programs are.
// ---------------------------------------------------------------------------

/// The file-name endings a bundled program may have next to the running
/// executable: `{name}-{target triple}` first, then the bare name.
pub open spec fn sidecar_suffixes(os: HostOs) -> Seq<Seq<char>> {
    match os {
        HostOs::Windows => seq![
            "-x86_64-pc-windows-msvc.exe"@,
            "-aarch64-pc-windows-msvc.exe"@,
            ".exe"@,
        ],
        HostOs::MacOs => seq!["-x86_64-apple-darwin"@, "-aarch64-apple-darwin"@, ""@],
        HostOs::Other => seq!["-x86_64-unknown-linux-gnu"@, ""@],
    }
}

fn suffixes(os: HostOs) -> (r: Vec<&'static str>)
    ensures
        r@.len() == sidecar_suffixes(os).len(),
        forall|k: int| 0 <= k < r@.len() ==> (#[trigger] r@[k])@ == sidecar_suffixes(os)[k],
{
    let mut v: Vec<&'static str> = Vec::new();
    match os {
        HostOs::Windows => {
            v.push("-x86_64-pc-windows-msvc.exe");
            v.push("-aarch64-pc-windows-msvc.exe");
            v.push(".exe");
        },
        HostOs::MacOs => {
            v.push("-x86_64-apple-darwin");
            v.push("-aarch64-apple-darwin");
            v.push("");
        },
        HostOs::Other => {
            v.push("-x86_64-unknown-linux-gnu");
            v.push("");
        },
    }
    v
}

/// The program name run from the search path when no bundled copy is found.
pub open spec fn fallback_program(name: Seq<char>, os: HostOs) -> Seq<char> {
    if os == HostOs::Windows {
        name + ".exe"@
    } else {
        name
    }
}

/// The candidate paths of a bundled program in the executable's folder.
pub open spec fn sidecar_candidate(dir: Seq<char>, name: Seq<char>, os: HostOs, k: int) -> Seq<char> {
    join(dir, name + sidecar_suffixes(os)[k])
}

/// Candidate `k` is the first one found in the executable's folder.
pub open spec fn found_at<E: Fn(&str) -> bool>(
    dir: Seq<char>,
    name: Seq<char>,
    os: HostOs,
    present: E,
    r: Seq<char>,
    k: int,
) -> bool {
    &&& 0 <= k < sidecar_suffixes(os).len()
    &&& r == sidecar_candidate(dir, name, os, k)
    &&& crate::plan::probed(present, r, true)
    &&& forall|j: int|
        0 <= j < k ==> crate::plan::probed(present, #[trigger] sidecar_candidate(dir, name, os, j), false)
}

/// The path answered for a bundled program: the first candidate that
/// exists in the executable's folder `dir`, else the bare program name.
pub open spec fn found_or_fallback<E: Fn(&str) -> bool>(
    name: Seq<char>,
    os: HostOs,
    dir: Seq<char>,
    present: E,
    r: Seq<char>,
) -> bool {
    ||| exists|k: int| #[trigger] found_at(dir, name, os, present, r, k)
    ||| {
        &&& r == fallback_program(name, os)
        &&& forall|j: int|
            0 <= j < sidecar_suffixes(os).len() ==> crate::plan::probed(
                present,
                #[trigger] sidecar_candidate(dir, name, os, j),
                false,
            )
    }
}

/// The path answered for a bundled program, given the executable's folder
/// when it is known.
pub open spec fn sidecar_path_ok<E: Fn(&str) -> bool>(
    name: Seq<char>,
    os: HostOs,
    exe_dir: Option<Seq<char>>,
    present: E,
    r: Seq<char>,
) -> bool {
    match exe_dir {
        Some(dir) => found_or_fallback(name, os, dir, present, r),
        None => r == fallback_program(name, os),
    }
}

proof fn lemma_found_is_ok<E: Fn(&str) -> bool>(
    dir: Seq<char>,
    name: Seq<char>,
    os: HostOs,
    present: E,
    r: Seq<char>,
    k: int,
)
    requires
        found_at(dir, name, os, present, r, k),
    ensures
        found_or_fallback(name, os, dir, present, r),
{
}

pub open spec fn opt_str_view(o: Option<&str>) -> Option<Seq<char>> {
    match o {
        Some(d) => Some(d@),
        None => None,
    }
}

/// Resolve a bundled program by name (no extension, no target triple):
/// next to the running executable first, in its release naming, then the
/// bare name for the search path.
pub fn sidecar_path<E: Fn(&str) -> bool>(
    name: &str,
    os: HostOs,
    exe_dir: Option<&str>,
    present: &E,
) -> (r: String)
    requires
        forall|s: &str| call_requires(*present, (s,)),
    ensures
        sidecar_path_ok(
            name@,
            os,
            opt_str_view(exe_dir),
            *present,
            r@,
        ),
{
    match exe_dir {
        Some(d) => {
            let dc = chars_of(d);
            let sfx = suffixes(os);
            let mut k: usize = 0;
            while k < sfx.len()
                invariant
                    k <= sfx@.len(),
                    dc@ == d@,
                    exe_dir == Some(d),
                    sfx@.len() == sidecar_suffixes(os).len(),
                    forall|t: int| 0 <= t < sfx@.len() ==> (#[trigger] sfx@[t])@ == sidecar_suffixes(os)[t],
                    forall|s: &str| call_requires(*present, (s,)),
                    forall|j: int|
                        0 <= j < k ==> crate::plan::probed(
                            *present,
                            #[trigger] sidecar_candidate(dc@, name@, os, j),
                            false,
                        ),
                decreases sfx@.len() - k,
            {
                let mut file = chars_of(name);
                push_str(&mut file, sfx[k]);
                let p = join_chars(&dc, &file);
                let ps = string_from(&p);
                let pr = ps.as_str();
                let found = present(pr);
                assert(call_ensures(*present, (pr,), found));
                assert(p@ == sidecar_candidate(dc@, name@, os, k as int));
                if found {
                    proof {
                        assert(crate::plan::probed(*present, ps@, true));
                        assert(sidecar_candidate(dc@, name@, os, k as int) == ps@);
                        assert(dc@ == d@);
                        assert(found_at(d@, name@, os, *present, ps@, k as int));
                        lemma_found_is_ok(d@, name@, os, *present, ps@, k as int);
                        assert(opt_str_view(exe_dir) == Some(d@));
                    }
                    return ps;
                }
                proof {
                    assert(crate::plan::probed(*present, sidecar_candidate(dc@, name@, os, k as int), false));
                }
                k = k + 1;
            }
        },
        None => {},
    }
    let mut fb = chars_of(name);
    if os == HostOs::Windows {
        push_str(&mut fb, ".exe");
    }
    string_from(&fb)
}

/// Where `ffprobe` is.
pub fn ffprobe_path<E: Fn(&str) -> bool>(os: HostOs, exe_dir: Option<&str>, present: &E) -> (r:
    String)
    requires
        forall|s: &str| call_requires(*present, (s,)),
    ensures
        sidecar_path_ok(
            "ffprobe"@,
            os,
            opt_str_view(exe_dir),
            *present,
            r@,
        ),
{
    sidecar_path("ffprobe", os, exe_dir, present)
}

/// Where `ffmpeg` is.
pub fn ffmpeg_path<E: Fn(&str) -> bool>(os: HostOs, exe_dir: Option<&str>, present: &E) -> (r:
    String)
    requires
        forall|s: &str| call_requires(*present, (s,)),
    ensures
        sidecar_path_ok(
            "ffmpeg"@,
            os,
            opt_str_view(exe_dir),
            *present,
            r@,
        ),
{
    sidecar_path("ffmpeg", os, exe_dir, present)
}

// ---------------------------------------------------------------------------
// What the programs are asked.
// ---------------------------------------------------------------------------

fn strings(parts: &[&str]) -> (r: Vec<String>)
    ensures
        r@.len() == parts@.len(),
        forall|k: int| 0 <= k < r@.len() ==> (#[trigger] r@[k])@ == parts@[k]@,
{
    let mut v: Vec<String> = Vec::new();
    let mut k: usize = 0;
    while k < parts.len()
        invariant
            k <= parts@.len(),
            v@.len() == k,
            forall|t: int| 0 <= t < k ==> (#[trigger] v@[t])@ == parts@[t]@,
        decreases parts@.len() - k,
    {
        v.push(string_from(&chars_of(parts[k])));
        k = k + 1;
    }
    v
}

pub open spec fn views_of(v: Seq<String>) -> Seq<Seq<char>> {
    v.map_values(|s: String| s@)
}

/// The arguments for reading a clip's container tags as JSON.
pub fn probe_args(path: &str) -> (r: Vec<String>)
    ensures
        views_of(r@) == seq![
            "-v"@,
            "quiet"@,
            "-print_format"@,
            "json"@,
            "-show_format"@,
            path@,
        ],
{
    let parts = ["-v", "quiet", "-print_format", "json", "-show_format", path];
    let r = strings(&parts);
    assert(views_of(r@) =~= seq!["-v"@, "quiet"@, "-print_format"@, "json"@, "-show_format"@, path@]);
    r
}

/// The scale filter that bounds a frame's width by `max_dim`, keeping the
/// height even as the JPEG encoder requires: `scale=<max_dim>:-2`.
pub fn scale_filter(max_dim: u32) -> (r: String)
    ensures
        r@ == "scale="@ + crate::text::decimal(max_dim as nat) + ":-2"@,
{
    let mut v = chars_of("scale=");
    crate::text::push_decimal(&mut v, max_dim as u128);
    push_str(&mut v, ":-2");
    string_from(&v)
}

/// The arguments for grabbing one frame a second into a clip, scaled, as
/// JPEG on standard output. Seeking before opening lets ffmpeg jump to a
/// keyframe rather than decode from the start.
pub fn thumbnail_args(path: &str, max_dim: u32) -> (r: Vec<String>)
    ensures
        views_of(r@) == seq![
            "-ss"@,
            "1"@,
            "-i"@,
            path@,
            "-vframes"@,
            "1"@,
            "-vf"@,
            "scale="@ + crate::text::decimal(max_dim as nat) + ":-2"@,
            "-f"@,
            "mjpeg"@,
            "-loglevel"@,
            "error"@,
            "pipe:1"@,
        ],
{
    let scale = scale_filter(max_dim);
    let parts = [
        "-ss",
        "1",
        "-i",
        path,
        "-vframes",
        "1",
        "-vf",
        scale.as_str(),
        "-f",
        "mjpeg",
        "-loglevel",
        "error",
        "pipe:1",
    ];
    let r = strings(&parts);
    assert(views_of(r@) =~= seq![
        "-ss"@,
        "1"@,
        "-i"@,
        path@,
        "-vframes"@,
        "1"@,
        "-vf"@,
        scale@,
        "-f"@,
        "mjpeg"@,
        "-loglevel"@,
        "error"@,
        "pipe:1"@,
    ]);
    r
}

/// A frame is what the program printed, when it printed anything: a clip
/// shorter than the seek point, or a codec it cannot decode, prints nothing.
pub fn frame_from_output(stdout: Vec<u8>) -> (r: Option<Vec<u8>>)
    ensures
        stdout@.len() == 0 <==> r is None,
        r matches Some(f) ==> f@ == stdout@,
{
    if stdout.len() == 0 {
        None
    } else {
        Some(stdout)
    }
}

} // verus!
