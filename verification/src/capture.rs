//! Capture of a single display: its settings, its errors, and the advice
//! shown when the Screen Recording permission is missing.
//!
//! Without the permission the capture stream starts but delivers no frames,
//! which looks exactly like a hung pipeline, so the host checks first and
//! says so plainly.

use crate::shared::PixFmt;
use vstd::prelude::*;

verus! {

/// Why capture could not start.
#[derive(Debug)]
pub enum CaptureError {
    /// The Screen Recording grant is missing. Not recoverable in process.
    PermissionDenied,
    /// No display matched the requested id.
    DisplayNotFound(u32),
    StreamFailed(String),
    /// Built for a platform with no CoreGraphics.
    Unsupported,
}

/// What to capture, and how.
#[derive(Debug, Clone, Copy, PartialEq, Eq, Structural)]
pub struct CaptureConfig {
    pub display_id: u32,
    pub fps: u32,
    pub pixel_format: PixFmt,
}

/// A running capture stream.
pub struct Capturer {
    _private: (),
}

impl Capturer {
    /// Stops the stream and releases it.
    pub fn stop(self) {
    }
}

/// The help text when the process runs from an application bundle, which
/// holds its own grant and is relaunched on its own.
pub open spec fn bundled_help() -> Seq<char> {
    "Screen Recording permission is required.\n\
         \n\
         Open System Settings > Privacy & Security > Screen & System Audio\n\
         Recording and enable Annex, then open Annex again.\n\
         \n\
         macOS applies this permission only when an app starts, so it has to be\n\
         relaunched after you allow it.\n\
         \n\
         If Annex is already listed but still refused, this build was signed\n\
         ad-hoc and macOS sees each rebuild as a different app. Remove the old\n\
         entry and add this one."@
}

/// The help text when the process is a bare binary, which borrows the
/// terminal's grant and needs the terminal restarted.
pub open spec fn terminal_help() -> Seq<char> {
    "Screen Recording permission is required.\n\
         \n\
         Running from a terminal means macOS attaches the grant to the terminal\n\
         rather than to Annex. Open System Settings > Privacy & Security >\n\
         Screen & System Audio Recording and enable your terminal.\n\
         \n\
         Then quit and reopen the terminal completely. TCC decisions are read\n\
         when a process starts, so a running shell keeps the old answer.\n\
         \n\
         Building the app with scripts/bundle.sh avoids this: the grant then\n\
         belongs to Annex itself."@
}

/// A human-readable explanation for a missing Screen Recording grant,
/// depending on whether the process runs from an application bundle.
/// Telling someone to restart a terminal they are not using is how a correct
/// message becomes a wrong one.
pub fn permission_help(bundled: bool) -> (h: String)
    ensures
        h@ == if bundled { bundled_help() } else { terminal_help() },
{
    if bundled {
        String::from_str(
            "Screen Recording permission is required.\n\
         \n\
         Open System Settings > Privacy & Security > Screen & System Audio\n\
         Recording and enable Annex, then open Annex again.\n\
         \n\
         macOS applies this permission only when an app starts, so it has to be\n\
         relaunched after you allow it.\n\
         \n\
         If Annex is already listed but still refused, this build was signed\n\
         ad-hoc and macOS sees each rebuild as a different app. Remove the old\n\
         entry and add this one.",
        )
    } else {
        String::from_str(
            "Screen Recording permission is required.\n\
         \n\
         Running from a terminal means macOS attaches the grant to the terminal\n\
         rather than to Annex. Open System Settings > Privacy & Security >\n\
         Screen & System Audio Recording and enable your terminal.\n\
         \n\
         Then quit and reopen the terminal completely. TCC decisions are read\n\
         when a process starts, so a running shell keeps the old answer.\n\
         \n\
         Building the app with scripts/bundle.sh avoids this: the grant then\n\
         belongs to Annex itself.",
        )
    }
}

/// The marker of an application bundle's executable path.
pub open spec fn bundle_marker() -> Seq<char> {
    ".app/Contents/MacOS/"@
}

/// Whether `s` contains `t` as a contiguous run.
pub open spec fn contains_run(s: Seq<char>, t: Seq<char>) -> bool {
    exists|i: int| 0 <= i && i + t.len() <= s.len() && #[trigger] s.subrange(i, i + t.len()) == t
}

fn run_at(s: &Vec<char>, t: &Vec<char>, i: usize) -> (r: bool)
    requires
        i + t@.len() <= s@.len(),
    ensures
        r == (s@.subrange(i as int, i + t@.len()) == t@),
{
    let slen = s.len();
    let mut k: usize = 0;
    while k < t.len()
        invariant
            slen == s@.len(),
            i + t@.len() <= s@.len(),
            k <= t@.len(),
            s@.subrange(i as int, i + k) =~= t@.take(k as int),
        decreases t.len() - k,
    {
        if s[i + k] != t[k] {
            proof {
                assert(s@.subrange(i as int, i + t@.len())[k as int] != t@[k as int]);
            }
            return false;
        }
        proof {
            assert(s@.subrange(i as int, i + k + 1) =~= s@.subrange(i as int, i + k).push(s@[i + k]));
            assert(t@.take(k + 1) =~= t@.take(k as int).push(t@[k as int]));
        }
        k += 1;
    }
    proof {
        assert(t@.take(t@.len() as int) =~= t@);
    }
    true
}

/// Whether an executable path lies inside an application bundle.
pub fn path_is_bundled(path: &str) -> (r: bool)
    ensures
        r == contains_run(path@, bundle_marker()),
{
    let s = crate::text::chars_of(path);
    let t = crate::text::chars_of(".app/Contents/MacOS/");
    let mut i: usize = 0;
    while i < s.len() && s.len() - i >= t.len()
        invariant
            s@ == path@,
            t@ == bundle_marker(),
            i <= s.len(),
            forall|j: int| 0 <= j < i && j + t@.len() <= s@.len() ==> #[trigger] s@.subrange(j, j + t@.len()) != t@,
        decreases s.len() - i,
    {
        if run_at(&s, &t, i) {
            return true;
        }
        i += 1;
    }
    proof {
        reveal_strlit(".app/Contents/MacOS/");
        assert(t@.len() > 0);
        assert forall|j: int| 0 <= j && j + t@.len() <= s@.len() implies #[trigger] s@.subrange(j, j + t@.len()) != t@ by {
            if j >= i {
                assert(i + t@.len() > s@.len() || i >= s@.len());
            }
        }
    }
    false
}

} // verus!
