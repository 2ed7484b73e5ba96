//! Camera activity.
use vstd::prelude::*;

use crate::text::{starts_with, to_chars};

verus! {

/// Whether a file that a process has open is a camera.
pub open spec fn is_video(target: String) -> bool {
    "/dev/video"@.is_prefix_of(target@)
}

/// Whether any of the files that a process has open is a camera.
pub fn has_video_fd(targets: &Vec<String>) -> (r: bool)
    ensures
        r == exists|i: int| 0 <= i < targets@.len() && is_video(#[trigger] targets@[i]),
{
    let prefix = to_chars("/dev/video");
    let mut i: usize = 0;
    while i < targets.len()
        invariant
            i <= targets@.len(),
            prefix@ == "/dev/video"@,
            forall|j: int| 0 <= j < i ==> !is_video(#[trigger] targets@[j]),
        decreases targets@.len() - i,
    {
        let chars = to_chars(&targets[i]);
        if starts_with(&chars, &prefix) {
            proof {
                assert(is_video(targets@[i as int]));
            }
            return true;
        }
        i = i + 1;
    }
    false
}

/// Whether any process uses a camera, from the files that each has open.
pub fn check_camera_sync(procs: &Vec<Vec<String>>) -> (r: bool)
    ensures
        r == exists|i: int, j: int|
            0 <= i < procs@.len() && 0 <= j < procs@[i]@.len() && is_video(
                #[trigger] procs@[i]@[j],
            ),
{
    let mut i: usize = 0;
    while i < procs.len()
        invariant
            i <= procs@.len(),
            forall|k: int, j: int|
                0 <= k < i && 0 <= j < procs@[k]@.len() ==> !is_video(#[trigger] procs@[k]@[j]),
        decreases procs@.len() - i,
    {
        if has_video_fd(&procs[i]) {
            proof {
                let j = choose|j: int|
                    0 <= j < procs@[i as int]@.len() && is_video(#[trigger] procs@[i as int]@[j]);
                assert(is_video(procs@[i as int]@[j]));
            }
            return true;
        }
        i = i + 1;
    }
    false
}

/// A camera is told by its device file, whichever its number.
pub proof fn cameras_are_video_devices(target: String, number: Seq<char>)
    ensures
        target@ == "/dev/video"@ + number ==> is_video(target),
        is_video(target) ==> target@.take("/dev/video"@.len() as int) == "/dev/video"@,
{
    if target@ == "/dev/video"@ + number {
        assert(target@.take("/dev/video"@.len() as int) =~= "/dev/video"@);
    }
}

} // verus!
