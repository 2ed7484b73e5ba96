//! Audio playback and microphone activity.
use vstd::prelude::*;

use crate::state::process_set::contains_u32;
use crate::text::{parse_bounded, parse_u32, same_text, to_chars};

verus! {

/// PipeWire gives a process id as either a string or a number.
#[derive(Debug)]
pub enum PidValue {
    Number(u64),
    Text(String),
}

impl PidValue {
    /// The PID that the value denotes.
    pub open spec fn pid(&self) -> Option<nat> {
        match self {
            PidValue::Number(n) => if *n <= u32::MAX {
                Some(*n as nat)
            } else {
                None
            },
            PidValue::Text(s) => parse_bounded(s@, u32::MAX as nat),
        }
    }

    /// The PID, where the value denotes one.
    pub fn as_u32(&self) -> (r: Option<u32>)
        ensures
            match r {
                Some(v) => self.pid() == Some(v as nat),
                None => self.pid() is None,
            },
    {
        match self {
            PidValue::Number(n) => if *n <= 0xffff_ffff {
                Some(*n as u32)
            } else {
                None
            },
            PidValue::Text(s) => {
                let chars = to_chars(s);
                parse_u32(&chars)
            },
        }
    }
}

/// What PipeWire says of one of its nodes.
#[derive(Debug)]
pub struct PwNode {
    pub media_class: Option<String>,
    pub app_pid: Option<PidValue>,
}

/// Combined audio activity.
#[derive(Clone, Copy, Debug, PartialEq, Eq, Structural)]
pub struct AudioActivity {
    pub playing: bool,
    pub mic_active: bool,
}

impl Default for AudioActivity {
    /// No activity.
    fn default() -> (r: Self)
        ensures
            r == (AudioActivity { playing: false, mic_active: false }),
    {
        AudioActivity { playing: false, mic_active: false }
    }
}

/// Whether a node is a stream of a class that belongs to one of the PIDs.
pub open spec fn streams(node: PwNode, class: Seq<char>, pids: Seq<u32>) -> bool {
    &&& node.media_class is Some && node.media_class->0@ == class
    &&& node.app_pid is Some && node.app_pid->0.pid() is Some
    &&& pids.contains(node.app_pid->0.pid()->0 as u32)
}

fn node_streams(node: &PwNode, class: &str, pids: &Vec<u32>) -> (r: bool)
    ensures
        r == streams(*node, class@, pids@),
{
    match (&node.media_class, &node.app_pid) {
        (Some(c), Some(p)) => same_text(c, class) && match p.as_u32() {
            Some(pid) => contains_u32(pids, pid),
            None => false,
        },
        _ => false,
    }
}

/// Determines the audio activity (playback and mic) of the given PIDs from the
/// nodes that PipeWire lists.
pub fn check_audio_activity(nodes: &Vec<PwNode>, pids: &Vec<u32>) -> (r: AudioActivity)
    ensures
        r.playing == exists|i: int|
            0 <= i < nodes@.len() && streams(
                #[trigger] nodes@[i],
                "Stream/Output/Audio"@,
                pids@,
            ),
        r.mic_active == exists|i: int|
            0 <= i < nodes@.len() && streams(#[trigger] nodes@[i], "Stream/Input/Audio"@, pids@),
{
    let mut playing = false;
    let mut mic_active = false;
    let mut i: usize = 0;
    while i < nodes.len()
        invariant
            i <= nodes@.len(),
            playing == exists|j: int|
                0 <= j < i && streams(#[trigger] nodes@[j], "Stream/Output/Audio"@, pids@),
            mic_active == exists|j: int|
                0 <= j < i && streams(#[trigger] nodes@[j], "Stream/Input/Audio"@, pids@),
        decreases nodes@.len() - i,
    {
        let node = &nodes[i];
        let out = node_streams(node, "Stream/Output/Audio", pids);
        let inp = node_streams(node, "Stream/Input/Audio", pids);
        proof {
            assert(streams(nodes@[i as int], "Stream/Output/Audio"@, pids@) == out);
            assert(streams(nodes@[i as int], "Stream/Input/Audio"@, pids@) == inp);
        }
        playing = playing || out;
        mic_active = mic_active || inp;
        i = i + 1;
    }
    AudioActivity { playing, mic_active }
}

/// A node is a stream of a process where it is of the class and bears its PID, as a
/// number or in words; a node of another class, or of another process, is not.
pub proof fn streams_belong_to_their_process(node: PwNode, class: Seq<char>, pids: Seq<u32>, pid: u32)
    ensures
        streams(node, class, pids) ==> node.media_class is Some && node.media_class->0@ == class
            && node.app_pid is Some,
        node.media_class is Some && node.media_class->0@ == class && node.app_pid == Some(
            PidValue::Number(pid as u64),
        ) ==> (streams(node, class, pids) <==> pids.contains(pid)),
        node.media_class is Some && node.media_class->0@ == class && node.app_pid is Some
            && node.app_pid->0 is Text && node.app_pid->0->Text_0@ == crate::text::decimal(
            pid as nat,
        ) ==> (streams(node, class, pids) <==> pids.contains(pid)),
        node.app_pid matches Some(PidValue::Number(n)) ==> n > u32::MAX ==> !streams(
            node,
            class,
            pids,
        ),
{
    crate::text::numbers_are_read_as_written(Seq::empty(), pid as nat, u32::MAX as nat);
}

} // verus!
