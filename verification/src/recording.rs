//! Recording a sketch to a numbered PNG sequence.
//!
//! Starting a recording opens a fresh timestamped directory and numbers the
//! captured frames from zero; every capture writes the next number. The
//! decision *when* a frame is due depends on the capture frame rate and
//! wall-clock time, which the caller measures.
use vstd::prelude::*;
use vstd::string::*;
use crate::decimal::{
    decimal, is_digit_text, lemma_decimal_is_digit_text, lemma_decimal_no_leading_zero,
    lemma_decimal_value, value_of_digits, lemma_decimal_len, lemma_digit_text_order, lemma_zero_padded_injective,
    lemma_zero_padded_is_digit_text, lemma_zero_padded_value, pow10, push_decimal,
    push_zero_padded, zero_padded,
};
use crate::text::{lex_lt, lemma_lex_lt_common_prefix, lemma_lex_lt_extend};

verus! {

/// Width to which frame numbers are padded in file names.
pub const FRAME_NUMBER_WIDTH: usize = 6;

/// The file name of frame `frame`: `frame-` then the frame number padded with
/// zeros to six digits, then `.png`.
pub open spec fn frame_file_name_spec(frame: nat) -> Seq<char> {
    "frame-"@ + zero_padded(decimal(frame), FRAME_NUMBER_WIDTH as nat) + ".png"@
}

/// The directory name of a recording started at `timestamp` seconds since the
/// Unix epoch: `recording-` then the timestamp.
pub open spec fn recording_dir_name_spec(timestamp: nat) -> Seq<char> {
    "recording-"@ + decimal(timestamp)
}

/// Folder, relative to the working directory, that recordings are written under.
pub const RECORDINGS_DIR: &'static str = "recordings";

/// The folder of a recording started at `timestamp`: `recordings/recording-`
/// then the timestamp.
pub open spec fn recording_dir_path_spec(timestamp: nat) -> Seq<char> {
    RECORDINGS_DIR@ + "/"@ + recording_dir_name_spec(timestamp)
}

/// The file name of frame `frame`.
pub fn frame_file_name(frame: u64) -> (name: String)
    ensures
        name@ == frame_file_name_spec(frame as nat),
{
    let mut name = String::from_str("frame-");
    push_zero_padded(&mut name, frame, FRAME_NUMBER_WIDTH);
    name.append(".png");
    name
}

/// The directory name of a recording started at `timestamp`.
pub fn recording_dir_name(timestamp: u64) -> (name: String)
    ensures
        name@ == recording_dir_name_spec(timestamp as nat),
{
    let mut name = String::from_str("recording-");
    push_decimal(&mut name, timestamp);
    name
}

/// The folder of a recording started at `timestamp`, relative to the working directory.
pub fn recording_dir_path(timestamp: u64) -> (path: String)
    ensures
        path@ == recording_dir_path_spec(timestamp as nat),
{
    let mut path = String::from_str(RECORDINGS_DIR);
    path.append("/");
    let name = recording_dir_name(timestamp);
    path.append(name.as_str());
    proof {
        assert(path@ =~= recording_dir_path_spec(timestamp as nat));
    }
    path
}

/// The folder name of a recording is `recording-` followed by the timestamp
/// written in decimal without leading zeros: the digits after the prefix read
/// back as the timestamp, so different timestamps give different folders.
/// The folder path puts that name under `recordings/`.
pub proof fn lemma_recording_dir_name_reads_back(t: nat, u: nat)
    ensures
        recording_dir_name_spec(t).len() > 10,
        recording_dir_name_spec(t).subrange(0, 10) == seq!['r', 'e', 'c', 'o', 'r', 'd', 'i', 'n', 'g', '-'],
        is_digit_text(recording_dir_name_spec(t).skip(10)),
        value_of_digits(recording_dir_name_spec(t).skip(10)) == t,
        recording_dir_name_spec(t)[10] == '0' ==> recording_dir_name_spec(t).len() == 11,
        recording_dir_name_spec(t) == recording_dir_name_spec(u) ==> t == u,
        recording_dir_path_spec(t) == seq!['r', 'e', 'c', 'o', 'r', 'd', 'i', 'n', 'g', 's', '/']
            + recording_dir_name_spec(t),
{
    reveal_strlit("recording-");
    reveal_strlit("recordings");
    reveal_strlit("/");
    let p = "recording-"@;
    assert(p =~= seq!['r', 'e', 'c', 'o', 'r', 'd', 'i', 'n', 'g', '-']);
    let name = recording_dir_name_spec(t);
    lemma_decimal_value(t);
    lemma_decimal_is_digit_text(t);
    lemma_decimal_no_leading_zero(t);
    assert(name.subrange(0, 10) =~= p);
    assert(name.skip(10) =~= decimal(t));
    assert(name[10] == decimal(t)[0]);
    lemma_decimal_value(u);
    let other = recording_dir_name_spec(u);
    assert(other.skip(10) =~= decimal(u));
    assert(recording_dir_path_spec(t) =~= seq!['r', 'e', 'c', 'o', 'r', 'd', 'i', 'n', 'g', 's', '/']
        + name);
}

/// The file name of a frame is `frame-`, the frame number in decimal padded
/// with zeros to at least six digits, then `.png`: the digits read back as the
/// frame number, and a number longer than six digits has no leading zero.
pub proof fn lemma_frame_file_name_reads_back(frame: nat)
    ensures
        frame_file_name_spec(frame).len() >= 16,
        frame_file_name_spec(frame).subrange(0, 6) == seq!['f', 'r', 'a', 'm', 'e', '-'],
        frame_file_name_spec(frame).skip(frame_file_name_spec(frame).len() - 4) == seq![
            '.',
            'p',
            'n',
            'g',
        ],
        is_digit_text(
            frame_file_name_spec(frame).subrange(6, frame_file_name_spec(frame).len() - 4),
        ),
        value_of_digits(
            frame_file_name_spec(frame).subrange(6, frame_file_name_spec(frame).len() - 4),
        ) == frame,
        frame_file_name_spec(frame).len() > 16 ==> frame_file_name_spec(frame)[6] != '0',
{
    reveal_strlit("frame-");
    reveal_strlit(".png");
    let p = "frame-"@;
    let s = ".png"@;
    assert(p =~= seq!['f', 'r', 'a', 'm', 'e', '-']);
    assert(s =~= seq!['.', 'p', 'n', 'g']);
    let w = FRAME_NUMBER_WIDTH as nat;
    let d = zero_padded(decimal(frame), w);
    let name = frame_file_name_spec(frame);
    lemma_zero_padded_value(frame, w);
    lemma_zero_padded_is_digit_text(frame, w);
    lemma_decimal_no_leading_zero(frame);
    lemma_decimal_value(frame);
    assert(name.subrange(0, 6) =~= p);
    assert(name.skip(name.len() - 4) =~= s);
    assert(name.subrange(6, name.len() - 4) =~= d);
    if name.len() > 16 {
        assert(d == decimal(frame));
        assert(name[6] == d[0]);
    }
}

/// Different frames are written to different files.
pub proof fn lemma_frame_names_distinct(a: nat, b: nat)
    requires
        a != b,
    ensures
        frame_file_name_spec(a) != frame_file_name_spec(b),
{
    let pa = zero_padded(decimal(a), FRAME_NUMBER_WIDTH as nat);
    let pb = zero_padded(decimal(b), FRAME_NUMBER_WIDTH as nat);
    lemma_zero_padded_injective(a, b, FRAME_NUMBER_WIDTH as nat);
    let na = frame_file_name_spec(a);
    let nb = frame_file_name_spec(b);
    let p = "frame-"@;
    let s = ".png"@;
    assert(na == p + pa + s);
    assert(nb == p + pb + s);
    assert(na.len() == p.len() + pa.len() + s.len());
    assert(nb.len() == p.len() + pb.len() + s.len());
    if na == nb {
        assert(pa.len() == pb.len());
        assert(na.subrange(p.len() as int, (p.len() + pa.len()) as int) == pa);
        assert(nb.subrange(p.len() as int, (p.len() + pb.len()) as int) == pb);
    }
}

/// Up to a million frames, the files of a recording sort by name in the order
/// the frames were captured.
pub proof fn lemma_frame_names_sort_in_capture_order(a: nat, b: nat)
    requires
        a < b < 1000000,
    ensures
        lex_lt(frame_file_name_spec(a), frame_file_name_spec(b)),
{
    let w = FRAME_NUMBER_WIDTH as nat;
    let pa = zero_padded(decimal(a), w);
    let pb = zero_padded(decimal(b), w);
    assert(pow10(6) == 1000000) by {
        reveal_with_fuel(pow10, 7);
    }
    lemma_decimal_len(a, 6);
    lemma_decimal_len(b, 6);
    assert(pa.len() == 6 && pb.len() == 6);
    lemma_zero_padded_is_digit_text(a, w);
    lemma_zero_padded_is_digit_text(b, w);
    lemma_zero_padded_value(a, w);
    lemma_zero_padded_value(b, w);
    lemma_digit_text_order(pa, pb);
    let p = "frame-"@;
    let s = ".png"@;
    lemma_lex_lt_extend(pa, pb, s, s);
    lemma_lex_lt_common_prefix(p, pa + s, pb + s);
    assert(frame_file_name_spec(a) =~= p + (pa + s));
    assert(frame_file_name_spec(b) =~= p + (pb + s));
}

/// What pressing the record button asks for.
#[derive(Clone, Copy, Debug, PartialEq, Eq, Structural)]
pub enum RecordCommand {
    /// A recording was running and has been stopped.
    Stopped,
    /// No recording was running: the caller should create a recording
    /// directory and, once it exists, call `begin`.
    StartRequested,
}

/// The recording state: whether a recording runs, the number of the next
/// frame to capture and the directory frames go to.
pub struct FrameRecorder<P> {
    active: bool,
    frame: u64,
    output_dir: Option<P>,
}

impl<P> FrameRecorder<P> {
    /// Whether a recording runs.
    pub closed spec fn is_active(self) -> bool {
        self.active
    }

    /// The number of the next frame to capture.
    pub closed spec fn next_frame(self) -> nat {
        self.frame as nat
    }

    /// The directory of the current (or last) recording.
    pub closed spec fn dir(self) -> Option<P> {
        self.output_dir
    }

    /// An idle recorder with no directory.
    pub fn new() -> (r: Self)
        ensures
            !r.is_active(),
            r.next_frame() == 0,
            r.dir() is None,
    {
        FrameRecorder { active: false, frame: 0, output_dir: None }
    }

    /// Whether a recording runs.
    pub fn active(&self) -> (b: bool)
        ensures
            b == self.is_active(),
    {
        self.active
    }

    /// The number of the next frame to capture.
    pub fn frame(&self) -> (n: u64)
        ensures
            n == self.next_frame(),
    {
        self.frame
    }

    /// The directory of the current (or last) recording.
    pub fn output_dir(&self) -> (d: Option<&P>)
        ensures
            d == match self.dir() {
                Some(p) => Some(&p),
                None => None::<&P>,
            },
    {
        match &self.output_dir {
            Some(p) => Some(p),
            None => None,
        }
    }

    /// The caption of the record button: `Stop` while recording, `Record` otherwise.
    pub fn button_label(&self) -> (label: &'static str)
        ensures
            label@ == (if self.is_active() {
                "Stop"@
            } else {
                "Record"@
            }),
    {
        if self.active {
            "Stop"
        } else {
            "Record"
        }
    }

    /// Handles a press of the record button: a running recording stops; an idle
    /// recorder asks for a new recording to be started.
    pub fn press_record(&mut self) -> (command: RecordCommand)
        ensures
            old(self).is_active() ==> command == RecordCommand::Stopped && !final(self).is_active(),
            !old(self).is_active() ==> command == RecordCommand::StartRequested
                && final(self).is_active() == old(self).is_active(),
            final(self).next_frame() == old(self).next_frame(),
            final(self).dir() == old(self).dir(),
    {
        if self.active {
            self.active = false;
            RecordCommand::Stopped
        } else {
            RecordCommand::StartRequested
        }
    }

    /// Starts recording into `output_dir`, numbering frames from zero.
    pub fn begin(&mut self, output_dir: P)
        ensures
            final(self).is_active(),
            final(self).next_frame() == 0,
            final(self).dir() == Some(output_dir),
    {
        self.active = true;
        self.frame = 0;
        self.output_dir = Some(output_dir);
    }

    /// Stops recording; the frame number and directory are kept.
    pub fn stop(&mut self)
        ensures
            !final(self).is_active(),
            final(self).next_frame() == old(self).next_frame(),
            final(self).dir() == old(self).dir(),
    {
        self.active = false;
    }

    /// Claims the next frame of a due capture: while recording into a
    /// directory, returns the file name for the next frame number and moves
    /// to the following number; otherwise returns `None` and changes nothing.
    pub fn next_capture(&mut self) -> (name: Option<String>)
        requires
            old(self).next_frame() < u64::MAX,
        ensures
            (old(self).is_active() && old(self).dir() is Some) ==> {
                &&& name matches Some(n) && n@ == frame_file_name_spec(old(self).next_frame())
                &&& final(self).next_frame() == old(self).next_frame() + 1
            },
            !(old(self).is_active() && old(self).dir() is Some) ==> {
                &&& name is None
                &&& final(self).next_frame() == old(self).next_frame()
            },
            final(self).is_active() == old(self).is_active(),
            final(self).dir() == old(self).dir(),
    {
        if !self.active {
            return None;
        }
        if self.output_dir.is_none() {
            return None;
        }
        let name = frame_file_name(self.frame);
        self.frame = self.frame + 1;
        Some(name)
    }
}

impl<P> Default for FrameRecorder<P> {
    /// An idle recorder with no directory.
    fn default() -> (r: Self)
        ensures
            !r.is_active(),
            r.next_frame() == 0,
            r.dir() is None,
    {
        FrameRecorder::new()
    }
}

} // verus!
