//! Handing built UDS frames to a target. A writer receives each frame with
//! its index; the binary-file writers here plan the files to write (one
//! file, or one numbered file per frame of a sequence) for the caller to
//! put on disk.
use vstd::prelude::*;
use crate::text::{chars_to_string, digits_in, digits_padded, pad_zeros};

verus! {

/// A frame as handed to a writer: its bytes and, for a single request, the
/// ECU it is meant for.
pub struct UdsFrameWriteContext<'a> {
    pub bytes: &'a [u8],
    pub target_ecu: Option<&'a str>,
}

/// A frame as recorded: its index, bytes and target ECU.
pub open spec fn frame_record(index: usize, frame: &UdsFrameWriteContext<'_>) -> (
    int,
    Seq<u8>,
    Option<Seq<char>>,
) {
    (
        index as int,
        frame.bytes@,
        match frame.target_ecu {
            Some(e) => Some(e@),
            None => None,
        },
    )
}

/// A target that UDS frames are written to: files, a socket, a bus. A
/// writer keeps the frames it accepted, in order.
pub trait UdsFrameWriter {
    /// The frames accepted so far: index, bytes and target ECU.
    spec fn accepted(&self) -> Seq<(int, Seq<u8>, Option<Seq<char>>)>;

    /// Whether the writer, as it stands, takes the frame `record`.
    spec fn accepts(&self, record: (int, Seq<u8>, Option<Seq<char>>)) -> bool;

    /// Where the writer, as it stands, puts the frame `record`.
    spec fn destination(&self, record: (int, Seq<u8>, Option<Seq<char>>)) -> Seq<char>;

    /// Why the writer, as it stands, refuses the frame `record`.
    spec fn refusal(&self, record: (int, Seq<u8>, Option<Seq<char>>)) -> Seq<char>;

    /// Writes one frame and tells where it went.
    fn write_frame(&mut self, frame_index: usize, frame: &UdsFrameWriteContext<'_>) -> (r: Result<
        String,
        String,
    >)
        ensures
            r is Ok == old(self).accepts(frame_record(frame_index, frame)),
            r matches Ok(p) ==> p@ == old(self).destination(frame_record(frame_index, frame)),
            r matches Err(e) ==> e@ == old(self).refusal(frame_record(frame_index, frame)),
            r is Ok ==> final(self).accepted() == old(self).accepted().push(
                frame_record(frame_index, frame),
            ),
            r is Err ==> final(self).accepted() == old(self).accepted(),
            forall|x: (int, Seq<u8>, Option<Seq<char>>)| #[trigger] final(self).accepts(x)
                == old(self).accepts(x),
            forall|x: (int, Seq<u8>, Option<Seq<char>>)| #[trigger] final(self).destination(x)
                == old(self).destination(x),
            forall|x: (int, Seq<u8>, Option<Seq<char>>)| #[trigger] final(self).refusal(x)
                == old(self).refusal(x),
    ;
}

/// A file to write: where, and what.
#[derive(Debug)]
pub struct PlannedFile {
    pub path: String,
    pub bytes: Vec<u8>,
}

/// Writes each frame to one `.bin` file, replacing what was there.
pub struct SingleBinFrameWriter {
    pub output_path: String,
    pub planned: Vec<PlannedFile>,
    pub accepted_frames: Ghost<Seq<(int, Seq<u8>, Option<Seq<char>>)>>,
}

impl SingleBinFrameWriter {
    /// A writer to the file `output_path`, with nothing written yet.
    pub fn new(output_path: String) -> (w: Self)
        ensures
            w.output_path == output_path,
            w.planned@.len() == 0,
            w.accepted() == Seq::<(int, Seq<u8>, Option<Seq<char>>)>::empty(),
    {
        SingleBinFrameWriter { output_path, planned: Vec::new(), accepted_frames: Ghost(Seq::empty()) }
    }
}

impl UdsFrameWriter for SingleBinFrameWriter {
    open spec fn accepted(&self) -> Seq<(int, Seq<u8>, Option<Seq<char>>)> {
        self.accepted_frames@
    }

    /// Every frame is taken.
    open spec fn accepts(&self, record: (int, Seq<u8>, Option<Seq<char>>)) -> bool {
        true
    }

    /// Every frame goes to the output file.
    open spec fn destination(&self, record: (int, Seq<u8>, Option<Seq<char>>)) -> Seq<char> {
        self.output_path@
    }

    /// No frame is refused, so there is no reason to give.
    open spec fn refusal(&self, record: (int, Seq<u8>, Option<Seq<char>>)) -> Seq<char> {
        Seq::empty()
    }

    /// Plans writing the frame's bytes to the output file.
    fn write_frame(&mut self, frame_index: usize, frame: &UdsFrameWriteContext<'_>) -> (r: Result<
        String,
        String,
    >)
        ensures
            r matches Ok(p) && p@ == old(self).output_path@,
            final(self).output_path == old(self).output_path,
            final(self).planned@.len() == old(self).planned@.len() + 1,
            final(self).planned@.last().path@ == old(self).output_path@,
            final(self).planned@.last().bytes@ == frame.bytes@,
            final(self).planned@.drop_last() == old(self).planned@,
    {
        let bytes = vstd::slice::slice_to_vec(frame.bytes);
        let path = self.output_path.clone();
        self.planned.push(PlannedFile { path, bytes });
        self.accepted_frames = Ghost(self.accepted_frames@.push(frame_record(frame_index, frame)));
        assert(self.planned@.drop_last() =~= old(self).planned@);
        Ok(self.output_path.clone())
    }
}

/// The number a frame's file carries: its index plus one, in wrapping
/// machine arithmetic.
pub open spec fn frame_number(index: usize) -> nat {
    if index == usize::MAX {
        0
    } else {
        (index + 1) as nat
    }
}

/// The file name of the `index`-th frame (from 0) of a sequence:
/// `frame_001.bin` for the first.
pub open spec fn frame_file_name(index: usize) -> Seq<char> {
    "frame_"@ + pad_zeros(digits_in(frame_number(index), 10), 3) + ".bin"@
}

/// Writes each frame of a sequence to its own numbered `.bin` file in one
/// folder.
pub struct BinSequenceFrameWriter {
    pub output_dir: String,
    pub planned: Vec<PlannedFile>,
    pub accepted_frames: Ghost<Seq<(int, Seq<u8>, Option<Seq<char>>)>>,
}

impl BinSequenceFrameWriter {
    /// A writer into the folder `output_dir`, with nothing written yet.
    pub fn new(output_dir: String) -> (w: Self)
        ensures
            w.output_dir == output_dir,
            w.planned@.len() == 0,
            w.accepted() == Seq::<(int, Seq<u8>, Option<Seq<char>>)>::empty(),
    {
        BinSequenceFrameWriter { output_dir, planned: Vec::new(), accepted_frames: Ghost(Seq::empty()) }
    }
}

impl UdsFrameWriter for BinSequenceFrameWriter {
    open spec fn accepted(&self) -> Seq<(int, Seq<u8>, Option<Seq<char>>)> {
        self.accepted_frames@
    }

    /// Every frame is taken.
    open spec fn accepts(&self, record: (int, Seq<u8>, Option<Seq<char>>)) -> bool {
        true
    }

    /// A frame goes to the file numbered after its index.
    open spec fn destination(&self, record: (int, Seq<u8>, Option<Seq<char>>)) -> Seq<char> {
        frame_file_name(record.0 as usize)
    }

    /// No frame is refused, so there is no reason to give.
    open spec fn refusal(&self, record: (int, Seq<u8>, Option<Seq<char>>)) -> Seq<char> {
        Seq::empty()
    }

    /// Plans writing the frame's bytes to `frame_NNN.bin` (numbered from 1)
    /// in the output folder; the file name is returned.
    fn write_frame(&mut self, frame_index: usize, frame: &UdsFrameWriteContext<'_>) -> (r: Result<
        String,
        String,
    >)
        ensures
            r matches Ok(p) && p@ == frame_file_name(frame_index),
            final(self).output_dir == old(self).output_dir,
            final(self).planned@.len() == old(self).planned@.len() + 1,
            final(self).planned@.last().path@ == frame_file_name(frame_index),
            final(self).planned@.last().bytes@ == frame.bytes@,
            final(self).planned@.drop_last() == old(self).planned@,
    {
        let number: usize = if frame_index == usize::MAX {
            0
        } else {
            frame_index + 1
        };
        let digits = digits_padded(number as u64, 10, 3);
        let mut name = String::from_str("frame_");
        let d = chars_to_string(&digits);
        name.append(d.as_str());
        name.append(".bin");
        let bytes = vstd::slice::slice_to_vec(frame.bytes);
        self.planned.push(PlannedFile { path: name.clone(), bytes });
        self.accepted_frames = Ghost(self.accepted_frames@.push(frame_record(frame_index, frame)));
        assert(self.planned@.drop_last() =~= old(self).planned@);
        Ok(name)
    }
}

/// Hands one request frame, as frame 0, to `writer`.
pub fn write_single_uds_frame<W: UdsFrameWriter>(
    writer: &mut W,
    frame: &[u8],
    target_ecu: Option<&str>,
) -> (r: Result<String, String>)
    ensures
        r is Ok == old(writer).accepts(
            (
                0,
                frame@,
                match target_ecu {
                    Some(e) => Some(e@),
                    None => None,
                },
            ),
        ),
        r matches Ok(p) ==> p@ == old(writer).destination(
            (
                0,
                frame@,
                match target_ecu {
                    Some(e) => Some(e@),
                    None => None,
                },
            ),
        ),
        r matches Err(e) ==> e@ == old(writer).refusal(
            (
                0,
                frame@,
                match target_ecu {
                    Some(e) => Some(e@),
                    None => None,
                },
            ),
        ),
        r is Ok ==> final(writer).accepted() == old(writer).accepted().push(
            (
                0,
                frame@,
                match target_ecu {
                    Some(e) => Some(e@),
                    None => None,
                },
            ),
        ),
        r is Err ==> final(writer).accepted() == old(writer).accepted(),
{
    writer.write_frame(0, &UdsFrameWriteContext { bytes: frame, target_ecu })
}

/// The frames of a sequence as a writer records them: numbered from 0, with
/// no target ECU.
pub open spec fn sequence_records(frames: Seq<Vec<u8>>) -> Seq<(int, Seq<u8>, Option<Seq<char>>)> {
    Seq::new(frames.len(), |i: int| (i, frames[i]@, None))
}

/// Hands the frames of a sequence to `writer` in order, numbered from 0,
/// stopping at the first frame it refuses.
pub fn write_uds_sequence<W: UdsFrameWriter>(writer: &mut W, frames: &[Vec<u8>]) -> (r: Result<
    Vec<String>,
    String,
>)
    ensures
        r is Ok == forall|i: int|
            0 <= i < frames@.len() ==> old(writer).accepts(#[trigger] sequence_records(frames@)[i]),
        r matches Ok(written) ==> written@.len() == frames@.len() && final(writer).accepted()
            == old(writer).accepted() + sequence_records(frames@),
        r matches Ok(written) ==> forall|i: int|
            0 <= i < frames@.len() ==> (#[trigger] written@[i])@ == old(writer).destination(
                sequence_records(frames@)[i],
            ),
        r matches Err(e) ==> exists|k: int|
            0 <= k < frames@.len() && final(writer).accepted() == old(writer).accepted()
                + sequence_records(frames@.take(k)) && !old(writer).accepts(
                #[trigger] sequence_records(frames@)[k],
            ) && e@ == old(writer).refusal(sequence_records(frames@)[k]) && forall|j: int|
                0 <= j < k ==> old(writer).accepts(sequence_records(frames@)[j]),
{
    let ghost recs = sequence_records(frames@);
    let mut written: Vec<String> = Vec::new();
    let mut index: usize = 0;
    assert(sequence_records(frames@.take(0)) =~= Seq::<(int, Seq<u8>, Option<Seq<char>>)>::empty());
    assert(writer.accepted() =~= old(writer).accepted() + sequence_records(frames@.take(0)));
    while index < frames.len()
        invariant
            index <= frames@.len(),
            written@.len() == index,
            writer.accepted() == old(writer).accepted() + sequence_records(frames@.take(index as int)),
            recs == sequence_records(frames@),
            forall|x: (int, Seq<u8>, Option<Seq<char>>)| #[trigger] writer.accepts(x) == old(writer).accepts(x),
            forall|x: (int, Seq<u8>, Option<Seq<char>>)| #[trigger] writer.destination(x)
                == old(writer).destination(x),
            forall|x: (int, Seq<u8>, Option<Seq<char>>)| #[trigger] writer.refusal(x)
                == old(writer).refusal(x),
            forall|k: int| 0 <= k < index ==> old(writer).accepts(#[trigger] recs[k]),
            forall|k: int| 0 <= k < index ==> (#[trigger] written@[k])@ == old(writer).destination(recs[k]),
        decreases frames@.len() - index,
    {
        let context = UdsFrameWriteContext { bytes: frames[index].as_slice(), target_ecu: None };
        assert(frame_record(index, &context) == recs[index as int]);
        let ghost before = writer.accepted();
        match writer.write_frame(index, &context) {
            Ok(p) => {
                written.push(p);
            },
            Err(e) => {
                return Err(e);
            },
        }
        assert(sequence_records(frames@.take(index + 1)) =~= sequence_records(frames@.take(index as int)).push(
            (index as int, frames@[index as int]@, None),
        ));
        assert(writer.accepted() =~= old(writer).accepted() + sequence_records(frames@.take(index + 1)));
        index += 1;
    }
    assert(frames@.take(frames@.len() as int) =~= frames@);
    Ok(written)
}

} // verus!
