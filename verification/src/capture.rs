//! Capture files: their frames, and the flow records found in them.

use netflow_parser::netflow_common::NetflowCommonFlowSet;
use pcap_file::pcap::PcapReader;
use vstd::prelude::*;
use vstd::slice::{slice_subrange, slice_to_vec};
use crate::decoder::{decode_with, fresh_decoder, records_of};
use crate::listener::PcapListener;

verus! {

/// How many leading bytes of every captured frame are skipped before the rest
/// is decoded.
pub const FRAME_HEADER_LEN: usize = 32;

/// A `pcap_file` reader over the bytes of a capture held in memory.
#[verifier::external_body]
pub struct CaptureReader<'a> {
    inner: PcapReader<&'a [u8]>,
}

/// What a capture reader hands over when asked for its next frame.
enum Frame {
    /// The bytes of the next captured frame.
    Data(Vec<u8>),
    /// The next record cannot be read; the reader does not get past it.
    Broken,
    /// The capture has no more frames.
    End,
}

/// How many bytes the header of a capture file takes.
pub const CAPTURE_HEADER_LEN: usize = 24;

/// The four bytes are one of the magic numbers of the capture format: for
/// timestamps in microseconds or in nanoseconds, in either byte order.
pub open spec fn is_capture_magic(b0: u8, b1: u8, b2: u8, b3: u8) -> bool {
    ||| (b0 == 0xA1 && b1 == 0xB2 && b2 == 0xC3 && b3 == 0xD4)
    ||| (b0 == 0xA1 && b1 == 0xB2 && b2 == 0x3C && b3 == 0x4D)
    ||| (b0 == 0xD4 && b1 == 0xC3 && b2 == 0xB2 && b3 == 0xA1)
    ||| (b0 == 0x4D && b1 == 0x3C && b2 == 0xB2 && b3 == 0xA1)
}

/// The bytes begin with the header of a capture file: they hold a whole
/// header, and it starts with a magic number of the format.
pub open spec fn opens_as_capture(bytes: Seq<u8>) -> bool {
    &&& bytes.len() >= CAPTURE_HEADER_LEN
    &&& is_capture_magic(bytes[0], bytes[1], bytes[2], bytes[3])
}

/// The data of the records that follow the header of a capture file, in their
/// order, up to the end of `bytes` or to the first record that `pcap_file`
/// cannot read: one that is damaged, cut short, or larger than its buffer.
pub uninterp spec fn capture_frames(bytes: Seq<u8>) -> Seq<Seq<u8>>;

/// The frames that a reader has yet to hand over.
pub uninterp spec fn frames_left(reader: CaptureReader) -> Seq<Seq<u8>>;

/// `PcapReader::new` on bytes held in memory: a reader, unless the bytes do
/// not begin with the header of a capture file. The call reads the header
/// and checks nothing in it but its length and its magic number.
#[verifier::external_body]
fn open_capture<'a>(bytes: &'a [u8]) -> (r: Option<CaptureReader<'a>>)
    ensures
        r is Some <==> opens_as_capture(bytes@),
        r matches Some(reader) ==> frames_left(reader) == capture_frames(bytes@),
{
    match PcapReader::new(bytes) {
        Ok(inner) => Some(CaptureReader { inner }),
        Err(_) => None,
    }
}

/// `PcapReader::next_packet`: the data of the next frame, with the reader
/// moved past its record, or that no frame is left, or that the next record
/// cannot be read. The reader does not move past a record that it cannot
/// read, so nothing follows such a record.
#[verifier::external_body]
fn next_frame(reader: &mut CaptureReader) -> (r: Frame)
    ensures
        match r {
            Frame::Data(data) => {
                &&& frames_left(*old(reader)).len() > 0
                &&& data@ == frames_left(*old(reader))[0]
                &&& frames_left(*final(reader)) == frames_left(*old(reader)).drop_first()
            },
            Frame::Broken => frames_left(*old(reader)).len() == 0,
            Frame::End => frames_left(*old(reader)).len() == 0,
        },
{
    match reader.inner.next_packet() {
        Some(Ok(packet)) => Frame::Data(packet.data.into_owned()),
        Some(Err(_)) => Frame::Broken,
        None => Frame::End,
    }
}

/// What of a captured frame is handed to the flow decoder: everything after
/// the first `FRAME_HEADER_LEN` bytes. A frame that is shorter has nothing to
/// decode.
pub open spec fn payload_of(frame: Seq<u8>) -> Option<Seq<u8>> {
    if frame.len() >= FRAME_HEADER_LEN {
        Some(frame.subrange(FRAME_HEADER_LEN as int, frame.len() as int))
    } else {
        None
    }
}

/// Splits the leading header off a captured frame.
pub fn frame_payload(frame: &[u8]) -> (r: Option<&[u8]>)
    ensures
        r is Some <==> frame@.len() >= FRAME_HEADER_LEN,
        match r {
            Some(payload) => Some(payload@) == payload_of(frame@),
            None => payload_of(frame@) is None,
        },
{
    if frame.len() >= FRAME_HEADER_LEN {
        Some(slice_subrange(frame, FRAME_HEADER_LEN, frame.len()))
    } else {
        None
    }
}

/// The views of the byte vectors of `s`.
pub open spec fn byte_views(s: Seq<Vec<u8>>) -> Seq<Seq<u8>> {
    s.map_values(|v: Vec<u8>| v@)
}

/// What of the frames is handed to the flow decoder, frame by frame; a frame
/// that is too short to hold the leading header is left out.
pub open spec fn payloads_of(frames: Seq<Seq<u8>>) -> Seq<Seq<u8>> {
    frames.filter_map(|frame: Seq<u8>| payload_of(frame))
}

impl PcapListener {
    /// What the frames of a capture file, given as its bytes, hold for the
    /// flow decoder: each frame without its leading header, in the order of
    /// the file. `None` where the bytes are no capture file at all.
    pub fn capture_payloads(bytes: &[u8]) -> (r: Option<Vec<Vec<u8>>>)
        ensures
            r is Some <==> opens_as_capture(bytes@),
            r matches Some(payloads) ==> byte_views(payloads@) == payloads_of(capture_frames(bytes@)),
    {
        let mut reader = match open_capture(bytes) {
            Some(reader) => reader,
            None => return None,
        };
        let mut payloads: Vec<Vec<u8>> = Vec::new();
        let ghost mut seen: Seq<Seq<u8>> = Seq::empty();
        proof {
            assert(seen + frames_left(reader) =~= capture_frames(bytes@));
            assert(byte_views(payloads@) =~= payloads_of(seen));
        }
        loop
            invariant_except_break
                seen + frames_left(reader) == capture_frames(bytes@),
                byte_views(payloads@) == payloads_of(seen),
            ensures
                byte_views(payloads@) == payloads_of(capture_frames(bytes@)),
            decreases frames_left(reader).len(),
        {
            let ghost left = frames_left(reader);
            let ghost before = byte_views(payloads@);
            match next_frame(&mut reader) {
                Frame::Data(frame) => {
                    proof {
                        let longer = seen.push(frame@);
                        assert(longer.drop_last() =~= seen);
                        assert(longer.last() == frame@);
                        assert(longer + left.drop_first() =~= seen + left);
                        seen = longer;
                    }
                    match frame_payload(frame.as_slice()) {
                        Some(payload) => {
                            let owned = slice_to_vec(payload);
                            payloads.push(owned);
                            proof {
                                assert(byte_views(payloads@) =~= before + seq![owned@]);
                            }
                        },
                        None => {},
                    }
                },
                Frame::Broken => {
                    proof {
                        assert(seen + left =~= seen);
                    }
                    break ;
                },
                Frame::End => {
                    proof {
                        assert(seen + left =~= seen);
                    }
                    break ;
                },
            }
        }
        Some(payloads)
    }

    /// The flow records found in a capture file, given as its bytes: every
    /// frame is stripped of its leading header and decoded on its own, by a
    /// decoder that knows nothing of the frames before it, and the records
    /// come in the order of the frames. A frame too short to hold the header
    /// yields nothing. Reading ends with the last frame, or at the first
    /// record that cannot be read. `None` where the bytes are no capture file
    /// at all.
    pub fn process_pcap(bytes: &[u8]) -> (r: Option<Vec<NetflowCommonFlowSet>>)
        ensures
            r is Some <==> opens_as_capture(bytes@),
            r matches Some(flowsets) ==> flowsets@ == records_of(
                payloads_of(capture_frames(bytes@)),
            ),
    {
        let payloads = match PcapListener::capture_payloads(bytes) {
            Some(payloads) => payloads,
            None => return None,
        };
        let ghost all = byte_views(payloads@);
        let mut flowsets: Vec<NetflowCommonFlowSet> = Vec::new();
        let mut i: usize = 0;
        proof {
            assert(all.take(0) =~= Seq::empty());
        }
        while i < payloads.len()
            invariant
                i <= payloads@.len(),
                all == byte_views(payloads@),
                flowsets@ == records_of(all.take(i as int)),
            decreases payloads@.len() - i,
        {
            let mut decoder = fresh_decoder();
            let mut found = decode_with(&mut decoder, payloads[i].as_slice());
            proof {
                assert(all.take(i + 1).drop_last() =~= all.take(i as int));
                assert(all.take(i + 1).last() == payloads@[i as int]@);
            }
            flowsets.append(&mut found);
            i += 1;
        }
        proof {
            assert(all.take(payloads@.len() as int) =~= all);
        }
        Some(flowsets)
    }
}

} // verus!
