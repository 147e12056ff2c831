//! Mach-O segments.
//!
//! Segments describe ranges of virtual memory and where their bytes live in
//! the file.  They are not parsed from scratch: a second pass over the
//! already-walked load commands reinterprets every `LC_SEGMENT` and
//! `LC_SEGMENT_64` record as a [`Segment`], reading the name and the
//! address, size and protection words at fixed offsets from the command's
//! start.

use vstd::prelude::*;
use vstd::slice::slice_subrange;
use vstd::string::StringSliceAdditionalSpecFns;

use super::header::Endianness;
use super::load_command::LoadCommand;
use crate::errors::FileParseError;
use crate::field::Field;
use crate::utils::{
    decode_utf8_lossy, lossy_decode, read_u32_at, read_u64_at, span_fits, trim_end_nuls,
    trim_trailing_nuls, word_at,
};

verus! {

/// One memory segment, reinterpreted from a segment load command.
#[derive(Debug)]
pub struct Segment {
    pub name: String,
    pub vmaddr: Field<u64>,
    pub vmsize: Field<u64>,
    pub fileoff: Field<u64>,
    pub filesize: Field<u64>,
    pub maxprot: Field<u32>,
    pub initprot: Field<u32>,
    pub nsects: Field<u32>,
    pub flags: Field<u32>,
}

/// Whether a load command is `LC_SEGMENT` or `LC_SEGMENT_64`.
pub open spec fn seg_cmd(c: LoadCommand) -> bool {
    c.cmd.value == 0x1 || c.cmd.value == 0x19
}

/// Whether `s` is exactly the segment encoded at `off` in `b`: the name is
/// the 16 name bytes decoded as UTF-8 and stripped of trailing NULs, and
/// every scalar sits at its fixed offset from the command's start.
pub open spec fn seg_matches(s: Segment, b: Seq<u8>, off: int, big: bool) -> bool {
    &&& s.name@ == trim_trailing_nuls(lossy_decode(b.subrange(off + 8, off + 24)))
    &&& s.vmaddr.value == word_at(b, off + 24, 8, big)
    &&& s.vmaddr.offset == off + 24
    &&& s.vmaddr.size == 8
    &&& s.vmsize.value == word_at(b, off + 32, 8, big)
    &&& s.vmsize.offset == off + 32
    &&& s.vmsize.size == 8
    &&& s.fileoff.value == word_at(b, off + 40, 8, big)
    &&& s.fileoff.offset == off + 40
    &&& s.fileoff.size == 8
    &&& s.filesize.value == word_at(b, off + 48, 8, big)
    &&& s.filesize.offset == off + 48
    &&& s.filesize.size == 8
    &&& s.maxprot.value == word_at(b, off + 56, 4, big)
    &&& s.maxprot.offset == off + 56
    &&& s.maxprot.size == 4
    &&& s.initprot.value == word_at(b, off + 60, 4, big)
    &&& s.initprot.offset == off + 60
    &&& s.initprot.size == 4
    &&& s.nsects.value == word_at(b, off + 64, 4, big)
    &&& s.nsects.offset == off + 64
    &&& s.nsects.size == 4
    &&& s.flags.value == word_at(b, off + 68, 4, big)
    &&& s.flags.offset == off + 68
    &&& s.flags.size == 4
}

/// Whether every segment command's 72 fixed bytes lie inside the buffer.
pub open spec fn segments_ok(cmds: Seq<LoadCommand>, b: Seq<u8>) -> bool {
    forall|k: int|
        0 <= k < cmds.len() && seg_cmd(#[trigger] cmds[k]) ==> cmds[k].cmd.offset + 72 <= b.len()
}

/// Whether `segs` holds exactly one decoded segment for each segment
/// command of `cmds`, in order.
pub open spec fn segments_match(
    cmds: Seq<LoadCommand>,
    segs: Seq<Segment>,
    b: Seq<u8>,
    big: bool,
) -> bool
    decreases cmds.len(),
{
    if cmds.len() == 0 {
        segs.len() == 0
    } else if seg_cmd(cmds.last()) {
        &&& segs.len() > 0
        &&& seg_matches(segs.last(), b, cmds.last().cmd.offset as int, big)
        &&& segments_match(cmds.drop_last(), segs.drop_last(), b, big)
    } else {
        segments_match(cmds.drop_last(), segs, b, big)
    }
}

impl Segment {
    /// Reinterprets every segment command among `load_commands` as a
    /// [`Segment`].
    ///
    /// Fails with `BufferOverflow`, and only with it, exactly when some
    /// segment command's 72 fixed bytes would run past the end of the
    /// buffer; otherwise returns one segment per segment command, in
    /// order, decoded under `endianness`.
    pub fn parse_segments(
        buffer: &[u8],
        load_commands: &[LoadCommand],
        endianness: Endianness,
    ) -> (r: Result<Vec<Segment>, FileParseError>)
        ensures
            r is Ok <==> segments_ok(load_commands@, buffer@),
            r matches Err(e) ==> e is BufferOverflow,
            r matches Ok(v) ==> segments_match(load_commands@, v@, buffer@, endianness is Big),
    {
        let big = matches!(endianness, Endianness::Big);
        let len: usize = buffer.len();
        let ncmds: usize = load_commands.len();
        let mut segments: Vec<Segment> = Vec::new();
        let mut i: usize = 0;
        while i < ncmds
            invariant
                i <= ncmds,
                len == buffer@.len(),
                ncmds == load_commands@.len(),
                big == (endianness is Big),
                segments_match(load_commands@.take(i as int), segments@, buffer@, big),
                forall|k: int|
                    0 <= k < i && seg_cmd(#[trigger] load_commands@[k])
                        ==> load_commands@[k].cmd.offset + 72 <= len,
            decreases ncmds - i,
        {
            let ghost prev_segs = segments@;
            let c: &LoadCommand = &load_commands[i];
            let tag: u32 = c.cmd.value;
            if tag == 0x1 || tag == 0x19 {
                let off: usize = c.cmd.offset;
                if !span_fits(len, off as u64, 72) {
                    return Err(FileParseError::BufferOverflow);
                }
                let name_bytes: &[u8] = slice_subrange(buffer, off + 8, off + 24);
                let decoded = decode_utf8_lossy(name_bytes);
                let name = trim_end_nuls(decoded.as_str());

                let vmaddr = Field::new(read_u64_at(buffer, off + 24, big), off + 24, 8);
                let vmsize = Field::new(read_u64_at(buffer, off + 32, big), off + 32, 8);
                let fileoff = Field::new(read_u64_at(buffer, off + 40, big), off + 40, 8);
                let filesize = Field::new(read_u64_at(buffer, off + 48, big), off + 48, 8);
                let maxprot = Field::new(read_u32_at(buffer, off + 56, big), off + 56, 4);
                let initprot = Field::new(read_u32_at(buffer, off + 60, big), off + 60, 4);
                let nsects = Field::new(read_u32_at(buffer, off + 64, big), off + 64, 4);
                let flags = Field::new(read_u32_at(buffer, off + 68, big), off + 68, 4);

                segments.push(
                    Segment {
                        name,
                        vmaddr,
                        vmsize,
                        fileoff,
                        filesize,
                        maxprot,
                        initprot,
                        nsects,
                        flags,
                    },
                );
                proof {
                    assert(segments@.drop_last() =~= prev_segs);
                    assert(seg_matches(segments@.last(), buffer@, off as int, big));
                }
            }
            i = i + 1;
            proof {
                assert(load_commands@.take(i as int).drop_last() =~= load_commands@.take(
                    i - 1,
                ));
                assert(load_commands@.take(i as int).last() == load_commands@[i - 1]);
            }
        }
        proof {
            assert(load_commands@.take(ncmds as int) =~= load_commands@);
        }
        Ok(segments)
    }
}

} // verus!
