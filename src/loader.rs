//! Placing an executable image in memory: every loadable segment of an ELF
//! file is copied to its physical address, and the entry point is handed
//! back for the program counter.

use crate::bus::{overwrite, Bus};
use elf::endian::LittleEndian;
use elf::{ElfBytes, ParseError};
use vstd::prelude::*;
use vstd::slice::slice_subrange;

verus! {

#[verifier::external_type_specification]
#[verifier::external_body]
pub struct ExParseError(ParseError);

/// What elf's parser reads from the bytes of a little-endian ELF file:
/// `None` where they do not parse, else the entry address and the program
/// headers in file order (`None` where there is no program header table).
pub uninterp spec fn elf_parsed(data: Seq<u8>) -> Option<(u64, Option<Seq<Segment>>)>;

/// Relies on `ElfBytes::minimal_parse` to read the file header of `data`,
/// on its `e_entry` field for the entry address, and on `ElfBytes::segments`
/// and the iterator of that table for the program headers in file order;
/// all of these depend on the bytes alone.
#[verifier::external_body]
fn read_elf(data: &[u8]) -> (r: Result<ElfLayout, ParseError>)
    ensures
        match elf_parsed(data@) {
            None => r is Err,
            Some((entry, segs)) => r matches Ok(l) && l.entry == entry && match segs {
                None => l.segments is None,
                Some(s) => l.segments matches Some(v) && v@ == s,
            },
        },
{
    let file = ElfBytes::<LittleEndian>::minimal_parse(data)?;
    let segments = file.segments().map(
        |table|
            table.iter().map(
                |h|
                    Segment {
                        kind: h.p_type,
                        offset: h.p_offset,
                        file_size: h.p_filesz,
                        physical_address: h.p_paddr,
                    },
            ).collect(),
    );
    Ok(ElfLayout { entry: file.ehdr.e_entry, segments })
}

/// What the loader reads from an ELF file: the entry address, and the
/// program headers (`None` where the file has no program header table).
pub struct ElfLayout {
    pub entry: u64,
    pub segments: Option<Vec<Segment>>,
}

/// The segment type of a loadable segment.
pub const PT_LOAD: u32 = 1;

/// What the loader reads from one program header.
#[derive(Debug, Clone, Copy, PartialEq, Eq, Structural)]
pub struct Segment {
    pub kind: u32,
    pub offset: u64,
    pub file_size: u64,
    pub physical_address: u64,
}

/// Where execution of a loaded program begins.
#[derive(Debug, Clone, Copy, PartialEq, Eq, Structural)]
pub struct EntryPoint(pub u64);

impl EntryPoint {
    /// The address of the first instruction.
    pub fn virtual_address(&self) -> (r: u64)
        ensures
            r == self.0,
    {
        self.0
    }
}

/// Why an image could not be loaded.
#[derive(Debug)]
pub enum LoaderError {
    /// The image has no loadable segment.
    NoSegments,
    /// A loadable segment reaches past the end of the image or of memory.
    SegmentOutOfBounds,
    /// The image is not a well-formed ELF file.
    ParseError(ParseError),
}

/// Whether segment `s` is to be copied into memory.
pub open spec fn is_loadable(s: Segment) -> bool {
    s.kind == PT_LOAD
}

/// Whether segment `s` lies inside an image of `image_len` bytes and, once
/// placed, inside a memory of `mem_len` bytes.
pub open spec fn segment_fits(s: Segment, image_len: nat, mem_len: nat) -> bool {
    s.offset + s.file_size <= image_len && s.physical_address + s.file_size <= mem_len
}

/// Whether some segment of `segs` is loadable.
pub open spec fn has_loadable(segs: Seq<Segment>) -> bool {
    exists|i: int| 0 <= i < segs.len() && is_loadable(#[trigger] segs[i])
}

/// Whether every loadable segment of `segs` fits the image and memory.
pub open spec fn all_fit(segs: Seq<Segment>, image_len: nat, mem_len: nat) -> bool {
    forall|i: int|
        0 <= i < segs.len() && is_loadable(#[trigger] segs[i]) ==> segment_fits(
            segs[i],
            image_len,
            mem_len,
        )
}

/// Memory after copying each loadable segment of `segs`, in order, from
/// `image` to its physical address.
pub open spec fn load_image(mem: Seq<u8>, image: Seq<u8>, segs: Seq<Segment>) -> Seq<u8>
    decreases segs.len(),
{
    if segs.len() == 0 {
        mem
    } else {
        let prior = load_image(mem, image, segs.drop_last());
        let s = segs.last();
        if is_loadable(s) {
            overwrite(
                prior,
                s.physical_address as int,
                image.subrange(s.offset as int, s.offset + s.file_size),
            )
        } else {
            prior
        }
    }
}

/// Loading segments never changes the size of memory.
proof fn lemma_load_image_len(mem: Seq<u8>, image: Seq<u8>, segs: Seq<Segment>)
    ensures
        load_image(mem, image, segs).len() == mem.len(),
    decreases segs.len(),
{
    if segs.len() > 0 {
        lemma_load_image_len(mem, image, segs.drop_last());
    }
}

/// Copies every loadable segment of `segments` from `image` into memory.
/// Fails, and leaves memory as it was, where no segment is loadable or a
/// loadable one does not fit.
pub fn load_segments(bus: &mut Bus, image: &[u8], segments: &Vec<Segment>) -> (r: Result<
    (),
    LoaderError,
>)
    ensures
        !has_loadable(segments@) ==> r matches Err(LoaderError::NoSegments),
        has_loadable(segments@) && !all_fit(segments@, image@.len(), old(bus).memory@.len())
            ==> r matches Err(LoaderError::SegmentOutOfBounds),
        has_loadable(segments@) && all_fit(segments@, image@.len(), old(bus).memory@.len())
            ==> r is Ok,
        r is Ok ==> final(bus).memory@ == load_image(old(bus).memory@, image@, segments@),
        r is Err ==> final(bus).memory@ == old(bus).memory@,
{
    let mem_len = bus.memory.len() as u64;
    let image_size = image.len();
    let image_len = image_size as u64;
    let mut any = false;
    let mut i: usize = 0;
    while i < segments.len()
        invariant
            i <= segments@.len(),
            mem_len == bus.memory@.len(),
            image_len == image@.len(),
            any == exists|j: int| 0 <= j < i && is_loadable(#[trigger] segments@[j]),
            forall|j: int|
                0 <= j < i && is_loadable(#[trigger] segments@[j]) ==> segment_fits(
                    segments@[j],
                    image@.len(),
                    bus.memory@.len(),
                ),
        decreases segments@.len() - i,
    {
        let s = segments[i];
        if s.kind == PT_LOAD {
            any = true;
            let fits_image = s.offset <= image_len && s.file_size <= image_len - s.offset;
            let fits_memory = s.physical_address <= mem_len && s.file_size <= mem_len
                - s.physical_address;
            if !(fits_image && fits_memory) {
                return Err(LoaderError::SegmentOutOfBounds);
            }
        }
        i = i + 1;
    }
    if !any {
        return Err(LoaderError::NoSegments);
    }
    let ghost mem = bus.memory@;
    let mut i: usize = 0;
    while i < segments.len()
        invariant
            i <= segments@.len(),
            mem.len() == mem_len,
            image_len == image@.len(),
            image_size == image@.len(),
            all_fit(segments@, image@.len(), mem.len()),
            bus.memory@ == load_image(mem, image@, segments@.subrange(0, i as int)),
        decreases segments@.len() - i,
    {
        proof {
            assert(segments@.subrange(0, i + 1).drop_last() =~= segments@.subrange(0, i as int));
            lemma_load_image_len(mem, image@, segments@.subrange(0, i as int));
        }
        let s = segments[i];
        if s.kind == PT_LOAD {
            assert(segment_fits(segments@[i as int], image@.len(), mem.len()));
            let from = s.offset as usize;
            let to = (s.offset + s.file_size) as usize;
            let bytes = slice_subrange(image, from, to);
            bus.store_bytes(s.physical_address, bytes);
        }
        i = i + 1;
    }
    proof {
        assert(segments@.subrange(0, segments@.len() as int) =~= segments@);
    }
    Ok(())
}

/// Parses `elf_bytes` as a little-endian ELF file and copies its loadable
/// segments into memory; returns the entry point. On an error memory is
/// left as it was.
pub fn load_elf_file(bus: &mut Bus, elf_bytes: &[u8]) -> (r: Result<EntryPoint, LoaderError>)
    ensures
        r is Err ==> final(bus).memory@ == old(bus).memory@,
        match elf_parsed(elf_bytes@) {
            None => r matches Err(LoaderError::ParseError(_)),
            Some((_, None)) => r matches Err(LoaderError::NoSegments),
            Some((entry, Some(segs))) => if !has_loadable(segs) {
                r matches Err(LoaderError::NoSegments)
            } else if !all_fit(segs, elf_bytes@.len(), old(bus).memory@.len()) {
                r matches Err(LoaderError::SegmentOutOfBounds)
            } else {
                &&& r == Ok::<EntryPoint, LoaderError>(EntryPoint(entry))
                &&& final(bus).memory@ == load_image(old(bus).memory@, elf_bytes@, segs)
            },
        },
{
    let layout = match read_elf(elf_bytes) {
        Ok(layout) => layout,
        Err(e) => {
            return Err(LoaderError::ParseError(e));
        },
    };
    let segments = match layout.segments {
        Some(segments) => segments,
        None => {
            return Err(LoaderError::NoSegments);
        },
    };
    match load_segments(bus, elf_bytes, &segments) {
        Ok(()) => Ok(EntryPoint(layout.entry)),
        Err(e) => Err(e),
    }
}

} // verus!
