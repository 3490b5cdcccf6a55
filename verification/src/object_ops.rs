//! The operations that the `object` crate performs for the assembler.
//!
//! Nothing in this file is proved: each function hands plain values to the
//! crate's ELF builder and states, as its contract, what the builder's
//! source shows that it does with them.

use vstd::prelude::*;
use object::build::ByteString;
use object::build::elf::Builder;
use object::Endianness;
use crate::elf::{ElfSection, ElfSectionView, ElfSegment, ElfSegmentView, PT_LOAD, SHT_NOBITS};

verus! {

/// `x` raised to where the bits of `align - 1` are clear: the next multiple
/// of `align` when `align` is a power of two.
pub open spec fn mask_up(x: int, align: u64) -> u64 {
    ((x + (align - 1)) as u64) & !((align - 1) as u64)
}

/// The ranges of a segment and the place of a section after the section
/// has been appended to the segment.
#[derive(Clone, Copy, Debug, PartialEq, Eq, Structural)]
pub struct AppendedRanges {
    pub p_offset: u64,
    pub p_vaddr: u64,
    pub p_paddr: u64,
    pub p_filesz: u64,
    pub p_memsz: u64,
    pub sh_offset: u64,
    pub sh_addr: u64,
}

/// Appending `section` to `segment` stays within 64-bit arithmetic, and
/// the segment holds no memory-only tail yet.
pub open spec fn can_append(segment: ElfSegmentView, section: ElfSectionView) -> bool {
    &&& segment.p_type == PT_LOAD
    &&& segment.p_filesz == segment.p_memsz
    &&& section.sh_addralign >= 1
    &&& segment.p_offset + segment.p_filesz + (section.sh_addralign - 1) + section.sh_size
        <= u64::MAX
    &&& segment.p_paddr + segment.p_memsz + (section.sh_addralign - 1) + section.sh_size
        <= u64::MAX
}

/// Where a section lands behind the end of a load segment, and how far the
/// segment then reaches.
///
/// The section goes to the end of the segment's file range and of its
/// address range, each raised to the section's alignment.  A segment
/// without memory size takes its ranges from the section; any other is
/// stretched to include it.  A `SHT_NOBITS` section adds nothing to the
/// file range.
pub open spec fn appended(segment: ElfSegmentView, section: ElfSectionView) -> AppendedRanges {
    let align = section.sh_addralign;
    let offset = mask_up(segment.p_offset + segment.p_filesz, align);
    let addr = mask_up(segment.p_paddr + segment.p_memsz, align);
    let file_size = if section.sh_type == SHT_NOBITS {
        0
    } else {
        section.sh_size
    };
    if segment.p_memsz == 0 {
        AppendedRanges {
            p_offset: offset,
            p_vaddr: addr,
            p_paddr: addr,
            p_filesz: file_size,
            p_memsz: section.sh_size,
            sh_offset: offset,
            sh_addr: addr,
        }
    } else {
        let p_offset = if segment.p_offset > offset {
            offset
        } else {
            segment.p_offset
        };
        let file_end = (offset + file_size - p_offset) as u64;
        let moved = segment.p_vaddr > addr;
        let p_vaddr = if moved {
            addr
        } else {
            segment.p_vaddr
        };
        let mem_end = (addr + section.sh_size - p_vaddr) as u64;
        AppendedRanges {
            p_offset,
            p_vaddr,
            p_paddr: if moved {
                addr
            } else {
                segment.p_paddr
            },
            p_filesz: if segment.p_filesz < file_end {
                file_end
            } else {
                segment.p_filesz
            },
            p_memsz: if segment.p_memsz < mem_end {
                mem_end
            } else {
                segment.p_memsz
            },
            sh_offset: offset,
            sh_addr: addr,
        }
    }
}

/// `object::build::elf::Segment::append_section`, on a builder's segment
/// and section that carry the ranges, type, size and alignment of the
/// arguments.
///
/// Believed: the ranges that the builder leaves in the segment and the
/// offset and address that it gives the section are those of `appended`.
/// The builder asserts that the segment's file and memory sizes agree and
/// computes without overflow checks of its own, hence `can_append`.
#[verifier::external_body]
pub(crate) fn append_section_ranges(segment: &ElfSegment, section: &ElfSection) -> (r:
    AppendedRanges)
    requires
        can_append(segment@, section@),
    ensures
        r == appended(segment@, section@),
{
    let mut b = Builder::new(Endianness::Little, false);
    let s = b.segments.add();
    (s.p_type, s.p_offset, s.p_filesz, s.p_vaddr, s.p_paddr, s.p_memsz) = (segment.p_type, segment.p_offset, segment.p_filesz, segment.p_vaddr, segment.p_paddr, segment.p_memsz);
    let t = b.sections.add();
    (t.sh_type, t.sh_size, t.sh_addralign) = (section.sh_type, section.sh_size, section.sh_addralign);
    s.append_section(t);
    AppendedRanges {
        p_offset: s.p_offset,
        p_vaddr: s.p_vaddr,
        p_paddr: s.p_paddr,
        p_filesz: s.p_filesz,
        p_memsz: s.p_memsz,
        sh_offset: t.sh_offset,
        sh_addr: t.sh_addr,
    }
}

/// The load segment that a segment table adds behind segments that end at
/// file offset `end_offset` and at address `end_addr`: it starts at that
/// offset, and at the address raised to `align` plus the offset's
/// remainder, so that address and offset agree modulo `align`.
pub open spec fn load_segment_behind(end_offset: u64, end_addr: u64, flags: u32, align: u64)
    -> ElfSegmentView {
    let addr = (mask_up(end_addr as int, align) + (end_offset & ((align - 1) as u64))) as u64;
    ElfSegmentView {
        p_type: PT_LOAD,
        p_flags: flags,
        p_offset: end_offset,
        p_vaddr: addr,
        p_paddr: addr,
        p_filesz: 0,
        p_memsz: 0,
        p_align: align,
        sections: Seq::empty(),
    }
}

/// `object::build::elf::Segments::add_load_segment`, on a table whose one
/// segment starts, empty, at `end_offset` and `end_addr`.
///
/// Believed: the new segment is `load_segment_behind` of the arguments.
/// The builder computes without overflow checks of its own, hence the
/// bounds.
#[verifier::external_body]
pub(crate) fn add_load_segment_behind(end_offset: u64, end_addr: u64, flags: u32, align: u64)
    -> (segment: ElfSegment)
    requires
        align >= 1,
        end_addr + 2 * (align - 1) <= u64::MAX,
    ensures
        segment@ == load_segment_behind(end_offset, end_addr, flags, align),
{
    let mut b = Builder::new(Endianness::Little, false);
    let last = b.segments.add();
    (last.p_offset, last.p_vaddr) = (end_offset, end_addr);
    let s = b.segments.add_load_segment(flags, align);
    let (p_type, p_flags, p_align, p_offset) = (s.p_type, s.p_flags, s.p_align, s.p_offset);
    let (p_vaddr, p_paddr, p_filesz, p_memsz) = (s.p_vaddr, s.p_paddr, s.p_filesz, s.p_memsz);
    let sections = Vec::new();
    ElfSegment { p_type, p_flags, p_offset, p_vaddr, p_paddr, p_filesz, p_memsz, p_align, sections }
}

/// The text that bytes which are not valid UTF-8 are shown as.
pub uninterp spec fn lossy_text(bytes: Seq<u8>) -> Seq<char>;

/// The text that a name of arbitrary bytes is shown as: the text that the
/// bytes encode, where they are valid UTF-8.
pub open spec fn shown_text(bytes: Seq<u8>) -> Seq<char> {
    if vstd::utf8::valid_utf8(bytes) {
        vstd::utf8::decode_utf8(bytes)
    } else {
        lossy_text(bytes)
    }
}

/// `Display` of `object::build::ByteString`, which reads the bytes as
/// UTF-8 and puts U+FFFD in place of what is not.
///
/// Believed: bytes that are valid UTF-8 are shown as the text they encode,
/// and what any other bytes are shown as depends on the bytes alone.
#[verifier::external_body]
pub(crate) fn byte_string_text(bytes: &Vec<u8>) -> (text: String)
    ensures
        text@ == if vstd::utf8::valid_utf8(bytes@) {
            vstd::utf8::decode_utf8(bytes@)
        } else {
            lossy_text(bytes@)
        },
{
    format!("{}", ByteString::from(bytes.as_slice()))
}

} // verus!
