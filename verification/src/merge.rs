//! What merging an application into a system image means.
//!
//! The merge runs in three phases, sections, segments and symbols, that
//! share one mapping from the sections of the application to sections of
//! the system image.  Each phase is defined here as a function from the
//! tables before to the tables after, or to the error that ends the merge.

use vstd::prelude::*;
use vstd::utf8::encode_utf8;
use crate::elf::{
    AttributeTagView,
    AttributesSectionView,
    AttributesSubsectionView,
    AttributesSubsubsectionView,
    ElfImageView,
    ElfSectionView,
    ElfSegmentView,
    ElfSymbolView,
    SectionDataView,
    SectionId,
    STB_GLOBAL,
};
use crate::object_ops::{appended, can_append, load_segment_behind, shown_text};
use crate::text::{decimal_digits, is_alphanumeric};

verus! {

/// Why an application could not be merged.
#[derive(Clone, Copy, Debug, PartialEq, Eq, Structural)]
pub enum AssembleError {
    /// A reference names the section with this index, and that section did
    /// not go into the system image.
    UnmappedSection(usize),
    /// A section holds data of a kind that cannot be copied or joined.
    UnsupportedSectionData,
    /// The place of a section or a segment cannot be computed: a size or
    /// an address does not fit in 64 bits, an alignment is zero, or a
    /// segment whose memory range has outgrown its file range is to take
    /// another section.
    InvalidLayout,
}

/// What a system image under construction holds: the merged image, and
/// which of its sections is the tokenized one.
pub struct SystemImageView {
    pub builder: ElfImageView,
    pub tokenized_section: Option<SectionId>,
}

impl SystemImageView {
    /// The image is well formed, and the tokenized section is one of its
    /// sections.
    pub open spec fn wf(self) -> bool {
        &&& self.builder.wf()
        &&& self.tokenized_section matches Some(id) ==> id.0 < self.builder.sections.len()
    }
}

/// What an application to be merged consists of: its image, and the stem
/// of the name of its file.
pub struct AppImageView {
    pub image: ElfImageView,
    pub file_stem: Seq<char>,
}

/// `.pw_tokenizer.`
pub open spec fn tokenizer_prefix() -> Seq<u8> {
    seq![
        0x2eu8,
        0x70u8,
        0x77u8,
        0x5fu8,
        0x74u8,
        0x6fu8,
        0x6bu8,
        0x65u8,
        0x6eu8,
        0x69u8,
        0x7au8,
        0x65u8,
        0x72u8,
        0x2eu8,
    ]
}

/// `.symtab`
pub open spec fn symtab_name() -> Seq<u8> {
    seq![0x2eu8, 0x73u8, 0x79u8, 0x6du8, 0x74u8, 0x61u8, 0x62u8]
}

/// `.shstrtab`
pub open spec fn shstrtab_name() -> Seq<u8> {
    seq![0x2eu8, 0x73u8, 0x68u8, 0x73u8, 0x74u8, 0x72u8, 0x74u8, 0x61u8, 0x62u8]
}

/// `.strtab`
pub open spec fn strtab_name() -> Seq<u8> {
    seq![0x2eu8, 0x73u8, 0x74u8, 0x72u8, 0x74u8, 0x61u8, 0x62u8]
}

/// `name` begins with `prefix`.
pub open spec fn has_prefix(name: Seq<u8>, prefix: Seq<u8>) -> bool {
    prefix.len() <= name.len() && name.subrange(0, prefix.len() as int) == prefix
}

/// A section that holds tokenized log strings: it is not loaded, and its
/// name begins with `.pw_tokenizer.`.
pub open spec fn is_tokenizer(section: ElfSectionView) -> bool {
    !section.is_alloc() && has_prefix(section.name, tokenizer_prefix())
}

/// The section tables that the writer of an image builds by itself are not
/// taken over from an application: an image can hold only one of each.
pub open spec fn is_skipped(section: ElfSectionView) -> bool {
    section.name == symtab_name() || section.name == shstrtab_name() || section.name
        == strtab_name()
}

/// The first tokenizer section among the first `n` sections.
pub open spec fn first_tokenizer(sections: Seq<ElfSectionView>, n: int) -> Option<SectionId>
    decreases n,
{
    if n <= 0 {
        None
    } else {
        match first_tokenizer(sections, n - 1) {
            Some(id) => Some(id),
            None => if is_tokenizer(sections[n - 1]) {
                Some(SectionId((n - 1) as usize))
            } else {
                None
            },
        }
    }
}

/// Where a reference to section `index` of the application goes.
pub open spec fn mapped(map: Map<usize, SectionId>, index: usize) -> Result<
    Option<SectionId>,
    AssembleError,
> {
    if map.dom().contains(index) {
        Ok(Some(map[index]))
    } else {
        Err(AssembleError::UnmappedSection(index))
    }
}

/// The first `n` of `ids`, each replaced by the section it is mapped to;
/// the first one without a mapping makes the whole fail.
pub open spec fn remapped_ids(map: Map<usize, SectionId>, ids: Seq<SectionId>, n: int) -> Result<
    Seq<SectionId>,
    AssembleError,
>
    decreases n,
{
    if n <= 0 {
        Ok(Seq::empty())
    } else {
        match remapped_ids(map, ids, n - 1) {
            Err(e) => Err(e),
            Ok(done) => if map.dom().contains(ids[n - 1].0) {
                Ok(done.push(map[ids[n - 1].0]))
            } else {
                Err(AssembleError::UnmappedSection(ids[n - 1].0))
            },
        }
    }
}

/// A copy of `tag` for the system image: section identifiers are
/// remapped, everything else is kept.
pub open spec fn copied_tag(map: Map<usize, SectionId>, tag: AttributeTagView) -> Result<
    AttributeTagView,
    AssembleError,
> {
    match tag {
        AttributeTagView::File => Ok(AttributeTagView::File),
        AttributeTagView::Section(ids) => match remapped_ids(map, ids, ids.len() as int) {
            Err(e) => Err(e),
            Ok(new_ids) => Ok(AttributeTagView::Section(new_ids)),
        },
        AttributeTagView::Symbol(ids) => Ok(AttributeTagView::Symbol(ids)),
    }
}

/// Copies of the first `n` sub-subsections.
pub open spec fn copied_subsubsections(
    map: Map<usize, SectionId>,
    items: Seq<AttributesSubsubsectionView>,
    n: int,
) -> Result<Seq<AttributesSubsubsectionView>, AssembleError>
    decreases n,
{
    if n <= 0 {
        Ok(Seq::empty())
    } else {
        match copied_subsubsections(map, items, n - 1) {
            Err(e) => Err(e),
            Ok(done) => match copied_tag(map, items[n - 1].tag) {
                Err(e) => Err(e),
                Ok(tag) => Ok(
                    done.push(AttributesSubsubsectionView { tag, data: items[n - 1].data }),
                ),
            },
        }
    }
}

/// Copies of the first `n` subsections.
pub open spec fn copied_subsections(
    map: Map<usize, SectionId>,
    items: Seq<AttributesSubsectionView>,
    n: int,
) -> Result<Seq<AttributesSubsectionView>, AssembleError>
    decreases n,
{
    if n <= 0 {
        Ok(Seq::empty())
    } else {
        match copied_subsections(map, items, n - 1) {
            Err(e) => Err(e),
            Ok(done) => match copied_subsubsections(
                map,
                items[n - 1].subsubsections,
                items[n - 1].subsubsections.len() as int,
            ) {
                Err(e) => Err(e),
                Ok(subsubsections) => Ok(
                    done.push(
                        AttributesSubsectionView { vendor: items[n - 1].vendor, subsubsections },
                    ),
                ),
            },
        }
    }
}

/// A copy of a section's payload for the system image.
///
/// Bytes, lengths and attributes are copied, with the section identifiers
/// inside attribute tags remapped.  The markers of tables that the writer
/// builds are kept.  Relocations, notes and dynamic entries cannot be
/// copied.
pub open spec fn copied_data(map: Map<usize, SectionId>, data: SectionDataView) -> Result<
    SectionDataView,
    AssembleError,
> {
    match data {
        SectionDataView::Attributes(attributes) => match copied_subsections(
            map,
            attributes.subsections,
            attributes.subsections.len() as int,
        ) {
            Err(e) => Err(e),
            Ok(subsections) => Ok(
                SectionDataView::Attributes(AttributesSectionView { subsections }),
            ),
        },
        SectionDataView::Relocation => Err(AssembleError::UnsupportedSectionData),
        SectionDataView::DynamicRelocation => Err(AssembleError::UnsupportedSectionData),
        SectionDataView::Note => Err(AssembleError::UnsupportedSectionData),
        SectionDataView::Dynamic => Err(AssembleError::UnsupportedSectionData),
        _ => Ok(data),
    }
}

/// The section `dst` after `src` has been copied into it: `dst` keeps its
/// name and its `sh_info`, and takes every other header field and a copy
/// of the payload from `src`.  The two section references are taken over
/// as they are; they are remapped once every section has been added.
pub open spec fn copied_section(
    map: Map<usize, SectionId>,
    src: ElfSectionView,
    dst: ElfSectionView,
) -> Result<ElfSectionView, AssembleError> {
    match copied_data(map, src.data) {
        Err(e) => Err(e),
        Ok(data) => Ok(
            ElfSectionView {
                name: dst.name,
                sh_type: src.sh_type,
                sh_flags: src.sh_flags,
                sh_addr: src.sh_addr,
                sh_offset: src.sh_offset,
                sh_size: src.sh_size,
                sh_link_section: src.sh_link_section,
                sh_info: dst.sh_info,
                sh_info_section: src.sh_info_section,
                sh_addralign: src.sh_addralign,
                sh_entsize: src.sh_entsize,
                data,
            },
        ),
    }
}

/// The name of an application's section in the system image: its own
/// name as text, a dot, and the application's name.
pub open spec fn section_name_for(name: Seq<u8>, app_name: Seq<char>) -> Seq<u8> {
    encode_utf8(shown_text(name) + seq!['.'] + app_name)
}

/// The name of an application's global symbol in the system image: its
/// own name as text, an underscore, and the application's name.
pub open spec fn symbol_name_for(name: Seq<u8>, app_name: Seq<char>) -> Seq<u8> {
    encode_utf8(shown_text(name) + seq!['_'] + app_name)
}

/// The tokenized section after the token database of `section` has been
/// appended to it.  Both must hold raw bytes.
pub open spec fn joined_tokenizer(survivor: ElfSectionView, section: ElfSectionView) -> Result<
    ElfSectionView,
    AssembleError,
> {
    match (survivor.data, section.data) {
        (SectionDataView::Data(bytes), SectionDataView::Data(more)) => if survivor.sh_size
            + section.sh_size > u64::MAX {
            Err(AssembleError::InvalidLayout)
        } else {
            Ok(
                ElfSectionView {
                    sh_size: (survivor.sh_size + section.sh_size) as u64,
                    data: SectionDataView::Data(bytes + more),
                    ..survivor
                },
            )
        },
        _ => Err(AssembleError::UnsupportedSectionData),
    }
}

/// What the section phase has built so far.
pub struct SectionsState {
    /// The section table of the system image.
    pub sections: Seq<ElfSectionView>,
    /// The one tokenized section of the system image.
    pub tokenized_section: Option<SectionId>,
    /// The mapping from the application's sections to the image's.
    pub map: Map<usize, SectionId>,
    /// The added sections whose references are still to be remapped.
    pub fixups: Seq<SectionId>,
}

/// The state after section `index` of the application, `section`, has
/// been dealt with.
///
/// A tokenizer section is appended to the tokenized section if the image
/// has one, and mapped to it.  A section table of the writer is skipped.
/// Any other section is added as a copy under a fresh identifier: the
/// first tokenizer section under its own name, as the tokenized section
/// from now on, and every other section under its name for the
/// application.
pub open spec fn section_step(
    st: SectionsState,
    index: usize,
    section: ElfSectionView,
    app_name: Seq<char>,
) -> Result<SectionsState, AssembleError> {
    if is_tokenizer(section) && st.tokenized_section is Some {
        let survivor = st.tokenized_section->0;
        match joined_tokenizer(st.sections[survivor.0 as int], section) {
            Err(e) => Err(e),
            Ok(joined) => Ok(
                SectionsState {
                    sections: st.sections.update(survivor.0 as int, joined),
                    map: st.map.insert(index, survivor),
                    ..st
                },
            ),
        }
    } else if is_skipped(section) {
        Ok(st)
    } else {
        let id = SectionId(st.sections.len() as usize);
        let map = st.map.insert(index, id);
        let name = if is_tokenizer(section) {
            section.name
        } else {
            section_name_for(section.name, app_name)
        };
        match copied_section(map, section, ElfSectionView { name, ..ElfSectionView::empty() }) {
            Err(e) => Err(e),
            Ok(copy) => Ok(
                SectionsState {
                    sections: st.sections.push(copy),
                    tokenized_section: if is_tokenizer(section) {
                        Some(id)
                    } else {
                        st.tokenized_section
                    },
                    map,
                    fixups: if section.sh_link_section is Some || section.sh_info_section
                        is Some {
                        st.fixups.push(id)
                    } else {
                        st.fixups
                    },
                },
            ),
        }
    }
}

/// The state after the first `n` sections of the application.
pub open spec fn sections_pass(
    st: SectionsState,
    sections: Seq<ElfSectionView>,
    app_name: Seq<char>,
    n: int,
) -> Result<SectionsState, AssembleError>
    decreases n,
{
    if n <= 0 {
        Ok(st)
    } else {
        match sections_pass(st, sections, app_name, n - 1) {
            Err(e) => Err(e),
            Ok(before) => section_step(before, (n - 1) as usize, sections[n - 1], app_name),
        }
    }
}

/// `section` with its two section references remapped.
pub open spec fn fixed_section(map: Map<usize, SectionId>, section: ElfSectionView) -> Result<
    ElfSectionView,
    AssembleError,
> {
    let link = match section.sh_link_section {
        Some(id) => mapped(map, id.0),
        None => Ok(None),
    };
    let info = match section.sh_info_section {
        Some(id) => mapped(map, id.0),
        None => Ok(None),
    };
    match (link, info) {
        (Err(e), _) => Err(e),
        (Ok(_), Err(e)) => Err(e),
        (Ok(sh_link_section), Ok(sh_info_section)) => Ok(
            ElfSectionView { sh_link_section, sh_info_section, ..section },
        ),
    }
}

/// The section table after the references of the first `n` sections of
/// `fixups` have been remapped.
pub open spec fn fixup_pass(
    map: Map<usize, SectionId>,
    sections: Seq<ElfSectionView>,
    fixups: Seq<SectionId>,
    n: int,
) -> Result<Seq<ElfSectionView>, AssembleError>
    decreases n,
{
    if n <= 0 {
        Ok(sections)
    } else {
        match fixup_pass(map, sections, fixups, n - 1) {
            Err(e) => Err(e),
            Ok(before) => match fixed_section(map, before[fixups[n - 1].0 as int]) {
                Err(e) => Err(e),
                Ok(fixed) => Ok(before.update(fixups[n - 1].0 as int, fixed)),
            },
        }
    }
}

/// The section phase as a whole: every section of the application is
/// dealt with in order, then the references of the added sections are
/// remapped.  Yields the section table, the tokenized section and the
/// mapping.
pub open spec fn merged_sections(
    image: SystemImageView,
    map: Map<usize, SectionId>,
    app: ElfImageView,
    app_name: Seq<char>,
) -> Result<SectionsState, AssembleError> {
    let start = SectionsState {
        sections: image.builder.sections,
        tokenized_section: image.tokenized_section,
        map,
        fixups: Seq::empty(),
    };
    match sections_pass(start, app.sections, app_name, app.sections.len() as int) {
        Err(e) => Err(e),
        Ok(st) => match fixup_pass(st.map, st.sections, st.fixups, st.fixups.len() as int) {
            Err(e) => Err(e),
            Ok(sections) => Ok(SectionsState { sections, ..st }),
        },
    }
}

/// Once the pass has failed, it stays failed: the first failure is the
/// outcome of the whole pass.
pub(crate) proof fn lemma_sections_pass_error(
    st: SectionsState,
    sections: Seq<ElfSectionView>,
    app_name: Seq<char>,
    k: int,
    n: int,
)
    requires
        0 <= k <= n,
        sections_pass(st, sections, app_name, k) is Err,
    ensures
        sections_pass(st, sections, app_name, n) == sections_pass(st, sections, app_name, k),
    decreases n,
{
    if n > k {
        lemma_sections_pass_error(st, sections, app_name, k, n - 1);
    }
}

/// Once the pass has failed, it stays failed: the first failure is the
/// outcome of the whole pass.
pub(crate) proof fn lemma_fixup_pass_error(
    map: Map<usize, SectionId>,
    sections: Seq<ElfSectionView>,
    fixups: Seq<SectionId>,
    k: int,
    n: int,
)
    requires
        0 <= k <= n,
        fixup_pass(map, sections, fixups, k) is Err,
    ensures
        fixup_pass(map, sections, fixups, n) == fixup_pass(map, sections, fixups, k),
    decreases n,
{
    if n > k {
        lemma_fixup_pass_error(map, sections, fixups, k, n - 1);
    }
}

/// Every section that the mapping names is in a table of `len` sections.
pub open spec fn map_in_range(map: Map<usize, SectionId>, len: nat) -> bool {
    forall|k: usize| map.dom().contains(k) ==> (#[trigger] map[k]).0 < len
}

/// The greatest file offset and the greatest address at which one of the
/// first `n` segments ends; an end beyond 64 bits is an error.
pub open spec fn segment_ends(segments: Seq<ElfSegmentView>, n: int) -> Result<
    (u64, u64),
    AssembleError,
>
    decreases n,
{
    if n <= 0 {
        Ok((0u64, 0u64))
    } else {
        match segment_ends(segments, n - 1) {
            Err(e) => Err(e),
            Ok((end_offset, end_addr)) => {
                let segment = segments[n - 1];
                let offset = segment.p_offset + segment.p_filesz;
                let addr = segment.p_vaddr + segment.p_memsz;
                if offset > u64::MAX || addr > u64::MAX {
                    Err(AssembleError::InvalidLayout)
                } else {
                    Ok(
                        (
                            if end_offset < offset {
                                offset as u64
                            } else {
                                end_offset
                            },
                            if end_addr < addr {
                                addr as u64
                            } else {
                                end_addr
                            },
                        ),
                    )
                }
            },
        }
    }
}

/// The empty load segment that the image opens for the application's
/// segment `src`: it starts in the file behind every segment of the
/// image, has the flags and the alignment of `src`, and is loaded where
/// `src` is loaded.
pub open spec fn opened_segment(segments: Seq<ElfSegmentView>, src: ElfSegmentView) -> Result<
    ElfSegmentView,
    AssembleError,
> {
    match segment_ends(segments, segments.len() as int) {
        Err(e) => Err(e),
        Ok((end_offset, end_addr)) => if src.p_align < 1 || end_addr + 2 * (src.p_align - 1)
            > u64::MAX {
            Err(AssembleError::InvalidLayout)
        } else {
            Ok(
                ElfSegmentView {
                    p_paddr: src.p_paddr,
                    p_vaddr: src.p_vaddr,
                    ..load_segment_behind(end_offset, end_addr, src.p_flags, src.p_align)
                },
            )
        },
    }
}

/// A segment that is being filled, and the section table of the image.
pub struct SegmentState {
    pub segment: ElfSegmentView,
    pub sections: Seq<ElfSectionView>,
}

/// The state after the section that stands for the application's section
/// `id` has been appended to the segment.
///
/// The segment takes the section in: its ranges become those of
/// `appended`, and the section gets its file offset from there.  The
/// address of the section is not taken from there: it is the address of
/// the application's section, as the linker set it.
pub open spec fn append_step(
    st: SegmentState,
    map: Map<usize, SectionId>,
    app_sections: Seq<ElfSectionView>,
    id: SectionId,
) -> Result<SegmentState, AssembleError> {
    if !map.dom().contains(id.0) {
        Err(AssembleError::UnmappedSection(id.0))
    } else {
        let target = map[id.0];
        let section = st.sections[target.0 as int];
        if !can_append(st.segment, section) {
            Err(AssembleError::InvalidLayout)
        } else {
            let ranges = appended(st.segment, section);
            Ok(
                SegmentState {
                    segment: ElfSegmentView {
                        p_offset: ranges.p_offset,
                        p_vaddr: ranges.p_vaddr,
                        p_paddr: ranges.p_paddr,
                        p_filesz: ranges.p_filesz,
                        p_memsz: ranges.p_memsz,
                        sections: st.segment.sections.push(target),
                        ..st.segment
                    },
                    sections: st.sections.update(
                        target.0 as int,
                        ElfSectionView {
                            sh_offset: ranges.sh_offset,
                            sh_addr: app_sections[id.0 as int].sh_addr,
                            ..section
                        },
                    ),
                },
            )
        }
    }
}

/// The state after the first `n` of `ids` have been appended.
pub open spec fn appends_pass(
    st: SegmentState,
    map: Map<usize, SectionId>,
    app_sections: Seq<ElfSectionView>,
    ids: Seq<SectionId>,
    n: int,
) -> Result<SegmentState, AssembleError>
    decreases n,
{
    if n <= 0 {
        Ok(st)
    } else {
        match appends_pass(st, map, app_sections, ids, n - 1) {
            Err(e) => Err(e),
            Ok(before) => append_step(before, map, app_sections, ids[n - 1]),
        }
    }
}

/// The segment and section tables of the image.
pub struct TablesState {
    pub segments: Seq<ElfSegmentView>,
    pub sections: Seq<ElfSectionView>,
}

/// The tables after the application's segment `src` has been dealt with:
/// a segment that is not loaded leaves no trace; for a load segment the
/// image opens a segment, appends the sections of `src` in order, and
/// adds the result to its segment table.
pub open spec fn segment_step(
    st: TablesState,
    map: Map<usize, SectionId>,
    app_sections: Seq<ElfSectionView>,
    src: ElfSegmentView,
) -> Result<TablesState, AssembleError> {
    if !src.is_load() {
        Ok(st)
    } else {
        match opened_segment(st.segments, src) {
            Err(e) => Err(e),
            Ok(segment) => match appends_pass(
                SegmentState { segment, sections: st.sections },
                map,
                app_sections,
                src.sections,
                src.sections.len() as int,
            ) {
                Err(e) => Err(e),
                Ok(filled) => Ok(
                    TablesState {
                        segments: st.segments.push(filled.segment),
                        sections: filled.sections,
                    },
                ),
            },
        }
    }
}

/// The tables after the first `n` segments of the application.
pub open spec fn segments_pass(
    st: TablesState,
    map: Map<usize, SectionId>,
    app: ElfImageView,
    n: int,
) -> Result<TablesState, AssembleError>
    decreases n,
{
    if n <= 0 {
        Ok(st)
    } else {
        match segments_pass(st, map, app, n - 1) {
            Err(e) => Err(e),
            Ok(before) => segment_step(before, map, app.sections, app.segments[n - 1]),
        }
    }
}

/// The segment phase as a whole.
pub open spec fn merged_segments(
    image: ElfImageView,
    map: Map<usize, SectionId>,
    app: ElfImageView,
) -> Result<TablesState, AssembleError> {
    segments_pass(
        TablesState { segments: image.segments, sections: image.sections },
        map,
        app,
        app.segments.len() as int,
    )
}

/// Once the pass has failed, it stays failed: the first failure is the
/// outcome of the whole pass.
pub(crate) proof fn lemma_segment_ends_error(segments: Seq<ElfSegmentView>, k: int, n: int)
    requires
        0 <= k <= n,
        segment_ends(segments, k) is Err,
    ensures
        segment_ends(segments, n) == segment_ends(segments, k),
    decreases n,
{
    if n > k {
        lemma_segment_ends_error(segments, k, n - 1);
    }
}

/// Once the pass has failed, it stays failed: the first failure is the
/// outcome of the whole pass.
pub(crate) proof fn lemma_appends_pass_error(
    st: SegmentState,
    map: Map<usize, SectionId>,
    app_sections: Seq<ElfSectionView>,
    ids: Seq<SectionId>,
    k: int,
    n: int,
)
    requires
        0 <= k <= n,
        appends_pass(st, map, app_sections, ids, k) is Err,
    ensures
        appends_pass(st, map, app_sections, ids, n) == appends_pass(st, map, app_sections, ids, k),
    decreases n,
{
    if n > k {
        lemma_appends_pass_error(st, map, app_sections, ids, k, n - 1);
    }
}

/// Once the pass has failed, it stays failed: the first failure is the
/// outcome of the whole pass.
pub(crate) proof fn lemma_segments_pass_error(
    st: TablesState,
    map: Map<usize, SectionId>,
    app: ElfImageView,
    k: int,
    n: int,
)
    requires
        0 <= k <= n,
        segments_pass(st, map, app, k) is Err,
    ensures
        segments_pass(st, map, app, n) == segments_pass(st, map, app, k),
    decreases n,
{
    if n > k {
        lemma_segments_pass_error(st, map, app, k, n - 1);
    }
}

/// `addr` lies in the address range of `section`, which is allocated and
/// not empty.
pub open spec fn holds_address(section: ElfSectionView, addr: u64) -> bool {
    &&& section.is_alloc()
    &&& section.sh_size != 0
    &&& section.sh_addr <= addr < section.sh_addr.wrapping_add(section.sh_size)
}

/// The first of the first `n` sections that holds `addr`.
pub open spec fn containing_section(sections: Seq<ElfSectionView>, addr: u64, n: int) -> Option<
    usize,
>
    decreases n,
{
    if n <= 0 {
        None
    } else {
        match containing_section(sections, addr, n - 1) {
            Some(index) => Some(index),
            None => if holds_address(sections[n - 1], addr) {
                Some((n - 1) as usize)
            } else {
                None
            },
        }
    }
}

/// `value` moved along with a section whose address went from `from` to
/// `to`: it keeps its distance from the start of the section.
pub open spec fn rebased(value: u64, from: u64, to: u64) -> u64 {
    to.wrapping_add(value.wrapping_sub(from))
}

/// The symbol of the system image that stands for the application's
/// `symbol`.
///
/// A global symbol gets its name for the application; any other keeps
/// its name.  A symbol that is defined in a section goes to the section
/// that this one is mapped to, and its value moves with the section.  A
/// symbol without a section, as the linker defines them, is looked up by
/// value: where an allocated section of the application holds the value,
/// the value moves with the first such section; where none does, it
/// stays.  Every other field is taken over.
pub open spec fn merged_symbol(
    sections: Seq<ElfSectionView>,
    map: Map<usize, SectionId>,
    app_sections: Seq<ElfSectionView>,
    app_name: Seq<char>,
    symbol: ElfSymbolView,
) -> Result<ElfSymbolView, AssembleError> {
    let name = if symbol.st_bind() == STB_GLOBAL {
        symbol_name_for(symbol.name, app_name)
    } else {
        symbol.name
    };
    let home = match symbol.section {
        Some(id) => Some(id.0),
        None => containing_section(app_sections, symbol.st_value, app_sections.len() as int),
    };
    match home {
        None => Ok(ElfSymbolView { name, ..symbol }),
        Some(index) => if !map.dom().contains(index) {
            Err(AssembleError::UnmappedSection(index))
        } else {
            Ok(
                ElfSymbolView {
                    name,
                    section: if symbol.section is Some {
                        Some(map[index])
                    } else {
                        None
                    },
                    st_value: rebased(
                        symbol.st_value,
                        app_sections[index as int].sh_addr,
                        sections[map[index].0 as int].sh_addr,
                    ),
                    ..symbol
                },
            )
        },
    }
}

/// The symbols that stand for the first `n` symbols of the application.
pub open spec fn merged_symbols(
    sections: Seq<ElfSectionView>,
    map: Map<usize, SectionId>,
    app: ElfImageView,
    app_name: Seq<char>,
    n: int,
) -> Result<Seq<ElfSymbolView>, AssembleError>
    decreases n,
{
    if n <= 0 {
        Ok(Seq::empty())
    } else {
        match merged_symbols(sections, map, app, app_name, n - 1) {
            Err(e) => Err(e),
            Ok(done) => match merged_symbol(
                sections,
                map,
                app.sections,
                app_name,
                app.symbols[n - 1],
            ) {
                Err(e) => Err(e),
                Ok(symbol) => Ok(done.push(symbol)),
            },
        }
    }
}

/// Once the pass has failed, it stays failed: the first failure is the
/// outcome of the whole pass.
pub(crate) proof fn lemma_merged_symbols_error(
    sections: Seq<ElfSectionView>,
    map: Map<usize, SectionId>,
    app: ElfImageView,
    app_name: Seq<char>,
    k: int,
    n: int,
)
    requires
        0 <= k <= n,
        merged_symbols(sections, map, app, app_name, k) is Err,
    ensures
        merged_symbols(sections, map, app, app_name, n) == merged_symbols(
            sections,
            map,
            app,
            app_name,
            k,
        ),
    decreases n,
{
    if n > k {
        lemma_merged_symbols_error(sections, map, app, app_name, k, n - 1);
    }
}

/// A section that holds the address is one of the sections looked at.
pub(crate) proof fn lemma_containing_section_in_range(sections: Seq<ElfSectionView>, addr: u64, n: int)
    requires
        n <= sections.len(),
    ensures
        containing_section(sections, addr, n) matches Some(index) ==> index < n,
    decreases n,
{
    if n > 0 {
        lemma_containing_section_in_range(sections, addr, n - 1);
    }
}

/// Once a section that holds the address has been found, later sections
/// do not change which one is first.
pub(crate) proof fn lemma_containing_section_found(sections: Seq<ElfSectionView>, addr: u64, i: int, n: int)
    requires
        0 <= i < n,
        containing_section(sections, addr, i) is None,
        holds_address(sections[i], addr),
    ensures
        containing_section(sections, addr, n) == Some(i as usize),
    decreases n,
{
    if n > i + 1 {
        lemma_containing_section_found(sections, addr, i, n - 1);
    }
}

/// The system image after an application has been merged into it: the
/// sections first, then the load segments, then the symbols, all by one
/// mapping that starts out empty.
pub open spec fn merged_image(image: SystemImageView, app: ElfImageView, app_name: Seq<char>)
    -> Result<SystemImageView, AssembleError> {
    match merged_sections(image, Map::empty(), app, app_name) {
        Err(e) => Err(e),
        Ok(st) => match merged_segments(
            ElfImageView { sections: st.sections, ..image.builder },
            st.map,
            app,
        ) {
            Err(e) => Err(e),
            Ok(tables) => match merged_symbols(
                tables.sections,
                st.map,
                app,
                app_name,
                app.symbols.len() as int,
            ) {
                Err(e) => Err(e),
                Ok(added) => Ok(
                    SystemImageView {
                        builder: ElfImageView {
                            sections: tables.sections,
                            segments: tables.segments,
                            symbols: image.builder.symbols + added,
                        },
                        tokenized_section: st.tokenized_section,
                    },
                ),
            },
        },
    }
}

/// A character of a file name as it goes into an application's name:
/// letters, numbers and the underscore stay, anything else becomes an
/// underscore.
pub open spec fn sanitized_char(c: char) -> char {
    if is_alphanumeric(c) || c == '_' {
        c
    } else {
        '_'
    }
}

/// The name of the application at position `index` whose file has the
/// stem `file_stem`: the stem with every character sanitized, an
/// underscore, and the index in decimal.  The index keeps the names of
/// two applications apart whatever their files are called.
pub open spec fn app_name_for(file_stem: Seq<char>, index: nat) -> Seq<char> {
    Seq::new(file_stem.len(), |i: int| sanitized_char(file_stem[i])) + seq!['_']
        + decimal_digits(index)
}

/// The system image after the first `n` applications have been merged
/// into the kernel's image, in order.
pub open spec fn assembled(kernel: ElfImageView, apps: Seq<AppImageView>, n: int) -> Result<
    SystemImageView,
    AssembleError,
>
    decreases n,
{
    if n <= 0 {
        Ok(
            SystemImageView {
                builder: kernel,
                tokenized_section: first_tokenizer(kernel.sections, kernel.sections.len() as int),
            },
        )
    } else {
        match assembled(kernel, apps, n - 1) {
            Err(e) => Err(e),
            Ok(image) => merged_image(
                image,
                apps[n - 1].image,
                app_name_for(apps[n - 1].file_stem, (n - 1) as nat),
            ),
        }
    }
}

/// Once a merge has failed, the assembly has failed: the first failure is
/// the outcome of the whole.
pub(crate) proof fn lemma_assembled_error(kernel: ElfImageView, apps: Seq<AppImageView>, k: int, n: int)
    requires
        0 <= k <= n,
        assembled(kernel, apps, k) is Err,
    ensures
        assembled(kernel, apps, n) == assembled(kernel, apps, k),
    decreases n,
{
    if n > k {
        lemma_assembled_error(kernel, apps, k, n - 1);
    }
}

/// Once the pass has failed, it stays failed: the first failure is the
/// outcome of the whole pass.
pub(crate) proof fn lemma_remapped_ids_error(map: Map<usize, SectionId>, ids: Seq<SectionId>, k: int, n: int)
    requires
        0 <= k <= n,
        remapped_ids(map, ids, k) is Err,
    ensures
        remapped_ids(map, ids, n) == remapped_ids(map, ids, k),
    decreases n,
{
    if n > k {
        lemma_remapped_ids_error(map, ids, k, n - 1);
    }
}

/// Once the pass has failed, it stays failed: the first failure is the
/// outcome of the whole pass.
pub(crate) proof fn lemma_copied_subsubsections_error(
    map: Map<usize, SectionId>,
    items: Seq<AttributesSubsubsectionView>,
    k: int,
    n: int,
)
    requires
        0 <= k <= n,
        copied_subsubsections(map, items, k) is Err,
    ensures
        copied_subsubsections(map, items, n) == copied_subsubsections(map, items, k),
    decreases n,
{
    if n > k {
        lemma_copied_subsubsections_error(map, items, k, n - 1);
    }
}

/// Once the pass has failed, it stays failed: the first failure is the
/// outcome of the whole pass.
pub(crate) proof fn lemma_copied_subsections_error(
    map: Map<usize, SectionId>,
    items: Seq<AttributesSubsectionView>,
    k: int,
    n: int,
)
    requires
        0 <= k <= n,
        copied_subsections(map, items, k) is Err,
    ensures
        copied_subsections(map, items, n) == copied_subsections(map, items, k),
    decreases n,
{
    if n > k {
        lemma_copied_subsections_error(map, items, k, n - 1);
    }
}

/// Once a tokenizer section has been found, later sections do not change
/// which one is first.
pub(crate) proof fn lemma_first_tokenizer_found(sections: Seq<ElfSectionView>, i: int, n: int)
    requires
        0 <= i < n,
        first_tokenizer(sections, i) is None,
        is_tokenizer(sections[i]),
    ensures
        first_tokenizer(sections, n) == Some(SectionId(i as usize)),
    decreases n,
{
    if n > i + 1 {
        lemma_first_tokenizer_found(sections, i, n - 1);
    }
}

} // verus!
