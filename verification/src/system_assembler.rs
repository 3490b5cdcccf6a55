//! Merges application ELF images into a kernel ELF image.
//!
//! Every section, segment and symbol of an application is added to the
//! system image under a new identifier.  Addresses are never recomputed:
//! a section keeps the address the linker gave it, because the memory
//! protection regions of the application are built from the same linker
//! script.

use vstd::prelude::*;
use std::collections::HashMap;
use vstd::string::{StrSliceExecFns, StringExecFns};
use crate::object_ops::{
    add_load_segment_behind,
    append_section_ranges,
    appended,
    byte_string_text,
    can_append,
    shown_text,
};
use crate::text::{char_is_alphanumeric, decimal_string};
use crate::merge::{
    AppImageView,
    AssembleError,
    SectionsState,
    SegmentState,
    SystemImageView,
    TablesState,
    app_name_for,
    append_step,
    appends_pass,
    assembled,
    containing_section,
    copied_data,
    copied_section,
    copied_subsections,
    copied_subsubsections,
    copied_tag,
    first_tokenizer,
    fixed_section,
    fixup_pass,
    has_prefix,
    is_skipped,
    is_tokenizer,
    joined_tokenizer,
    lemma_appends_pass_error,
    lemma_assembled_error,
    lemma_containing_section_found,
    lemma_containing_section_in_range,
    lemma_copied_subsections_error,
    lemma_copied_subsubsections_error,
    lemma_first_tokenizer_found,
    lemma_fixup_pass_error,
    lemma_merged_symbols_error,
    lemma_remapped_ids_error,
    lemma_sections_pass_error,
    lemma_segment_ends_error,
    lemma_segments_pass_error,
    map_in_range,
    mapped,
    merged_image,
    merged_sections,
    merged_segments,
    merged_symbol,
    merged_symbols,
    opened_segment,
    remapped_ids,
    sanitized_char,
    section_step,
    sections_pass,
    segment_ends,
    segment_step,
    segments_pass,
    shstrtab_name,
    strtab_name,
    symtab_name,
    tokenizer_prefix,
};
use crate::elf::{
    AttributeTag,
    AttributeTagView,
    AttributesSection,
    AttributesSubsection,
    AttributesSubsectionView,
    AttributesSubsubsection,
    AttributesSubsubsectionView,
    ElfImage,
    ElfSection,
    ElfSectionView,
    ElfSegment,
    ElfSegmentView,
    ElfSymbol,
    ElfSymbolView,
    SectionData,
    SectionDataView,
    SectionId,
    STB_GLOBAL,
    seq_view,
};

verus! {

/// For one application: the section of the system image that stands for
/// each of the application's sections, by index.
pub type SectionMap = HashMap<usize, SectionId>;

/// Whether `name` begins with `prefix`.
fn starts_with(name: &Vec<u8>, prefix: &[u8]) -> (r: bool)
    ensures
        r == has_prefix(name@, prefix@),
{
    if prefix.len() > name.len() {
        return false;
    }
    let mut i: usize = 0;
    while i < prefix.len()
        invariant
            i <= prefix.len() <= name.len(),
            forall|j: int| 0 <= j < i ==> name@[j] == prefix@[j],
        decreases prefix.len() - i,
    {
        if name[i] != prefix[i] {
            assert(name@.subrange(0, prefix@.len() as int)[i as int] != prefix@[i as int]);
            return false;
        }
        i += 1;
    }
    assert(name@.subrange(0, prefix@.len() as int) =~= prefix@);
    true
}

/// Whether `name` and `other` hold the same bytes.
fn same_bytes(name: &Vec<u8>, other: &[u8]) -> (r: bool)
    ensures
        r == (name@ == other@),
{
    if name.len() != other.len() {
        return false;
    }
    let mut i: usize = 0;
    while i < other.len()
        invariant
            i <= other.len() == name.len(),
            forall|j: int| 0 <= j < i ==> name@[j] == other@[j],
        decreases other.len() - i,
    {
        if name[i] != other[i] {
            return false;
        }
        i += 1;
    }
    assert(name@ =~= other@);
    true
}

/// Whether the section is one of the tables that are not taken over from
/// an application: `.symtab`, `.shstrtab` or `.strtab`.  Every other
/// section is copied, loaded or not, as symbols may refer to it.
fn is_skipped_section(section: &ElfSection) -> (r: bool)
    ensures
        r == is_skipped(section@),
{
    let symtab: [u8; 7] = [0x2e, 0x73, 0x79, 0x6d, 0x74, 0x61, 0x62];
    let shstrtab: [u8; 9] = [0x2e, 0x73, 0x68, 0x73, 0x74, 0x72, 0x74, 0x61, 0x62];
    let strtab: [u8; 7] = [0x2e, 0x73, 0x74, 0x72, 0x74, 0x61, 0x62];
    assert(symtab@ =~= symtab_name());
    assert(shstrtab@ =~= shstrtab_name());
    assert(strtab@ =~= strtab_name());
    same_bytes(&section.name, symtab.as_slice()) || same_bytes(
        &section.name,
        shstrtab.as_slice(),
    ) || same_bytes(&section.name, strtab.as_slice())
}

/// The system image under construction.
#[derive(Debug)]
pub struct SystemImage {
    /// The merged image.
    pub builder: ElfImage,
    /// Within the combined image there can only be one tokenized section:
    /// the first one met.  The token database is made to be appended to,
    /// so the bytes of every later one are added to the end of it.
    pub tokenized_section: Option<SectionId>,
}

impl View for SystemImage {
    type V = SystemImageView;

    open spec fn view(&self) -> SystemImageView {
        SystemImageView { builder: self.builder@, tokenized_section: self.tokenized_section }
    }
}

/// An application to be merged: its image, and the stem of the name of the
/// file that the image came from.
#[derive(Debug)]
pub struct AppImage {
    pub image: ElfImage,
    pub file_stem: String,
}

impl View for AppImage {
    type V = AppImageView;

    open spec fn view(&self) -> AppImageView {
        AppImageView { image: self.image@, file_stem: self.file_stem@ }
    }
}

impl SystemImage {
    /// Starts a system image from the kernel's image.  The first tokenizer
    /// section of the kernel, if it has one, is the tokenized section.
    pub fn new(kernel: ElfImage) -> (image: Self)
        ensures
            image@.builder == kernel@,
            image@.tokenized_section == first_tokenizer(
                kernel@.sections,
                kernel@.sections.len() as int,
            ),
            kernel@.wf() ==> image@.wf(),
    {
        let mut instance = Self { builder: kernel, tokenized_section: None };
        instance.set_tokenized_section();
        instance
    }

    /// Merges an application into the system image under the name
    /// `app_name`.
    ///
    /// After an error the image is left as far as the merge got and is of
    /// no further use.
    pub fn add_app_image(&mut self, app: &ElfImage, app_name: &String) -> (r: Result<
        (),
        AssembleError,
    >)
        requires
            old(self)@.wf(),
            app@.wf(),
        ensures
            match merged_image(old(self)@, app@, app_name@) {
                Ok(image) => r is Ok && final(self)@ == image && final(self)@.wf(),
                Err(e) => r == Err::<(), AssembleError>(e),
            },
    {
        let mut section_map: SectionMap = HashMap::new();
        self.add_app_sections(app, app_name, &mut section_map)?;
        self.add_app_segments(app, &section_map)?;
        self.add_app_symbols(app, app_name, &section_map)
    }

    /// The section of the system image that stands for section `id` of the
    /// application.
    fn get_mapped_section_id(section_map: &SectionMap, id: SectionId) -> (r: Result<
        Option<SectionId>,
        AssembleError,
    >)
        ensures
            r == mapped(section_map@, id.0),
    {
        Self::get_mapped_section_id_from_index(section_map, id.index())
    }

    /// The section of the system image that stands for the section at
    /// index `id` of the application.  A section that did not go into the
    /// system image has none.
    fn get_mapped_section_id_from_index(section_map: &SectionMap, id: usize) -> (r: Result<
        Option<SectionId>,
        AssembleError,
    >)
        ensures
            r == mapped(section_map@, id),
    {
        match section_map.get(&id) {
            Some(mapped_id) => Ok(Some(*mapped_id)),
            None => Err(AssembleError::UnmappedSection(id)),
        }
    }

    /// Adds the sections of an application to the system image and
    /// records in `section_map` where each went.
    #[verifier::loop_isolation(false)]
    fn add_app_sections(
        &mut self,
        app: &ElfImage,
        app_name: &String,
        section_map: &mut SectionMap,
    ) -> (r: Result<(), AssembleError>)
        requires
            old(self)@.wf(),
            map_in_range(old(section_map)@, old(self)@.builder.sections.len()),
        ensures
            match merged_sections(old(self)@, old(section_map)@, app@, app_name@) {
                Ok(st) => {
                    &&& r is Ok
                    &&& final(self)@.builder.sections == st.sections
                    &&& final(self)@.tokenized_section == st.tokenized_section
                    &&& final(section_map)@ == st.map
                    &&& final(self)@.builder.segments == old(self)@.builder.segments
                    &&& final(self)@.builder.symbols == old(self)@.builder.symbols
                    &&& final(self)@.wf()
                    &&& map_in_range(st.map, st.sections.len())
                },
                Err(e) => r == Err::<(), AssembleError>(e),
            },
    {
        let ghost start = SectionsState {
            sections: self@.builder.sections,
            tokenized_section: self@.tokenized_section,
            map: section_map@,
            fixups: Seq::empty(),
        };
        let ghost total = app@.sections.len() as int;
        let mut sections_for_fixup: Vec<SectionId> = Vec::new();
        let mut i: usize = 0;
        while i < app.sections.len()
            invariant
                i <= app.sections.len(),
                total == app@.sections.len(),
                sections_pass(start, app@.sections, app_name@, i as int) == Ok::<
                    SectionsState,
                    AssembleError,
                >(
                    SectionsState {
                        sections: self@.builder.sections,
                        tokenized_section: self@.tokenized_section,
                        map: section_map@,
                        fixups: sections_for_fixup@,
                    },
                ),
                self@.builder.segments == old(self)@.builder.segments,
                self@.builder.symbols == old(self)@.builder.symbols,
                self@.builder.sections.len() >= old(self)@.builder.sections.len(),
                self@.tokenized_section matches Some(id) ==> id.0 < self@.builder.sections.len(),
                map_in_range(section_map@, self@.builder.sections.len()),
                forall|j: int|
                    0 <= j < sections_for_fixup@.len() ==> (#[trigger] sections_for_fixup@[j]).0
                        < self@.builder.sections.len(),
            decreases app.sections.len() - i,
        {
            let section = &app.sections[i];
            let ghost before = SectionsState {
                sections: self@.builder.sections,
                tokenized_section: self@.tokenized_section,
                map: section_map@,
                fixups: sections_for_fixup@,
            };
            assert(app@.sections[i as int] == section@);
            assert(sections_pass(start, app@.sections, app_name@, i as int + 1) == section_step(
                before,
                i,
                section@,
                app_name@,
            ));
            let is_tokenizer = Self::is_tokenizer_section(section);
            let mut add_tokenizer_section = false;
            if is_tokenizer {
                match self.update_tokenized_section(section, i, section_map) {
                    Ok(add) => {
                        add_tokenizer_section = add;
                    },
                    Err(e) => {
                        proof {
                            lemma_sections_pass_error(
                                start,
                                app@.sections,
                                app_name@,
                                i as int + 1,
                                total,
                            );
                        }
                        return Err(e);
                    },
                }
                // Don't add this section, if a tokenized section already exists
                if !add_tokenizer_section {
                    i += 1;
                    continue ;
                }
            }
            if is_skipped_section(section) {
                i += 1;
                continue ;
            }
            let new_id = SectionId(self.builder.sections.len());
            section_map.insert(i, new_id);
            let mut new_section = ElfSection::new();
            if add_tokenizer_section {
                self.tokenized_section = Some(new_id);
                // Don't rename tokenizer section if we're adding one.
                new_section.name = section.name.clone();
            } else {
                let mut name = byte_string_text(&section.name);
                proof {
                    reveal_strlit(".");
                }
                name.append(".");
                name.append(app_name.as_str());
                assert(name@ =~= shown_text(section@.name) + seq!['.'] + app_name@);
                new_section.name = name.as_str().as_bytes_vec();
            }
            if section.sh_link_section.is_some() || section.sh_info_section.is_some() {
                sections_for_fixup.push(new_id);
            }
            match Self::copy_section(section_map, section, &mut new_section) {
                Ok(()) => {},
                Err(e) => {
                    proof {
                        lemma_sections_pass_error(
                            start,
                            app@.sections,
                            app_name@,
                            i as int + 1,
                            total,
                        );
                    }
                    return Err(e);
                },
            }
            self.builder.sections.push(new_section);
            assert(self@.builder.sections =~= before.sections.push(new_section@));
            i += 1;
        }
        // Now that all the sections have been added, go back and update any
        // references to section ids.
        let ghost st = SectionsState {
            sections: self@.builder.sections,
            tokenized_section: self@.tokenized_section,
            map: section_map@,
            fixups: sections_for_fixup@,
        };
        let mut j: usize = 0;
        while j < sections_for_fixup.len()
            invariant
                j <= sections_for_fixup.len(),
                st.map == section_map@,
                st.fixups == sections_for_fixup@,
                st.tokenized_section == self@.tokenized_section,
                fixup_pass(st.map, st.sections, st.fixups, j as int) == Ok::<
                    Seq<ElfSectionView>,
                    AssembleError,
                >(self@.builder.sections),
                self@.builder.sections.len() == st.sections.len(),
                self@.builder.segments == old(self)@.builder.segments,
                self@.builder.symbols == old(self)@.builder.symbols,
                forall|k: int|
                    0 <= k < sections_for_fixup@.len() ==> (#[trigger] sections_for_fixup@[k]).0
                        < st.sections.len(),
            decreases sections_for_fixup.len() - j,
        {
            let section_id = sections_for_fixup[j];
            let ghost before = self@.builder.sections;
            let ghost target = before[section_id.0 as int];
            assert(fixup_pass(st.map, st.sections, st.fixups, j as int + 1) == match fixed_section(
                st.map,
                target,
            ) {
                Err(e) => Err::<Seq<ElfSectionView>, AssembleError>(e),
                Ok(fixed) => Ok(before.update(section_id.0 as int, fixed)),
            });
            if let Some(id) = self.builder.sections[section_id.0].sh_link_section {
                match Self::get_mapped_section_id(section_map, id) {
                    Ok(link) => {
                        self.builder.sections[section_id.0].sh_link_section = link;
                    },
                    Err(e) => {
                        proof {
                            lemma_fixup_pass_error(
                                st.map,
                                st.sections,
                                st.fixups,
                                j as int + 1,
                                st.fixups.len() as int,
                            );
                        }
                        return Err(e);
                    },
                }
            }
            if let Some(id) = self.builder.sections[section_id.0].sh_info_section {
                match Self::get_mapped_section_id(section_map, id) {
                    Ok(info) => {
                        self.builder.sections[section_id.0].sh_info_section = info;
                    },
                    Err(e) => {
                        proof {
                            lemma_fixup_pass_error(
                                st.map,
                                st.sections,
                                st.fixups,
                                j as int + 1,
                                st.fixups.len() as int,
                            );
                        }
                        return Err(e);
                    },
                }
            }
            assert(self@.builder.sections =~= before.update(
                section_id.0 as int,
                fixed_section(st.map, target)->Ok_0,
            ));
            j += 1;
        }
        Ok(())
    }

    /// The greatest file offset and the greatest address at which a
    /// segment of the table ends.
    fn segment_table_ends(segments: &Vec<ElfSegment>) -> (r: Result<(u64, u64), AssembleError>)
        ensures
            r == segment_ends(seq_view(segments@), segments@.len() as int),
    {
        let ghost views = seq_view(segments@);
        let mut end_offset: u64 = 0;
        let mut end_addr: u64 = 0;
        let mut i: usize = 0;
        while i < segments.len()
            invariant
                i <= segments.len(),
                views == seq_view(segments@),
                segment_ends(views, i as int) == Ok::<(u64, u64), AssembleError>(
                    (end_offset, end_addr),
                ),
            decreases segments.len() - i,
        {
            let segment = &segments[i];
            assert(views[i as int] == segment@);
            let offset = segment.p_offset.checked_add(segment.p_filesz);
            let addr = segment.p_vaddr.checked_add(segment.p_memsz);
            match (offset, addr) {
                (Some(offset), Some(addr)) => {
                    if end_offset < offset {
                        end_offset = offset;
                    }
                    if end_addr < addr {
                        end_addr = addr;
                    }
                },
                _ => {
                    proof {
                        lemma_segment_ends_error(views, i as int + 1, views.len() as int);
                    }
                    return Err(AssembleError::InvalidLayout);
                },
            }
            i += 1;
        }
        Ok((end_offset, end_addr))
    }

    /// Whether `section` can be appended to `segment`.
    fn can_append_section(segment: &ElfSegment, section: &ElfSection) -> (r: bool)
        ensures
            r == can_append(segment@, section@),
    {
        if !segment.is_load() || segment.p_filesz != segment.p_memsz || section.sh_addralign < 1 {
            return false;
        }
        let slack: u128 = (section.sh_addralign - 1) as u128 + section.sh_size as u128;
        let limit: u128 = u64::MAX as u128;
        segment.p_offset as u128 + segment.p_filesz as u128 + slack <= limit
            && segment.p_paddr as u128 + segment.p_memsz as u128 + slack <= limit
    }

    /// Adds the load segments of an application to the system image.
    ///
    /// The sections of a segment are appended to the new segment in turn.
    /// Appending moves a section to the end of the segment; the address
    /// the linker gave the section is put back afterwards, so that the
    /// code of the application stays where its memory protection regions
    /// expect it.
    #[verifier::loop_isolation(false)]
    fn add_app_segments(&mut self, app: &ElfImage, section_map: &SectionMap) -> (r: Result<
        (),
        AssembleError,
    >)
        requires
            old(self)@.wf(),
            app@.segments_in_range(),
            map_in_range(section_map@, old(self)@.builder.sections.len()),
        ensures
            match merged_segments(old(self)@.builder, section_map@, app@) {
                Ok(st) => {
                    &&& r is Ok
                    &&& final(self)@.builder.segments == st.segments
                    &&& final(self)@.builder.sections == st.sections
                    &&& final(self)@.builder.symbols == old(self)@.builder.symbols
                    &&& final(self)@.tokenized_section == old(self)@.tokenized_section
                    &&& st.sections.len() == old(self)@.builder.sections.len()
                    &&& final(self)@.wf()
                },
                Err(e) => r == Err::<(), AssembleError>(e),
            },
    {
        let ghost start = TablesState {
            segments: self@.builder.segments,
            sections: self@.builder.sections,
        };
        let ghost map = section_map@;
        let ghost total = app@.segments.len() as int;
        let mut k: usize = 0;
        while k < app.segments.len()
            invariant
                k <= app.segments.len(),
                segments_pass(start, map, app@, k as int) == Ok::<TablesState, AssembleError>(
                    TablesState {
                        segments: self@.builder.segments,
                        sections: self@.builder.sections,
                    },
                ),
                self@.builder.symbols == old(self)@.builder.symbols,
                self@.tokenized_section == old(self)@.tokenized_section,
                self@.builder.sections.len() == old(self)@.builder.sections.len(),
                self@.builder.segments_in_range(),
            decreases app.segments.len() - k,
        {
            let segment = &app.segments[k];
            let ghost src = segment@;
            let ghost before = TablesState {
                segments: self@.builder.segments,
                sections: self@.builder.sections,
            };
            assert(app@.segments[k as int] == src);
            assert(segments_pass(start, map, app@, k as int + 1) == segment_step(
                before,
                map,
                app@.sections,
                src,
            ));
            if !segment.is_load() {
                k += 1;
                continue ;
            }
            let (end_offset, end_addr) = match Self::segment_table_ends(&self.builder.segments) {
                Ok(ends) => ends,
                Err(e) => {
                    proof {
                        lemma_segments_pass_error(start, map, app@, k as int + 1, total);
                    }
                    return Err(e);
                },
            };
            if segment.p_align < 1 || end_addr as u128 + 2 * ((segment.p_align - 1) as u128)
                > u64::MAX as u128 {
                proof {
                    lemma_segments_pass_error(start, map, app@, k as int + 1, total);
                }
                return Err(AssembleError::InvalidLayout);
            }
            let mut new_segment = add_load_segment_behind(
                end_offset,
                end_addr,
                segment.p_flags,
                segment.p_align,
            );
            // The new segment is loaded where the application's segment
            // is loaded.
            new_segment.p_paddr = segment.p_paddr;
            new_segment.p_vaddr = segment.p_vaddr;
            let ghost opened = SegmentState { segment: new_segment@, sections: before.sections };
            assert(opened_segment(before.segments, src) == Ok::<ElfSegmentView, AssembleError>(
                opened.segment,
            ));
            let mut j: usize = 0;
            while j < segment.sections.len()
                invariant
                    j <= segment.sections.len(),
                    appends_pass(opened, map, app@.sections, src.sections, j as int) == Ok::<
                        SegmentState,
                        AssembleError,
                    >(SegmentState { segment: new_segment@, sections: self@.builder.sections }),
                    self@.builder.segments == before.segments,
                    self@.builder.symbols == old(self)@.builder.symbols,
                    self@.tokenized_section == old(self)@.tokenized_section,
                    self@.builder.sections.len() == old(self)@.builder.sections.len(),
                    forall|a: int|
                        0 <= a < new_segment@.sections.len() ==> (
                        #[trigger] new_segment@.sections[a]).0 < self@.builder.sections.len(),
                decreases segment.sections.len() - j,
            {
                let section_id = segment.sections[j];
                let ghost filling = SegmentState {
                    segment: new_segment@,
                    sections: self@.builder.sections,
                };
                assert(src.sections[j as int] == section_id);
                assert(appends_pass(opened, map, app@.sections, src.sections, j as int + 1)
                    == append_step(filling, map, app@.sections, section_id));
                // Note the address that the linker gave the section, before
                // the append modifies it.
                assert(app@.segments[k as int].sections[j as int].0 < app@.sections.len());
                let linked_addr = app.sections[section_id.0].sh_addr;
                assert(app@.sections[section_id.0 as int].sh_addr == linked_addr);
                let target = match Self::get_mapped_section_id(section_map, section_id) {
                    Ok(Some(target)) => target,
                    Ok(None) => {
                        proof {
                            assert(false);
                        }
                        return Err(AssembleError::UnmappedSection(section_id.0));
                    },
                    Err(e) => {
                        proof {
                            lemma_appends_pass_error(
                                opened,
                                map,
                                app@.sections,
                                src.sections,
                                j as int + 1,
                                src.sections.len() as int,
                            );
                            lemma_segments_pass_error(start, map, app@, k as int + 1, total);
                        }
                        return Err(e);
                    },
                };
                assert(filling.sections[target.0 as int] == self.builder.sections[target.0 as int]@);
                if !Self::can_append_section(&new_segment, &self.builder.sections[target.0]) {
                    proof {
                        lemma_appends_pass_error(
                            opened,
                            map,
                            app@.sections,
                            src.sections,
                            j as int + 1,
                            src.sections.len() as int,
                        );
                        lemma_segments_pass_error(start, map, app@, k as int + 1, total);
                    }
                    return Err(AssembleError::InvalidLayout);
                }
                let ranges = append_section_ranges(&new_segment, &self.builder.sections[target.0]);
                new_segment.p_offset = ranges.p_offset;
                new_segment.p_vaddr = ranges.p_vaddr;
                new_segment.p_paddr = ranges.p_paddr;
                new_segment.p_filesz = ranges.p_filesz;
                new_segment.p_memsz = ranges.p_memsz;
                new_segment.sections.push(target);
                self.builder.sections[target.0].sh_offset = ranges.sh_offset;
                // Put the linker's address back, to preserve the intended
                // layout.
                self.builder.sections[target.0].sh_addr = linked_addr;
                assert(self@.builder.sections =~= append_step(
                    filling,
                    map,
                    app@.sections,
                    section_id,
                )->Ok_0.sections);
                j += 1;
            }
            self.builder.segments.push(new_segment);
            assert(self@.builder.segments =~= before.segments.push(new_segment@));
            k += 1;
        }
        Ok(())
    }

    /// The first allocated section of the table whose address range holds
    /// `addr`.
    fn find_containing_section(sections: &Vec<ElfSection>, addr: u64) -> (r: Option<usize>)
        ensures
            r == containing_section(seq_view(sections@), addr, sections@.len() as int),
    {
        let ghost views = seq_view(sections@);
        let mut i: usize = 0;
        while i < sections.len()
            invariant
                i <= sections.len(),
                views == seq_view(sections@),
                containing_section(views, addr, i as int) is None,
            decreases sections.len() - i,
        {
            let old_section = &sections[i];
            assert(views[i as int] == old_section@);
            // Only consider allocatable sections that are actually mapped
            // into the loadable image.
            let start = old_section.sh_addr;
            let size = old_section.sh_size;
            if old_section.is_alloc() && size != 0 {
                let end = start.wrapping_add(size);
                // Check if the value falls within this section's range.
                if start <= addr && addr < end {
                    proof {
                        lemma_containing_section_found(views, addr, i as int, views.len() as int);
                    }
                    return Some(i);
                }
            }
            i += 1;
        }
        None
    }

    /// Adds the symbols of an application to the system image.
    #[verifier::loop_isolation(false)]
    fn add_app_symbols(&mut self, app: &ElfImage, app_name: &String, section_map: &SectionMap) -> (r:
        Result<(), AssembleError>)
        requires
            old(self)@.wf(),
            app@.symbols_in_range(),
            map_in_range(section_map@, old(self)@.builder.sections.len()),
        ensures
            match merged_symbols(
                old(self)@.builder.sections,
                section_map@,
                app@,
                app_name@,
                app@.symbols.len() as int,
            ) {
                Ok(added) => {
                    &&& r is Ok
                    &&& final(self)@.builder.symbols == old(self)@.builder.symbols + added
                    &&& final(self)@.builder.sections == old(self)@.builder.sections
                    &&& final(self)@.builder.segments == old(self)@.builder.segments
                    &&& final(self)@.tokenized_section == old(self)@.tokenized_section
                    &&& final(self)@.wf()
                },
                Err(e) => r == Err::<(), AssembleError>(e),
            },
    {
        let ghost sections = self@.builder.sections;
        let ghost map = section_map@;
        let ghost total = app@.symbols.len() as int;
        let ghost mut added: Seq<ElfSymbolView> = Seq::empty();
        let mut i: usize = 0;
        while i < app.symbols.len()
            invariant
                i <= app.symbols.len(),
                merged_symbols(sections, map, app@, app_name@, i as int) == Ok::<
                    Seq<ElfSymbolView>,
                    AssembleError,
                >(added),
                self@.builder.symbols == old(self)@.builder.symbols + added,
                self@.builder.sections == sections,
                self@.builder.segments == old(self)@.builder.segments,
                self@.tokenized_section == old(self)@.tokenized_section,
                self@.builder.symbols_in_range(),
            decreases app.symbols.len() - i,
        {
            let symbol = &app.symbols[i];
            assert(app@.symbols[i as int] == symbol@);
            let ghost outcome = merged_symbol(sections, map, app@.sections, app_name@, symbol@);
            assert(merged_symbols(sections, map, app@, app_name@, i as int + 1) == match outcome {
                Err(e) => Err::<Seq<ElfSymbolView>, AssembleError>(e),
                Ok(merged) => Ok(added.push(merged)),
            });
            let mut new_symbol = ElfSymbol {
                name: Vec::new(),
                section: None,
                st_info: symbol.st_info,
                st_other: symbol.st_other,
                st_shndx: symbol.st_shndx,
                st_value: symbol.st_value,
                st_size: symbol.st_size,
                version: symbol.version,
                version_hidden: symbol.version_hidden,
            };
            if symbol.st_bind() == STB_GLOBAL {
                let mut new_name = byte_string_text(&symbol.name);
                proof {
                    reveal_strlit("_");
                }
                new_name.append("_");
                new_name.append(app_name.as_str());
                assert(new_name@ =~= shown_text(symbol@.name) + seq!['_'] + app_name@);
                new_symbol.name = new_name.as_str().as_bytes_vec();
            } else {
                new_symbol.name = symbol.name.clone();
            }
            // A symbol that is defined in a section moves with that
            // section.  A symbol without a section, such as the linker
            // defines for the bounds of data and stack, moves with the
            // section that its value falls into, if there is one.
            let home = match symbol.section {
                Some(old_section_id) => Some(old_section_id.index()),
                None => Self::find_containing_section(&app.sections, symbol.st_value),
            };
            if let Some(index) = home {
                let new_id = match Self::get_mapped_section_id_from_index(section_map, index) {
                    Ok(Some(new_id)) => new_id,
                    Ok(None) => {
                        proof {
                            assert(false);
                        }
                        return Err(AssembleError::UnmappedSection(index));
                    },
                    Err(e) => {
                        proof {
                            lemma_merged_symbols_error(
                                sections,
                                map,
                                app@,
                                app_name@,
                                i as int + 1,
                                total,
                            );
                        }
                        return Err(e);
                    },
                };
                if symbol.section.is_some() {
                    new_symbol.section = Some(new_id);
                }
                proof {
                    lemma_containing_section_in_range(
                        app@.sections,
                        symbol.st_value,
                        app@.sections.len() as int,
                    );
                }
                let old_section = &app.sections[index];
                let new_section = &self.builder.sections[new_id.0];
                // Calculate the offset within the section, and set the
                // address to the new section base plus that offset.
                let offset_in_section = symbol.st_value.wrapping_sub(old_section.sh_addr);
                new_symbol.st_value = new_section.sh_addr.wrapping_add(offset_in_section);
            }
            assert(outcome == Ok::<ElfSymbolView, AssembleError>(new_symbol@));
            let ghost merged = new_symbol@;
            let ghost before = self@.builder.symbols;
            self.builder.symbols.push(new_symbol);
            assert(self@.builder.symbols =~= before.push(merged));
            proof {
                added = added.push(merged);
            }
            assert(self@.builder.symbols =~= old(self)@.builder.symbols + added);
            i += 1;
        }
        Ok(())
    }

    /// Copies the header fields and the payload of `src` into `dst`.
    fn copy_section(section_map: &SectionMap, src: &ElfSection, dst: &mut ElfSection) -> (r:
        Result<(), AssembleError>)
        ensures
            match copied_section(section_map@, src@, old(dst)@) {
                Ok(section) => r is Ok && final(dst)@ == section,
                Err(e) => r == Err::<(), AssembleError>(e),
            },
    {
        dst.sh_type = src.sh_type;
        dst.sh_flags = src.sh_flags;
        // Copy sh_addr and sh_offset.  They will be updated if they're
        // added to a segment.
        dst.sh_addr = src.sh_addr;
        dst.sh_offset = src.sh_offset;
        dst.sh_size = src.sh_size;
        // The section ids are those of the application for now.  They
        // are re-mapped after all the sections have been added.
        dst.sh_link_section = src.sh_link_section;
        dst.sh_info_section = src.sh_info_section;
        dst.sh_addralign = src.sh_addralign;
        dst.sh_entsize = src.sh_entsize;
        dst.data = match &src.data {
            SectionData::Data(data) => SectionData::Data(data.clone()),
            SectionData::UninitializedData(data) => SectionData::UninitializedData(*data),
            SectionData::Attributes(data) => Self::copy_section_attributes(section_map, data)?,
            SectionData::SectionString => SectionData::SectionString,
            SectionData::Symbol => SectionData::Symbol,
            SectionData::SymbolSectionIndex => SectionData::SymbolSectionIndex,
            SectionData::String => SectionData::String,
            SectionData::DynamicSymbol => SectionData::DynamicSymbol,
            SectionData::DynamicString => SectionData::DynamicString,
            SectionData::Hash => SectionData::Hash,
            SectionData::GnuHash => SectionData::GnuHash,
            SectionData::GnuVersym => SectionData::GnuVersym,
            SectionData::GnuVerdef => SectionData::GnuVerdef,
            SectionData::GnuVerneed => SectionData::GnuVerneed,
            SectionData::Relocation => {
                return Err(AssembleError::UnsupportedSectionData);
            },
            SectionData::DynamicRelocation => {
                return Err(AssembleError::UnsupportedSectionData);
            },
            SectionData::Note => {
                return Err(AssembleError::UnsupportedSectionData);
            },
            SectionData::Dynamic => {
                return Err(AssembleError::UnsupportedSectionData);
            },
        };
        Ok(())
    }

    /// Copy the section attributes, which may be GNU or other
    /// vendor-specific attributes.  Where an attribute tag points to
    /// sections, each is remapped to its section in the merged image.
    #[verifier::loop_isolation(false)]
    fn copy_section_attributes(section_map: &SectionMap, data: &AttributesSection) -> (r: Result<
        SectionData,
        AssembleError,
    >)
        ensures
            match copied_data(section_map@, SectionDataView::Attributes(data@)) {
                Ok(copy) => r is Ok && r->Ok_0@ == copy,
                Err(e) => r == Err::<SectionData, AssembleError>(e),
            },
    {
        let ghost map = section_map@;
        let mut attributes_section = AttributesSection { subsections: Vec::new() };
        assert(attributes_section@.subsections =~= Seq::empty());
        let mut i: usize = 0;
        while i < data.subsections.len()
            invariant
                i <= data.subsections.len(),
                map == section_map@,
                copied_subsections(map, data@.subsections, i as int) == Ok::<
                    Seq<AttributesSubsectionView>,
                    AssembleError,
                >(attributes_section@.subsections),
            decreases data.subsections.len() - i,
        {
            let subsection = &data.subsections[i];
            let ghost items = subsection@.subsubsections;
            let mut attributes_subsection = AttributesSubsection {
                vendor: subsection.vendor.clone(),
                subsubsections: Vec::new(),
            };
            assert(attributes_subsection@.subsubsections =~= Seq::empty());
            let mut j: usize = 0;
            while j < subsection.subsubsections.len()
                invariant
                    j <= subsection.subsubsections.len(),
                    i < data.subsections.len(),
                    map == section_map@,
                    subsection == &data.subsections[i as int],
                    items == subsection@.subsubsections,
                    attributes_subsection.vendor@ == subsection.vendor@,
                    copied_subsubsections(map, items, j as int) == Ok::<
                        Seq<AttributesSubsubsectionView>,
                        AssembleError,
                    >(attributes_subsection@.subsubsections),
                decreases subsection.subsubsections.len() - j,
            {
                let subsubsection = &subsection.subsubsections[j];
                let tag = match &subsubsection.tag {
                    AttributeTag::File => AttributeTag::File,
                    AttributeTag::Section(section_tag) => {
                        let mut tag_sections: Vec<SectionId> = Vec::new();
                        let mut k: usize = 0;
                        // Remap the section ids to the new ids in the
                        // merged image.
                        while k < section_tag.len()
                            invariant
                                k <= section_tag.len(),
                                map == section_map@,
                                remapped_ids(map, section_tag@, k as int) == Ok::<
                                    Seq<SectionId>,
                                    AssembleError,
                                >(tag_sections@),
                            decreases section_tag.len() - k,
                        {
                            match Self::get_mapped_section_id(section_map, section_tag[k]) {
                                Ok(Some(mapped_id)) => {
                                    tag_sections.push(mapped_id);
                                },
                                Ok(None) => {
                                    proof {
                                        assert(false);
                                    }
                                },
                                Err(e) => {
                                    proof {
                                        lemma_remapped_ids_error(
                                            map,
                                            section_tag@,
                                            k as int + 1,
                                            section_tag@.len() as int,
                                        );
                                        assert(copied_subsubsections(map, items, j as int + 1)
                                            is Err);
                                        lemma_copied_subsubsections_error(
                                            map,
                                            items,
                                            j as int + 1,
                                            items.len() as int,
                                        );
                                        assert(copied_subsections(
                                            map,
                                            data@.subsections,
                                            i as int + 1,
                                        ) is Err);
                                        lemma_copied_subsections_error(
                                            map,
                                            data@.subsections,
                                            i as int + 1,
                                            data@.subsections.len() as int,
                                        );
                                    }
                                    return Err(e);
                                },
                            }
                            k += 1;
                        }
                        AttributeTag::Section(tag_sections)
                    },
                    AttributeTag::Symbol(symbol_tag) => AttributeTag::Symbol(symbol_tag.clone()),
                };
                assert(copied_tag(map, subsubsection@.tag) == Ok::<
                    AttributeTagView,
                    AssembleError,
                >(tag@));
                let attributes_subsubsection = AttributesSubsubsection {
                    tag,
                    data: subsubsection.data.clone(),
                };
                attributes_subsection.subsubsections.push(attributes_subsubsection);
                assert(attributes_subsection@.subsubsections =~= copied_subsubsections(
                    map,
                    items,
                    j as int + 1,
                )->Ok_0);
                j += 1;
            }
            attributes_section.subsections.push(attributes_subsection);
            assert(attributes_section@.subsections =~= copied_subsections(
                map,
                data@.subsections,
                i as int + 1,
            )->Ok_0);
            i += 1;
        }
        Ok(SectionData::Attributes(attributes_section))
    }

    /// Looks for the first tokenizer section of the image and makes it the
    /// tokenized section.  Without one, nothing changes.
    fn set_tokenized_section(&mut self)
        ensures
            final(self)@.builder == old(self)@.builder,
            final(self)@.tokenized_section == match first_tokenizer(
                old(self)@.builder.sections,
                old(self)@.builder.sections.len() as int,
            ) {
                Some(id) => Some(id),
                None => old(self)@.tokenized_section,
            },
            first_tokenizer(
                old(self)@.builder.sections,
                old(self)@.builder.sections.len() as int,
            ) matches Some(id) ==> id.0 < old(self)@.builder.sections.len(),
    {
        let mut i: usize = 0;
        while i < self.builder.sections.len()
            invariant
                i <= self.builder.sections.len(),
                *self == *old(self),
                first_tokenizer(self@.builder.sections, i as int) is None,
            decreases self.builder.sections.len() - i,
        {
            if Self::is_tokenizer_section(&self.builder.sections[i]) {
                self.tokenized_section = Some(SectionId(i));
                proof {
                    lemma_first_tokenizer_found(
                        self@.builder.sections,
                        i as int,
                        self@.builder.sections.len() as int,
                    );
                }
                return ;
            }
            i += 1;
        }
    }

    /// Appends the token database of `section`, section `index` of an
    /// application, to the tokenized section of the image and maps the
    /// section to it.  Where the image has no tokenized section yet,
    /// nothing changes and the answer is `true`: the section is to be
    /// added as the tokenized section.
    fn update_tokenized_section(
        &mut self,
        section: &ElfSection,
        index: usize,
        section_map: &mut SectionMap,
    ) -> (r: Result<bool, AssembleError>)
        requires
            old(self)@.tokenized_section matches Some(id) ==> id.0 < old(
                self,
            )@.builder.sections.len(),
        ensures
            match old(self)@.tokenized_section {
                Some(survivor) => match joined_tokenizer(
                    old(self)@.builder.sections[survivor.0 as int],
                    section@,
                ) {
                    Ok(joined) => {
                        &&& r == Ok::<bool, AssembleError>(false)
                        &&& final(self)@.builder.sections == old(self)@.builder.sections.update(
                            survivor.0 as int,
                            joined,
                        )
                        &&& final(section_map)@ == old(section_map)@.insert(index, survivor)
                    },
                    Err(e) => r == Err::<bool, AssembleError>(e),
                },
                None => {
                    &&& r == Ok::<bool, AssembleError>(true)
                    &&& final(self)@.builder.sections == old(self)@.builder.sections
                    &&& final(section_map)@ == old(section_map)@
                },
            },
            final(self)@.tokenized_section == old(self)@.tokenized_section,
            final(self)@.builder.segments == old(self)@.builder.segments,
            final(self)@.builder.symbols == old(self)@.builder.symbols,
    {
        match self.tokenized_section {
            Some(tokenized_section_id) => {
                // There is already a tokenizer section, so append
                // this tokenizer database to the existing one.
                let t = tokenized_section_id.0;
                let ghost before = self@.builder.sections;
                let mut combined_data = match &self.builder.sections[t].data {
                    SectionData::Data(data) => data.clone(),
                    _ => {
                        return Err(AssembleError::UnsupportedSectionData);
                    },
                };
                let ghost old_bytes = combined_data@;
                assert(before[t as int].data == SectionDataView::Data(old_bytes));
                match &section.data {
                    SectionData::Data(new_data) => {
                        combined_data.extend_from_slice(new_data.as_slice());
                        assert(section@.data == SectionDataView::Data(new_data@));
                        assert(combined_data@ =~= old_bytes + new_data@);
                    },
                    _ => {
                        return Err(AssembleError::UnsupportedSectionData);
                    },
                }
                let ghost joined = joined_tokenizer(before[t as int], section@);
                let size = match self.builder.sections[t].sh_size.checked_add(section.sh_size) {
                    Some(size) => size,
                    None => {
                        return Err(AssembleError::InvalidLayout);
                    },
                };
                self.builder.sections[t].sh_size = size;
                self.builder.sections[t].data = SectionData::Data(combined_data);
                section_map.insert(index, tokenized_section_id);
                assert(joined is Ok);
                assert(self.builder.sections@[t as int]@.data == joined->Ok_0.data);
                assert(self.builder.sections@[t as int]@ == joined->Ok_0);
                assert(self@.builder.sections =~= before.update(t as int, joined->Ok_0));
                Ok(false)
            },
            None => {
                // No existing tokenized section in the system image, so use
                // this one.
                Ok(true)
            },
        }
    }

    /// Whether the section holds tokenized log strings: it is not loaded,
    /// and its name begins with `.pw_tokenizer.`.
    fn is_tokenizer_section(section: &ElfSection) -> (r: bool)
        ensures
            r == is_tokenizer(section@),
    {
        if section.is_alloc() {
            return false;
        }
        let prefix: [u8; 14] = [
            0x2e,
            0x70,
            0x77,
            0x5f,
            0x74,
            0x6f,
            0x6b,
            0x65,
            0x6e,
            0x69,
            0x7a,
            0x65,
            0x72,
            0x2e,
        ];
        assert(prefix@ =~= tokenizer_prefix());
        starts_with(&section.name, prefix.as_slice())
    }
}

/// The name under which the application at position `index` is merged.
/// `file_stem` is the name of its file without directory and extension.
///
/// The name is made to be fit for an ELF symbol.  There is no concern over
/// name collisions, as the index is part of it.
pub fn get_app_name(file_stem: &str, index: usize) -> (name: String)
    ensures
        name@ == app_name_for(file_stem@, index as nat),
{
    let mut valid_name = String::new();
    let len = file_stem.unicode_len();
    let mut i: usize = 0;
    while i < len
        invariant
            i <= len == file_stem@.len(),
            valid_name@ == Seq::new(i as nat, |j: int| sanitized_char(file_stem@[j])),
        decreases len - i,
    {
        let c = file_stem.get_char(i);
        if char_is_alphanumeric(c) || c == '_' {
            valid_name.push(c);
        } else {
            valid_name.push('_');
        }
        i += 1;
    }
    valid_name.push('_');
    valid_name.append(decimal_string(index).as_str());
    valid_name
}

/// Merges the applications, in order, into the kernel's image.
///
/// The application at position `i` is merged under the name that
/// `get_app_name` makes of its file stem and `i`.
#[verifier::loop_isolation(false)]
pub fn assemble(kernel: ElfImage, apps: &Vec<AppImage>) -> (r: Result<ElfImage, AssembleError>)
    requires
        kernel@.wf(),
        forall|i: int| 0 <= i < apps@.len() ==> (#[trigger] apps@[i])@.image.wf(),
    ensures
        match assembled(kernel@, seq_view(apps@), apps@.len() as int) {
            Ok(image) => r is Ok && r->Ok_0@ == image.builder && image.wf(),
            Err(e) => r == Err::<ElfImage, AssembleError>(e),
        },
{
    let ghost kernel_view = kernel@;
    let ghost views = seq_view(apps@);
    let mut system_image = SystemImage::new(kernel);
    let mut index: usize = 0;
    while index < apps.len()
        invariant
            index <= apps.len(),
            views == seq_view(apps@),
            forall|i: int| 0 <= i < apps@.len() ==> (#[trigger] apps@[i])@.image.wf(),
            assembled(kernel_view, views, index as int) == Ok::<SystemImageView, AssembleError>(
                system_image@,
            ),
            system_image@.wf(),
        decreases apps.len() - index,
    {
        let app = &apps[index];
        assert(views[index as int] == app@);
        let app_name = get_app_name(app.file_stem.as_str(), index);
        match system_image.add_app_image(&app.image, &app_name) {
            Ok(()) => {},
            Err(e) => {
                proof {
                    lemma_assembled_error(kernel_view, views, index as int + 1, views.len() as int);
                }
                return Err(e);
            },
        }
        index += 1;
    }
    Ok(system_image.builder)
}

} // verus!
