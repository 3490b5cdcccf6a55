//! An ELF image held as tables of sections, segments and symbols.
//!
//! Entities refer to each other by position in their table, never by
//! pointer: a [`SectionId`] is an index into the section table of the image
//! that the entity belongs to.  Every exec type has a view that holds the
//! same data as mathematical sequences; contracts are stated over views.

use vstd::prelude::*;

verus! {

/// Segment type of a loadable segment.
pub const PT_LOAD: u32 = 1;

/// Section type of a section that occupies no space in the file.
pub const SHT_NOBITS: u32 = 8;

/// Section flag: the section occupies memory during execution.
pub const SHF_ALLOC: u64 = 0x2;

/// Symbol binding of a global symbol.
pub const STB_GLOBAL: u8 = 1;

/// The views of the elements of `s`, in order.
pub open spec fn seq_view<T: View>(s: Seq<T>) -> Seq<T::V> {
    Seq::new(s.len(), |i: int| s[i]@)
}

/// Position of a section in the section table of its image.
#[derive(Clone, Copy, Debug, PartialEq, Eq, Hash, Structural)]
pub struct SectionId(pub usize);

impl SectionId {
    /// The index of the section in the table.
    pub fn index(&self) -> (i: usize)
        ensures
            i == self.0,
    {
        self.0
    }
}

/// What a sub-subsection of an attributes section applies to.
#[derive(Debug)]
pub enum AttributeTag {
    /// The whole file.
    File,
    /// The given sections.
    Section(Vec<SectionId>),
    /// The given symbols, by position in the symbol table.
    Symbol(Vec<usize>),
}

/// View of [`AttributeTag`].
pub enum AttributeTagView {
    File,
    Section(Seq<SectionId>),
    Symbol(Seq<usize>),
}

impl View for AttributeTag {
    type V = AttributeTagView;

    open spec fn view(&self) -> AttributeTagView {
        match self {
            AttributeTag::File => AttributeTagView::File,
            AttributeTag::Section(ids) => AttributeTagView::Section(ids@),
            AttributeTag::Symbol(ids) => AttributeTagView::Symbol(ids@),
        }
    }
}

/// A sub-subsection of an attributes section: a tag and the attributes.
#[derive(Debug)]
pub struct AttributesSubsubsection {
    pub tag: AttributeTag,
    pub data: Vec<u8>,
}

/// View of [`AttributesSubsubsection`].
pub struct AttributesSubsubsectionView {
    pub tag: AttributeTagView,
    pub data: Seq<u8>,
}

impl View for AttributesSubsubsection {
    type V = AttributesSubsubsectionView;

    open spec fn view(&self) -> AttributesSubsubsectionView {
        AttributesSubsubsectionView { tag: self.tag@, data: self.data@ }
    }
}

/// The attributes of one vendor.
#[derive(Debug)]
pub struct AttributesSubsection {
    pub vendor: Vec<u8>,
    pub subsubsections: Vec<AttributesSubsubsection>,
}

/// View of [`AttributesSubsection`].
pub struct AttributesSubsectionView {
    pub vendor: Seq<u8>,
    pub subsubsections: Seq<AttributesSubsubsectionView>,
}

impl View for AttributesSubsection {
    type V = AttributesSubsectionView;

    open spec fn view(&self) -> AttributesSubsectionView {
        AttributesSubsectionView {
            vendor: self.vendor@,
            subsubsections: seq_view(self.subsubsections@),
        }
    }
}

/// The content of an attributes section: a tree of vendor, tag and data.
#[derive(Debug)]
pub struct AttributesSection {
    pub subsections: Vec<AttributesSubsection>,
}

/// View of [`AttributesSection`].
pub struct AttributesSectionView {
    pub subsections: Seq<AttributesSubsectionView>,
}

impl View for AttributesSection {
    type V = AttributesSectionView;

    open spec fn view(&self) -> AttributesSectionView {
        AttributesSectionView { subsections: seq_view(self.subsections@) }
    }
}

/// The payload of a section.
///
/// `Relocation`, `DynamicRelocation`, `Note` and `Dynamic` only mark what
/// the section holds; their entries stay with whoever parsed the file.
/// The variants from `SectionString` on mark tables that the writer of an
/// image builds by itself.
#[derive(Debug)]
pub enum SectionData {
    /// Raw bytes.
    Data(Vec<u8>),
    /// Uninitialised bytes of the given length.
    UninitializedData(u64),
    Relocation,
    DynamicRelocation,
    Note,
    Dynamic,
    /// Vendor attributes.
    Attributes(AttributesSection),
    SectionString,
    Symbol,
    SymbolSectionIndex,
    String,
    DynamicSymbol,
    DynamicString,
    Hash,
    GnuHash,
    GnuVersym,
    GnuVerdef,
    GnuVerneed,
}

/// View of [`SectionData`].
pub enum SectionDataView {
    Data(Seq<u8>),
    UninitializedData(u64),
    Relocation,
    DynamicRelocation,
    Note,
    Dynamic,
    Attributes(AttributesSectionView),
    SectionString,
    Symbol,
    SymbolSectionIndex,
    String,
    DynamicSymbol,
    DynamicString,
    Hash,
    GnuHash,
    GnuVersym,
    GnuVerdef,
    GnuVerneed,
}

impl View for SectionData {
    type V = SectionDataView;

    open spec fn view(&self) -> SectionDataView {
        match self {
            SectionData::Data(bytes) => SectionDataView::Data(bytes@),
            SectionData::UninitializedData(len) => SectionDataView::UninitializedData(*len),
            SectionData::Relocation => SectionDataView::Relocation,
            SectionData::DynamicRelocation => SectionDataView::DynamicRelocation,
            SectionData::Note => SectionDataView::Note,
            SectionData::Dynamic => SectionDataView::Dynamic,
            SectionData::Attributes(attributes) => SectionDataView::Attributes(attributes@),
            SectionData::SectionString => SectionDataView::SectionString,
            SectionData::Symbol => SectionDataView::Symbol,
            SectionData::SymbolSectionIndex => SectionDataView::SymbolSectionIndex,
            SectionData::String => SectionDataView::String,
            SectionData::DynamicSymbol => SectionDataView::DynamicSymbol,
            SectionData::DynamicString => SectionDataView::DynamicString,
            SectionData::Hash => SectionDataView::Hash,
            SectionData::GnuHash => SectionDataView::GnuHash,
            SectionData::GnuVersym => SectionDataView::GnuVersym,
            SectionData::GnuVerdef => SectionDataView::GnuVerdef,
            SectionData::GnuVerneed => SectionDataView::GnuVerneed,
        }
    }
}

/// A section: the fields of its header, and its payload.
#[derive(Debug)]
pub struct ElfSection {
    pub name: Vec<u8>,
    pub sh_type: u32,
    pub sh_flags: u64,
    pub sh_addr: u64,
    pub sh_offset: u64,
    pub sh_size: u64,
    /// The section that `sh_link` refers to.
    pub sh_link_section: Option<SectionId>,
    /// The `sh_info` field, where it is not a section reference.
    pub sh_info: u32,
    /// The section that `sh_info` refers to.
    pub sh_info_section: Option<SectionId>,
    pub sh_addralign: u64,
    pub sh_entsize: u64,
    pub data: SectionData,
}

/// View of [`ElfSection`].
pub struct ElfSectionView {
    pub name: Seq<u8>,
    pub sh_type: u32,
    pub sh_flags: u64,
    pub sh_addr: u64,
    pub sh_offset: u64,
    pub sh_size: u64,
    pub sh_link_section: Option<SectionId>,
    pub sh_info: u32,
    pub sh_info_section: Option<SectionId>,
    pub sh_addralign: u64,
    pub sh_entsize: u64,
    pub data: SectionDataView,
}

impl View for ElfSection {
    type V = ElfSectionView;

    open spec fn view(&self) -> ElfSectionView {
        ElfSectionView {
            name: self.name@,
            sh_type: self.sh_type,
            sh_flags: self.sh_flags,
            sh_addr: self.sh_addr,
            sh_offset: self.sh_offset,
            sh_size: self.sh_size,
            sh_link_section: self.sh_link_section,
            sh_info: self.sh_info,
            sh_info_section: self.sh_info_section,
            sh_addralign: self.sh_addralign,
            sh_entsize: self.sh_entsize,
            data: self.data@,
        }
    }
}

impl ElfSectionView {
    /// The section flags include `SHF_ALLOC`.
    pub open spec fn is_alloc(self) -> bool {
        self.sh_flags & SHF_ALLOC != 0
    }

    /// A section as a section table hands it out before anything is
    /// written to it: every field zero or empty.
    pub open spec fn empty() -> ElfSectionView {
        ElfSectionView {
            name: Seq::empty(),
            sh_type: 0,
            sh_flags: 0,
            sh_addr: 0,
            sh_offset: 0,
            sh_size: 0,
            sh_link_section: None,
            sh_info: 0,
            sh_info_section: None,
            sh_addralign: 0,
            sh_entsize: 0,
            data: SectionDataView::Data(Seq::empty()),
        }
    }
}

impl ElfSection {
    /// A section with every field zero or empty.
    pub fn new() -> (s: Self)
        ensures
            s@ == ElfSectionView::empty(),
    {
        ElfSection {
            name: Vec::new(),
            sh_type: 0,
            sh_flags: 0,
            sh_addr: 0,
            sh_offset: 0,
            sh_size: 0,
            sh_link_section: None,
            sh_info: 0,
            sh_info_section: None,
            sh_addralign: 0,
            sh_entsize: 0,
            data: SectionData::Data(Vec::new()),
        }
    }

    /// Returns true if the section flags include `SHF_ALLOC`.
    pub fn is_alloc(&self) -> (r: bool)
        ensures
            r == self@.is_alloc(),
    {
        self.sh_flags & SHF_ALLOC != 0
    }
}

/// A segment: the fields of its program header, and its sections.
#[derive(Debug)]
pub struct ElfSegment {
    pub p_type: u32,
    pub p_flags: u32,
    pub p_offset: u64,
    pub p_vaddr: u64,
    pub p_paddr: u64,
    pub p_filesz: u64,
    pub p_memsz: u64,
    pub p_align: u64,
    /// The sections contained in this segment.
    pub sections: Vec<SectionId>,
}

/// View of [`ElfSegment`].
pub struct ElfSegmentView {
    pub p_type: u32,
    pub p_flags: u32,
    pub p_offset: u64,
    pub p_vaddr: u64,
    pub p_paddr: u64,
    pub p_filesz: u64,
    pub p_memsz: u64,
    pub p_align: u64,
    pub sections: Seq<SectionId>,
}

impl View for ElfSegment {
    type V = ElfSegmentView;

    open spec fn view(&self) -> ElfSegmentView {
        ElfSegmentView {
            p_type: self.p_type,
            p_flags: self.p_flags,
            p_offset: self.p_offset,
            p_vaddr: self.p_vaddr,
            p_paddr: self.p_paddr,
            p_filesz: self.p_filesz,
            p_memsz: self.p_memsz,
            p_align: self.p_align,
            sections: self.sections@,
        }
    }
}

impl ElfSegmentView {
    /// The segment type is `PT_LOAD`.
    pub open spec fn is_load(self) -> bool {
        self.p_type == PT_LOAD
    }
}

impl ElfSegment {
    /// Returns true if the segment type is `PT_LOAD`.
    pub fn is_load(&self) -> (r: bool)
        ensures
            r == self@.is_load(),
    {
        self.p_type == PT_LOAD
    }
}

/// A symbol of the static symbol table.
#[derive(Debug)]
pub struct ElfSymbol {
    pub name: Vec<u8>,
    /// The section that the symbol is defined in.
    pub section: Option<SectionId>,
    pub st_info: u8,
    pub st_other: u8,
    /// The `st_shndx` field, where `section` is `None`.
    pub st_shndx: u16,
    pub st_value: u64,
    pub st_size: u64,
    /// Index of the symbol's version.
    pub version: usize,
    pub version_hidden: bool,
}

/// View of [`ElfSymbol`].
pub struct ElfSymbolView {
    pub name: Seq<u8>,
    pub section: Option<SectionId>,
    pub st_info: u8,
    pub st_other: u8,
    pub st_shndx: u16,
    pub st_value: u64,
    pub st_size: u64,
    pub version: usize,
    pub version_hidden: bool,
}

impl View for ElfSymbol {
    type V = ElfSymbolView;

    open spec fn view(&self) -> ElfSymbolView {
        ElfSymbolView {
            name: self.name@,
            section: self.section,
            st_info: self.st_info,
            st_other: self.st_other,
            st_shndx: self.st_shndx,
            st_value: self.st_value,
            st_size: self.st_size,
            version: self.version,
            version_hidden: self.version_hidden,
        }
    }
}

impl ElfSymbolView {
    /// The binding of the symbol: the high four bits of `st_info`.
    pub open spec fn st_bind(self) -> u8 {
        self.st_info >> 4
    }
}

impl ElfSymbol {
    /// Get the `st_bind` component of the `st_info` field.
    pub fn st_bind(&self) -> (r: u8)
        ensures
            r == self@.st_bind(),
    {
        self.st_info >> 4
    }
}

/// An ELF image: its section, segment and symbol tables.
#[derive(Debug)]
pub struct ElfImage {
    pub sections: Vec<ElfSection>,
    pub segments: Vec<ElfSegment>,
    pub symbols: Vec<ElfSymbol>,
}

/// View of [`ElfImage`].
pub struct ElfImageView {
    pub sections: Seq<ElfSectionView>,
    pub segments: Seq<ElfSegmentView>,
    pub symbols: Seq<ElfSymbolView>,
}

impl View for ElfImage {
    type V = ElfImageView;

    open spec fn view(&self) -> ElfImageView {
        ElfImageView {
            sections: seq_view(self.sections@),
            segments: seq_view(self.segments@),
            symbols: seq_view(self.symbols@),
        }
    }
}

impl ElfImageView {
    /// Every section that a segment holds is in the section table.
    pub open spec fn segments_in_range(self) -> bool {
        forall|k: int, j: int|
            0 <= k < self.segments.len() && 0 <= j < self.segments[k].sections.len() ==> (
            #[trigger] self.segments[k].sections[j]).0 < self.sections.len()
    }

    /// Every section that a symbol is defined in is in the section table.
    pub open spec fn symbols_in_range(self) -> bool {
        forall|k: int|
            0 <= k < self.symbols.len() ==> ((#[trigger] self.symbols[k]).section matches Some(
                id,
            ) ==> id.0 < self.sections.len())
    }

    /// The references from segments and symbols to sections are sound.
    pub open spec fn wf(self) -> bool {
        self.segments_in_range() && self.symbols_in_range()
    }
}

impl ElfImage {
    /// An image without sections, segments or symbols.
    pub fn new() -> (image: Self)
        ensures
            image@.sections.len() == 0,
            image@.segments.len() == 0,
            image@.symbols.len() == 0,
            image@.wf(),
    {
        ElfImage { sections: Vec::new(), segments: Vec::new(), symbols: Vec::new() }
    }

    /// Whether the references from segments and symbols to sections are
    /// sound.
    pub fn is_well_formed(&self) -> (r: bool)
        ensures
            r == self@.wf(),
    {
        let n = self.sections.len();
        let mut k: usize = 0;
        while k < self.segments.len()
            invariant
                k <= self.segments.len(),
                n == self.sections.len(),
                forall|a: int, j: int|
                    0 <= a < k && 0 <= j < self@.segments[a].sections.len() ==> (
                    #[trigger] self@.segments[a].sections[j]).0 < n,
            decreases self.segments.len() - k,
        {
            let segment = &self.segments[k];
            let mut j: usize = 0;
            while j < segment.sections.len()
                invariant
                    j <= segment.sections.len(),
                    k < self.segments.len(),
                    n == self.sections.len(),
                    segment == &self.segments[k as int],
                    forall|b: int| 0 <= b < j ==> (#[trigger] segment.sections[b]).0 < n,
                decreases segment.sections.len() - j,
            {
                if segment.sections[j].0 >= n {
                    assert(self@.segments[k as int].sections[j as int].0 >= n);
                    return false;
                }
                j += 1;
            }
            assert(self@.segments[k as int].sections == segment.sections@);
            k += 1;
        }
        let mut s: usize = 0;
        while s < self.symbols.len()
            invariant
                s <= self.symbols.len(),
                n == self.sections.len(),
                self@.segments_in_range(),
                forall|a: int|
                    0 <= a < s ==> ((#[trigger] self@.symbols[a]).section matches Some(id) ==> id.0
                        < n),
            decreases self.symbols.len() - s,
        {
            match self.symbols[s].section {
                Some(id) => {
                    if id.0 >= n {
                        assert(self@.symbols[s as int].section == Some(id));
                        return false;
                    }
                },
                None => {},
            }
            s += 1;
        }
        true
    }
}

} // verus!
