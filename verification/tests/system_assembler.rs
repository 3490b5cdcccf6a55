use pw_kernel_image::elf::{
    AttributeTag, AttributesSection, AttributesSubsection, AttributesSubsubsection, ElfImage,
    ElfSection, ElfSegment, ElfSymbol, SectionData, SectionId, PT_LOAD, SHF_ALLOC, SHT_NOBITS,
    STB_GLOBAL,
};
use pw_kernel_image::merge::AssembleError;
use pw_kernel_image::system_assembler::{assemble, get_app_name, AppImage, SystemImage};

const SHT_PROGBITS: u32 = 1;
const SHF_EXECINSTR: u64 = 0x4;
const SHF_WRITE: u64 = 0x1;
const STB_LOCAL: u8 = 0;
const STB_WEAK: u8 = 2;
const STT_FUNC: u8 = 2;

fn section(name: &str, sh_type: u32, sh_flags: u64, sh_addr: u64, sh_size: u64, align: u64, data: SectionData) -> ElfSection {
    ElfSection {
        name: name.as_bytes().to_vec(),
        sh_type,
        sh_flags,
        sh_addr,
        sh_offset: 0,
        sh_size,
        sh_link_section: None,
        sh_info: 0,
        sh_info_section: None,
        sh_addralign: align,
        sh_entsize: 0,
        data,
    }
}

fn code(name: &str, addr: u64, size: usize) -> ElfSection {
    section(name, SHT_PROGBITS, SHF_ALLOC | SHF_EXECINSTR, addr, size as u64, 4, SectionData::Data(vec![0xaa; size]))
}

fn data(name: &str, addr: u64, size: usize) -> ElfSection {
    section(name, SHT_PROGBITS, SHF_ALLOC | SHF_WRITE, addr, size as u64, 4, SectionData::Data(vec![0x55; size]))
}

fn bss(name: &str, addr: u64, size: u64, align: u64) -> ElfSection {
    section(name, SHT_NOBITS, SHF_ALLOC | SHF_WRITE, addr, size, align, SectionData::UninitializedData(size))
}

fn tokenizer(bytes: Vec<u8>) -> ElfSection {
    section(".pw_tokenizer.entries", SHT_PROGBITS, 0, 0, bytes.len() as u64, 1, SectionData::Data(bytes))
}

fn load(flags: u32, offset: u64, vaddr: u64, paddr: u64, size: u64, align: u64, sections: &[usize]) -> ElfSegment {
    ElfSegment {
        p_type: PT_LOAD,
        p_flags: flags,
        p_offset: offset,
        p_vaddr: vaddr,
        p_paddr: paddr,
        p_filesz: size,
        p_memsz: size,
        p_align: align,
        sections: sections.iter().map(|i| SectionId(*i)).collect(),
    }
}

fn symbol(name: &str, section: Option<usize>, bind: u8, value: u64) -> ElfSymbol {
    ElfSymbol {
        name: name.as_bytes().to_vec(),
        section: section.map(SectionId),
        st_info: (bind << 4) | STT_FUNC,
        st_other: 0,
        st_shndx: 0,
        st_value: value,
        st_size: 4,
        version: 0,
        version_hidden: false,
    }
}

fn image(sections: Vec<ElfSection>, segments: Vec<ElfSegment>, symbols: Vec<ElfSymbol>) -> ElfImage {
    let image = ElfImage { sections, segments, symbols };
    assert!(image.is_well_formed());
    image
}

fn app(stem: &str, image: ElfImage) -> AppImage {
    AppImage { image, file_stem: stem.to_string() }
}

fn kernel() -> ElfImage {
    image(
        vec![code(".text", 0, 0x200)],
        vec![load(5, 0x1000, 0, 0, 0x200, 0x1000, &[0])],
        vec![symbol("main", Some(0), STB_GLOBAL, 0x10)],
    )
}

/// An application with one code section at `addr`, 0x420 bytes into its segment.
fn code_app(addr: u64) -> ElfImage {
    image(
        vec![code(".code", addr, 0x100)],
        vec![load(5, 0x1000, addr - 0x420, addr - 0x420, 0x520, 0x1000, &[0])],
        vec![symbol("_start", Some(0), STB_GLOBAL, addr)],
    )
}

fn merge_one(kernel: ElfImage, app: &ElfImage, name: &str) -> Result<SystemImage, AssembleError> {
    let mut system = SystemImage::new(kernel);
    system.add_app_image(app, &name.to_string())?;
    assert!(system.builder.is_well_formed());
    Ok(system)
}

fn names(image: &ElfImage) -> Vec<String> {
    image.sections.iter().map(|s| String::from_utf8(s.name.clone()).unwrap()).collect()
}

#[test]
fn merge_preserves_entry_point_addresses() {
    let apps = vec![app("app1", code_app(0x40420)), app("app2", code_app(0x50420))];
    let merged = assemble(kernel(), &apps).unwrap();
    let find = |name: &str| merged.symbols.iter().find(|s| s.name == name.as_bytes()).unwrap();
    assert_eq!(find("_start_app1_0").st_value, 0x40420);
    assert_eq!(find("_start_app2_1").st_value, 0x50420);
    assert_eq!(find("_start_app1_0").section, Some(SectionId(1)));
    assert_eq!(find("_start_app2_1").section, Some(SectionId(2)));
    assert_eq!(find("main").st_value, 0x10);
    assert_eq!(merged.symbols.len(), 3);
    assert_eq!(names(&merged), [".text", ".code.app1_0", ".code.app2_1"]);
    assert_eq!(merged.sections[1].sh_addr, 0x40420);
    assert_eq!(merged.sections[2].sh_addr, 0x50420);
}

#[test]
fn merge_places_segments_behind_each_other_in_the_file() {
    let apps = vec![app("app1", code_app(0x40420)), app("app2", code_app(0x50420))];
    let merged = assemble(kernel(), &apps).unwrap();
    assert_eq!(merged.segments.len(), 3);
    // The kernel's segment is untouched.
    let k = &merged.segments[0];
    assert_eq!((k.p_offset, k.p_vaddr, k.p_paddr, k.p_filesz, k.p_memsz), (0x1000, 0, 0, 0x200, 0x200));
    // The first application starts where the kernel's segment ends in the file.
    let a = &merged.segments[1];
    assert_eq!(a.p_type, PT_LOAD);
    assert_eq!(a.p_flags, 5);
    assert_eq!(a.p_align, 0x1000);
    assert_eq!((a.p_offset, a.p_vaddr, a.p_paddr, a.p_filesz, a.p_memsz), (0x1200, 0x40000, 0x40000, 0x100, 0x100));
    assert_eq!(a.sections, [SectionId(1)]);
    assert_eq!(merged.sections[1].sh_offset, 0x1200);
    // The second starts where the first ends.
    let b = &merged.segments[2];
    assert_eq!((b.p_offset, b.p_vaddr, b.p_paddr, b.p_filesz, b.p_memsz), (0x1300, 0x50000, 0x50000, 0x100, 0x100));
    assert_eq!(b.sections, [SectionId(2)]);
    assert_eq!(merged.sections[2].sh_offset, 0x1300);
}

#[test]
fn section_address_is_not_recomputed_from_the_segment() {
    // The section starts 0x420 bytes into its segment. Appending it to the new
    // segment would put it at the segment's start; the linker's address stays.
    let system = merge_one(ElfImage::new(), &code_app(0x40420), "app_0").unwrap();
    assert_eq!(system.builder.segments[0].p_vaddr, 0x40000);
    assert_eq!(system.builder.sections[0].sh_addr, 0x40420);
    assert_eq!(system.builder.sections[0].sh_offset, 0);
    assert_eq!(system.builder.symbols[0].st_value, 0x40420);
}

#[test]
fn later_sections_are_aligned_within_the_segment() {
    let mut rodata = code(".rodata", 0x8110, 0x10);
    rodata.sh_addralign = 16;
    let app = image(
        vec![code(".text", 0x8000, 0x102), rodata],
        vec![load(5, 0, 0x8000, 0x8000, 0x120, 0x1000, &[0, 1])],
        vec![],
    );
    let system = merge_one(ElfImage::new(), &app, "app_0").unwrap();
    let s = &system.builder.segments[0];
    assert_eq!((s.p_offset, s.p_vaddr, s.p_paddr, s.p_filesz, s.p_memsz), (0, 0x8000, 0x8000, 0x120, 0x120));
    assert_eq!(s.sections, [SectionId(0), SectionId(1)]);
    assert_eq!(system.builder.sections[0].sh_offset, 0);
    assert_eq!(system.builder.sections[1].sh_offset, 0x110);
    assert_eq!(system.builder.sections[1].sh_addr, 0x8110);
}

#[test]
fn uninitialized_section_adds_memory_but_no_file_space() {
    let app = image(
        vec![data(".data", 0x2000_0000, 0x10), bss(".bss", 0x2000_0010, 0x20, 8)],
        vec![load(6, 0, 0x2000_0000, 0x2000_0000, 0x30, 0x1000, &[0, 1])],
        vec![],
    );
    let system = merge_one(ElfImage::new(), &app, "app_0").unwrap();
    let s = &system.builder.segments[0];
    assert_eq!((s.p_offset, s.p_filesz, s.p_memsz), (0, 0x10, 0x30));
    assert_eq!((s.p_vaddr, s.p_paddr), (0x2000_0000, 0x2000_0000));
    assert_eq!(system.builder.sections[1].sh_offset, 0x10);
    assert_eq!(system.builder.sections[1].sh_addr, 0x2000_0010);
    assert!(matches!(system.builder.sections[1].data, SectionData::UninitializedData(0x20)));
}

#[test]
fn segment_with_a_memory_only_tail_takes_no_further_section() {
    let app = image(
        vec![data(".data", 0x2000_0000, 0x10), bss(".bss", 0x2000_0010, 0x20, 8), bss(".noinit", 0x2000_0030, 0x20, 8)],
        vec![load(6, 0, 0x2000_0000, 0x2000_0000, 0x50, 0x1000, &[0, 1, 2])],
        vec![],
    );
    assert_eq!(merge_one(ElfImage::new(), &app, "app_0").err(), Some(AssembleError::InvalidLayout));
}

#[test]
fn section_without_alignment_cannot_be_appended() {
    let mut text = code(".text", 0x8000, 0x10);
    text.sh_addralign = 0;
    let app = image(vec![text], vec![load(5, 0, 0x8000, 0x8000, 0x10, 0x1000, &[0])], vec![]);
    assert_eq!(merge_one(ElfImage::new(), &app, "app_0").err(), Some(AssembleError::InvalidLayout));
}

#[test]
fn segment_without_alignment_cannot_be_opened() {
    let app = image(vec![code(".text", 0x8000, 0x10)], vec![load(5, 0, 0x8000, 0x8000, 0x10, 0, &[0])], vec![]);
    assert_eq!(merge_one(ElfImage::new(), &app, "app_0").err(), Some(AssembleError::InvalidLayout));
}

#[test]
fn segment_that_ends_beyond_64_bits_is_an_overflow() {
    let mut k = kernel();
    k.segments[0].p_offset = u64::MAX;
    assert_eq!(merge_one(k, &code_app(0x40420), "app_0").err(), Some(AssembleError::InvalidLayout));
}

#[test]
fn section_that_ends_beyond_64_bits_is_an_overflow() {
    let mut a = code_app(0x40420);
    a.sections[0].sh_size = u64::MAX;
    assert_eq!(merge_one(kernel(), &a, "app_0").err(), Some(AssembleError::InvalidLayout));
}

#[test]
fn segment_addresses_follow_the_first_section() {
    // Data that is loaded from flash and runs in RAM: once a section is in the
    // segment, both addresses of the segment are the load address.
    let app = image(
        vec![data(".data", 0x2000_0000, 0x10)],
        vec![load(6, 0, 0x2000_0000, 0x0800_0000, 0x10, 0x1000, &[0])],
        vec![],
    );
    let system = merge_one(ElfImage::new(), &app, "app_0").unwrap();
    assert_eq!(system.builder.segments[0].p_paddr, 0x0800_0000);
    assert_eq!(system.builder.segments[0].p_vaddr, 0x0800_0000);
    assert_eq!(system.builder.sections[0].sh_addr, 0x2000_0000);
}

#[test]
fn empty_load_segment_keeps_both_addresses() {
    let app = image(vec![], vec![load(6, 0x100, 0x2000_0000, 0x0800_0000, 0, 0x1000, &[])], vec![]);
    let system = merge_one(kernel(), &app, "app_0").unwrap();
    let s = &system.builder.segments[1];
    assert_eq!((s.p_vaddr, s.p_paddr), (0x2000_0000, 0x0800_0000));
    assert_eq!((s.p_offset, s.p_filesz, s.p_memsz), (0x1200, 0, 0));
    assert_eq!(s.p_flags, 6);
    assert!(s.sections.is_empty());
}

#[test]
fn segments_that_are_not_loaded_are_left_out() {
    let mut a = code_app(0x40420);
    let mut note = load(4, 0x2000, 0x9000, 0x9000, 0x20, 4, &[0]);
    note.p_type = 4;
    a.segments.insert(0, note);
    let system = merge_one(kernel(), &a, "app_0").unwrap();
    assert_eq!(system.builder.segments.len(), 2);
    assert_eq!(system.builder.segments[1].p_vaddr, 0x40000);
}

#[test]
fn tokenizer_sections_are_concatenated() {
    let first: Vec<u8> = (0..0x40).collect();
    let second: Vec<u8> = (0x80..0xa0).collect();
    let apps = vec![
        app("app1", image(vec![code(".code", 0x40420, 0x10), tokenizer(first.clone())], vec![], vec![])),
        app("app2", image(vec![tokenizer(second.clone()), code(".code", 0x50420, 0x10)], vec![], vec![])),
    ];
    let merged = assemble(kernel(), &apps).unwrap();
    assert_eq!(names(&merged), [".text", ".code.app1_0", ".pw_tokenizer.entries", ".code.app2_1"]);
    let tok: Vec<&ElfSection> = merged.sections.iter().filter(|s| s.name.starts_with(b".pw_tokenizer.")).collect();
    assert_eq!(tok.len(), 1);
    assert_eq!(tok[0].sh_size, 0x60);
    match &tok[0].data {
        SectionData::Data(bytes) => {
            assert_eq!(bytes.len(), 0x60);
            assert_eq!(bytes[..0x40], first[..]);
            assert_eq!(bytes[0x40..], second[..]);
        }
        other => panic!("{:?}", other),
    }
}

#[test]
fn tokenizer_of_the_kernel_survives() {
    let mut k = kernel();
    k.sections.push(tokenizer(vec![1, 2, 3]));
    let mut system = SystemImage::new(k);
    assert_eq!(system.tokenized_section, Some(SectionId(1)));
    let a = image(
        vec![tokenizer(vec![4, 5]), code(".code", 0x40420, 0x10)],
        vec![],
        vec![symbol("token", Some(0), STB_LOCAL, 1), symbol("_start", Some(1), STB_GLOBAL, 0x40420)],
    );
    system.add_app_image(&a, &"app_0".to_string()).unwrap();
    assert_eq!(system.tokenized_section, Some(SectionId(1)));
    assert_eq!(names(&system.builder), [".text", ".pw_tokenizer.entries", ".code.app_0"]);
    assert_eq!(system.builder.sections[1].sh_size, 5);
    assert!(matches!(&system.builder.sections[1].data, SectionData::Data(b) if b == &[1, 2, 3, 4, 5]));
    // A symbol of the application's tokenizer section now belongs to the kernel's.
    assert_eq!(system.builder.symbols[1].section, Some(SectionId(1)));
    assert_eq!(system.builder.symbols[2].section, Some(SectionId(2)));
}

#[test]
fn first_tokenizer_of_an_app_keeps_its_name() {
    let a = image(vec![section(".pw_tokenizer.info", SHT_PROGBITS, 0, 0, 2, 1, SectionData::Data(vec![7, 8])), tokenizer(vec![9])], vec![], vec![]);
    let system = merge_one(kernel(), &a, "app_0").unwrap();
    assert_eq!(names(&system.builder), [".text", ".pw_tokenizer.info"]);
    assert_eq!(system.tokenized_section, Some(SectionId(1)));
    assert_eq!(system.builder.sections[1].sh_size, 3);
    assert!(matches!(&system.builder.sections[1].data, SectionData::Data(b) if b == &[7, 8, 9]));
}

#[test]
fn allocated_section_is_no_tokenizer_section() {
    let mut k = kernel();
    let mut t = tokenizer(vec![1]);
    t.sh_flags = SHF_ALLOC;
    k.sections.push(t);
    k.sections.push(section(".pw_tokenize", SHT_PROGBITS, 0, 0, 1, 1, SectionData::Data(vec![2])));
    let system = SystemImage::new(k);
    assert_eq!(system.tokenized_section, None);
}

#[test]
fn symbol_moves_with_a_joined_tokenizer_section() {
    let mut k = kernel();
    let mut survivor = tokenizer(vec![0; 0x10]);
    survivor.sh_addr = 0x500;
    k.sections.push(survivor);
    let mut joined = tokenizer(vec![0; 0x20]);
    joined.sh_addr = 0x100;
    let a = image(vec![joined], vec![], vec![symbol("entry", Some(0), STB_LOCAL, 0x110)]);
    let system = merge_one(k, &a, "app_0").unwrap();
    assert_eq!(system.builder.symbols[1].st_value, 0x510);
    assert_eq!(system.builder.symbols[1].section, Some(SectionId(1)));
}

#[test]
fn tokenizer_sections_must_hold_bytes() {
    let mut k = kernel();
    k.sections.push(tokenizer(vec![1]));
    let a = image(vec![section(".pw_tokenizer.entries", SHT_NOBITS, 0, 0, 4, 1, SectionData::UninitializedData(4))], vec![], vec![]);
    assert_eq!(merge_one(k, &a, "app_0").err(), Some(AssembleError::UnsupportedSectionData));
    let mut k = kernel();
    k.sections.push(section(".pw_tokenizer.entries", SHT_NOBITS, 0, 0, 4, 1, SectionData::UninitializedData(4)));
    let a = image(vec![tokenizer(vec![1])], vec![], vec![]);
    assert_eq!(merge_one(k, &a, "app_0").err(), Some(AssembleError::UnsupportedSectionData));
}

#[test]
fn tokenizer_size_overflow() {
    let mut k = kernel();
    let mut t = tokenizer(vec![1]);
    t.sh_size = u64::MAX;
    k.sections.push(t);
    let a = image(vec![tokenizer(vec![2])], vec![], vec![]);
    assert_eq!(merge_one(k, &a, "app_0").err(), Some(AssembleError::InvalidLayout));
}

#[test]
fn symbol_and_string_tables_are_not_copied() {
    let a = image(
        vec![
            code(".code", 0x40420, 0x10),
            section(".symtab", 2, 0, 0, 0x40, 4, SectionData::Symbol),
            section(".strtab", 3, 0, 0, 0x20, 1, SectionData::String),
            section(".shstrtab", 3, 0, 0, 0x20, 1, SectionData::SectionString),
            data(".data", 0xa0420, 0x10),
        ],
        vec![],
        vec![symbol("_start", Some(0), STB_GLOBAL, 0x40420), symbol("value", Some(4), STB_GLOBAL, 0xa0424)],
    );
    let system = merge_one(kernel(), &a, "app_0").unwrap();
    assert_eq!(names(&system.builder), [".text", ".code.app_0", ".data.app_0"]);
    assert_eq!(system.builder.symbols[2].section, Some(SectionId(2)));
    assert_eq!(system.builder.symbols[2].st_value, 0xa0424);
}

#[test]
fn section_fields_are_copied() {
    let mut s = code(".code", 0x40420, 4);
    s.sh_offset = 0x1420;
    s.sh_entsize = 2;
    s.sh_info = 9;
    s.sh_addralign = 32;
    s.data = SectionData::Data(vec![1, 2, 3, 4]);
    let system = merge_one(kernel(), &image(vec![s], vec![], vec![]), "app_0").unwrap();
    let c = &system.builder.sections[1];
    assert_eq!(c.name, b".code.app_0");
    assert_eq!(c.sh_type, SHT_PROGBITS);
    assert_eq!(c.sh_flags, SHF_ALLOC | SHF_EXECINSTR);
    assert_eq!(c.sh_addr, 0x40420);
    assert_eq!(c.sh_offset, 0x1420);
    assert_eq!(c.sh_size, 4);
    assert_eq!(c.sh_addralign, 32);
    assert_eq!(c.sh_entsize, 2);
    assert_eq!(c.sh_link_section, None);
    assert_eq!(c.sh_info_section, None);
    // `sh_info` is not among the fields that are taken over.
    assert_eq!(c.sh_info, 0);
    assert!(matches!(&c.data, SectionData::Data(b) if b == &[1, 2, 3, 4]));
}

#[test]
fn table_markers_are_copied() {
    let a = image(
        vec![
            section(".hash", 5, SHF_ALLOC, 0x100, 8, 4, SectionData::Hash),
            section(".gnu.hash", 0x6fff_fff6, SHF_ALLOC, 0x110, 8, 4, SectionData::GnuHash),
            section(".dynsym", 11, SHF_ALLOC, 0x120, 8, 4, SectionData::DynamicSymbol),
            section(".dynstr", 3, SHF_ALLOC, 0x130, 8, 1, SectionData::DynamicString),
            section(".gnu.version", 0x6fff_ffff, SHF_ALLOC, 0x140, 8, 2, SectionData::GnuVersym),
            section(".gnu.version_d", 0x6fff_fffd, SHF_ALLOC, 0x150, 8, 4, SectionData::GnuVerdef),
            section(".gnu.version_r", 0x6fff_fffe, SHF_ALLOC, 0x160, 8, 4, SectionData::GnuVerneed),
            section(".symtab_shndx", 18, 0, 0, 8, 4, SectionData::SymbolSectionIndex),
        ],
        vec![],
        vec![],
    );
    let system = merge_one(ElfImage::new(), &a, "a_0").unwrap();
    let d: Vec<&SectionData> = system.builder.sections.iter().map(|s| &s.data).collect();
    assert!(matches!(d[0], SectionData::Hash));
    assert!(matches!(d[1], SectionData::GnuHash));
    assert!(matches!(d[2], SectionData::DynamicSymbol));
    assert!(matches!(d[3], SectionData::DynamicString));
    assert!(matches!(d[4], SectionData::GnuVersym));
    assert!(matches!(d[5], SectionData::GnuVerdef));
    assert!(matches!(d[6], SectionData::GnuVerneed));
    assert!(matches!(d[7], SectionData::SymbolSectionIndex));
}

#[test]
fn section_references_are_remapped() {
    let mut exidx = section(".ARM.exidx", 0x7000_0001, SHF_ALLOC, 0x40520, 8, 4, SectionData::Data(vec![0; 8]));
    exidx.sh_link_section = Some(SectionId(2));
    exidx.sh_info_section = Some(SectionId(0));
    let a = image(vec![data(".data", 0xa0420, 0x10), exidx, code(".code", 0x40420, 0x100)], vec![], vec![]);
    let system = merge_one(kernel(), &a, "app_0").unwrap();
    assert_eq!(names(&system.builder), [".text", ".data.app_0", ".ARM.exidx.app_0", ".code.app_0"]);
    // The reference pointed forward: it is remapped once every section is in.
    assert_eq!(system.builder.sections[2].sh_link_section, Some(SectionId(3)));
    assert_eq!(system.builder.sections[2].sh_info_section, Some(SectionId(1)));
}

#[test]
fn reference_to_a_skipped_section_fails() {
    let mut rel = data(".relinfo", 0xa0420, 0x10);
    rel.sh_link_section = Some(SectionId(1));
    let a = image(vec![rel, section(".symtab", 2, 0, 0, 0x40, 4, SectionData::Symbol)], vec![], vec![]);
    assert_eq!(merge_one(kernel(), &a, "app_0").err(), Some(AssembleError::UnmappedSection(1)));
    let mut rel = data(".relinfo", 0xa0420, 0x10);
    rel.sh_info_section = Some(SectionId(7));
    let a = image(vec![rel], vec![], vec![]);
    assert_eq!(merge_one(kernel(), &a, "app_0").err(), Some(AssembleError::UnmappedSection(7)));
}

#[test]
fn sections_that_cannot_be_copied() {
    for payload in [SectionData::Note, SectionData::Relocation, SectionData::DynamicRelocation, SectionData::Dynamic] {
        let a = image(vec![section(".odd", 7, 0, 0, 4, 4, payload)], vec![], vec![]);
        assert_eq!(merge_one(kernel(), &a, "app_0").err(), Some(AssembleError::UnsupportedSectionData));
    }
}

fn attributes(first_tag: AttributeTag) -> ElfSection {
    let subsection = AttributesSubsection {
        vendor: b"aeabi".to_vec(),
        subsubsections: vec![
            AttributesSubsubsection { tag: AttributeTag::File, data: vec![1, 2] },
            AttributesSubsubsection { tag: first_tag, data: vec![3] },
            AttributesSubsubsection { tag: AttributeTag::Symbol(vec![4, 5]), data: vec![6] },
        ],
    };
    let gnu = AttributesSubsection { vendor: b"gnu".to_vec(), subsubsections: vec![] };
    section(".ARM.attributes", 0x7000_0003, 0, 0, 0x20, 1, SectionData::Attributes(AttributesSection { subsections: vec![subsection, gnu] }))
}

#[test]
fn attribute_tags_are_remapped() {
    let a = image(
        vec![code(".code", 0x40420, 0x10), data(".data", 0xa0420, 0x10), attributes(AttributeTag::Section(vec![SectionId(1), SectionId(0), SectionId(2)]))],
        vec![],
        vec![],
    );
    let system = merge_one(kernel(), &a, "app_0").unwrap();
    let SectionData::Attributes(copy) = &system.builder.sections[3].data else {
        panic!("{:?}", system.builder.sections[3].data);
    };
    assert_eq!(copy.subsections.len(), 2);
    assert_eq!(copy.subsections[0].vendor, b"aeabi");
    assert_eq!(copy.subsections[1].vendor, b"gnu");
    assert!(copy.subsections[1].subsubsections.is_empty());
    let subs = &copy.subsections[0].subsubsections;
    assert_eq!(subs.len(), 3);
    assert!(matches!(subs[0].tag, AttributeTag::File));
    assert_eq!(subs[0].data, [1, 2]);
    // The sections are those of the system image; the section refers to itself too.
    assert!(matches!(&subs[1].tag, AttributeTag::Section(ids) if ids == &[SectionId(2), SectionId(1), SectionId(3)]));
    assert_eq!(subs[1].data, [3]);
    // Symbols are taken over as they are.
    assert!(matches!(&subs[2].tag, AttributeTag::Symbol(ids) if ids == &[4, 5]));
    assert_eq!(subs[2].data, [6]);
}

#[test]
fn attribute_tag_must_name_a_section_that_is_already_in() {
    let a = image(vec![attributes(AttributeTag::Section(vec![SectionId(0), SectionId(1)])), code(".code", 0x40420, 0x10)], vec![], vec![]);
    assert_eq!(merge_one(kernel(), &a, "app_0").err(), Some(AssembleError::UnmappedSection(1)));
}

#[test]
fn global_symbols_are_renamed_and_others_are_not() {
    let a = image(
        vec![code(".code", 0x40420, 0x100)],
        vec![],
        vec![
            symbol("_start", Some(0), STB_GLOBAL, 0x40420),
            symbol("helper", Some(0), STB_LOCAL, 0x40430),
            symbol("hook", Some(0), STB_WEAK, 0x40440),
        ],
    );
    let system = merge_one(kernel(), &a, "my_app_3").unwrap();
    let s = &system.builder.symbols;
    assert_eq!(s[1].name, b"_start_my_app_3");
    assert_eq!(s[2].name, b"helper");
    assert_eq!(s[3].name, b"hook");
    assert_eq!((s[1].st_value, s[2].st_value, s[3].st_value), (0x40420, 0x40430, 0x40440));
}

#[test]
fn symbol_fields_are_copied() {
    let mut sym = symbol("flag", None, STB_GLOBAL, 0x1234);
    sym.st_other = 2;
    sym.st_shndx = 0xfff1;
    sym.st_size = 12;
    sym.version = 1;
    sym.version_hidden = true;
    let system = merge_one(kernel(), &image(vec![], vec![], vec![sym]), "app_0").unwrap();
    let s = &system.builder.symbols[1];
    assert_eq!(s.name, b"flag_app_0");
    assert_eq!(s.section, None);
    assert_eq!(s.st_info, (STB_GLOBAL << 4) | STT_FUNC);
    assert_eq!(s.st_other, 2);
    assert_eq!(s.st_shndx, 0xfff1);
    assert_eq!(s.st_value, 0x1234);
    assert_eq!(s.st_size, 12);
    assert_eq!(s.version, 1);
    assert!(s.version_hidden);
}

#[test]
fn linker_defined_symbols_keep_their_values() {
    let a = image(
        vec![code(".code", 0x40420, 0x100), data(".data", 0xa0420, 0x4000), bss(".bss", 0xa4420, 0, 4)],
        vec![load(5, 0, 0x40000, 0x40000, 0x520, 0x1000, &[0]), load(6, 0x1000, 0xa0420, 0xa0420, 0x4000, 0x20, &[1])],
        vec![
            symbol("__sdata", None, STB_GLOBAL, 0xa0420),
            symbol("__edata", None, STB_GLOBAL, 0xa4420),
            symbol("stack_low", None, STB_LOCAL, 0xb0000),
        ],
    );
    let system = merge_one(kernel(), &a, "app_0").unwrap();
    let s = &system.builder.symbols;
    assert_eq!((s[1].st_value, s[1].section), (0xa0420, None));
    assert_eq!((s[2].st_value, s[2].section), (0xa4420, None));
    assert_eq!((s[3].st_value, s[3].section), (0xb0000, None));
    assert_eq!(s[1].name, b"__sdata_app_0");
    assert_eq!(s[3].name, b"stack_low");
}

#[test]
fn symbol_of_a_skipped_section_fails() {
    let a = image(
        vec![code(".code", 0x40420, 0x10), section(".strtab", 3, 0, 0, 0x20, 1, SectionData::String)],
        vec![],
        vec![symbol("_start", Some(0), STB_GLOBAL, 0x40420), symbol("names", Some(1), STB_LOCAL, 0)],
    );
    assert_eq!(merge_one(kernel(), &a, "app_0").err(), Some(AssembleError::UnmappedSection(1)));
}

#[test]
fn value_in_a_skipped_allocated_section_fails() {
    let a = image(
        vec![section(".strtab", 3, SHF_ALLOC, 0x9000, 0x20, 1, SectionData::String)],
        vec![],
        vec![symbol("inside", None, STB_LOCAL, 0x9010)],
    );
    assert_eq!(merge_one(kernel(), &a, "app_0").err(), Some(AssembleError::UnmappedSection(0)));
}

#[test]
fn segment_of_a_skipped_section_fails() {
    let a = image(
        vec![section(".strtab", 3, SHF_ALLOC, 0x9000, 0x20, 1, SectionData::String)],
        vec![load(4, 0, 0x9000, 0x9000, 0x20, 4, &[0])],
        vec![],
    );
    assert_eq!(merge_one(kernel(), &a, "app_0").err(), Some(AssembleError::UnmappedSection(0)));
}

#[test]
fn names_that_are_not_utf8_are_shown_with_replacement_characters() {
    let mut s = code(".code", 0x40420, 0x10);
    s.name = vec![0x2e, 0xff, 0x63];
    let mut sym = symbol("x", Some(0), STB_GLOBAL, 0x40420);
    sym.name = vec![0xc3];
    let system = merge_one(kernel(), &image(vec![s], vec![], vec![sym]), "app_0").unwrap();
    assert_eq!(system.builder.sections[1].name, ".\u{fffd}c.app_0".as_bytes());
    assert_eq!(system.builder.symbols[1].name, "\u{fffd}_app_0".as_bytes());
}

#[test]
fn names_in_utf8_are_kept() {
    let s = code(".código", 0x40420, 0x10);
    let system = merge_one(kernel(), &image(vec![s], vec![], vec![]), "app_0").unwrap();
    assert_eq!(system.builder.sections[1].name, ".código.app_0".as_bytes());
}

#[test]
fn app_names() {
    assert_eq!(get_app_name("app1", 0), "app1_0");
    assert_eq!(get_app_name("my-app.v2", 3), "my_app_v2_3");
    assert_eq!(get_app_name("a_b", 10), "a_b_10");
    assert_eq!(get_app_name("", 12), "_12");
    assert_eq!(get_app_name("two words!", 1), "two_words__1");
    assert_eq!(get_app_name("naïve é٣", 7), "naïve_é٣_7");
    assert_eq!(get_app_name("x", 1234567890), "x_1234567890");
}

#[test]
fn apps_are_named_by_stem_and_position() {
    let apps = vec![app("same", code_app(0x40420)), app("same", code_app(0x50420)), app("other-one", code_app(0x60420))];
    let merged = assemble(kernel(), &apps).unwrap();
    assert_eq!(names(&merged), [".text", ".code.same_0", ".code.same_1", ".code.other_one_2"]);
    let symbols: Vec<&[u8]> = merged.symbols.iter().map(|s| s.name.as_slice()).collect();
    assert_eq!(symbols, [&b"main"[..], b"_start_same_0", b"_start_same_1", b"_start_other_one_2"]);
}

#[test]
fn assemble_without_apps_returns_the_kernel() {
    let merged = assemble(kernel(), &vec![]).unwrap();
    assert_eq!(names(&merged), [".text"]);
    assert_eq!(merged.segments.len(), 1);
    assert_eq!(merged.symbols.len(), 1);
}

#[test]
fn assemble_stops_at_the_first_failure() {
    let bad = image(vec![section(".note", 7, 0, 0, 4, 4, SectionData::Note)], vec![], vec![]);
    let apps = vec![app("good", code_app(0x40420)), app("bad", bad), app("late", code_app(0x50420))];
    assert_eq!(assemble(kernel(), &apps).err(), Some(AssembleError::UnsupportedSectionData));
}

#[test]
fn well_formedness() {
    assert!(ElfImage::new().is_well_formed());
    assert!(kernel().is_well_formed());
    let mut k = kernel();
    k.segments[0].sections.push(SectionId(1));
    assert!(!k.is_well_formed());
    let mut k = kernel();
    k.symbols[0].section = Some(SectionId(1));
    assert!(!k.is_well_formed());
    let mut k = kernel();
    k.symbols[0].section = None;
    // References between sections are not part of it: they are only remapped.
    k.sections[0].sh_link_section = Some(SectionId(9));
    assert!(k.is_well_formed());
}

#[test]
fn section_and_segment_predicates() {
    assert!(code(".code", 0, 1).is_alloc());
    assert!(!tokenizer(vec![]).is_alloc());
    assert!(load(5, 0, 0, 0, 0, 1, &[]).is_load());
    let mut s = load(5, 0, 0, 0, 0, 1, &[]);
    s.p_type = 2;
    assert!(!s.is_load());
    assert_eq!(symbol("a", None, STB_WEAK, 0).st_bind(), STB_WEAK);
    assert_eq!(SectionId(5).index(), 5);
    let e = ElfSection::new();
    assert!(e.name.is_empty());
    assert!(matches!(&e.data, SectionData::Data(b) if b.is_empty()));
}

#[test]
fn kernel_with_two_tokenizer_sections_keeps_both() {
    // Only the sections of applications are joined: a second tokenizer section
    // of the kernel stays where it is.
    let mut k = kernel();
    k.sections.push(tokenizer(vec![1]));
    k.sections.push(section(".pw_tokenizer.info", SHT_PROGBITS, 0, 0, 1, 1, SectionData::Data(vec![2])));
    let a = image(vec![tokenizer(vec![3])], vec![], vec![]);
    let system = merge_one(k, &a, "app_0").unwrap();
    assert_eq!(system.tokenized_section, Some(SectionId(1)));
    assert_eq!(names(&system.builder), [".text", ".pw_tokenizer.entries", ".pw_tokenizer.info"]);
    assert!(matches!(&system.builder.sections[1].data, SectionData::Data(b) if b == &[1, 3]));
    assert!(matches!(&system.builder.sections[2].data, SectionData::Data(b) if b == &[2]));
}

#[test]
fn section_name_can_come_to_begin_like_a_tokenizer_section() {
    // `.pw_tokenizer` is no tokenizer section: the dot at the end is missing.
    // With the name of the application behind it, the name has the dot.
    let a = image(vec![section(".pw_tokenizer", SHT_PROGBITS, 0, 0, 1, 1, SectionData::Data(vec![1])), tokenizer(vec![2])], vec![], vec![]);
    let system = merge_one(kernel(), &a, "app_0").unwrap();
    assert_eq!(names(&system.builder), [".text", ".pw_tokenizer.app_0", ".pw_tokenizer.entries"]);
    assert_eq!(system.tokenized_section, Some(SectionId(2)));
}

#[test]
fn tokenized_section_holds_every_database_in_order() {
    let mut k = kernel();
    k.sections.push(tokenizer(vec![1, 2]));
    let apps = vec![
        app("a", image(vec![tokenizer(vec![3]), tokenizer(vec![4, 5])], vec![], vec![])),
        app("b", image(vec![code(".code", 0x40420, 4)], vec![], vec![])),
        app("c", image(vec![tokenizer(vec![6])], vec![], vec![])),
    ];
    let merged = assemble(k, &apps).unwrap();
    assert_eq!(names(&merged), [".text", ".pw_tokenizer.entries", ".code.b_1"]);
    assert_eq!(merged.sections[1].sh_size, 6);
    assert!(matches!(&merged.sections[1].data, SectionData::Data(b) if b == &[1, 2, 3, 4, 5, 6]));
}

fn raised(x: u64, align: u64) -> u64 {
    (x + (align - 1)) & !(align - 1)
}

#[test]
fn segment_layout_follows_the_alignment_mask() {
    // Alignments that are no powers of two are masks like any other.
    for first_align in [1u64, 2, 3, 4, 6, 8, 16, 24, 0x1000] {
        for second_align in [1u64, 3, 4, 12, 32] {
            for (first_size, second_size) in [(0u64, 5u64), (7, 0), (0x21, 0x13)] {
                let base = 0x8000u64;
                let mut first = code(".text", 0x9001, first_size as usize);
                first.sh_addralign = first_align;
                let mut second = code(".rodata", 0x9002, second_size as usize);
                second.sh_addralign = second_align;
                let app = image(vec![first, second], vec![load(5, 0, base, base, 0, 0x1000, &[0, 1])], vec![]);
                let system = merge_one(kernel(), &app, "app_0").unwrap();
                let s = &system.builder.segments[1];

                // The segment opens in the file where the kernel's segment ends.
                let start = 0x1200u64;
                let first_offset = raised(start, first_align);
                let first_addr = raised(base, first_align);
                // An empty segment takes its ranges from the section; the next
                // section lands behind them.
                let (second_offset, second_addr) = (
                    raised(first_offset + first_size, second_align),
                    raised(first_addr + first_size, second_align),
                );
                let (p_offset, p_addr, p_size) = if first_size == 0 {
                    (second_offset, second_addr, second_size)
                } else {
                    let size = (second_addr + second_size - first_addr).max(first_size);
                    (first_offset, first_addr, size)
                };
                assert_eq!((s.p_offset, s.p_vaddr, s.p_paddr), (p_offset, p_addr, p_addr));
                assert_eq!(s.p_memsz, p_size);
                assert_eq!(system.builder.sections[1].sh_offset, first_offset);
                assert_eq!(system.builder.sections[2].sh_offset, second_offset);
                // The addresses of the sections are the linker's, whatever the segment says.
                assert_eq!(system.builder.sections[1].sh_addr, 0x9001);
                assert_eq!(system.builder.sections[2].sh_addr, 0x9002);
            }
        }
    }
}
