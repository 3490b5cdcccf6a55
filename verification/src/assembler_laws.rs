//! What holds of every system image that the assembler builds.

use vstd::prelude::*;
use vstd::utf8::encode_utf8;
use crate::elf::{ElfImageView, ElfSectionView, ElfSymbolView, SectionId, STB_GLOBAL};
use crate::elf::{ElfSegmentView, SectionDataView};
use crate::object_ops::{appended, can_append, mask_up, shown_text};
use crate::merge::{
    AppImageView,
    AssembleError,
    SectionsState,
    SegmentState,
    SystemImageView,
    TablesState,
    app_name_for,
    append_step,
    appends_pass,
    assembled,
    containing_section,
    first_tokenizer,
    fixup_pass,
    has_prefix,
    holds_address,
    is_skipped,
    is_tokenizer,
    joined_tokenizer,
    merged_image,
    merged_sections,
    merged_segments,
    merged_symbol,
    merged_symbols,
    opened_segment,
    section_name_for,
    section_step,
    sections_pass,
    segments_pass,
    symbol_name_for,
    tokenizer_prefix,
};

verus! {

/// The tables of both images are small enough to be held in memory.
pub open spec fn fits_in_memory(image: SystemImageView, app: ElfImageView) -> bool {
    image.builder.sections.len() + app.sections.len() <= usize::MAX
}

/// The UTF-8 encoding of a text is the encoding of its parts, one after
/// the other.
pub proof fn lemma_encode_utf8_concat(a: Seq<char>, b: Seq<char>)
    ensures
        encode_utf8(a + b) == encode_utf8(a) + encode_utf8(b),
    decreases a.len(),
{
    if a.len() == 0 {
        assert(a + b =~= b);
        assert(encode_utf8(a) + encode_utf8(b) =~= encode_utf8(b));
    } else {
        lemma_encode_utf8_concat(a.drop_first(), b);
        assert((a + b).drop_first() =~= a.drop_first() + b);
        assert((a + b)[0] == a[0]);
        let head = vstd::utf8::encode_scalar(a[0] as u32);
        assert(head + (encode_utf8(a.drop_first()) + encode_utf8(b)) =~= (head + encode_utf8(
            a.drop_first(),
        )) + encode_utf8(b));
    }
}

/// Where the symbol phase succeeds, it yields one symbol for each symbol
/// of the application, in order.
pub proof fn lemma_merged_symbols_each(
    sections: Seq<ElfSectionView>,
    map: Map<usize, SectionId>,
    app: ElfImageView,
    app_name: Seq<char>,
    n: int,
)
    requires
        0 <= n,
        merged_symbols(sections, map, app, app_name, n) is Ok,
    ensures
        merged_symbols(sections, map, app, app_name, n)->Ok_0.len() == n,
        forall|k: int|
            0 <= k < n ==> merged_symbol(sections, map, app.sections, app_name, app.symbols[k])
                == Ok::<ElfSymbolView, AssembleError>(
                #[trigger] merged_symbols(sections, map, app, app_name, n)->Ok_0[k],
            ),
    decreases n,
{
    if n > 0 {
        lemma_merged_symbols_each(sections, map, app, app_name, n - 1);
    }
}

/// A name with the name of an application behind it, as bytes: the text
/// that the name is shown as, the separator and the application's name,
/// each encoded by itself.  A name that is valid UTF-8 stays as it is.
pub proof fn lemma_name_for(name: Seq<u8>, separator: char, app_name: Seq<char>)
    ensures
        encode_utf8(shown_text(name) + seq![separator] + app_name) == encode_utf8(
            shown_text(name),
        ) + encode_utf8(seq![separator] + app_name),
        vstd::utf8::valid_utf8(name) ==> encode_utf8(shown_text(name)) == name,
{
    let text = shown_text(name);
    lemma_encode_utf8_concat(text, seq![separator] + app_name);
    assert(text + seq![separator] + app_name =~= text + (seq![separator] + app_name));
    if vstd::utf8::valid_utf8(name) {
        vstd::utf8::decode_utf8_encode_utf8(name);
    }
}

/// Global symbols carry the name of their application.
///
/// Symbol `k` of the application stands in the system image behind the
/// symbols that the image had before.  If it is global, its name there is
/// its own name as text, an underscore, and the name of the application;
/// so it ends with the underscore and the name of the application, and
/// where the symbol's name is valid UTF-8 it begins with that name.
pub proof fn lemma_global_symbols_are_suffixed(
    image: SystemImageView,
    app: ElfImageView,
    app_name: Seq<char>,
    k: int,
)
    requires
        0 <= k < app.symbols.len(),
        merged_image(image, app, app_name) is Ok,
        app.symbols[k].st_bind() == STB_GLOBAL,
    ensures
        ({
            let out = merged_image(image, app, app_name)->Ok_0.builder.symbols;
            let symbol = out[image.builder.symbols.len() + k];
            &&& out.len() == image.builder.symbols.len() + app.symbols.len()
            &&& symbol.name == symbol_name_for(app.symbols[k].name, app_name)
            &&& symbol.name == encode_utf8(shown_text(app.symbols[k].name)) + encode_utf8(
                seq!['_'] + app_name,
            )
            &&& vstd::utf8::valid_utf8(app.symbols[k].name) ==> symbol.name == app.symbols[k].name
                + encode_utf8(seq!['_'] + app_name)
        }),
{
    let st = merged_sections(image, Map::empty(), app, app_name)->Ok_0;
    let tables = merged_segments(
        ElfImageView { sections: st.sections, ..image.builder },
        st.map,
        app,
    )->Ok_0;
    lemma_merged_symbols_each(tables.sections, st.map, app, app_name, app.symbols.len() as int);
    lemma_name_for(app.symbols[k].name, '_', app_name);
}

/// The section of the system image that stands for the application's
/// section `a` is its own: it lies behind the sections that the image had
/// before, no other section of the application is mapped to it, it is not
/// the tokenized section, and it has the address, size, alignment, type
/// and flags of `a`.
pub open spec fn has_own_copy(
    sections: Seq<ElfSectionView>,
    tokenized_section: Option<SectionId>,
    map: Map<usize, SectionId>,
    base: nat,
    app_sections: Seq<ElfSectionView>,
    a: usize,
) -> bool {
    let copy = sections[map[a].0 as int];
    let src = app_sections[a as int];
    &&& base <= map[a].0
    &&& tokenized_section != Some(map[a])
    &&& copy.sh_addr == src.sh_addr
    &&& copy.sh_size == src.sh_size
    &&& copy.sh_addralign == src.sh_addralign
    &&& copy.sh_type == src.sh_type
    &&& copy.sh_flags == src.sh_flags
    &&& forall|b: usize| map.dom().contains(b) && b != a ==> #[trigger] map[b] != map[a]
}

/// What holds of the section tables while an application is merged: every
/// mapped section is in the table, and every mapped section that is not a
/// tokenizer section has its own copy.
pub open spec fn sections_mapped(
    sections: Seq<ElfSectionView>,
    tokenized_section: Option<SectionId>,
    map: Map<usize, SectionId>,
    base: nat,
    app_sections: Seq<ElfSectionView>,
) -> bool {
    &&& base <= sections.len()
    &&& tokenized_section matches Some(t) ==> t.0 < sections.len()
    &&& forall|a: usize|
        #![trigger map[a]]
        #![trigger map.dom().contains(a)]
        map.dom().contains(a) ==> a < app_sections.len() && map[a].0 < sections.len()
    &&& forall|a: usize|
        #![trigger map[a]]
        map.dom().contains(a) && !is_tokenizer(app_sections[a as int]) ==> has_own_copy(
            sections,
            tokenized_section,
            map,
            base,
            app_sections,
            a,
        )
}

proof fn lemma_section_step_mapped(
    st: SectionsState,
    base: nat,
    app_sections: Seq<ElfSectionView>,
    app_name: Seq<char>,
    n: int,
)
    requires
        0 <= n < app_sections.len() <= usize::MAX,
        st.sections.len() < usize::MAX,
        sections_mapped(st.sections, st.tokenized_section, st.map, base, app_sections),
        forall|a: usize| st.map.dom().contains(a) ==> a < n,
        section_step(st, n as usize, app_sections[n], app_name) is Ok,
    ensures
        ({
            let next = section_step(st, n as usize, app_sections[n], app_name)->Ok_0;
            &&& sections_mapped(next.sections, next.tokenized_section, next.map, base, app_sections)
            &&& forall|a: usize| next.map.dom().contains(a) ==> a <= n
            &&& st.sections.len() <= next.sections.len() <= st.sections.len() + 1
        }),
{
    let section = app_sections[n];
    let index = n as usize;
    let next = section_step(st, index, section, app_name)->Ok_0;
    if is_tokenizer(section) && st.tokenized_section is Some {
        let survivor = st.tokenized_section->0;
        assert forall|a: usize|
            #![trigger next.map[a]]
            next.map.dom().contains(a) && !is_tokenizer(app_sections[a as int]) implies has_own_copy(
            next.sections,
            next.tokenized_section,
            next.map,
            base,
            app_sections,
            a,
        ) by {
            assert(a != index);
            assert(st.map.dom().contains(a));
            assert(has_own_copy(
                st.sections,
                st.tokenized_section,
                st.map,
                base,
                app_sections,
                a,
            ));
            assert(st.map[a] != survivor);
        }
    } else if is_skipped(section) {
    } else {
        let id = SectionId(st.sections.len() as usize);
        assert forall|a: usize|
            #![trigger next.map[a]]
            next.map.dom().contains(a) && !is_tokenizer(app_sections[a as int]) implies has_own_copy(
            next.sections,
            next.tokenized_section,
            next.map,
            base,
            app_sections,
            a,
        ) by {
            if a != index {
                assert(st.map.dom().contains(a));
                assert(has_own_copy(
                    st.sections,
                    st.tokenized_section,
                    st.map,
                    base,
                    app_sections,
                    a,
                ));
                assert(st.map[a].0 < st.sections.len());
                assert forall|b: usize| next.map.dom().contains(b) && b != a implies #[trigger] next.map[b]
                    != next.map[a] by {
                    if b != index {
                        assert(st.map.dom().contains(b));
                    }
                }
            } else {
                assert forall|b: usize| next.map.dom().contains(b) && b != a implies #[trigger] next.map[b]
                    != next.map[a] by {
                    assert(st.map.dom().contains(b));
                    assert(st.map[b].0 < st.sections.len());
                }
            }
        }
    }
}

/// The section pass keeps the section tables mapped.
proof fn lemma_sections_pass_mapped(
    start: SectionsState,
    app_sections: Seq<ElfSectionView>,
    app_name: Seq<char>,
    n: int,
)
    requires
        0 <= n <= app_sections.len(),
        start.sections.len() + app_sections.len() <= usize::MAX,
        start.map == Map::<usize, SectionId>::empty(),
        start.tokenized_section matches Some(t) ==> t.0 < start.sections.len(),
        sections_pass(start, app_sections, app_name, n) is Ok,
    ensures
        ({
            let st = sections_pass(start, app_sections, app_name, n)->Ok_0;
            &&& sections_mapped(
                st.sections,
                st.tokenized_section,
                st.map,
                start.sections.len(),
                app_sections,
            )
            &&& forall|a: usize| st.map.dom().contains(a) ==> a < n
            &&& st.sections.len() <= start.sections.len() + n
        }),
    decreases n,
{
    if n > 0 {
        lemma_sections_pass_mapped(start, app_sections, app_name, n - 1);
        let before = sections_pass(start, app_sections, app_name, n - 1)->Ok_0;
        lemma_section_step_mapped(before, start.sections.len(), app_sections, app_name, n - 1);
    }
}

/// Every section whose references are still to be remapped is in the
/// table.
pub open spec fn fixups_in_range(st: SectionsState) -> bool {
    forall|j: int| 0 <= j < st.fixups.len() ==> (#[trigger] st.fixups[j]).0 < st.sections.len()
}

proof fn lemma_sections_pass_fixups(
    start: SectionsState,
    app_sections: Seq<ElfSectionView>,
    app_name: Seq<char>,
    n: int,
)
    requires
        0 <= n <= app_sections.len(),
        start.sections.len() + app_sections.len() <= usize::MAX,
        start.fixups.len() == 0,
        start.tokenized_section matches Some(t) ==> t.0 < start.sections.len(),
        sections_pass(start, app_sections, app_name, n) is Ok,
    ensures
        fixups_in_range(sections_pass(start, app_sections, app_name, n)->Ok_0),
        start.sections.len() <= sections_pass(start, app_sections, app_name, n)->Ok_0.sections.len()
            <= start.sections.len() + n,
        sections_pass(start, app_sections, app_name, n)->Ok_0.tokenized_section matches Some(t)
            ==> t.0 < sections_pass(start, app_sections, app_name, n)->Ok_0.sections.len(),
    decreases n,
{
    if n > 0 {
        lemma_sections_pass_fixups(start, app_sections, app_name, n - 1);
    }
}

/// Two sections agree in everything but their references to other
/// sections.
pub open spec fn same_but_links(a: ElfSectionView, b: ElfSectionView) -> bool {
    b == (ElfSectionView {
        sh_link_section: b.sh_link_section,
        sh_info_section: b.sh_info_section,
        ..a
    })
}

/// Two sections agree in everything but their place in the file and in
/// memory.
pub open spec fn same_but_place(a: ElfSectionView, b: ElfSectionView) -> bool {
    b == (ElfSectionView { sh_offset: b.sh_offset, sh_addr: b.sh_addr, ..a })
}

/// Remapping references changes nothing else.
proof fn lemma_fixup_pass_keeps(
    map: Map<usize, SectionId>,
    sections: Seq<ElfSectionView>,
    fixups: Seq<SectionId>,
    n: int,
)
    requires
        0 <= n <= fixups.len(),
        forall|j: int| 0 <= j < fixups.len() ==> (#[trigger] fixups[j]).0 < sections.len(),
        fixup_pass(map, sections, fixups, n) is Ok,
    ensures
        fixup_pass(map, sections, fixups, n)->Ok_0.len() == sections.len(),
        forall|i: int|
            0 <= i < sections.len() ==> same_but_links(
                sections[i],
                #[trigger] fixup_pass(map, sections, fixups, n)->Ok_0[i],
            ),
    decreases n,
{
    if n > 0 {
        lemma_fixup_pass_keeps(map, sections, fixups, n - 1);
    }
}

proof fn lemma_mapped_after_fixups(
    before: Seq<ElfSectionView>,
    after: Seq<ElfSectionView>,
    tokenized_section: Option<SectionId>,
    map: Map<usize, SectionId>,
    base: nat,
    app_sections: Seq<ElfSectionView>,
)
    requires
        sections_mapped(before, tokenized_section, map, base, app_sections),
        after.len() == before.len(),
        forall|i: int| 0 <= i < before.len() ==> same_but_links(before[i], #[trigger] after[i]),
    ensures
        sections_mapped(after, tokenized_section, map, base, app_sections),
{
    assert forall|a: usize|
        #![trigger map[a]]
        map.dom().contains(a) && !is_tokenizer(app_sections[a as int]) implies has_own_copy(
        after,
        tokenized_section,
        map,
        base,
        app_sections,
        a,
    ) by {
        assert(has_own_copy(before, tokenized_section, map, base, app_sections, a));
        assert(same_but_links(before[map[a].0 as int], after[map[a].0 as int]));
    }
}

/// Appending a section to a segment changes the place of that section in
/// the file and nothing else in the section table, and every mapped
/// section keeps its own copy.
proof fn lemma_append_step_mapped(
    st: SegmentState,
    tokenized_section: Option<SectionId>,
    map: Map<usize, SectionId>,
    base: nat,
    app_sections: Seq<ElfSectionView>,
    id: SectionId,
)
    requires
        sections_mapped(st.sections, tokenized_section, map, base, app_sections),
        append_step(st, map, app_sections, id) is Ok,
    ensures
        ({
            let next = append_step(st, map, app_sections, id)->Ok_0;
            &&& sections_mapped(next.sections, tokenized_section, map, base, app_sections)
            &&& next.sections.len() == st.sections.len()
            &&& forall|i: int|
                0 <= i < st.sections.len() ==> same_but_place(
                    st.sections[i],
                    #[trigger] next.sections[i],
                )
        }),
{
    let next = append_step(st, map, app_sections, id)->Ok_0;
    let target = map[id.0];
    assert(target.0 < st.sections.len());
    assert forall|a: usize|
        #![trigger map[a]]
        map.dom().contains(a) && !is_tokenizer(app_sections[a as int]) implies has_own_copy(
        next.sections,
        tokenized_section,
        map,
        base,
        app_sections,
        a,
    ) by {
        assert(has_own_copy(st.sections, tokenized_section, map, base, app_sections, a));
        if map[a] == target && a != id.0 {
            assert(map[id.0] != map[a]);
        }
    }
}

proof fn lemma_appends_pass_mapped(
    st: SegmentState,
    tokenized_section: Option<SectionId>,
    map: Map<usize, SectionId>,
    base: nat,
    app_sections: Seq<ElfSectionView>,
    ids: Seq<SectionId>,
    n: int,
)
    requires
        0 <= n <= ids.len(),
        sections_mapped(st.sections, tokenized_section, map, base, app_sections),
        appends_pass(st, map, app_sections, ids, n) is Ok,
    ensures
        ({
            let next = appends_pass(st, map, app_sections, ids, n)->Ok_0;
            &&& sections_mapped(next.sections, tokenized_section, map, base, app_sections)
            &&& next.sections.len() == st.sections.len()
            &&& forall|i: int|
                0 <= i < st.sections.len() ==> same_but_place(
                    st.sections[i],
                    #[trigger] next.sections[i],
                )
        }),
    decreases n,
{
    if n > 0 {
        lemma_appends_pass_mapped(st, tokenized_section, map, base, app_sections, ids, n - 1);
        let before = appends_pass(st, map, app_sections, ids, n - 1)->Ok_0;
        lemma_append_step_mapped(before, tokenized_section, map, base, app_sections, ids[n - 1]);
        let next = appends_pass(st, map, app_sections, ids, n)->Ok_0;
        assert forall|i: int| 0 <= i < st.sections.len() implies same_but_place(
            st.sections[i],
            #[trigger] next.sections[i],
        ) by {
            assert(same_but_place(st.sections[i], before.sections[i]));
            assert(same_but_place(before.sections[i], next.sections[i]));
        }
    }
}

/// The segment pass changes the place of sections in the file and nothing
/// else in the section table; it keeps the segments that were there and
/// adds to them; and every mapped section keeps its own copy.
proof fn lemma_segments_pass_mapped(
    start: TablesState,
    tokenized_section: Option<SectionId>,
    map: Map<usize, SectionId>,
    base: nat,
    app: ElfImageView,
    n: int,
)
    requires
        0 <= n <= app.segments.len(),
        sections_mapped(start.sections, tokenized_section, map, base, app.sections),
        segments_pass(start, map, app, n) is Ok,
    ensures
        ({
            let st = segments_pass(start, map, app, n)->Ok_0;
            &&& sections_mapped(st.sections, tokenized_section, map, base, app.sections)
            &&& st.sections.len() == start.sections.len()
            &&& forall|i: int|
                0 <= i < start.sections.len() ==> same_but_place(
                    start.sections[i],
                    #[trigger] st.sections[i],
                )
            &&& start.segments.len() <= st.segments.len()
            &&& forall|i: int|
                0 <= i < start.segments.len() ==> #[trigger] st.segments[i] == start.segments[i]
        }),
    decreases n,
{
    if n > 0 {
        lemma_segments_pass_mapped(start, tokenized_section, map, base, app, n - 1);
        let before = segments_pass(start, map, app, n - 1)->Ok_0;
        let src = app.segments[n - 1];
        let st = segments_pass(start, map, app, n)->Ok_0;
        if src.is_load() {
            let opened = SegmentState {
                segment: opened_segment(before.segments, src)->Ok_0,
                sections: before.sections,
            };
            lemma_appends_pass_mapped(
                opened,
                tokenized_section,
                map,
                base,
                app.sections,
                src.sections,
                src.sections.len() as int,
            );
            assert forall|i: int| 0 <= i < start.sections.len() implies same_but_place(
                start.sections[i],
                #[trigger] st.sections[i],
            ) by {
                assert(same_but_place(start.sections[i], before.sections[i]));
                assert(same_but_place(before.sections[i], st.sections[i]));
            }
        }
    }
}

proof fn lemma_containing_section_holds(sections: Seq<ElfSectionView>, addr: u64, n: int)
    requires
        0 <= n <= sections.len() <= usize::MAX,
    ensures
        containing_section(sections, addr, n) matches Some(index) ==> index < n && holds_address(
            sections[index as int],
            addr,
        ),
    decreases n,
{
    if n > 0 {
        lemma_containing_section_holds(sections, addr, n - 1);
    }
}

/// The tables of the system image once the sections and the segments of
/// the application are in, and what holds of them.
proof fn lemma_merged_tables(image: SystemImageView, app: ElfImageView, app_name: Seq<char>)
    requires
        image.wf(),
        fits_in_memory(image, app),
        merged_sections(image, Map::empty(), app, app_name) is Ok,
        merged_segments(
            ElfImageView {
                sections: merged_sections(image, Map::empty(), app, app_name)->Ok_0.sections,
                ..image.builder
            },
            merged_sections(image, Map::empty(), app, app_name)->Ok_0.map,
            app,
        ) is Ok,
    ensures
        ({
            let st = merged_sections(image, Map::empty(), app, app_name)->Ok_0;
            let tables = merged_segments(
                ElfImageView { sections: st.sections, ..image.builder },
                st.map,
                app,
            )->Ok_0;
            &&& sections_mapped(
                tables.sections,
                st.tokenized_section,
                st.map,
                image.builder.sections.len(),
                app.sections,
            )
            &&& tables.sections.len() == st.sections.len()
            &&& forall|i: int|
                0 <= i < st.sections.len() ==> same_but_place(
                    st.sections[i],
                    #[trigger] tables.sections[i],
                )
            &&& image.builder.segments.len() <= tables.segments.len()
            &&& forall|i: int|
                0 <= i < image.builder.segments.len() ==> #[trigger] tables.segments[i]
                    == image.builder.segments[i]
        }),
{
    let start = SectionsState {
        sections: image.builder.sections,
        tokenized_section: image.tokenized_section,
        map: Map::empty(),
        fixups: Seq::empty(),
    };
    let n = app.sections.len() as int;
    lemma_sections_pass_mapped(start, app.sections, app_name, n);
    lemma_sections_pass_fixups(start, app.sections, app_name, n);
    let passed = sections_pass(start, app.sections, app_name, n)->Ok_0;
    lemma_fixup_pass_keeps(passed.map, passed.sections, passed.fixups, passed.fixups.len() as int);
    let st = merged_sections(image, Map::empty(), app, app_name)->Ok_0;
    lemma_mapped_after_fixups(
        passed.sections,
        st.sections,
        st.tokenized_section,
        st.map,
        image.builder.sections.len(),
        app.sections,
    );
    lemma_segments_pass_mapped(
        TablesState { segments: image.builder.segments, sections: st.sections },
        st.tokenized_section,
        st.map,
        image.builder.sections.len(),
        app,
        app.segments.len() as int,
    );
}

/// Symbols stay where the linker put them.
///
/// Symbol `k` of the application stands in the system image behind the
/// symbols that the image had before, with the value it has in the
/// application.  This holds of every symbol but those defined in a
/// tokenizer section, which move with their section when it is joined to
/// the tokenized section of the image; a tokenizer section is never
/// allocated.
pub proof fn lemma_symbol_values_are_kept(
    image: SystemImageView,
    app: ElfImageView,
    app_name: Seq<char>,
    k: int,
)
    requires
        image.wf(),
        app.wf(),
        fits_in_memory(image, app),
        0 <= k < app.symbols.len(),
        merged_image(image, app, app_name) is Ok,
        app.symbols[k].section matches Some(id) ==> !is_tokenizer(app.sections[id.0 as int]),
    ensures
        ({
            let out = merged_image(image, app, app_name)->Ok_0.builder.symbols;
            &&& out.len() == image.builder.symbols.len() + app.symbols.len()
            &&& out[image.builder.symbols.len() + k].st_value == app.symbols[k].st_value
        }),
{
    let st = merged_sections(image, Map::empty(), app, app_name)->Ok_0;
    let tables = merged_segments(
        ElfImageView { sections: st.sections, ..image.builder },
        st.map,
        app,
    )->Ok_0;
    lemma_merged_tables(image, app, app_name);
    lemma_merged_symbols_each(tables.sections, st.map, app, app_name, app.symbols.len() as int);
    let symbol = app.symbols[k];
    lemma_containing_section_holds(app.sections, symbol.st_value, app.sections.len() as int);
    let home = match symbol.section {
        Some(id) => Some(id.0),
        None => containing_section(app.sections, symbol.st_value, app.sections.len() as int),
    };
    if let Some(index) = home {
        assert(st.map.dom().contains(index));
        assert(!is_tokenizer(app.sections[index as int]));
        assert(has_own_copy(
            tables.sections,
            st.tokenized_section,
            st.map,
            image.builder.sections.len(),
            app.sections,
            index,
        ));
    }
}

/// Sections keep the address the linker gave them.
///
/// Where section `a` of the application went into the system image as a
/// section of its own, that section has the address of `a`, whatever
/// segment it was appended to.
pub proof fn lemma_section_addresses_are_kept(
    image: SystemImageView,
    app: ElfImageView,
    app_name: Seq<char>,
    a: usize,
)
    requires
        image.wf(),
        fits_in_memory(image, app),
        merged_image(image, app, app_name) is Ok,
        a < app.sections.len(),
        !is_tokenizer(app.sections[a as int]),
        !is_skipped(app.sections[a as int]),
    ensures
        ({
            let map = merged_sections(image, Map::empty(), app, app_name)->Ok_0.map;
            let out = merged_image(image, app, app_name)->Ok_0.builder.sections;
            &&& map.dom().contains(a)
            &&& image.builder.sections.len() <= map[a].0 < out.len()
            &&& out[map[a].0 as int].sh_addr == app.sections[a as int].sh_addr
        }),
{
    let start = SectionsState {
        sections: image.builder.sections,
        tokenized_section: image.tokenized_section,
        map: Map::empty(),
        fixups: Seq::empty(),
    };
    lemma_merged_tables(image, app, app_name);
    lemma_sections_pass_maps(start, app.sections, app_name, app.sections.len() as int, a);
    let st = merged_sections(image, Map::empty(), app, app_name)->Ok_0;
    let tables = merged_segments(
        ElfImageView { sections: st.sections, ..image.builder },
        st.map,
        app,
    )->Ok_0;
    assert(has_own_copy(
        tables.sections,
        st.tokenized_section,
        st.map,
        image.builder.sections.len(),
        app.sections,
        a,
    ));
}

/// Every section that the section pass has dealt with, and that is
/// neither a tokenizer section nor skipped, is mapped.
proof fn lemma_sections_pass_maps(
    start: SectionsState,
    app_sections: Seq<ElfSectionView>,
    app_name: Seq<char>,
    n: int,
    a: usize,
)
    requires
        0 <= a < n <= app_sections.len() <= usize::MAX,
        sections_pass(start, app_sections, app_name, n) is Ok,
        !is_tokenizer(app_sections[a as int]),
        !is_skipped(app_sections[a as int]),
    ensures
        sections_pass(start, app_sections, app_name, n)->Ok_0.map.dom().contains(a),
    decreases n,
{
    if n - 1 > a {
        lemma_sections_pass_maps(start, app_sections, app_name, n - 1, a);
    }
}

/// Where the section pass has dealt with a section that is neither a
/// tokenizer section nor skipped, the image holds it under its name for
/// the application.
proof fn lemma_sections_pass_names(
    start: SectionsState,
    app_sections: Seq<ElfSectionView>,
    app_name: Seq<char>,
    n: int,
    a: usize,
)
    requires
        0 <= a < n <= app_sections.len(),
        start.sections.len() + app_sections.len() <= usize::MAX,
        start.map == Map::<usize, SectionId>::empty(),
        start.tokenized_section matches Some(t) ==> t.0 < start.sections.len(),
        sections_pass(start, app_sections, app_name, n) is Ok,
        !is_tokenizer(app_sections[a as int]),
        !is_skipped(app_sections[a as int]),
    ensures
        ({
            let st = sections_pass(start, app_sections, app_name, n)->Ok_0;
            &&& st.map.dom().contains(a)
            &&& st.map[a].0 < st.sections.len()
            &&& st.sections[st.map[a].0 as int].name == section_name_for(
                app_sections[a as int].name,
                app_name,
            )
        }),
    decreases n,
{
    lemma_sections_pass_mapped(start, app_sections, app_name, n - 1);
    lemma_sections_pass_mapped(start, app_sections, app_name, n);
    let before = sections_pass(start, app_sections, app_name, n - 1)->Ok_0;
    if n - 1 > a {
        lemma_sections_pass_names(start, app_sections, app_name, n - 1, a);
        assert(has_own_copy(
            before.sections,
            before.tokenized_section,
            before.map,
            start.sections.len(),
            app_sections,
            a,
        ));
    }
}

/// Sections carry the name of their application.
///
/// Where section `a` of the application went into the system image as a
/// section of its own, that section is called by the name of `a` as text,
/// a dot, and the name of the application; so its name ends with the dot
/// and the name of the application, and where the name of `a` is valid
/// UTF-8 it begins with that name.
pub proof fn lemma_section_names_are_suffixed(
    image: SystemImageView,
    app: ElfImageView,
    app_name: Seq<char>,
    a: usize,
)
    requires
        image.wf(),
        fits_in_memory(image, app),
        merged_image(image, app, app_name) is Ok,
        a < app.sections.len(),
        !is_tokenizer(app.sections[a as int]),
        !is_skipped(app.sections[a as int]),
    ensures
        ({
            let map = merged_sections(image, Map::empty(), app, app_name)->Ok_0.map;
            let out = merged_image(image, app, app_name)->Ok_0.builder.sections;
            let name = app.sections[a as int].name;
            &&& map.dom().contains(a)
            &&& map[a].0 < out.len()
            &&& out[map[a].0 as int].name == encode_utf8(shown_text(name)) + encode_utf8(
                seq!['.'] + app_name,
            )
            &&& vstd::utf8::valid_utf8(name) ==> out[map[a].0 as int].name == name + encode_utf8(
                seq!['.'] + app_name,
            )
        }),
{
    let start = SectionsState {
        sections: image.builder.sections,
        tokenized_section: image.tokenized_section,
        map: Map::empty(),
        fixups: Seq::empty(),
    };
    let n = app.sections.len() as int;
    lemma_sections_pass_names(start, app.sections, app_name, n, a);
    lemma_sections_pass_fixups(start, app.sections, app_name, n);
    let passed = sections_pass(start, app.sections, app_name, n)->Ok_0;
    lemma_fixup_pass_keeps(passed.map, passed.sections, passed.fixups, passed.fixups.len() as int);
    let st = merged_sections(image, Map::empty(), app, app_name)->Ok_0;
    lemma_merged_tables(image, app, app_name);
    let tables = merged_segments(
        ElfImageView { sections: st.sections, ..image.builder },
        st.map,
        app,
    )->Ok_0;
    let at = st.map[a].0 as int;
    assert(same_but_links(passed.sections[at], st.sections[at]));
    assert(same_but_place(st.sections[at], tables.sections[at]));
    lemma_name_for(app.sections[a as int].name, '.', app_name);
}

/// The number of load segments among the first `n` segments.
pub open spec fn load_count(segments: Seq<ElfSegmentView>, n: int) -> int
    decreases n,
{
    if n <= 0 {
        0
    } else if segments[n - 1].is_load() {
        load_count(segments, n - 1) + 1
    } else {
        load_count(segments, n - 1)
    }
}

/// A segment that starts at `addr` still starts there after the sections
/// `ids[from..]` have been appended: `addr` meets the alignment of every
/// section up to and including the first one that is not empty.
pub open spec fn stays_at(
    addr: u64,
    app_sections: Seq<ElfSectionView>,
    ids: Seq<SectionId>,
    from: int,
) -> bool
    decreases ids.len() - from,
{
    if from < 0 || from >= ids.len() {
        true
    } else {
        let section = app_sections[ids[from].0 as int];
        &&& mask_up(addr as int, section.sh_addralign) == addr
        &&& section.sh_size != 0 || stays_at(addr, app_sections, ids, from + 1)
    }
}

/// Appending its sections leaves the two addresses of the segment as they
/// are.  A segment takes both addresses from the first section that is
/// appended to it: the load address, raised to the alignment of the
/// section.  So a segment with sections keeps its addresses exactly when
/// the two are the same and meet that alignment.
pub open spec fn keeps_addresses(segment: ElfSegmentView, app_sections: Seq<ElfSectionView>)
    -> bool {
    segment.sections.len() == 0 || (segment.p_vaddr == segment.p_paddr && stays_at(
        segment.p_paddr,
        app_sections,
        segment.sections,
        0,
    ))
}

/// No section of the segment is a tokenizer section.  Segments of an image
/// that was read from a file hold allocated sections only.
pub open spec fn holds_no_tokenizer(segment: ElfSegmentView, app_sections: Seq<ElfSectionView>)
    -> bool {
    forall|j: int|
        0 <= j < segment.sections.len() ==> !is_tokenizer(
            app_sections[(#[trigger] segment.sections[j]).0 as int],
        )
}

proof fn lemma_mask_up_reaches(x: int, align: u64)
    requires
        align >= 1,
        0 <= x,
        x + (align - 1) <= u64::MAX,
    ensures
        x <= mask_up(x, align) <= x + (align - 1),
{
    let y = (x + (align - 1)) as u64;
    let m = (align - 1) as u64;
    assert(y - m <= (y & !m) <= y) by (bit_vector)
        requires
            y >= m,
    ;
}

/// What holds of a segment that keeps its addresses while its sections are
/// appended.
spec fn filling_keeps(
    segment: ElfSegmentView,
    src: ElfSegmentView,
    app_sections: Seq<ElfSectionView>,
    n: int,
) -> bool {
    &&& segment.p_paddr == src.p_paddr
    &&& segment.p_vaddr == src.p_vaddr
    &&& segment.p_flags == src.p_flags
    &&& segment.p_align == src.p_align
    &&& segment.p_memsz == 0 ==> stays_at(src.p_paddr, app_sections, src.sections, n)
    &&& n > 0 ==> src.p_vaddr == src.p_paddr
}

proof fn lemma_appends_pass_keeps_addresses(
    st: SegmentState,
    tokenized_section: Option<SectionId>,
    map: Map<usize, SectionId>,
    base: nat,
    app_sections: Seq<ElfSectionView>,
    src: ElfSegmentView,
    n: int,
)
    requires
        0 <= n <= src.sections.len(),
        sections_mapped(st.sections, tokenized_section, map, base, app_sections),
        holds_no_tokenizer(src, app_sections),
        keeps_addresses(src, app_sections),
        filling_keeps(st.segment, src, app_sections, 0),
        appends_pass(st, map, app_sections, src.sections, n) is Ok,
    ensures
        filling_keeps(
            appends_pass(st, map, app_sections, src.sections, n)->Ok_0.segment,
            src,
            app_sections,
            n,
        ),
    decreases n,
{
    if n > 0 {
        lemma_appends_pass_keeps_addresses(
            st,
            tokenized_section,
            map,
            base,
            app_sections,
            src,
            n - 1,
        );
        lemma_appends_pass_mapped(
            st,
            tokenized_section,
            map,
            base,
            app_sections,
            src.sections,
            n - 1,
        );
        let before = appends_pass(st, map, app_sections, src.sections, n - 1)->Ok_0;
        let id = src.sections[n - 1];
        let target = map[id.0];
        let section = before.sections[target.0 as int];
        assert(!is_tokenizer(app_sections[id.0 as int]));
        assert(has_own_copy(before.sections, tokenized_section, map, base, app_sections, id.0));
        assert(can_append(before.segment, section));
        lemma_mask_up_reaches(
            before.segment.p_paddr + before.segment.p_memsz,
            section.sh_addralign,
        );
        let after = appended(before.segment, section);
        if before.segment.p_memsz == 0 {
            assert(stays_at(src.p_paddr, app_sections, src.sections, n - 1));
        }
    }
}

/// What holds of a segment while its sections are appended, whether or
/// not it keeps its addresses: the load address never goes down; once a
/// section is in, both addresses are the same; and as long as the load
/// address is where it was, the segment keeps its addresses if the
/// sections still to come let it.
spec fn filling_tracks(
    segment: ElfSegmentView,
    src: ElfSegmentView,
    app_sections: Seq<ElfSectionView>,
    n: int,
) -> bool {
    &&& src.p_paddr <= segment.p_paddr
    &&& n > 0 ==> segment.p_vaddr == segment.p_paddr
    &&& n == 0 ==> segment.p_vaddr == src.p_vaddr && segment.p_memsz == 0
    &&& segment.p_paddr == src.p_paddr && segment.p_memsz == 0 ==> (stays_at(
        src.p_paddr,
        app_sections,
        src.sections,
        0,
    ) <==> stays_at(src.p_paddr, app_sections, src.sections, n))
    &&& segment.p_paddr == src.p_paddr && segment.p_memsz != 0 ==> stays_at(
        src.p_paddr,
        app_sections,
        src.sections,
        0,
    )
}

proof fn lemma_appends_pass_tracks(
    st: SegmentState,
    tokenized_section: Option<SectionId>,
    map: Map<usize, SectionId>,
    base: nat,
    app_sections: Seq<ElfSectionView>,
    src: ElfSegmentView,
    n: int,
)
    requires
        0 <= n <= src.sections.len(),
        sections_mapped(st.sections, tokenized_section, map, base, app_sections),
        holds_no_tokenizer(src, app_sections),
        filling_tracks(st.segment, src, app_sections, 0),
        appends_pass(st, map, app_sections, src.sections, n) is Ok,
    ensures
        filling_tracks(
            appends_pass(st, map, app_sections, src.sections, n)->Ok_0.segment,
            src,
            app_sections,
            n,
        ),
    decreases n,
{
    if n > 0 {
        lemma_appends_pass_tracks(st, tokenized_section, map, base, app_sections, src, n - 1);
        lemma_appends_pass_mapped(
            st,
            tokenized_section,
            map,
            base,
            app_sections,
            src.sections,
            n - 1,
        );
        let before = appends_pass(st, map, app_sections, src.sections, n - 1)->Ok_0;
        let id = src.sections[n - 1];
        let section = before.sections[map[id.0].0 as int];
        assert(!is_tokenizer(app_sections[id.0 as int]));
        assert(has_own_copy(before.sections, tokenized_section, map, base, app_sections, id.0));
        assert(can_append(before.segment, section));
        lemma_mask_up_reaches(
            before.segment.p_paddr + before.segment.p_memsz,
            section.sh_addralign,
        );
        let after = appends_pass(st, map, app_sections, src.sections, n)->Ok_0.segment;
        let ranges = appended(before.segment, section);
        assert(after.p_paddr == ranges.p_paddr && after.p_vaddr == ranges.p_vaddr && after.p_memsz
            == ranges.p_memsz);
        assert(stays_at(src.p_paddr, app_sections, src.sections, n - 1) == (mask_up(
            src.p_paddr as int,
            section.sh_addralign,
        ) == src.p_paddr && (section.sh_size != 0 || stays_at(
            src.p_paddr,
            app_sections,
            src.sections,
            n,
        ))));
        if before.segment.p_memsz == 0 {
            if after.p_paddr == src.p_paddr {
                assert(before.segment.p_paddr == src.p_paddr);
            }
        } else {
            assert(n - 1 > 0);
        }
    }
}

/// The segment pass adds one segment for each load segment of the
/// application, in order, and a segment whose sections leave its addresses
/// alone has in the end the addresses, flags and alignment of its source.
proof fn lemma_segments_pass_keeps_addresses(
    start: TablesState,
    tokenized_section: Option<SectionId>,
    map: Map<usize, SectionId>,
    base: nat,
    app: ElfImageView,
    n: int,
    k: int,
)
    requires
        0 <= k < n <= app.segments.len(),
        sections_mapped(start.sections, tokenized_section, map, base, app.sections),
        segments_pass(start, map, app, n) is Ok,
        app.segments[k].is_load(),
        holds_no_tokenizer(app.segments[k], app.sections),
        keeps_addresses(app.segments[k], app.sections),
    ensures
        ({
            let st = segments_pass(start, map, app, n)->Ok_0;
            let i = start.segments.len() + load_count(app.segments, k);
            let src = app.segments[k];
            &&& st.segments.len() == start.segments.len() + load_count(app.segments, n)
            &&& 0 <= load_count(app.segments, k) < load_count(app.segments, n)
            &&& st.segments[i].p_vaddr == src.p_vaddr
            &&& st.segments[i].p_paddr == src.p_paddr
            &&& st.segments[i].p_flags == src.p_flags
            &&& st.segments[i].p_align == src.p_align
        }),
    decreases n,
{
    lemma_segments_pass_count(start, map, app, n);
    lemma_segments_pass_count(start, map, app, n - 1);
    lemma_load_count_grows(app.segments, k, n - 1);
    let before = segments_pass(start, map, app, n - 1)->Ok_0;
    if k < n - 1 {
        lemma_segments_pass_keeps_addresses(start, tokenized_section, map, base, app, n - 1, k);
    } else {
        lemma_segments_pass_mapped(start, tokenized_section, map, base, app, n - 1);
        let src = app.segments[k];
        let opened = SegmentState {
            segment: opened_segment(before.segments, src)->Ok_0,
            sections: before.sections,
        };
        lemma_appends_pass_keeps_addresses(
            opened,
            tokenized_section,
            map,
            base,
            app.sections,
            src,
            src.sections.len() as int,
        );
    }
}

/// Where a load segment of the application has in the end the addresses
/// of its source, appending its sections has left them alone.
proof fn lemma_segments_pass_tracks_addresses(
    start: TablesState,
    tokenized_section: Option<SectionId>,
    map: Map<usize, SectionId>,
    base: nat,
    app: ElfImageView,
    n: int,
    k: int,
)
    requires
        0 <= k < n <= app.segments.len(),
        sections_mapped(start.sections, tokenized_section, map, base, app.sections),
        segments_pass(start, map, app, n) is Ok,
        app.segments[k].is_load(),
        holds_no_tokenizer(app.segments[k], app.sections),
    ensures
        ({
            let st = segments_pass(start, map, app, n)->Ok_0;
            let i = start.segments.len() + load_count(app.segments, k);
            let src = app.segments[k];
            &&& 0 <= load_count(app.segments, k) < load_count(app.segments, n)
            &&& st.segments.len() == start.segments.len() + load_count(app.segments, n)
            &&& st.segments[i].p_vaddr == src.p_vaddr && st.segments[i].p_paddr == src.p_paddr
                ==> keeps_addresses(src, app.sections)
        }),
    decreases n,
{
    lemma_segments_pass_count(start, map, app, n);
    lemma_segments_pass_count(start, map, app, n - 1);
    lemma_load_count_grows(app.segments, k, n - 1);
    let before = segments_pass(start, map, app, n - 1)->Ok_0;
    if k < n - 1 {
        lemma_segments_pass_tracks_addresses(start, tokenized_section, map, base, app, n - 1, k);
    } else {
        lemma_segments_pass_mapped(start, tokenized_section, map, base, app, n - 1);
        let src = app.segments[k];
        let opened = SegmentState {
            segment: opened_segment(before.segments, src)->Ok_0,
            sections: before.sections,
        };
        lemma_appends_pass_tracks(
            opened,
            tokenized_section,
            map,
            base,
            app.sections,
            src,
            src.sections.len() as int,
        );
    }
}

proof fn lemma_segments_pass_count(
    start: TablesState,
    map: Map<usize, SectionId>,
    app: ElfImageView,
    n: int,
)
    requires
        0 <= n <= app.segments.len(),
        segments_pass(start, map, app, n) is Ok,
    ensures
        segments_pass(start, map, app, n)->Ok_0.segments.len() == start.segments.len() + load_count(
            app.segments,
            n,
        ),
        load_count(app.segments, n) >= 0,
    decreases n,
{
    if n > 0 {
        lemma_segments_pass_count(start, map, app, n - 1);
    }
}

proof fn lemma_load_count_grows(segments: Seq<ElfSegmentView>, k: int, n: int)
    requires
        0 <= k <= n,
    ensures
        0 <= load_count(segments, k) <= load_count(segments, n),
    decreases n,
{
    if n > k {
        lemma_load_count_grows(segments, k, n - 1);
    } else if k > 0 {
        lemma_load_count_grows(segments, k - 1, k - 1);
        lemma_load_count_grows(segments, 0, k - 1);
    }
}

/// Load segments are loaded where they were.
///
/// The `k`-th segment of the application, if it is a load segment, stands
/// in the system image behind the segments that the image had before and
/// the load segments that precede it in the application.  It has the flags
/// and the alignment of its source, and its two addresses too, provided
/// that appending its sections leaves them alone.  See
/// [`lemma_moved_segments`] for the segments that this leaves out.
pub proof fn lemma_segment_addresses_are_kept(
    image: SystemImageView,
    app: ElfImageView,
    app_name: Seq<char>,
    k: int,
)
    requires
        image.wf(),
        fits_in_memory(image, app),
        merged_image(image, app, app_name) is Ok,
        0 <= k < app.segments.len(),
        app.segments[k].is_load(),
        holds_no_tokenizer(app.segments[k], app.sections),
        keeps_addresses(app.segments[k], app.sections),
    ensures
        ({
            let out = merged_image(image, app, app_name)->Ok_0.builder.segments;
            let i = image.builder.segments.len() + load_count(app.segments, k);
            let src = app.segments[k];
            &&& out.len() == image.builder.segments.len() + load_count(
                app.segments,
                app.segments.len() as int,
            )
            &&& image.builder.segments.len() <= i < out.len()
            &&& out[i].p_vaddr == src.p_vaddr
            &&& out[i].p_paddr == src.p_paddr
            &&& out[i].p_flags == src.p_flags
            &&& out[i].p_align == src.p_align
        }),
{
    let start = SectionsState {
        sections: image.builder.sections,
        tokenized_section: image.tokenized_section,
        map: Map::empty(),
        fixups: Seq::empty(),
    };
    let n = app.sections.len() as int;
    lemma_sections_pass_mapped(start, app.sections, app_name, n);
    lemma_sections_pass_fixups(start, app.sections, app_name, n);
    let passed = sections_pass(start, app.sections, app_name, n)->Ok_0;
    lemma_fixup_pass_keeps(passed.map, passed.sections, passed.fixups, passed.fixups.len() as int);
    let st = merged_sections(image, Map::empty(), app, app_name)->Ok_0;
    lemma_mapped_after_fixups(
        passed.sections,
        st.sections,
        st.tokenized_section,
        st.map,
        image.builder.sections.len(),
        app.sections,
    );
    lemma_segments_pass_keeps_addresses(
        TablesState { segments: image.builder.segments, sections: st.sections },
        st.tokenized_section,
        st.map,
        image.builder.sections.len(),
        app,
        app.segments.len() as int,
        k,
    );
}

/// Which load segments are not loaded where they were.
///
/// A segment takes both of its addresses from the first section that is
/// appended to it.  So a load segment of the application whose sections do
/// not leave its addresses alone, one that is loaded at another address
/// than it runs at, say, has in the system image another address than in
/// the application.
pub proof fn lemma_moved_segments(
    image: SystemImageView,
    app: ElfImageView,
    app_name: Seq<char>,
    k: int,
)
    requires
        image.wf(),
        fits_in_memory(image, app),
        merged_image(image, app, app_name) is Ok,
        0 <= k < app.segments.len(),
        app.segments[k].is_load(),
        holds_no_tokenizer(app.segments[k], app.sections),
        !keeps_addresses(app.segments[k], app.sections),
    ensures
        ({
            let out = merged_image(image, app, app_name)->Ok_0.builder.segments;
            let i = image.builder.segments.len() + load_count(app.segments, k);
            let src = app.segments[k];
            &&& image.builder.segments.len() <= i < out.len()
            &&& out[i].p_vaddr != src.p_vaddr || out[i].p_paddr != src.p_paddr
        }),
{
    let start = SectionsState {
        sections: image.builder.sections,
        tokenized_section: image.tokenized_section,
        map: Map::empty(),
        fixups: Seq::empty(),
    };
    let n = app.sections.len() as int;
    lemma_sections_pass_mapped(start, app.sections, app_name, n);
    lemma_sections_pass_fixups(start, app.sections, app_name, n);
    let passed = sections_pass(start, app.sections, app_name, n)->Ok_0;
    lemma_fixup_pass_keeps(passed.map, passed.sections, passed.fixups, passed.fixups.len() as int);
    let st = merged_sections(image, Map::empty(), app, app_name)->Ok_0;
    lemma_mapped_after_fixups(
        passed.sections,
        st.sections,
        st.tokenized_section,
        st.map,
        image.builder.sections.len(),
        app.sections,
    );
    lemma_segments_pass_tracks_addresses(
        TablesState { segments: image.builder.segments, sections: st.sections },
        st.tokenized_section,
        st.map,
        image.builder.sections.len(),
        app,
        app.segments.len() as int,
        k,
    );
}

/// The raw bytes that a section holds; none for any other payload.
pub open spec fn data_of(section: ElfSectionView) -> Seq<u8> {
    match section.data {
        SectionDataView::Data(bytes) => bytes,
        _ => Seq::empty(),
    }
}

/// The raw bytes of the tokenizer sections among the first `n` sections,
/// one after the other in the order of the sections.
pub open spec fn tokenizer_bytes(sections: Seq<ElfSectionView>, n: int) -> Seq<u8>
    decreases n,
{
    if n <= 0 {
        Seq::empty()
    } else if is_tokenizer(sections[n - 1]) {
        tokenizer_bytes(sections, n - 1) + data_of(sections[n - 1])
    } else {
        tokenizer_bytes(sections, n - 1)
    }
}

/// One of the first `n` sections is a tokenizer section.
pub open spec fn has_tokenizer(sections: Seq<ElfSectionView>, n: int) -> bool {
    exists|a: int| 0 <= a < n && is_tokenizer(#[trigger] sections[a])
}

/// The image has no tokenizer section but its tokenized section.
pub open spec fn one_tokenizer(
    sections: Seq<ElfSectionView>,
    tokenized_section: Option<SectionId>,
) -> bool {
    &&& sections.len() <= usize::MAX
    &&& tokenized_section matches Some(t) ==> t.0 < sections.len()
    &&& forall|i: int|
        0 <= i < sections.len() ==> (is_tokenizer(#[trigger] sections[i]) <==> tokenized_section
            == Some(SectionId(i as usize)))
}

/// The raw bytes that the tokenized section holds; none without one.
pub open spec fn tokenized_bytes(
    sections: Seq<ElfSectionView>,
    tokenized_section: Option<SectionId>,
) -> Seq<u8> {
    match tokenized_section {
        Some(t) => data_of(sections[t.0 as int]),
        None => Seq::empty(),
    }
}

/// No section of the application turns into a tokenizer section by
/// getting its name for the application: a section that is not loaded and
/// is no tokenizer section has a name that, with the application's name
/// behind it, does not begin like the name of a tokenizer section.
pub open spec fn names_stay_apart(app_sections: Seq<ElfSectionView>, app_name: Seq<char>) -> bool {
    forall|a: int|
        0 <= a < app_sections.len() && !(#[trigger] app_sections[a]).is_alloc() && !is_tokenizer(
            app_sections[a],
        ) ==> !has_prefix(section_name_for(app_sections[a].name, app_name), tokenizer_prefix())
}

/// What holds of the tokenized section while the sections of an
/// application are merged.
spec fn tokenizer_joined(
    st: SectionsState,
    start: SectionsState,
    app_sections: Seq<ElfSectionView>,
    n: int,
) -> bool {
    &&& one_tokenizer(st.sections, st.tokenized_section)
    &&& st.tokenized_section is Some <==> start.tokenized_section is Some || has_tokenizer(
        app_sections,
        n,
    )
    &&& tokenized_bytes(st.sections, st.tokenized_section) == tokenized_bytes(
        start.sections,
        start.tokenized_section,
    ) + tokenizer_bytes(app_sections, n)
}

proof fn lemma_no_tokenizer_bytes(sections: Seq<ElfSectionView>, n: int)
    requires
        !has_tokenizer(sections, n),
    ensures
        tokenizer_bytes(sections, n) == Seq::<u8>::empty(),
    decreases n,
{
    if n > 0 {
        assert(!has_tokenizer(sections, n - 1)) by {
            if has_tokenizer(sections, n - 1) {
                let a = choose|a: int| 0 <= a < n - 1 && is_tokenizer(#[trigger] sections[a]);
                assert(0 <= a < n && is_tokenizer(sections[a]));
            }
        }
        lemma_no_tokenizer_bytes(sections, n - 1);
        assert(!is_tokenizer(sections[n - 1]));
    }
}

proof fn lemma_section_step_tokenizer(
    st: SectionsState,
    start: SectionsState,
    app_sections: Seq<ElfSectionView>,
    app_name: Seq<char>,
    n: int,
)
    requires
        0 <= n < app_sections.len() <= usize::MAX,
        st.sections.len() < usize::MAX,
        names_stay_apart(app_sections, app_name),
        tokenizer_joined(st, start, app_sections, n),
        section_step(st, n as usize, app_sections[n], app_name) is Ok,
    ensures
        tokenizer_joined(
            section_step(st, n as usize, app_sections[n], app_name)->Ok_0,
            start,
            app_sections,
            n + 1,
        ),
{
    let section = app_sections[n];
    let next = section_step(st, n as usize, section, app_name)->Ok_0;
    assert(has_tokenizer(app_sections, n + 1) <==> has_tokenizer(app_sections, n) || is_tokenizer(
        section,
    )) by {
        if has_tokenizer(app_sections, n + 1) {
            let a = choose|a: int| 0 <= a < n + 1 && is_tokenizer(#[trigger] app_sections[a]);
            if a < n {
                assert(0 <= a < n && is_tokenizer(app_sections[a]));
            }
        }
        if has_tokenizer(app_sections, n) {
            let a = choose|a: int| 0 <= a < n && is_tokenizer(#[trigger] app_sections[a]);
            assert(0 <= a < n + 1 && is_tokenizer(app_sections[a]));
        }
        if is_tokenizer(section) {
            assert(0 <= n < n + 1 && is_tokenizer(app_sections[n]));
        }
    }
    if is_tokenizer(section) && st.tokenized_section is Some {
        let survivor = st.tokenized_section->0;
        assert(is_tokenizer(st.sections[survivor.0 as int]));
        let joined = joined_tokenizer(st.sections[survivor.0 as int], section)->Ok_0;
        assert(is_tokenizer(joined));
        assert forall|i: int| 0 <= i < next.sections.len() implies (is_tokenizer(
            #[trigger] next.sections[i],
        ) <==> next.tokenized_section == Some(SectionId(i as usize))) by {
            if i != survivor.0 {
                assert(next.sections[i] == st.sections[i]);
            }
        }
    } else if is_skipped(section) {
        assert(!is_tokenizer(section)) by {
            assert(tokenizer_prefix().len() == 14);
            assert(crate::merge::symtab_name().len() == 7);
            assert(crate::merge::shstrtab_name().len() == 9);
            assert(crate::merge::strtab_name().len() == 7);
        }
    } else {
        let id = SectionId(st.sections.len() as usize);
        let copy = next.sections[st.sections.len() as int];
        assert(data_of(copy) == data_of(section));
        assert(copy.sh_flags == section.sh_flags);
        if is_tokenizer(section) {
            assert(copy.name == section.name);
            assert(is_tokenizer(copy));
            assert(st.tokenized_section is None);
            lemma_no_tokenizer_bytes(app_sections, n);
        } else {
            assert(copy.name == section_name_for(section.name, app_name));
            assert(!is_tokenizer(copy));
        }
        assert forall|i: int| 0 <= i < next.sections.len() implies (is_tokenizer(
            #[trigger] next.sections[i],
        ) <==> next.tokenized_section == Some(SectionId(i as usize))) by {
            if i < st.sections.len() {
                assert(next.sections[i] == st.sections[i]);
            }
        }
    }
    assert(tokenized_bytes(next.sections, next.tokenized_section) =~= tokenized_bytes(
        start.sections,
        start.tokenized_section,
    ) + tokenizer_bytes(app_sections, n + 1));
}

proof fn lemma_sections_pass_tokenizer(
    start: SectionsState,
    app_sections: Seq<ElfSectionView>,
    app_name: Seq<char>,
    n: int,
)
    requires
        0 <= n <= app_sections.len(),
        start.sections.len() + app_sections.len() <= usize::MAX,
        start.fixups.len() == 0,
        names_stay_apart(app_sections, app_name),
        one_tokenizer(start.sections, start.tokenized_section),
        sections_pass(start, app_sections, app_name, n) is Ok,
    ensures
        tokenizer_joined(
            sections_pass(start, app_sections, app_name, n)->Ok_0,
            start,
            app_sections,
            n,
        ),
    decreases n,
{
    if n > 0 {
        lemma_sections_pass_tokenizer(start, app_sections, app_name, n - 1);
        lemma_sections_pass_fixups(start, app_sections, app_name, n - 1);
        let before = sections_pass(start, app_sections, app_name, n - 1)->Ok_0;
        lemma_section_step_tokenizer(before, start, app_sections, app_name, n - 1);
    } else {
        assert(!has_tokenizer(app_sections, 0));
    }
}

/// The tokenized section of `after` is that of `before`, where every
/// section of `after` has the name, the flags and the payload that it has
/// in `before`.
proof fn lemma_tokenizer_carried(
    before: Seq<ElfSectionView>,
    after: Seq<ElfSectionView>,
    tokenized_section: Option<SectionId>,
)
    requires
        one_tokenizer(before, tokenized_section),
        after.len() == before.len(),
        forall|i: int|
            0 <= i < before.len() ==> {
                &&& (#[trigger] after[i]).name == before[i].name
                &&& after[i].sh_flags == before[i].sh_flags
                &&& after[i].data == before[i].data
            },
    ensures
        one_tokenizer(after, tokenized_section),
        tokenized_bytes(after, tokenized_section) == tokenized_bytes(before, tokenized_section),
{
    assert forall|i: int| 0 <= i < after.len() implies (is_tokenizer(#[trigger] after[i])
        <==> tokenized_section == Some(SectionId(i as usize))) by {
        assert(is_tokenizer(after[i]) == is_tokenizer(before[i]));
    }
}

/// There is one tokenized section, and it holds every token database.
///
/// Let the system image have no tokenizer section but its tokenized
/// section.  Then the same holds once an application has been merged; the
/// image has a tokenized section exactly if it had one or the application
/// has a tokenizer section; and the tokenized section holds the bytes it
/// held before, followed by the bytes of the tokenizer sections of the
/// application in their order.  So its length is the sum of theirs.
pub proof fn lemma_one_tokenized_section(
    image: SystemImageView,
    app: ElfImageView,
    app_name: Seq<char>,
)
    requires
        image.wf(),
        fits_in_memory(image, app),
        merged_image(image, app, app_name) is Ok,
        one_tokenizer(image.builder.sections, image.tokenized_section),
        names_stay_apart(app.sections, app_name),
    ensures
        ({
            let out = merged_image(image, app, app_name)->Ok_0;
            &&& one_tokenizer(out.builder.sections, out.tokenized_section)
            &&& out.tokenized_section is Some <==> image.tokenized_section is Some
                || has_tokenizer(app.sections, app.sections.len() as int)
            &&& tokenized_bytes(out.builder.sections, out.tokenized_section) == tokenized_bytes(
                image.builder.sections,
                image.tokenized_section,
            ) + tokenizer_bytes(app.sections, app.sections.len() as int)
        }),
{
    let start = SectionsState {
        sections: image.builder.sections,
        tokenized_section: image.tokenized_section,
        map: Map::empty(),
        fixups: Seq::empty(),
    };
    let n = app.sections.len() as int;
    lemma_sections_pass_tokenizer(start, app.sections, app_name, n);
    lemma_sections_pass_fixups(start, app.sections, app_name, n);
    let passed = sections_pass(start, app.sections, app_name, n)->Ok_0;
    lemma_fixup_pass_keeps(passed.map, passed.sections, passed.fixups, passed.fixups.len() as int);
    let st = merged_sections(image, Map::empty(), app, app_name)->Ok_0;
    assert forall|i: int| 0 <= i < passed.sections.len() implies {
        &&& (#[trigger] st.sections[i]).name == passed.sections[i].name
        &&& st.sections[i].sh_flags == passed.sections[i].sh_flags
        &&& st.sections[i].data == passed.sections[i].data
    } by {
        assert(same_but_links(passed.sections[i], st.sections[i]));
    }
    lemma_tokenizer_carried(passed.sections, st.sections, st.tokenized_section);
    lemma_merged_tables(image, app, app_name);
    let tables = merged_segments(
        ElfImageView { sections: st.sections, ..image.builder },
        st.map,
        app,
    )->Ok_0;
    assert forall|i: int| 0 <= i < st.sections.len() implies {
        &&& (#[trigger] tables.sections[i]).name == st.sections[i].name
        &&& tables.sections[i].sh_flags == st.sections[i].sh_flags
        &&& tables.sections[i].data == st.sections[i].data
    } by {
        assert(same_but_place(st.sections[i], tables.sections[i]));
    }
    lemma_tokenizer_carried(st.sections, tables.sections, st.tokenized_section);
}

proof fn lemma_appends_pass_in_range(
    st: SegmentState,
    tokenized_section: Option<SectionId>,
    map: Map<usize, SectionId>,
    base: nat,
    app_sections: Seq<ElfSectionView>,
    ids: Seq<SectionId>,
    n: int,
)
    requires
        0 <= n <= ids.len(),
        sections_mapped(st.sections, tokenized_section, map, base, app_sections),
        forall|j: int|
            0 <= j < st.segment.sections.len() ==> (#[trigger] st.segment.sections[j]).0
                < st.sections.len(),
        appends_pass(st, map, app_sections, ids, n) is Ok,
    ensures
        ({
            let next = appends_pass(st, map, app_sections, ids, n)->Ok_0;
            forall|j: int|
                0 <= j < next.segment.sections.len() ==> (#[trigger] next.segment.sections[j]).0
                    < st.sections.len()
        }),
    decreases n,
{
    if n > 0 {
        lemma_appends_pass_in_range(st, tokenized_section, map, base, app_sections, ids, n - 1);
        lemma_appends_pass_mapped(st, tokenized_section, map, base, app_sections, ids, n - 1);
        let before = appends_pass(st, map, app_sections, ids, n - 1)->Ok_0;
        assert(map[ids[n - 1].0].0 < before.sections.len());
    }
}

proof fn lemma_segments_pass_in_range(
    start: TablesState,
    tokenized_section: Option<SectionId>,
    map: Map<usize, SectionId>,
    base: nat,
    app: ElfImageView,
    n: int,
)
    requires
        0 <= n <= app.segments.len(),
        sections_mapped(start.sections, tokenized_section, map, base, app.sections),
        forall|k: int, j: int|
            0 <= k < start.segments.len() && 0 <= j < start.segments[k].sections.len() ==> (
            #[trigger] start.segments[k].sections[j]).0 < start.sections.len(),
        segments_pass(start, map, app, n) is Ok,
    ensures
        ({
            let st = segments_pass(start, map, app, n)->Ok_0;
            forall|k: int, j: int|
                0 <= k < st.segments.len() && 0 <= j < st.segments[k].sections.len() ==> (
                #[trigger] st.segments[k].sections[j]).0 < start.sections.len()
        }),
    decreases n,
{
    if n > 0 {
        lemma_segments_pass_in_range(start, tokenized_section, map, base, app, n - 1);
        lemma_segments_pass_mapped(start, tokenized_section, map, base, app, n - 1);
        let before = segments_pass(start, map, app, n - 1)->Ok_0;
        let src = app.segments[n - 1];
        if src.is_load() {
            let opened = SegmentState {
                segment: opened_segment(before.segments, src)->Ok_0,
                sections: before.sections,
            };
            lemma_appends_pass_in_range(
                opened,
                tokenized_section,
                map,
                base,
                app.sections,
                src.sections,
                src.sections.len() as int,
            );
            let filled = appends_pass(
                opened,
                map,
                app.sections,
                src.sections,
                src.sections.len() as int,
            )->Ok_0;
            let st = segments_pass(start, map, app, n)->Ok_0;
            assert(st.segments == before.segments.push(filled.segment));
            assert forall|k: int, j: int|
                0 <= k < st.segments.len() && 0 <= j < st.segments[k].sections.len() implies (
            #[trigger] st.segments[k].sections[j]).0 < start.sections.len() by {
                if k < before.segments.len() {
                    assert(st.segments[k] == before.segments[k]);
                    assert(before.segments[k].sections[j].0 < start.sections.len());
                } else {
                    assert(st.segments[k] == filled.segment);
                    assert(filled.segment.sections[j].0 < opened.sections.len());
                }
            }
        } else {
            let st = segments_pass(start, map, app, n)->Ok_0;
            assert(st == before);
            assert forall|k: int, j: int|
                0 <= k < st.segments.len() && 0 <= j < st.segments[k].sections.len() implies (
            #[trigger] st.segments[k].sections[j]).0 < start.sections.len() by {
                assert(before.segments[k].sections[j].0 < start.sections.len());
            }
        }
    } else {
        let st = segments_pass(start, map, app, n)->Ok_0;
        assert(st == start);
        assert forall|k: int, j: int|
            0 <= k < st.segments.len() && 0 <= j < st.segments[k].sections.len() implies (
        #[trigger] st.segments[k].sections[j]).0 < start.sections.len() by {
            assert(start.segments[k].sections[j].0 < start.sections.len());
        }
    }
}

/// A merge leaves the system image well formed, keeps every symbol and
/// every segment that was there, and adds sections but takes none away.
pub proof fn lemma_merged_image_extends(
    image: SystemImageView,
    app: ElfImageView,
    app_name: Seq<char>,
)
    requires
        image.wf(),
        app.wf(),
        fits_in_memory(image, app),
        merged_image(image, app, app_name) is Ok,
    ensures
        ({
            let out = merged_image(image, app, app_name)->Ok_0;
            &&& out.wf()
            &&& image.builder.sections.len() <= out.builder.sections.len()
                <= image.builder.sections.len() + app.sections.len()
            &&& out.builder.symbols.len() == image.builder.symbols.len() + app.symbols.len()
            &&& forall|i: int|
                0 <= i < image.builder.symbols.len() ==> #[trigger] out.builder.symbols[i]
                    == image.builder.symbols[i]
            &&& out.builder.segments.len() == image.builder.segments.len() + load_count(
                app.segments,
                app.segments.len() as int,
            )
            &&& image.builder.segments.len() <= out.builder.segments.len()
            &&& forall|i: int|
                0 <= i < image.builder.segments.len() ==> #[trigger] out.builder.segments[i]
                    == image.builder.segments[i]
        }),
{
    let start = SectionsState {
        sections: image.builder.sections,
        tokenized_section: image.tokenized_section,
        map: Map::empty(),
        fixups: Seq::empty(),
    };
    let n = app.sections.len() as int;
    lemma_sections_pass_fixups(start, app.sections, app_name, n);
    lemma_merged_tables(image, app, app_name);
    let st = merged_sections(image, Map::empty(), app, app_name)->Ok_0;
    let first = TablesState { segments: image.builder.segments, sections: st.sections };
    let passed = sections_pass(start, app.sections, app_name, n)->Ok_0;
    lemma_fixup_pass_keeps(passed.map, passed.sections, passed.fixups, passed.fixups.len() as int);
    lemma_sections_pass_mapped(start, app.sections, app_name, n);
    lemma_mapped_after_fixups(
        passed.sections,
        st.sections,
        st.tokenized_section,
        st.map,
        image.builder.sections.len(),
        app.sections,
    );
    lemma_segments_pass_in_range(
        first,
        st.tokenized_section,
        st.map,
        image.builder.sections.len(),
        app,
        app.segments.len() as int,
    );
    lemma_segments_pass_count(first, st.map, app, app.segments.len() as int);
    let tables = merged_segments(
        ElfImageView { sections: st.sections, ..image.builder },
        st.map,
        app,
    )->Ok_0;
    lemma_merged_symbols_each(tables.sections, st.map, app, app_name, app.symbols.len() as int);
    let out = merged_image(image, app, app_name)->Ok_0;
    assert forall|k: int| 0 <= k < out.builder.symbols.len() implies ((
    #[trigger] out.builder.symbols[k]).section matches Some(id) ==> id.0
        < out.builder.sections.len()) by {
        if k >= image.builder.symbols.len() {
            let j = k - image.builder.symbols.len();
            let symbol = app.symbols[j];
            assert(merged_symbol(tables.sections, st.map, app.sections, app_name, symbol) == Ok::<
                ElfSymbolView,
                AssembleError,
            >(out.builder.symbols[k]));
            if let Some(id) = symbol.section {
                assert(st.map.dom().contains(id.0));
                assert(st.map[id.0].0 < tables.sections.len());
            }
        } else {
            assert(out.builder.symbols[k] == image.builder.symbols[k]);
        }
    }
}

/// The sections of the kernel and of the first `n` applications, counted
/// together.
pub open spec fn total_sections(kernel: ElfImageView, apps: Seq<AppImageView>, n: int) -> int
    decreases n,
{
    if n <= 0 {
        kernel.sections.len() as int
    } else {
        total_sections(kernel, apps, n - 1) + apps[n - 1].image.sections.len()
    }
}

/// The position of the first symbol of application `i` in the symbol
/// table of the system image: behind the symbols of the kernel and of the
/// applications before it.
pub open spec fn symbol_base(kernel: ElfImageView, apps: Seq<AppImageView>, i: int) -> int
    decreases i,
{
    if i <= 0 {
        kernel.symbols.len() as int
    } else {
        symbol_base(kernel, apps, i - 1) + apps[i - 1].image.symbols.len()
    }
}

/// The position of the first segment of application `i` in the segment
/// table of the system image: behind the segments of the kernel and the
/// load segments of the applications before it.
pub open spec fn segment_base(kernel: ElfImageView, apps: Seq<AppImageView>, i: int) -> int
    decreases i,
{
    if i <= 0 {
        kernel.segments.len() as int
    } else {
        segment_base(kernel, apps, i - 1) + load_count(
            apps[i - 1].image.segments,
            apps[i - 1].image.segments.len() as int,
        )
    }
}

/// The raw bytes of the tokenizer sections of the first `n` applications,
/// one after the other in the order of the applications.
pub open spec fn app_tokenizer_bytes(apps: Seq<AppImageView>, n: int) -> Seq<u8>
    decreases n,
{
    if n <= 0 {
        Seq::empty()
    } else {
        app_tokenizer_bytes(apps, n - 1) + tokenizer_bytes(
            apps[n - 1].image.sections,
            apps[n - 1].image.sections.len() as int,
        )
    }
}

/// One of the first `n` applications has a tokenizer section.
pub open spec fn apps_have_tokenizer(apps: Seq<AppImageView>, n: int) -> bool {
    exists|i: int|
        0 <= i < n && has_tokenizer(
            (#[trigger] apps[i]).image.sections,
            apps[i].image.sections.len() as int,
        )
}

/// The images handed to `assemble` are well formed and fit in memory
/// together.
pub open spec fn inputs_valid(kernel: ElfImageView, apps: Seq<AppImageView>) -> bool {
    &&& kernel.wf()
    &&& forall|i: int| 0 <= i < apps.len() ==> (#[trigger] apps[i]).image.wf()
    &&& total_sections(kernel, apps, apps.len() as int) <= usize::MAX
}

proof fn lemma_first_tokenizer_in_range(sections: Seq<ElfSectionView>, n: int)
    requires
        0 <= n <= sections.len() <= usize::MAX,
    ensures
        first_tokenizer(sections, n) matches Some(t) ==> t.0 < n,
    decreases n,
{
    if n > 0 {
        lemma_first_tokenizer_in_range(sections, n - 1);
    }
}

proof fn lemma_total_sections_grows(kernel: ElfImageView, apps: Seq<AppImageView>, k: int, n: int)
    requires
        0 <= k <= n,
    ensures
        kernel.sections.len() <= total_sections(kernel, apps, k) <= total_sections(kernel, apps, n),
    decreases n,
{
    if n > k {
        lemma_total_sections_grows(kernel, apps, k, n - 1);
    } else if k > 0 {
        lemma_total_sections_grows(kernel, apps, k - 1, k - 1);
        lemma_total_sections_grows(kernel, apps, 0, k - 1);
    }
}

proof fn lemma_assembled_ok_before(kernel: ElfImageView, apps: Seq<AppImageView>, k: int, n: int)
    requires
        0 <= k <= n,
        assembled(kernel, apps, n) is Ok,
    ensures
        assembled(kernel, apps, k) is Ok,
    decreases n,
{
    if n > k {
        lemma_assembled_ok_before(kernel, apps, k, n - 1);
    }
}

/// The system image after `n` applications: it is well formed, and its
/// tables hold what the kernel and the applications brought.
proof fn lemma_assembled_extends(kernel: ElfImageView, apps: Seq<AppImageView>, n: int)
    requires
        0 <= n <= apps.len(),
        inputs_valid(kernel, apps),
        assembled(kernel, apps, n) is Ok,
    ensures
        ({
            let out = assembled(kernel, apps, n)->Ok_0;
            &&& out.wf()
            &&& out.builder.sections.len() <= total_sections(kernel, apps, n)
            &&& out.builder.symbols.len() == symbol_base(kernel, apps, n)
            &&& out.builder.segments.len() == segment_base(kernel, apps, n)
        }),
    decreases n,
{
    lemma_total_sections_grows(kernel, apps, n, apps.len() as int);
    if n > 0 {
        lemma_assembled_extends(kernel, apps, n - 1);
        let image = assembled(kernel, apps, n - 1)->Ok_0;
        let app = apps[n - 1];
        lemma_merged_image_extends(
            image,
            app.image,
            app_name_for(app.file_stem, (n - 1) as nat),
        );
    } else {
        lemma_first_tokenizer_in_range(kernel.sections, kernel.sections.len() as int);
    }
}

/// The symbols and segments that are in the system image after `k`
/// applications are still there, unchanged, after `n`.
proof fn lemma_assembled_keeps(kernel: ElfImageView, apps: Seq<AppImageView>, k: int, n: int)
    requires
        0 <= k <= n <= apps.len(),
        inputs_valid(kernel, apps),
        assembled(kernel, apps, n) is Ok,
    ensures
        assembled(kernel, apps, k) is Ok,
        ({
            let early = assembled(kernel, apps, k)->Ok_0.builder;
            let out = assembled(kernel, apps, n)->Ok_0.builder;
            &&& early.symbols.len() <= out.symbols.len()
            &&& early.segments.len() <= out.segments.len()
            &&& forall|i: int|
                0 <= i < early.symbols.len() ==> #[trigger] out.symbols[i] == early.symbols[i]
            &&& forall|i: int|
                0 <= i < early.segments.len() ==> #[trigger] out.segments[i] == early.segments[i]
        }),
    decreases n,
{
    lemma_assembled_ok_before(kernel, apps, k, n);
    if n > k {
        lemma_assembled_keeps(kernel, apps, k, n - 1);
        lemma_assembled_extends(kernel, apps, n - 1);
        lemma_total_sections_grows(kernel, apps, n, apps.len() as int);
        let image = assembled(kernel, apps, n - 1)->Ok_0;
        let app = apps[n - 1];
        lemma_merged_image_extends(
            image,
            app.image,
            app_name_for(app.file_stem, (n - 1) as nat),
        );
        let early = assembled(kernel, apps, k)->Ok_0.builder;
        let out = assembled(kernel, apps, n)->Ok_0.builder;
        assert forall|i: int| 0 <= i < early.symbols.len() implies #[trigger] out.symbols[i]
            == early.symbols[i] by {
            assert(image.builder.symbols[i] == early.symbols[i]);
        }
        assert forall|i: int| 0 <= i < early.segments.len() implies #[trigger] out.segments[i]
            == early.segments[i] by {
            assert(image.builder.segments[i] == early.segments[i]);
        }
    }
}

/// In the assembled image, every symbol of every application has the value
/// it has in the application, and every global one carries the name of
/// its application.
///
/// Symbol `k` of application `i` stands at position `symbol_base(i) + k`.
/// Its value is kept unless it is defined in a tokenizer section.  If it
/// is global, its name is its own name as text, an underscore, and the
/// name that the application has from its file stem and its position.
pub proof fn lemma_assembled_symbols(
    kernel: ElfImageView,
    apps: Seq<AppImageView>,
    i: int,
    k: int,
)
    requires
        inputs_valid(kernel, apps),
        assembled(kernel, apps, apps.len() as int) is Ok,
        0 <= i < apps.len(),
        0 <= k < apps[i].image.symbols.len(),
    ensures
        ({
            let out = assembled(kernel, apps, apps.len() as int)->Ok_0.builder.symbols;
            let symbol = apps[i].image.symbols[k];
            let at = symbol_base(kernel, apps, i) + k;
            let app_name = app_name_for(apps[i].file_stem, i as nat);
            &&& 0 <= at < out.len()
            &&& (symbol.section matches Some(id) ==> !is_tokenizer(
                apps[i].image.sections[id.0 as int],
            )) ==> out[at].st_value == symbol.st_value
            &&& symbol.st_bind() == STB_GLOBAL ==> out[at].name == encode_utf8(
                shown_text(symbol.name),
            ) + encode_utf8(seq!['_'] + app_name)
            &&& symbol.st_bind() == STB_GLOBAL && vstd::utf8::valid_utf8(symbol.name)
                ==> out[at].name == symbol.name + encode_utf8(seq!['_'] + app_name)
        }),
{
    let n = apps.len() as int;
    lemma_assembled_keeps(kernel, apps, i + 1, n);
    lemma_assembled_ok_before(kernel, apps, i, n);
    lemma_assembled_extends(kernel, apps, i);
    lemma_assembled_extends(kernel, apps, i + 1);
    lemma_total_sections_grows(kernel, apps, i + 1, n);
    let image = assembled(kernel, apps, i)->Ok_0;
    let app = apps[i].image;
    let app_name = app_name_for(apps[i].file_stem, i as nat);
    let symbol = app.symbols[k];
    if symbol.section matches Some(id) ==> !is_tokenizer(app.sections[id.0 as int]) {
        lemma_symbol_values_are_kept(image, app, app_name, k);
    }
    if symbol.st_bind() == STB_GLOBAL {
        lemma_global_symbols_are_suffixed(image, app, app_name, k);
    }
    let at = symbol_base(kernel, apps, i) + k;
    assert(assembled(kernel, apps, n)->Ok_0.builder.symbols[at] == assembled(
        kernel,
        apps,
        i + 1,
    )->Ok_0.builder.symbols[at]);
}

/// In the assembled image, every load segment of every application is
/// loaded where it was.
///
/// Segment `k` of application `i`, if it is a load segment, stands at
/// position `segment_base(i) + load_count(k)`, with the flags and the
/// alignment of its source, and with its two addresses too, provided that
/// appending its sections leaves them alone.
pub proof fn lemma_assembled_segments(
    kernel: ElfImageView,
    apps: Seq<AppImageView>,
    i: int,
    k: int,
)
    requires
        inputs_valid(kernel, apps),
        assembled(kernel, apps, apps.len() as int) is Ok,
        0 <= i < apps.len(),
        0 <= k < apps[i].image.segments.len(),
        apps[i].image.segments[k].is_load(),
        holds_no_tokenizer(apps[i].image.segments[k], apps[i].image.sections),
        keeps_addresses(apps[i].image.segments[k], apps[i].image.sections),
    ensures
        ({
            let out = assembled(kernel, apps, apps.len() as int)->Ok_0.builder.segments;
            let src = apps[i].image.segments[k];
            let at = segment_base(kernel, apps, i) + load_count(apps[i].image.segments, k);
            &&& 0 <= at < out.len()
            &&& out[at].p_vaddr == src.p_vaddr
            &&& out[at].p_paddr == src.p_paddr
            &&& out[at].p_flags == src.p_flags
            &&& out[at].p_align == src.p_align
        }),
{
    let n = apps.len() as int;
    lemma_assembled_keeps(kernel, apps, i + 1, n);
    lemma_assembled_ok_before(kernel, apps, i, n);
    lemma_assembled_extends(kernel, apps, i);
    lemma_assembled_extends(kernel, apps, i + 1);
    lemma_total_sections_grows(kernel, apps, i + 1, n);
    let image = assembled(kernel, apps, i)->Ok_0;
    let app = apps[i].image;
    let app_name = app_name_for(apps[i].file_stem, i as nat);
    lemma_segment_addresses_are_kept(image, app, app_name, k);
    let at = segment_base(kernel, apps, i) + load_count(app.segments, k);
    assert(assembled(kernel, apps, n)->Ok_0.builder.segments[at] == assembled(
        kernel,
        apps,
        i + 1,
    )->Ok_0.builder.segments[at]);
}

/// No application turns one of its sections into a tokenizer section by
/// putting its name behind the section's.
pub open spec fn all_names_stay_apart(apps: Seq<AppImageView>) -> bool {
    forall|i: int|
        0 <= i < apps.len() ==> names_stay_apart(
            (#[trigger] apps[i]).image.sections,
            app_name_for(apps[i].file_stem, i as nat),
        )
}

proof fn lemma_assembled_tokenizer(kernel: ElfImageView, apps: Seq<AppImageView>, n: int)
    requires
        0 <= n <= apps.len(),
        inputs_valid(kernel, apps),
        assembled(kernel, apps, n) is Ok,
        one_tokenizer(
            kernel.sections,
            first_tokenizer(kernel.sections, kernel.sections.len() as int),
        ),
        all_names_stay_apart(apps),
    ensures
        ({
            let out = assembled(kernel, apps, n)->Ok_0;
            let first = first_tokenizer(kernel.sections, kernel.sections.len() as int);
            &&& one_tokenizer(out.builder.sections, out.tokenized_section)
            &&& out.tokenized_section is Some <==> first is Some || apps_have_tokenizer(apps, n)
            &&& tokenized_bytes(out.builder.sections, out.tokenized_section) == tokenized_bytes(
                kernel.sections,
                first,
            ) + app_tokenizer_bytes(apps, n)
        }),
    decreases n,
{
    if n > 0 {
        lemma_assembled_tokenizer(kernel, apps, n - 1);
        lemma_assembled_extends(kernel, apps, n - 1);
        lemma_total_sections_grows(kernel, apps, n, apps.len() as int);
        let image = assembled(kernel, apps, n - 1)->Ok_0;
        let app = apps[n - 1];
        lemma_one_tokenized_section(
            image,
            app.image,
            app_name_for(app.file_stem, (n - 1) as nat),
        );
        let here = has_tokenizer(app.image.sections, app.image.sections.len() as int);
        assert(apps_have_tokenizer(apps, n) <==> apps_have_tokenizer(apps, n - 1) || here) by {
            if apps_have_tokenizer(apps, n) {
                let i = choose|i: int|
                    0 <= i < n && has_tokenizer(
                        (#[trigger] apps[i]).image.sections,
                        apps[i].image.sections.len() as int,
                    );
                if i < n - 1 {
                    assert(0 <= i < n - 1 && has_tokenizer(
                        apps[i].image.sections,
                        apps[i].image.sections.len() as int,
                    ));
                }
            }
            if apps_have_tokenizer(apps, n - 1) {
                let i = choose|i: int|
                    0 <= i < n - 1 && has_tokenizer(
                        (#[trigger] apps[i]).image.sections,
                        apps[i].image.sections.len() as int,
                    );
                assert(0 <= i < n && has_tokenizer(
                    apps[i].image.sections,
                    apps[i].image.sections.len() as int,
                ));
            }
            if here {
                assert(0 <= n - 1 < n && has_tokenizer(
                    apps[n - 1].image.sections,
                    apps[n - 1].image.sections.len() as int,
                ));
            }
        }
    } else {
        assert(!apps_have_tokenizer(apps, 0));
    }
}

/// The assembled image has one tokenized section, and it holds every
/// token database.
///
/// Let the kernel have at most one tokenizer section.  Then the assembled
/// image has no tokenizer section but its tokenized section; it has one
/// exactly if the kernel or an application has a tokenizer section; and
/// that section holds the bytes of the kernel's tokenizer section followed
/// by the bytes of the tokenizer sections of the applications, in the
/// order of the applications.  So its length is the sum of theirs.
///
/// A kernel with two tokenizer sections keeps both, and a section that is
/// not loaded and is called `.pw_tokenizer`, say, comes to be called like
/// a tokenizer section once the name of its application stands behind it;
/// the two conditions leave these out.
pub proof fn lemma_assembled_tokenized_section(kernel: ElfImageView, apps: Seq<AppImageView>)
    requires
        inputs_valid(kernel, apps),
        assembled(kernel, apps, apps.len() as int) is Ok,
        one_tokenizer(
            kernel.sections,
            first_tokenizer(kernel.sections, kernel.sections.len() as int),
        ),
        all_names_stay_apart(apps),
    ensures
        ({
            let out = assembled(kernel, apps, apps.len() as int)->Ok_0;
            let first = first_tokenizer(kernel.sections, kernel.sections.len() as int);
            &&& one_tokenizer(out.builder.sections, out.tokenized_section)
            &&& out.tokenized_section is Some <==> has_tokenizer(
                kernel.sections,
                kernel.sections.len() as int,
            ) || apps_have_tokenizer(apps, apps.len() as int)
            &&& tokenized_bytes(out.builder.sections, out.tokenized_section) == tokenizer_bytes(
                kernel.sections,
                kernel.sections.len() as int,
            ) + app_tokenizer_bytes(apps, apps.len() as int)
        }),
{
    lemma_assembled_tokenizer(kernel, apps, apps.len() as int);
    lemma_kernel_tokenizer(kernel.sections, kernel.sections.len() as int);
}

/// In a table with at most one tokenizer section, the bytes of the
/// tokenizer sections are the bytes of that one.
proof fn lemma_kernel_tokenizer(sections: Seq<ElfSectionView>, n: int)
    requires
        0 <= n <= sections.len() <= usize::MAX,
        one_tokenizer(sections, first_tokenizer(sections, sections.len() as int)),
    ensures
        first_tokenizer(sections, n) is Some <==> has_tokenizer(sections, n),
        tokenizer_bytes(sections, n) == tokenized_bytes(sections, first_tokenizer(sections, n)),
        first_tokenizer(sections, n) matches Some(t) ==> t.0 < n && is_tokenizer(
            sections[t.0 as int],
        ),
    decreases n,
{
    if n > 0 {
        lemma_kernel_tokenizer(sections, n - 1);
        let whole = first_tokenizer(sections, sections.len() as int);
        if has_tokenizer(sections, n - 1) {
            let a = choose|a: int| 0 <= a < n - 1 && is_tokenizer(#[trigger] sections[a]);
            assert(0 <= a < n && is_tokenizer(sections[a]));
            assert(whole == Some(SectionId(a as usize)));
            if is_tokenizer(sections[n - 1]) {
                assert(whole == Some(SectionId((n - 1) as usize)));
            }
        } else {
            lemma_no_tokenizer_bytes(sections, n - 1);
            if is_tokenizer(sections[n - 1]) {
                assert(0 <= n - 1 < n && is_tokenizer(sections[n - 1]));
            } else {
                assert(!has_tokenizer(sections, n)) by {
                    if has_tokenizer(sections, n) {
                        let a = choose|a: int| 0 <= a < n && is_tokenizer(#[trigger] sections[a]);
                        assert(0 <= a < n - 1 && is_tokenizer(sections[a]));
                    }
                }
            }
        }
    } else {
        assert(!has_tokenizer(sections, 0));
    }
}

} // verus!
