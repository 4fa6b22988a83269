//! The package-level laws: round-trip identity, optional-part absence,
//! content-type coverage, and relationship-scope correctness. The laws on
//! id allocation live next to the relationships graph.

use vstd::prelude::*;
use crate::content_type::{ct_default_view, ct_def_lit, ct_item_xml, ct_items_xml, ct_ovr_lit,
    ct_ty_lit, ct_xml, lemma_ct_rt, CtEntryView, CtView};
use crate::docx::{docx_parse_spec, extract_spec, package_entries, path_app, path_content_types,
    path_core, path_document, path_document_rels, path_font_table, path_rels, path_styles,
    schema_styles, target_styles, DocxView};
use crate::document::{doc_xml, lemma_doc_rt};
use crate::props::{app_xml, core_xml, fonts_xml, lemma_app_rt, lemma_core_rt, lemma_fonts_rt};
use crate::rels::{lemma_add_wf, lemma_rels_rt, rel_xml, rels_xml, rels_xml_items, RelsView};
use crate::styles::lemma_styles_rt;
use crate::numdec::lemma_dec_canonical;
use crate::xmltext::lemma_esc_len;
use crate::zipio::{name_fits, text_fits};

verus! {

/// The eight fixed archive paths are pairwise distinct.
pub proof fn lemma_paths_distinct()
    ensures
        path_content_types() != path_rels(),
        path_content_types() != path_document(),
        path_content_types() != path_app(),
        path_content_types() != path_core(),
        path_content_types() != path_styles(),
        path_content_types() != path_font_table(),
        path_content_types() != path_document_rels(),
        path_rels() != path_document(),
        path_rels() != path_app(),
        path_rels() != path_core(),
        path_rels() != path_styles(),
        path_rels() != path_font_table(),
        path_rels() != path_document_rels(),
        path_document() != path_app(),
        path_document() != path_core(),
        path_document() != path_styles(),
        path_document() != path_font_table(),
        path_document() != path_document_rels(),
        path_app() != path_core(),
        path_app() != path_styles(),
        path_app() != path_font_table(),
        path_app() != path_document_rels(),
        path_core() != path_styles(),
        path_core() != path_font_table(),
        path_core() != path_document_rels(),
        path_styles() != path_font_table(),
        path_styles() != path_document_rels(),
        path_font_table() != path_document_rels(),
        path_content_types().len() == 19,
        path_rels().len() == 11,
        path_document().len() == 17,
        path_app().len() == 16,
        path_core().len() == 17,
        path_styles().len() == 15,
        path_font_table().len() == 18,
        path_document_rels().len() == 28,
{
    reveal_strlit("[Content_Types].xml");
    reveal_strlit("_rels/.rels");
    reveal_strlit("word/document.xml");
    reveal_strlit("docProps/app.xml");
    reveal_strlit("docProps/core.xml");
    reveal_strlit("word/styles.xml");
    reveal_strlit("word/fontTable.xml");
    reveal_strlit("word/_rels/document.xml.rels");
    assert(path_content_types().len() == 19);
    assert(path_rels().len() == 11);
    assert(path_document().len() == 17);
    assert(path_app().len() == 16);
    assert(path_core().len() == 17);
    assert(path_styles().len() == 15);
    assert(path_font_table().len() == 18);
    assert(path_document_rels().len() == 28);
    assert(path_document()[0] != path_core()[0]);
}

/// The relationship graphs stay well formed through a write pass.
pub proof fn lemma_after_write_wf(d: DocxView)
    requires
        d.wf(),
        d.write_headroom(),
    ensures
        d.after_write().wf(),
{
    if d.app is Some {
        lemma_add_wf(d.rels, crate::docx::schema_rel_extended(), path_app());
    }
    let r1 = if d.app is Some {
        d.rels.add(crate::docx::schema_rel_extended(), path_app())
    } else {
        d.rels
    };
    if d.core is Some {
        lemma_add_wf(r1, crate::docx::schema_core(), path_core());
    }
    let r2 = if d.core is Some {
        r1.add(crate::docx::schema_core(), path_core())
    } else {
        r1
    };
    lemma_add_wf(r2, crate::docx::schema_office_document(), path_document());
    if d.styles is Some || d.font_table is Some || d.document_rels is Some {
        let g = match d.document_rels {
            Some(g0) => g0,
            None => RelsView::empty(),
        };
        assert(g.wf()) by {
            if d.document_rels is None {
                assert(RelsView::empty().ids() =~= Seq::<Seq<char>>::empty());
            }
        }
        if d.styles is Some {
            lemma_add_wf(g, schema_styles(), target_styles());
        }
        let g1 = if d.styles is Some {
            g.add(schema_styles(), target_styles())
        } else {
            g
        };
        if d.font_table is Some {
            lemma_add_wf(g1, crate::docx::schema_font_table(), crate::docx::target_font_table());
        }
    }
}

/// Round-trip identity: the archive entries one write pass produces
/// extract without error, and parsing the extracted text yields exactly
/// the post-write aggregate — every part that was present in the aggregate
/// comes back structurally equal, relationship entries, content-type
/// entries and text included.
pub proof fn lemma_round_trip(d: DocxView)
    requires
        d.wf(),
        d.write_headroom(),
    ensures
        extract_spec(package_entries(d.after_write())) is Some,
        docx_parse_spec(extract_spec(package_entries(d.after_write())).unwrap()) == Some(
            d.after_write(),
        ),
{
    let w = d.after_write();
    let m = package_entries(w);
    lemma_paths_distinct();
    lemma_after_write_wf(d);
    assert(m.contains_key(path_content_types()) && m[path_content_types()] == ct_xml(
        w.content_types,
    ));
    assert(m.contains_key(path_document()) && m[path_document()] == doc_xml(w.document));
    assert(m.contains_key(path_rels()) && m[path_rels()] == rels_xml(w.rels));
    let b = extract_spec(m).unwrap();
    lemma_ct_rt(w.content_types);
    lemma_doc_rt(w.document);
    lemma_rels_rt(w.rels);
    match w.app {
        Some(a) => {
            assert(m.contains_key(path_app()) && m[path_app()] == app_xml(a));
            lemma_app_rt(a);
        },
        None => {
            assert(!m.contains_key(path_app()));
        },
    }
    match w.core {
        Some(c) => {
            assert(m.contains_key(path_core()) && m[path_core()] == core_xml(c));
            lemma_core_rt(c);
        },
        None => {
            assert(!m.contains_key(path_core()));
        },
    }
    match w.styles {
        Some(st) => {
            assert(m.contains_key(path_styles()) && m[path_styles()] == crate::styles::styles_xml(
                st,
            ));
            lemma_styles_rt(st);
        },
        None => {
            assert(!m.contains_key(path_styles()));
        },
    }
    match w.font_table {
        Some(f) => {
            assert(m.contains_key(path_font_table()) && m[path_font_table()] == fonts_xml(f));
            lemma_fonts_rt(f);
        },
        None => {
            assert(!m.contains_key(path_font_table()));
        },
    }
    match w.document_rels {
        Some(g) => {
            assert(m.contains_key(path_document_rels()) && m[path_document_rels()] == rels_xml(g));
            lemma_rels_rt(g);
        },
        None => {
            assert(!m.contains_key(path_document_rels()));
        },
    }
    assert(docx_parse_spec(b).unwrap() == w);
}

/// Optional-part absence: an archive whose entries lack the styles path
/// extracts with the styles buffer absent, and parsing keeps it absent —
/// no error arises from the absence.
pub proof fn lemma_optional_part_absent(m: Map<Seq<char>, Seq<char>>)
    requires
        m.contains_key(path_content_types()),
        m.contains_key(path_document()),
        m.contains_key(path_rels()),
        !m.contains_key(path_styles()),
    ensures
        extract_spec(m) matches Some(b) && b.styles is None,
        docx_parse_spec(extract_spec(m).unwrap()) matches Some(dv) ==> dv.styles is None,
{
}

/// A missing required part is fatal: an archive whose entries lack the
/// document path does not extract at all.
pub proof fn lemma_required_part_missing(m: Map<Seq<char>, Seq<char>>)
    requires
        !m.contains_key(path_document()),
    ensures
        extract_spec(m) is None,
{
}

/// A path is covered by a registry when an override names it exactly or a
/// default names its extension.
pub open spec fn ends_with(s: Seq<char>, suffix: Seq<char>) -> bool {
    suffix.len() <= s.len() && s.subrange(s.len() - suffix.len(), s.len() as int) == suffix
}

pub open spec fn resolves(ct: CtView, path: Seq<char>) -> bool {
    ||| (exists|i: int|
        0 <= i < ct.overrides.len() && #[trigger] ct.overrides[i].key == path)
    ||| (exists|i: int|
        0 <= i < ct.defaults.len() && ends_with(path, seq!['.'] + #[trigger] ct.defaults[i].key))
}

/// A registry that keeps the `rels` and `xml` extension defaults — as
/// every aggregate under the documented lifecycle does, since nothing
/// removes entries. A hand-built registry without them is not covered.
pub open spec fn covers_part_extensions(ct: CtView) -> bool {
    &&& (exists|i: int| 0 <= i < ct.defaults.len() && #[trigger] ct.defaults[i].key == "rels"@)
    &&& (exists|i: int| 0 <= i < ct.defaults.len() && #[trigger] ct.defaults[i].key == "xml"@)
}

/// The registry a fresh aggregate carries keeps both extension defaults.
pub proof fn lemma_default_registry_covers()
    ensures
        covers_part_extensions(ct_default_view()),
{
    assert(ct_default_view().defaults[0].key == "rels"@);
    assert(ct_default_view().defaults[1].key == "xml"@);
}

/// Content-type coverage: with any registry that keeps the two extension
/// defaults, every path a write pass puts in the archive — the optional
/// parts included — resolves to a content type through a default or an
/// override.
pub proof fn lemma_content_type_coverage(d: DocxView)
    requires
        covers_part_extensions(d.content_types),
    ensures
        forall|p: Seq<char>|
            #[trigger] package_entries(d.after_write()).dom().contains(p) ==> resolves(
                d.content_types,
                p,
            ),
{
    let ct = d.content_types;
    let ri = choose|i: int| 0 <= i < ct.defaults.len() && #[trigger] ct.defaults[i].key == "rels"@;
    let xi = choose|i: int| 0 <= i < ct.defaults.len() && #[trigger] ct.defaults[i].key == "xml"@;
    reveal_strlit("[Content_Types].xml");
    reveal_strlit("_rels/.rels");
    reveal_strlit("word/document.xml");
    reveal_strlit("docProps/app.xml");
    reveal_strlit("docProps/core.xml");
    reveal_strlit("word/styles.xml");
    reveal_strlit("word/fontTable.xml");
    reveal_strlit("word/_rels/document.xml.rels");
    reveal_strlit("xml");
    reveal_strlit("rels");
    assert(ends_with(path_content_types(), seq!['.'] + ct.defaults[xi].key)) by {
        assert(path_content_types().subrange(15, 19) =~= seq!['.'] + "xml"@);
    }
    assert(ends_with(path_rels(), seq!['.'] + ct.defaults[ri].key)) by {
        assert(path_rels().subrange(6, 11) =~= seq!['.'] + "rels"@);
    }
    assert(ends_with(path_document(), seq!['.'] + ct.defaults[xi].key)) by {
        assert(path_document().subrange(13, 17) =~= seq!['.'] + "xml"@);
    }
    assert(ends_with(path_app(), seq!['.'] + ct.defaults[xi].key)) by {
        assert(path_app().subrange(12, 16) =~= seq!['.'] + "xml"@);
    }
    assert(ends_with(path_core(), seq!['.'] + ct.defaults[xi].key)) by {
        assert(path_core().subrange(13, 17) =~= seq!['.'] + "xml"@);
    }
    assert(ends_with(path_styles(), seq!['.'] + ct.defaults[xi].key)) by {
        assert(path_styles().subrange(11, 15) =~= seq!['.'] + "xml"@);
    }
    assert(ends_with(path_font_table(), seq!['.'] + ct.defaults[xi].key)) by {
        assert(path_font_table().subrange(14, 18) =~= seq!['.'] + "xml"@);
    }
    assert(ends_with(path_document_rels(), seq!['.'] + ct.defaults[ri].key)) by {
        assert(path_document_rels().subrange(23, 28) =~= seq!['.'] + "rels"@);
    }
    assert forall|p: Seq<char>|
        #[trigger] package_entries(d.after_write()).dom().contains(p) implies resolves(ct, p) by {
        assert(p == path_content_types() || p == path_rels() || p == path_document() || p
            == path_app() || p == path_core() || p == path_styles() || p == path_font_table() || p
            == path_document_rels());
    }
}

/// Relationship-scope correctness: writing an aggregate with styles
/// present and a fresh part-level graph puts exactly one style-definitions
/// entry targeting the styles part into the part-level graph, and none
/// into the package-level one.
pub proof fn lemma_relationship_scope(d: DocxView)
    requires
        d.wf(),
        d.write_headroom(),
        d.styles is Some,
        d.document_rels is None,
        forall|i: int|
            0 <= i < d.rels.rels.len() ==> #[trigger] d.rels.rels[i].target != target_styles(),
    ensures
        d.after_write().document_rels is Some,
        ({
            let g = d.after_write().document_rels.unwrap();
            &&& (exists|i: int|
                0 <= i < g.rels.len() && #[trigger] g.rels[i].ty == schema_styles()
                    && g.rels[i].target == target_styles())
            &&& (forall|i: int, j: int|
                (0 <= i < g.rels.len() && 0 <= j < g.rels.len() && #[trigger] g.rels[i].target
                    == target_styles() && #[trigger] g.rels[j].target == target_styles()) ==> i
                    == j)
        }),
        forall|i: int|
            0 <= i < d.after_write().rels.rels.len()
                ==> #[trigger] d.after_write().rels.rels[i].target != target_styles(),
{
    reveal_strlit("styles.xml");
    reveal_strlit("fontTable.xml");
    reveal_strlit("docProps/app.xml");
    reveal_strlit("docProps/core.xml");
    reveal_strlit("word/document.xml");
    let g = d.after_write().document_rels.unwrap();
    assert(g.rels[0].ty == schema_styles() && g.rels[0].target == target_styles());
    assert(0 <= 0 < g.rels.len());
    if d.font_table is Some {
        assert(g.rels.len() == 2);
        assert(g.rels[1].target == crate::docx::target_font_table());
        assert(target_styles() != crate::docx::target_font_table()) by {
            assert(target_styles().len() != crate::docx::target_font_table().len());
        }
    } else {
        assert(g.rels.len() == 1);
    }
    let w = d.after_write();
    assert(target_styles() != path_app()) by {
        assert(target_styles().len() != path_app().len());
    }
    assert(target_styles() != path_core()) by {
        assert(target_styles().len() != path_core().len());
    }
    assert(target_styles() != path_document()) by {
        assert(target_styles().len() != path_document().len());
    }
    assert forall|i: int|
        0 <= i < w.rels.rels.len() implies #[trigger] w.rels.rels[i].target != target_styles() by {
        let r1 = if d.app is Some {
            d.rels.add(crate::docx::schema_rel_extended(), path_app())
        } else {
            d.rels
        };
        let r2 = if d.core is Some {
            r1.add(crate::docx::schema_core(), path_core())
        } else {
            r1
        };
        if i < d.rels.rels.len() {
            assert(w.rels.rels[i] == d.rels.rels[i]);
        }
    }
}

/// One serialized registry entry is no longer than the literals around it
/// plus six times its key and type.
proof fn lemma_ct_item_len(lit: Seq<char>, e: CtEntryView)
    ensures
        ct_item_xml(lit, e).len() <= lit.len() + ct_ty_lit().len() + 6 * e.key.len() + 6
            * e.ty.len() + 4,
{
    lemma_esc_len(e.key);
    lemma_esc_len(e.ty);
    reveal_strlit("/>");
}

/// A write pass on a fresh aggregate stays inside the zip size fields, so
/// by `write`'s contract it succeeds: the empty aggregate always writes.
pub proof fn lemma_fresh_write_fits()
    ensures
        DocxView::init().write_fits(),
{
    let d = DocxView::init();
    let w = d.after_write();
    let m = package_entries(w);
    lemma_paths_distinct();
    // the registry text
    let ds = ct_default_view().defaults;
    let os = ct_default_view().overrides;
    reveal_strlit("rels");
    reveal_strlit("xml");
    reveal_strlit("application/vnd.openxmlformats-package.relationships+xml");
    reveal_strlit("application/xml");
    reveal_strlit("/word/document.xml");
    reveal_strlit("/docProps/app.xml");
    reveal_strlit("/docProps/core.xml");
    reveal_strlit("/word/styles.xml");
    reveal_strlit("/word/fontTable.xml");
    reveal_strlit(
        "application/vnd.openxmlformats-officedocument.wordprocessingml.document.main+xml",
    );
    reveal_strlit("application/vnd.openxmlformats-officedocument.extended-properties+xml");
    reveal_strlit("application/vnd.openxmlformats-package.core-properties+xml");
    reveal_strlit("application/vnd.openxmlformats-officedocument.wordprocessingml.styles+xml");
    reveal_strlit("application/vnd.openxmlformats-officedocument.wordprocessingml.fontTable+xml");
    reveal_strlit("<Types xmlns=\"http://schemas.openxmlformats.org/package/2006/content-types\">");
    reveal_strlit("</Types>");
    reveal_strlit("<Default Extension=\"");
    reveal_strlit("<Override PartName=\"");
    reveal_strlit(" ContentType=\"");
    assert(ds.skip(1) =~= seq![ds[1]]);
    assert(seq![ds[1]].skip(1) =~= Seq::<CtEntryView>::empty());
    lemma_ct_item_len(ct_def_lit(), ds[0]);
    lemma_ct_item_len(ct_def_lit(), ds[1]);
    assert(ct_items_xml(ct_def_lit(), Seq::<CtEntryView>::empty()).len() == 0);
    assert(ct_items_xml(ct_def_lit(), seq![ds[1]]) == ct_item_xml(ct_def_lit(), ds[1])
        + ct_items_xml(ct_def_lit(), seq![ds[1]].skip(1)));
    assert(ct_items_xml(ct_def_lit(), ds) == ct_item_xml(ct_def_lit(), ds[0]) + ct_items_xml(
        ct_def_lit(),
        ds.skip(1),
    ));
    assert(ct_items_xml(ct_def_lit(), ds).len() <= 2000);
    assert(os.skip(1) =~= seq![os[1], os[2], os[3], os[4]]);
    assert(seq![os[1], os[2], os[3], os[4]].skip(1) =~= seq![os[2], os[3], os[4]]);
    assert(seq![os[2], os[3], os[4]].skip(1) =~= seq![os[3], os[4]]);
    assert(seq![os[3], os[4]].skip(1) =~= seq![os[4]]);
    assert(seq![os[4]].skip(1) =~= Seq::<CtEntryView>::empty());
    lemma_ct_item_len(ct_ovr_lit(), os[0]);
    lemma_ct_item_len(ct_ovr_lit(), os[1]);
    lemma_ct_item_len(ct_ovr_lit(), os[2]);
    lemma_ct_item_len(ct_ovr_lit(), os[3]);
    lemma_ct_item_len(ct_ovr_lit(), os[4]);
    assert(ct_items_xml(ct_ovr_lit(), Seq::<CtEntryView>::empty()).len() == 0);
    assert(ct_items_xml(ct_ovr_lit(), seq![os[4]]) == ct_item_xml(ct_ovr_lit(), os[4])
        + ct_items_xml(ct_ovr_lit(), seq![os[4]].skip(1)));
    assert(ct_items_xml(ct_ovr_lit(), seq![os[3], os[4]]) == ct_item_xml(ct_ovr_lit(), os[3])
        + ct_items_xml(ct_ovr_lit(), seq![os[3], os[4]].skip(1)));
    assert(ct_items_xml(ct_ovr_lit(), seq![os[2], os[3], os[4]]) == ct_item_xml(
        ct_ovr_lit(),
        os[2],
    ) + ct_items_xml(ct_ovr_lit(), seq![os[2], os[3], os[4]].skip(1)));
    assert(ct_items_xml(ct_ovr_lit(), seq![os[1], os[2], os[3], os[4]]) == ct_item_xml(
        ct_ovr_lit(),
        os[1],
    ) + ct_items_xml(ct_ovr_lit(), seq![os[1], os[2], os[3], os[4]].skip(1)));
    assert(ct_items_xml(ct_ovr_lit(), os) == ct_item_xml(ct_ovr_lit(), os[0]) + ct_items_xml(
        ct_ovr_lit(),
        os.skip(1),
    ));
    assert(ct_items_xml(ct_ovr_lit(), os).len() <= 4000);
    assert(text_fits(ct_xml(d.content_types)));
    // the document text: an empty body between the fixed tags
    reveal_strlit(
        "<w:document xmlns:w=\"http://schemas.openxmlformats.org/wordprocessingml/2006/main\"><w:body>",
    );
    reveal_strlit("</w:body></w:document>");
    assert(crate::document::nodes_xml(d.document.body.content) == Seq::<char>::empty());
    assert(text_fits(crate::document::doc_xml(d.document)));
    // the package-level graph: exactly the office-document entry
    reveal_strlit(
        "<Relationships xmlns=\"http://schemas.openxmlformats.org/package/2006/relationships\">",
    );
    reveal_strlit("</Relationships>");
    reveal_strlit("<Relationship Id=\"");
    reveal_strlit(" Type=\"");
    reveal_strlit(" Target=\"");
    reveal_strlit("/>");
    reveal_strlit("http://schemas.openxmlformats.org/officeDocument/2006/relationships/officeDocument");
    let g = w.rels;
    assert(g.rels =~= seq![g.rels[0]]);
    assert(g.rels.skip(1) =~= Seq::<crate::rels::RelView>::empty());
    assert(rels_xml_items(g.rels.skip(1)) == Seq::<char>::empty());
    assert(rels_xml_items(g.rels) == rel_xml(g.rels[0]) + rels_xml_items(g.rels.skip(1)));
    assert(rel_xml(g.rels[0]).len() <= 1000) by {
        lemma_dec_canonical(1);
        assert(g.rels[0].id.len() == 4);
        lemma_esc_len(g.rels[0].id);
        lemma_esc_len(g.rels[0].ty);
        lemma_esc_len(g.rels[0].target);
    }
    assert(text_fits(rels_xml(g)));
    // nothing else is written
    assert(w.document_rels is None);
    assert forall|k: Seq<char>| #[trigger] m.dom().contains(k) implies name_fits(k) && text_fits(
        m[k],
    ) by {
        assert(k == path_content_types() || k == path_document() || k == path_rels());
    }
}

} // verus!
