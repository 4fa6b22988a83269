//! The document aggregate and the archive writer and reader protocols.
//!
//! `Docx` owns the required document part, the content-type registry and
//! the package-level relationship graph, plus zero-or-one of each optional
//! part. `write` serializes it into zip bytes, registering one relationship
//! per written part in the correct scope. `DocxFile` extracts the raw text
//! of every known part from zip bytes; `parse` turns the extracted text
//! back into an aggregate.

use vstd::prelude::*;
use crate::content_type::{ct_default_view, ct_xml, parse_ct, ContentTypes, CtView};
use crate::document::{parse_doc, doc_xml, BodyContent, BodyContentView, BodyView, Document,
    DocumentView, Para};
use crate::error::DocxError;
use crate::props::{app_xml, core_xml, fonts_xml, parse_app, parse_core, parse_fonts, App,
    AppView, Core, CoreView, FontTable, FontTableView};
use crate::rels::{parse_rels, rels_xml, Relationships, RelsView};
use crate::styles::{parse_styles, styles_xml, Style, Styles, StylesView};
use crate::zipio::{builder_entries, name_fits, text_fits, zip_builder_add, zip_builder_finish,
    zip_builder_new, zip_decode, zip_names, zip_opens, zip_source_open, zip_source_read,
    ReadOutcome};

verus! {

// The fixed archive paths.
pub open spec fn path_content_types() -> Seq<char> {
    "[Content_Types].xml"@
}

pub open spec fn path_rels() -> Seq<char> {
    "_rels/.rels"@
}

pub open spec fn path_document() -> Seq<char> {
    "word/document.xml"@
}

pub open spec fn path_app() -> Seq<char> {
    "docProps/app.xml"@
}

pub open spec fn path_core() -> Seq<char> {
    "docProps/core.xml"@
}

pub open spec fn path_styles() -> Seq<char> {
    "word/styles.xml"@
}

pub open spec fn path_font_table() -> Seq<char> {
    "word/fontTable.xml"@
}

pub open spec fn path_document_rels() -> Seq<char> {
    "word/_rels/document.xml.rels"@
}

// The schema type strings that identify each relationship's kind.
pub open spec fn schema_rel_extended() -> Seq<char> {
    "http://schemas.openxmlformats.org/officeDocument/2006/relationships/extended-properties"@
}

pub open spec fn schema_core() -> Seq<char> {
    "http://schemas.openxmlformats.org/package/2006/relationships/metadata/core-properties"@
}

pub open spec fn schema_office_document() -> Seq<char> {
    "http://schemas.openxmlformats.org/officeDocument/2006/relationships/officeDocument"@
}

pub open spec fn schema_styles() -> Seq<char> {
    "http://schemas.openxmlformats.org/officeDocument/2006/relationships/styles"@
}

pub open spec fn schema_font_table() -> Seq<char> {
    "http://schemas.openxmlformats.org/officeDocument/2006/relationships/fontTable"@
}

// The part-level targets, relative to the document part.
pub open spec fn target_styles() -> Seq<char> {
    "styles.xml"@
}

pub open spec fn target_font_table() -> Seq<char> {
    "fontTable.xml"@
}

/// A word-processing document package.
pub struct Docx {
    /// The app (extended) properties part, if present.
    pub app: Option<App>,
    /// The core properties part, if present.
    pub core: Option<Core>,
    /// The content-type registry.
    pub content_types: ContentTypes,
    /// The main document part.
    pub document: Document,
    /// The font table part, if present.
    pub font_table: Option<FontTable>,
    /// The style definitions part, if present.
    pub styles: Option<Styles>,
    /// The package-level relationship graph.
    pub rels: Relationships,
    /// The part-level graph for the document part's dependents; created on
    /// first use.
    pub document_rels: Option<Relationships>,
}

pub struct DocxView {
    pub app: Option<AppView>,
    pub core: Option<CoreView>,
    pub content_types: CtView,
    pub document: DocumentView,
    pub font_table: Option<FontTableView>,
    pub styles: Option<StylesView>,
    pub rels: RelsView,
    pub document_rels: Option<RelsView>,
}

impl View for Docx {
    type V = DocxView;

    open spec fn view(&self) -> DocxView {
        DocxView {
            app: match self.app {
                Some(a) => Some(a@),
                None => None,
            },
            core: match self.core {
                Some(c) => Some(c@),
                None => None,
            },
            content_types: self.content_types@,
            document: self.document@,
            font_table: match self.font_table {
                Some(f) => Some(f@),
                None => None,
            },
            styles: match self.styles {
                Some(s) => Some(s@),
                None => None,
            },
            rels: self.rels@,
            document_rels: match self.document_rels {
                Some(g) => Some(g@),
                None => None,
            },
        }
    }
}

impl DocxView {
    /// Both relationship graphs agree with their allocators.
    pub open spec fn wf(self) -> bool {
        &&& self.rels.wf()
        &&& (self.document_rels matches Some(g) ==> g.wf())
    }

    /// Room in both allocators for the relationships one write pass adds.
    pub open spec fn write_headroom(self) -> bool {
        &&& self.rels.can_alloc(3)
        &&& (self.document_rels matches Some(g) ==> g.can_alloc(2))
    }

    /// The package-level graph after one write pass: one entry per present
    /// package-scoped part, in the fixed order app, core, document.
    pub open spec fn rels_after(self) -> RelsView {
        let r1 = if self.app is Some {
            self.rels.add(schema_rel_extended(), path_app())
        } else {
            self.rels
        };
        let r2 = if self.core is Some {
            r1.add(schema_core(), path_core())
        } else {
            r1
        };
        r2.add(schema_office_document(), path_document())
    }

    /// The part-level graph after one write pass: materialized on first
    /// use, then one entry per present document-scoped part, styles first.
    pub open spec fn doc_rels_after(self) -> Option<RelsView> {
        if self.styles is Some || self.font_table is Some || self.document_rels is Some {
            let g = match self.document_rels {
                Some(g0) => g0,
                None => RelsView::empty(),
            };
            let g1 = if self.styles is Some {
                g.add(schema_styles(), target_styles())
            } else {
                g
            };
            Some(
                if self.font_table is Some {
                    g1.add(schema_font_table(), target_font_table())
                } else {
                    g1
                },
            )
        } else {
            None
        }
    }

    /// The aggregate after one write pass: the parts unchanged, both
    /// relationship graphs extended.
    pub open spec fn after_write(self) -> DocxView {
        DocxView { rels: self.rels_after(), document_rels: self.doc_rels_after(), ..self }
    }

    /// A fresh aggregate: the required parts defaulted, everything else
    /// absent.
    pub open spec fn init() -> DocxView {
        DocxView {
            app: None,
            core: None,
            content_types: ct_default_view(),
            document: DocumentView { body: BodyView { content: Seq::empty() } },
            font_table: None,
            styles: None,
            rels: RelsView::empty(),
            document_rels: None,
        }
    }
}

/// The archive contents one write pass produces from the post-write
/// aggregate `d`: each present part's serialized text at its fixed path.
pub open spec fn package_entries(d: DocxView) -> Map<Seq<char>, Seq<char>> {
    let m = Map::<Seq<char>, Seq<char>>::empty().insert(
        path_content_types(),
        ct_xml(d.content_types),
    );
    let m = match d.app {
        Some(a) => m.insert(path_app(), app_xml(a)),
        None => m,
    };
    let m = match d.core {
        Some(c) => m.insert(path_core(), core_xml(c)),
        None => m,
    };
    let m = m.insert(path_document(), doc_xml(d.document));
    let m = match d.styles {
        Some(st) => m.insert(path_styles(), styles_xml(st)),
        None => m,
    };
    let m = match d.font_table {
        Some(f) => m.insert(path_font_table(), fonts_xml(f)),
        None => m,
    };
    let m = m.insert(path_rels(), rels_xml(d.rels));
    match d.document_rels {
        Some(g) => m.insert(path_document_rels(), rels_xml(g)),
        None => m,
    }
}

/// Every entry stays inside the zip format's size fields.
pub open spec fn entries_fit(m: Map<Seq<char>, Seq<char>>) -> bool {
    forall|k: Seq<char>| #[trigger] m.dom().contains(k) ==> name_fits(k) && text_fits(m[k])
}

/// An oversized entry refutes `write_fits`.
proof fn lemma_write_unfit(d: DocxView, k: Seq<char>, t: Seq<char>)
    requires
        package_entries(d.after_write()).dom().contains(k),
        package_entries(d.after_write())[k] == t,
        name_fits(k),
        !text_fits(t),
    ensures
        !d.write_fits(),
{
}

impl DocxView {
    /// Every part this aggregate's write pass would put in the archive
    /// stays inside the zip format's size fields: the one condition under
    /// which a write into memory can fail.
    pub open spec fn write_fits(self) -> bool {
        entries_fit(package_entries(self.after_write()))
    }
}

impl Default for Docx {
    /// An empty aggregate: defaulted document part and content types,
    /// empty package-level graph, every optional part absent.
    fn default() -> (r: Self)
        ensures
            r@ == DocxView::init(),
            r@.wf(),
            r@.write_headroom(),
    {
        let r = Docx {
            app: None,
            core: None,
            content_types: ContentTypes::default(),
            document: Document::default(),
            font_table: None,
            styles: None,
            rels: Relationships::default(),
            document_rels: None,
        };
        proof {
            assert(r@.document.body.content =~= Seq::<BodyContentView>::empty());
            assert(r@ == DocxView::init());
        }
        r
    }
}

impl Docx {
    /// Appends a paragraph to the document body.
    pub fn insert_para(&mut self, para: Para)
        ensures
            final(self)@ == (DocxView {
                document: DocumentView {
                    body: BodyView {
                        content: old(self)@.document.body.content.push(
                            BodyContentView::Para(para@),
                        ),
                    },
                },
                ..old(self)@
            }),
    {
        let ghost before = self@.document.body.content;
        self.document.body.content.push(BodyContent::Para(para));
        proof {
            assert(self@.document.body.content =~= before.push(BodyContentView::Para(para@)));
        }
    }

    /// Appends a style, materializing the style definitions part on first
    /// use.
    pub fn insert_style(&mut self, style: Style)
        ensures
            final(self)@ == (DocxView {
                styles: Some(
                    StylesView {
                        styles: (match old(self)@.styles {
                            Some(sv) => sv.styles,
                            None => Seq::empty(),
                        }).push(style@),
                    },
                ),
                ..old(self)@
            }),
    {
        let mut taken: Option<Styles> = None;
        core::mem::swap(&mut self.styles, &mut taken);
        let mut st: Styles = match taken {
            Some(s) => s,
            None => Styles::default(),
        };
        proof {
            if old(self)@.styles is None {
                assert(st@.styles =~= Seq::<crate::styles::StyleView>::empty());
            }
        }
        st.insert_style(style);
        self.styles = Some(st);
    }

    /// Appends a default style to be filled in, materializing the style
    /// definitions part on first use, and returns the new style's index.
    pub fn create_style(&mut self) -> (idx: usize)
        ensures
            (final(self)@.styles matches Some(sv) && {
                &&& sv.styles.len() == idx + 1
                &&& sv.styles[idx as int].style_id.len() == 0
                &&& sv.styles[idx as int].name.len() == 0
                &&& sv.styles.take(idx as int) == (match old(self)@.styles {
                    Some(o) => o.styles,
                    None => Seq::empty(),
                })
            }),
            final(self)@ == (DocxView { styles: final(self)@.styles, ..old(self)@ }),
    {
        let mut taken: Option<Styles> = None;
        core::mem::swap(&mut self.styles, &mut taken);
        let mut st: Styles = match taken {
            Some(s) => s,
            None => Styles::default(),
        };
        proof {
            if old(self)@.styles is None {
                assert(st@.styles =~= Seq::<crate::styles::StyleView>::empty());
            }
        }
        let idx = st.create_style();
        self.styles = Some(st);
        idx
    }

    /// Detaches the aggregate from whatever produced it; every part is
    /// already owned, so the value is returned as it stands.
    pub fn into_owned(self) -> (r: Docx)
        ensures
            r == self,
    {
        self
    }

    /// Serializes the aggregate into the bytes of a zip archive, writing
    /// each present part at its fixed path and registering one
    /// relationship per part in the correct scope, in a fixed order.
    /// Mutates both relationship graphs in place: a second write pass on
    /// the same aggregate would append duplicate entries. Into memory the
    /// only possible failure is a part outgrowing the zip size fields;
    /// within `write_fits` the write succeeds. On a failure the operation
    /// aborts with a container error and no rollback: entries already
    /// appended to the graphs remain, as a prefix, and both graphs stay
    /// well formed.
    pub fn write(&mut self) -> (r: Result<Vec<u8>, DocxError>)
        requires
            old(self)@.wf(),
            old(self)@.write_headroom(),
        ensures
            final(self)@.app == old(self)@.app,
            final(self)@.core == old(self)@.core,
            final(self)@.content_types == old(self)@.content_types,
            final(self)@.document == old(self)@.document,
            final(self)@.font_table == old(self)@.font_table,
            final(self)@.styles == old(self)@.styles,
            final(self)@.wf(),
            final(self)@.rels.rels.len() >= old(self)@.rels.rels.len(),
            forall|i: int|
                0 <= i < old(self)@.rels.rels.len() ==> final(self)@.rels.rels[i] == old(
                    self,
                )@.rels.rels[i],
            (old(self)@.document_rels matches Some(g0) ==> final(self)@.document_rels matches Some(
                g1,
            ) && g1.rels.len() >= g0.rels.len() && (forall|i: int|
                0 <= i < g0.rels.len() ==> g1.rels[i] == g0.rels[i])),
            old(self)@.write_fits() ==> r is Ok,
            r matches Err(e) ==> e == DocxError::Zip,
            r matches Ok(bytes) ==> {
                &&& final(self)@ == old(self)@.after_write()
                &&& zip_decode(bytes@) == Some(package_entries(old(self)@.after_write()))
            },
    {
        let ghost m = package_entries(old(self)@.after_write());
        proof {
            crate::laws::lemma_paths_distinct();
        }
        let mut zb = match zip_builder_new() {
            Ok(z) => z,
            Err(e) => {
                return Err(e);
            },
        };
        // the content-type registry, unconditionally
        let xml_ct = self.content_types.to_xml();
        if zip_builder_add(&mut zb, "[Content_Types].xml", xml_ct.as_str()).is_err() {
            proof {
                lemma_write_unfit(old(self)@, path_content_types(), xml_ct@);
            }
            return Err(DocxError::Zip);
        }
        // package-scoped optional parts, each with its package-level entry
        match &self.app {
            Some(a) => {
                let x = a.to_xml();
                if zip_builder_add(&mut zb, "docProps/app.xml", x.as_str()).is_err() {
                    proof {
                        lemma_write_unfit(old(self)@, path_app(), x@);
                    }
                    return Err(DocxError::Zip);
                }
            },
            None => {},
        }
        if self.app.is_some() {
            self.rels.add_rel(
                "http://schemas.openxmlformats.org/officeDocument/2006/relationships/extended-properties",
                "docProps/app.xml",
            );
        }
        match &self.core {
            Some(c) => {
                let x = c.to_xml();
                if zip_builder_add(&mut zb, "docProps/core.xml", x.as_str()).is_err() {
                    proof {
                        lemma_write_unfit(old(self)@, path_core(), x@);
                    }
                    return Err(DocxError::Zip);
                }
            },
            None => {},
        }
        if self.core.is_some() {
            self.rels.add_rel(
                "http://schemas.openxmlformats.org/package/2006/relationships/metadata/core-properties",
                "docProps/core.xml",
            );
        }
        // the document part, unconditionally
        let xml_doc = self.document.to_xml();
        if zip_builder_add(&mut zb, "word/document.xml", xml_doc.as_str()).is_err() {
            proof {
                lemma_write_unfit(old(self)@, path_document(), xml_doc@);
            }
            return Err(DocxError::Zip);
        }
        self.rels.add_rel(
            "http://schemas.openxmlformats.org/officeDocument/2006/relationships/officeDocument",
            "word/document.xml",
        );
        proof {
            assert(self@.rels == old(self)@.rels_after());
        }
        // document-scoped optional parts; their graph materializes on
        // first use
        let has_deps = self.styles.is_some() || self.font_table.is_some();
        let had_doc_rels = self.document_rels.is_some();
        let mut taken: Option<Relationships> = None;
        core::mem::swap(&mut self.document_rels, &mut taken);
        let mut g: Relationships = match taken {
            Some(g0) => g0,
            None => Relationships::default(),
        };
        let mut dep_failed = false;
        match &self.styles {
            Some(st) => {
                let x = st.to_xml();
                if zip_builder_add(&mut zb, "word/styles.xml", x.as_str()).is_err() {
                    proof {
                        lemma_write_unfit(old(self)@, path_styles(), x@);
                    }
                    dep_failed = true;
                }
            },
            None => {},
        }
        if !dep_failed && self.styles.is_some() {
            g.add_rel(
                "http://schemas.openxmlformats.org/officeDocument/2006/relationships/styles",
                "styles.xml",
            );
        }
        if !dep_failed {
            match &self.font_table {
                Some(f) => {
                    let x = f.to_xml();
                    if zip_builder_add(&mut zb, "word/fontTable.xml", x.as_str()).is_err() {
                        proof {
                            lemma_write_unfit(old(self)@, path_font_table(), x@);
                        }
                        dep_failed = true;
                    }
                },
                None => {},
            }
        }
        if dep_failed {
            if had_doc_rels || has_deps {
                self.document_rels = Some(g);
            }
            return Err(DocxError::Zip);
        }
        if self.font_table.is_some() {
            g.add_rel(
                "http://schemas.openxmlformats.org/officeDocument/2006/relationships/fontTable",
                "fontTable.xml",
            );
        }
        if had_doc_rels || has_deps {
            self.document_rels = Some(g);
        }
        proof {
            assert(self@.document_rels == old(self)@.doc_rels_after());
        }
        // the package-level graph, then the part-level graph if it exists
        let xml_rels = self.rels.to_xml();
        if zip_builder_add(&mut zb, "_rels/.rels", xml_rels.as_str()).is_err() {
            proof {
                lemma_write_unfit(old(self)@, path_rels(), xml_rels@);
            }
            return Err(DocxError::Zip);
        }
        match &self.document_rels {
            Some(g2) => {
                let x = g2.to_xml();
                if zip_builder_add(&mut zb, "word/_rels/document.xml.rels", x.as_str()).is_err() {
                    proof {
                        lemma_write_unfit(old(self)@, path_document_rels(), x@);
                    }
                    return Err(DocxError::Zip);
                }
            },
            None => {},
        }
        match zip_builder_finish(zb) {
            Ok(bytes) => {
                proof {
                    assert(self@ == old(self)@.after_write());
                    assert(builder_entries(zb) =~= package_entries(old(self)@.after_write()));
                }
                Ok(bytes)
            },
            Err(e) => Err(e),
        }
    }
}

/// The extracted raw text of each part of an archive: owned text for each
/// required part, optional text for each optional one.
pub struct DocxFile {
    pub app: Option<String>,
    pub content_types: String,
    pub core: Option<String>,
    pub document: String,
    pub document_rels: Option<String>,
    pub font_table: Option<String>,
    pub rels: String,
    pub styles: Option<String>,
}

pub struct DocxFileView {
    pub app: Option<Seq<char>>,
    pub content_types: Seq<char>,
    pub core: Option<Seq<char>>,
    pub document: Seq<char>,
    pub document_rels: Option<Seq<char>>,
    pub font_table: Option<Seq<char>>,
    pub rels: Seq<char>,
    pub styles: Option<Seq<char>>,
}

impl View for DocxFile {
    type V = DocxFileView;

    open spec fn view(&self) -> DocxFileView {
        DocxFileView {
            app: match self.app {
                Some(s) => Some(s@),
                None => None,
            },
            content_types: self.content_types@,
            core: match self.core {
                Some(s) => Some(s@),
                None => None,
            },
            document: self.document@,
            document_rels: match self.document_rels {
                Some(s) => Some(s@),
                None => None,
            },
            font_table: match self.font_table {
                Some(s) => Some(s@),
                None => None,
            },
            rels: self.rels@,
            styles: match self.styles {
                Some(s) => Some(s@),
                None => None,
            },
        }
    }
}

/// What extraction recovers from an archive's entries: `None` when a
/// required part is missing; otherwise each part's raw text, with absent
/// optional parts marked absent.
pub open spec fn extract_spec(m: Map<Seq<char>, Seq<char>>) -> Option<DocxFileView> {
    if m.contains_key(path_content_types()) && m.contains_key(path_document()) && m.contains_key(
        path_rels(),
    ) {
        Some(
            DocxFileView {
                app: if m.contains_key(path_app()) {
                    Some(m[path_app()])
                } else {
                    None
                },
                content_types: m[path_content_types()],
                core: if m.contains_key(path_core()) {
                    Some(m[path_core()])
                } else {
                    None
                },
                document: m[path_document()],
                document_rels: if m.contains_key(path_document_rels()) {
                    Some(m[path_document_rels()])
                } else {
                    None
                },
                font_table: if m.contains_key(path_font_table()) {
                    Some(m[path_font_table()])
                } else {
                    None
                },
                rels: m[path_rels()],
                styles: if m.contains_key(path_styles()) {
                    Some(m[path_styles()])
                } else {
                    None
                },
            },
        )
    } else {
        None
    }
}

/// What parsing recovers from extracted text: `None` when any present
/// part's text is malformed; otherwise the aggregate.
pub open spec fn docx_parse_spec(b: DocxFileView) -> Option<DocxView> {
    if {
        &&& (b.app matches Some(t) ==> parse_app(t) is Some)
        &&& parse_ct(b.content_types) is Some
        &&& (b.core matches Some(t) ==> parse_core(t) is Some)
        &&& parse_doc(b.document) is Some
        &&& (b.document_rels matches Some(t) ==> parse_rels(t) is Some)
        &&& (b.font_table matches Some(t) ==> parse_fonts(t) is Some)
        &&& parse_rels(b.rels) is Some
        &&& (b.styles matches Some(t) ==> parse_styles(t) is Some)
    } {
        Some(
            DocxView {
                app: match b.app {
                    Some(t) => Some(parse_app(t).unwrap()),
                    None => None,
                },
                core: match b.core {
                    Some(t) => Some(parse_core(t).unwrap()),
                    None => None,
                },
                content_types: parse_ct(b.content_types).unwrap(),
                document: parse_doc(b.document).unwrap(),
                font_table: match b.font_table {
                    Some(t) => Some(parse_fonts(t).unwrap()),
                    None => None,
                },
                styles: match b.styles {
                    Some(t) => Some(parse_styles(t).unwrap()),
                    None => None,
                },
                rels: parse_rels(b.rels).unwrap(),
                document_rels: match b.document_rels {
                    Some(t) => Some(parse_rels(t).unwrap()),
                    None => None,
                },
            },
        )
    } else {
        None
    }
}

impl DocxFile {
    /// Extracts the raw text of every known part from the bytes of a zip
    /// archive. Bytes that do not open as a zip are a fatal container
    /// error. A required part that is not found is a fatal not-found
    /// error. An optional part that is not found is recorded as absent —
    /// and only not-found is recovered: an extraction that succeeds marks
    /// a part absent exactly when the archive lists no entry at its path,
    /// never because an entry failed to read.
    pub fn from_reader(bytes: Vec<u8>) -> (r: Result<DocxFile, DocxError>)
        ensures
            (!zip_opens(bytes@) ==> (r matches Err(e) && e == DocxError::Zip)),
            zip_decode(bytes@) matches Some(m) ==> (match extract_spec(m) {
                Some(b) => r matches Ok(df) && df@ == b,
                None => r matches Err(e) && e == DocxError::PartNotFound,
            }),
            r matches Ok(df) ==> {
                &&& zip_names(bytes@).contains(path_content_types())
                &&& zip_names(bytes@).contains(path_document())
                &&& zip_names(bytes@).contains(path_rels())
                &&& (df.app is Some <==> zip_names(bytes@).contains(path_app()))
                &&& (df.core is Some <==> zip_names(bytes@).contains(path_core()))
                &&& (df.document_rels is Some <==> zip_names(bytes@).contains(
                    path_document_rels(),
                ))
                &&& (df.font_table is Some <==> zip_names(bytes@).contains(path_font_table()))
                &&& (df.styles is Some <==> zip_names(bytes@).contains(path_styles()))
            },
            (r matches Err(e) && e == DocxError::PartNotFound ==> !(zip_names(bytes@).contains(
                path_content_types(),
            ) && zip_names(bytes@).contains(path_document()) && zip_names(bytes@).contains(
                path_rels(),
            ))),
    {
        let mut z = match zip_source_open(bytes) {
            Ok(z) => z,
            Err(e) => {
                return Err(e);
            },
        };
        let app = match zip_source_read(&mut z, "docProps/app.xml") {
            ReadOutcome::Found(s) => Some(s),
            ReadOutcome::Absent => None,
            ReadOutcome::Unreadable => {
                return Err(DocxError::Zip);
            },
        };
        let content_types = match zip_source_read(&mut z, "[Content_Types].xml") {
            ReadOutcome::Found(s) => s,
            ReadOutcome::Absent => {
                return Err(DocxError::PartNotFound);
            },
            ReadOutcome::Unreadable => {
                return Err(DocxError::Zip);
            },
        };
        let core = match zip_source_read(&mut z, "docProps/core.xml") {
            ReadOutcome::Found(s) => Some(s),
            ReadOutcome::Absent => None,
            ReadOutcome::Unreadable => {
                return Err(DocxError::Zip);
            },
        };
        let document_rels = match zip_source_read(&mut z, "word/_rels/document.xml.rels") {
            ReadOutcome::Found(s) => Some(s),
            ReadOutcome::Absent => None,
            ReadOutcome::Unreadable => {
                return Err(DocxError::Zip);
            },
        };
        let document = match zip_source_read(&mut z, "word/document.xml") {
            ReadOutcome::Found(s) => s,
            ReadOutcome::Absent => {
                return Err(DocxError::PartNotFound);
            },
            ReadOutcome::Unreadable => {
                return Err(DocxError::Zip);
            },
        };
        let font_table = match zip_source_read(&mut z, "word/fontTable.xml") {
            ReadOutcome::Found(s) => Some(s),
            ReadOutcome::Absent => None,
            ReadOutcome::Unreadable => {
                return Err(DocxError::Zip);
            },
        };
        let rels = match zip_source_read(&mut z, "_rels/.rels") {
            ReadOutcome::Found(s) => s,
            ReadOutcome::Absent => {
                return Err(DocxError::PartNotFound);
            },
            ReadOutcome::Unreadable => {
                return Err(DocxError::Zip);
            },
        };
        let styles = match zip_source_read(&mut z, "word/styles.xml") {
            ReadOutcome::Found(s) => Some(s),
            ReadOutcome::Absent => None,
            ReadOutcome::Unreadable => {
                return Err(DocxError::Zip);
            },
        };
        Ok(
            DocxFile {
                app,
                content_types,
                core,
                document,
                document_rels,
                font_table,
                rels,
                styles,
            },
        )
    }

    /// Parses every extracted buffer into its part, without mutating the
    /// buffers; can be run any number of times. Any part's parse failure
    /// aborts the whole operation.
    pub fn parse(&self) -> (r: Result<Docx, DocxError>)
        ensures
            match r {
                Ok(d) => docx_parse_spec(self@) == Some(d@) && d@.wf(),
                Err(e) => docx_parse_spec(self@) is None && e == DocxError::MalformedXml,
            },
    {
        let app = match &self.app {
            Some(content) => match App::from_str(content.as_str()) {
                Ok(a) => Some(a),
                Err(e) => {
                    return Err(e);
                },
            },
            None => None,
        };
        let document = match Document::from_str(self.document.as_str()) {
            Ok(d) => d,
            Err(e) => {
                return Err(e);
            },
        };
        let content_types = match ContentTypes::from_str(self.content_types.as_str()) {
            Ok(c) => c,
            Err(e) => {
                return Err(e);
            },
        };
        let core = match &self.core {
            Some(content) => match Core::from_str(content.as_str()) {
                Ok(c) => Some(c),
                Err(e) => {
                    return Err(e);
                },
            },
            None => None,
        };
        let document_rels = match &self.document_rels {
            Some(content) => match Relationships::from_str(content.as_str()) {
                Ok(g) => Some(g),
                Err(e) => {
                    return Err(e);
                },
            },
            None => None,
        };
        let font_table = match &self.font_table {
            Some(content) => match FontTable::from_str(content.as_str()) {
                Ok(f) => Some(f),
                Err(e) => {
                    return Err(e);
                },
            },
            None => None,
        };
        let rels = match Relationships::from_str(self.rels.as_str()) {
            Ok(g) => g,
            Err(e) => {
                return Err(e);
            },
        };
        let styles = match &self.styles {
            Some(content) => match Styles::from_str(content.as_str()) {
                Ok(s) => Some(s),
                Err(e) => {
                    return Err(e);
                },
            },
            None => None,
        };
        Ok(
            Docx {
                app,
                core,
                content_types,
                document,
                font_table,
                styles,
                rels,
                document_rels,
            },
        )
    }
}

} // verus!
