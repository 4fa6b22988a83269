use std::io::Write;

use docx::content_type::ContentTypes;
use docx::document::{BodyContent, Para};
use docx::docx::{Docx, DocxFile};
use docx::error::DocxError;
use docx::props::{App, Core, FontTable};
use docx::rels::{rid_value, Relationships};
use docx::styles::{LatentStyle, Style};

const SCHEMA_STYLES: &str =
    "http://schemas.openxmlformats.org/officeDocument/2006/relationships/styles";

#[test]
fn empty_aggregate_writes_exactly_three_entries() {
    let mut d = Docx::default();
    let bytes = d.write().unwrap();
    let mut z = zip::ZipArchive::new(std::io::Cursor::new(bytes)).unwrap();
    assert_eq!(z.len(), 3);
    assert!(z.by_name("[Content_Types].xml").is_ok());
    assert!(z.by_name("_rels/.rels").is_ok());
    assert!(z.by_name("word/document.xml").is_ok());
    assert!(matches!(
        z.by_name("word/_rels/document.xml.rels"),
        Err(zip::result::ZipError::FileNotFound)
    ));
}

#[test]
fn paragraph_text_round_trips_with_escapes() {
    let mut d = Docx::default();
    d.insert_para(Para::new("Hello, \"World\" & <Friends>"));
    let bytes = d.write().unwrap();
    let df = DocxFile::from_reader(bytes).unwrap();
    let d2 = df.parse().unwrap();
    assert_eq!(d2.document.body.content.len(), 1);
    let BodyContent::Para(p) = &d2.document.body.content[0];
    assert_eq!(p.text, "Hello, \"World\" & <Friends>");
}

#[test]
fn created_style_round_trips_with_part_level_relationship() {
    let mut d = Docx::default();
    let idx = d.create_style();
    assert_eq!(idx, 0);
    let bytes = d.write().unwrap();
    let df = DocxFile::from_reader(bytes).unwrap();
    let d2 = df.parse().unwrap();
    let dr = d2.document_rels.as_ref().expect("part-level graph must be present");
    let style_rels: Vec<_> = dr
        .rels
        .iter()
        .filter(|r| r.target == "styles.xml" && r.ty == SCHEMA_STYLES)
        .collect();
    assert_eq!(style_rels.len(), 1);
    let st = d2.styles.as_ref().expect("styles part must be present");
    assert_eq!(st.styles.len(), 1);
    assert_eq!(st.styles[0].style_id, "");
    assert_eq!(st.styles[0].name, "");
}

#[test]
fn full_aggregate_round_trips_structurally_equal() {
    let mut d = Docx::default();
    d.app = Some(App::new("WordProcessor 1.0"));
    d.core = Some(Core::new("A title with & and <tags>"));
    let mut ft = FontTable::default();
    ft.add_font("Arial");
    ft.add_font("Times New Roman");
    d.font_table = Some(ft);
    d.insert_para(Para::new("first"));
    d.insert_para(Para::new("second"));
    d.insert_style(Style::new("Heading1", "heading 1"));
    let bytes = d.write().unwrap();
    let d2 = DocxFile::from_reader(bytes).unwrap().parse().unwrap().into_owned();
    assert_eq!(d2.app.as_ref().unwrap().application, "WordProcessor 1.0");
    assert_eq!(d2.core.as_ref().unwrap().title, "A title with & and <tags>");
    assert_eq!(
        d2.font_table.as_ref().unwrap().fonts,
        vec!["Arial".to_string(), "Times New Roman".to_string()]
    );
    assert_eq!(d2.document.body.content.len(), 2);
    let BodyContent::Para(p0) = &d2.document.body.content[0];
    let BodyContent::Para(p1) = &d2.document.body.content[1];
    assert_eq!(p0.text, "first");
    assert_eq!(p1.text, "second");
    let st = d2.styles.as_ref().unwrap();
    assert_eq!(st.styles.len(), 1);
    assert_eq!(st.styles[0].style_id, "Heading1");
    assert_eq!(st.styles[0].name, "heading 1");
    // relationship graphs come back exactly as the write pass left them
    assert_eq!(d2.rels.rels.len(), d.rels.rels.len());
    for (a, b) in d2.rels.rels.iter().zip(d.rels.rels.iter()) {
        assert_eq!(a.id, b.id);
        assert_eq!(a.ty, b.ty);
        assert_eq!(a.target, b.target);
    }
    // the content-type registry keeps defaults and overrides apart
    assert_eq!(d2.content_types.defaults.len(), d.content_types.defaults.len());
    assert_eq!(d2.content_types.overrides.len(), d.content_types.overrides.len());
}

#[test]
fn add_rel_allocates_distinct_monotonic_ids() {
    let mut g = Relationships::default();
    let id1 = g.add_rel("t1", "a");
    let id2 = g.add_rel("t2", "b");
    let id3 = g.add_rel("t3", "c");
    assert_eq!(id1, "rId1");
    assert_eq!(id2, "rId2");
    assert_eq!(id3, "rId3");
    assert_ne!(id1, id2);
    assert_ne!(id1, id3);
    assert_ne!(id2, id3);
}

#[test]
fn allocation_after_parsing_sparse_ids_never_collides() {
    let s = "<Relationships xmlns=\"http://schemas.openxmlformats.org/package/2006/relationships\"><Relationship Id=\"rId7\" Type=\"t\" Target=\"x\"/><Relationship Id=\"custom-token\" Type=\"t\" Target=\"y\"/></Relationships>";
    let mut g = Relationships::from_str(s).unwrap();
    assert_eq!(g.rels.len(), 2);
    assert_eq!(g.rels[0].id, "rId7");
    assert_eq!(g.rels[1].id, "custom-token");
    let nid = g.add_rel("t", "z");
    assert_eq!(nid, "rId8");
    assert_ne!(nid, g.rels[0].id);
    assert_ne!(nid, g.rels[1].id);
}

#[test]
fn relationships_round_trip_preserves_ids_verbatim() {
    let mut g = Relationships::default();
    g.add_rel("typeA", "targetA");
    g.add_rel("typeB", "t\"&<>B");
    let xml = g.to_xml();
    let g2 = Relationships::from_str(xml.as_str()).unwrap();
    assert_eq!(g2.rels.len(), 2);
    assert_eq!(g2.rels[0].id, "rId1");
    assert_eq!(g2.rels[0].ty, "typeA");
    assert_eq!(g2.rels[0].target, "targetA");
    assert_eq!(g2.rels[1].target, "t\"&<>B");
    assert!(g2.allocator_consistent());
}

#[test]
fn empty_paragraph_text_round_trips() {
    let mut d = Docx::default();
    d.insert_para(Para::new(""));
    let bytes = d.write().unwrap();
    let d2 = DocxFile::from_reader(bytes).unwrap().parse().unwrap();
    assert_eq!(d2.document.body.content.len(), 1);
    let BodyContent::Para(p) = &d2.document.body.content[0];
    assert_eq!(p.text, "");
}

#[test]
fn rid_value_reads_only_canonical_numerals() {
    assert_eq!(rid_value("rId12"), Some(12));
    assert_eq!(rid_value("rId0"), Some(0));
    assert_eq!(rid_value("rId1"), Some(1));
    assert_eq!(rid_value("rId007"), None);
    assert_eq!(rid_value("rid7"), None);
    assert_eq!(rid_value("custom"), None);
    assert_eq!(rid_value("rId"), None);
}

#[test]
fn missing_optional_part_is_absent_not_an_error() {
    let mut d = Docx::default();
    let bytes = d.write().unwrap();
    let df = DocxFile::from_reader(bytes).unwrap();
    let d2 = df.parse().unwrap();
    assert!(d2.styles.is_none());
    assert!(d2.app.is_none());
    assert!(d2.core.is_none());
    assert!(d2.font_table.is_none());
    assert!(d2.document_rels.is_none());
}

#[test]
fn missing_required_part_is_a_fatal_not_found() {
    let mut zw = zip::ZipWriter::new(std::io::Cursor::new(Vec::new()));
    let opt = zip::write::SimpleFileOptions::default();
    zw.start_file("[Content_Types].xml", opt).unwrap();
    zw.write_all(b"x").unwrap();
    zw.start_file("_rels/.rels", opt).unwrap();
    zw.write_all(b"y").unwrap();
    let bytes = zw.finish().unwrap().into_inner();
    let r = DocxFile::from_reader(bytes);
    assert_eq!(r.err(), Some(DocxError::PartNotFound));
}

#[test]
fn corrupt_optional_entry_is_a_fatal_error() {
    let mut zw = zip::ZipWriter::new(std::io::Cursor::new(Vec::new()));
    let opt = zip::write::SimpleFileOptions::default();
    zw.start_file("[Content_Types].xml", opt).unwrap();
    zw.write_all(b"x").unwrap();
    zw.start_file("_rels/.rels", opt).unwrap();
    zw.write_all(b"y").unwrap();
    zw.start_file("word/document.xml", opt).unwrap();
    zw.write_all(b"z").unwrap();
    zw.start_file("word/styles.xml", opt).unwrap();
    zw.write_all(&[0xff, 0xfe, 0x80]).unwrap();
    let bytes = zw.finish().unwrap().into_inner();
    // the entry exists but does not read back as text: fatal, not "absent"
    assert_eq!(DocxFile::from_reader(bytes).err(), Some(DocxError::Zip));
}

#[test]
fn invalid_zip_bytes_are_a_container_error() {
    let r = DocxFile::from_reader(vec![1, 2, 3, 4]);
    assert_eq!(r.err(), Some(DocxError::Zip));
}

#[test]
fn malformed_part_text_is_a_parse_error() {
    let df = DocxFile {
        app: None,
        content_types: "<Types xmlns=\"http://schemas.openxmlformats.org/package/2006/content-types\"></Types>".to_string(),
        core: None,
        document: "not a document part".to_string(),
        document_rels: None,
        font_table: None,
        rels: "<Relationships xmlns=\"http://schemas.openxmlformats.org/package/2006/relationships\"></Relationships>".to_string(),
        styles: None,
    };
    assert_eq!(df.parse().err(), Some(DocxError::MalformedXml));
}

#[test]
fn content_types_keep_overrides_apart_from_defaults() {
    let mut c = ContentTypes { defaults: Vec::new(), overrides: Vec::new() };
    c.register_default("xml", "application/xml");
    c.register_override("/word/extra.xml", "application/example+xml");
    let xml = c.to_xml();
    let c2 = ContentTypes::from_str(xml.as_str()).unwrap();
    assert_eq!(c2.defaults.len(), 1);
    assert_eq!(c2.overrides.len(), 1);
    assert_eq!(c2.defaults[0].key, "xml");
    assert_eq!(c2.overrides[0].key, "/word/extra.xml");
    assert_eq!(c2.overrides[0].ty, "application/example+xml");
}

#[test]
fn written_paths_are_covered_by_the_default_registry() {
    let mut d = Docx::default();
    d.app = Some(App::new("app"));
    d.insert_style(Style::new("S", "s"));
    let bytes = d.write().unwrap();
    let mut z = zip::ZipArchive::new(std::io::Cursor::new(bytes)).unwrap();
    let names: Vec<String> = z.file_names().map(|n| n.to_string()).collect();
    for name in &names {
        let by_override = d
            .content_types
            .overrides
            .iter()
            .any(|o| o.key.trim_start_matches('/') == name.as_str());
        let by_default = d
            .content_types
            .defaults
            .iter()
            .any(|e| name.ends_with(&format!(".{}", e.key)));
        assert!(by_override || by_default, "no content type for {}", name);
    }
    assert!(z.by_name("word/styles.xml").is_ok());
}

#[test]
fn styles_relationship_lands_in_the_part_level_scope() {
    let mut d = Docx::default();
    d.insert_style(Style::new("S1", "style one"));
    let _ = d.write().unwrap();
    let dr = d.document_rels.as_ref().expect("part-level graph created by write");
    let in_part: Vec<_> = dr
        .rels
        .iter()
        .filter(|r| r.target == "styles.xml" && r.ty == SCHEMA_STYLES)
        .collect();
    assert_eq!(in_part.len(), 1);
    let in_package: Vec<_> = d.rels.rels.iter().filter(|r| r.target == "styles.xml").collect();
    assert_eq!(in_package.len(), 0);
}

#[test]
fn into_owned_detaches_the_parsed_aggregate() {
    let mut d = Docx::default();
    d.insert_para(Para::new("kept"));
    let bytes = d.write().unwrap();
    let owned = {
        let df = DocxFile::from_reader(bytes).unwrap();
        df.parse().unwrap().into_owned()
    };
    let BodyContent::Para(p) = &owned.document.body.content[0];
    assert_eq!(p.text, "kept");
}

#[test]
fn latent_style_defaults_to_all_absent() {
    let l = LatentStyle::default();
    assert!(l.name.is_none());
    assert!(l.semi_hidden.is_none());
    assert!(l.priority.is_none());
    assert!(l.unhiden_when_used.is_none());
    assert!(l.q_format.is_none());
}

#[test]
fn error_messages_name_the_failure() {
    assert_eq!(DocxError::Zip.message(), "zip container failure");
    assert_eq!(DocxError::PartNotFound.message(), "required part not found in archive");
    assert_eq!(DocxError::MalformedXml.message(), "malformed part");
}
