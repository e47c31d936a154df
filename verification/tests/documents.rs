use epub::container::{Container, Rootfile};
use epub::io::InputFile;
use epub::navigation::{parse_number, NavPoint, Toc};
use epub::package::{Identifier, Item, ItemRef, Manifest, Meta, Metadata, Package, Spine};
use epub::sax::{parse_lines, parse_text, Attribute, StartTag, XmlEvent};
use epub::EPubError;

/// The start tags that a text gives.
fn tags(text: &str) -> Vec<StartTag> {
    let mut tags = Vec::new();
    for event in parse_text(text).unwrap() {
        match event {
            XmlEvent::ElementStart(tag) => tags.push(tag),
            _ => (),
        }
    }
    tags
}

fn tag(name: &str, attributes: &[(&str, &str)]) -> StartTag {
    StartTag {
        name: name.to_string(),
        attributes: attributes
            .iter()
            .map(|(name, value)| Attribute { name: name.to_string(), ns: None, value: value.to_string() })
            .collect(),
    }
}

#[test]
fn test_package_attributes() {
    let mut seen = 0;
    // feed data to be parsed, get events for the fed data
    for tag in tags(
        "<package xmlns=\"http://www.idpf.org/2007/opf\" version=\"3.0\" xml:lang=\"en\" unique-identifier=\"p9781718500457\">"
    ) {
        let (s1, s2, s3) = Package::collect_attributes(&tag);
        assert_eq!(s1, "p9781718500457");
        assert_eq!(s2, "3.0");
        assert_eq!(s3.unwrap(), "en");
        seen += 1;
    }
    assert_eq!(seen, 1);
}

#[test]
fn test_manifestitem() {
    let mut manifest = Manifest::new();
    for tag in tags("<item id=\"ncxtoc\" media-type=\"application/x-dtbncx+xml\" href=\"toc.ncx\"/>") {
        manifest.add_tag(&tag).unwrap();
    }
    assert_eq!(manifest.items.len(), 1);
}

#[test]
fn test_item() {
    let mut seen = 0;
    for tag in tags("<item id=\"ncxtoc\" media-type=\"application/x-dtbncx+xml\" href=\"toc.ncx\"/>") {
        let itm = Item::new(&tag).unwrap();
        assert_eq!(itm.id, "ncxtoc");
        assert_eq!(itm.media_type, "application/x-dtbncx+xml");
        assert_eq!(itm.href, "toc.ncx");
        seen += 1;
    }
    assert_eq!(seen, 1);
}

#[test]
#[should_panic]
fn test_baditem() {
    for tag in tags("<item id=\"ncxtoc\" media-types=\"application/x-dtbncx+xml\" href=\"toc.ncx\"/>") {
        let _itm = Item::new(&tag).unwrap();
    }
}

#[test]
fn test_spineitemref() {
    let mut spine = Spine::new();
    for tag in tags("<itemref idref=\"copy\"/>") {
        spine.add_tag(&tag).unwrap();
    }
    assert_eq!(spine.itemrefs.len(), 1);
}

#[test]
fn test_itemref() {
    let mut seen = 0;
    for tag in tags("<itemref idref=\"copy\"/>") {
        let itmref = ItemRef::new(&tag).unwrap();
        assert_eq!(itmref.idref, "copy");
        seen += 1;
    }
    assert_eq!(seen, 1);
}

#[test]
#[should_panic]
fn test_baditemref() {
    for tag in tags("<itemref idrefs=\"copy\"/>") {
        let _itmref = ItemRef::new(&tag).unwrap();
    }
}

#[test]
fn test_navpoint() {
    let events = parse_text(
        "<navPoint id=\"i1\" playOrder=\"1\">\n<navLabel>\n<text>Cover Page</text>\n</navLabel>\n<content src=\"xhtml/cover.xhtml\"/>\n</navPoint>\n"
    ).unwrap();
    let mut navp: Option<NavPoint> = None;
    let mut s = String::new();
    for event in events {
        match event {
            XmlEvent::ElementStart(tag) => {
                if tag.name == "navPoint" {
                    match NavPoint::new(&tag) {
                        Ok(n) => {
                            navp = Some(n);
                        }
                        Err(_) => panic!(),
                    }
                } else if tag.name == "content" {
                    if let Some(mut n) = navp {
                        match n.add_content(&tag) {
                            Ok(_) => (),
                            Err(_) => panic!(),
                        }
                        navp = Some(n);
                    }
                }
                s = String::new();
            }
            XmlEvent::ElementEnd(tag) => {
                if tag.name == "text" {
                    if let Some(mut n) = navp {
                        n.add_label(&s);
                        navp = Some(n);
                    }
                }
            }
            XmlEvent::Characters(ch) => {
                if ch != "\n" {
                    s += &ch;
                }
            }
            _ => (),
        }
    }
    if let Some(n) = navp {
        assert_eq!(n.id, "i1");
        assert_eq!(n.play_order, 1);
        assert_eq!(n.label, "Cover Page");
        assert_eq!(n.content, "xhtml/cover.xhtml");
    } else {
        panic!();
    }
}

#[test]
fn missing_attributes_are_invalid_xml() {
    assert_eq!(Item::new(&tag("item", &[("id", "a"), ("href", "b")])).err(), Some(EPubError::InvalidXml));
    assert_eq!(Item::new(&tag("item", &[("href", "b"), ("media-type", "c")])).err(), Some(EPubError::InvalidXml));
    assert_eq!(ItemRef::new(&tag("itemref", &[])).err(), Some(EPubError::InvalidXml));
    assert_eq!(NavPoint::new(&tag("navPoint", &[("id", "a")])).err(), Some(EPubError::InvalidXml));
    assert_eq!(NavPoint::new(&tag("navPoint", &[("playOrder", "1")])).err(), Some(EPubError::InvalidXml));
    assert_eq!(
        NavPoint::new(&tag("navPoint", &[("id", "a"), ("playOrder", "one")])).err(),
        Some(EPubError::InvalidXml)
    );
    assert_eq!(Meta::new(&tag("meta", &[("name", "a")]), "").err(), Some(EPubError::InvalidXml));
    assert_eq!(Meta::new(&tag("meta", &[("content", "a")]), "").err(), Some(EPubError::InvalidXml));
    assert_eq!(Rootfile::new(&tag("rootfile", &[("full-path", "a")]), "d").err(), Some(EPubError::InvalidXml));
    let mut spine = Spine::new();
    assert_eq!(spine.add_tag(&tag("spine", &[])), Err(EPubError::InvalidXml));
    assert_eq!(spine.add_tag(&tag("itemref", &[])), Err(EPubError::InvalidXml));
    let mut identifier = Identifier::new();
    assert_eq!(identifier.add_tag(&tag("identifier", &[]), "x"), Err(EPubError::InvalidXml));
    assert_eq!(identifier.id, "");
    assert_eq!(identifier.text, "");
    let mut point = NavPoint::new(&tag("navPoint", &[("id", "a"), ("playOrder", "7")])).unwrap();
    assert_eq!(point.add_content(&tag("content", &[])), Err(EPubError::InvalidXml));
    assert_eq!(point.content, "");
}

#[test]
fn attributes_are_found_by_name_and_namespace() {
    let mut start = tag("a", &[("x", "1"), ("y", "2"), ("x", "3")]);
    start.attributes.push(Attribute {
        name: "lang".to_string(),
        ns: Some("http://www.w3.org/XML/1998/namespace".to_string()),
        value: "de".to_string(),
    });
    assert_eq!(start.attribute("x").unwrap(), "1");
    assert_eq!(start.attribute("y").unwrap(), "2");
    assert!(start.attribute("z").is_none());
    assert!(start.attribute("lang").is_none());
    assert_eq!(start.attribute_ns("lang", "http://www.w3.org/XML/1998/namespace").unwrap(), "de");
    assert!(start.attribute_ns("lang", "other").is_none());
    assert!(start.attribute_ns("x", "http://www.w3.org/XML/1998/namespace").is_none());
    let (uid, version, lang) = Package::collect_attributes(&start);
    assert_eq!((uid.as_str(), version.as_str(), lang.as_deref()), ("", "", Some("de")));
}

#[test]
fn numbers_are_decimal_digits() {
    assert_eq!(parse_number("0"), Some(0));
    assert_eq!(parse_number("42"), Some(42));
    assert_eq!(parse_number("+42"), Some(42));
    assert_eq!(parse_number("007"), Some(7));
    assert_eq!(parse_number("4294967295"), Some(u32::MAX));
    assert_eq!(parse_number("4294967296"), None);
    assert_eq!(parse_number("99999999999999999999999999"), None);
    assert_eq!(parse_number(""), None);
    assert_eq!(parse_number("+"), None);
    assert_eq!(parse_number("-1"), None);
    assert_eq!(parse_number("1 "), None);
    assert_eq!(parse_number("++1"), None);
    assert_eq!(parse_number("1a"), None);
    assert_eq!(parse_number("٣"), None);
}

#[test]
fn meta_has_two_forms() {
    let meta = Meta::new(&tag("meta", &[("property", "dcterms:modified")]), "2020-01-01").unwrap();
    assert_eq!((meta.name.as_str(), meta.content.as_str()), ("dcterms:modified", "2020-01-01"));
    let meta = Meta::new(&tag("meta", &[("name", "cover"), ("content", "img1")]), "ignored").unwrap();
    assert_eq!((meta.name.as_str(), meta.content.as_str()), ("cover", "img1"));
}

#[test]
fn metadata_gathers_the_elements_by_name() {
    let mut metadata = Metadata::new();
    metadata.add_tag(&tag("title", &[]), "The ").unwrap();
    metadata.add_tag(&tag("title", &[]), "Book").unwrap();
    metadata.add_tag(&tag("language", &[]), "en").unwrap();
    metadata.add_tag(&tag("language", &[]), "de").unwrap();
    metadata.add_tag(&tag("creator", &[]), "A. Author").unwrap();
    metadata.add_tag(&tag("identifier", &[("id", "uid")]), "urn:isbn:1").unwrap();
    metadata.add_tag(&tag("date", &[]), "2019").unwrap();
    metadata.add_tag(&tag("date", &[]), "2020").unwrap();
    metadata.add_tag(&tag("type", &[]), "text").unwrap();
    metadata.add_tag(&tag("publisher", &[]), "P").unwrap();
    metadata.add_tag(&tag("rights", &[]), "R").unwrap();
    metadata.add_tag(&tag("subject", &[]), "S").unwrap();
    metadata.add_tag(&tag("source", &[]), "Q").unwrap();
    metadata.add_tag(&tag("relation", &[]), "L").unwrap();
    metadata.add_tag(&tag("format", &[]), "F").unwrap();
    metadata.add_tag(&tag("coverage", &[]), "C").unwrap();
    metadata.add_tag(&tag("description", &[]), "D").unwrap();
    metadata.add_tag(&tag("meta", &[("name", "cover"), ("content", "img1")]), "").unwrap();
    metadata.add_tag(&tag("unknown", &[]), "ignored").unwrap();
    assert_eq!(metadata.add_tag(&tag("meta", &[]), ""), Err(EPubError::InvalidXml));
    assert_eq!(metadata.title, "The Book");
    assert_eq!(metadata.language, vec!["en", "de"]);
    assert_eq!(metadata.creator, vec!["A. Author"]);
    assert_eq!(metadata.identifier.id, "uid");
    assert_eq!(metadata.identifier.text, "urn:isbn:1");
    assert_eq!(metadata.date.as_deref(), Some("2020"));
    assert_eq!(metadata.metadata_type.as_deref(), Some("text"));
    assert_eq!(metadata.publisher.as_deref(), Some("P"));
    assert_eq!(metadata.rights.as_deref(), Some("R"));
    assert_eq!(metadata.subject.as_deref(), Some("S"));
    assert_eq!(metadata.source.as_deref(), Some("Q"));
    assert_eq!(metadata.relation.as_deref(), Some("L"));
    assert_eq!(metadata.format.as_deref(), Some("F"));
    assert_eq!(metadata.coverage.as_deref(), Some("C"));
    assert_eq!(metadata.description.as_deref(), Some("D"));
    assert_eq!(metadata.contributor, None);
    assert_eq!(metadata.meta_tags.len(), 1);
}

const OPF: &str = "<?xml version=\"1.0\" encoding=\"UTF-8\"?>
<package xmlns=\"http://www.idpf.org/2007/opf\" version=\"3.0\" xml:lang=\"en\" unique-identifier=\"pub-id\">
<metadata xmlns:dc=\"http://purl.org/dc/elements/1.1/\">
<dc:identifier id=\"pub-id\">urn:isbn:9781718500457</dc:identifier>
<dc:title>The Rust Programming Language</dc:title>
<dc:language>en</dc:language>
<dc:creator>Steve Klabnik</dc:creator>
<dc:creator>Carol Nichols</dc:creator>
<meta name=\"cover\" content=\"cover-image\"/>
</metadata>
<manifest>
<item id=\"ncxtoc\" media-type=\"application/x-dtbncx+xml\" href=\"toc.ncx\"/>
<item id=\"cover\" href=\"xhtml/cover.xhtml\" media-type=\"application/xhtml+xml\"/>
<item id=\"ch1\" href=\"xhtml/ch1.xhtml\" media-type=\"application/xhtml+xml\"/>
</manifest>
<spine toc=\"ncxtoc\">
<itemref idref=\"cover\"/>
<itemref idref=\"ch1\"/>
</spine>
</package>
";

const NCX: &str = "<?xml version=\"1.0\"?>
<ncx xmlns=\"http://www.daisy.org/z3986/2005/ncx/\" version=\"2005-1\" xml:lang=\"en\">
<head>
<meta name=\"dtb:uid\" content=\"9781718500457\"/>
<meta name=\"dtb:depth\" content=\"1\"/>
</head>
<docTitle>
<text>The Rust Programming Language</text>
</docTitle>
<navMap>
<navPoint id=\"i1\" playOrder=\"1\">
<navLabel>
<text>Cover Page</text>
</navLabel>
<content src=\"xhtml/cover.xhtml\"/>
</navPoint>
<navPoint id=\"i2\" playOrder=\"2\">
<navLabel>
<text>Title Page</text>
</navLabel>
<content src=\"xhtml/title.xhtml\"/>
</navPoint>
</navMap>
</ncx>
";

const CONTAINER: &str = "<?xml version=\"1.0\" encoding=\"UTF-8\" standalone=\"yes\"?>
<container version=\"1.0\" xmlns=\"urn:oasis:names:tc:opendocument:xmlns:container\">
        <rootfiles>
                <rootfile full-path=\"OEBPS/9781718500457.opf\" media-type=\"application/oebps-package+xml\" />
        </rootfiles>
</container>
";

#[test]
fn package_is_read_from_its_document() {
    let file = InputFile::new(OPF.as_bytes().to_vec());
    let package = Package::read("/expanded/OEBPS/content.opf", file).unwrap();
    assert_eq!(package.unique_identifer, "pub-id");
    assert_eq!(package.version, "3.0");
    assert_eq!(package.xml_lang.as_deref(), Some("en"));
    assert_eq!(package.base_dir, "/expanded/OEBPS/");
    assert_eq!(package.metadata.title, "The Rust Programming Language");
    assert_eq!(package.metadata.identifier.id, "pub-id");
    assert_eq!(package.metadata.identifier.text, "urn:isbn:9781718500457");
    assert_eq!(package.metadata.language, vec!["en"]);
    assert_eq!(package.metadata.creator, vec!["Steve Klabnik", "Carol Nichols"]);
    assert_eq!(package.metadata.meta_tags.len(), 1);
    assert_eq!(package.metadata.meta_tags[0].name, "cover");
    assert_eq!(package.metadata.meta_tags[0].content, "cover-image");
    assert_eq!(package.manifest.items.len(), 3);
    assert_eq!(package.manifest.items[1].id, "cover");
    assert_eq!(package.manifest.items[2].href, "xhtml/ch1.xhtml");
    assert_eq!(package.spine.toc, "ncxtoc");
    let refs: Vec<&str> = package.spine.itemrefs.iter().map(|r| r.idref.as_str()).collect();
    assert_eq!(refs, vec!["cover", "ch1"]);
    assert_eq!(package.toc_path().as_deref(), Some("/expanded/OEBPS//toc.ncx"));
}

#[test]
fn package_needs_its_element_and_matching_tags() {
    let read = |text: &str| Package::read("a.opf", InputFile::new(text.as_bytes().to_vec()));
    assert_eq!(read("<other></other>").err(), Some(EPubError::InvalidXml));
    assert_eq!(read("").err(), Some(EPubError::InvalidXml));
    assert_eq!(read("<package><a></b></package>").err(), Some(EPubError::InvalidXml));
    assert_eq!(
        read("<package><manifest><item id=\"a\"/></manifest></package>").err(),
        Some(EPubError::InvalidXml)
    );
    assert_eq!(read("<package><spine></spine></package>").err(), Some(EPubError::InvalidXml));
    let package = read("<package></package>").unwrap();
    assert_eq!(package.unique_identifer, "");
    assert_eq!(package.version, "");
    assert_eq!(package.xml_lang, None);
    assert_eq!(package.base_dir, "");
    assert_eq!(package.toc_path(), None);
    assert!(matches!(read("<package a=b></package>"), Err(EPubError::XmlParseErr(1, _))));
    assert_eq!(read("<package>\u{fffd}").is_ok(), false);
    let bad = Package::read("a.opf", InputFile::new(vec![b'<', 0xff, b'>']));
    assert_eq!(bad.err(), Some(EPubError::UTF8));
    let bad = Package::read("a.opf", InputFile::failing_after(OPF.as_bytes().to_vec()));
    assert_eq!(bad.err(), Some(EPubError::IO));
}

#[test]
fn table_of_contents_is_read_from_its_document() {
    let toc = Toc::read(InputFile::new(NCX.as_bytes().to_vec())).unwrap();
    assert_eq!(toc.doc_title, "The Rust Programming Language");
    assert_eq!(toc.meta_entries.len(), 2);
    assert_eq!(toc.meta_entries[0].name, "dtb:uid");
    assert_eq!(toc.meta_entries[1].content, "1");
    assert_eq!(toc.nav_points.len(), 2);
    assert_eq!(toc.nav_points[0].id, "i1");
    assert_eq!(toc.nav_points[0].play_order, 1);
    assert_eq!(toc.nav_points[0].label, "Cover Page");
    assert_eq!(toc.nav_points[0].content, "xhtml/cover.xhtml");
    assert_eq!(toc.nav_points[1].id, "i2");
    assert_eq!(toc.nav_points[1].play_order, 2);
    assert_eq!(toc.nav_points[1].label, "Title Page");
    assert_eq!(toc.nav_points[1].content, "xhtml/title.xhtml");
}

#[test]
fn table_of_contents_refuses_faulty_points() {
    let read = |text: &str| Toc::read(InputFile::new(text.as_bytes().to_vec()));
    assert_eq!(read("<navMap><navPoint id=\"a\"></navPoint></navMap>").err(), Some(EPubError::InvalidXml));
    assert_eq!(
        read("<navMap><navPoint id=\"a\" playOrder=\"1\"><content/></navPoint></navMap>").err(),
        Some(EPubError::InvalidXml)
    );
    assert_eq!(read("<head><meta/></head>").err(), Some(EPubError::InvalidXml));
    assert_eq!(read("<a></b>").err(), Some(EPubError::InvalidXml));
    // a point outside the map is no point
    let toc = read("<navPoint id=\"a\"><text>x</text></navPoint>").unwrap();
    assert!(toc.nav_points.is_empty());
    let toc = read("").unwrap();
    assert!(toc.nav_points.is_empty());
    assert_eq!(toc.doc_title, "");
}

#[test]
fn root_file_is_read_from_the_container_document() {
    let container = Container::new("/book/expanded");
    let root = container
        .get_container_rootfile(InputFile::new(CONTAINER.as_bytes().to_vec()))
        .unwrap()
        .unwrap();
    assert_eq!(root.full_path, "/book/expanded/OEBPS/9781718500457.opf");
    assert_eq!(root.media_type, "application/oebps-package+xml");
    let none = container
        .get_container_rootfile(InputFile::new(b"<container><rootfiles></rootfiles></container>".to_vec()))
        .unwrap();
    assert!(none.is_none());
    let bad = container.get_container_rootfile(InputFile::new(
        b"<rootfiles><rootfile media-type=\"a\"/></rootfiles>".to_vec(),
    ));
    assert_eq!(bad.err(), Some(EPubError::InvalidXml));
    let events = parse_text("<rootfile full-path=\"a\" media-type=\"b\"/>").unwrap();
    assert!(container.rootfile_from_events(events).unwrap().is_none());
}

#[test]
fn documents_are_parsed_line_by_line() {
    let lines = vec!["<a x=\"1\">\n".to_string(), "text</a".to_string(), ">".to_string()];
    let events = parse_lines(&lines).unwrap();
    assert_eq!(events.len(), 3);
    assert!(matches!(&events[0], XmlEvent::ElementStart(tag) if tag.name == "a" && tag.attributes.len() == 1));
    assert!(matches!(&events[1], XmlEvent::Characters(text) if text == "\ntext"));
    assert!(matches!(&events[2], XmlEvent::ElementEnd(tag) if tag.name == "a"));
    assert!(parse_lines(&Vec::new()).unwrap().is_empty());
    let lines = vec!["<a>\n".to_string(), "<b c=d>".to_string()];
    assert_eq!(parse_lines(&lines).err(), Some(EPubError::XmlParseErr(2, 6)));
}

#[test]
fn text_that_the_parser_cannot_count_is_refused() {
    let long = format!("<a><![CDATA[{}>", "]".repeat(256));
    assert_eq!(parse_text(&long).err(), Some(EPubError::InvalidXml));
    let long = format!("<a>{}</a>", "]".repeat(300));
    assert_eq!(parse_text(&long).err(), Some(EPubError::InvalidXml));
    // across the end of a line
    let lines = vec![format!("<![CDATA[{}", "]".repeat(200)), "]".repeat(56)];
    assert_eq!(parse_lines(&lines).err(), Some(EPubError::InvalidXml));
    // the longest run that is taken
    let text = format!("<![CDATA[{}>", "]".repeat(255));
    let events = parse_text(&text).unwrap();
    assert!(matches!(&events[0], XmlEvent::CDATA(text) if text.len() == 253));
    let lines = vec![format!("<![CDATA[{}", "]".repeat(200)), format!("{}x]]>", "]".repeat(55))];
    let events = parse_lines(&lines).unwrap();
    assert!(matches!(&events[0], XmlEvent::CDATA(text) if text.len() == 256));
}
