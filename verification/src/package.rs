//! the EPub Package Document
//! https://www.w3.org/publishing/epub32/epub-packages.html#sec-package-doc
use vstd::prelude::*;
use crate::error::EPubError;
use crate::io::{lines_error, split_lines, InputFile};
use crate::path::{basename_and_ext, basename_and_ext_of, is_text_before, text_before};
use crate::sax::{
    event_views, file_events, is_text_file, read_document, same_text, text_view, text_views,
    StartTag, StartTagView, XmlEvent, XmlEventView, XML_NAMESPACE,
};

verus! {

/// Meta tag entry from opf file
#[derive(Debug)]
pub struct Meta {
    /// name - property name
    pub name: String,
    pub content: String,
}

/// What a [`Meta`] holds.
pub struct MetaView {
    pub name: Seq<char>,
    pub content: Seq<char>,
}

impl View for Meta {
    type V = MetaView;

    open spec fn view(&self) -> MetaView {
        MetaView { name: self.name@, content: self.content@ }
    }
}

/// What a sequence of meta entries holds.
pub open spec fn meta_views(metas: Seq<Meta>) -> Seq<MetaView> {
    metas.map_values(|meta: Meta| meta@)
}

/// The meta entry of a `meta` tag with the characters `chars` inside.
///
/// A tag with a `property` names it there and has its content inside. A
/// tag without has a `name` and a `content`. Any other tag gives nothing.
pub open spec fn meta_of(tag: StartTagView, chars: Seq<char>) -> Option<MetaView> {
    match tag.attribute("property"@) {
        Some(property) => Some(MetaView { name: property, content: chars }),
        None => match (tag.attribute("name"@), tag.attribute("content"@)) {
            (Some(name), Some(content)) => Some(MetaView { name, content }),
            _ => None,
        },
    }
}

impl Meta {
    /// create a new meta entry from xml tag 'meta'
    pub fn new(tag: &StartTag, chars: &str) -> (r: Result<Meta, EPubError>)
        ensures
            match meta_of(tag@, chars@) {
                Some(meta) => r matches Ok(made) && made@ == meta,
                None => r matches Err(e) && e == EPubError::InvalidXml,
            },
    {
        // opf3 version
        if let Some(prop) = tag.attribute("property") {
            Ok(Meta { name: prop.clone(), content: String::from_str(chars) })
            // or the opf2 version
        } else if let Some(name) = tag.attribute("name") {
            if let Some(content) = tag.attribute("content") {
                Ok(Meta { name: name.clone(), content: content.clone() })
            } else {
                Err(EPubError::InvalidXml)
            }
        } else {
            Err(EPubError::InvalidXml)
        }
    }
}

/// dc::identifier
#[derive(Debug)]
pub struct Identifier {
    pub id: String,
    pub text: String,
}

/// What an [`Identifier`] holds.
pub struct IdentifierView {
    pub id: Seq<char>,
    pub text: Seq<char>,
}

impl View for Identifier {
    type V = IdentifierView;

    open spec fn view(&self) -> IdentifierView {
        IdentifierView { id: self.id@, text: self.text@ }
    }
}

impl Identifier {
    /// An identifier that holds nothing yet.
    pub fn new() -> (identifier: Identifier)
        ensures
            identifier@ == (IdentifierView { id: Seq::empty(), text: Seq::empty() }),
    {
        Identifier { id: String::new(), text: String::new() }
    }

    /// Adds the `id` of an `identifier` tag and the characters inside it.
    /// A tag without `id` is refused, and nothing is added.
    pub fn add_tag(&mut self, tag: &StartTag, chars: &str) -> (r: Result<(), EPubError>)
        ensures
            match tag@.attribute("id"@) {
                Some(id) => r is Ok && final(self)@ == (IdentifierView {
                    id: old(self)@.id + id,
                    text: old(self)@.text + chars@,
                }),
                None => r == Err::<(), EPubError>(EPubError::InvalidXml) && final(self)@ == old(
                    self,
                )@,
            },
    {
        if let Some(id) = tag.attribute("id") {
            self.id.append(id.as_str());
            self.text.append(chars);
            Ok(())
        } else {
            Err(EPubError::InvalidXml)
        }
    }
}

/// item tag of opf file
#[derive(Debug)]
pub struct Item {
    pub id: String,
    pub href: String,
    pub media_type: String,
}

/// What an [`Item`] holds.
pub struct ItemView {
    pub id: Seq<char>,
    pub href: Seq<char>,
    pub media_type: Seq<char>,
}

impl View for Item {
    type V = ItemView;

    open spec fn view(&self) -> ItemView {
        ItemView { id: self.id@, href: self.href@, media_type: self.media_type@ }
    }
}

/// What a sequence of items holds.
pub open spec fn item_views(items: Seq<Item>) -> Seq<ItemView> {
    items.map_values(|item: Item| item@)
}

/// The item of an `item` tag: its `id`, `href` and `media-type`, where it
/// has all three.
pub open spec fn item_of(tag: StartTagView) -> Option<ItemView> {
    match (tag.attribute("id"@), tag.attribute("href"@), tag.attribute("media-type"@)) {
        (Some(id), Some(href), Some(media_type)) => Some(ItemView { id, href, media_type }),
        _ => None,
    }
}

impl Item {
    /// create a new item from the item tag
    pub fn new(tag: &StartTag) -> (r: Result<Item, EPubError>)
        ensures
            match item_of(tag@) {
                Some(item) => r matches Ok(made) && made@ == item,
                None => r matches Err(e) && e == EPubError::InvalidXml,
            },
    {
        if let Some(id) = tag.attribute("id") {
            if let Some(href) = tag.attribute("href") {
                if let Some(mtype) = tag.attribute("media-type") {
                    return Ok(
                        Item { id: id.clone(), href: href.clone(), media_type: mtype.clone() },
                    );
                }
            }
        }
        Err(EPubError::InvalidXml)
    }
}

/// Manifest section of opf file
#[derive(Debug)]
pub struct Manifest {
    pub items: Vec<Item>,
}

impl View for Manifest {
    type V = Seq<ItemView>;

    open spec fn view(&self) -> Seq<ItemView> {
        item_views(self.items@)
    }
}

impl Manifest {
    /// create a new manifest
    pub fn new() -> (manifest: Manifest)
        ensures
            manifest@ == Seq::<ItemView>::empty(),
    {
        let manifest = Manifest { items: Vec::new() };
        assert(manifest@ =~= Seq::<ItemView>::empty());
        manifest
    }

    /// add an item tag instance to the manifest
    pub fn add_tag(&mut self, tag: &StartTag) -> (r: Result<(), EPubError>)
        ensures
            match item_of(tag@) {
                Some(item) => r is Ok && final(self)@ == old(self)@.push(item),
                None => r == Err::<(), EPubError>(EPubError::InvalidXml) && final(self)@ == old(
                    self,
                )@,
            },
    {
        let item: Item = Item::new(tag)?;
        self.items.push(item);
        assert(self@ =~= old(self)@.push(item@));
        Ok(())
    }
}

/// itemref tag of opf file
#[derive(Debug)]
pub struct ItemRef {
    pub idref: String,
}

/// What a sequence of item references holds: the `idref` of each.
pub open spec fn itemref_views(itemrefs: Seq<ItemRef>) -> Seq<Seq<char>> {
    itemrefs.map_values(|itemref: ItemRef| itemref.idref@)
}

impl ItemRef {
    /// create a new itemref from the itemref tag
    pub fn new(tag: &StartTag) -> (r: Result<ItemRef, EPubError>)
        ensures
            match tag@.attribute("idref"@) {
                Some(idref) => r matches Ok(made) && made.idref@ == idref,
                None => r matches Err(e) && e == EPubError::InvalidXml,
            },
    {
        if let Some(id) = tag.attribute("idref") {
            Ok(ItemRef { idref: id.clone() })
        } else {
            Err(EPubError::InvalidXml)
        }
    }
}

/// spine section from opf file
#[derive(Debug)]
pub struct Spine {
    pub itemrefs: Vec<ItemRef>,
    pub toc: String,
}

/// What a [`Spine`] holds.
pub struct SpineView {
    pub itemrefs: Seq<Seq<char>>,
    pub toc: Seq<char>,
}

impl View for Spine {
    type V = SpineView;

    open spec fn view(&self) -> SpineView {
        SpineView { itemrefs: itemref_views(self.itemrefs@), toc: self.toc@ }
    }
}

/// The spine `spine` with the tag `tag`: a `spine` tag adds its `toc`, any
/// other tag its `idref` as a reference. A tag that lacks the attribute
/// gives nothing.
pub open spec fn spine_with_tag(spine: SpineView, tag: StartTagView) -> Option<SpineView> {
    if tag.name == "spine"@ {
        match tag.attribute("toc"@) {
            Some(toc) => Some(SpineView { toc: spine.toc + toc, ..spine }),
            None => None,
        }
    } else {
        match tag.attribute("idref"@) {
            Some(idref) => Some(SpineView { itemrefs: spine.itemrefs.push(idref), ..spine }),
            None => None,
        }
    }
}

impl Spine {
    /// create a new spine
    pub fn new() -> (spine: Spine)
        ensures
            spine@ == (SpineView { itemrefs: Seq::empty(), toc: Seq::empty() }),
    {
        let spine = Spine { itemrefs: Vec::new(), toc: String::new() };
        assert(spine@.itemrefs =~= Seq::<Seq<char>>::empty());
        spine
    }

    /// add an itemref tag instance to the spine
    pub fn add_tag(&mut self, tag: &StartTag) -> (r: Result<(), EPubError>)
        ensures
            match spine_with_tag(old(self)@, tag@) {
                Some(spine) => r is Ok && final(self)@ == spine,
                None => r == Err::<(), EPubError>(EPubError::InvalidXml) && final(self)@ == old(
                    self,
                )@,
            },
    {
        if same_text(tag.name.as_str(), "spine") {
            if let Some(toc) = tag.attribute("toc") {
                self.toc.append(toc.as_str());
                Ok(())
            } else {
                Err(EPubError::InvalidXml)
            }
        } else {
            let itemref: ItemRef = ItemRef::new(tag)?;
            self.itemrefs.push(itemref);
            assert(self@.itemrefs =~= old(self)@.itemrefs.push(itemref.idref@));
            Ok(())
        }
    }
}

/// Metadata section from opf file
#[derive(Debug)]
pub struct Metadata {
    /// package:unique-identifer
    pub identifier: Identifier,
    /// dc:title element
    pub title: String,
    /// dc::language
    pub language: Vec<String>,
    /// dc::contributor
    pub contributor: Option<String>,
    /// dc::coverage
    pub coverage: Option<String>,
    /// dc:creator
    pub creator: Vec<String>,
    /// dc:date
    pub date: Option<String>,
    /// dc::description
    pub description: Option<String>,
    /// dc::format
    pub format: Option<String>,
    /// dc::publisher
    pub publisher: Option<String>,
    /// dc::relation
    pub relation: Option<String>,
    /// dc::rights
    pub rights: Option<String>,
    /// dc::source
    pub source: Option<String>,
    /// dc::subject
    pub subject: Option<String>,
    /// dc::type
    pub metadata_type: Option<String>,
    /// list of `meta` tags
    pub meta_tags: Vec<Meta>,
}

/// What a [`Metadata`] holds.
pub struct MetadataView {
    pub identifier: IdentifierView,
    pub title: Seq<char>,
    pub language: Seq<Seq<char>>,
    pub contributor: Option<Seq<char>>,
    pub coverage: Option<Seq<char>>,
    pub creator: Seq<Seq<char>>,
    pub date: Option<Seq<char>>,
    pub description: Option<Seq<char>>,
    pub format: Option<Seq<char>>,
    pub publisher: Option<Seq<char>>,
    pub relation: Option<Seq<char>>,
    pub rights: Option<Seq<char>>,
    pub source: Option<Seq<char>>,
    pub subject: Option<Seq<char>>,
    pub metadata_type: Option<Seq<char>>,
    pub meta_tags: Seq<MetaView>,
}

impl View for Metadata {
    type V = MetadataView;

    open spec fn view(&self) -> MetadataView {
        MetadataView {
            identifier: self.identifier@,
            title: self.title@,
            language: text_views(self.language@),
            contributor: text_view(self.contributor),
            coverage: text_view(self.coverage),
            creator: text_views(self.creator@),
            date: text_view(self.date),
            description: text_view(self.description),
            format: text_view(self.format),
            publisher: text_view(self.publisher),
            relation: text_view(self.relation),
            rights: text_view(self.rights),
            source: text_view(self.source),
            subject: text_view(self.subject),
            metadata_type: text_view(self.metadata_type),
            meta_tags: meta_views(self.meta_tags@),
        }
    }
}

/// The metadata of a package of which nothing is known yet.
pub open spec fn empty_metadata() -> MetadataView {
    MetadataView {
        identifier: IdentifierView { id: Seq::empty(), text: Seq::empty() },
        title: Seq::empty(),
        language: Seq::empty(),
        contributor: None,
        coverage: None,
        creator: Seq::empty(),
        date: None,
        description: None,
        format: None,
        publisher: None,
        relation: None,
        rights: None,
        source: None,
        subject: None,
        metadata_type: None,
        meta_tags: Seq::empty(),
    }
}

/// The metadata `metadata` with the element that started with `tag` and
/// holds the characters `chars`.
///
/// The name of the tag says where the characters go: the title grows by
/// them, a language or a creator is added to those that are there, and of
/// the other elements the last one stays. An `identifier` needs its `id`
/// and a `meta` its attributes; without them nothing is given. An element
/// of any other name changes nothing.
pub open spec fn metadata_with_tag(metadata: MetadataView, tag: StartTagView, chars: Seq<char>)
    -> Option<MetadataView> {
    if tag.name == "identifier"@ {
        match tag.attribute("id"@) {
            Some(id) => Some(
                MetadataView {
                    identifier: IdentifierView {
                        id: metadata.identifier.id + id,
                        text: metadata.identifier.text + chars,
                    },
                    ..metadata
                },
            ),
            None => None,
        }
    } else if tag.name == "title"@ {
        Some(MetadataView { title: metadata.title + chars, ..metadata })
    } else if tag.name == "language"@ {
        Some(MetadataView { language: metadata.language.push(chars), ..metadata })
    } else if tag.name == "coverage"@ {
        Some(MetadataView { coverage: Some(chars), ..metadata })
    } else if tag.name == "creator"@ {
        Some(MetadataView { creator: metadata.creator.push(chars), ..metadata })
    } else if tag.name == "date"@ {
        Some(MetadataView { date: Some(chars), ..metadata })
    } else if tag.name == "description"@ {
        Some(MetadataView { description: Some(chars), ..metadata })
    } else if tag.name == "format"@ {
        Some(MetadataView { format: Some(chars), ..metadata })
    } else if tag.name == "publisher"@ {
        Some(MetadataView { publisher: Some(chars), ..metadata })
    } else if tag.name == "relation"@ {
        Some(MetadataView { relation: Some(chars), ..metadata })
    } else if tag.name == "rights"@ {
        Some(MetadataView { rights: Some(chars), ..metadata })
    } else if tag.name == "source"@ {
        Some(MetadataView { source: Some(chars), ..metadata })
    } else if tag.name == "subject"@ {
        Some(MetadataView { subject: Some(chars), ..metadata })
    } else if tag.name == "type"@ {
        Some(MetadataView { metadata_type: Some(chars), ..metadata })
    } else if tag.name == "meta"@ {
        match meta_of(tag, chars) {
            Some(meta) => Some(MetadataView { meta_tags: metadata.meta_tags.push(meta), ..metadata }),
            None => None,
        }
    } else {
        Some(metadata)
    }
}

impl Metadata {
    /// create a new Metadata instance
    pub fn new() -> (metadata: Metadata)
        ensures
            metadata@ == empty_metadata(),
    {
        let metadata = Metadata {
            identifier: Identifier::new(),
            title: String::new(),
            language: Vec::new(),
            contributor: None,
            coverage: None,
            creator: Vec::new(),
            date: None,
            description: None,
            format: None,
            publisher: None,
            relation: None,
            rights: None,
            source: None,
            subject: None,
            metadata_type: None,
            meta_tags: Vec::new(),
        };
        assert(metadata@.language =~= Seq::<Seq<char>>::empty());
        assert(metadata@.creator =~= Seq::<Seq<char>>::empty());
        assert(metadata@.meta_tags =~= Seq::<MetaView>::empty());
        metadata
    }

    /// add entry to the Metadata from xml tag
    pub fn add_tag(&mut self, tag: &StartTag, chars: &str) -> (r: Result<(), EPubError>)
        ensures
            match metadata_with_tag(old(self)@, tag@, chars@) {
                Some(metadata) => r is Ok && final(self)@ == metadata,
                None => r == Err::<(), EPubError>(EPubError::InvalidXml) && final(self)@ == old(
                    self,
                )@,
            },
    {
        let name: &str = tag.name.as_str();
        if same_text(name, "identifier") {
            self.identifier.add_tag(tag, chars)?;
        } else if same_text(name, "title") {
            // has optional attributes dir,id,xml:lang
            self.title.append(chars);
        } else if same_text(name, "language") {
            // has optional attributes id
            self.language.push(String::from_str(chars));
            assert(self@.language =~= old(self)@.language.push(chars@));
        } else if same_text(name, "coverage") {
            self.coverage = Some(String::from_str(chars));
        } else if same_text(name, "creator") {
            self.creator.push(String::from_str(chars));
            assert(self@.creator =~= old(self)@.creator.push(chars@));
        } else if same_text(name, "date") {
            self.date = Some(String::from_str(chars));
        } else if same_text(name, "description") {
            self.description = Some(String::from_str(chars));
        } else if same_text(name, "format") {
            self.format = Some(String::from_str(chars));
        } else if same_text(name, "publisher") {
            self.publisher = Some(String::from_str(chars));
        } else if same_text(name, "relation") {
            self.relation = Some(String::from_str(chars));
        } else if same_text(name, "rights") {
            self.rights = Some(String::from_str(chars));
        } else if same_text(name, "source") {
            self.source = Some(String::from_str(chars));
        } else if same_text(name, "subject") {
            self.subject = Some(String::from_str(chars));
        } else if same_text(name, "type") {
            self.metadata_type = Some(String::from_str(chars));
        } else if same_text(name, "meta") {
            let meta: Meta = Meta::new(tag, chars)?;
            self.meta_tags.push(meta);
            assert(self@.meta_tags =~= old(self)@.meta_tags.push(meta@));
        }
        Ok(())
    }
}

/// Package from EPub file
#[derive(Debug)]
pub struct Package {
    /// attribute `unique-identifier`
    pub unique_identifer: String,
    /// attribute `version`
    pub version: String,
    /// attribute `xml:lang`
    pub xml_lang: Option<String>,
    /// `metadata` section
    pub metadata: Metadata,
    /// `manifest` section
    pub manifest: Manifest,
    /// `spine` section
    pub spine: Spine,
    /// the base directory
    ///
    /// This is where the bulk of the books' files reside
    pub base_dir: String,
}

/// What a [`Package`] holds.
pub struct PackageView {
    pub unique_identifer: Seq<char>,
    pub version: Seq<char>,
    pub xml_lang: Option<Seq<char>>,
    pub metadata: MetadataView,
    pub manifest: Seq<ItemView>,
    pub spine: SpineView,
    pub base_dir: Seq<char>,
}

impl View for Package {
    type V = PackageView;

    open spec fn view(&self) -> PackageView {
        PackageView {
            unique_identifer: self.unique_identifer@,
            version: self.version@,
            xml_lang: text_view(self.xml_lang),
            metadata: self.metadata@,
            manifest: self.manifest@,
            spine: self.spine@,
            base_dir: self.base_dir@,
        }
    }
}

/// What a sequence of start tags holds.
pub open spec fn tag_views(tags: Seq<StartTag>) -> Seq<StartTagView> {
    tags.map_values(|tag: StartTag| tag@)
}

/// The text of an attribute that may be missing: nothing where it is.
pub open spec fn text_or_empty(text: Option<Seq<char>>) -> Seq<char> {
    match text {
        Some(text) => text,
        None => Seq::empty(),
    }
}

/// Where the reading of a package document stands.
pub struct PackageState {
    /// the start tags of the elements that are open
    pub stack: Seq<StartTagView>,
    /// the characters since the last start tag
    pub chars: Seq<char>,
    pub metadata: MetadataView,
    pub manifest: Seq<ItemView>,
    pub spine: SpineView,
    pub in_metadata: bool,
    pub in_manifest: bool,
    pub in_spine: bool,
    pub package_uid: Option<Seq<char>>,
    pub version: Option<Seq<char>>,
    pub xml_lang: Option<Seq<char>>,
}

/// The state before the first event of a package document.
pub open spec fn package_start() -> PackageState {
    PackageState {
        stack: Seq::empty(),
        chars: Seq::empty(),
        metadata: empty_metadata(),
        manifest: Seq::empty(),
        spine: SpineView { itemrefs: Seq::empty(), toc: Seq::empty() },
        in_metadata: false,
        in_manifest: false,
        in_spine: false,
        package_uid: None,
        version: None,
        xml_lang: None,
    }
}

/// The state after a start tag: the section that the tag opens is entered,
/// a `spine` tag gives its `toc`, the tag is kept until its element ends,
/// and the characters start anew.
pub open spec fn package_after_start(state: PackageState, tag: StartTagView) -> Option<
    PackageState,
> {
    let opened = PackageState { stack: state.stack.push(tag), chars: Seq::empty(), ..state };
    if tag.name == "metadata"@ {
        Some(PackageState { in_metadata: true, ..opened })
    } else if tag.name == "manifest"@ {
        Some(PackageState { in_manifest: true, ..opened })
    } else if tag.name == "spine"@ {
        match spine_with_tag(state.spine, tag) {
            Some(spine) => Some(PackageState { in_spine: true, spine, ..opened }),
            None => None,
        }
    } else {
        Some(opened)
    }
}

/// The state after the end tag `name`.
///
/// The element that ends is the one that was opened last; an end tag with
/// nothing open is passed over, one of another name than the start tag is
/// refused. The end of a section leaves the section, and the end of the
/// package gives the attributes of its start tag. An element that ends
/// inside a section is added to that section.
pub open spec fn package_after_end(state: PackageState, name: Seq<char>) -> Option<PackageState> {
    if state.stack.len() == 0 {
        Some(state)
    } else {
        let tag = state.stack.last();
        let closed = PackageState { stack: state.stack.drop_last(), ..state };
        let left = if name == "metadata"@ {
            PackageState { in_metadata: false, ..closed }
        } else if name == "package"@ {
            PackageState {
                package_uid: Some(text_or_empty(tag.attribute("unique-identifier"@))),
                version: Some(text_or_empty(tag.attribute("version"@))),
                xml_lang: tag.attribute_ns("lang"@, XML_NAMESPACE@),
                ..closed
            }
        } else if name == "manifest"@ {
            PackageState { in_manifest: false, ..closed }
        } else if name == "spine"@ {
            PackageState { in_spine: false, ..closed }
        } else {
            closed
        };
        if tag.name != name {
            None
        } else if left.in_metadata {
            match metadata_with_tag(left.metadata, tag, left.chars) {
                Some(metadata) => Some(PackageState { metadata, ..left }),
                None => None,
            }
        } else if left.in_manifest {
            match item_of(tag) {
                Some(item) => Some(PackageState { manifest: left.manifest.push(item), ..left }),
                None => None,
            }
        } else if left.in_spine {
            match spine_with_tag(left.spine, tag) {
                Some(spine) => Some(PackageState { spine, ..left }),
                None => None,
            }
        } else {
            Some(left)
        }
    }
}

/// Whether a run of characters is only the end of a line.
pub open spec fn is_line_end(text: Seq<char>) -> bool {
    text == "\n"@ || text == "\r\n"@
}

/// The state after one event. Characters are gathered, unless they are
/// only the end of a line; what is neither tag nor characters is passed
/// over.
pub open spec fn package_step(state: PackageState, event: XmlEventView) -> Option<PackageState> {
    match event {
        XmlEventView::ElementStart(tag) => package_after_start(state, tag),
        XmlEventView::ElementEnd(name) => package_after_end(state, name),
        XmlEventView::Characters(text) => if is_line_end(text) {
            Some(state)
        } else {
            Some(PackageState { chars: state.chars + text, ..state })
        },
        _ => Some(state),
    }
}

/// The state after a sequence of events, unless one of them is refused.
pub open spec fn package_fold(state: PackageState, events: Seq<XmlEventView>) -> Option<
    PackageState,
>
    decreases events.len(),
{
    if events.len() == 0 {
        Some(state)
    } else {
        match package_step(state, events[0]) {
            Some(next) => package_fold(next, events.skip(1)),
            None => None,
        }
    }
}

/// The package that was read: it needs the attributes of the `package` element.
pub open spec fn package_of(state: PackageState, base_dir: Seq<char>) -> Option<PackageView> {
    match (state.package_uid, state.version) {
        (Some(uid), Some(version)) => Some(
            PackageView {
                unique_identifer: uid,
                version,
                xml_lang: state.xml_lang,
                metadata: state.metadata,
                manifest: state.manifest,
                spine: state.spine,
                base_dir,
            },
        ),
        _ => None,
    }
}

/// The package that a sequence of events describes, if they describe one.
pub open spec fn package_from(events: Seq<XmlEventView>, base_dir: Seq<char>) -> Option<
    PackageView,
> {
    match package_fold(package_start(), events) {
        Some(state) => package_of(state, base_dir),
        None => None,
    }
}

/// The path of the first of `items` with the id `toc`, under `base_dir`.
pub open spec fn toc_path_among(items: Seq<ItemView>, toc: Seq<char>, base_dir: Seq<char>)
    -> Option<Seq<char>>
    decreases items.len(),
{
    if items.len() == 0 {
        None
    } else if items[0].id == toc {
        Some(base_dir + seq!['/'] + items[0].href)
    } else {
        toc_path_among(items.skip(1), toc, base_dir)
    }
}

/// The path of the table of contents of a package.
pub open spec fn toc_path_of(package: PackageView) -> Option<Seq<char>> {
    toc_path_among(package.manifest, package.spine.toc, package.base_dir)
}

/// Whether `r` is the outcome of reading the package document `file` with
/// the name `name`.
///
/// A file that cannot be read as text gives the error of reading its
/// lines, and a text that the parser refuses gives the parser's error.
/// Events that describe no package are invalid. Else the outcome is the
/// package that the events describe, with what stands in `name` before
/// the basename as its base directory.
pub open spec fn is_package_read(r: Result<Package, EPubError>, name: Seq<char>, file: InputFile)
    -> bool {
    if !is_text_file(file) {
        r == Err::<Package, EPubError>(lines_error(split_lines(file.remaining()), file.faulty()))
    } else {
        match file_events(file) {
            Err(e) => r == Err::<Package, EPubError>(e),
            Ok(events) => if package_from(events, Seq::empty()) is None {
                r == Err::<Package, EPubError>(EPubError::InvalidXml)
            } else {
                &&& r matches Ok(package)
                &&& Some(package@) == package_from(events, package@.base_dir)
                &&& is_text_before(package@.base_dir, name, basename_and_ext_of(name).0)
            },
        }
    }
}

/// The state of reading a package document.
struct PackageReader {
    stack: Vec<StartTag>,
    chars: String,
    metadata: Metadata,
    manifest: Manifest,
    spine: Spine,
    in_metadata: bool,
    in_manifest: bool,
    in_spine: bool,
    // the attributes on package
    package_uid: Option<String>,
    version: Option<String>,
    xml_lang: Option<String>,
}

impl View for PackageReader {
    type V = PackageState;

    closed spec fn view(&self) -> PackageState {
        PackageState {
            stack: tag_views(self.stack@),
            chars: self.chars@,
            metadata: self.metadata@,
            manifest: self.manifest@,
            spine: self.spine@,
            in_metadata: self.in_metadata,
            in_manifest: self.in_manifest,
            in_spine: self.in_spine,
            package_uid: text_view(self.package_uid),
            version: text_view(self.version),
            xml_lang: text_view(self.xml_lang),
        }
    }
}

impl PackageReader {
    /// A reader before the first event.
    fn new() -> (reader: PackageReader)
        ensures
            reader@ == package_start(),
    {
        let reader = PackageReader {
            stack: Vec::new(),
            chars: String::new(),
            metadata: Metadata::new(),
            manifest: Manifest::new(),
            spine: Spine::new(),
            in_metadata: false,
            in_manifest: false,
            in_spine: false,
            package_uid: None,
            version: None,
            xml_lang: None,
        };
        assert(reader@.stack =~= Seq::<StartTagView>::empty());
        reader
    }

    /// Takes a start tag.
    fn start(&mut self, tag: StartTag) -> (r: Result<(), EPubError>)
        ensures
            match package_after_start(old(self)@, tag@) {
                Some(state) => r is Ok && final(self)@ == state,
                None => r == Err::<(), EPubError>(EPubError::InvalidXml),
            },
    {
        if same_text(tag.name.as_str(), "metadata") {
            self.in_metadata = true;
        } else if same_text(tag.name.as_str(), "manifest") {
            self.in_manifest = true;
        } else if same_text(tag.name.as_str(), "spine") {
            self.in_spine = true;
            self.spine.add_tag(&tag)?;
        }
        self.stack.push(tag);
        self.chars = String::new();
        assert(self@.stack =~= old(self)@.stack.push(tag@));
        Ok(())
    }

    /// Takes the end tag `name`.
    fn end(&mut self, name: &str) -> (r: Result<(), EPubError>)
        ensures
            match package_after_end(old(self)@, name@) {
                Some(state) => r is Ok && final(self)@ == state,
                None => r == Err::<(), EPubError>(EPubError::InvalidXml),
            },
    {
        let ghost open = self@.stack;
        if let Some(start_tag) = self.stack.pop() {
            assert(self@.stack =~= open.drop_last());
            assert(start_tag@ == open.last());
            if same_text(name, "metadata") {
                self.in_metadata = false;
            } else if same_text(name, "package") {
                let (a1, a2, a3) = Package::collect_attributes(&start_tag);
                self.package_uid = Some(a1);
                self.version = Some(a2);
                self.xml_lang = a3;
            } else if same_text(name, "manifest") {
                self.in_manifest = false;
            } else if same_text(name, "spine") {
                self.in_spine = false;
            }
            if !same_text(start_tag.name.as_str(), name) {
                return Err(EPubError::InvalidXml);
            }
            if self.in_metadata {
                self.metadata.add_tag(&start_tag, self.chars.as_str())?;
            } else if self.in_manifest {
                self.manifest.add_tag(&start_tag)?;
            } else if self.in_spine {
                self.spine.add_tag(&start_tag)?;
            }
        } else {
            assert(open.len() == 0);
        }
        Ok(())
    }

    /// Takes one event.
    fn event(&mut self, event: XmlEvent) -> (r: Result<(), EPubError>)
        ensures
            match package_step(old(self)@, event@) {
                Some(state) => r is Ok && final(self)@ == state,
                None => r == Err::<(), EPubError>(EPubError::InvalidXml),
            },
    {
        match event {
            XmlEvent::ElementStart(tag) => self.start(tag),
            XmlEvent::ElementEnd(tag) => self.end(tag.name.as_str()),
            XmlEvent::Characters(s) => {
                if !same_text(s.as_str(), "\n") && !same_text(s.as_str(), "\r\n") {
                    self.chars.append(s.as_str());
                }
                Ok(())
            },
            _ => Ok(()),
        }
    }
}

impl Package {
    /// read the package data from the file
    ///
    /// The base directory is what stands in the file's name before the
    /// basename. The file is read as lines of text and parsed, and the
    /// package is built from the events as [`Package::from_events`] says.
    pub fn read(opf_file_name: &str, opf_file: InputFile) -> (r: Result<Package, EPubError>)
        requires
            opf_file.wf(),
        ensures
            is_package_read(r, opf_file_name@, opf_file),
    {
        // get the leading directories from the file name
        let base_name = basename_and_ext(opf_file_name);
        let base_dir: String = text_before(opf_file_name, base_name.0.as_str());
        let events: Vec<XmlEvent> = read_document(opf_file)?;
        Package::from_events(base_dir, events)
    }

    /// The path of the table of contents: the `href` of the first item of
    /// the manifest whose `id` the spine names as its `toc`, under the base
    /// directory. There is none where the manifest has no such item.
    pub fn toc_path(&self) -> (r: Option<String>)
        ensures
            text_view(r) == toc_path_of(self@),
    {
        let ghost items = self.manifest@;
        let mut i: usize = 0;
        assert(items.skip(0) =~= items);
        while i < self.manifest.items.len()
            invariant
                i <= self.manifest.items@.len(),
                items == self.manifest@,
                toc_path_of(self@) == toc_path_among(
                    items.skip(i as int),
                    self.spine.toc@,
                    self.base_dir@,
                ),
            decreases self.manifest.items@.len() - i,
        {
            let item = &self.manifest.items[i];
            assert(items.skip(i as int)[0] == item@);
            assert(items.skip(i as int).skip(1) =~= items.skip(i + 1));
            if same_text(item.id.as_str(), self.spine.toc.as_str()) {
                let mut tocpath: String = String::from_str(self.base_dir.as_str());
                tocpath.append("/");
                tocpath.append(item.href.as_str());
                proof {
                    reveal_strlit("/");
                    assert("/"@ =~= seq!['/']);
                }
                return Some(tocpath);
            }
            i += 1;
        }
        None
    }

    /// The attributes of the `package` element: its `unique-identifier`
    /// and its `version`, each empty where it is missing, and its
    /// `xml:lang`, if it has one.
    pub fn collect_attributes(start_tag: &StartTag) -> (r: (String, String, Option<String>))
        ensures
            r.0@ == text_or_empty(start_tag@.attribute("unique-identifier"@)),
            r.1@ == text_or_empty(start_tag@.attribute("version"@)),
            text_view(r.2) == start_tag@.attribute_ns("lang"@, XML_NAMESPACE@),
    {
        let mut uidstr: String = String::new();
        let mut verstr: String = String::new();
        let mut langstr: Option<String> = None;
        if let Some(uid) = start_tag.attribute("unique-identifier") {
            uidstr.append(uid.as_str());
            assert(uidstr@ =~= uid@);
        }
        if let Some(ver) = start_tag.attribute("version") {
            verstr.append(ver.as_str());
            assert(verstr@ =~= ver@);
        }
        // optional
        if let Some(lang) = start_tag.attribute_ns("lang", XML_NAMESPACE) {
            langstr = Some(lang.clone());
        }
        (uidstr, verstr, langstr)
    }

    /// Builds the package from the events of its document.
    ///
    /// The events are taken one by one, as [`package_step`] says. The
    /// first event that is refused ends the reading, and so does a
    /// document without a `package` element.
    pub fn from_events(base_dir: String, events: Vec<XmlEvent>) -> (r: Result<Package, EPubError>)
        ensures
            match package_from(event_views(events@), base_dir@) {
                Some(package) => r matches Ok(made) && made@ == package,
                None => r matches Err(e) && e == EPubError::InvalidXml,
            },
    {
        let ghost all = event_views(events@);
        let mut reader = PackageReader::new();
        assert(all.skip(0) =~= all);
        for event in it: events
            invariant
                it.seq() == events@,
                all == event_views(events@),
                package_fold(package_start(), all) == package_fold(
                    reader@,
                    all.skip(it.index() as int),
                ),
        {
            let ghost rest = all.skip(it.index() as int);
            assert(rest[0] == event@);
            assert(rest.skip(1) =~= all.skip(it.index() + 1));
            reader.event(event)?;
        }
        match (reader.package_uid, reader.version) {
            (Some(uid), Some(ver)) => Ok(
                Package {
                    unique_identifer: uid,
                    version: ver,
                    xml_lang: reader.xml_lang,
                    metadata: reader.metadata,
                    manifest: reader.manifest,
                    spine: reader.spine,
                    base_dir,
                },
            ),
            _ => Err(EPubError::InvalidXml),
        }
    }
}

} // verus!
