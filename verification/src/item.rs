//! The research items of a bibliography: their kinds, authors and files.

use vstd::prelude::*;

use crate::errors::EnumConversionError;
use vstd::string::StringExecFns;

use crate::text::{concat4, lowercase, owned, push_char, to_lowercase};

verus! {

/// Represents the type of a research item.
#[derive(Debug, Clone, Copy, PartialEq, Eq, Structural)]
pub enum ItemType {
    /// An article, such as a journal paper.
    Article,
    /// Miscellaneous items that don't fit into other categories.
    Misc,
}

impl ItemType {
    /// The name under which this kind is displayed and parsed.
    pub open spec fn spec_name(self) -> Seq<char> {
        match self {
            ItemType::Article => "article"@,
            ItemType::Misc => "misc"@,
        }
    }

    /// The kind that a string names, if any.
    pub open spec fn spec_parse(s: Seq<char>) -> Result<ItemType, EnumConversionError> {
        if s == "article"@ {
            Ok(ItemType::Article)
        } else if s == "misc"@ {
            Ok(ItemType::Misc)
        } else {
            Err(EnumConversionError)
        }
    }

    /// The displayed name of this kind: `article` or `misc`.
    pub fn to_string(&self) -> (s: String)
        ensures
            s@ == self.spec_name(),
    {
        match self {
            ItemType::Article => owned("article"),
            ItemType::Misc => owned("misc"),
        }
    }

    /// Parses a kind from its name; any other string is refused.
    pub fn parse(s: &str) -> (r: Result<ItemType, EnumConversionError>)
        ensures
            r == Self::spec_parse(s@),
    {
        if crate::text::str_eq(s, "article") {
            Ok(ItemType::Article)
        } else if crate::text::str_eq(s, "misc") {
            Ok(ItemType::Misc)
        } else {
            Err(EnumConversionError)
        }
    }
}

impl Default for ItemType {
    /// The default kind is `Misc`.
    fn default() -> (r: Self)
        ensures
            r == ItemType::Misc,
    {
        ItemType::Misc
    }
}

impl std::str::FromStr for ItemType {
    type Err = EnumConversionError;

    fn from_str(s: &str) -> (r: Result<Self, Self::Err>)
        ensures
            r == ItemType::spec_parse(s@),
    {
        ItemType::parse(s)
    }
}

/// Parsing the displayed name of an item kind gives the kind back.
pub proof fn lemma_item_type_round_trip(t: ItemType)
    ensures
        ItemType::spec_parse(t.spec_name()) == Ok::<ItemType, EnumConversionError>(t),
{
    reveal_strlit("article");
    reveal_strlit("misc");
    assert("article"@ != "misc"@) by {
        assert("article"@.len() != "misc"@.len());
    }
}

/// Represents the type of a file associated with a research item.
#[derive(Debug, Clone, Copy, PartialEq, Eq, Structural)]
pub enum FileType {
    /// A document, such as a PDF or Word file.
    Document,
    /// A snapshot of a webpage in a format such as an image or html file.
    Snapshot,
}

impl FileType {
    /// The name under which this kind is parsed.
    pub open spec fn spec_name(self) -> Seq<char> {
        match self {
            FileType::Document => "document"@,
            FileType::Snapshot => "snapshot"@,
        }
    }

    /// What this kind displays: its name written as a quoted string literal
    /// (the kind's `Display` formats the name with `{:?}`).
    pub open spec fn spec_display(self) -> Seq<char> {
        seq!['"'] + self.spec_name() + seq!['"']
    }

    /// The kind that a string names, if any.
    pub open spec fn spec_parse(s: Seq<char>) -> Result<FileType, EnumConversionError> {
        if s == "document"@ {
            Ok(FileType::Document)
        } else if s == "snapshot"@ {
            Ok(FileType::Snapshot)
        } else {
            Err(EnumConversionError)
        }
    }

    /// What this kind displays: `"document"` or `"snapshot"`, quotes included.
    pub fn to_string(&self) -> (s: String)
        ensures
            s@ == self.spec_display(),
    {
        let name = match self {
            FileType::Document => "document",
            FileType::Snapshot => "snapshot",
        };
        let mut s = String::new();
        push_char(&mut s, '"');
        s.append(name);
        push_char(&mut s, '"');
        assert(s@ =~= self.spec_display());
        s
    }

    /// Parses a kind from its name; any other string is refused.
    pub fn parse(s: &str) -> (r: Result<FileType, EnumConversionError>)
        ensures
            r == Self::spec_parse(s@),
    {
        if crate::text::str_eq(s, "document") {
            Ok(FileType::Document)
        } else if crate::text::str_eq(s, "snapshot") {
            Ok(FileType::Snapshot)
        } else {
            Err(EnumConversionError)
        }
    }
}

impl std::str::FromStr for FileType {
    type Err = EnumConversionError;

    fn from_str(s: &str) -> (r: Result<Self, Self::Err>)
        ensures
            r == FileType::spec_parse(s@),
    {
        FileType::parse(s)
    }
}

/// Parsing the name of a file kind gives the kind back.
pub proof fn lemma_file_type_round_trip(t: FileType)
    ensures
        FileType::spec_parse(t.spec_name()) == Ok::<FileType, EnumConversionError>(t),
{
    reveal_strlit("document");
    reveal_strlit("snapshot");
    assert("document"@ != "snapshot"@) by {
        assert("document"@[0] != "snapshot"@[0]);
    }
}

/// The abstract value of an author.
pub struct AuthorView {
    pub first_name: Seq<char>,
    pub last_name: Seq<char>,
}

/// Represents an author of a research item.
#[derive(Debug)]
pub struct Author {
    /// The first name of the author.
    pub first_name: String,
    /// The last name of the author.
    pub last_name: String,
}

impl View for Author {
    type V = AuthorView;

    open spec fn view(&self) -> AuthorView {
        AuthorView { first_name: self.first_name@, last_name: self.last_name@ }
    }
}

impl Clone for Author {
    fn clone(&self) -> (r: Self)
        ensures
            r@ == self@,
    {
        Author { first_name: self.first_name.clone(), last_name: self.last_name.clone() }
    }
}

/// The id of an author: the lowercased last name, `_`, the lowercased first name.
pub open spec fn author_id(a: AuthorView) -> Seq<char> {
    lowercase(a.last_name) + seq!['_'] + lowercase(a.first_name)
}

/// The displayed name of an author: `last, first`.
pub open spec fn author_name(a: AuthorView) -> Seq<char> {
    a.last_name + seq![',', ' '] + a.first_name
}

impl Author {
    /// Returns id of the author generated from the author name
    pub fn get_id(&self) -> (s: String)
        ensures
            s@ == author_id(self@),
    {
        let mut s = to_lowercase(self.last_name.as_str());
        push_char(&mut s, '_');
        let first = to_lowercase(self.first_name.as_str());
        s.append(first.as_str());
        s
    }

    /// Returns author name as string
    pub fn get_name(&self) -> (s: String)
        ensures
            s@ == author_name(self@),
    {
        let mut s = owned(self.last_name.as_str());
        push_char(&mut s, ',');
        push_char(&mut s, ' ');
        s.append(self.first_name.as_str());
        assert(s@ =~= author_name(self@));
        s
    }
}

/// The abstract value of a file.
pub struct FileView {
    pub id: Seq<char>,
    pub mime_type: Seq<char>,
}

/// Represents a file associated with a research item.
#[derive(Debug)]
pub struct File {
    /// The unique identifier/path for the file.
    pub id: String,
    /// The MIME type of the file, as its essence (`type/subtype`).
    pub mime_type: String,
}

impl View for File {
    type V = FileView;

    open spec fn view(&self) -> FileView {
        FileView { id: self.id@, mime_type: self.mime_type@ }
    }
}

impl Clone for File {
    fn clone(&self) -> (r: Self)
        ensures
            r@ == self@,
    {
        File { id: self.id.clone(), mime_type: self.mime_type.clone() }
    }
}

/// The URL under which a file is served: `/content/{collection}/{id}`.
pub open spec fn file_url(file: FileView, collection: Seq<char>) -> Seq<char> {
    "/content/"@ + collection + "/"@ + file.id
}

impl File {
    /// Generates a URL for accessing the file.
    pub fn get_url(&self, collection: &str) -> (s: String)
        ensures
            s@ == file_url(self@, collection@),
    {
        concat4("/content/", collection, "/", self.id.as_str())
    }
}

/// The abstract value of a research item.
pub struct ResearchItemView {
    pub id: Seq<char>,
    pub collection: Seq<char>,
    pub authors: Seq<AuthorView>,
    pub title: Seq<char>,
    pub summary: Option<Seq<char>>,
    pub publisher: Option<Seq<char>>,
    pub kind: Seq<char>,
    pub tags: Seq<Seq<char>>,
    pub files: Seq<FileView>,
}

/// The abstract value of an optional string.
pub open spec fn opt_view(o: Option<String>) -> Option<Seq<char>> {
    match o {
        Some(s) => Some(s@),
        None => None,
    }
}

/// The abstract values of a sequence of strings.
pub open spec fn strings_view(v: Seq<String>) -> Seq<Seq<char>> {
    v.map_values(|s: String| s@)
}

/// Represents a research item, such as an article or paper.
#[derive(Debug)]
pub struct ResearchItem {
    /// The unique identifier for the research item (usually the key in the bibtex format)
    pub id: String,
    /// Name of the base collection
    pub collection: String,
    /// A list of authors of the research item.
    pub authors: Vec<Author>,
    /// The title of the research item.
    pub title: String,
    /// An optional summary or abstract of the research item.
    pub summary: Option<String>,
    /// An optional publisher of the research item.
    pub publisher: Option<String>,
    /// The type of the research item, as displayed.
    pub kind: String,
    /// List of tags for this item
    pub tags: Vec<String>,
    /// A list of files associated with the research item.
    pub files: Vec<File>,
}

impl View for ResearchItem {
    type V = ResearchItemView;

    open spec fn view(&self) -> ResearchItemView {
        ResearchItemView {
            id: self.id@,
            collection: self.collection@,
            authors: self.authors@.map_values(|a: Author| a@),
            title: self.title@,
            summary: opt_view(self.summary),
            publisher: opt_view(self.publisher),
            kind: self.kind@,
            tags: strings_view(self.tags@),
            files: self.files@.map_values(|f: File| f@),
        }
    }
}

fn clone_opt(o: &Option<String>) -> (r: Option<String>)
    ensures
        opt_view(r) == opt_view(*o),
{
    match o {
        Some(s) => Some(s.clone()),
        None => None,
    }
}

fn clone_authors(v: &Vec<Author>) -> (r: Vec<Author>)
    ensures
        r@.map_values(|a: Author| a@) == v@.map_values(|a: Author| a@),
{
    let mut r: Vec<Author> = Vec::new();
    let mut i: usize = 0;
    while i < v.len()
        invariant
            i <= v@.len(),
            r@.len() == i,
            forall|j: int| 0 <= j < i ==> r@[j]@ == v@[j]@,
        decreases v@.len() - i,
    {
        r.push(v[i].clone());
        i = i + 1;
    }
    assert(r@.map_values(|a: Author| a@) =~= v@.map_values(|a: Author| a@));
    r
}

fn clone_files(v: &Vec<File>) -> (r: Vec<File>)
    ensures
        r@.map_values(|f: File| f@) == v@.map_values(|f: File| f@),
{
    let mut r: Vec<File> = Vec::new();
    let mut i: usize = 0;
    while i < v.len()
        invariant
            i <= v@.len(),
            r@.len() == i,
            forall|j: int| 0 <= j < i ==> r@[j]@ == v@[j]@,
        decreases v@.len() - i,
    {
        r.push(v[i].clone());
        i = i + 1;
    }
    assert(r@.map_values(|f: File| f@) =~= v@.map_values(|f: File| f@));
    r
}

fn clone_strings(v: &Vec<String>) -> (r: Vec<String>)
    ensures
        strings_view(r@) == strings_view(v@),
{
    let mut r: Vec<String> = Vec::new();
    let mut i: usize = 0;
    while i < v.len()
        invariant
            i <= v@.len(),
            r@.len() == i,
            forall|j: int| 0 <= j < i ==> r@[j]@ == v@[j]@,
        decreases v@.len() - i,
    {
        r.push(v[i].clone());
        i = i + 1;
    }
    assert(strings_view(r@) =~= strings_view(v@));
    r
}

impl Clone for ResearchItem {
    fn clone(&self) -> (r: Self)
        ensures
            r@ == self@,
    {
        ResearchItem {
            id: self.id.clone(),
            collection: self.collection.clone(),
            authors: clone_authors(&self.authors),
            title: self.title.clone(),
            summary: clone_opt(&self.summary),
            publisher: clone_opt(&self.publisher),
            kind: self.kind.clone(),
            tags: clone_strings(&self.tags),
            files: clone_files(&self.files),
        }
    }
}

impl Default for ResearchItem {
    /// An item with empty strings, no authors, tags or files, and no summary or publisher.
    fn default() -> (r: Self)
        ensures
            r@.id == Seq::<char>::empty(),
            r@.collection == Seq::<char>::empty(),
            r@.authors == Seq::<AuthorView>::empty(),
            r@.title == Seq::<char>::empty(),
            r@.summary is None,
            r@.publisher is None,
            r@.kind == Seq::<char>::empty(),
            r@.tags == Seq::<Seq<char>>::empty(),
            r@.files == Seq::<FileView>::empty(),
    {
        let r = ResearchItem {
            id: String::new(),
            collection: String::new(),
            authors: Vec::new(),
            title: String::new(),
            summary: None,
            publisher: None,
            kind: String::new(),
            tags: Vec::new(),
            files: Vec::new(),
        };
        assert(r@.authors =~= Seq::<AuthorView>::empty());
        assert(r@.tags =~= Seq::<Seq<char>>::empty());
        assert(r@.files =~= Seq::<FileView>::empty());
        r
    }
}

} // verus!
