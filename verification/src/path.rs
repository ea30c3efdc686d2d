//! Paths as sequences of components.
//!
//! Names are the bytes in which the operating system encodes them. They need
//! not be Unicode.
use vstd::prelude::*;

verus! {

/// The prefix of a path, such as a drive, by the parts that `std::path::Prefix`
/// takes it into. Two prefixes are the same when their parts are, however they
/// are spelled.
#[derive(Debug, PartialEq, Eq)]
pub enum PathPrefix {
    Verbatim(Vec<u8>),
    VerbatimUNC(Vec<u8>, Vec<u8>),
    VerbatimDisk(u8),
    DeviceNS(Vec<u8>),
    UNC(Vec<u8>, Vec<u8>),
    Disk(u8),
}

/// What a [`PathPrefix`] stands for.
pub enum PathPrefixView {
    Verbatim(Seq<u8>),
    VerbatimUNC(Seq<u8>, Seq<u8>),
    VerbatimDisk(u8),
    DeviceNS(Seq<u8>),
    UNC(Seq<u8>, Seq<u8>),
    Disk(u8),
}

impl View for PathPrefix {
    type V = PathPrefixView;

    open spec fn view(&self) -> PathPrefixView {
        match *self {
            PathPrefix::Verbatim(name) => PathPrefixView::Verbatim(name@),
            PathPrefix::VerbatimUNC(server, share) => PathPrefixView::VerbatimUNC(server@, share@),
            PathPrefix::VerbatimDisk(letter) => PathPrefixView::VerbatimDisk(letter),
            PathPrefix::DeviceNS(name) => PathPrefixView::DeviceNS(name@),
            PathPrefix::UNC(server, share) => PathPrefixView::UNC(server@, share@),
            PathPrefix::Disk(letter) => PathPrefixView::Disk(letter),
        }
    }
}

/// A copy of bytes.
fn clone_bytes(bytes: &Vec<u8>) -> (res: Vec<u8>)
    ensures
        res@ == bytes@,
{
    let res = bytes.clone();
    assert(res@ =~= bytes@);
    res
}

/// Whether two byte sequences are the same.
fn same_bytes(first: &Vec<u8>, second: &Vec<u8>) -> (res: bool)
    ensures
        res == (first@ == second@),
{
    if first.len() != second.len() {
        return false;
    }
    let mut i: usize = 0;
    while i < first.len()
        invariant
            i <= first.len(),
            first.len() == second.len(),
            forall|j: int| 0 <= j < i ==> first@[j] == second@[j],
        decreases first.len() - i,
    {
        if first[i] != second[i] {
            return false;
        }
        i = i + 1;
    }
    assert(first@ =~= second@);
    true
}

impl Clone for PathPrefix {
    fn clone(&self) -> (res: Self)
        ensures
            res@ == self@,
    {
        match self {
            PathPrefix::Verbatim(name) => PathPrefix::Verbatim(clone_bytes(name)),
            PathPrefix::VerbatimUNC(server, share) => PathPrefix::VerbatimUNC(
                clone_bytes(server),
                clone_bytes(share),
            ),
            PathPrefix::VerbatimDisk(letter) => PathPrefix::VerbatimDisk(*letter),
            PathPrefix::DeviceNS(name) => PathPrefix::DeviceNS(clone_bytes(name)),
            PathPrefix::UNC(server, share) => PathPrefix::UNC(
                clone_bytes(server),
                clone_bytes(share),
            ),
            PathPrefix::Disk(letter) => PathPrefix::Disk(*letter),
        }
    }
}

impl PathPrefix {
    /// Whether two prefixes are the same.
    pub fn same_prefix(&self, other: &PathPrefix) -> (res: bool)
        ensures
            res == (self@ == other@),
    {
        match (self, other) {
            (PathPrefix::Verbatim(a), PathPrefix::Verbatim(b)) => same_bytes(a, b),
            (PathPrefix::VerbatimUNC(a, c), PathPrefix::VerbatimUNC(b, d)) => same_bytes(a, b)
                && same_bytes(c, d),
            (PathPrefix::VerbatimDisk(a), PathPrefix::VerbatimDisk(b)) => *a == *b,
            (PathPrefix::DeviceNS(a), PathPrefix::DeviceNS(b)) => same_bytes(a, b),
            (PathPrefix::UNC(a, c), PathPrefix::UNC(b, d)) => same_bytes(a, b) && same_bytes(c, d),
            (PathPrefix::Disk(a), PathPrefix::Disk(b)) => *a == *b,
            _ => false,
        }
    }
}

/// One component of a path.
#[derive(Debug, PartialEq, Eq)]
pub enum PathPart {
    /// A prefix such as a drive.
    Prefix(PathPrefix),
    /// The root directory.
    RootDir,
    /// A reference to the current directory.
    CurDir,
    /// A reference to the parent directory.
    ParentDir,
    /// A directory or file name.
    Normal(Vec<u8>),
}

/// What a [`PathPart`] stands for.
pub enum PathPartView {
    Prefix(PathPrefixView),
    RootDir,
    CurDir,
    ParentDir,
    Normal(Seq<u8>),
}

impl View for PathPart {
    type V = PathPartView;

    open spec fn view(&self) -> PathPartView {
        match *self {
            PathPart::Prefix(prefix) => PathPartView::Prefix(prefix@),
            PathPart::RootDir => PathPartView::RootDir,
            PathPart::CurDir => PathPartView::CurDir,
            PathPart::ParentDir => PathPartView::ParentDir,
            PathPart::Normal(name) => PathPartView::Normal(name@),
        }
    }
}

impl Clone for PathPart {
    fn clone(&self) -> (res: Self)
        ensures
            res@ == self@,
    {
        match self {
            PathPart::Prefix(prefix) => PathPart::Prefix(prefix.clone()),
            PathPart::RootDir => PathPart::RootDir,
            PathPart::CurDir => PathPart::CurDir,
            PathPart::ParentDir => PathPart::ParentDir,
            PathPart::Normal(name) => PathPart::Normal(clone_bytes(name)),
        }
    }
}

impl PathPart {
    /// Whether two components are the same.
    pub fn same_part(&self, other: &PathPart) -> (res: bool)
        ensures
            res == (self@ == other@),
    {
        match (self, other) {
            (PathPart::Prefix(a), PathPart::Prefix(b)) => a.same_prefix(b),
            (PathPart::RootDir, PathPart::RootDir) => true,
            (PathPart::CurDir, PathPart::CurDir) => true,
            (PathPart::ParentDir, PathPart::ParentDir) => true,
            (PathPart::Normal(a), PathPart::Normal(b)) => same_bytes(a, b),
            _ => false,
        }
    }
}

/// What a [`GitPath`] stands for: its components. Two spellings of one path,
/// such as one with a trailing separator, have the same components.
pub type PathView = Seq<PathPartView>;

/// A path, held as its components.
#[derive(Debug, PartialEq, Eq)]
pub struct GitPath {
    pub parts: Vec<PathPart>,
}

impl View for GitPath {
    type V = PathView;

    open spec fn view(&self) -> PathView {
        crate::views::seq_view(self.parts@)
    }
}

/// The last component of a path, if it is a name.
pub open spec fn file_name_of(path: PathView) -> Option<Seq<u8>> {
    if path.len() == 0 {
        None
    } else {
        match path.last() {
            PathPartView::Normal(name) => Some(name),
            _ => None,
        }
    }
}

/// The text that `String::from_utf8_lossy` makes of bytes that are not UTF-8.
pub uninterp spec fn lossy_text(bytes: Seq<u8>) -> Seq<char>;

/// The text of bytes: what they encode, where they are UTF-8, and otherwise
/// what is made of them with replacement characters.
pub open spec fn text_of(bytes: Seq<u8>) -> Seq<char> {
    if vstd::utf8::valid_utf8(bytes) {
        vstd::utf8::decode_utf8(bytes)
    } else {
        lossy_text(bytes)
    }
}

/// The text of bytes, by `String::from_utf8_lossy`. Bytes that are UTF-8 give
/// the text that they encode. Of other bytes nothing is said but that the text
/// depends on them alone; the function puts replacement characters where they
/// are not UTF-8.
#[verifier::external_body]
fn text_of_bytes(bytes: &Vec<u8>) -> (text: String)
    ensures
        vstd::utf8::valid_utf8(bytes@) ==> text@ == vstd::utf8::decode_utf8(bytes@),
        !vstd::utf8::valid_utf8(bytes@) ==> text@ == lossy_text(bytes@),
{
    String::from_utf8_lossy(bytes.as_slice()).into_owned()
}

/// The text of the last component of a path, if it is a name.
pub open spec fn display_name_of(path: PathView) -> Option<Seq<char>> {
    match file_name_of(path) {
        Some(name) => Some(text_of(name)),
        None => None,
    }
}

impl Clone for GitPath {
    fn clone(&self) -> (res: Self)
        ensures
            res@ == self@,
    {
        let parts = self.parts.clone();
        let res = GitPath { parts };
        assert(res@ =~= self@);
        res
    }
}

impl GitPath {
    /// Whether two paths have the same components.
    pub fn same_path(&self, other: &GitPath) -> (res: bool)
        ensures
            res == (self@ == other@),
    {
        if self.parts.len() != other.parts.len() {
            assert(self@.len() != other@.len());
            return false;
        }
        let mut i: usize = 0;
        while i < self.parts.len()
            invariant
                i <= self.parts.len(),
                self.parts.len() == other.parts.len(),
                forall|j: int| 0 <= j < i ==> #[trigger] self@[j] == other@[j],
            decreases self.parts.len() - i,
        {
            if !self.parts[i].same_part(&other.parts[i]) {
                assert(self@[i as int] != other@[i as int]);
                return false;
            }
            i = i + 1;
        }
        assert(self@ =~= other@);
        true
    }

    /// The name of the file or directory the path leads to. A path that ends in
    /// the root, in a prefix or in a reference has none.
    pub fn file_name(&self) -> (res: Option<&Vec<u8>>)
        ensures
            match res {
                Some(name) => file_name_of(self@) == Some(name@),
                None => file_name_of(self@) is None,
            },
    {
        let len: usize = self.parts.len();
        if len == 0 {
            return None;
        }
        assert(self@.last() == self.parts@[len - 1]@);
        match &self.parts[len - 1] {
            PathPart::Normal(name) => Some(name),
            _ => None,
        }
    }

    /// The name of the file or directory the path leads to, as text.
    pub fn display_name(&self) -> (res: Option<String>)
        ensures
            crate::views::option_view(res) == display_name_of(self@),
    {
        match self.file_name() {
            Some(name) => Some(text_of_bytes(name)),
            None => None,
        }
    }
}

} // verus!
