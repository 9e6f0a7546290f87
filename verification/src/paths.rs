//! File-system path arithmetic from `std::path`, on text paths.
//!
//! `std::path` parses a path by the rules of the platform the crate is
//! built for; each name below stands for that parse, which depends on the
//! text of its arguments alone.

use vstd::prelude::*;

use std::path::Component;

verus! {

/// One component of a path, as `std::path::Component` gives it.
#[derive(Debug)]
pub enum PathPart {
    /// A Windows path prefix, such as `C:`, with its text.
    Prefix(String),
    /// The root directory.
    Root,
    /// `.`
    Current,
    /// `..`
    Parent,
    /// A named component.
    Normal(String),
}

impl View for PathPart {
    /// The component's kind, ranked in the order in which std orders the
    /// kinds, with its text (empty for the root, `.` and `..`).
    type V = (u8, Seq<char>);

    open spec fn view(&self) -> (u8, Seq<char>) {
        match self {
            PathPart::Prefix(t) => (0, t@),
            PathPart::Root => (1, Seq::empty()),
            PathPart::Current => (2, Seq::empty()),
            PathPart::Parent => (3, Seq::empty()),
            PathPart::Normal(t) => (4, t@),
        }
    }
}

/// The components of a path, each by its view.
pub open spec fn parts_view(v: Seq<PathPart>) -> Seq<(u8, Seq<char>)> {
    v.map_values(|x: PathPart| x@)
}

/// Whether `std::path::Path::is_absolute` holds of the path.
pub uninterp spec fn path_is_absolute(p: Seq<char>) -> bool;

/// The number of components `std::path::Path::components` yields.
pub uninterp spec fn path_component_count(p: Seq<char>) -> nat;

/// The components `std::path::Path::components` yields, each as its kind's
/// rank and its text (see `PathPart`).
pub uninterp spec fn path_parts(p: Seq<char>) -> Seq<(u8, Seq<char>)>;

/// The text of `std::path::Path::parent`, when the path has a parent.
pub uninterp spec fn path_parent(p: Seq<char>) -> Option<Seq<char>>;

/// The text of `std::path::Path::join`.
pub uninterp spec fn path_join(base: Seq<char>, rel: Seq<char>) -> Seq<char>;

/// The text of `std::path::Path::extension`, when the path has one.
pub uninterp spec fn path_extension(p: Seq<char>) -> Option<Seq<char>>;

/// The text of `std::path::Path::with_extension`.
pub uninterp spec fn path_with_extension(p: Seq<char>, ext: Seq<char>) -> Seq<char>;

/// `std::path::Path::is_absolute`: the result is the name applied to the path.
#[verifier::external_body]
pub(crate) fn is_absolute(p: &str) -> (r: bool)
    ensures
        r == path_is_absolute(p@),
{
    std::path::Path::new(p).is_absolute()
}

/// The count of `std::path::Path::components`: the name applied to the path.
#[verifier::external_body]
pub(crate) fn component_count(p: &str) -> (r: usize)
    ensures
        r == path_component_count(p@),
{
    std::path::Path::new(p).components().count()
}

/// `std::path::Path::components`, each component turned into a
/// `PathPart`: the name applied to the path.
#[verifier::external_body]
pub(crate) fn components(p: &str) -> (r: Vec<PathPart>)
    ensures
        parts_view(r@) == path_parts(p@),
{
    std::path::Path::new(p).components().map(|c| match c {
        Component::Prefix(x) => PathPart::Prefix(x.as_os_str().to_string_lossy().into_owned()),
        Component::RootDir => PathPart::Root,
        Component::CurDir => PathPart::Current,
        Component::ParentDir => PathPart::Parent,
        Component::Normal(x) => PathPart::Normal(x.to_string_lossy().into_owned()),
    }).collect()
}

/// `std::path::Path::parent`, as text: the name applied to the path.
/// A path built from text converts back to the same text.
#[verifier::external_body]
pub(crate) fn parent(p: &str) -> (r: Option<String>)
    ensures
        match r {
            Some(q) => path_parent(p@) == Some(q@),
            None => path_parent(p@) is None,
        },
{
    match std::path::Path::new(p).parent() {
        Some(q) => Some(q.to_string_lossy().into_owned()),
        None => None,
    }
}

/// `std::path::Path::join`, as text: the name applied to both paths.
#[verifier::external_body]
pub(crate) fn join(base: &str, rel: &str) -> (r: String)
    ensures
        r@ == path_join(base@, rel@),
{
    std::path::Path::new(base).join(rel).to_string_lossy().into_owned()
}

/// `std::path::Path::with_extension`, as text: the name applied to the
/// path and the extension. The extension holds no path separator (`/`,
/// or `\\` on Windows): std panics on one.
#[verifier::external_body]
pub(crate) fn with_extension(p: &str, ext: &str) -> (r: String)
    requires
        forall|i: int| 0 <= i < ext@.len() ==> #[trigger] ext@[i] != '/' && ext@[i] != '\\',
    ensures
        r@ == path_with_extension(p@, ext@),
{
    std::path::Path::new(p).with_extension(ext).to_string_lossy().into_owned()
}

/// `std::path::Path::extension`, as text: the name applied to the path.
/// An extension taken from a path built from text converts back to the
/// same text.
#[verifier::external_body]
pub(crate) fn extension(p: &str) -> (r: Option<String>)
    ensures
        match r {
            Some(e) => path_extension(p@) == Some(e@),
            None => path_extension(p@) is None,
        },
{
    match std::path::Path::new(p).extension() {
        Some(e) => Some(e.to_string_lossy().into_owned()),
        None => None,
    }
}

} // verus!
