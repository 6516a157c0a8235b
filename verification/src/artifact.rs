//! Where a day's artifact lies, and what tells that it is there.
//!
//! An artifact is the file `data/<YYYY>/<MM>/<DD>.csv`, or
//! `data/<source>/<YYYY>/<MM>/<DD>.csv` for a store that is named after its
//! source. That file, or the same path with the suffix of a compressed copy,
//! is the only mark that a day was fetched.

use crate::calendar::date_text;
use crate::calendar::year_month_text;
use crate::calendar::Day;
use vstd::prelude::*;

verus! {

/// The directory that holds all artifacts of a store.
pub open spec fn root_text(source: Option<Seq<char>>) -> Seq<char> {
    match source {
        None => "data/"@,
        Some(name) => "data/"@ + name + "/"@,
    }
}

/// The directory of the month of `day`.
pub open spec fn directory_text(source: Option<Seq<char>>, day: Day) -> Seq<char> {
    root_text(source) + year_month_text(day.spec_year(), day.spec_month())
}

/// The path of the artifact of `day`.
pub open spec fn filename_text(source: Option<Seq<char>>, day: Day) -> Seq<char> {
    root_text(source) + date_text(day.spec_year(), day.spec_month(), day.spec_day()) + ".csv"@
}

/// The path at which a compressed copy of the artifact at `path` lies.
pub open spec fn compressed_text(path: Seq<char>) -> Seq<char> {
    path + ".zst"@
}

/// The path at which the artifact at `path` is written before it is moved
/// into place.
pub open spec fn temporary_text(path: Seq<char>) -> Seq<char> {
    path + ".part"@
}

/// The two paths of which either marks a day as fetched.
#[derive(Clone, Debug, PartialEq, Eq)]
pub struct ArtifactProbe {
    pub primary: String,
    pub compressed: String,
}

/// The layout of the artifacts of one source.
#[derive(Debug, PartialEq, Eq)]
pub struct ArtifactStore {
    source: Option<String>,
}

impl View for ArtifactStore {
    type V = Option<Seq<char>>;

    closed spec fn view(&self) -> Option<Seq<char>> {
        match self.source {
            None => None,
            Some(name) => Some(name@),
        }
    }
}

impl Clone for ArtifactStore {
    fn clone(&self) -> (copy: ArtifactStore)
        ensures
            copy@ == self@,
    {
        match &self.source {
            None => ArtifactStore { source: None },
            Some(name) => ArtifactStore { source: Some(name.clone()) },
        }
    }
}

impl ArtifactStore {
    /// The store directly under `data/`.
    pub fn new() -> (store: ArtifactStore)
        ensures
            store@ == None::<Seq<char>>,
    {
        ArtifactStore { source: None }
    }

    /// The store under `data/<source>/`.
    pub fn named(source: String) -> (store: ArtifactStore)
        ensures
            store@ == Some(source@),
    {
        ArtifactStore { source: Some(source) }
    }

    fn root(&self) -> (path: String)
        ensures
            path@ == root_text(self@),
    {
        let mut path = "data/".to_string();
        match &self.source {
            None => {},
            Some(name) => {
                path.append(name.as_str());
                path.append("/");
            },
        }
        path
    }

    /// The path of the artifact of `date`.
    pub fn get_filename_for(&self, date: Day) -> (path: String)
        ensures
            path@ == filename_text(self@, date),
    {
        let mut path = self.root();
        path.append(date.date_path().as_str());
        path.append(".csv");
        path
    }

    /// The directory in which the artifact of `date` lies.
    pub fn directory_for(&self, date: Day) -> (path: String)
        ensures
            path@ == directory_text(self@, date),
    {
        let mut path = self.root();
        path.append(date.month_path().as_str());
        path
    }

    /// The two paths to look at for `date`.
    pub fn probe(&self, date: Day) -> (probe: ArtifactProbe)
        ensures
            probe.primary@ == filename_text(self@, date),
            probe.compressed@ == compressed_text(filename_text(self@, date)),
    {
        let primary = self.get_filename_for(date);
        let compressed = compressed_variant(primary.as_str());
        ArtifactProbe { primary, compressed }
    }

    /// Whether a day counts as fetched, given which of its two paths are
    /// there: either is enough.
    pub fn is_present(primary_present: bool, compressed_present: bool) -> (present: bool)
        ensures
            present == (primary_present || compressed_present),
    {
        primary_present || compressed_present
    }
}

/// The path of the compressed copy of the artifact at `path`.
pub fn compressed_variant(path: &str) -> (compressed: String)
    ensures
        compressed@ == compressed_text(path@),
{
    let mut compressed = path.to_string();
    compressed.append(".zst");
    compressed
}

/// The path at which to write the artifact at `path` until it is complete.
pub fn temporary_variant(path: &str) -> (temporary: String)
    ensures
        temporary@ == temporary_text(path@),
{
    let mut temporary = path.to_string();
    temporary.append(".part");
    temporary
}

/// A file that is still being written is no mark of a fetched day: its path
/// is neither the artifact's nor that of the compressed copy.
pub proof fn lemma_temporary_is_no_marker(path: Seq<char>)
    ensures
        temporary_text(path) != path,
        temporary_text(path) != compressed_text(path),
{
    reveal_strlit(".part");
    reveal_strlit(".zst");
    assert(temporary_text(path).len() == path.len() + 5);
    assert(compressed_text(path).len() == path.len() + 4);
}

/// The artifacts of different days lie at different paths, so the tasks of
/// two days never write to the same file.
pub proof fn lemma_paths_are_unique(source: Option<Seq<char>>, a: Day, b: Day)
    requires
        a.wf(),
        b.wf(),
        a != b,
    ensures
        filename_text(source, a) != filename_text(source, b),
{
    let first = filename_text(source, a);
    let second = filename_text(source, b);
    let root = root_text(source);
    let date_a = date_text(a.spec_year(), a.spec_month(), a.spec_day());
    let date_b = date_text(b.spec_year(), b.spec_month(), b.spec_day());
    crate::calendar::lemma_date_text_chars(a.spec_year(), a.spec_month(), a.spec_day());
    crate::calendar::lemma_date_text_chars(b.spec_year(), b.spec_month(), b.spec_day());
    if first == second {
        assert(first.subrange(root.len() as int, (root.len() + 10) as int) =~= date_a);
        assert(second.subrange(root.len() as int, (root.len() + 10) as int) =~= date_b);
        crate::calendar::lemma_date_text_injective(
            a.spec_year(),
            a.spec_month(),
            a.spec_day(),
            b.spec_year(),
            b.spec_month(),
            b.spec_day(),
        );
        a.lemma_parts_identify(b);
    }
}

} // verus!
