//! A run directory as the instrument writes it, and where its parts go.
//!
//! The instrument names a run directory `<date>__<text>__<run ID>` and each of
//! its subdirectories `output-<machine>__<slide name>__<region>__<date>__<text>`.
//! A subdirectory is staged as `<slide ID>-<run ID>_<slide name>/xeniumranger`
//! below the staging directory of the slide's lab, beside a directory `design`.
use crate::error::{viewed, StagingError, StagingErrorView};
use crate::path::{file_name, path_file_name};
use crate::scan::{
    first_index, lemma_filter_empty, lemma_filter_step, lemma_first_index_is,
    lemma_first_index_none,
};
use crate::text::{delimiter_at, lemma_single_token, same_text, split, split_tokens};
use vstd::prelude::*;

verus! {

/// One subdirectory of a run directory: the output for one slide.
#[derive(Debug, PartialEq, Eq)]
pub struct SubDir {
    /// Where the subdirectory is.
    pub path: String,
    /// The slide name that the subdirectory's name holds.
    pub slide_name: String,
}

/// A `SubDir` with each text as a sequence of characters.
pub struct SubDirView {
    pub path: Seq<char>,
    pub slide_name: Seq<char>,
}

impl View for SubDir {
    type V = SubDirView;

    open spec fn view(&self) -> SubDirView {
        SubDirView { path: self.path@, slide_name: self.slide_name@ }
    }
}

impl DeepView for SubDir {
    type V = SubDirView;

    open spec fn deep_view(&self) -> SubDirView {
        self@
    }
}

/// A run directory whose name and entries have been read.
#[derive(Debug, PartialEq, Eq)]
pub struct ParsedDataDir {
    /// Where the run directory is.
    pub path: String,
    /// The run ID that the directory's name holds.
    pub run_id: String,
    /// The subdirectories, in the order in which they were listed.
    pub subdirs: Vec<SubDir>,
}

/// A `ParsedDataDir` with each text as a sequence of characters.
pub struct ParsedDataDirView {
    pub path: Seq<char>,
    pub run_id: Seq<char>,
    pub subdirs: Seq<SubDirView>,
}

impl View for ParsedDataDir {
    type V = ParsedDataDirView;

    open spec fn view(&self) -> ParsedDataDirView {
        ParsedDataDirView {
            path: self.path@,
            run_id: self.run_id@,
            subdirs: self.subdirs.deep_view(),
        }
    }
}

impl DeepView for ParsedDataDir {
    type V = ParsedDataDirView;

    open spec fn deep_view(&self) -> ParsedDataDirView {
        self@
    }
}

/// An entry of a run directory: its path, and the path's final component if it
/// has one.
#[derive(Debug, PartialEq, Eq)]
pub struct Listed {
    pub path: String,
    pub name: Option<String>,
}

/// A `Listed` with each text as a sequence of characters.
pub struct ListedView {
    pub path: Seq<char>,
    pub name: Option<Seq<char>>,
}

impl View for Listed {
    type V = ListedView;

    open spec fn view(&self) -> ListedView {
        ListedView { path: self.path@, name: self.name.deep_view() }
    }
}

impl DeepView for Listed {
    type V = ListedView;

    open spec fn deep_view(&self) -> ListedView {
        self@
    }
}

/// The run ID in the name of a run directory: the last of its tokens. A name
/// without a delimiter holds none.
pub open spec fn run_id_of(name: Seq<char>) -> Option<Seq<char>> {
    let tokens = split_tokens(name);
    if tokens.len() >= 2 {
        Some(tokens.last())
    } else {
        None
    }
}

/// The slide name in the name of a subdirectory: the second of its tokens. A
/// name without a delimiter holds none.
pub open spec fn slide_name_of(name: Seq<char>) -> Option<Seq<char>> {
    let tokens = split_tokens(name);
    if tokens.len() >= 2 {
        Some(tokens[1])
    } else {
        None
    }
}

/// What an entry of a run directory is.
pub enum Entry {
    /// The marker `.gitkeep`, which is passed over.
    Marker,
    /// A subdirectory for a slide.
    Output(SubDirView),
    /// An entry without a name, or whose name holds no slide name.
    Malformed,
}

/// What the entry `entry` is.
pub open spec fn entry_of(entry: ListedView) -> Entry {
    match entry.name {
        None => Entry::Malformed,
        Some(name) => if name == ".gitkeep"@ {
            Entry::Marker
        } else {
            match slide_name_of(name) {
                None => Entry::Malformed,
                Some(slide_name) => Entry::Output(SubDirView { path: entry.path, slide_name }),
            }
        },
    }
}

/// Whether the entry at a position is malformed.
pub open spec fn malformed_in(entries: Seq<ListedView>) -> spec_fn(int) -> bool {
    |i: int| entry_of(entries[i]) is Malformed
}

/// Whether an entry is a subdirectory for a slide.
pub open spec fn is_output() -> spec_fn(ListedView) -> bool {
    |entry: ListedView| entry_of(entry) is Output
}

/// The subdirectory that an entry is.
pub open spec fn output_of() -> spec_fn(ListedView) -> SubDirView {
    |entry: ListedView| entry_of(entry)->Output_0
}

/// The run ID of a run directory with the name `name`, if it has a name.
pub open spec fn named_run_id(name: Option<Seq<char>>) -> Option<Seq<char>> {
    match name {
        Some(name) => run_id_of(name),
        None => None,
    }
}

/// The run directory at `path` with the name `name` and the entries
/// `entries`. Its run ID is taken from the name; its subdirectories are the
/// entries but for the markers, in their order. The first malformed entry is
/// an error, and so is a name that holds no run ID.
pub open spec fn parsed_dir(path: Seq<char>, name: Option<Seq<char>>, entries: Seq<ListedView>) -> Result<
    ParsedDataDirView,
    StagingErrorView,
> {
    match named_run_id(name) {
        None => Err(StagingErrorView::MalformedRunName { path }),
        Some(run_id) => match first_index(entries.len() as int, malformed_in(entries)) {
            Some(i) => Err(StagingErrorView::MalformedSubdirName { path: entries[i].path }),
            None => Ok(
                ParsedDataDirView {
                    path,
                    run_id,
                    subdirs: entries.filter(is_output()).map_values(output_of()),
                },
            ),
        },
    }
}

/// The entries with the paths `paths`, each with its final component.
pub open spec fn listed(paths: Seq<Seq<char>>) -> Seq<ListedView> {
    Seq::new(paths.len(), |i: int| ListedView { path: paths[i], name: path_file_name(paths[i]) })
}

/// The run ID in the name `name` of a run directory.
pub fn parse_run_id(name: &str) -> (run_id: Option<String>)
    ensures
        run_id.deep_view() == run_id_of(name@),
{
    let mut tokens = split(name);
    assert(tokens.deep_view().len() == tokens.len());
    if tokens.len() >= 2 {
        let ghost all = tokens.deep_view();
        let last = tokens.pop();
        assert(all.last() == all[all.len() - 1]);
        last
    } else {
        None
    }
}

/// The slide name in the name `name` of a subdirectory.
pub fn parse_slide_name(name: &str) -> (slide_name: Option<String>)
    ensures
        slide_name.deep_view() == slide_name_of(name@),
{
    let tokens = split(name);
    assert(tokens.deep_view().len() == tokens.len());
    if tokens.len() >= 2 {
        assert(tokens.deep_view()[1] == tokens[1]@);
        Some(tokens[1].clone())
    } else {
        None
    }
}

impl ParsedDataDir {
    /// Reads the run directory at `dir`, whose entries have the paths
    /// `entries`, in the order in which the directory listed them.
    pub fn from_dir(dir: &str, entries: &Vec<String>) -> (parsed: Result<ParsedDataDir, StagingError>)
        ensures
            viewed(parsed) == parsed_dir(dir@, path_file_name(dir@), listed(entries.deep_view())),
    {
        let name = file_name(dir);
        let mut named: Vec<Listed> = Vec::new();
        let mut i: usize = 0;
        while i < entries.len()
            invariant
                i <= entries.len(),
                named.len() == i,
                forall|j: int|
                    0 <= j < i ==> (#[trigger] named[j])@ == listed(entries.deep_view())[j],
            decreases entries.len() - i,
        {
            let entry = Listed { path: entries[i].clone(), name: file_name(entries[i].as_str()) };
            named.push(entry);
            i = i + 1;
        }
        assert(named.deep_view() == listed(entries.deep_view()));
        Self::from_names(dir, name, &named)
    }

    /// The run directory at `dir` with the name `name` and the entries
    /// `entries`: `parsed_dir` of them.
    pub fn from_names(dir: &str, name: Option<String>, entries: &Vec<Listed>) -> (parsed: Result<
        ParsedDataDir,
        StagingError,
    >)
        ensures
            viewed(parsed) == parsed_dir(dir@, name.deep_view(), entries.deep_view()),
    {
        let ghost dir_name = name.deep_view();
        let run_id = match name {
            Some(name) => parse_run_id(name.as_str()),
            None => None,
        };
        let run_id = match run_id {
            Some(run_id) => run_id,
            None => {
                return Err(StagingError::MalformedRunName { path: dir.to_owned() });
            },
        };
        let ghost all = entries.deep_view();
        let mut subdirs: Vec<SubDir> = Vec::new();
        let mut i: usize = 0;
        proof {
            lemma_filter_empty(all.take(0), is_output());
        }
        while i < entries.len()
            invariant
                i <= entries.len(),
                all == entries.deep_view(),
                dir_name == name.deep_view(),
                named_run_id(dir_name) == Some(run_id@),
                forall|j: int| 0 <= j < i ==> !#[trigger] malformed_in(all)(j),
                subdirs.deep_view() == all.take(i as int).filter(is_output()).map_values(output_of()),
            decreases entries.len() - i,
        {
            let entry = &entries[i];
            assert(all[i as int] == entry@);
            proof {
                lemma_filter_step(all, is_output(), i as int);
            }
            let slide_name = match &entry.name {
                None => None,
                Some(name) => {
                    if same_text(name.as_str(), ".gitkeep") {
                        assert(entry_of(entry@) is Marker);
                        i = i + 1;
                        continue ;
                    }
                    parse_slide_name(name.as_str())
                },
            };
            match slide_name {
                Some(slide_name) => {
                    let ghost before = subdirs.deep_view();
                    let subdir = SubDir { path: entry.path.clone(), slide_name };
                    assert(entry_of(entry@) == Entry::Output(subdir@));
                    subdirs.push(subdir);
                    assert(subdirs.deep_view() == before.push(subdir@));
                },
                None => {
                    proof {
                        assert(malformed_in(all)(i as int));
                        lemma_first_index_is(all.len() as int, malformed_in(all), i as int);
                    }
                    return Err(StagingError::MalformedSubdirName { path: entry.path.clone() });
                },
            }
            i = i + 1;
        }
        proof {
            lemma_first_index_none(all.len() as int, malformed_in(all));
            assert(all.take(all.len() as int) == all);
        }
        Ok(ParsedDataDir { path: dir.to_owned(), run_id, subdirs })
    }
}

/// A name holds a run ID exactly when it holds a delimiter, and a slide name
/// likewise.
pub proof fn lemma_names_need_a_delimiter(name: Seq<char>)
    ensures
        run_id_of(name) is Some <==> exists|j: int| delimiter_at(name, j),
        slide_name_of(name) is Some <==> exists|j: int| delimiter_at(name, j),
{
    lemma_single_token(name);
}

/// A run directory whose name holds no delimiter is refused for its name,
/// whatever its entries are.
pub proof fn lemma_name_without_delimiter(path: Seq<char>, name: Seq<char>, entries: Seq<ListedView>)
    requires
        forall|j: int| !delimiter_at(name, j),
    ensures
        parsed_dir(path, Some(name), entries) == Err::<ParsedDataDirView, _>(
            StagingErrorView::MalformedRunName { path },
        ),
{
    lemma_single_token(name);
}

} // verus!
