//! Settings: which editor to open and where the journal lies, by what the
//! user has set, in a fixed order of precedence.

use vstd::prelude::*;

verus! {

/// The editor used where none is set.
pub open spec fn default_editor() -> Seq<char> {
    seq!['v', 'i', 'm']
}

/// The name of the journal file where no path is set.
pub open spec fn default_file_name() -> Seq<char> {
    seq!['t', 'o', 'd', 'o', '.', 't', 'x', 't']
}

/// Where the journal lies.
#[derive(Debug)]
pub enum JournalLocation {
    /// At the path that the user has set.
    Given(String),
    /// Under the default name in the user's home directory.
    Home,
    /// Under the default name in the current directory.
    CurrentDir,
}

/// A location as a mathematical value.
pub enum JournalLocationView {
    Given(Seq<char>),
    Home,
    CurrentDir,
}

impl View for JournalLocation {
    type V = JournalLocationView;

    open spec fn view(&self) -> JournalLocationView {
        match *self {
            JournalLocation::Given(path) => JournalLocationView::Given(path@),
            JournalLocation::Home => JournalLocationView::Home,
            JournalLocation::CurrentDir => JournalLocationView::CurrentDir,
        }
    }
}

/// The editor to open: the one set first, then the one set second, then
/// the default.
pub fn choose_editor(first: Option<String>, second: Option<String>) -> (name: String)
    ensures
        name@ == match (first, second) {
            (Some(a), _) => a@,
            (None, Some(b)) => b@,
            (None, None) => default_editor(),
        },
{
    match first {
        Some(a) => a,
        None => match second {
            Some(b) => b,
            None => {
                let mut name = String::new();
                name.push('v');
                name.push('i');
                name.push('m');
                assert(name@ =~= default_editor());
                name
            },
        },
    }
}

/// Where the journal lies: at the path set, else in the home directory
/// where one is known, else in the current directory.
pub fn choose_journal_location(given: Option<String>, home_known: bool) -> (place: JournalLocation)
    ensures
        place@ == match given {
            Some(path) => JournalLocationView::Given(path@),
            None => if home_known {
                JournalLocationView::Home
            } else {
                JournalLocationView::CurrentDir
            },
        },
{
    match given {
        Some(path) => JournalLocation::Given(path),
        None => if home_known {
            JournalLocation::Home
        } else {
            JournalLocation::CurrentDir
        },
    }
}

/// The name of the journal file where no path is set.
pub fn journal_file_name() -> (name: String)
    ensures
        name@ == default_file_name(),
{
    let name = "todo.txt".to_owned();
    proof {
        reveal_strlit("todo.txt");
        assert(name@ =~= default_file_name());
    }
    name
}

} // verus!
