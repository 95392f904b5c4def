//! The mail client's list of profiles, and the profile that is in use.
//!
//! The client keeps the list in an INI file in its home directory. Each of
//! its installations has a section there whose name begins with
//! [`INSTALL_PREFIX`], and names its profile under the key [`DEFAULT_KEY`].

use crate::text::{order_of, Order};
use vstd::prelude::*;
use vstd::string::*;

verus! {

/// The mail client's directory below the user's home directory.
pub const CLIENT_HOME: &'static str = ".thunderbird";

/// The file of profiles in the client's home directory.
pub const PROFILES_FILE: &'static str = "profiles.ini";

/// What the name of an installation's section begins with.
pub const INSTALL_PREFIX: &'static str = "Install";

/// The key under which an installation names its profile.
pub const DEFAULT_KEY: &'static str = "Default";

/// The directories below a profile that lead to the watch root.
pub const MAIL_DIRECTORY: &'static str = "ImapMail";

/// The watch root below [`MAIL_DIRECTORY`].
pub const WATCH_DIRECTORY: &'static str = "tbunread";

/// One section of the file: its name, if it has one, and its keys with their
/// values in the order of the file.
#[derive(Debug, PartialEq, Eq)]
pub struct Section {
    pub name: Option<String>,
    pub properties: Vec<(String, String)>,
}

/// What a [`Section`] holds.
pub struct SectionView {
    pub name: Option<Seq<char>>,
    pub properties: Seq<(Seq<char>, Seq<char>)>,
}

impl View for Section {
    type V = SectionView;

    open spec fn view(&self) -> SectionView {
        SectionView {
            name: match self.name {
                Some(name) => Some(name@),
                None => None,
            },
            properties: self.properties.deep_view(),
        }
    }
}

impl DeepView for Section {
    type V = SectionView;

    open spec fn deep_view(&self) -> SectionView {
        self@
    }
}

/// `text` begins with `prefix`.
pub open spec fn begins_with(text: Seq<char>, prefix: Seq<char>) -> bool {
    &&& prefix.len() <= text.len()
    &&& forall|i: int| 0 <= i < prefix.len() ==> text[i] == prefix[i]
}

/// The value of the last of the first `n` properties whose key is
/// [`DEFAULT_KEY`].
pub open spec fn last_default_upto(properties: Seq<(Seq<char>, Seq<char>)>, n: int) -> Option<
    Seq<char>,
>
    decreases n,
{
    if n <= 0 {
        None
    } else if properties[n - 1].0 == DEFAULT_KEY@ {
        Some(properties[n - 1].1)
    } else {
        last_default_upto(properties, n - 1)
    }
}

/// The profile that a section names: the value of its last [`DEFAULT_KEY`],
/// if it is the section of an installation and has that key.
pub open spec fn profile_in(section: SectionView) -> Option<Seq<char>> {
    match section.name {
        Some(name) => if begins_with(name, INSTALL_PREFIX@) {
            last_default_upto(section.properties, section.properties.len() as int)
        } else {
            None
        },
        None => None,
    }
}

/// The profile that the first section from the `i`-th on names.
pub open spec fn profile_from(sections: Seq<SectionView>, i: int) -> Option<Seq<char>>
    decreases sections.len() - i,
{
    if i < 0 || i >= sections.len() {
        None
    } else {
        match profile_in(sections[i]) {
            Some(profile) => Some(profile),
            None => profile_from(sections, i + 1),
        }
    }
}

/// The profile in use: the one that the first installation with a profile
/// names.
pub open spec fn default_profile(sections: Seq<SectionView>) -> Option<Seq<char>> {
    profile_from(sections, 0)
}

/// Tells whether `text` begins with `prefix`.
pub fn starts_with(text: &str, prefix: &str) -> (yes: bool)
    ensures
        yes == begins_with(text@, prefix@),
{
    let n = prefix.unicode_len();
    if text.unicode_len() < n {
        return false;
    }
    let mut i: usize = 0;
    while i < n
        invariant
            0 <= i <= n,
            n == prefix@.len(),
            n <= text@.len(),
            forall|j: int| 0 <= j < i ==> text@[j] == prefix@[j],
        decreases n - i,
    {
        if text.get_char(i) != prefix.get_char(i) {
            return false;
        }
        i = i + 1;
    }
    true
}

/// Finds the value of the last [`DEFAULT_KEY`] among the properties.
pub fn last_default(properties: &Vec<(String, String)>) -> (value: Option<String>)
    ensures
        match value {
            Some(text) => last_default_upto(
                properties.deep_view(),
                properties.len() as int,
            ) == Some(text@),
            None => last_default_upto(properties.deep_view(), properties.len() as int) is None,
        },
{
    let ghost all = properties.deep_view();
    let mut i: usize = properties.len();
    while i > 0
        invariant
            0 <= i <= properties.len(),
            all == properties.deep_view(),
            last_default_upto(all, properties.len() as int) == last_default_upto(all, i as int),
        decreases i,
    {
        i = i - 1;
        assert(all[i as int] == (properties@[i as int].0@, properties@[i as int].1@));
        if order_of(properties[i].0.as_str(), DEFAULT_KEY) == Order::Same {
            return Some(properties[i].1.clone());
        }
    }
    None
}

/// Finds the profile in use among the sections of the file of profiles.
///
/// It is the profile of the first section, in the order of the file, that
/// belongs to an installation and names a profile. `None` where no section
/// does.
pub fn process_sections(sections: &Vec<Section>) -> (profile: Option<String>)
    ensures
        match profile {
            Some(name) => default_profile(sections.deep_view()) == Some(name@),
            None => default_profile(sections.deep_view()) is None,
        },
{
    let ghost all = sections.deep_view();
    let mut i: usize = 0;
    while i < sections.len()
        invariant
            0 <= i <= sections.len(),
            all == sections.deep_view(),
            default_profile(all) == profile_from(all, i as int),
        decreases sections.len() - i,
    {
        assert(all[i as int] == sections@[i as int]@);
        let section = &sections[i];
        let installed = match &section.name {
            Some(name) => starts_with(name.as_str(), INSTALL_PREFIX),
            None => false,
        };
        if installed {
            match last_default(&section.properties) {
                Some(name) => {
                    return Some(name);
                },
                None => {},
            }
        }
        i = i + 1;
    }
    None
}

} // verus!
