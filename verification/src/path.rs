//! File paths as the aggregator reads them, and the account that a path
//! belongs to.
//!
//! A path is held as the sequence of its components, split by whoever walked
//! the file system. The account of an index file is the first component of
//! its path below the watch root.

use vstd::prelude::*;

verus! {

/// One component of a file path.
#[derive(Clone, Debug, PartialEq, Eq)]
pub enum Component {
    /// A volume or share prefix such as `C:`, with its text.
    Prefix(String),
    /// The root directory, which stands at the start of an absolute path.
    RootDir,
    /// The directory itself, `.`.
    CurDir,
    /// The parent directory, `..`.
    ParentDir,
    /// The name of a file or directory that is text.
    Normal(String),
    /// The name of a file or directory whose bytes are no text.
    Opaque(Vec<u8>),
}

/// What a [`Component`] holds.
pub enum ComponentView {
    Prefix(Seq<char>),
    RootDir,
    CurDir,
    ParentDir,
    Normal(Seq<char>),
    Opaque(Seq<u8>),
}

impl View for Component {
    type V = ComponentView;

    open spec fn view(&self) -> ComponentView {
        match self {
            Component::Prefix(text) => ComponentView::Prefix(text@),
            Component::RootDir => ComponentView::RootDir,
            Component::CurDir => ComponentView::CurDir,
            Component::ParentDir => ComponentView::ParentDir,
            Component::Normal(name) => ComponentView::Normal(name@),
            Component::Opaque(bytes) => ComponentView::Opaque(bytes@),
        }
    }
}

impl DeepView for Component {
    type V = ComponentView;

    open spec fn deep_view(&self) -> ComponentView {
        self@
    }
}

/// The components that are no name.
#[derive(Clone, Copy, Debug, PartialEq, Eq, Structural)]
pub enum Special {
    Prefix,
    RootDir,
    CurDir,
    ParentDir,
}

/// Why a path names no account.
#[derive(Clone, Copy, Debug, PartialEq, Eq, Structural)]
pub enum AccountError {
    /// The path does not lie under the watch root.
    NotUnderRoot,
    /// The path is the watch root itself: nothing is left to name an account.
    NoComponent,
    /// The first component below the root is a name that is no text.
    NotText,
    /// The first component below the root is no name.
    Unsupported(Special),
}

/// `path` begins with the components of `base`, one for one.
pub open spec fn starts_with(path: Seq<ComponentView>, base: Seq<ComponentView>) -> bool {
    &&& base.len() <= path.len()
    &&& forall|i: int| 0 <= i < base.len() ==> path[i] == base[i]
}

/// The account that a component names when it is the first one below the
/// watch root.
pub open spec fn account_of_head(head: ComponentView) -> Result<Seq<char>, AccountError> {
    match head {
        ComponentView::Normal(name) => Ok(name),
        ComponentView::Opaque(_) => Err(AccountError::NotText),
        ComponentView::Prefix(_) => Err(AccountError::Unsupported(Special::Prefix)),
        ComponentView::RootDir => Err(AccountError::Unsupported(Special::RootDir)),
        ComponentView::CurDir => Err(AccountError::Unsupported(Special::CurDir)),
        ComponentView::ParentDir => Err(AccountError::Unsupported(Special::ParentDir)),
    }
}

/// The account of the file at `path`, seen from the watch root `base`: the
/// name that stands in `path` right behind the components of `base`.
pub open spec fn account_of(path: Seq<ComponentView>, base: Seq<ComponentView>) -> Result<
    Seq<char>,
    AccountError,
> {
    if !starts_with(path, base) {
        Err(AccountError::NotUnderRoot)
    } else if path.len() == base.len() {
        Err(AccountError::NoComponent)
    } else {
        account_of_head(path[base.len() as int])
    }
}

/// What [`parse_account`] owes for `path` and `base`.
pub open spec fn is_account_of(
    account: Result<String, AccountError>,
    path: Seq<ComponentView>,
    base: Seq<ComponentView>,
) -> bool {
    match account {
        Ok(name) => account_of(path, base) == Ok::<Seq<char>, AccountError>(name@),
        Err(error) => account_of(path, base) == Err::<Seq<char>, AccountError>(error),
    }
}

fn same_bytes(a: &Vec<u8>, b: &Vec<u8>) -> (same: bool)
    ensures
        same == (a@ == b@),
{
    if a.len() != b.len() {
        return false;
    }
    let mut i: usize = 0;
    while i < a.len()
        invariant
            a.len() == b.len(),
            0 <= i <= a.len(),
            forall|j: int| 0 <= j < i ==> a@[j] == b@[j],
        decreases a.len() - i,
    {
        if a[i] != b[i] {
            return false;
        }
        i = i + 1;
    }
    assert(a@ =~= b@);
    true
}

/// Whether two components are the same: of the same kind, with the same text
/// or bytes.
pub fn same_component(a: &Component, b: &Component) -> (same: bool)
    ensures
        same == (a@ == b@),
{
    match (a, b) {
        (Component::Prefix(x), Component::Prefix(y)) => *x == *y,
        (Component::RootDir, Component::RootDir) => true,
        (Component::CurDir, Component::CurDir) => true,
        (Component::ParentDir, Component::ParentDir) => true,
        (Component::Normal(x), Component::Normal(y)) => *x == *y,
        (Component::Opaque(x), Component::Opaque(y)) => same_bytes(x, y),
        _ => false,
    }
}

/// Derives the account of an index file from its path and the watch root.
///
/// The path has to lie under the root and to go on behind it with a name
/// that is text: that name is the account.
pub fn parse_account(path: &Vec<Component>, base: &Vec<Component>) -> (account: Result<
    String,
    AccountError,
>)
    ensures
        is_account_of(account, path.deep_view(), base.deep_view()),
{
    let n = base.len();
    if path.len() < n {
        return Err(AccountError::NotUnderRoot);
    }
    let mut i: usize = 0;
    while i < n
        invariant
            n == base.len(),
            n <= path.len(),
            0 <= i <= n,
            forall|j: int| 0 <= j < i ==> path.deep_view()[j] == base.deep_view()[j],
        decreases n - i,
    {
        if !same_component(&path[i], &base[i]) {
            assert(path.deep_view()[i as int] != base.deep_view()[i as int]);
            return Err(AccountError::NotUnderRoot);
        }
        i = i + 1;
    }
    if path.len() == n {
        return Err(AccountError::NoComponent);
    }
    assert(path.deep_view()[n as int] == path@[n as int]@);
    match &path[n] {
        Component::Normal(name) => Ok(name.clone()),
        Component::Opaque(_) => Err(AccountError::NotText),
        Component::Prefix(_) => Err(AccountError::Unsupported(Special::Prefix)),
        Component::RootDir => Err(AccountError::Unsupported(Special::RootDir)),
        Component::CurDir => Err(AccountError::Unsupported(Special::CurDir)),
        Component::ParentDir => Err(AccountError::Unsupported(Special::ParentDir)),
    }
}

} // verus!
