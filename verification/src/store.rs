//! Identifiers that tie a local mod to a record in an online store.

use vstd::prelude::*;

verus! {

/// The store a mod was published on, with the id it has there.
#[derive(Debug, PartialEq, Eq)]
pub enum StoreId {
    /// The mod is in no store.
    Local,
    Steam(String),
    Epic(String),
    Nexus(String),
    ModDB(String),
    LoversLab(String),
    Github(String),
}

/// A [`StoreId`] with its id as a sequence of characters.
pub ghost enum StoreIdView {
    Local,
    Steam(Seq<char>),
    Epic(Seq<char>),
    Nexus(Seq<char>),
    ModDB(Seq<char>),
    LoversLab(Seq<char>),
    Github(Seq<char>),
}

impl StoreIdView {
    /// The id inside the store, if there is one.
    pub open spec fn id(self) -> Option<Seq<char>> {
        match self {
            StoreIdView::Local => None,
            StoreIdView::Steam(id) => Some(id),
            StoreIdView::Epic(id) => Some(id),
            StoreIdView::Nexus(id) => Some(id),
            StoreIdView::ModDB(id) => Some(id),
            StoreIdView::LoversLab(id) => Some(id),
            StoreIdView::Github(id) => Some(id),
        }
    }
}

impl DeepView for StoreId {
    type V = StoreIdView;

    open spec fn deep_view(&self) -> StoreIdView {
        match *self {
            StoreId::Local => StoreIdView::Local,
            StoreId::Steam(id) => StoreIdView::Steam(id@),
            StoreId::Epic(id) => StoreIdView::Epic(id@),
            StoreId::Nexus(id) => StoreIdView::Nexus(id@),
            StoreId::ModDB(id) => StoreIdView::ModDB(id@),
            StoreId::LoversLab(id) => StoreIdView::LoversLab(id@),
            StoreId::Github(id) => StoreIdView::Github(id@),
        }
    }
}

impl View for StoreId {
    type V = StoreIdView;

    open spec fn view(&self) -> StoreIdView {
        self.deep_view()
    }
}

impl Clone for StoreId {
    fn clone(&self) -> (r: Self)
        ensures
            r@ == self@,
    {
        match self {
            StoreId::Local => StoreId::Local,
            StoreId::Steam(id) => StoreId::Steam(id.clone()),
            StoreId::Epic(id) => StoreId::Epic(id.clone()),
            StoreId::Nexus(id) => StoreId::Nexus(id.clone()),
            StoreId::ModDB(id) => StoreId::ModDB(id.clone()),
            StoreId::LoversLab(id) => StoreId::LoversLab(id.clone()),
            StoreId::Github(id) => StoreId::Github(id.clone()),
        }
    }
}

impl Default for StoreId {
    fn default() -> (r: Self)
        ensures
            r@ == StoreIdView::Local,
    {
        StoreId::Local
    }
}

impl StoreId {
    /// The id inside the store; `None` for a mod that is in no store.
    pub fn id(&self) -> (r: Option<String>)
        ensures
            r is Some <==> self@.id() is Some,
            r is Some ==> r->0@ == self@.id()->0,
    {
        match self {
            StoreId::Local => None,
            StoreId::Steam(id) => Some(id.clone()),
            StoreId::Epic(id) => Some(id.clone()),
            StoreId::Nexus(id) => Some(id.clone()),
            StoreId::ModDB(id) => Some(id.clone()),
            StoreId::LoversLab(id) => Some(id.clone()),
            StoreId::Github(id) => Some(id.clone()),
        }
    }

    /// Whether the mod comes from the Steam workshop.
    pub fn is_steam(&self) -> (r: bool)
        ensures
            r == (self@ is Steam),
    {
        matches!(self, StoreId::Steam(_))
    }

    /// Whether two store ids name the same store and the same id in it.
    pub fn same_as(&self, other: &StoreId) -> (r: bool)
        ensures
            r == (self@ == other@),
    {
        match (self, other) {
            (StoreId::Local, StoreId::Local) => true,
            (StoreId::Steam(a), StoreId::Steam(b)) => *a == *b,
            (StoreId::Epic(a), StoreId::Epic(b)) => *a == *b,
            (StoreId::Nexus(a), StoreId::Nexus(b)) => *a == *b,
            (StoreId::ModDB(a), StoreId::ModDB(b)) => *a == *b,
            (StoreId::LoversLab(a), StoreId::LoversLab(b)) => *a == *b,
            (StoreId::Github(a), StoreId::Github(b)) => *a == *b,
            _ => false,
        }
    }
}

/// Who can see a mod in the store.
#[derive(Clone, Copy, Debug, PartialEq, Eq, Structural)]
pub enum PublishedFileVisibilityDerive {
    Public,
    FriendsOnly,
    Private,
    Unlisted,
}

impl Default for PublishedFileVisibilityDerive {
    fn default() -> (r: Self)
        ensures
            r == PublishedFileVisibilityDerive::Private,
    {
        PublishedFileVisibilityDerive::Private
    }
}

/// What the store knows of a mod that an author may change.
#[derive(Debug, PartialEq, Eq)]
pub struct RemoteMetadata {
    pub remote_id: u64,
    pub title: String,
    pub description: String,
    pub visibility: PublishedFileVisibilityDerive,
    pub tags: Vec<String>,
}

impl Default for RemoteMetadata {
    fn default() -> (r: Self)
        ensures
            r.remote_id == 0,
            r.title@ == Seq::<char>::empty(),
            r.description@ == Seq::<char>::empty(),
            r.visibility == PublishedFileVisibilityDerive::Private,
            r.tags@.len() == 0,
    {
        RemoteMetadata {
            remote_id: 0,
            title: String::new(),
            description: String::new(),
            visibility: PublishedFileVisibilityDerive::Private,
            tags: Vec::new(),
        }
    }
}

/// Why the store cannot be asked about a mod.
#[derive(Clone, Copy, Debug, PartialEq, Eq, Structural)]
pub enum StoreError {
    /// The mod is in no store.
    NoStoreId,
    /// The launcher cannot talk to the store of the mod.
    NotImplemented,
}

impl StoreError {
    /// The failure in words.
    pub open spec fn words(self) -> Seq<char> {
        match self {
            StoreError::NoStoreId => "No store id found."@,
            StoreError::NotImplemented => "Not implemented for this integration."@,
        }
    }

    /// The failure in words.
    pub fn message(&self) -> (r: String)
        ensures
            r@ == self.words(),
    {
        match self {
            StoreError::NoStoreId => "No store id found.".to_owned(),
            StoreError::NotImplemented => "Not implemented for this integration.".to_owned(),
        }
    }
}

impl StoreId {
    /// The id to ask the Steam workshop with. Only a mod of the workshop has
    /// one.
    pub fn workshop_id(&self) -> (r: Result<String, StoreError>)
        ensures
            r is Ok <==> self@ is Steam,
            r is Ok ==> r->Ok_0@ == self@->Steam_0,
            r is Err ==> r->Err_0 == if self@ is Local {
                StoreError::NoStoreId
            } else {
                StoreError::NotImplemented
            },
    {
        match self {
            StoreId::Steam(id) => Ok(id.clone()),
            StoreId::Local => Err(StoreError::NoStoreId),
            _ => Err(StoreError::NotImplemented),
        }
    }

    /// The id to open the page of the mod with. Only the pages of the Steam
    /// workshop can be opened.
    pub fn open_remote_mod_url(&self) -> (r: Result<String, StoreError>)
        ensures
            r is Ok <==> self@ is Steam,
            r is Ok ==> r->Ok_0@ == self@->Steam_0,
            r is Err ==> r->Err_0 == StoreError::NotImplemented,
    {
        match self {
            StoreId::Steam(id) => Ok(id.clone()),
            _ => Err(StoreError::NotImplemented),
        }
    }
}

} // verus!
