//! The registry of a game: every mod ever seen for it, and the categories the
//! user sorts the installed ones into.

use vstd::prelude::*;
use vstd::string::*;
use crate::mods::{clone_strings, Mod, ModView};
use crate::seqs::{lemma_filter_contains, lemma_filter_empty, lemma_filter_step, lemma_take_all};
use crate::text::{
    contains_text, find_text, lemma_position, lemma_position_is, lemma_position_none, lex_le,
    position, str_eq, text_le,
};

verus! {

/// The category that holds every installed mod the user has put nowhere else.
/// It cannot be created, renamed or deleted.
pub const DEFAULT_CATEGORY: &'static str = "Unassigned";

/// The name of the reserved category.
pub open spec fn default_category() -> Seq<char> {
    "Unassigned"@
}

/// Why an edit of the categories was refused.
#[derive(Clone, Copy, Debug, PartialEq, Eq, Structural)]
pub enum CategoryError {
    CannotCreateDefault,
    AlreadyExists,
    CannotRenameDefault,
    CannotRenameToDefault,
    EmptyName,
    NewNameTaken,
    CannotDeleteDefault,
    CannotMoveDefault,
    NotFound,
    SourceNotFound,
    TargetNotFound,
}

impl CategoryError {
    /// The refusal in words.
    pub open spec fn words(self) -> Seq<char> {
        match self {
            CategoryError::CannotCreateDefault => "Cannot create default category."@,
            CategoryError::AlreadyExists => "Category already exists."@,
            CategoryError::CannotRenameDefault => "Cannot rename default category."@,
            CategoryError::CannotRenameToDefault => "Cannot rename category to default category."@,
            CategoryError::EmptyName => "New name cannot be empty."@,
            CategoryError::NewNameTaken => "Category with new name already exists."@,
            CategoryError::CannotDeleteDefault => "Cannot delete default category."@,
            CategoryError::CannotMoveDefault => "Cannot move default category."@,
            CategoryError::NotFound => "Category not found"@,
            CategoryError::SourceNotFound => "Source category not found"@,
            CategoryError::TargetNotFound => "Target category not found"@,
        }
    }

    /// The refusal in words.
    pub fn message(&self) -> (r: String)
        ensures
            r@ == self.words(),
    {
        match self {
            CategoryError::CannotCreateDefault => "Cannot create default category.".to_owned(),
            CategoryError::AlreadyExists => "Category already exists.".to_owned(),
            CategoryError::CannotRenameDefault => "Cannot rename default category.".to_owned(),
            CategoryError::CannotRenameToDefault => "Cannot rename category to default category.".to_owned(),
            CategoryError::EmptyName => "New name cannot be empty.".to_owned(),
            CategoryError::NewNameTaken => "Category with new name already exists.".to_owned(),
            CategoryError::CannotDeleteDefault => "Cannot delete default category.".to_owned(),
            CategoryError::CannotMoveDefault => "Cannot move default category.".to_owned(),
            CategoryError::NotFound => "Category not found".to_owned(),
            CategoryError::SourceNotFound => "Source category not found".to_owned(),
            CategoryError::TargetNotFound => "Target category not found".to_owned(),
        }
    }
}

/// A category and the ids of the mods in it, in the order the user sees them.
#[derive(Debug, PartialEq, Eq)]
pub struct Category {
    pub name: String,
    pub mods: Vec<String>,
}

/// A [`Category`] with its texts as sequences of characters.
pub ghost struct CategoryView {
    pub name: Seq<char>,
    pub mods: Seq<Seq<char>>,
}

impl DeepView for Category {
    type V = CategoryView;

    open spec fn deep_view(&self) -> CategoryView {
        CategoryView { name: self.name@, mods: self.mods.deep_view() }
    }
}

impl View for Category {
    type V = CategoryView;

    open spec fn view(&self) -> CategoryView {
        self.deep_view()
    }
}

impl Clone for Category {
    fn clone(&self) -> (r: Self)
        ensures
            r@ == self@,
    {
        Category { name: self.name.clone(), mods: clone_strings(&self.mods) }
    }
}

/// The registry of one game.
#[derive(Debug)]
pub struct GameConfig {
    /// The key of the game.
    pub game_key: String,
    /// Every mod ever seen for the game, each id once. A mod that is no
    /// longer on disk stays, with no paths.
    pub mods: Vec<Mod>,
    /// The categories, each name once, with the mods in each.
    pub categories: Vec<Category>,
    /// The names of the categories in the order the user sees them.
    pub categories_order: Vec<String>,
}

/// A [`GameConfig`] with its texts as sequences of characters.
pub ghost struct GameConfigView {
    pub game_key: Seq<char>,
    pub mods: Seq<ModView>,
    pub categories: Seq<CategoryView>,
    pub categories_order: Seq<Seq<char>>,
}

/// The ids of the mods, in the order of the registry.
pub open spec fn ids_of(mods: Seq<ModView>) -> Seq<Seq<char>> {
    mods.map_values(|m: ModView| m.id)
}

/// The names of the categories.
pub open spec fn names_of(categories: Seq<CategoryView>) -> Seq<Seq<char>> {
    categories.map_values(|c: CategoryView| c.name)
}

/// The test that a name is another one than `name`.
pub open spec fn other_than(name: Seq<char>) -> spec_fn(Seq<char>) -> bool {
    |n: Seq<char>| n != name
}

/// Whether some category holds the mod `id`.
pub open spec fn in_some_category(categories: Seq<CategoryView>, id: Seq<char>) -> bool {
    exists|k: int| 0 <= k < categories.len() && #[trigger] categories[k].mods.contains(id)
}

impl GameConfigView {
    /// The ids of the mods, in the order of the registry.
    pub open spec fn ids(self) -> Seq<Seq<char>> {
        ids_of(self.mods)
    }

    /// The names of the categories.
    pub open spec fn names(self) -> Seq<Seq<char>> {
        names_of(self.categories)
    }

    /// No id names two mods, and no name two categories.
    pub open spec fn wf(self) -> bool {
        self.ids().no_duplicates() && self.names().no_duplicates()
    }

    /// Whether a category has that name.
    pub open spec fn has_category(self, name: Seq<char>) -> bool {
        self.names().contains(name)
    }

    /// The reserved category closes the order of the categories.
    pub open spec fn default_is_last(self) -> bool {
        self.categories_order.len() > 0 && self.categories_order.last() == default_category()
    }

    /// Where a new category goes in the order: before the last one.
    pub open spec fn new_category_slot(self) -> int {
        if self.categories_order.len() > 0 {
            self.categories_order.len() - 1
        } else {
            0
        }
    }

    /// Why `create_category` refuses `name`, if it does: the reserved name,
    /// an empty name, and a name that is taken are refused.
    pub open spec fn create_refusal(self, name: Seq<char>) -> Option<CategoryError> {
        if name == default_category() {
            Some(CategoryError::CannotCreateDefault)
        } else if name.len() == 0 {
            Some(CategoryError::EmptyName)
        } else if self.has_category(name) {
            Some(CategoryError::AlreadyExists)
        } else {
            None
        }
    }

    /// The registry with a new, empty category before the last one.
    pub open spec fn with_category(self, name: Seq<char>) -> GameConfigView {
        GameConfigView {
            categories: self.categories.push(CategoryView { name, mods: Seq::empty() }),
            categories_order: self.categories_order.insert(self.new_category_slot(), name),
            ..self
        }
    }

    /// Why `rename_category` refuses to give `name` the name `new_name`, if it
    /// does. Renaming to the same name is never refused. Else the reserved
    /// category is not renamed, nothing is renamed to the reserved name, to an
    /// empty name or to a name that is taken, and a category that is not
    /// there cannot be renamed.
    pub open spec fn rename_refusal(self, name: Seq<char>, new_name: Seq<char>) -> Option<
        CategoryError,
    > {
        if name == new_name {
            None
        } else if name == default_category() {
            Some(CategoryError::CannotRenameDefault)
        } else if new_name == default_category() {
            Some(CategoryError::CannotRenameToDefault)
        } else if new_name.len() == 0 {
            Some(CategoryError::EmptyName)
        } else if self.has_category(new_name) {
            Some(CategoryError::NewNameTaken)
        } else if !self.has_category(name) {
            Some(CategoryError::NotFound)
        } else {
            None
        }
    }

    /// Why `delete_category` refuses to delete `name`, if it does: the
    /// reserved category is not deleted, and a category that is not there
    /// cannot be.
    pub open spec fn delete_refusal(self, name: Seq<char>) -> Option<CategoryError> {
        if name == default_category() {
            Some(CategoryError::CannotDeleteDefault)
        } else if !self.has_category(name) {
            Some(CategoryError::NotFound)
        } else {
            None
        }
    }

    /// Why `reorder_categories` refuses to move `source` before `target`, if
    /// it does: the reserved category is not moved, and both have to be in
    /// the order.
    pub open spec fn reorder_refusal(self, source: Seq<char>, target: Seq<char>) -> Option<
        CategoryError,
    > {
        if source == default_category() {
            Some(CategoryError::CannotMoveDefault)
        } else if position(self.categories_order, source) < 0 {
            Some(CategoryError::SourceNotFound)
        } else if position(self.categories_order, target) < 0 {
            Some(CategoryError::TargetNotFound)
        } else {
            None
        }
    }

    /// The registry with the category `name` called `new_name`, in the same
    /// place and with the same mods. Unchanged where there is no such category.
    pub open spec fn with_renamed(self, name: Seq<char>, new_name: Seq<char>) -> GameConfigView {
        let k = position(self.names(), name);
        let p = position(self.categories_order, name);
        if k < 0 {
            self
        } else {
            GameConfigView {
                categories: self.categories.update(
                    k,
                    CategoryView { name: new_name, mods: self.categories[k].mods },
                ),
                categories_order: if p < 0 {
                    self.categories_order
                } else {
                    self.categories_order.update(p, new_name)
                },
                ..self
            }
        }
    }

    /// The registry without the category `name`: its mods go to the end of
    /// the reserved category, and its name leaves the order. Unchanged where
    /// there is no such category.
    pub open spec fn without_category(self, name: Seq<char>) -> GameConfigView {
        let k = position(self.names(), name);
        if k < 0 {
            self
        } else {
            let rest = self.categories.remove(k);
            let d = position(names_of(rest), default_category());
            GameConfigView {
                categories: if d < 0 {
                    rest
                } else {
                    rest.update(
                        d,
                        CategoryView {
                            name: rest[d].name,
                            mods: rest[d].mods + self.categories[k].mods,
                        },
                    )
                },
                categories_order: self.categories_order.filter(other_than(name)),
                ..self
            }
        }
    }
}

impl DeepView for GameConfig {
    type V = GameConfigView;

    open spec fn deep_view(&self) -> GameConfigView {
        GameConfigView {
            game_key: self.game_key@,
            mods: self.mods.deep_view(),
            categories: self.categories.deep_view(),
            categories_order: self.categories_order.deep_view(),
        }
    }
}

impl View for GameConfig {
    type V = GameConfigView;

    open spec fn view(&self) -> GameConfigView {
        self.deep_view()
    }
}

/// The strings of `v` that differ from `key`, in their order.
pub fn without_text(v: &Vec<String>, key: &str) -> (r: Vec<String>)
    ensures
        r.deep_view() == v.deep_view().filter(other_than(key@)),
{
    let ghost src = v.deep_view();
    let ghost pred = other_than(key@);
    let mut out: Vec<String> = Vec::new();
    let mut i: usize = 0;
    proof {
        lemma_filter_empty(src.take(0), pred);
        assert(out.deep_view() =~= Seq::<Seq<char>>::empty());
    }
    while i < v.len()
        invariant
            i <= v@.len(),
            src == v.deep_view(),
            pred == other_than(key@),
            out.deep_view() == src.take(i as int).filter(pred),
        decreases v@.len() - i,
    {
        proof {
            lemma_filter_step(src, pred, i as int);
        }
        let ghost before = out.deep_view();
        if !str_eq(v[i].as_str(), key) {
            out.push(v[i].clone());
            assert(out.deep_view() =~= before.push(src[i as int]));
        }
        i += 1;
    }
    proof {
        lemma_take_all(src);
    }
    out
}

impl GameConfig {
    /// An empty registry for the game `game_key`, with the reserved category
    /// alone.
    pub fn new(game_key: &str) -> (r: Self)
        ensures
            r@ == (GameConfigView {
                game_key: game_key@,
                mods: Seq::empty(),
                categories: seq![CategoryView { name: default_category(), mods: Seq::empty() }],
                categories_order: seq![default_category()],
            }),
            r@.wf(),
            r@.default_is_last(),
    {
        let mut categories: Vec<Category> = Vec::new();
        categories.push(Category { name: DEFAULT_CATEGORY.to_owned(), mods: Vec::new() });
        let mut categories_order: Vec<String> = Vec::new();
        categories_order.push(DEFAULT_CATEGORY.to_owned());
        let r = GameConfig {
            game_key: game_key.to_owned(),
            mods: Vec::new(),
            categories,
            categories_order,
        };
        proof {
            assert(r.categories@[0].mods.deep_view() =~= Seq::empty());
            assert(r@.mods =~= Seq::empty());
            assert(r@.categories =~= seq![
                CategoryView { name: default_category(), mods: Seq::empty() },
            ]);
            assert(r@.categories_order =~= seq![default_category()]);
        }
        r
    }

    /// The index of the category called `name`.
    pub fn find_category(&self, name: &str) -> (r: Option<usize>)
        ensures
            r is None <==> position(self@.names(), name@) < 0,
            r is Some ==> r->0 as int == position(self@.names(), name@) && r->0
                < self.categories@.len(),
            r is Some <==> self@.has_category(name@),
    {
        let ghost names = self@.names();
        let mut i: usize = 0;
        while i < self.categories.len()
            invariant
                i <= self.categories@.len(),
                names == self@.names(),
                names.len() == self.categories@.len(),
                forall|j: int| 0 <= j < i ==> names[j] != name@,
            decreases self.categories@.len() - i,
        {
            assert(names[i as int] == self.categories@[i as int].name@);
            if str_eq(self.categories[i].name.as_str(), name) {
                proof {
                    lemma_position_is(names, name@, i as int);
                    lemma_position(names, name@);
                }
                return Some(i);
            }
            i += 1;
        }
        proof {
            lemma_position(names, name@);
        }
        None
    }

    /// Adds an empty category before the last one in the order. Refused, with
    /// nothing changed, for the reserved name, for an empty name and for a
    /// name that is taken.
    pub fn create_category(&mut self, category: &str) -> (r: Result<(), CategoryError>)
        ensures
            r is Err <==> old(self)@.create_refusal(category@) is Some,
            r is Err ==> r->Err_0 == old(self)@.create_refusal(category@)->0 && final(self)@
                == old(self)@,
            r is Ok ==> final(self)@ == old(self)@.with_category(category@),
            old(self)@.wf() ==> final(self)@.wf(),
            old(self)@.default_is_last() ==> final(self)@.default_is_last(),
    {
        if str_eq(category, DEFAULT_CATEGORY) {
            return Err(CategoryError::CannotCreateDefault);
        }
        if category.is_empty() {
            return Err(CategoryError::EmptyName);
        }
        if self.find_category(category).is_some() {
            return Err(CategoryError::AlreadyExists);
        }
        let ghost before = self@;
        self.categories.push(Category { name: category.to_owned(), mods: Vec::new() });
        let pos: usize = if self.categories_order.len() > 0 {
            self.categories_order.len() - 1
        } else {
            0
        };
        self.categories_order.insert(pos, category.to_owned());
        proof {
            assert(self.categories@.last().mods.deep_view() =~= Seq::empty());
            assert(self@.categories =~= before.categories.push(
                CategoryView { name: category@, mods: Seq::empty() },
            ));
            assert(self@.categories_order =~= before.categories_order.insert(
                before.new_category_slot(),
                category@,
            ));
            assert(self@.mods =~= before.mods);
            lemma_default_stays_last(before, category@, category@);
            if before.wf() {
                lemma_names_stay_apart(before, category@, category@);
            }
        }
        Ok(())
    }

    /// Gives the category `category` the name `new_name`; its mods and its
    /// place in the order stay. Nothing happens where the names are equal.
    /// Refused, with nothing changed, for the reserved category, for the
    /// reserved name, an empty name or a name that is taken as the new name,
    /// and for a category that is not there.
    pub fn rename_category(&mut self, category: &str, new_name: &str) -> (r: Result<
        (),
        CategoryError,
    >)
        ensures
            r is Err <==> old(self)@.rename_refusal(category@, new_name@) is Some,
            r is Err ==> r->Err_0 == old(self)@.rename_refusal(category@, new_name@)->0
                && final(self)@ == old(self)@,
            r is Ok ==> final(self)@ == if category@ == new_name@ {
                old(self)@
            } else {
                old(self)@.with_renamed(category@, new_name@)
            },
            old(self)@.wf() ==> final(self)@.wf(),
            old(self)@.default_is_last() ==> final(self)@.default_is_last(),
    {
        if str_eq(category, new_name) {
            return Ok(());
        }
        if str_eq(category, DEFAULT_CATEGORY) {
            return Err(CategoryError::CannotRenameDefault);
        }
        if str_eq(new_name, DEFAULT_CATEGORY) {
            return Err(CategoryError::CannotRenameToDefault);
        }
        if new_name.is_empty() {
            return Err(CategoryError::EmptyName);
        }
        if self.find_category(new_name).is_some() {
            return Err(CategoryError::NewNameTaken);
        }
        let ghost before = self@;
        let k = match self.find_category(category) {
            Some(k) => k,
            None => {
                return Err(CategoryError::NotFound);
            },
        };
        self.categories[k].name = new_name.to_owned();
        if let Some(p) = find_text(&self.categories_order, category) {
            self.categories_order[p] = new_name.to_owned();
            assert(self@.categories_order =~= before.categories_order.update(
                p as int,
                new_name@,
            ));
        } else {
            assert(self@.categories_order =~= before.categories_order);
        }
        proof {
            assert(self@.categories =~= before.categories.update(
                k as int,
                CategoryView { name: new_name@, mods: before.categories[k as int].mods },
            ));
            assert(self@.mods =~= before.mods);
            lemma_default_stays_last(before, category@, new_name@);
            if before.wf() {
                lemma_names_stay_apart(before, category@, new_name@);
            }
        }
        Ok(())
    }

    /// Deletes the category `category`: its mods go to the end of the
    /// reserved category and its name leaves the order. Refused, with nothing
    /// changed, for the reserved category and for a category that is not
    /// there.
    pub fn delete_category(&mut self, category: &str) -> (r: Result<(), CategoryError>)
        ensures
            r is Err <==> old(self)@.delete_refusal(category@) is Some,
            r is Err ==> r->Err_0 == old(self)@.delete_refusal(category@)->0 && final(self)@
                == old(self)@,
            r is Ok ==> final(self)@ == old(self)@.without_category(category@),
            old(self)@.wf() ==> final(self)@.wf(),
            old(self)@.default_is_last() ==> final(self)@.default_is_last(),
    {
        if str_eq(category, DEFAULT_CATEGORY) {
            return Err(CategoryError::CannotDeleteDefault);
        }
        let ghost before = self@;
        let k = match self.find_category(category) {
            Some(k) => k,
            None => {
                return Err(CategoryError::NotFound);
            },
        };
        let removed = self.categories.remove(k);
        let ghost rest = before.categories.remove(k as int);
        assert(self@.categories =~= rest);
        assert(removed@ == before.categories[k as int]);
        self.categories_order = without_text(&self.categories_order, category);
        if let Some(d) = self.find_category(DEFAULT_CATEGORY) {
            let mut moved = removed.mods;
            let ghost mine = self.categories@[d as int].mods.deep_view();
            let ghost theirs = moved.deep_view();
            self.categories[d].mods.append(&mut moved);
            proof {
                assert(self.categories@[d as int].mods.deep_view() =~= mine + theirs);
                assert(self@.categories =~= rest.update(
                    d as int,
                    CategoryView { name: rest[d as int].name, mods: mine + theirs },
                ));
            }
        }
        proof {
            assert(self@.mods =~= before.mods);
            lemma_default_stays_last(before, category@, category@);
            if before.wf() {
                lemma_names_stay_apart(before, category@, category@);
            }
        }
        Ok(())
    }
}

/// Whether `id` names a mod of `mods` that has a copy on disk.
pub open spec fn is_installed_id(mods: Seq<ModView>, id: Seq<char>) -> bool {
    position(ids_of(mods), id) >= 0 && mods[position(ids_of(mods), id)].paths.len() > 0
}

/// The test that an id names a mod of `mods` that has a copy on disk.
pub open spec fn installed_in(mods: Seq<ModView>) -> spec_fn(Seq<char>) -> bool {
    |id: Seq<char>| is_installed_id(mods, id)
}

/// The test that a mod has a copy on disk and is in none of the categories.
pub open spec fn loose_in(categories: Seq<CategoryView>) -> spec_fn(ModView) -> bool {
    |m: ModView| m.paths.len() > 0 && !in_some_category(categories, m.id)
}

/// The categories with the mods that are not installed taken out.
pub open spec fn pruned(categories: Seq<CategoryView>, mods: Seq<ModView>) -> Seq<CategoryView> {
    categories.map_values(
        |c: CategoryView|
            CategoryView {
                name: c.name,
                mods: c.mods.filter(installed_in(mods)),
            },
    )
}

/// The ids of the installed mods that no category holds, in the order of the
/// registry.
pub open spec fn uncategorised(mods: Seq<ModView>, categories: Seq<CategoryView>) -> Seq<
    Seq<char>,
> {
    ids_of(mods.filter(loose_in(categories)))
}

impl GameConfigView {
    /// The registry with its categories put in order: only installed mods
    /// stay in a category, every installed mod that is in none goes to the
    /// end of the reserved one, and the reserved one closes the order.
    pub open spec fn tidied(self) -> GameConfigView {
        let kept = pruned(self.categories, self.mods);
        let extra = uncategorised(self.mods, kept);
        let d = position(names_of(kept), default_category());
        GameConfigView {
            categories: if d >= 0 {
                kept.update(d, CategoryView { name: kept[d].name, mods: kept[d].mods + extra })
            } else {
                kept.push(CategoryView { name: default_category(), mods: extra })
            },
            categories_order: self.categories_order.filter(other_than(default_category())).push(
                default_category(),
            ),
            ..self
        }
    }
}

impl GameConfig {
    /// The index of the mod with the id `id`.
    pub fn find_mod(&self, id: &str) -> (r: Option<usize>)
        ensures
            r is None <==> position(self@.ids(), id@) < 0,
            r is Some ==> r->0 as int == position(self@.ids(), id@) && r->0 < self.mods@.len(),
    {
        let ghost keys = self@.ids();
        let mut i: usize = 0;
        while i < self.mods.len()
            invariant
                i <= self.mods@.len(),
                keys == self@.ids(),
                keys.len() == self.mods@.len(),
                forall|j: int| 0 <= j < i ==> keys[j] != id@,
            decreases self.mods@.len() - i,
        {
            assert(keys[i as int] == self.mods@[i as int].id@);
            if str_eq(self.mods[i].id.as_str(), id) {
                proof {
                    lemma_position_is(keys, id@, i as int);
                }
                return Some(i);
            }
            i += 1;
        }
        proof {
            lemma_position_none(keys, id@);
        }
        None
    }

    /// Whether `id` names a mod that has a copy on disk.
    pub fn is_installed(&self, id: &str) -> (r: bool)
        ensures
            r == is_installed_id(self@.mods, id@),
    {
        match self.find_mod(id) {
            Some(k) => {
                assert(self@.mods[k as int].paths.len() == self.mods@[k as int].paths@.len());
                self.mods[k].paths.len() > 0
            },
            None => false,
        }
    }

    /// Whether some category holds the mod `id`.
    pub fn is_categorised(&self, id: &str) -> (r: bool)
        ensures
            r == in_some_category(self@.categories, id@),
    {
        let ghost cats = self@.categories;
        let mut k: usize = 0;
        while k < self.categories.len()
            invariant
                k <= self.categories@.len(),
                cats == self@.categories,
                cats.len() == self.categories@.len(),
                forall|j: int| 0 <= j < k ==> !(#[trigger] cats[j].mods.contains(id@)),
            decreases self.categories@.len() - k,
        {
            assert(cats[k as int].mods == self.categories@[k as int].mods.deep_view());
            if contains_text(&self.categories[k].mods, id) {
                return true;
            }
            k += 1;
        }
        false
    }

    /// The strings of `ids` that name an installed mod, in their order.
    fn installed_among(&self, ids: &Vec<String>) -> (r: Vec<String>)
        ensures
            r.deep_view() == ids.deep_view().filter(installed_in(self@.mods)),
    {
        let ghost src = ids.deep_view();
        let ghost pred = installed_in(self@.mods);
        let mut out: Vec<String> = Vec::new();
        let mut i: usize = 0;
        proof {
            lemma_filter_empty(src.take(0), pred);
            assert(out.deep_view() =~= Seq::<Seq<char>>::empty());
        }
        while i < ids.len()
            invariant
                i <= ids@.len(),
                src == ids.deep_view(),
                pred == installed_in(self@.mods),
                out.deep_view() == src.take(i as int).filter(pred),
            decreases ids@.len() - i,
        {
            proof {
                lemma_filter_step(src, pred, i as int);
            }
            let ghost before = out.deep_view();
            if self.is_installed(ids[i].as_str()) {
                out.push(ids[i].clone());
                assert(out.deep_view() =~= before.push(src[i as int]));
            }
            i += 1;
        }
        proof {
            lemma_take_all(src);
        }
        out
    }

    /// Takes the mods that are not installed out of every category.
    fn prune_categories(&mut self)
        ensures
            final(self)@ == (GameConfigView {
                categories: pruned(old(self)@.categories, old(self)@.mods),
                ..old(self)@
            }),
    {
        let ghost before = self@;
        let ghost goal = pruned(before.categories, before.mods);
        let mut k: usize = 0;
        while k < self.categories.len()
            invariant
                k <= self.categories@.len(),
                self.categories@.len() == before.categories.len(),
                goal == pruned(before.categories, before.mods),
                self@.mods == before.mods,
                self@.game_key == before.game_key,
                self@.categories_order == before.categories_order,
                forall|j: int| 0 <= j < k ==> self@.categories[j] == goal[j],
                forall|j: int|
                    k <= j < self.categories@.len() ==> self@.categories[j]
                        == before.categories[j],
            decreases self.categories@.len() - k,
        {
            let ghost now = self@;
            let kept = self.installed_among(&self.categories[k].mods);
            assert(now.categories[k as int].mods == self.categories@[k as int].mods.deep_view());
            self.categories[k].mods = kept;
            proof {
                assert(self@.mods =~= now.mods);
                assert(self@.categories_order =~= now.categories_order);
                assert(self@.categories[k as int] == goal[k as int]);
                assert forall|j: int| 0 <= j < k implies self@.categories[j] == goal[j] by {
                    assert(self@.categories[j] == now.categories[j]);
                }
                assert forall|j: int| k < j < self.categories@.len() implies self@.categories[j]
                    == before.categories[j] by {
                    assert(self@.categories[j] == now.categories[j]);
                }
            }
            k += 1;
        }
        assert(self@.categories =~= goal);
    }

    /// The ids of the installed mods that no category holds.
    fn uncategorised_ids(&self) -> (r: Vec<String>)
        ensures
            r.deep_view() == uncategorised(self@.mods, self@.categories),
    {
        let ghost src = self@.mods;
        let ghost cats = self@.categories;
        let ghost pred = loose_in(cats);
        let mut out: Vec<String> = Vec::new();
        let mut i: usize = 0;
        proof {
            lemma_filter_empty(src.take(0), pred);
            assert(out.deep_view() =~= ids_of(src.take(0).filter(pred)));
        }
        while i < self.mods.len()
            invariant
                i <= self.mods@.len(),
                src == self@.mods,
                src.len() == self.mods@.len(),
                cats == self@.categories,
                pred == loose_in(cats),
                out.deep_view() == ids_of(src.take(i as int).filter(pred)),
            decreases self.mods@.len() - i,
        {
            proof {
                lemma_filter_step(src, pred, i as int);
            }
            let ghost before = out.deep_view();
            assert(src[i as int] == self.mods@[i as int]@);
            assert(src[i as int].paths.len() == self.mods@[i as int].paths@.len());
            if self.mods[i].paths.len() > 0 && !self.is_categorised(self.mods[i].id.as_str()) {
                out.push(self.mods[i].id.clone());
                assert(out.deep_view() =~= before.push(src[i as int].id));
                assert(ids_of(src.take(i as int).filter(pred).push(src[i as int])) =~= ids_of(
                    src.take(i as int).filter(pred),
                ).push(src[i as int].id));
            }
            i += 1;
        }
        proof {
            lemma_take_all(src);
        }
        out
    }

    /// Puts the categories in order after the mods have changed: only
    /// installed mods stay in a category, every installed mod that is in none
    /// goes to the end of the reserved one, and the reserved one closes the
    /// order.
    pub fn tidy_categories(&mut self)
        ensures
            final(self)@ == old(self)@.tidied(),
            final(self)@.default_is_last(),
            old(self)@.wf() ==> final(self)@.wf(),
    {
        let ghost before = self@;
        proof {
            lemma_default_stays_last(before, Seq::empty(), Seq::empty());
            if before.wf() {
                lemma_names_stay_apart(before, Seq::empty(), Seq::empty());
            }
        }
        self.prune_categories();
        let ghost kept = self@.categories;
        let mut extra = self.uncategorised_ids();
        let ghost added = extra.deep_view();
        match self.find_category(DEFAULT_CATEGORY) {
            Some(d) => {
                let ghost mine = self.categories@[d as int].mods.deep_view();
                self.categories[d].mods.append(&mut extra);
                proof {
                    assert(self.categories@[d as int].mods.deep_view() =~= mine + added);
                    assert(self@.categories =~= kept.update(
                        d as int,
                        CategoryView { name: kept[d as int].name, mods: mine + added },
                    ));
                }
            },
            None => {
                self.categories.push(Category { name: DEFAULT_CATEGORY.to_owned(), mods: extra });
                proof {
                    assert(self@.categories =~= kept.push(
                        CategoryView { name: default_category(), mods: added },
                    ));
                }
            },
        }
        let mut order = without_text(&self.categories_order, DEFAULT_CATEGORY);
        let ghost others = order.deep_view();
        order.push(DEFAULT_CATEGORY.to_owned());
        assert(order.deep_view() =~= others.push(default_category()));
        self.categories_order = order;
        proof {
            assert(self@.mods =~= before.mods);
        }
    }
}

/// A filter that the last element passes keeps it last.
proof fn lemma_filter_keeps_last(s: Seq<Seq<char>>, pred: spec_fn(Seq<char>) -> bool)
    requires
        s.len() > 0,
        pred(s.last()),
    ensures
        s.filter(pred).len() > 0,
        s.filter(pred).last() == s.last(),
{
    reveal(Seq::filter);
}

/// The edits of the categories leave the reserved category at the end of the
/// order, and so does putting the categories in order.
pub proof fn lemma_default_stays_last(c: GameConfigView, name: Seq<char>, new_name: Seq<char>)
    ensures
        c.tidied().default_is_last(),
        c.default_is_last() ==> c.with_category(name).default_is_last(),
        c.default_is_last() && c.rename_refusal(name, new_name) is None ==> c.with_renamed(
            name,
            new_name,
        ).default_is_last(),
        c.default_is_last() && name != default_category() ==> c.without_category(
            name,
        ).default_is_last(),
{
    if c.default_is_last() {
        lemma_position(c.categories_order, name);
        if name != default_category() {
            lemma_filter_keeps_last(c.categories_order, other_than(name));
        }
    }
}

/// Once the categories are put in order, exactly the installed mods are in a
/// category: a mod without a copy on disk is in none, and a mod with one is
/// in at least one.
pub proof fn lemma_tidied_holds_the_installed(c: GameConfigView, i: int)
    requires
        c.ids().no_duplicates(),
        0 <= i < c.mods.len(),
    ensures
        c.mods[i].paths.len() > 0 <==> in_some_category(c.tidied().categories, c.mods[i].id),
{
    let id = c.mods[i].id;
    let ids = c.ids();
    let kept = pruned(c.categories, c.mods);
    let extra = uncategorised(c.mods, kept);
    let d = position(names_of(kept), default_category());
    let after = c.tidied().categories;
    let installed = installed_in(c.mods);
    let loose = loose_in(kept);
    lemma_position(names_of(kept), default_category());
    lemma_position(ids, id);
    assert(ids[i] == id);
    assert(position(ids, id) == i) by {
        let p = position(ids, id);
        assert(ids[p] == ids[i]);
    }
    lemma_filter_contains(c.mods, loose, c.mods[i]);
    assert(c.mods.contains(c.mods[i]));

    if in_some_category(after, id) {
        let k = choose|k: int| 0 <= k < after.len() && #[trigger] after[k].mods.contains(id);
        let from_kept = k < kept.len() && kept[k].mods.contains(id);
        if from_kept {
            lemma_filter_contains(c.categories[k].mods, installed, id);
        } else {
            assert(extra.contains(id)) by {
                if d >= 0 {
                    assert(k == d);
                    let at = choose|at: int|
                        0 <= at < after[k].mods.len() && after[k].mods[at] == id;
                    if at < kept[d].mods.len() {
                        assert(kept[d].mods[at] == id);
                    } else {
                        assert(extra[at - kept[d].mods.len()] == id);
                    }
                } else {
                    assert(k == kept.len());
                }
            }
            let at = choose|at: int| 0 <= at < extra.len() && extra[at] == id;
            let m = c.mods.filter(loose)[at];
            assert(c.mods.filter(loose).contains(m));
            lemma_filter_contains(c.mods, loose, m);
            let q = choose|q: int| 0 <= q < c.mods.len() && c.mods[q] == m;
            assert(ids[q] == ids[i]);
        }
    }
    if c.mods[i].paths.len() > 0 {
        if in_some_category(kept, id) {
            let k = choose|k: int| 0 <= k < kept.len() && #[trigger] kept[k].mods.contains(id);
            if d >= 0 && k == d {
                let at = choose|at: int| 0 <= at < kept[d].mods.len() && kept[d].mods[at] == id;
                assert(after[d].mods[at] == id);
            } else {
                assert(after[k] == kept[k]);
            }
            assert(after[k].mods.contains(id));
        } else {
            assert(loose(c.mods[i]));
            let at = choose|at: int|
                0 <= at < c.mods.filter(loose).len() && c.mods.filter(loose)[at] == c.mods[i];
            assert(extra[at] == id);
            if d >= 0 {
                assert(after[d].mods[kept[d].mods.len() + at] == id);
                assert(after[d].mods.contains(id));
            } else {
                assert(after[kept.len() as int].mods[at] == id);
                assert(after[kept.len() as int].mods.contains(id));
            }
        }
    }
}

/// The test that an id is none of `ids`.
pub open spec fn none_of(ids: Seq<Seq<char>>) -> spec_fn(Seq<char>) -> bool {
    |id: Seq<char>| !ids.contains(id)
}

/// The categories with the mods `ids` taken out of each.
pub open spec fn categories_less(categories: Seq<CategoryView>, ids: Seq<Seq<char>>) -> Seq<
    CategoryView,
>
    decreases categories.len(),
{
    if categories.len() == 0 {
        Seq::empty()
    } else {
        categories_less(categories.drop_last(), ids).push(
            CategoryView {
                name: categories.last().name,
                mods: categories.last().mods.filter(none_of(ids)),
            },
        )
    }
}

/// The categories with the mods `ids` taken out of each keep their number
/// and their names.
pub proof fn lemma_categories_less(categories: Seq<CategoryView>, ids: Seq<Seq<char>>)
    ensures
        categories_less(categories, ids).len() == categories.len(),
        forall|j: int|
            0 <= j < categories.len() ==> categories_less(categories, ids)[j] == (CategoryView {
                name: categories[j].name,
                mods: categories[j].mods.filter(none_of(ids)),
            }),
        names_of(categories_less(categories, ids)) == names_of(categories),
    decreases categories.len(),
{
    if categories.len() > 0 {
        lemma_categories_less(categories.drop_last(), ids);
        assert forall|j: int| 0 <= j < categories.len() implies categories_less(categories, ids)[j]
            == (CategoryView {
            name: categories[j].name,
            mods: categories[j].mods.filter(none_of(ids)),
        }) by {
            if j < categories.len() - 1 {
                assert(categories.drop_last()[j] == categories[j]);
            }
        }
    }
    assert(names_of(categories_less(categories, ids)) =~= names_of(categories));
}

impl GameConfigView {
    /// The registry with the reserved category, if it lacked it: the category
    /// is added, empty, and its name closes the order.
    pub open spec fn with_default_category(self) -> GameConfigView {
        if self.has_category(default_category()) {
            self
        } else {
            GameConfigView {
                categories: self.categories.push(
                    CategoryView { name: default_category(), mods: Seq::empty() },
                ),
                categories_order: self.categories_order.filter(
                    other_than(default_category()),
                ).push(default_category()),
                ..self
            }
        }
    }

    /// The registry with the mods `ids` moved to the end of the category
    /// `category`, out of whatever category they were in.
    pub open spec fn with_mods_in(self, ids: Seq<Seq<char>>, category: Seq<char>) -> GameConfigView {
        let k = position(self.names(), category);
        let less = categories_less(self.categories, ids);
        GameConfigView {
            categories: less.update(
                k,
                CategoryView { name: less[k].name, mods: less[k].mods + ids },
            ),
            ..self
        }
    }

    /// Whether `name` is the name of the last, in the order of the names, of
    /// the categories that hold the mod `id`.
    pub open spec fn is_category_of(self, id: Seq<char>, name: Seq<char>) -> bool {
        &&& exists|k: int|
            0 <= k < self.categories.len() && self.categories[k].name == name
                && #[trigger] self.categories[k].mods.contains(id)
        &&& forall|j: int|
            0 <= j < self.categories.len() && #[trigger] self.categories[j].mods.contains(id)
                ==> lex_le(self.categories[j].name, name)
    }
}

impl GameConfig {
    /// The registry as it is used: the one that was stored, with the reserved
    /// category added if it lacked it, or a new one where none was stored.
    pub fn load(game_key: &str, stored: Option<GameConfig>) -> (r: GameConfig)
        ensures
            r@ == match stored {
                Some(config) => config@.with_default_category(),
                None => GameConfigView {
                    game_key: game_key@,
                    mods: Seq::empty(),
                    categories: seq![CategoryView { name: default_category(), mods: Seq::empty() }],
                    categories_order: seq![default_category()],
                },
            },
            match stored {
                Some(config) => config@.wf() ==> r@.wf(),
                None => r@.wf(),
            },
    {
        match stored {
            Some(config) => {
                let mut config = config;
                let ghost before = config@;
                proof {
                    if before.wf() {
                        lemma_names_stay_apart(before, Seq::empty(), Seq::empty());
                    }
                }
                if config.find_category(DEFAULT_CATEGORY).is_none() {
                    config.categories.push(
                        Category { name: DEFAULT_CATEGORY.to_owned(), mods: Vec::new() },
                    );
                    let mut order = without_text(&config.categories_order, DEFAULT_CATEGORY);
                    let ghost others = order.deep_view();
                    order.push(DEFAULT_CATEGORY.to_owned());
                    config.categories_order = order;
                    proof {
                        assert(config.categories@.last().mods.deep_view() =~= Seq::empty());
                        assert(config@.categories =~= before.categories.push(
                            CategoryView { name: default_category(), mods: Seq::empty() },
                        ));
                        assert(config@.categories_order =~= others.push(default_category()));
                        assert(config@.mods =~= before.mods);
                    }
                }
                config
            },
            None => GameConfig::new(game_key),
        }
    }

    /// The category of the mod `id`: the reserved one if no category holds
    /// the mod, and else, of the categories that hold it, the one whose name
    /// comes last.
    pub fn category_for_mod(&self, id: &str) -> (r: String)
        ensures
            !in_some_category(self@.categories, id@) ==> r@ == default_category(),
            in_some_category(self@.categories, id@) ==> self@.is_category_of(id@, r@),
    {
        let ghost cats = self@.categories;
        let mut best: Option<usize> = None;
        let mut k: usize = 0;
        while k < self.categories.len()
            invariant
                k <= self.categories@.len(),
                cats == self@.categories,
                cats.len() == self.categories@.len(),
                best is None ==> forall|j: int|
                    0 <= j < k ==> !(#[trigger] cats[j].mods.contains(id@)),
                best is Some ==> best->0 < k && cats[best->0 as int].mods.contains(id@)
                    && forall|j: int|
                    0 <= j < k && #[trigger] cats[j].mods.contains(id@) ==> lex_le(
                        cats[j].name,
                        cats[best->0 as int].name,
                    ),
            decreases self.categories@.len() - k,
        {
            assert(cats[k as int].mods == self.categories@[k as int].mods.deep_view());
            assert(cats[k as int].name == self.categories@[k as int].name@);
            if contains_text(&self.categories[k].mods, id) {
                match best {
                    None => {
                        proof {
                            crate::text::lemma_lex_le_total(cats[k as int].name, cats[k as int].name);
                        }
                        best = Some(k);
                    },
                    Some(b) => {
                        assert(cats[b as int].name == self.categories@[b as int].name@);
                        if text_le(
                            self.categories[b].name.as_str(),
                            self.categories[k].name.as_str(),
                        ) {
                            proof {
                                crate::text::lemma_lex_le_total(
                                    cats[k as int].name,
                                    cats[k as int].name,
                                );
                                assert forall|j: int|
                                    0 <= j < k + 1 && #[trigger] cats[j].mods.contains(
                                        id@,
                                    ) implies lex_le(cats[j].name, cats[k as int].name) by {
                                    if j < k {
                                        crate::text::lemma_lex_le_transitive(
                                            cats[j].name,
                                            cats[b as int].name,
                                            cats[k as int].name,
                                        );
                                    }
                                }
                            }
                            best = Some(k);
                        } else {
                            proof {
                                crate::text::lemma_lex_le_total(
                                    cats[b as int].name,
                                    cats[k as int].name,
                                );
                            }
                        }
                    },
                }
            }
            k += 1;
        }
        match best {
            Some(b) => {
                assert(cats[b as int].name == self.categories@[b as int].name@);
                self.categories[b].name.clone()
            },
            None => DEFAULT_CATEGORY.to_owned(),
        }
    }

    /// Moves the mods `mod_ids` to the end of the category `category`, out
    /// of whatever category they were in. Refused, with nothing changed,
    /// where there is no such category.
    pub fn move_mods_to_category(&mut self, mod_ids: &Vec<String>, category: &str) -> (r: Result<
        (),
        CategoryError,
    >)
        ensures
            r is Err <==> !old(self)@.has_category(category@),
            r is Err ==> r->Err_0 == CategoryError::NotFound && final(self)@ == old(self)@,
            r is Ok ==> final(self)@ == old(self)@.with_mods_in(mod_ids.deep_view(), category@),
            old(self)@.wf() ==> final(self)@.wf(),
            old(self)@.default_is_last() ==> final(self)@.default_is_last(),
    {
        let ghost before = self@;
        let ghost ids = mod_ids.deep_view();
        let target = match self.find_category(category) {
            Some(k) => k,
            None => {
                return Err(CategoryError::NotFound);
            },
        };
        let ghost stay = none_of(ids);
        let mut k: usize = 0;
        proof {
            lemma_categories_less(before.categories, ids);
        }
        while k < self.categories.len()
            invariant
                k <= self.categories@.len(),
                self.categories@.len() == before.categories.len(),
                self@.mods == before.mods,
                self@.game_key == before.game_key,
                self@.categories_order == before.categories_order,
                ids == mod_ids.deep_view(),
                stay == none_of(ids),
                forall|j: int|
                    0 <= j < k ==> self@.categories[j] == categories_less(
                        before.categories,
                        ids,
                    )[j],
                forall|j: int|
                    k <= j < before.categories.len() ==> self@.categories[j]
                        == before.categories[j],
                forall|j: int|
                    0 <= j < before.categories.len() ==> categories_less(before.categories, ids)[j]
                        == (CategoryView {
                        name: before.categories[j].name,
                        mods: before.categories[j].mods.filter(none_of(ids)),
                    }),
            decreases self.categories@.len() - k,
        {
            let ghost now = self@;
            let ghost src = self.categories@[k as int].mods.deep_view();
            assert(src == before.categories[k as int].mods);
            let mut left: Vec<String> = Vec::new();
            let mut n: usize = 0;
            proof {
                lemma_filter_empty(src.take(0), stay);
                assert(left.deep_view() =~= src.take(0).filter(stay));
            }
            while n < self.categories[k].mods.len()
                invariant
                    k < self.categories@.len(),
                    n <= self.categories@[k as int].mods@.len(),
                    self@ == now,
                    src == self.categories@[k as int].mods.deep_view(),
                    ids == mod_ids.deep_view(),
                    stay == none_of(ids),
                    left.deep_view() == src.take(n as int).filter(stay),
                decreases self.categories@[k as int].mods@.len() - n,
            {
                proof {
                    lemma_filter_step(src, stay, n as int);
                }
                let ghost so_far = left.deep_view();
                if !contains_text(mod_ids, self.categories[k].mods[n].as_str()) {
                    left.push(self.categories[k].mods[n].clone());
                    assert(left.deep_view() =~= so_far.push(src[n as int]));
                }
                n += 1;
            }
            proof {
                lemma_take_all(src);
            }
            self.categories[k].mods = left;
            proof {
                assert(self@.mods =~= now.mods);
                assert(self@.categories_order =~= now.categories_order);
                assert forall|j: int| 0 <= j < k implies self@.categories[j] == categories_less(
                    before.categories,
                    ids,
                )[j] by {
                    assert(self@.categories[j] == now.categories[j]);
                }
                assert forall|j: int| k < j < before.categories.len() implies self@.categories[j]
                    == before.categories[j] by {
                    assert(self@.categories[j] == now.categories[j]);
                }
            }
            k += 1;
        }
        let ghost less = categories_less(before.categories, ids);
        assert(self@.categories =~= less);
        let ghost mine = self.categories@[target as int].mods.deep_view();
        let mut moved = clone_strings(mod_ids);
        self.categories[target].mods.append(&mut moved);
        proof {
            assert(self.categories@[target as int].mods.deep_view() =~= mine + ids);
            assert(self@.categories =~= less.update(
                target as int,
                CategoryView { name: less[target as int].name, mods: mine + ids },
            ));
            assert(self@.mods =~= before.mods);
            assert(self@.categories_order =~= before.categories_order);
            assert(self@.names() =~= before.names());
        }
        Ok(())
    }

    /// Takes the category `source_id` out of the order and puts it back
    /// directly before the category `target_id`. Returns the new order.
    /// Refused, with nothing changed, for the reserved category, which
    /// stays last, and where the order lacks one of the two.
    pub fn reorder_categories(&mut self, source_id: &str, target_id: &str) -> (r: Result<
        Vec<String>,
        CategoryError,
    >)
        ensures
            r is Err <==> old(self)@.reorder_refusal(source_id@, target_id@) is Some,
            r is Err ==> final(self)@ == old(self)@ && r->Err_0 == old(self)@.reorder_refusal(
                source_id@,
                target_id@,
            )->0,
            r is Ok ==> final(self)@ == (GameConfigView {
                categories_order: crate::load_order::moved_above(
                    old(self)@.categories_order,
                    source_id@,
                    target_id@,
                ),
                ..old(self)@
            }),
            r is Ok ==> r->Ok_0.deep_view() == final(self)@.categories_order,
            old(self)@.wf() ==> final(self)@.wf(),
            old(self)@.default_is_last() ==> final(self)@.default_is_last(),
    {
        let ghost before = self@;
        if str_eq(source_id, DEFAULT_CATEGORY) {
            return Err(CategoryError::CannotMoveDefault);
        }
        let source_index = match find_text(&self.categories_order, source_id) {
            Some(k) => k,
            None => {
                return Err(CategoryError::SourceNotFound);
            },
        };
        let target_index = match find_text(&self.categories_order, target_id) {
            Some(k) => k,
            None => {
                return Err(CategoryError::TargetNotFound);
            },
        };
        proof {
            lemma_position(before.categories_order, source_id@);
            lemma_position(before.categories_order, target_id@);
            assert(before.categories_order[source_index as int] == source_id@);
        }
        if source_index != target_index {
            let source_category = self.categories_order.remove(source_index);
            assert(source_category@ == source_id@);
            let new_target_index: usize = if source_index < target_index {
                target_index - 1
            } else {
                target_index
            };
            self.categories_order.insert(new_target_index, source_category);
        }
        proof {
            assert(self@.categories_order =~= crate::load_order::moved_above(
                before.categories_order,
                source_id@,
                target_id@,
            ));
            assert(self@.mods =~= before.mods);
            assert(self@.categories =~= before.categories);
            if before.default_is_last() {
                lemma_reorder_keeps_default_last(before, source_id@, target_id@);
            }
        }
        Ok(clone_strings(&self.categories_order))
    }
}

/// Taking one element out keeps a sequence free of duplicates.
proof fn lemma_remove_keeps_apart(names: Seq<Seq<char>>, k: int)
    requires
        names.no_duplicates(),
        0 <= k < names.len(),
    ensures
        names.remove(k).no_duplicates(),
{
    let rest = names.remove(k);
    assert forall|i: int, j: int| 0 <= i < rest.len() && 0 <= j < rest.len() && i != j implies rest[i]
        != rest[j] by {
        let a = if i < k {
            i
        } else {
            i + 1
        };
        let b = if j < k {
            j
        } else {
            j + 1
        };
        assert(rest[i] == names[a] && rest[j] == names[b]);
    }
}

/// The edits of the categories, and putting the categories in order, never
/// give two categories the same name.
pub proof fn lemma_names_stay_apart(c: GameConfigView, name: Seq<char>, new_name: Seq<char>)
    requires
        c.names().no_duplicates(),
    ensures
        c.create_refusal(name) is None ==> c.with_category(name).names().no_duplicates(),
        c.rename_refusal(name, new_name) is None ==> c.with_renamed(
            name,
            new_name,
        ).names().no_duplicates(),
        c.without_category(name).names().no_duplicates(),
        c.tidied().names().no_duplicates(),
        c.with_default_category().names().no_duplicates(),
{
    let names = c.names();
    lemma_position(names, name);
    lemma_position(names, new_name);
    lemma_position(names, default_category());
    if c.create_refusal(name) is None {
        let after = c.with_category(name).names();
        assert(after =~= names.push(name));
        assert forall|i: int, j: int|
            0 <= i < after.len() && 0 <= j < after.len() && i != j implies after[i] != after[j] by {
            if i < names.len() && j < names.len() {
            } else if i < names.len() {
                assert(names[i] != name);
            } else {
                assert(names[j] != name);
            }
        }
    }
    if c.rename_refusal(name, new_name) is None {
        let k = position(names, name);
        let after = c.with_renamed(name, new_name).names();
        if k >= 0 {
            assert(after =~= names.update(k, new_name));
            if name != new_name {
                assert forall|i: int, j: int|
                    0 <= i < after.len() && 0 <= j < after.len() && i != j implies after[i]
                    != after[j] by {
                    if i == k {
                        assert(names[j] != new_name);
                    } else if j == k {
                        assert(names[i] != new_name);
                    }
                }
            } else {
                assert(after =~= names);
            }
        }
    }
    {
        let k = position(names, name);
        if k >= 0 {
            let rest = c.categories.remove(k);
            assert(names_of(rest) =~= names.remove(k));
            lemma_remove_keeps_apart(names, k);
            lemma_position(names_of(rest), default_category());
            assert(c.without_category(name).names() =~= names_of(rest));
        }
    }
    {
        let kept = pruned(c.categories, c.mods);
        assert(names_of(kept) =~= names);
        let after = c.tidied().names();
        if position(names_of(kept), default_category()) >= 0 {
            assert(after =~= names);
        } else {
            assert(after =~= names.push(default_category()));
            assert forall|i: int, j: int|
                0 <= i < after.len() && 0 <= j < after.len() && i != j implies after[i]
                != after[j] by {
                if i < names.len() && j < names.len() {
                } else if i < names.len() {
                    assert(names[i] != default_category());
                } else {
                    assert(names[j] != default_category());
                }
            }
        }
    }
    {
        let after = c.with_default_category().names();
        if !c.has_category(default_category()) {
            assert(after =~= names.push(default_category()));
            assert forall|i: int, j: int|
                0 <= i < after.len() && 0 <= j < after.len() && i != j implies after[i]
                != after[j] by {
                if i < names.len() && j < names.len() {
                } else if i < names.len() {
                    assert(names[i] != default_category());
                } else {
                    assert(names[j] != default_category());
                }
            }
        }
    }
}

/// Moving a category in the order leaves the reserved category at the end:
/// the reserved category itself is not moved.
pub proof fn lemma_reorder_keeps_default_last(
    c: GameConfigView,
    source: Seq<char>,
    target: Seq<char>,
)
    requires
        c.default_is_last(),
        source != default_category(),
        position(c.categories_order, source) >= 0,
        position(c.categories_order, target) >= 0,
    ensures
        crate::load_order::moved_above(c.categories_order, source, target).len()
            == c.categories_order.len(),
        crate::load_order::moved_above(c.categories_order, source, target).last()
            == default_category(),
{
    lemma_position(c.categories_order, source);
    lemma_position(c.categories_order, target);
}

/// Whether no mod is in two categories, or twice in one.
pub open spec fn holds_once(categories: Seq<CategoryView>) -> bool {
    forall|k1: int, i1: int, k2: int, i2: int|
        0 <= k1 < categories.len() && 0 <= i1 < categories[k1].mods.len() && 0 <= k2
            < categories.len() && 0 <= i2 < categories[k2].mods.len() && #[trigger] categories[k1].mods[i1]
            == #[trigger] categories[k2].mods[i2] ==> k1 == k2 && i1 == i2
}

/// What passes a filter stands in the filtered sequence in the order it had:
/// every place of the filtered sequence comes from a place of the sequence,
/// and a later place from a later one.
proof fn lemma_filter_places(s: Seq<Seq<char>>, pred: spec_fn(Seq<char>) -> bool)
    ensures
        forall|i: int|
            0 <= i < s.filter(pred).len() ==> s.contains(#[trigger] s.filter(pred)[i]),
        s.no_duplicates() ==> s.filter(pred).no_duplicates(),
    decreases s.len(),
{
    reveal(Seq::filter);
    if s.len() > 0 {
        let front = s.drop_last();
        let kept = front.filter(pred);
        lemma_filter_places(front, pred);
        assert forall|i: int| 0 <= i < kept.len() implies s.contains(#[trigger] kept[i]) by {
            let j = choose|j: int| 0 <= j < front.len() && front[j] == kept[i];
            assert(s[j] == kept[i]);
        }
        assert forall|i: int| 0 <= i < s.filter(pred).len() implies s.contains(
            #[trigger] s.filter(pred)[i],
        ) by {
            if i < kept.len() {
                assert(s.filter(pred)[i] == kept[i]);
            } else {
                assert(s[s.len() - 1] == s.filter(pred)[i]);
            }
        }
        if s.no_duplicates() {
            assert forall|i: int, j: int|
                0 <= i < front.len() && 0 <= j < front.len() && i != j implies front[i]
                != front[j] by {
                assert(front[i] == s[i] && front[j] == s[j]);
            }
            if pred(s.last()) {
                let all = kept.push(s.last());
                assert forall|i: int, j: int|
                    0 <= i < all.len() && 0 <= j < all.len() && i != j implies all[i]
                    != all[j] by {
                    if i < kept.len() && j < kept.len() {
                    } else {
                        let low = if i < kept.len() {
                            i
                        } else {
                            j
                        };
                        let at = choose|at: int| 0 <= at < front.len() && front[at] == kept[low];
                        assert(s[at] == kept[low]);
                    }
                }
            }
        }
    }
}

/// Putting the categories in order leaves every installed mod in one
/// category only: if no mod was in two categories before, none is after, and
/// with that every installed mod is in exactly one.
pub proof fn lemma_tidied_holds_once(c: GameConfigView)
    requires
        c.ids().no_duplicates(),
        holds_once(c.categories),
    ensures
        holds_once(c.tidied().categories),
{
    let kept = pruned(c.categories, c.mods);
    let extra = uncategorised(c.mods, kept);
    let d = position(names_of(kept), default_category());
    let after = c.tidied().categories;
    let installed = installed_in(c.mods);
    let loose = loose_in(kept);
    lemma_position(names_of(kept), default_category());

    assert forall|k: int| 0 <= k < kept.len() implies (#[trigger] kept[k]).mods.no_duplicates()
        && forall|i: int|
        0 <= i < kept[k].mods.len() ==> c.categories[k].mods.contains(#[trigger] kept[k].mods[i]) by {
        lemma_filter_places(c.categories[k].mods, installed);
        assert forall|i: int, j: int|
            0 <= i < c.categories[k].mods.len() && 0 <= j < c.categories[k].mods.len() && i
                != j implies c.categories[k].mods[i] != c.categories[k].mods[j] by {}
    }
    assert(holds_once(kept)) by {
        assert forall|k1: int, i1: int, k2: int, i2: int|
            0 <= k1 < kept.len() && 0 <= i1 < kept[k1].mods.len() && 0 <= k2 < kept.len() && 0
                <= i2 < kept[k2].mods.len() && #[trigger] kept[k1].mods[i1]
                == #[trigger] kept[k2].mods[i2] implies k1 == k2 && i1 == i2 by {
            let id = kept[k1].mods[i1];
            assert(c.categories[k1].mods.contains(kept[k1].mods[i1]));
            assert(c.categories[k2].mods.contains(kept[k2].mods[i2]));
            let j1 = choose|j: int|
                0 <= j < c.categories[k1].mods.len() && c.categories[k1].mods[j] == id;
            let j2 = choose|j: int|
                0 <= j < c.categories[k2].mods.len() && c.categories[k2].mods[j] == id;
            assert(c.categories[k1].mods[j1] == c.categories[k2].mods[j2]);
            assert(kept[k1].mods.no_duplicates());
        }
    }
    // The mods that are added are each there once, and in no category yet.
    let picked = c.mods.filter(loose);
    assert forall|i: int| 0 <= i < extra.len() implies !in_some_category(kept, #[trigger] extra[i])
        && c.mods.contains(picked[i]) by {
        assert(picked.contains(picked[i]));
        lemma_filter_contains(c.mods, loose, picked[i]);
    }
    assert(extra.no_duplicates()) by {
        assert forall|i: int, j: int|
            0 <= i < extra.len() && 0 <= j < extra.len() && i != j implies extra[i] != extra[j] by {
            if extra[i] == extra[j] {
                lemma_mod_filter_places(c.mods, loose, i, j);
            }
        }
    }
    assert forall|k1: int, i1: int, k2: int, i2: int|
        0 <= k1 < after.len() && 0 <= i1 < after[k1].mods.len() && 0 <= k2 < after.len() && 0
            <= i2 < after[k2].mods.len() && #[trigger] after[k1].mods[i1]
            == #[trigger] after[k2].mods[i2] implies k1 == k2 && i1 == i2 by {
        let home = if d >= 0 {
            d
        } else {
            kept.len() as int
        };
        let own = if d >= 0 {
            kept[d].mods.len() as int
        } else {
            0
        };
        let new1 = k1 == home && i1 >= own;
        let new2 = k2 == home && i2 >= own;
        if !new1 {
            assert(after[k1].mods[i1] == kept[k1].mods[i1]);
            assert(kept[k1].mods.contains(kept[k1].mods[i1]));
        }
        if !new2 {
            assert(after[k2].mods[i2] == kept[k2].mods[i2]);
            assert(kept[k2].mods.contains(kept[k2].mods[i2]));
        }
        if new1 {
            assert(after[k1].mods[i1] == extra[i1 - own]);
        }
        if new2 {
            assert(after[k2].mods[i2] == extra[i2 - own]);
        }
    }
}

/// Two places of a filtered registry that hold mods of the same id are one
/// place, where no id names two mods.
pub proof fn lemma_mod_filter_places(mods: Seq<ModView>, pred: spec_fn(ModView) -> bool, i: int, j: int)
    requires
        ids_of(mods).no_duplicates(),
        0 <= i < mods.filter(pred).len(),
        0 <= j < mods.filter(pred).len(),
        mods.filter(pred)[i].id == mods.filter(pred)[j].id,
    ensures
        i == j,
    decreases mods.len(),
{
    reveal(Seq::filter);
    if mods.len() > 0 {
        let front = mods.drop_last();
        let kept = front.filter(pred);
        assert(ids_of(front).no_duplicates()) by {
            assert forall|a: int, b: int|
                0 <= a < front.len() && 0 <= b < front.len() && a != b implies ids_of(front)[a]
                != ids_of(front)[b] by {
                assert(ids_of(front)[a] == ids_of(mods)[a] && ids_of(front)[b] == ids_of(mods)[b]);
            }
        }
        if i < kept.len() && j < kept.len() {
            lemma_mod_filter_places(front, pred, i, j);
        } else if i != j {
            let low = if i < kept.len() {
                i
            } else {
                j
            };
            assert(kept.contains(kept[low]));
            lemma_filter_contains(front, pred, kept[low]);
            let at = choose|at: int| 0 <= at < front.len() && front[at] == kept[low];
            assert(ids_of(mods)[at] == ids_of(mods)[mods.len() - 1]);
        }
    }
}

} // verus!
