//! What the window of the launcher shows: the plain records that the lists
//! and trees are filled from.

use vstd::prelude::*;
use vstd::string::*;
use crate::game_config::{ids_of, installed_in, GameConfig, GameConfigView};
use crate::games::{GameTraits, GameTraitsView};
use crate::launch_options::{join, joined};
use crate::load_order::LoadOrder;
use crate::mods::{alt_name_of, Mod, ModView, Tier};
use crate::store::{StoreId, StoreIdView};
use crate::paths::{file_name, file_name_of, is_inside, path_is_inside};
use crate::seqs::{lemma_filter_empty, lemma_filter_step, lemma_take_all};
use crate::text::{after_last, ends_with, position, str_eq, text_after_last};

verus! {

/// A game in the side bar.
#[derive(Debug, PartialEq, Eq)]
pub struct SidebarIcon {
    pub id: String,
    pub name: String,
    pub icon: String,
}

/// A category in the tree of the mods, with the mods in it.
#[derive(Debug, PartialEq, Eq)]
pub struct TreeCategory {
    pub id: String,
    pub name: String,
    pub size: String,
    pub status: String,
    pub last_played: String,
    pub children: Vec<TreeItem>,
}

/// A mod in the tree of the mods.
#[derive(Debug, PartialEq, Eq)]
pub struct TreeItem {
    pub id: String,
    pub name: String,
    pub flags: String,
    pub location: String,
    pub creator: String,
    pub pack_type: String,
    /// The size of the file in bytes; zero where the store has not told and
    /// the file has to be asked.
    pub size: u64,
    pub created: u64,
    pub updated: u64,
    pub description: String,
    pub is_checked: bool,
}

/// A pack in the list of the load order.
#[derive(Debug, PartialEq, Eq)]
pub struct ListItem {
    pub id: String,
    pub pack: String,
    pub pack_type: String,
    pub order: i32,
    pub location: String,
    pub steam_id: String,
}

/// How far a piece of work has come. The id 0 stands for the loading of a
/// game, from 0 to 100.
#[derive(Clone, Copy, Debug, PartialEq, Eq)]
pub struct ProgressPayload {
    pub id: i32,
    pub progress: i32,
    pub total: i32,
}

/// A [`TreeItem`] with its texts as sequences of characters.
pub ghost struct TreeItemView {
    pub id: Seq<char>,
    pub name: Seq<char>,
    pub flags: Seq<char>,
    pub location: Seq<char>,
    pub creator: Seq<char>,
    pub pack_type: Seq<char>,
    pub size: u64,
    pub created: u64,
    pub updated: u64,
    pub description: Seq<char>,
    pub is_checked: bool,
}

impl DeepView for TreeItem {
    type V = TreeItemView;

    open spec fn deep_view(&self) -> TreeItemView {
        TreeItemView {
            id: self.id@,
            name: self.name@,
            flags: self.flags@,
            location: self.location@,
            creator: self.creator@,
            pack_type: self.pack_type@,
            size: self.size,
            created: self.created,
            updated: self.updated,
            description: self.description@,
            is_checked: self.is_checked,
        }
    }
}

impl View for TreeItem {
    type V = TreeItemView;

    open spec fn view(&self) -> TreeItemView {
        self.deep_view()
    }
}

/// A [`TreeCategory`] with its texts as sequences of characters.
pub ghost struct TreeCategoryView {
    pub id: Seq<char>,
    pub name: Seq<char>,
    pub size: Seq<char>,
    pub status: Seq<char>,
    pub last_played: Seq<char>,
    pub children: Seq<TreeItemView>,
}

impl DeepView for TreeCategory {
    type V = TreeCategoryView;

    open spec fn deep_view(&self) -> TreeCategoryView {
        TreeCategoryView {
            id: self.id@,
            name: self.name@,
            size: self.size@,
            status: self.status@,
            last_played: self.last_played@,
            children: self.children.deep_view(),
        }
    }
}

impl View for TreeCategory {
    type V = TreeCategoryView;

    open spec fn view(&self) -> TreeCategoryView {
        self.deep_view()
    }
}

/// A [`ListItem`] with its texts as sequences of characters.
pub ghost struct ListItemView {
    pub id: Seq<char>,
    pub pack: Seq<char>,
    pub pack_type: Seq<char>,
    pub order: i32,
    pub location: Seq<char>,
    pub steam_id: Seq<char>,
}

impl DeepView for ListItem {
    type V = ListItemView;

    open spec fn deep_view(&self) -> ListItemView {
        ListItemView {
            id: self.id@,
            pack: self.pack@,
            pack_type: self.pack_type@,
            order: self.order,
            location: self.location@,
            steam_id: self.steam_id@,
        }
    }
}

impl View for ListItem {
    type V = ListItemView;

    open spec fn view(&self) -> ListItemView {
        self.deep_view()
    }
}

/// The folders in which the launcher looks for the copies of a mod. The
/// secondary and the content folder are empty where there is none.
#[derive(Debug)]
pub struct Folders {
    pub data: String,
    pub secondary: String,
    pub content: String,
}

/// A [`Folders`] with its texts as sequences of characters.
pub ghost struct FoldersView {
    pub data: Seq<char>,
    pub secondary: Seq<char>,
    pub content: Seq<char>,
}

impl DeepView for Folders {
    type V = FoldersView;

    open spec fn deep_view(&self) -> FoldersView {
        FoldersView { data: self.data@, secondary: self.secondary@, content: self.content@ }
    }
}

impl View for Folders {
    type V = FoldersView;

    open spec fn view(&self) -> FoldersView {
        self.deep_view()
    }
}

/// The name under which the tree shows a mod: its title with its file name
/// behind it, or the file name alone where it has no title of its own. For a
/// legacy mod the name of the pack it stands for comes before the file name.
pub open spec fn item_name(m: ModView) -> Seq<char> {
    if m.name != m.id {
        if m.file_name.len() > 0 {
            "<b>"@ + m.name + "</b> <i>("@ + (match alt_name_of(m.file_name) {
                Some(alt) => alt,
                None => after_last(m.file_name, '/'),
            }) + " - "@ + m.id + ")</i>"@
        } else {
            "<b>"@ + m.name + "</b> <i>("@ + m.id + ")</i>"@
        }
    } else {
        "<i>"@ + m.name + "</i>"@
    }
}

/// The folders in which a mod has a copy, as the tree names them.
pub open spec fn locations_of(m: ModView, folders: FoldersView) -> Seq<Seq<char>> {
    (if m.has_copy_in(Tier::Data, folders.data, folders.secondary, folders.content) {
        seq!["Data"@]
    } else {
        Seq::empty()
    }) + (if m.has_copy_in(Tier::Secondary, folders.data, folders.secondary, folders.content) {
        seq!["Secondary"@]
    } else {
        Seq::empty()
    }) + (if m.has_copy_in(Tier::Content, folders.data, folders.secondary, folders.content)
        && m.store_id.id() is Some {
        seq!["Content ("@ + m.store_id.id()->0 + ")"@]
    } else {
        Seq::empty()
    })
}

/// The entry of a mod in the tree.
pub open spec fn tree_item(m: ModView, game: GameTraitsView, folders: FoldersView) -> TreeItemView {
    TreeItemView {
        id: "mod:"@ + m.id,
        name: item_name(m),
        flags: Seq::empty(),
        location: joined(locations_of(m, folders), ","@),
        creator: m.creator_name,
        pack_type: m.pack_type.label(),
        size: m.file_size,
        created: m.time_created as u64,
        updated: m.time_updated as u64,
        description: m.description,
        is_checked: m.is_enabled(game, folders.data),
    }
}

/// The entry in the tree of the mod that an id names.
pub open spec fn as_item(mods: Seq<ModView>, game: GameTraitsView, folders: FoldersView) -> spec_fn(
    Seq<char>,
) -> TreeItemView {
    |id: Seq<char>| tree_item(mods[position(ids_of(mods), id)], game, folders)
}

/// The entry of a category in the tree, with the installed mods in it.
pub open spec fn tree_category(
    config: GameConfigView,
    game: GameTraitsView,
    folders: FoldersView,
    name: Seq<char>,
) -> TreeCategoryView {
    TreeCategoryView {
        id: "cat:"@ + name,
        name,
        size: Seq::empty(),
        status: Seq::empty(),
        last_played: Seq::empty(),
        children: if position(config.names(), name) >= 0 {
            config.categories[position(config.names(), name)].mods.filter(
                installed_in(config.mods),
            ).map_values(as_item(config.mods, game, folders))
        } else {
            Seq::empty()
        },
    }
}

/// The tree of the mods: the categories in their order.
pub open spec fn tree_of(
    config: GameConfigView,
    game: GameTraitsView,
    folders: FoldersView,
    names: Seq<Seq<char>>,
) -> Seq<TreeCategoryView>
    decreases names.len(),
{
    if names.len() == 0 {
        Seq::empty()
    } else {
        tree_of(config, game, folders, names.drop_last()).push(
            tree_category(config, game, folders, names.last()),
        )
    }
}

/// The name under which the tree shows a mod.
fn name_of_item(modd: &Mod) -> (r: String)
    ensures
        r@ == item_name(modd@),
{
    if !str_eq(modd.name.as_str(), modd.id.as_str()) {
        let mut text = "<b>".to_owned();
        text.append(modd.name.as_str());
        text.append("</b> <i>(");
        if !modd.file_name.as_str().is_empty() {
            let pack_name = match modd.alt_name() {
                Some(alt) => alt,
                None => text_after_last(modd.file_name.as_str(), '/'),
            };
            text.append(pack_name.as_str());
            text.append(" - ");
        }
        text.append(modd.id.as_str());
        text.append(")</i>");
        text
    } else {
        let mut text = "<i>".to_owned();
        text.append(modd.name.as_str());
        text.append("</i>");
        text
    }
}

/// The entry of a mod in the tree.
pub fn item_for_mod(modd: &Mod, game: &GameTraits, folders: &Folders) -> (r: TreeItem)
    ensures
        r@ == tree_item(modd@, game@, folders@),
{
    let (in_data, in_secondary, in_content) = modd.location(
        folders.data.as_str(),
        folders.secondary.as_str(),
        folders.content.as_str(),
    );
    let mut locations: Vec<String> = Vec::new();
    assert(locations.deep_view() =~= Seq::empty());
    if in_data {
        locations.push("Data".to_owned());
    }
    let ghost first = locations.deep_view();
    assert(first =~= if in_data {
        seq!["Data"@]
    } else {
        Seq::empty()
    });
    if in_secondary {
        locations.push("Secondary".to_owned());
    }
    let ghost second = locations.deep_view();
    assert(second =~= first + (if in_secondary {
        seq!["Secondary"@]
    } else {
        Seq::empty()
    }));
    if let Some(id) = in_content.id() {
        let mut text = "Content (".to_owned();
        text.append(id.as_str());
        text.append(")");
        locations.push(text);
        assert(locations.deep_view() =~= second + seq!["Content ("@ + id@ + ")"@]);
    } else {
        assert(locations.deep_view() =~= second + Seq::<Seq<char>>::empty());
    }
    assert(locations.deep_view() == locations_of(modd@, folders@));
    let mut id = "mod:".to_owned();
    id.append(modd.id.as_str());
    TreeItem {
        id,
        name: name_of_item(modd),
        flags: String::new(),
        location: join(&locations, ","),
        creator: modd.creator_name.clone(),
        pack_type: modd.pack_type.name(),
        size: modd.file_size,
        created: modd.time_created as u64,
        updated: modd.time_updated as u64,
        description: modd.description.clone(),
        is_checked: modd.enabled(game, folders.data.as_str()),
    }
}

/// The tree of the mods: the categories in their order, each with the
/// installed mods in it.
pub fn load_mods(game_config: &GameConfig, game: &GameTraits, folders: &Folders) -> (r: Vec<
    TreeCategory,
>)
    ensures
        r.deep_view() == tree_of(game_config@, game@, folders@, game_config@.categories_order),
{
    let ghost config = game_config@;
    let ghost names = config.categories_order;
    let mut categories: Vec<TreeCategory> = Vec::new();
    let mut i: usize = 0;
    proof {
        assert(names.take(0) =~= Seq::empty());
        assert(categories.deep_view() =~= Seq::empty());
    }
    while i < game_config.categories_order.len()
        invariant
            i <= game_config.categories_order@.len(),
            config == game_config@,
            names == config.categories_order,
            names.len() == game_config.categories_order@.len(),
            categories.deep_view() == tree_of(config, game@, folders@, names.take(i as int)),
        decreases game_config.categories_order@.len() - i,
    {
        let category = &game_config.categories_order[i];
        assert(names[i as int] == category@);
        assert(names.take(i + 1).drop_last() == names.take(i as int));
        assert(names.take(i + 1).last() == category@);
        let mut children: Vec<TreeItem> = Vec::new();
        assert(children.deep_view() =~= Seq::empty());
        if let Some(k) = game_config.find_category(category.as_str()) {
            let ids = &game_config.categories[k].mods;
            let ghost src = ids.deep_view();
            assert(src == config.categories[k as int].mods);
            let ghost pred = installed_in(config.mods);
            let ghost f = as_item(config.mods, game@, folders@);
            let mut n: usize = 0;
            proof {
                lemma_filter_empty(src.take(0), pred);
                assert(children.deep_view() =~= src.take(0).filter(pred).map_values(f));
            }
            while n < ids.len()
                invariant
                    n <= ids@.len(),
                    config == game_config@,
                    src == ids.deep_view(),
                    pred == installed_in(config.mods),
                    f == as_item(config.mods, game@, folders@),
                    children.deep_view() == src.take(n as int).filter(pred).map_values(f),
                decreases ids@.len() - n,
            {
                proof {
                    lemma_filter_step(src, pred, n as int);
                }
                let ghost before = children.deep_view();
                if let Some(m) = game_config.find_mod(ids[n].as_str()) {
                    let modd = &game_config.mods[m];
                    assert(modd@ == config.mods[m as int]);
                    assert(modd@.paths.len() == modd.paths@.len());
                    if modd.paths.len() > 0 {
                        children.push(item_for_mod(modd, game, folders));
                        proof {
                            assert(children.deep_view() =~= before.push(f(src[n as int])));
                            assert(src.take(n as int).filter(pred).push(src[n as int]).map_values(
                                f,
                            ) =~= src.take(n as int).filter(pred).map_values(f).push(
                                f(src[n as int]),
                            ));
                        }
                    }
                }
                n += 1;
            }
            proof {
                lemma_take_all(src);
            }
        }
        let mut id = "cat:".to_owned();
        id.append(category.as_str());
        let ghost before = categories.deep_view();
        let item = TreeCategory {
            id,
            name: category.clone(),
            size: String::new(),
            status: String::new(),
            last_played: String::new(),
            children,
        };
        assert(item@ == tree_category(config, game@, folders@, category@));
        categories.push(item);
        assert(categories.deep_view() =~= before.push(
            tree_category(config, game@, folders@, category@),
        ));
        i += 1;
    }
    proof {
        lemma_take_all(names);
    }
    categories
}

/// Where the list says the pack at `path` is loaded from, for a mod with
/// that store id.
pub open spec fn pack_location(
    path: Seq<char>,
    store_id: StoreIdView,
    data: Seq<char>,
    secondary: Seq<char>,
) -> Seq<char> {
    if is_inside(path, data) {
        "Data"@
    } else if secondary.len() > 0 && is_inside(path, secondary) {
        "Secondary ("@ + (match store_id.id() {
            Some(id) => id,
            None => "Local"@,
        }) + ")"@
    } else if store_id.id() is None {
        "Where the fuck is this pack?"@
    } else {
        "Content ("@ + store_id.id()->0 + ")"@
    }
}

/// The entry in the list of the pack that stands at `index` in the load
/// order, if it has one: the mod has to be in the registry and on disk, and
/// its file has to be a pack by its name.
pub open spec fn list_item(
    mods: Seq<ModView>,
    data: Seq<char>,
    secondary: Seq<char>,
    id: Seq<char>,
    index: int,
) -> Option<ListItemView> {
    let k = position(ids_of(mods), id);
    if k >= 0 && mods[k].paths.len() > 0 && ".pack"@.is_suffix_of(file_name(mods[k].paths[0])) {
        Some(
            ListItemView {
                id,
                pack: file_name(mods[k].paths[0]),
                pack_type: mods[k].pack_type.label(),
                order: index as i32,
                location: pack_location(mods[k].paths[0], mods[k].store_id, data, secondary),
                steam_id: Seq::empty(),
            },
        )
    } else {
        None
    }
}

/// The list of the packs of the first `count` entries of the load order.
pub open spec fn list_of(
    mods: Seq<ModView>,
    data: Seq<char>,
    secondary: Seq<char>,
    entries: Seq<Seq<char>>,
    count: int,
) -> Seq<ListItemView>
    decreases count,
{
    if count <= 0 {
        Seq::empty()
    } else {
        match list_item(mods, data, secondary, entries[count - 1], count - 1) {
            Some(item) => list_of(mods, data, secondary, entries, count - 1).push(item),
            None => list_of(mods, data, secondary, entries, count - 1),
        }
    }
}

/// Where the list says the pack at `path` is loaded from.
fn location_of_pack(path: &str, store_id: &StoreId, data: &str, secondary: &str) -> (r: String)
    ensures
        r@ == pack_location(path@, store_id@, data@, secondary@),
{
    if path_is_inside(path, data) {
        "Data".to_owned()
    } else if !secondary.is_empty() && path_is_inside(path, secondary) {
        let mut text = "Secondary (".to_owned();
        match store_id.id() {
            Some(id) => {
                text.append(id.as_str());
            },
            None => {
                text.append("Local");
            },
        }
        text.append(")");
        text
    } else {
        match store_id.id() {
            None => "Where the fuck is this pack?".to_owned(),
            Some(id) => {
                let mut text = "Content (".to_owned();
                text.append(id.as_str());
                text.append(")");
                text
            },
        }
    }
}

/// Adds the entries `ids`, which stand in the load order from `start` on, to
/// the list.
fn add_packs(
    items: &mut Vec<ListItem>,
    game_config: &GameConfig,
    data: &str,
    secondary: &str,
    ids: &Vec<String>,
    start: usize,
    Ghost(entries): Ghost<Seq<Seq<char>>>,
)
    requires
        start + ids@.len() <= entries.len() <= i32::MAX,
        entries.subrange(start as int, start + ids@.len()) == ids.deep_view(),
        old(items).deep_view() == list_of(game_config@.mods, data@, secondary@, entries, start as int),
    ensures
        final(items).deep_view() == list_of(
            game_config@.mods,
            data@,
            secondary@,
            entries,
            start + ids@.len(),
        ),
{
    let ghost mods = game_config@.mods;
    let mut i: usize = 0;
    while i < ids.len()
        invariant
            i <= ids@.len(),
            start + ids@.len() <= entries.len() <= i32::MAX,
            entries.subrange(start as int, start + ids@.len()) == ids.deep_view(),
            mods == game_config@.mods,
            items.deep_view() == list_of(mods, data@, secondary@, entries, start + i),
        decreases ids@.len() - i,
    {
        let id = &ids[i];
        assert(entries[start + i] == entries.subrange(start as int, start + ids@.len())[i as int]);
        assert(entries[start + i] == id@);
        let ghost before = items.deep_view();
        if let Some(k) = game_config.find_mod(id.as_str()) {
            let modd = &game_config.mods[k];
            assert(modd@ == mods[k as int]);
            assert(modd@.paths.len() == modd.paths@.len());
            if modd.paths.len() > 0 {
                assert(modd@.paths[0] == modd.paths@[0]@);
                let pack_name = file_name_of(modd.paths[0].as_str());
                if ends_with(pack_name.as_str(), ".pack") {
                    let item = ListItem {
                        id: id.clone(),
                        pack: pack_name,
                        pack_type: modd.pack_type.name(),
                        order: (start + i) as i32,
                        location: location_of_pack(
                            modd.paths[0].as_str(),
                            &modd.store_id,
                            data,
                            secondary,
                        ),
                        steam_id: String::new(),
                    };
                    assert(Some(item@) == list_item(mods, data@, secondary@, id@, start + i));
                    items.push(item);
                    assert(items.deep_view() =~= before.push(
                        list_item(mods, data@, secondary@, id@, start + i)->0,
                    ));
                }
            }
        }
        i += 1;
    }
}

/// The list of the packs of the load order, mods first: one entry for each
/// mod of the order that the registry knows, that is on disk and whose file
/// is a pack by its name, with its place in the order.
///
/// The places have to fit the number they are kept in.
pub fn load_packs(
    game_config: &GameConfig,
    load_order: &LoadOrder,
    data_folder: &str,
    secondary_path: &str,
) -> (r: Vec<ListItem>)
    requires
        load_order@.mods.len() + load_order@.movies.len() <= i32::MAX,
    ensures
        r.deep_view() == list_of(
            game_config@.mods,
            data_folder@,
            secondary_path@,
            load_order@.mods + load_order@.movies,
            (load_order@.mods + load_order@.movies).len() as int,
        ),
{
    let ghost entries = load_order@.mods + load_order@.movies;
    let mut items: Vec<ListItem> = Vec::new();
    assert(items.deep_view() =~= Seq::empty());
    assert(entries.subrange(0, load_order@.mods.len() as int) =~= load_order.mods.deep_view());
    add_packs(
        &mut items,
        game_config,
        data_folder,
        secondary_path,
        &load_order.mods,
        0,
        Ghost(entries),
    );
    assert(entries.subrange(load_order@.mods.len() as int, entries.len() as int)
        =~= load_order.movies.deep_view());
    add_packs(
        &mut items,
        game_config,
        data_folder,
        secondary_path,
        &load_order.movies,
        load_order.mods.len(),
        Ghost(entries),
    );
    items
}

/// The languages the launcher speaks.
pub fn get_available_languages() -> (r: Vec<String>)
    ensures
        r.deep_view() == seq!["English"@, "Español"@, "Français"@, "Deutsch"@, "Italiano"@],
{
    let mut out: Vec<String> = Vec::new();
    out.push("English".to_owned());
    out.push("Español".to_owned());
    out.push("Français".to_owned());
    out.push("Deutsch".to_owned());
    out.push("Italiano".to_owned());
    assert(out.deep_view() =~= seq!["English"@, "Español"@, "Français"@, "Deutsch"@, "Italiano"@]);
    out
}

/// The ways the launcher can write a date.
pub fn get_available_date_formats() -> (r: Vec<String>)
    ensures
        r.deep_view() == seq![
            "DD/MM/YYYY"@,
            "MM/DD/YYYY"@,
            "YYYY-MM-DD"@,
            "DD.MM.YYYY"@,
            "YYYY/MM/DD"@,
        ],
{
    let mut out: Vec<String> = Vec::new();
    out.push("DD/MM/YYYY".to_owned());
    out.push("MM/DD/YYYY".to_owned());
    out.push("YYYY-MM-DD".to_owned());
    out.push("DD.MM.YYYY".to_owned());
    out.push("YYYY/MM/DD".to_owned());
    assert(out.deep_view() =~= seq![
        "DD/MM/YYYY"@,
        "MM/DD/YYYY"@,
        "YYYY-MM-DD"@,
        "DD.MM.YYYY"@,
        "YYYY/MM/DD"@,
    ]);
    out
}

} // verus!
