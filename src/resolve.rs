use vstd::prelude::*;
use vstd::string::StringExecFns;
use vstd::utf8::{encode_scalar, encode_utf8};
use crate::config::{
    fuzzel_cache_path, fuzzel_config_path, make_fuzzel_cache_path, make_fuzzel_config_path,
    ComputedProgram, ConfigFile, IdGenerator, InheritanceFrame, PresetPaths, ResolvedItem,
    ResolvedMenu,
};
use crate::icons::{found_under, is_icon_path, resolve_icon};
use crate::parser::{Item, ItemContents, Menu};
use crate::text::{clone_strings, expand_tilde, push_str_bytes};

verus! {

/// What a frame of the inheritance stack hands down: icon directories and
/// the id of a menu with overrides.
pub type FrameView = (Seq<String>, Option<usize>);

/// The id of the nearest ancestor, from the current frame back to the root,
/// that defined selector configuration overrides.
pub open spec fn nearest_config_id(frames: Seq<FrameView>) -> Option<usize>
    decreases frames.len(),
{
    if frames.len() == 0 {
        None
    } else if frames.last().1 is Some {
        frames.last().1
    } else {
        nearest_config_id(frames.drop_last())
    }
}

/// The file that a new set of overrides builds on.
pub open spec fn base_config(frames: Seq<FrameView>, paths: PresetPaths) -> Seq<char> {
    match nearest_config_id(frames) {
        Some(i) => fuzzel_config_path(paths, i as nat),
        None => paths.default_fuzzel_config@,
    }
}

/// One `key=value` line per override, in declaration order.
pub open spec fn override_lines(pairs: Seq<(String, String)>) -> Seq<char>
    decreases pairs.len(),
{
    if pairs.len() == 0 {
        Seq::empty()
    } else {
        override_lines(pairs.drop_last()) + pairs.last().0@ + "="@ + pairs.last().1@ + "\n"@
    }
}

/// A generated selector configuration: a line that pulls in `base`, then
/// the overrides.
pub open spec fn synthetic_config(pairs: Seq<(String, String)>, base: Seq<char>) -> Seq<char> {
    "include="@ + base + "\n"@ + override_lines(pairs)
}

/// The final selector arguments of a menu with id `id`.
pub open spec fn menu_args(menu: Menu, frames: Seq<FrameView>, id: nat, paths: PresetPaths) -> Seq<Seq<char>> {
    menu.fuzzel_args.deep_view() + (if menu.fuzzel_config.len() == 0 {
        match nearest_config_id(frames) {
            Some(i) => seq!["--config"@, fuzzel_config_path(paths, i as nat)],
            None => Seq::empty(),
        }
    } else {
        seq!["--config"@, fuzzel_config_path(paths, id)]
    }) + seq!["--cache"@, fuzzel_cache_path(paths, id)]
}

/// The generated configuration file of a menu, if it defines overrides.
pub open spec fn own_config(menu: Menu, frames: Seq<FrameView>, id: nat, paths: PresetPaths) -> Seq<(Seq<char>, Seq<char>)> {
    if menu.fuzzel_config.len() == 0 {
        Seq::empty()
    } else {
        seq![(fuzzel_config_path(paths, id), synthetic_config(menu.fuzzel_config@, base_config(frames, paths)))]
    }
}

pub open spec fn file_view(f: ConfigFile) -> (Seq<char>, Seq<char>) {
    (f.path@, f.contents@)
}

pub open spec fn files_view(fs: Seq<ConfigFile>) -> Seq<(Seq<char>, Seq<char>)> {
    fs.map_values(|f: ConfigFile| file_view(f))
}

/// Computes the selector arguments of menu `id` and queues its generated
/// configuration file, if it has one.
pub fn selector_args(
    menu: &Menu,
    inheritance_stack: &[InheritanceFrame],
    id: usize,
    paths: &PresetPaths,
    writes: &mut Vec<ConfigFile>,
) -> (r: Vec<String>)
    ensures
        r.deep_view() == menu_args(*menu, inheritance_stack@.map_values(|f: InheritanceFrame| f@), id as nat, *paths),
        files_view(final(writes)@) == files_view(old(writes)@) + own_config(
            *menu,
            inheritance_stack@.map_values(|f: InheritanceFrame| f@),
            id as nat,
            *paths,
        ),
{
    let ghost frames = inheritance_stack@.map_values(|f: InheritanceFrame| f@);
    let mut args = clone_strings(&menu.fuzzel_args);
    let ghost own = args.deep_view();
    assert(own =~= menu.fuzzel_args.deep_view());
    let last_config = nearest_config(inheritance_stack);
    if menu.fuzzel_config.len() == 0 {
        if let Some(last) = last_config {
            args.push(String::from_str("--config"));
            args.push(make_fuzzel_config_path(last, paths));
        }
    } else {
        let path = make_fuzzel_config_path(id, paths);
        let base = match last_config {
            Some(last) => make_fuzzel_config_path(last, paths),
            None => paths.default_fuzzel_config.clone(),
        };
        let contents = config_contents(&menu.fuzzel_config, base.as_str());
        writes.push(ConfigFile { path: path.clone(), contents });
        args.push(String::from_str("--config"));
        args.push(path);
        assert(files_view(writes@) =~= files_view(old(writes)@) + own_config(*menu, frames, id as nat, *paths));
    }
    args.push(String::from_str("--cache"));
    args.push(make_fuzzel_cache_path(id, paths));
    assert(args.deep_view() =~= menu_args(*menu, frames, id as nat, *paths));
    proof {
        if menu.fuzzel_config.len() == 0 {
            assert(files_view(writes@) =~= files_view(old(writes)@) + own_config(*menu, frames, id as nat, *paths));
        }
    }
    args
}

/// The text of a generated selector configuration: a line that pulls in
/// `base`, then one `key=value` line per override.
pub fn config_contents(pairs: &Vec<(String, String)>, base: &str) -> (r: String)
    ensures
        r@ == synthetic_config(pairs@, base@),
{
    let mut r = String::from_str("include=").concat(base).concat("\n");
    let ghost head = r@;
    let mut i: usize = 0;
    while i < pairs.len()
        invariant
            i <= pairs.len(),
            head == "include="@ + base@ + "\n"@,
            r@ == head + override_lines(pairs@.subrange(0, i as int)),
        decreases pairs.len() - i,
    {
        let (key, value) = &pairs[i];
        r.append(key.as_str());
        r.append("=");
        r.append(value.as_str());
        r.append("\n");
        assert(pairs@.subrange(0, i + 1).drop_last() =~= pairs@.subrange(0, i as int));
        i += 1;
    }
    assert(pairs@.subrange(0, pairs.len() as int) =~= pairs@);
    r
}

/// Finds the id of the nearest ancestor that defined overrides.
pub fn nearest_config(inheritance_stack: &[InheritanceFrame]) -> (r: Option<usize>)
    ensures
        r == nearest_config_id(inheritance_stack@.map_values(|f: InheritanceFrame| f@)),
{
    let mut i = inheritance_stack.len();
    assert(inheritance_stack@.subrange(0, i as int) =~= inheritance_stack@);
    while i > 0
        invariant
            i <= inheritance_stack@.len(),
            nearest_config_id(inheritance_stack@.map_values(|f: InheritanceFrame| f@)) == nearest_config_id(
                inheritance_stack@.subrange(0, i as int).map_values(|f: InheritanceFrame| f@),
            ),
        decreases i,
    {
        let ghost prefix = inheritance_stack@.subrange(0, i as int).map_values(|f: InheritanceFrame| f@);
        assert(prefix.drop_last() =~= inheritance_stack@.subrange(0, i - 1).map_values(|f: InheritanceFrame| f@));
        if let Some(id) = inheritance_stack[i - 1].fuzzel_config_id {
            return Some(id);
        }
        i -= 1;
    }
    None
}

/// Icon directories handed down by the ancestors, nearest ancestor first.
pub open spec fn ancestor_dirs(frames: Seq<FrameView>) -> Seq<String>
    decreases frames.len(),
{
    if frames.len() == 0 {
        Seq::empty()
    } else {
        frames.last().0 + ancestor_dirs(frames.drop_last())
    }
}

/// Where the icons of a menu's items are searched: its own directories,
/// then those of its ancestors from the nearest to the root.
pub open spec fn menu_search_dirs(menu: Menu, frames: Seq<FrameView>) -> Seq<String> {
    menu.icon_dirs@ + ancestor_dirs(frames)
}

/// Where the icon of one item is searched: an item that opens a submenu
/// looks in that submenu's own directories first.
pub open spec fn item_search_dirs(item: Item, dirs: Seq<String>) -> Seq<String> {
    match item.contents {
        ItemContents::Menu(c) => c.icon_dirs@.reverse() + dirs,
        ItemContents::Program(_) => dirs,
    }
}

/// Lists the directories in which a menu's icons are searched.
pub fn search_dirs(menu: &Menu, inheritance_stack: &[InheritanceFrame]) -> (r: Vec<String>)
    ensures
        r@ == menu_search_dirs(*menu, inheritance_stack@.map_values(|f: InheritanceFrame| f@)),
{
    let ghost frames = inheritance_stack@.map_values(|f: InheritanceFrame| f@);
    let mut r = clone_strings(&menu.icon_dirs);
    let mut i = inheritance_stack.len();
    assert(frames.subrange(0, i as int) =~= frames);
    while i > 0
        invariant
            i <= inheritance_stack@.len(),
            frames == inheritance_stack@.map_values(|f: InheritanceFrame| f@),
            r@ + ancestor_dirs(frames.subrange(0, i as int)) == menu_search_dirs(*menu, frames),
        decreases i,
    {
        let ghost before = r@;
        let dirs = &inheritance_stack[i - 1].icon_dirs;
        let mut k: usize = 0;
        while k < dirs.len()
            invariant
                k <= dirs.len(),
                r@ == before + dirs@.subrange(0, k as int),
            decreases dirs.len() - k,
        {
            r.push(dirs[k].clone());
            k += 1;
        }
        proof {
            assert(dirs@.subrange(0, k as int) =~= dirs@);
            assert(frames.subrange(0, i - 1) =~= frames.subrange(0, i as int).drop_last());
            assert(before + ancestor_dirs(frames.subrange(0, i as int)) =~= r@ + ancestor_dirs(frames.subrange(0, i - 1)));
        }
        i -= 1;
    }
    assert(r@ =~= r@ + ancestor_dirs(frames.subrange(0, 0)));
    r
}

/// Lists the directories in which the icon of `item` is searched.
pub fn item_dirs(item: &Item, dirs: &Vec<String>) -> (r: Vec<String>)
    ensures
        r@ == item_search_dirs(*item, dirs@),
{
    match &item.contents {
        ItemContents::Menu(sub) => {
            let mut r: Vec<String> = Vec::new();
            let mut k = sub.icon_dirs.len();
            while k > 0
                invariant
                    k <= sub.icon_dirs.len(),
                    r@ == sub.icon_dirs@.subrange(k as int, sub.icon_dirs.len() as int).reverse(),
                decreases k,
            {
                r.push(sub.icon_dirs[k - 1].clone());
                k -= 1;
                assert(r@ =~= sub.icon_dirs@.subrange(k as int, sub.icon_dirs.len() as int).reverse());
            }
            let mut k: usize = 0;
            let ghost head = r@;
            while k < dirs.len()
                invariant
                    k <= dirs.len(),
                    r@ == head + dirs@.subrange(0, k as int),
                decreases dirs.len() - k,
            {
                r.push(dirs[k].clone());
                k += 1;
            }
            assert(dirs@.subrange(0, k as int) =~= dirs@);
            assert(sub.icon_dirs@.subrange(0, sub.icon_dirs.len() as int) =~= sub.icon_dirs@);
            r
        },
        ItemContents::Program(_) => clone_strings(dirs),
    }
}

/// The bytes between an item's name and its icon path: a null byte, the
/// word `icon` and a unit separator.
pub open spec fn icon_marker() -> Seq<u8> {
    seq![0u8, 105u8, 99u8, 111u8, 110u8, 31u8]
}

/// One line of a menu's input: the name, the icon when the item has one,
/// and a newline.
pub open spec fn item_line(item: Item, icon_path: Seq<char>) -> Seq<u8> {
    encode_utf8(item.name@) + (if item.icon is Some {
        icon_marker() + encode_utf8(icon_path)
    } else {
        Seq::empty()
    }) + seq![10u8]
}

/// The input of a menu whose items' icons resolved to `icons`.
pub open spec fn input_bytes(items: Seq<Item>, icons: Seq<Seq<char>>) -> Seq<u8>
    decreases items.len(),
{
    if items.len() == 0 {
        Seq::empty()
    } else {
        input_bytes(items.drop_last(), icons.drop_last()) + item_line(items.last(), icons.last())
    }
}

/// `path` is an acceptable resolution of the item's icon reference: the
/// reference itself with `~` expanded, or, for a bare name, an image of
/// that name found under one of `dirs`.
pub open spec fn icon_choice(item: Item, path: Seq<char>, home: Seq<char>, dirs: Seq<String>) -> bool {
    match item.icon {
        None => true,
        Some(icon) => path == expand_tilde(icon@, home) || (!icon@.contains('/') && is_icon_path(path, icon@)
            && found_under(path, dirs)),
    }
}

/// The input of a menu resolves every icon, searching under `dirs` and
/// each submenu's own directories, and follows `input_bytes`.
pub open spec fn input_resolved(items: Seq<Item>, input: Seq<u8>, home: Seq<char>, dirs: Seq<String>) -> bool {
    exists|icons: Seq<Seq<char>>| #![trigger input_bytes(items, icons)]
        {
            &&& icons.len() == items.len()
            &&& input == input_bytes(items, icons)
            &&& forall|j: int| 0 <= j < items.len() ==> icon_choice(
                #[trigger] items[j],
                icons[j],
                home,
                item_search_dirs(items[j], dirs),
            )
        }
}

/// Builds a menu's input: one line per item, in order; an item with an icon
/// carries the icon's resolved path, searched under `dirs` (and, for a
/// submenu, under its own directories first).
pub fn menu_input(menu: &Menu, dirs: &Vec<String>, home: &str) -> (r: Vec<u8>)
    ensures
        input_resolved(menu.items@, r@, home@, dirs@),
{
    let mut input: Vec<u8> = Vec::new();
    let ghost mut icons: Seq<Seq<char>> = Seq::empty();
    let mut i: usize = 0;
    while i < menu.items.len()
        invariant
            i <= menu.items.len(),
            icons.len() == i,
            input@ == input_bytes(menu.items@.subrange(0, i as int), icons),
            forall|j: int| 0 <= j < i ==> icon_choice(
                #[trigger] menu.items[j],
                icons[j],
                home@,
                item_search_dirs(menu.items[j], dirs@),
            ),
        decreases menu.items.len() - i,
    {
        let item = &menu.items[i];
        let ghost start = input@;
        push_str_bytes(&mut input, item.name.as_str());
        let ghost mut path: Seq<char> = Seq::empty();
        if let Some(icon) = &item.icon {
            let item_search = item_dirs(item, dirs);
            let icon_path = resolve_icon(icon.as_str(), &item_search, home);
            proof {
                path = icon_path@;
            }
            input.push(0u8);
            input.push(105u8);
            input.push(99u8);
            input.push(111u8);
            input.push(110u8);
            input.push(31u8);
            push_str_bytes(&mut input, icon_path.as_str());
        }
        input.push(10u8);
        proof {
            let next = icons.push(path);
            assert(menu.items@.subrange(0, i + 1).drop_last() =~= menu.items@.subrange(0, i as int));
            assert(next.drop_last() =~= icons);
            assert(input@ =~= start + item_line(*item, path));
            icons = next;
        }
        i += 1;
    }
    assert(menu.items@.subrange(0, i as int) =~= menu.items@);
    input
}

/// Number of menus in the tree rooted at `menu`, itself included.
pub open spec fn menu_count(menu: Menu) -> nat
    decreases menu, menu.items.len() + 1,
{
    1 + submenu_count(menu, menu.items.len() as int)
}

/// Number of menus in the subtrees of the first `j` items of `menu`.
pub open spec fn submenu_count(menu: Menu, j: int) -> nat
    decreases menu, j,
{
    if 0 < j <= menu.items.len() {
        submenu_count(menu, j - 1) + match menu.items[j - 1].contents {
            ItemContents::Menu(c) => menu_count(c),
            ItemContents::Program(_) => 0,
        }
    } else {
        0
    }
}

/// The id of the `j`-th item's submenu, in a pre-order numbering that gives
/// `menu` the id `id`.
pub open spec fn child_id(menu: Menu, id: nat, j: int) -> nat {
    id + 1 + submenu_count(menu, j)
}

/// The frames seen by the children of `menu`.
pub open spec fn child_frames(menu: Menu, frames: Seq<FrameView>, id: nat) -> Seq<FrameView> {
    frames.push((menu.icon_dirs@, if menu.fuzzel_config.len() == 0 {
        None
    } else {
        Some(id as usize)
    }))
}

/// The generated configuration files of the tree rooted at `menu`, in
/// pre-order.
pub open spec fn config_files(menu: Menu, frames: Seq<FrameView>, id: nat, paths: PresetPaths) -> Seq<(Seq<char>, Seq<char>)>
    decreases menu, menu.items.len() + 1,
{
    own_config(menu, frames, id, paths) + child_config_files(menu, frames, id, paths, menu.items.len() as int)
}

/// The generated configuration files of the subtrees of the first `j` items.
pub open spec fn child_config_files(menu: Menu, frames: Seq<FrameView>, id: nat, paths: PresetPaths, j: int) -> Seq<(Seq<char>, Seq<char>)>
    decreases menu, j,
{
    if 0 < j <= menu.items.len() {
        child_config_files(menu, frames, id, paths, j - 1) + match menu.items[j - 1].contents {
            ItemContents::Menu(c) => config_files(c, child_frames(menu, frames, id), child_id(menu, id, j - 1), paths),
            ItemContents::Program(_) => Seq::empty(),
        }
    } else {
        Seq::empty()
    }
}

/// `r` is the resolved form of `menu`, given the id `id` and the frames of
/// its ancestors: final arguments, one input line per item, and children
/// resolved in order.
pub open spec fn menu_resolved(menu: Menu, frames: Seq<FrameView>, id: nat, paths: PresetPaths, r: ResolvedMenu) -> bool
    decreases menu,
{
    &&& r.args.deep_view() == menu_args(menu, frames, id, paths)
    &&& input_resolved(menu.items@, r.input@, paths.home@, menu_search_dirs(menu, frames))
    &&& r.items.len() == menu.items.len()
    &&& forall|j: int| 0 <= j < menu.items.len() ==> item_resolved(
        #[trigger] menu.items[j],
        r.items[j],
        child_frames(menu, frames, id),
        child_id(menu, id, j),
        paths,
    )
}

pub open spec fn item_resolved(item: Item, r: ResolvedItem, frames: Seq<FrameView>, id: nat, paths: PresetPaths) -> bool
    decreases item,
{
    match item.contents {
        ItemContents::Program(p) => r is Program && r->Program_0.command@ == p.command@,
        ItemContents::Menu(c) => r is Menu && menu_resolved(c, frames, id, paths, r->Menu_0),
    }
}

/// A menu's subtree holds at least the menu itself, and counts only grow
/// along the items.
pub proof fn lemma_submenu_count_mono(menu: Menu, i: int, j: int)
    requires
        0 <= i <= j <= menu.items.len(),
    ensures
        submenu_count(menu, i) <= submenu_count(menu, j),
    decreases j,
{
    if i < j {
        lemma_submenu_count_mono(menu, i, j - 1);
    }
}

/// A copy of `inheritance_stack` with `frame` pushed on top.
fn extend_stack(inheritance_stack: &[InheritanceFrame], frame: &InheritanceFrame) -> (r: Vec<InheritanceFrame>)
    ensures
        r@.map_values(|f: InheritanceFrame| f@) == inheritance_stack@.map_values(|f: InheritanceFrame| f@).push(frame@),
{
    let mut r: Vec<InheritanceFrame> = Vec::new();
    let mut k: usize = 0;
    while k < inheritance_stack.len()
        invariant
            k <= inheritance_stack.len(),
            r.len() == k,
            forall|x: int| 0 <= x < k ==> (#[trigger] r@[x])@ == inheritance_stack@[x]@,
        decreases inheritance_stack.len() - k,
    {
        r.push(clone_frame(&inheritance_stack[k]));
        k += 1;
    }
    r.push(clone_frame(frame));
    assert(r@.map_values(|f: InheritanceFrame| f@) =~= inheritance_stack@.map_values(|f: InheritanceFrame| f@).push(frame@));
    r
}

/// The ids that resolving `menu` with id `id` gives its menus, listed in
/// pre-order.
pub open spec fn preorder_ids(menu: Menu, id: nat) -> Seq<nat>
    decreases menu, menu.items.len() + 1,
{
    seq![id] + child_preorder_ids(menu, id, menu.items.len() as int)
}

/// The ids of the subtrees of the first `j` items, in pre-order.
pub open spec fn child_preorder_ids(menu: Menu, id: nat, j: int) -> Seq<nat>
    decreases menu, j,
{
    if 0 < j <= menu.items.len() {
        child_preorder_ids(menu, id, j - 1) + match menu.items[j - 1].contents {
            ItemContents::Menu(c) => preorder_ids(c, child_id(menu, id, j - 1)),
            ItemContents::Program(_) => Seq::empty(),
        }
    } else {
        Seq::empty()
    }
}

/// Every menu of one tree gets its own id: listed in pre-order, the ids are
/// `id, id + 1, ..., id + menu_count(menu) - 1`.
pub proof fn lemma_preorder_ids(menu: Menu, id: nat)
    ensures
        preorder_ids(menu, id) == Seq::new(menu_count(menu), |i: int| (id + i) as nat),
    decreases menu, menu.items.len() + 1,
{
    lemma_child_preorder_ids(menu, id, menu.items.len() as int);
    assert(preorder_ids(menu, id) =~= Seq::new(menu_count(menu), |i: int| (id + i) as nat));
}

proof fn lemma_child_preorder_ids(menu: Menu, id: nat, j: int)
    requires
        0 <= j <= menu.items.len(),
    ensures
        child_preorder_ids(menu, id, j) == Seq::new(submenu_count(menu, j), |i: int| (id + 1 + i) as nat),
    decreases menu, j,
{
    if j > 0 {
        lemma_child_preorder_ids(menu, id, j - 1);
        match menu.items[j - 1].contents {
            ItemContents::Menu(c) => {
                lemma_preorder_ids(c, child_id(menu, id, j - 1));
            },
            ItemContents::Program(_) => {},
        }
        assert(child_preorder_ids(menu, id, j) =~= Seq::new(submenu_count(menu, j), |i: int| (id + 1 + i) as nat));
    } else {
        assert(child_preorder_ids(menu, id, j) =~= Seq::new(submenu_count(menu, j), |i: int| (id + 1 + i) as nat));
    }
}

/// Selector configuration chains through menus without overrides: the
/// children of a menu that defines none see the same nearest ancestor with
/// overrides as the menu itself; the children of a menu that defines some
/// see that menu.
pub proof fn lemma_config_chain(menu: Menu, frames: Seq<FrameView>, id: nat)
    ensures
        nearest_config_id(child_frames(menu, frames, id)) == if menu.fuzzel_config.len() == 0 {
            nearest_config_id(frames)
        } else {
            Some(id as usize)
        },
{
    assert(child_frames(menu, frames, id).drop_last() =~= frames);
}

/// In a chain root, middle, leaf where only the root and the leaf define
/// overrides, the leaf's generated configuration builds on the root's
/// generated file: the middle menu passes the chain through.
pub proof fn lemma_chain_through_plain_menu(
    root: Menu,
    middle: Menu,
    leaf: Menu,
    frames: Seq<FrameView>,
    root_id: nat,
    middle_id: nat,
    leaf_id: nat,
    paths: PresetPaths,
)
    requires
        root.fuzzel_config.len() > 0,
        middle.fuzzel_config.len() == 0,
        leaf.fuzzel_config.len() > 0,
        root_id <= usize::MAX,
    ensures
        own_config(leaf, child_frames(middle, child_frames(root, frames, root_id), middle_id), leaf_id, paths)
            == seq![(
            fuzzel_config_path(paths, leaf_id),
            synthetic_config(leaf.fuzzel_config@, fuzzel_config_path(paths, root_id)),
        )],
{
    lemma_config_chain(root, frames, root_id);
    lemma_config_chain(middle, child_frames(root, frames, root_id), middle_id);
}

/// Number of newline bytes in a byte string.
pub open spec fn count_newlines(b: Seq<u8>) -> nat
    decreases b.len(),
{
    if b.len() == 0 {
        0
    } else {
        count_newlines(b.drop_last()) + if b.last() == 10u8 { 1nat } else { 0nat }
    }
}

pub proof fn lemma_count_newlines_concat(a: Seq<u8>, b: Seq<u8>)
    ensures
        count_newlines(a + b) == count_newlines(a) + count_newlines(b),
    decreases b.len(),
{
    if b.len() > 0 {
        lemma_count_newlines_concat(a, b.drop_last());
        assert((a + b).drop_last() =~= a + b.drop_last());
    } else {
        assert(a + b =~= a);
    }
}

/// Only a newline character encodes to a newline byte.
proof fn lemma_scalar_newlines(c: char)
    ensures
        count_newlines(encode_scalar(c as u32)) == if c == '\n' { 1nat } else { 0nat },
{
    let v = c as u32;
    let e = encode_scalar(v);
    assert(forall|x: u32| #![auto] (0x80u8 | ((x & 0x3F) as u8)) != 10u8) by (bit_vector);
    assert(forall|x: u32| #![auto] (0x80u8 | (((x >> 6) & 0x3F) as u8)) != 10u8) by (bit_vector);
    assert(forall|x: u32| #![auto] (0x80u8 | (((x >> 12) & 0x3F) as u8)) != 10u8) by (bit_vector);
    assert(forall|x: u32| #![auto] (0xC0u8 | (((x >> 6) & 0x1F) as u8)) != 10u8) by (bit_vector);
    assert(forall|x: u32| #![auto] (0xE0u8 | (((x >> 12) & 0x0F) as u8)) != 10u8) by (bit_vector);
    assert(forall|x: u32| #![auto] (0xF0u8 | (((x >> 18) & 0x7) as u8)) != 10u8) by (bit_vector);
    assert(forall|x: u32| x <= 0x7F ==> (((x & 0x7F) as u8) == 10u8 <==> x == 10)) by (bit_vector);
    assert(c == '\n' <==> v == 10);
    reveal_with_fuel(count_newlines, 5);
}

/// A text without newline characters encodes to bytes without newlines.
pub proof fn lemma_encode_newlines(s: Seq<char>)
    ensures
        !s.contains('\n') ==> count_newlines(encode_utf8(s)) == 0,
    decreases s.len(),
{
    if s.len() > 0 && !s.contains('\n') {
        lemma_encode_newlines(s.drop_first());
        assert(!s.drop_first().contains('\n')) by {
            if s.drop_first().contains('\n') {
                let k = choose|k: int| 0 <= k < s.drop_first().len() && s.drop_first()[k] == '\n';
                assert(s[k + 1] == '\n');
            }
        };
        assert(s[0] != '\n') by {
            assert(s[0] == s[0]);
        };
        lemma_scalar_newlines(s[0]);
        lemma_count_newlines_concat(encode_scalar(s[0] as u32), encode_utf8(s.drop_first()));
    }
}

/// A menu's input has one line per item: when no item name and no
/// resolved icon path holds a newline, the input holds exactly as many
/// newline bytes as the menu has items.
pub proof fn lemma_one_line_per_item(items: Seq<Item>, icons: Seq<Seq<char>>)
    requires
        icons.len() == items.len(),
        forall|j: int| 0 <= j < items.len() ==> !(#[trigger] items[j]).name@.contains('\n') && !icons[j].contains('\n'),
    ensures
        count_newlines(input_bytes(items, icons)) == items.len(),
    decreases items.len(),
{
    if items.len() > 0 {
        let item = items.last();
        let path = icons.last();
        assert(!items[items.len() - 1].name@.contains('\n'));
        lemma_one_line_per_item(items.drop_last(), icons.drop_last());
        lemma_encode_newlines(item.name@);
        lemma_encode_newlines(path);
        let tail = if item.icon is Some { icon_marker() + encode_utf8(path) } else { Seq::empty() };
        lemma_count_newlines_concat(icon_marker(), encode_utf8(path));
        reveal_with_fuel(count_newlines, 7);
        assert(count_newlines(icon_marker()) == 0);
        assert(count_newlines(seq![10u8]) == 1);
        lemma_count_newlines_concat(encode_utf8(item.name@), tail);
        lemma_count_newlines_concat(encode_utf8(item.name@) + tail, seq![10u8]);
        lemma_count_newlines_concat(input_bytes(items.drop_last(), icons.drop_last()), item_line(item, path));
    }
}

/// Icon search precedence: for any ancestor `j`, the directories handed down
/// by the nearer ancestors `j + 1 ..` come before those of `j` and of every
/// ancestor farther up.
pub proof fn lemma_nearer_dirs_first(frames: Seq<FrameView>, j: int)
    requires
        0 <= j < frames.len(),
    ensures
        ancestor_dirs(frames) == ancestor_dirs(frames.subrange(j + 1, frames.len() as int)) + frames[j].0
            + ancestor_dirs(frames.subrange(0, j)),
    decreases frames.len(),
{
    if j + 1 < frames.len() {
        lemma_nearer_dirs_first(frames.drop_last(), j);
        assert(frames.drop_last().subrange(0, j) =~= frames.subrange(0, j));
        let near = frames.subrange(j + 1, frames.len() as int);
        assert(near.drop_last() =~= frames.drop_last().subrange(j + 1, frames.len() - 1));
        assert(near.last() == frames.last());
    } else {
        assert(frames.drop_last() =~= frames.subrange(0, j));
        assert(frames.subrange(j + 1, frames.len() as int) =~= Seq::<FrameView>::empty());
    }
}

fn clone_frame(f: &InheritanceFrame) -> (r: InheritanceFrame)
    ensures
        r@ == f@,
{
    InheritanceFrame { icon_dirs: clone_strings(&f.icon_dirs), fuzzel_config_id: f.fuzzel_config_id }
}

/// Resolves `menu` and its descendants. Each menu takes the next id before
/// its children do; the generated configuration files are queued on
/// `writes` in the same order.
#[verifier::rlimit(60)]
pub fn build_resolved_menu(
    menu: &Menu,
    inheritance_stack: &[InheritanceFrame],
    id_gen: &mut IdGenerator,
    paths: &PresetPaths,
    writes: &mut Vec<ConfigFile>,
) -> (r: ResolvedMenu)
    requires
        old(id_gen).counter + menu_count(*menu) <= usize::MAX,
    ensures
        final(id_gen).counter == old(id_gen).counter + menu_count(*menu),
        menu_resolved(
            *menu,
            inheritance_stack@.map_values(|f: InheritanceFrame| f@),
            old(id_gen).counter as nat,
            *paths,
            r,
        ),
        files_view(final(writes)@) == files_view(old(writes)@) + config_files(
            *menu,
            inheritance_stack@.map_values(|f: InheritanceFrame| f@),
            old(id_gen).counter as nat,
            *paths,
        ),
    decreases menu,
{
    let ghost frames = inheritance_stack@.map_values(|f: InheritanceFrame| f@);
    let ghost writes0 = files_view(writes@);
    let id = id_gen.next_id();
    let args = selector_args(menu, inheritance_stack, id, paths, writes);
    let dirs = search_dirs(menu, inheritance_stack);
    let input = menu_input(menu, &dirs, paths.home.as_str());

    let child_frame = InheritanceFrame {
        icon_dirs: clone_strings(&menu.icon_dirs),
        fuzzel_config_id: if menu.fuzzel_config.len() == 0 {
            None
        } else {
            Some(id)
        },
    };
    let ghost cframes = child_frames(*menu, frames, id as nat);

    let mut items: Vec<ResolvedItem> = Vec::new();
    let mut i: usize = 0;
    while i < menu.items.len()
        invariant
            i <= menu.items.len(),
            frames == inheritance_stack@.map_values(|f: InheritanceFrame| f@),
            cframes == child_frames(*menu, frames, id as nat),
            child_frame@ == cframes.last(),
            id + menu_count(*menu) <= usize::MAX,
            id_gen.counter == child_id(*menu, id as nat, i as int),
            items.len() == i,
            files_view(writes@) == writes0 + own_config(*menu, frames, id as nat, *paths)
                + child_config_files(*menu, frames, id as nat, *paths, i as int),
            forall|j: int| 0 <= j < i ==> item_resolved(
                #[trigger] menu.items[j],
                items[j],
                cframes,
                child_id(*menu, id as nat, j),
                *paths,
            ),
        decreases menu.items.len() - i,
    {
        proof {
            lemma_submenu_count_mono(*menu, i as int + 1, menu.items.len() as int);
        }
        match &menu.items[i].contents {
            ItemContents::Menu(child_menu) => {
                let child_stack = extend_stack(inheritance_stack, &child_frame);
                let ghost before = files_view(writes@);
                let resolved = build_resolved_menu(child_menu, child_stack.as_slice(), id_gen, paths, writes);
                items.push(ResolvedItem::Menu(resolved));
                proof {
                    assert(files_view(writes@) =~= writes0 + own_config(*menu, frames, id as nat, *paths)
                        + child_config_files(*menu, frames, id as nat, *paths, i + 1));
                }
            },
            ItemContents::Program(program) => {
                items.push(ResolvedItem::Program(ComputedProgram { command: clone_strings(&program.command) }));
            },
        }
        proof {
            assert forall|j: int| 0 <= j < i + 1 implies item_resolved(
                #[trigger] menu.items[j],
                items[j],
                cframes,
                child_id(*menu, id as nat, j),
                *paths,
            ) by {

            };
        }
        i += 1;
    }
    ResolvedMenu { args, input, items }
}

} // verus!
