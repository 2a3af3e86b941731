use vstd::prelude::*;
use vstd::string::StringExecFns;
use crate::config::{
    ComputedConfig, ComputedItem, ConfigFile, IdGenerator, InheritanceFrame, PresetPaths,
    ResolvedMenu,
};
use crate::document::{kdl_accepts, kdl_tree, Diagnostic, Span};
use crate::flatten::{flatten_resolved_menu, menu_flattened, subtree_len};
use crate::parser::{menu_error_from, menu_of, parse_config, ItemContents, Menu};
use crate::resolve::{
    build_resolved_menu, config_files, files_view, menu_count, menu_resolved, submenu_count,
};

verus! {

/// Counts the menus of a tree, or returns `None` when they are too many to
/// number.
pub fn count_menus(menu: &Menu) -> (r: Option<usize>)
    ensures
        r matches Some(n) ==> n == menu_count(*menu),
        r is None ==> menu_count(*menu) > usize::MAX,
    decreases menu,
{
    let mut total: usize = 1;
    let mut i: usize = 0;
    while i < menu.items.len()
        invariant
            i <= menu.items.len(),
            total == 1 + submenu_count(*menu, i as int),
        decreases menu.items.len() - i,
    {
        if let ItemContents::Menu(child) = &menu.items[i].contents {
            match count_menus(child) {
                Some(n) => {
                    if n > usize::MAX - total {
                        proof {
                            crate::resolve::lemma_submenu_count_mono(*menu, i + 1, menu.items.len() as int);
                        }
                        return None;
                    }
                    total = total + n;
                },
                None => {
                    proof {
                        crate::resolve::lemma_submenu_count_mono(*menu, i + 1, menu.items.len() as int);
                    }
                    return None;
                },
            }
        }
        i += 1;
    }
    Some(total)
}

/// `cfg` and `files` are what compiling `menu` gives: the tree resolved with
/// the root frame and pre-order ids from zero, then flattened from an empty
/// array; `files` are the generated configuration files in pre-order.
pub open spec fn compiled_from(
    menu: Menu,
    root: InheritanceFrame,
    paths: PresetPaths,
    cfg: ComputedConfig,
    files: Seq<ConfigFile>,
) -> bool {
    &&& files_view(files) == config_files(menu, seq![root@], 0, paths)
    &&& cfg.initial_menu.items_offset == 0
    &&& exists|rm: ResolvedMenu| #[trigger] menu_resolved(menu, seq![root@], 0, paths, rm)
        && menu_flattened(rm, cfg.initial_menu, cfg.items@) && cfg.items.len() == subtree_len(rm)
}

/// Resolves and flattens a menu tree. The root frame carries the default
/// icon directories. Returns `None` only when the menus are too many to
/// number.
pub fn compile_menu(menu: &Menu, hash: [u8; 8], paths: &PresetPaths, root: InheritanceFrame) -> (r: Option<
    (ComputedConfig, Vec<ConfigFile>),
>)
    ensures
        r is None <==> menu_count(*menu) > usize::MAX,
        r matches Some((cfg, files)) ==> cfg.hash == hash && compiled_from(*menu, root, *paths, cfg, files@),
{
    let n = match count_menus(menu) {
        Some(n) => n,
        None => {
            return None;
        },
    };
    let ghost root_view = root@;
    let inheritance_stack = vec![root];
    assert(inheritance_stack@.map_values(|f: InheritanceFrame| f@) =~= seq![root_view]);
    let mut id_gen = IdGenerator::new();
    let mut writes: Vec<ConfigFile> = Vec::new();
    let resolved_menu = build_resolved_menu(menu, inheritance_stack.as_slice(), &mut id_gen, paths, &mut writes);
    assert(files_view(writes@) =~= config_files(*menu, seq![root_view], 0, *paths));
    let mut items: Vec<ComputedItem> = Vec::new();
    let initial_menu = flatten_resolved_menu(&resolved_menu, &mut items);
    Some((ComputedConfig { hash, initial_menu, items }, writes))
}

/// Compiles a source text: parses it, resolves and flattens its menus, and
/// stamps the result with the first eight bytes of `hash`. Also returns the
/// generated selector configuration files, which must be written before
/// the result is used. Fails with the parser's diagnostic on text that is
/// not a well-formed menu description, and only otherwise when the menus
/// are too many to number.
pub fn compute_config(
    config_string: &str,
    hash: &[u8],
    paths: &PresetPaths,
    root: InheritanceFrame,
) -> (r: Result<(ComputedConfig, Vec<ConfigFile>), Diagnostic>)
    requires
        hash@.len() >= 8,
    ensures
        !kdl_accepts(config_string@) ==> r is Err,
        kdl_accepts(config_string@) && menu_error_from(kdl_tree(config_string@), 0, false) is Some ==> (match r {
            Err(d) => menu_error_from(kdl_tree(config_string@), 0, false) == Some(d@),
            Ok(_) => false,
        }),
        kdl_accepts(config_string@) && menu_error_from(kdl_tree(config_string@), 0, false) is None && (forall|m: Menu|
            #[trigger] menu_of(kdl_tree(config_string@), paths.home@, m) ==> menu_count(m) <= usize::MAX)
            ==> r is Ok,
        r matches Ok((cfg, files)) ==> kdl_accepts(config_string@) && cfg.hash@ == hash@.subrange(0, 8)
            && exists|m: Menu|
            #[trigger] menu_of(kdl_tree(config_string@), paths.home@, m) && compiled_from(m, root, *paths, cfg, files@),
{
    let menu = match parse_config(config_string, paths.home.as_str()) {
        Ok(m) => m,
        Err(d) => {
            return Err(d);
        },
    };
    let stamp = [hash[0], hash[1], hash[2], hash[3], hash[4], hash[5], hash[6], hash[7]];
    assert(stamp@ =~= hash@.subrange(0, 8));
    match compile_menu(&menu, stamp, paths, root) {
        Some(compiled) => Ok(compiled),
        None => Err(Diagnostic {
            message: String::from_str("too many menus to number"),
            label: None,
            span: Span { offset: 0, len: 0 },
            help: None,
        }),
    }
}

/// Whether a compiled configuration was built from the source text whose
/// stamp is `stamp`.
pub fn is_fresh(cached: &ComputedConfig, stamp: &[u8; 8]) -> (r: bool)
    ensures
        r == (cached.hash@ == stamp@),
{
    let mut i: usize = 0;
    while i < 8
        invariant
            i <= 8,
            forall|j: int| 0 <= j < i ==> cached.hash@[j] == stamp@[j],
        decreases 8 - i,
    {
        if cached.hash[i] != stamp[i] {
            return false;
        }
        i += 1;
    }
    assert(cached.hash@ =~= stamp@);
    true
}

/// Keeps a previously compiled configuration only if it carries `stamp`,
/// the stamp of the current source text.
pub fn reuse_cached(cached: Option<ComputedConfig>, stamp: &[u8; 8]) -> (r: Option<ComputedConfig>)
    ensures
        r matches Some(c) ==> c.hash@ == stamp@ && cached == Some(c),
        r is None ==> (cached matches Some(c) ==> c.hash@ != stamp@),
{
    match cached {
        Some(c) => {
            if is_fresh(&c, stamp) {
                Some(c)
            } else {
                None
            }
        },
        None => None,
    }
}

} // verus!
