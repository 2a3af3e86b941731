use vstd::prelude::*;
use vstd::string::{StrSliceExecFns, StringExecFns};
use crate::text::{decimal, decimal_string, join, join_path, lemma_decimal_digits, lemma_decimal_injective};

verus! {

/// The compiled form of one source text: its stamp, the root menu, and the
/// flat array that every menu's `items_offset` points into.
#[derive(Debug)]
pub struct ComputedConfig {
    /// First eight bytes of the SHA-256 digest of the source text.
    pub hash: [u8; 8],
    pub initial_menu: ComputedMenu,
    pub items: Vec<ComputedItem>,
}

/// One runnable program: argv[0] followed by its arguments.
#[derive(Debug, Clone)]
pub struct ComputedProgram {
    pub command: Vec<String>,
}

/// A menu in its flattened form. Its direct children are the items
/// `items[items_offset .. items_offset + k)` of the enclosing configuration,
/// where `k` is the number of lines of `input`.
#[derive(Debug)]
pub struct ComputedMenu {
    pub args: Vec<String>,
    pub input: Vec<u8>,
    pub items_offset: usize,
}

#[derive(Debug)]
pub enum ComputedItem {
    Menu(ComputedMenu),
    Program(ComputedProgram),
}

/// A fully resolved menu: the selector arguments are final and `input` holds
/// one line per item.
#[derive(Debug)]
pub struct ResolvedMenu {
    pub args: Vec<String>,
    pub input: Vec<u8>,
    pub items: Vec<ResolvedItem>,
}

#[derive(Debug)]
pub enum ResolvedItem {
    Menu(ResolvedMenu),
    Program(ComputedProgram),
}

/// The item that choosing line `index` of `menu` leads to: slot
/// `items_offset + index` of the flat array, if it exists.
pub fn select_item<'a>(items: &'a Vec<ComputedItem>, menu: &ComputedMenu, index: usize) -> (r: Option<&'a ComputedItem>)
    ensures
        match r {
            Some(item) => menu.items_offset + index < items.len() && *item == items@[menu.items_offset + index],
            None => menu.items_offset + index >= items.len(),
        },
{
    if index < items.len() && menu.items_offset < items.len() - index {
        Some(&items[menu.items_offset + index])
    } else {
        None
    }
}

/// Hands out one id per menu, counting up from zero.
pub struct IdGenerator {
    pub counter: usize,
}

impl IdGenerator {
    pub fn new() -> (r: Self)
        ensures
            r.counter == 0,
    {
        IdGenerator { counter: 0 }
    }

    pub fn next_id(&mut self) -> (id: usize)
        requires
            old(self).counter < usize::MAX,
        ensures
            id == old(self).counter,
            final(self).counter == old(self).counter + 1,
    {
        let id = self.counter;
        self.counter = self.counter + 1;
        id
    }
}

/// What one ancestor menu hands down to its descendants: its icon
/// directories, and its id if it defined selector configuration overrides.
pub struct InheritanceFrame {
    pub icon_dirs: Vec<String>,
    pub fuzzel_config_id: Option<usize>,
}

impl View for InheritanceFrame {
    type V = (Seq<String>, Option<usize>);

    open spec fn view(&self) -> (Seq<String>, Option<usize>) {
        (self.icon_dirs@, self.fuzzel_config_id)
    }
}

/// The pieces of a colon-separated list, empty pieces included.
pub open spec fn split_colons(s: Seq<char>) -> Seq<Seq<char>>
    decreases s.len(),
{
    if s.len() == 0 {
        seq![Seq::empty()]
    } else {
        let prev = split_colons(s.drop_last());
        if s.last() == ':' {
            prev.push(Seq::empty())
        } else {
            prev.update(prev.len() - 1, prev.last().push(s.last()))
        }
    }
}

pub proof fn lemma_split_colons_len(s: Seq<char>)
    ensures
        split_colons(s).len() >= 1,
    decreases s.len(),
{
    if s.len() > 0 {
        lemma_split_colons_len(s.drop_last());
    }
}

/// Splits a colon-separated list of directories.
pub fn split_dirs(s: &str) -> (r: Vec<String>)
    ensures
        r.deep_view() == split_colons(s@),
{
    let n = s.unicode_len();
    let mut done: Vec<String> = Vec::new();
    let mut cur = String::new();
    let mut i: usize = 0;
    while i < n
        invariant
            n == s@.len(),
            i <= n,
            done.deep_view().push(cur@) == split_colons(s@.subrange(0, i as int)),
        decreases n - i,
    {
        proof {
            lemma_split_colons_len(s@.subrange(0, i as int));
        }
        let c = s.get_char(i);
        assert(s@.subrange(0, i + 1).drop_last() =~= s@.subrange(0, i as int));
        let ghost before = done.deep_view();
        if c == ':' {
            done.push(cur);
            cur = String::new();
            assert(done.deep_view() =~= before.push(split_colons(s@.subrange(0, i as int)).last()));
            assert(done.deep_view().push(cur@) =~= split_colons(s@.subrange(0, i + 1)));
        } else {
            let ghost old_cur = cur@;
            cur.append(s.substring_char(i, i + 1));
            assert(s@.subrange(i as int, i + 1) =~= seq![c]);
            assert(cur@ =~= old_cur.push(c));
            let ghost prev = split_colons(s@.subrange(0, i as int));
            assert(prev == before.push(old_cur));
            assert(s@.subrange(0, i + 1).last() == c);
            assert(split_colons(s@.subrange(0, i + 1)) == prev.update(prev.len() - 1, prev.last().push(c)));
            assert(done.deep_view() == before);
            assert(done.deep_view().push(cur@) =~= split_colons(s@.subrange(0, i + 1)));
        }
        i += 1;
    }
    assert(s@.subrange(0, n as int) =~= s@);
    done.push(cur);
    assert(done.deep_view() =~= split_colons(s@));
    done
}

/// The icon directories of the document root, searched last: the data
/// directories (`data_dirs`, colon-separated; `/usr/local/share/` and
/// `/usr/share/` when it is empty), then the user's data directory
/// (`data_home`; `.local/share/` under `home` when it is empty).
pub open spec fn root_icon_dirs(data_dirs: Seq<char>, data_home: Seq<char>, home: Seq<char>) -> Seq<Seq<char>> {
    split_colons(if data_dirs.len() == 0 { "/usr/local/share/:/usr/share/"@ } else { data_dirs }).push(
        if data_home.len() == 0 { home + "/.local/share/"@ } else { data_home },
    )
}

/// Builds the frame of the document root from the environment's data
/// directories.
pub fn root_frame(data_dirs: &str, data_home: &str, home: &str) -> (r: InheritanceFrame)
    ensures
        r.icon_dirs.deep_view() == root_icon_dirs(data_dirs@, data_home@, home@),
        r.fuzzel_config_id is None,
{
    let mut icon_dirs = if data_dirs.unicode_len() == 0 {
        split_dirs("/usr/local/share/:/usr/share/")
    } else {
        split_dirs(data_dirs)
    };
    let local = if data_home.unicode_len() == 0 {
        String::from_str(home).concat("/.local/share/")
    } else {
        String::from_str(data_home)
    };
    let ghost before = icon_dirs.deep_view();
    icon_dirs.push(local);
    assert(icon_dirs.deep_view() =~= before.push(local@));
    InheritanceFrame { icon_dirs, fuzzel_config_id: None }
}

/// The locations that generated files of one preset depend on.
pub struct PresetPaths {
    /// Base name of the source file; it namespaces every generated file.
    pub preset_name: String,
    /// Directory that holds the compiled cache and the generated files.
    pub cache_dir: String,
    /// Selector configuration that a root set of overrides builds on.
    pub default_fuzzel_config: String,
    /// The user's home directory, which `~` stands for.
    pub home: String,
}

/// A generated selector configuration file, to be written before the
/// selector is started with it.
pub struct ConfigFile {
    pub path: String,
    pub contents: String,
}

pub open spec fn is_digit(c: char) -> bool {
    '0' <= c <= '9'
}

/// The preset name as it starts a file name. A name that ends in a digit or
/// an underscore gets one more underscore, so that the id that follows can
/// always be told apart from the name.
pub open spec fn preset_prefix(p: Seq<char>) -> Seq<char> {
    if p.len() > 0 && (is_digit(p.last()) || p.last() == '_') {
        p + "_"@
    } else {
        p
    }
}

/// A file of menu `id` of the preset, in the cache directory.
pub open spec fn preset_file(paths: PresetPaths, id: nat, ext: Seq<char>) -> Seq<char> {
    join_path(paths.cache_dir@, preset_prefix(paths.preset_name@) + decimal(id) + ext)
}

/// Two files of one kind in one cache directory are the same only for the
/// same preset and the same id: no two menus, of one preset or of two,
/// share a generated configuration or a match-history file.
pub proof fn lemma_preset_file_unique(p1: PresetPaths, p2: PresetPaths, id1: nat, id2: nat, ext: Seq<char>)
    requires
        p1.cache_dir@ == p2.cache_dir@,
        preset_file(p1, id1, ext) == preset_file(p2, id2, ext),
    ensures
        p1.preset_name@ == p2.preset_name@,
        id1 == id2,
{
    let dir = p1.cache_dir@;
    let x1 = preset_prefix(p1.preset_name@);
    let x2 = preset_prefix(p2.preset_name@);
    let d1 = decimal(id1);
    let d2 = decimal(id2);
    let n1 = x1 + d1 + ext;
    let n2 = x2 + d2 + ext;
    let j1 = join_path(dir, n1);
    assert(n1 =~= j1.subrange(j1.len() - n1.len(), j1.len() as int));
    assert(n2 =~= j1.subrange(j1.len() - n2.len(), j1.len() as int));
    assert(n1.len() == n2.len());
    assert(x1 + d1 =~= n1.subrange(0, n1.len() - ext.len()));
    assert(x2 + d2 =~= n2.subrange(0, n2.len() - ext.len()));
    lemma_decimal_digits(id1);
    lemma_decimal_digits(id2);
    lemma_prefix_ends_in_non_digit(p1.preset_name@);
    lemma_prefix_ends_in_non_digit(p2.preset_name@);
    lemma_split_digits(x1, d1, x2, d2);
    lemma_decimal_injective(id1, id2);
    lemma_prefix_injective(p1.preset_name@, p2.preset_name@);
}

proof fn lemma_prefix_ends_in_non_digit(p: Seq<char>)
    ensures
        preset_prefix(p).len() == 0 || !is_digit(preset_prefix(p).last()),
        preset_prefix(p).len() > 0 && preset_prefix(p).last() == '_' ==> preset_prefix(p) == p + "_"@,
{
    reveal_strlit("_");
}

proof fn lemma_prefix_injective(a: Seq<char>, b: Seq<char>)
    requires
        preset_prefix(a) == preset_prefix(b),
    ensures
        a == b,
{
    reveal_strlit("_");
    let pa = preset_prefix(a);
    if pa != a {
        assert(a =~= pa.drop_last());
    }
    if preset_prefix(b) != b {
        assert(b =~= pa.drop_last());
    }
}

/// A text that does not end in a digit, followed by a non-empty run of
/// digits, can be split back into the two.
proof fn lemma_split_digits(x1: Seq<char>, d1: Seq<char>, x2: Seq<char>, d2: Seq<char>)
    requires
        x1 + d1 == x2 + d2,
        d1.len() >= 1,
        d2.len() >= 1,
        forall|k: int| 0 <= k < d1.len() ==> '0' <= #[trigger] d1[k] <= '9',
        forall|k: int| 0 <= k < d2.len() ==> '0' <= #[trigger] d2[k] <= '9',
        x1.len() == 0 || !is_digit(x1.last()),
        x2.len() == 0 || !is_digit(x2.last()),
    ensures
        x1 == x2,
        d1 == d2,
{
    let s = x1 + d1;
    assert(s.len() == x1.len() + d1.len());
    assert(s.len() == x2.len() + d2.len());
    if d1.len() < d2.len() {
        if x1.len() > 0 {
            let k = x1.len() - 1;
            assert(k >= x2.len());
            assert(s[k] == x1.last());
            assert(s[k] == (x2 + d2)[k]);
            assert((x2 + d2)[k] == d2[k - x2.len()]);
        }
    } else if d2.len() < d1.len() {
        if x2.len() > 0 {
            let k = x2.len() - 1;
            assert(k >= x1.len());
            assert((x2 + d2)[k] == x2.last());
            assert(s[k] == d1[k - x1.len()]);
        }
    } else {
        assert(x1 =~= s.subrange(0, x1.len() as int));
        assert(x2 =~= (x2 + d2).subrange(0, x2.len() as int));
        assert(d1 =~= s.subrange(x1.len() as int, s.len() as int));
        assert(d2 =~= (x2 + d2).subrange(x2.len() as int, s.len() as int));
    }
}

/// The generated selector configuration of menu `id`.
pub open spec fn fuzzel_config_path(paths: PresetPaths, id: nat) -> Seq<char> {
    preset_file(paths, id, ".fuzzel.ini"@)
}

/// The selector's match-history file of menu `id`.
pub open spec fn fuzzel_cache_path(paths: PresetPaths, id: nat) -> Seq<char> {
    preset_file(paths, id, ".fuzzel.cache"@)
}

/// Where the compiled configuration of the preset is kept.
pub open spec fn compiled_cache_path(paths: PresetPaths) -> Seq<char> {
    join_path(paths.cache_dir@, paths.preset_name@ + ".cache"@)
}

fn make_preset_file(id: usize, paths: &PresetPaths, ext: &str) -> (r: String)
    ensures
        r@ == preset_file(*paths, id as nat, ext@),
{
    let preset = paths.preset_name.as_str();
    let n = preset.unicode_len();
    let mut name = paths.preset_name.clone();
    if n > 0 {
        let c = preset.get_char(n - 1);
        if ('0' <= c && c <= '9') || c == '_' {
            name.append("_");
        }
    }
    let name = name.concat(decimal_string(id).as_str()).concat(ext);
    join(paths.cache_dir.as_str(), name.as_str())
}

pub fn make_fuzzel_config_path(id: usize, paths: &PresetPaths) -> (r: String)
    ensures
        r@ == fuzzel_config_path(*paths, id as nat),
{
    make_preset_file(id, paths, ".fuzzel.ini")
}

pub fn make_fuzzel_cache_path(id: usize, paths: &PresetPaths) -> (r: String)
    ensures
        r@ == fuzzel_cache_path(*paths, id as nat),
{
    make_preset_file(id, paths, ".fuzzel.cache")
}

pub fn make_cache_path(paths: &PresetPaths) -> (r: String)
    ensures
        r@ == compiled_cache_path(*paths),
{
    let name = paths.preset_name.clone().concat(".cache");
    join(paths.cache_dir.as_str(), name.as_str())
}

/// The launcher's default source file under the configuration directory.
pub fn default_config_path(config_dir: &str) -> (r: String)
    ensures
        r@ == join_path(join_path(config_dir@, "uff"@), "default.kdl"@),
{
    join(join(config_dir, "uff").as_str(), "default.kdl")
}

/// The selector's own configuration under the configuration directory.
pub fn default_fuzzel_config_path(config_dir: &str) -> (r: String)
    ensures
        r@ == join_path(join_path(config_dir@, "fuzzel"@), "fuzzel.ini"@),
{
    join(join(config_dir, "fuzzel").as_str(), "fuzzel.ini")
}

} // verus!
