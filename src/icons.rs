use vstd::prelude::*;
use vstd::string::{StrSliceExecFns, StringExecFns};
use crate::text::{expand_home, expand_tilde, has_char};

verus! {

/// The last component of a slash-separated path.
pub open spec fn file_name(path: Seq<char>) -> Seq<char>
    decreases path.len(),
{
    if path.len() == 0 {
        path
    } else if path.last() == '/' {
        Seq::empty()
    } else {
        file_name(path.drop_last()).push(path.last())
    }
}

/// `path` names an image whose stem is `name`: `name.png` or `name.svg`.
pub open spec fn is_icon_path(path: Seq<char>, name: Seq<char>) -> bool {
    &&& name.len() > 0
    &&& file_name(path) == name + ".png"@ || file_name(path) == name + ".svg"@
}

/// Whether `path` names an image file whose stem is `name` and whose
/// extension is `png` or `svg`.
pub fn is_icon_file(path: &str, name: &str) -> (r: bool)
    ensures
        r == is_icon_path(path@, name@),
{
    let n = path.unicode_len();
    let mut start: usize = 0;
    let mut i: usize = 0;
    while i < n
        invariant
            n == path@.len(),
            start <= i <= n,
            file_name(path@.subrange(0, i as int)) == path@.subrange(start as int, i as int),
        decreases n - i,
    {
        assert(path@.subrange(0, i + 1).drop_last() =~= path@.subrange(0, i as int));
        if path.get_char(i) == '/' {
            start = i + 1;
        }
        i += 1;
        assert(path@.subrange(start as int, i as int) =~= if start == i {
            Seq::empty()
        } else {
            path@.subrange(start as int, i - 1).push(path@[i - 1])
        });
    }
    assert(path@.subrange(0, n as int) =~= path@);
    let last = String::from_str(path.substring_char(start, n));
    if name.unicode_len() == 0 {
        return false;
    }
    let png = String::from_str(name).concat(".png");
    let svg = String::from_str(name).concat(".svg");
    last == png || last == svg
}

/// `path` lies under one of `dirs`.
pub open spec fn found_under(path: Seq<char>, dirs: Seq<String>) -> bool {
    exists|k: int| 0 <= k < dirs.len() && (#[trigger] dirs[k])@.is_prefix_of(path)
}

/// Relies on walkdir::WalkDir, which walks `dir` recursively and yields the
/// entries that it could read, each path being `dir` joined with the
/// entry's relative path; std's `Iterator::find` returns the first whose
/// path passes `is_icon_file`.
#[verifier::external_body]
fn find_in_dir(dir: &str, name: &str) -> (r: Option<String>)
    ensures
        r matches Some(p) ==> is_icon_path(p@, name@) && dir@.is_prefix_of(p@),
{
    walkdir::WalkDir::new(dir)
        .into_iter()
        .filter_map(Result::ok)
        .map(|entry| entry.path().to_string_lossy().into_owned())
        .find(|path| is_icon_file(path, name))
}

/// Looks for the icon `name` under each of `dirs` in turn; the first
/// directory that holds a match decides. A name that holds a `/` is a path,
/// and no search is made for it.
pub fn search_for_icon(name: &str, dirs: &Vec<String>) -> (r: Option<String>)
    ensures
        name@.contains('/') ==> r is None,
        r matches Some(p) ==> is_icon_path(p@, name@) && found_under(p@, dirs@),
{
    if has_char(name, '/') {
        return None;
    }
    let mut i: usize = 0;
    while i < dirs.len()
        invariant
            i <= dirs.len(),
            !name@.contains('/'),
        decreases dirs.len() - i,
    {
        let found = find_in_dir(dirs[i].as_str(), name);
        if found.is_some() {
            assert(dirs@[i as int]@ == dirs[i as int]@);
            return found;
        }
        i += 1;
    }
    None
}

/// The path that stands for the icon reference `icon`: a match found under
/// `dirs`, or else the reference itself with `~` expanded to `home`.
pub fn resolve_icon(icon: &str, dirs: &Vec<String>, home: &str) -> (r: String)
    ensures
        icon@.contains('/') ==> r@ == expand_tilde(icon@, home@),
        r@ == expand_tilde(icon@, home@) || (is_icon_path(r@, icon@) && found_under(r@, dirs@)),
{
    match search_for_icon(icon, dirs) {
        Some(path) => path,
        None => expand_home(icon, home),
    }
}

} // verus!
