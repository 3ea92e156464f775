//! Icon resolution for packaged applications: the package manifest's logo
//! reference and the scaled variants of the referenced image file.

use vstd::prelude::*;

use crate::text::{
    chars_of, concat_chars, find_chars, find_from, last_index_of, last_of, lemma_find_from,
    occurs_at, string_from_chars, string_views, sub_chars,
};

verus! {

/// Name of the manifest file in a package's directory.
pub open spec fn manifest_file_name() -> Seq<char> {
    "AppxManifest.xml"@
}

/// Whether `c` separates the components of a path.
pub open spec fn is_separator(c: char) -> bool {
    c == '\\' || c == '/'
}

/// The directory part of a path: everything before its last separator.
pub open spec fn parent_of(p: Seq<char>) -> Seq<char> {
    match last_of(p, '\\', '/') {
        Some(k) => p.subrange(0, k),
        None => Seq::empty(),
    }
}

/// The last component of a path: everything after its last separator.
pub open spec fn file_name_of(p: Seq<char>) -> Seq<char> {
    match last_of(p, '\\', '/') {
        Some(k) => p.subrange(k + 1, p.len() as int),
        None => p,
    }
}

/// `rel` placed inside the directory `dir`.
pub open spec fn joined(dir: Seq<char>, rel: Seq<char>) -> Seq<char> {
    if dir.len() == 0 {
        rel
    } else if is_separator(dir.last()) {
        dir + rel
    } else {
        dir + seq!['\\'] + rel
    }
}

/// The file name without its extension; `None` where there is no file name.
pub open spec fn file_stem_of(name: Seq<char>) -> Option<Seq<char>> {
    if name.len() == 0 || name == seq!['.', '.'] {
        None
    } else {
        match last_of(name, '.', '.') {
            Some(k) => if k > 0 {
                Some(name.subrange(0, k))
            } else {
                Some(name)
            },
            None => Some(name),
        }
    }
}

/// The directory of a packaged application: the executable's parent directory.
pub open spec fn package_dir_of(exe_path: Seq<char>) -> Option<Seq<char>> {
    if exe_path.len() == 0 {
        None
    } else {
        Some(parent_of(exe_path))
    }
}

/// The directory part of `p`.
fn parent_chars(p: &Vec<char>) -> (r: Vec<char>)
    ensures
        r@ == parent_of(p@),
{
    match last_index_of(p, '\\', '/') {
        Some(k) => sub_chars(p, 0, k),
        None => Vec::new(),
    }
}

/// The last component of `p`.
fn file_name_chars(p: &Vec<char>) -> (r: Vec<char>)
    ensures
        r@ == file_name_of(p@),
{
    assert(p@.subrange(0, p@.len() as int) =~= p@);
    match last_index_of(p, '\\', '/') {
        Some(k) => sub_chars(p, k + 1, p.len()),
        None => sub_chars(p, 0, p.len()),
    }
}

/// `rel` placed inside the directory `dir`.
fn join_chars(dir: &Vec<char>, rel: &Vec<char>) -> (r: Vec<char>)
    ensures
        r@ == joined(dir@, rel@),
{
    if dir.len() == 0 {
        concat_chars(dir, rel)
    } else if dir[dir.len() - 1] == '\\' || dir[dir.len() - 1] == '/' {
        concat_chars(dir, rel)
    } else {
        let mut d = concat_chars(dir, &Vec::new());
        d.push('\\');
        concat_chars(&d, rel)
    }
}

/// The file name without its extension.
fn file_stem_chars(name: &Vec<char>) -> (r: Option<Vec<char>>)
    ensures
        r matches Some(v) ==> file_stem_of(name@) == Some(v@),
        r is None ==> file_stem_of(name@) is None,
{
    if name.len() == 0 || (name.len() == 2 && name[0] == '.' && name[1] == '.') {
        proof {
            if name.len() == 2 {
                assert(name@ =~= seq!['.', '.']);
            }
        }
        return None;
    }
    assert(name@ != seq!['.', '.']) by {
        if name@ == seq!['.', '.'] {
            assert(name@[0] == '.' && name@[1] == '.');
        }
    }
    assert(name@.subrange(0, name@.len() as int) =~= name@);
    match last_index_of(name, '.', '.') {
        Some(k) => if k > 0 {
            Some(sub_chars(name, 0, k))
        } else {
            Some(sub_chars(name, 0, name.len()))
        },
        None => Some(sub_chars(name, 0, name.len())),
    }
}

/// The directory of the packaged application whose executable is `exe_path`.
pub fn package_dir(exe_path: &str) -> (r: Option<String>)
    ensures
        r matches Some(d) ==> package_dir_of(exe_path@) == Some(d@),
        r is None ==> package_dir_of(exe_path@) is None,
{
    let p = chars_of(exe_path);
    if p.len() == 0 {
        return None;
    }
    Some(string_from_chars(&parent_chars(&p)))
}

/// The path of the manifest in the given package directory.
pub fn manifest_path(package_dir: &str) -> (r: String)
    ensures
        r@ == joined(package_dir@, manifest_file_name()),
{
    string_from_chars(&join_chars(&chars_of(package_dir), &chars_of("AppxManifest.xml")))
}

/// `attr="`: how an attribute's value opens in the manifest text.
pub open spec fn attribute_key(attr: Seq<char>) -> Seq<char> {
    attr + seq!['=', '"']
}

/// The value of the first occurrence of attribute `attr` in `xml`, up to the next quote.
pub open spec fn attribute_value(xml: Seq<char>, attr: Seq<char>) -> Option<Seq<char>> {
    let key = attribute_key(attr);
    match find_from(xml, key, 0) {
        None => None,
        Some(i) => match find_from(xml, seq!['"'], i + key.len()) {
            None => None,
            Some(e) => Some(xml.subrange(i + key.len(), e)),
        },
    }
}

/// The logo that a manifest references, trying the most specific size class first.
pub open spec fn logo_reference(xml: Seq<char>) -> Option<Seq<char>> {
    match attribute_value(xml, "Square44x44Logo"@) {
        Some(v) => Some(v),
        None => match attribute_value(xml, "Square150x150Logo"@) {
            Some(v) => Some(v),
            None => attribute_value(xml, "Logo"@),
        },
    }
}

/// The value of attribute `attr` in the manifest text `xml`.
fn find_attribute(xml: &Vec<char>, attr: &str) -> (r: Option<String>)
    ensures
        r matches Some(v) ==> attribute_value(xml@, attr@) == Some(v@),
        r is None ==> attribute_value(xml@, attr@) is None,
{
    let mut key = chars_of(attr);
    key.push('=');
    key.push('"');
    assert(key@ =~= attribute_key(attr@));
    let mut quote: Vec<char> = Vec::new();
    quote.push('"');
    assert(quote@ =~= seq!['"']);
    proof {
        lemma_find_from(xml@, key@, 0);
    }
    match find_chars(xml, &key, 0) {
        None => None,
        Some(i) => {
            assert(occurs_at(xml@, key@, i as int));
            let klen = key.len();
            assert(i + klen <= xml.len());
            let start: usize = i + klen;
            proof {
                lemma_find_from(xml@, quote@, start as int);
            }
            match find_chars(xml, &quote, start) {
                None => None,
                Some(e) => Some(string_from_chars(&sub_chars(xml, start, e))),
            }
        },
    }
}

/// The relative path of the logo that the manifest text `xml` references.
pub fn parse_logo_from_manifest(xml: &str) -> (r: Option<String>)
    ensures
        r matches Some(v) ==> logo_reference(xml@) == Some(v@),
        r is None ==> logo_reference(xml@) is None,
{
    let text = chars_of(xml);
    match find_attribute(&text, "Square44x44Logo") {
        Some(v) => {
            return Some(v);
        },
        None => {},
    }
    match find_attribute(&text, "Square150x150Logo") {
        Some(v) => {
            return Some(v);
        },
        None => {},
    }
    find_attribute(&text, "Logo")
}

/// Suffixes of the scaled and sized variants of an image, most preferred first.
pub open spec fn variant_suffixes() -> Seq<Seq<char>> {
    seq![
        ".scale-200.png"@,
        ".scale-150.png"@,
        ".scale-125.png"@,
        ".scale-100.png"@,
        ".targetsize-48.png"@,
        ".targetsize-44.png"@,
        ".targetsize-32.png"@,
        ".targetsize-24.png"@,
    ]
}

/// The files that may hold the logo `rel` of the package in `dir`, most preferred
/// first: the file itself, then its variants beside it.
pub open spec fn icon_candidate_paths(dir: Seq<char>, rel: Seq<char>) -> Seq<Seq<char>> {
    let base = joined(dir, rel);
    match file_stem_of(file_name_of(base)) {
        None => seq![base],
        Some(stem) => seq![base] + variant_suffixes().map_values(
            |sfx: Seq<char>| joined(parent_of(base), stem + sfx),
        ),
    }
}

/// The suffixes of the image variants, in order of preference.
fn variant_suffix_chars() -> (r: Vec<Vec<char>>)
    ensures
        r@.map_values(|v: Vec<char>| v@) == variant_suffixes(),
{
    let mut r: Vec<Vec<char>> = Vec::new();
    r.push(chars_of(".scale-200.png"));
    r.push(chars_of(".scale-150.png"));
    r.push(chars_of(".scale-125.png"));
    r.push(chars_of(".scale-100.png"));
    r.push(chars_of(".targetsize-48.png"));
    r.push(chars_of(".targetsize-44.png"));
    r.push(chars_of(".targetsize-32.png"));
    r.push(chars_of(".targetsize-24.png"));
    assert(r@.map_values(|v: Vec<char>| v@) =~= variant_suffixes());
    r
}

/// The files that may hold the logo `relative_path` of the package in `package_dir`,
/// in the order in which they are tried.
pub fn icon_candidates(package_dir: &str, relative_path: &str) -> (r: Vec<String>)
    ensures
        string_views(r@) == icon_candidate_paths(package_dir@, relative_path@),
{
    let base = join_chars(&chars_of(package_dir), &chars_of(relative_path));
    let mut r: Vec<String> = Vec::new();
    r.push(string_from_chars(&base));
    let name = file_name_chars(&base);
    match file_stem_chars(&name) {
        None => {
            assert(string_views(r@) =~= seq![base@]);
            r
        },
        Some(stem) => {
            let parent = parent_chars(&base);
            let suffixes = variant_suffix_chars();
            let ghost views = variant_suffixes().map_values(
                |sfx: Seq<char>| joined(parent_of(base@), stem@ + sfx),
            );
            let mut i: usize = 0;
            assert(string_views(r@) =~= seq![base@] + views.subrange(0, 0));
            while i < suffixes.len()
                invariant
                    i <= suffixes.len(),
                    suffixes@.map_values(|v: Vec<char>| v@) == variant_suffixes(),
                    parent@ == parent_of(base@),
                    views == variant_suffixes().map_values(
                        |sfx: Seq<char>| joined(parent_of(base@), stem@ + sfx),
                    ),
                    string_views(r@) == seq![base@] + views.subrange(0, i as int),
                decreases suffixes.len() - i,
            {
                let file = concat_chars(&stem, &suffixes[i]);
                let full = join_chars(&parent, &file);
                let ghost before = r@;
                r.push(string_from_chars(&full));
                assert(suffixes@.map_values(|v: Vec<char>| v@)[i as int] == suffixes@[i as int]@);
                assert(string_views(r@) =~= string_views(before).push(full@));
                assert(views.subrange(0, i + 1) =~= views.subrange(0, i as int).push(views[i as int]));
                i = i + 1;
            }
            assert(views.subrange(0, 8) =~= views);
            r
        },
    }
}

/// The first of `cands` that `present` holds.
pub open spec fn first_present(cands: Seq<Seq<char>>, present: Seq<Seq<char>>) -> Option<Seq<char>>
    decreases cands.len(),
{
    if cands.len() == 0 {
        None
    } else if present.contains(cands[0]) {
        Some(cands[0])
    } else {
        first_present(cands.drop_first(), present)
    }
}

/// Whether `files` holds the path `p`.
fn holds_path(files: &Vec<String>, p: &String) -> (r: bool)
    ensures
        r == string_views(files@).contains(p@),
{
    let mut i: usize = 0;
    while i < files.len()
        invariant
            i <= files.len(),
            forall|k: int| 0 <= k < i ==> files@[k]@ != p@,
        decreases files.len() - i,
    {
        if files[i] == *p {
            assert(string_views(files@)[i as int] == p@);
            return true;
        }
        i = i + 1;
    }
    assert(!string_views(files@).contains(p@)) by {
        if string_views(files@).contains(p@) {
            let k = choose|k: int| 0 <= k < files.len() && string_views(files@)[k] == p@;
            assert(files@[k]@ == p@);
        }
    }
    false
}

/// The file that holds the logo `relative_path` of the package in `package_dir`:
/// the first candidate, in order of preference, among the files that exist.
pub fn find_best_icon(package_dir: &str, relative_path: &str, existing: &Vec<String>) -> (r: Option<
    String,
>)
    ensures
        r matches Some(p) ==> first_present(
            icon_candidate_paths(package_dir@, relative_path@),
            string_views(existing@),
        ) == Some(p@),
        r is None ==> first_present(
            icon_candidate_paths(package_dir@, relative_path@),
            string_views(existing@),
        ) is None,
{
    let cands = icon_candidates(package_dir, relative_path);
    let ghost cs = string_views(cands@);
    let ghost present = string_views(existing@);
    let mut i: usize = 0;
    assert(cs.subrange(0, cs.len() as int) =~= cs);
    while i < cands.len()
        invariant
            i <= cands.len(),
            cs == string_views(cands@),
            cs == icon_candidate_paths(package_dir@, relative_path@),
            present == string_views(existing@),
            first_present(cs, present) == first_present(cs.subrange(i as int, cs.len() as int), present),
        decreases cands.len() - i,
    {
        assert(cs.subrange(i as int, cs.len() as int).drop_first() =~= cs.subrange(i + 1, cs.len() as int));
        assert(cs.subrange(i as int, cs.len() as int)[0] == cs[i as int]);
        assert(cs[i as int] == cands@[i as int]@);
        if holds_path(existing, &cands[i]) {
            return Some(cands[i].clone());
        }
        i = i + 1;
    }
    None
}

} // verus!
